//! Subscriber identities.
use vstd::prelude::*;
use vstd::string::StringExecFns;
use crate::text::{decimal, push_decimal};

verus! {

/// Kind of short subscriber identity.
#[derive(Copy, Debug, Clone, PartialEq, Eq, Structural)]
pub enum SsiType {
    Unknown,
    /// Generic type when specific type unknown. Avoid using where possible.
    Ssi,
    /// Individual Short Subscriber Identity
    Issi,
    /// Group Short Subscriber Identity
    Gssi,
    Ussi,
    Smi,
    /// Only usable in Umac, needs to be replaced with true SSI
    EventLabel,
}

/// Display name of an identity kind.
pub open spec fn ssi_type_name(t: SsiType) -> Seq<char> {
    match t {
        SsiType::Unknown => "Unknown"@,
        SsiType::Ssi => "SSI"@,
        SsiType::Issi => "ISSI"@,
        SsiType::Gssi => "GSSI"@,
        SsiType::Ussi => "USSI"@,
        SsiType::Smi => "SMI"@,
        SsiType::EventLabel => "EventLabel"@,
    }
}

impl SsiType {
    /// The display name of this identity kind.
    pub fn name(&self) -> (r: &'static str)
        ensures
            r@ == ssi_type_name(*self),
    {
        match self {
            SsiType::Unknown => "Unknown",
            SsiType::Ssi => "SSI",
            SsiType::Issi => "ISSI",
            SsiType::Gssi => "GSSI",
            SsiType::Ussi => "USSI",
            SsiType::Smi => "SMI",
            SsiType::EventLabel => "EventLabel",
        }
    }
}

/// A TETRA address: a short subscriber identity and its kind.
#[derive(Copy, Debug, Clone, PartialEq, Eq, Structural)]
pub struct TetraAddress {
    pub ssi: u32,
    pub ssi_type: SsiType,
    /// Set to true if the address is an ESI (Encrypted Subscriber Identity);
    /// still-encrypted SSIs can be passed up the stack this way.
    pub encrypted: bool,
}

impl TetraAddress {
    /// An unencrypted address of the given kind.
    pub fn new(ssi: u32, ssi_type: SsiType) -> (r: Self)
        ensures
            r == (TetraAddress { ssi, ssi_type, encrypted: false }),
    {
        Self { ssi, ssi_type, encrypted: false }
    }

    /// An unencrypted individual (ISSI) address.
    pub open spec fn issi_spec(ssi: u32) -> Self {
        TetraAddress { ssi, ssi_type: SsiType::Issi, encrypted: false }
    }

    /// An unencrypted individual (ISSI) address.
    pub fn issi(ssi: u32) -> (r: Self)
        ensures
            r == Self::issi_spec(ssi),
    {
        Self::new(ssi, SsiType::Issi)
    }

    /// The address as text: "E_" for an encrypted identity, then the kind, ':' and the SSI.
    pub fn to_text(&self) -> (r: String)
        ensures
            r@ == (if self.encrypted { "E_"@ } else { Seq::<char>::empty() }) + ssi_type_name(self.ssi_type) + ":"@
                + decimal(self.ssi as nat),
    {
        let mut r = String::new();
        if self.encrypted {
            r.append("E_");
        }
        r.append(self.ssi_type.name());
        r.append(":");
        push_decimal(&mut r, self.ssi as u64);
        proof {
            reveal_strlit("");
        }
        assert(r@ =~= (if self.encrypted { "E_"@ } else { Seq::<char>::empty() }) + ssi_type_name(self.ssi_type) + ":"@
            + decimal(self.ssi as nat));
        r
    }
}

} // verus!
