//! Fields shared by service access point primitives.
use vstd::prelude::*;

verus! {

/// Kind of physical channel.
#[derive(Debug, Clone, Copy, PartialEq, Eq, Structural)]
pub enum PhysicalChannel {
    Tp,
    Cp,
    Unallocated,
}

/// Endpoint identifier between MLE and LLC, and between LLC and MAC; here the
/// timeslot number used by the MAC.
pub type EndpointId = u32;

/// Identifier of an advanced link.
pub type LinkId = u32;

/// Handle assigned by MLE to primitives for MM/CMCE/SNDCP
pub type MleHandle = u32;

/// Layer 2 service used for a message.
#[derive(Debug, Clone, Copy, PartialEq, Eq, Structural)]
pub enum Layer2Service {
    /// Not yet decided; behaves as Acknowledged
    Todo,
    /// Use acknowledged BL-DATA (or BL-ADATA) service
    Acknowledged,
    /// Use unacknowledged BL-UDATA service
    Unacknowledged,
}

} // verus!
