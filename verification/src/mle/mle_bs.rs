//! Base-station MLE: where an uplink PDU from the LLC goes, by its protocol discriminator.
use vstd::prelude::*;
use crate::address::TetraAddress;
use crate::bitbuffer::BitBuffer;
use crate::bits::bits_value;
use crate::mle::mle_router::{MleConnState, MleRouter};
use crate::sap_fields::{EndpointId, LinkId};
use crate::tdma_time::TdmaTime;

verus! {

/// The MLE protocol discriminator: the first 3 bits of an MLE PDU.
#[derive(Debug, Clone, Copy, PartialEq, Eq, Structural)]
pub enum MleProtocolDiscriminator {
    /// 0b001: mobility management.
    Mm,
    /// 0b010: circuit mode control entity.
    Cmce,
    /// 0b100: subnetwork dependent convergence protocol.
    Sndcp,
    /// 0b101: MLE itself.
    Mle,
    /// 0b110: TETRA management entity.
    TetraManagementEntity,
}

/// The protocol that discriminator value `v` names.
pub open spec fn discriminator_of(v: nat) -> Option<MleProtocolDiscriminator> {
    if v == 1 {
        Some(MleProtocolDiscriminator::Mm)
    } else if v == 2 {
        Some(MleProtocolDiscriminator::Cmce)
    } else if v == 4 {
        Some(MleProtocolDiscriminator::Sndcp)
    } else if v == 5 {
        Some(MleProtocolDiscriminator::Mle)
    } else if v == 6 {
        Some(MleProtocolDiscriminator::TetraManagementEntity)
    } else {
        None
    }
}

/// Where an uplink PDU goes.
#[derive(Debug, Clone, Copy, PartialEq, Eq, Structural)]
pub enum MleRoute {
    /// Fewer than 3 bits: dropped.
    TooShort,
    /// The discriminator names no protocol: dropped.
    Invalid { value: u64 },
    /// To mobility management, under a new handle for the connection.
    ToMm { handle: u32, received_address: TetraAddress },
    /// To the CMCE, under a new handle for the connection.
    ToCmce { handle: u32, received_address: TetraAddress, endpoint_id: EndpointId, link_id: LinkId },
    /// To the SNDCP (through the CMCE).
    ToSndcp { received_address: TetraAddress, endpoint_id: EndpointId, link_id: LinkId },
    /// An MLE PDU, for MLE itself.
    ToMle,
    /// For the TETRA management entity, which is not handled.
    ToTme,
}

/// Base-station mobile link entity.
pub struct MleBs {
    pub router: MleRouter,
}

/// The discriminator value at the start of `sdu`, when it holds 3 bits there.
pub open spec fn leading_discriminator(sdu: crate::bitbuffer::BitBufferView) -> Option<nat> {
    if sdu.pos + 3 <= sdu.end {
        Some(bits_value(sdu.bits(), sdu.pos as int, 3))
    } else {
        None
    }
}

/// The discriminator value names a protocol that gets a new connection handle.
pub open spec fn needs_handle(sdu: crate::bitbuffer::BitBufferView) -> bool {
    leading_discriminator(sdu) matches Some(v) && (v == 1 || v == 2)
}

impl MleBs {
    /// An MLE with no connection handles.
    pub fn new() -> (r: Self)
        ensures
            r.router.conns() == Map::<u32, MleConnState>::empty(),
            r.router.next() == 1,
            r.router.wf(),
    {
        MleBs { router: MleRouter::new() }
    }

    /// Route an uplink PDU `sdu` received from `main_address` on link `link_id` and endpoint
    /// `endpoint_id` at `dltime`, reading its 3-bit protocol discriminator. PDUs for mobility
    /// management and the CMCE get a new handle for the connection; the rest of `sdu` is their
    /// PDU.
    pub fn rx_tla_data_ind_bl(
        &mut self,
        sdu: &mut BitBuffer,
        main_address: TetraAddress,
        link_id: LinkId,
        endpoint_id: EndpointId,
        dltime: TdmaTime,
    ) -> (r: MleRoute)
        requires
            old(sdu)@.wf(),
            old(sdu)@.pos == old(sdu)@.start,
            needs_handle(old(sdu)@) ==> old(self).router.next() < u32::MAX,
        ensures
            leading_discriminator(old(sdu)@) is None ==> r == MleRoute::TooShort && final(sdu)@ == old(sdu)@
                && final(self).router.conns() == old(self).router.conns() && final(self).router.next()
                == old(self).router.next(),
            leading_discriminator(old(sdu)@) matches Some(v) ==> {
                &&& final(sdu)@ == (crate::bitbuffer::BitBufferView { pos: old(sdu)@.pos + 3, ..old(sdu)@ })
                &&& if v == 1 || v == 2 {
                    let h = old(self).router.next();
                    &&& final(self).router.next() == h + 1
                    &&& final(self).router.conns() == old(self).router.conns().insert(
                        h,
                        MleConnState {
                            handle: h,
                            addr: main_address,
                            link_id,
                            endpoint_id,
                            ts_created: dltime,
                            ts_last_used: dltime,
                        },
                    )
                    &&& r == if v == 1 {
                        MleRoute::ToMm { handle: h, received_address: main_address }
                    } else {
                        MleRoute::ToCmce { handle: h, received_address: main_address, endpoint_id, link_id }
                    }
                } else {
                    &&& final(self).router.conns() == old(self).router.conns()
                    &&& final(self).router.next() == old(self).router.next()
                    &&& r == match discriminator_of(v) {
                        Some(MleProtocolDiscriminator::Sndcp) => MleRoute::ToSndcp {
                            received_address: main_address,
                            endpoint_id,
                            link_id,
                        },
                        Some(MleProtocolDiscriminator::Mle) => MleRoute::ToMle,
                        Some(MleProtocolDiscriminator::TetraManagementEntity) => MleRoute::ToTme,
                        _ => MleRoute::Invalid { value: v as u64 },
                    }
                }
            },
            old(self).router.wf() ==> final(self).router.wf(),
    {
        let bits = match sdu.read_bits(3) {
            Some(b) => b,
            None => {
                return MleRoute::TooShort;
            },
        };
        proof {
            crate::bits::lemma_bits_value_bound(old(sdu)@.bits(), old(sdu)@.pos as int, 3);
            vstd::arithmetic::power2::lemma2_to64();
        }
        if bits == 1 {
            let handle = self.router.create_handle(main_address, link_id, endpoint_id, dltime);
            MleRoute::ToMm { handle, received_address: main_address }
        } else if bits == 2 {
            let handle = self.router.create_handle(main_address, link_id, endpoint_id, dltime);
            MleRoute::ToCmce { handle, received_address: main_address, endpoint_id, link_id }
        } else if bits == 4 {
            MleRoute::ToSndcp { received_address: main_address, endpoint_id, link_id }
        } else if bits == 5 {
            MleRoute::ToMle
        } else if bits == 6 {
            MleRoute::ToTme
        } else {
            MleRoute::Invalid { value: bits }
        }
    }
}

} // verus!
