use bluestation::address::{SsiType, TetraAddress};
use bluestation::bitbuffer::BitBuffer;
use bluestation::cmce::cc_bs::{CallOrigin, CcAction, CcBsSubentity, ChanAlloc, ReplyRoute, USetupFields};
use bluestation::timeslot_alloc::{TimeslotAllocator, TimeslotOwner};
use bluestation::cmce::circuit_mgr::CommunicationType;
use bluestation::llc::fcs::compute_fcs;
use bluestation::llc::llc_bs_ms::{Llc, LlcRx};
use bluestation::mle::mle_bs::{MleBs, MleRoute};
use bluestation::mm::mm_bs::{
    AttachDetachGroupIdentity, EnergySavingMode, GroupAttachment, GroupDownlink, GroupUplink, LocationUpdateDemand,
    LocationUpdateType, MmBs, MmPdu, StatusUplink, SubscriberAction, decode_requested_esm,
};
use bluestation::tdma_time::TdmaTime;

fn group_setup(gssi: u64) -> USetupFields {
    USetupFields {
        area_selection: 0,
        hook_method_selection: false,
        simplex_duplex_selection: false,
        comm_type: CommunicationType::P2Mp,
        call_priority: 3,
        called_party_ssi: Some(gssi),
    }
}

const ROUTE: ReplyRoute = ReplyRoute { handle: 17, link_id: 2, endpoint_id: 3 };

fn gssi_addr(ssi: u32) -> TetraAddress {
    TetraAddress::new(ssi, SsiType::Gssi)
}

#[test]
fn u_setup_opens_group_call_and_grants_caller() {
    let mut cc = CcBsSubentity::new(true);
    let mut alloc = TimeslotAllocator::default();
    let caller = TetraAddress::issi(1001);
    let actions = cc.rx_u_setup(&group_setup(91), caller, ROUTE, &mut alloc);
    assert_eq!(actions.len(), 5);
    match actions[0] {
        CcAction::OpenCircuit(c) => {
            assert_eq!((c.ts, c.call_id, c.usage), (2, 4, 4));
        }
        _ => panic!("expected the circuit to open first"),
    }
    assert_eq!(actions[1], CcAction::CallProceeding { call_id: 4, to: caller, route: ROUTE });
    assert_eq!(
        actions[2],
        CcAction::Connect { call_id: 4, to: caller, route: ROUTE, granted: true, chan: Some(ChanAlloc { usage: 4, ts: 2 }) }
    );
    assert_eq!(
        actions[3],
        CcAction::Setup {
            call_id: 4,
            to: gssi_addr(91),
            calling_ssi: 1001,
            comm_type: CommunicationType::P2Mp,
            call_priority: 3,
            usage: 4,
            ts: 2
        }
    );
    assert_eq!(actions[4], CcAction::BrewFloorGranted { call_id: 4, source_issi: 1001, dest_gssi: 91, ts: 2 });
    assert_eq!(cc.active_calls.len(), 1);
    assert_eq!(cc.active_calls[0].origin, CallOrigin::Local { caller_addr: caller });
    assert!(cc.active_calls[0].tx_active);
    assert_eq!(cc.cached_setups[0].dest, gssi_addr(91));
}

#[test]
fn u_setup_refusals_change_nothing() {
    let mut cc = CcBsSubentity::new(false);
    let mut alloc = TimeslotAllocator::default();
    let caller = TetraAddress::issi(7);
    let mut hook = group_setup(91);
    hook.hook_method_selection = true;
    assert!(cc.rx_u_setup(&hook, caller, ROUTE, &mut alloc).is_empty());
    let mut area = group_setup(91);
    area.area_selection = 2;
    assert!(cc.rx_u_setup(&area, caller, ROUTE, &mut alloc).is_empty());
    let mut nobody = group_setup(91);
    nobody.called_party_ssi = None;
    assert!(cc.rx_u_setup(&nobody, caller, ROUTE, &mut alloc).is_empty());
    assert!(cc.active_calls.is_empty());
    // three timeslots, then none is free
    for g in 0..3u64 {
        assert_eq!(cc.rx_u_setup(&group_setup(100 + g), caller, ROUTE, &mut alloc).len(), 4);
    }
    assert!(cc.rx_u_setup(&group_setup(200), caller, ROUTE, &mut alloc).is_empty());
    assert_eq!(cc.active_calls.len(), 3);
}

#[test]
fn floor_release_then_demand() {
    let mut cc = CcBsSubentity::new(true);
    let mut alloc = TimeslotAllocator::default();
    let caller = TetraAddress::issi(1001);
    cc.rx_u_setup(&group_setup(91), caller, ROUTE, &mut alloc);
    let ceased = cc.rx_u_tx_ceased(4);
    assert_eq!(
        ceased,
        vec![
            CcAction::TxCeased { call_id: 4, to: gssi_addr(91), ts: 2 },
            CcAction::UmacFloorReleased { call_id: 4, ts: 2 },
            CcAction::BrewFloorReleased { call_id: 4, ts: 2 },
        ]
    );
    assert!(!cc.active_calls[0].tx_active);
    assert_eq!(cc.active_calls[0].hangtime_start, Some(cc.dltime));
    // a repeated release during hangtime is ignored
    assert!(cc.rx_u_tx_ceased(4).is_empty());
    let other = TetraAddress::issi(1002);
    let granted = cc.rx_u_tx_demand(4, other);
    assert_eq!(
        granted,
        vec![
            CcAction::TxGranted { call_id: 4, to: gssi_addr(91), granted: true, source_issi: 1002, ts: 2 },
            CcAction::UmacFloorGranted { call_id: 4, source_issi: 1002, dest_gssi: 91, ts: 2 },
            CcAction::BrewFloorGranted { call_id: 4, source_issi: 1002, dest_gssi: 91, ts: 2 },
        ]
    );
    assert_eq!(cc.active_calls[0].source_issi, 1002);
    assert_eq!(cc.active_calls[0].origin, CallOrigin::Local { caller_addr: other });
    assert!(cc.active_calls[0].tx_active);
    assert_eq!(cc.active_calls[0].hangtime_start, None);
    // unknown calls
    assert!(cc.rx_u_tx_demand(99, other).is_empty());
    assert!(cc.rx_u_tx_ceased(99).is_empty());
}

#[test]
fn network_call_start_and_speaker_change() {
    let mut cc = CcBsSubentity::new(true);
    let mut alloc = TimeslotAllocator::default();
    let started = cc.rx_network_call_start(0xabcd, 2001, 91, 0, &mut alloc);
    assert_eq!(started.len(), 4);
    assert_eq!(
        started[1],
        CcAction::Setup {
            call_id: 4,
            to: gssi_addr(91),
            calling_ssi: 2001,
            comm_type: CommunicationType::P2Mp,
            call_priority: 0,
            usage: 4,
            ts: 2
        }
    );
    assert_eq!(started[2], CcAction::Connect { call_id: 4, to: gssi_addr(91), route: ReplyRoute { handle: 0, link_id: 0, endpoint_id: 0 }, granted: false, chan: None });
    assert_eq!(started[3], CcAction::BrewNetworkCallReady { brew_uuid: 0xabcd, call_id: 4, ts: 2, usage: 4 });
    let change = cc.rx_network_call_start(0xabcd, 2002, 91, 0, &mut alloc);
    assert_eq!(
        change,
        vec![
            CcAction::TxGranted { call_id: 4, to: gssi_addr(91), granted: false, source_issi: 2002, ts: 2 },
            CcAction::UmacFloorGranted { call_id: 4, source_issi: 2002, dest_gssi: 91, ts: 2 },
            CcAction::BrewNetworkCallReady { brew_uuid: 0xabcd, call_id: 4, ts: 2, usage: 4 },
        ]
    );
    assert_eq!(cc.active_calls.len(), 1);
    assert_eq!(cc.active_calls[0].source_issi, 2002);
    // a network call's floor release is not reported to the bridge
    assert_eq!(cc.rx_u_tx_ceased(4).len(), 2);
}

#[test]
fn mle_routes_by_discriminator() {
    let mut mle = MleBs::new();
    let addr = TetraAddress::issi(55);
    let t = TdmaTime { h: 0, m: 1, f: 2, t: 3 };
    let mut mm = BitBuffer::from_bitstr("0011111");
    assert_eq!(mle.rx_tla_data_ind_bl(&mut mm, addr, 1, 2, t), MleRoute::ToMm { handle: 1, received_address: addr });
    assert_eq!(mm.get_pos(), 3);
    let mut cmce = BitBuffer::from_bitstr("010");
    assert_eq!(
        mle.rx_tla_data_ind_bl(&mut cmce, addr, 1, 2, t),
        MleRoute::ToCmce { handle: 2, received_address: addr, endpoint_id: 2, link_id: 1 }
    );
    let mut sndcp = BitBuffer::from_bitstr("100");
    assert_eq!(
        mle.rx_tla_data_ind_bl(&mut sndcp, addr, 1, 2, t),
        MleRoute::ToSndcp { received_address: addr, endpoint_id: 2, link_id: 1 }
    );
    let mut own = BitBuffer::from_bitstr("101");
    assert_eq!(mle.rx_tla_data_ind_bl(&mut own, addr, 1, 2, t), MleRoute::ToMle);
    let mut tme = BitBuffer::from_bitstr("110");
    assert_eq!(mle.rx_tla_data_ind_bl(&mut tme, addr, 1, 2, t), MleRoute::ToTme);
    let mut bad = BitBuffer::from_bitstr("111");
    assert_eq!(mle.rx_tla_data_ind_bl(&mut bad, addr, 1, 2, t), MleRoute::Invalid { value: 7 });
    let mut short = BitBuffer::from_bitstr("01");
    assert_eq!(mle.rx_tla_data_ind_bl(&mut short, addr, 1, 2, t), MleRoute::TooShort);
    assert_eq!(short.get_pos(), 0);
    // only MM and CMCE took handles
    assert_eq!(mle.router.dump_mappings().len(), 2);
}

#[test]
fn llc_receives_basic_link_pdus() {
    let mut llc = Llc::new();
    let addr = TetraAddress::issi(77);
    let t = TdmaTime { h: 0, m: 1, f: 2, t: 3 };
    // BL-DATA, N(S) = 1, 3 payload bits
    let mut data = BitBuffer::from_bitstr("00011101");
    assert_eq!(
        llc.rx_tma_unitdata_ind_bl(&mut data, t, addr),
        LlcRx::ToMle { acknowledged: true, has_fcs: false, nr: None, ns: Some(1) }
    );
    assert_eq!(data.get_pos(), 0);
    assert_eq!(data.get_raw_start(), 5);
    assert_eq!(llc.get_out_ack_seq_if_any(3, addr), Some(1));
    // BL-ADATA, N(R) = 1, N(S) = 0
    let mut adata = BitBuffer::from_bitstr("00001011");
    assert_eq!(
        llc.rx_tma_unitdata_ind_bl(&mut adata, t, addr),
        LlcRx::ToMle { acknowledged: true, has_fcs: false, nr: Some(1), ns: Some(0) }
    );
    assert_eq!(llc.get_out_ack_seq_if_any(3, addr), Some(0));
    // BL-UDATA
    let mut udata = BitBuffer::from_bitstr("00101");
    assert_eq!(
        llc.rx_tma_unitdata_ind_bl(&mut udata, t, addr),
        LlcRx::ToMle { acknowledged: false, has_fcs: false, nr: None, ns: None }
    );
    // BL-ACK, N(R) = 1
    let mut ack = BitBuffer::from_bitstr("00111");
    assert_eq!(llc.rx_tma_unitdata_ind_bl(&mut ack, t, addr), LlcRx::Ack { nr: 1 });
    assert_eq!(llc.get_out_ack_seq_if_any(3, addr), None);
    // too short for the type or the header
    let mut short = BitBuffer::from_bitstr("000");
    assert_eq!(llc.rx_tma_unitdata_ind_bl(&mut short, t, addr), LlcRx::TooShort);
    let mut header = BitBuffer::from_bitstr("00000");
    assert_eq!(llc.rx_tma_unitdata_ind_bl(&mut header, t, addr), LlcRx::HeaderTooShort);
}

#[test]
fn llc_checks_the_frame_check_sequence() {
    let mut llc = Llc::new();
    let addr = TetraAddress::issi(77);
    let t = TdmaTime { h: 0, m: 1, f: 2, t: 3 };
    // BL-UDATA with FCS: type 6, 8 payload bits, then the FCS over them
    let mut good = BitBuffer::new_autoexpand(8);
    good.write_bits(6, 4);
    good.write_bits(0xa5, 8);
    let fcs = compute_fcs(&good, 4, 12);
    good.write_bits(fcs as u64, 32);
    good.seek(0);
    let mut bad = BitBuffer::from_bitstr(&good.to_bitstr());
    assert_eq!(
        llc.rx_tma_unitdata_ind_bl(&mut good, t, addr),
        LlcRx::ToMle { acknowledged: false, has_fcs: true, nr: None, ns: None }
    );
    let last = bad.get_len() - 1;
    let flipped = if bad.to_bitstr().ends_with('1') { "0" } else { "1" };
    let mut s = bad.to_bitstr();
    s.replace_range(last..last + 1, flipped);
    bad = BitBuffer::from_bitstr(&s);
    assert_eq!(llc.rx_tma_unitdata_ind_bl(&mut bad, t, addr), LlcRx::FcsFailed);
}

fn demand(t: LocationUpdateType) -> LocationUpdateDemand {
    LocationUpdateDemand {
        location_update_type: t,
        request_to_append_la: false,
        cipher_control: false,
        ciphering_parameters: None,
        address_extension: None,
        energy_saving_mode: Some(EnergySavingMode::Eg3),
        class_of_ms: Some(0x123),
        group_identity_location_demand: None,
    }
}

fn attach(gssi: u32) -> GroupUplink {
    GroupUplink { gssi: Some(gssi), vgssi: None, address_extension: None, detachment: None, class_of_usage: Some(4) }
}

fn detach(gssi: u32) -> GroupUplink {
    GroupUplink { gssi: Some(gssi), vgssi: None, address_extension: None, detachment: Some(1), class_of_usage: None }
}

#[test]
fn location_update_registers_and_accepts() {
    let mut mm = MmBs::new();
    let mut d = demand(LocationUpdateType::RoamingLocationUpdating);
    d.group_identity_location_demand = Some(Some(vec![attach(91), attach(92)]));
    let r = mm.rx_u_location_update_demand(&d, 1001, 5);
    assert_eq!(r.updates.len(), 2);
    assert_eq!((r.updates[0].issi, r.updates[0].action), (1001, SubscriberAction::Register));
    assert!(r.updates[0].groups.is_empty());
    assert_eq!(r.updates[1].groups, vec![91, 92]);
    assert_eq!(r.updates[1].action, SubscriberAction::Affiliate);
    assert_eq!(
        r.pdus,
        vec![
            MmPdu::LocationUpdateAccept {
                issi: 1001,
                handle: 5,
                location_update_type: LocationUpdateType::RoamingLocationUpdating,
                energy_saving_mode: Some(EnergySavingMode::StayAlive),
                group_accept: Some(true),
            },
            MmPdu::LocationUpdateCommand { issi: 1001, handle: 5 },
        ]
    );
    assert_eq!(
        r.accepted_groups[0],
        GroupDownlink { gssi: 91, attachment: Some(GroupAttachment { lifetime: 1, class_of_usage: 4 }), detachment: None }
    );
    assert_eq!(mm.clients.len(), 1);
    assert_eq!(mm.clients[0].energy_saving_mode, EnergySavingMode::StayAlive);
    assert_eq!(mm.clients[0].class_of_ms, Some(0x123));
    assert_eq!(mm.affiliations.len(), 2);
    // a known radio: no registration, no command
    let again = mm.rx_u_location_update_demand(&demand(LocationUpdateType::PeriodicLocationUpdating), 1001, 6);
    assert!(again.updates.is_empty());
    assert_eq!(again.pdus.len(), 1);
    // an ITSI attach of a new radio gets no command
    let itsi = mm.rx_u_location_update_demand(&demand(LocationUpdateType::ItsiAttach), 1002, 7);
    assert_eq!(itsi.pdus.len(), 1);
    assert_eq!(itsi.updates.len(), 1);
}

#[test]
fn location_update_refusals() {
    let mut mm = MmBs::new();
    let mut d = demand(LocationUpdateType::MigratingLocationUpdating);
    d.address_extension = Some(0x42);
    let r = mm.rx_u_location_update_demand(&d, 1001, 5);
    assert_eq!(
        r.pdus,
        vec![MmPdu::LocationUpdateReject {
            issi: 1001,
            handle: 5,
            location_update_type: LocationUpdateType::MigratingLocationUpdating,
            address_extension: Some(0x42),
        }]
    );
    assert!(mm.clients.is_empty());
    let mut ciphered = demand(LocationUpdateType::RoamingLocationUpdating);
    ciphered.cipher_control = true;
    let r = mm.rx_u_location_update_demand(&ciphered, 1001, 5);
    assert!(r.pdus.is_empty() && r.updates.is_empty());
    let r = mm.rx_u_location_update_demand(&demand(LocationUpdateType::DisabledMsUpdating), 1001, 5);
    assert!(r.pdus.is_empty());
    assert!(mm.clients.is_empty());
}

#[test]
fn mm_status_energy_saving() {
    let mut mm = MmBs::new();
    mm.rx_u_location_update_demand(&demand(LocationUpdateType::ItsiAttach), 1001, 5);
    let addr = TetraAddress::issi(1001);
    let r = mm.rx_u_mm_status(StatusUplink::ChangeOfEnergySavingModeRequest, Some(0b011), Some(3), 1001, 5, addr);
    assert_eq!(r.pdus, vec![MmPdu::MmStatusEnergySaving { issi: 1001, handle: 5, energy_saving_mode: EnergySavingMode::StayAlive }]);
    let r = mm.rx_u_mm_status(StatusUplink::ChangeOfEnergySavingModeResponse, Some(0b10110), Some(5), 1001, 5, addr);
    assert!(r.pdus.is_empty());
    assert_eq!(mm.clients[0].energy_saving_mode, EnergySavingMode::Eg5);
    let r = mm.rx_u_mm_status(StatusUplink::Other { raw: 9 }, None, None, 1001, 5, addr);
    assert_eq!(r.pdus, vec![MmPdu::FunctionNotSupported { handle: 5, address: addr, status: 9 }]);
    assert_eq!(decode_requested_esm(Some(0b111), Some(2)), EnergySavingMode::StayAlive);
    assert_eq!(decode_requested_esm(None, Some(8)), EnergySavingMode::StayAlive);
    assert_eq!(decode_requested_esm(Some(0b001_0000), Some(7)), EnergySavingMode::Eg1);
}

#[test]
fn attach_detach_groups() {
    let mut mm = MmBs::new();
    // an unknown radio's groups are not accepted
    let early = AttachDetachGroupIdentity { group_identity_attach_detach_mode: false, group_identity_uplink: Some(vec![attach(90)]) };
    let r = mm.rx_u_attach_detach_group_identity(&early, 1001, 3);
    assert_eq!(r.pdus, vec![MmPdu::AttachDetachAck { issi: 1001, handle: 3 }]);
    assert!(r.accepted_groups.is_empty() && r.updates.is_empty());
    assert!(mm.affiliations.is_empty());
    mm.rx_u_location_update_demand(&demand(LocationUpdateType::ItsiAttach), 1001, 5);
    let add = AttachDetachGroupIdentity {
        group_identity_attach_detach_mode: false,
        group_identity_uplink: Some(vec![attach(91), attach(92), attach(91)]),
    };
    let r = mm.rx_u_attach_detach_group_identity(&add, 1001, 3);
    assert_eq!(r.pdus, vec![MmPdu::AttachDetachAck { issi: 1001, handle: 3 }]);
    assert_eq!(r.accepted_groups.len(), 3);
    assert_eq!(r.updates.len(), 1);
    assert_eq!(r.updates[0].groups, vec![91, 92]);
    assert_eq!(mm.affiliations.len(), 2);
    let drop = AttachDetachGroupIdentity { group_identity_attach_detach_mode: false, group_identity_uplink: Some(vec![detach(91), detach(93)]) };
    let r = mm.rx_u_attach_detach_group_identity(&drop, 1001, 3);
    assert_eq!(r.updates.len(), 1);
    assert_eq!((r.updates[0].groups.clone(), r.updates[0].action), (vec![91], SubscriberAction::Deaffiliate));
    assert_eq!(r.accepted_groups[1], GroupDownlink { gssi: 93, attachment: None, detachment: Some(1) });
    // replace mode: an unknown radio registers, a known one loses its groups first
    let replace = AttachDetachGroupIdentity { group_identity_attach_detach_mode: true, group_identity_uplink: Some(vec![attach(95)]) };
    let r = mm.rx_u_attach_detach_group_identity(&replace, 1002, 3);
    assert_eq!(r.updates[0].action, SubscriberAction::Register);
    assert_eq!((r.updates[1].groups.clone(), r.updates[1].action), (vec![95], SubscriberAction::Affiliate));
    assert_eq!(mm.clients.len(), 2);
    let r = mm.rx_u_attach_detach_group_identity(&replace, 1001, 3);
    assert_eq!((r.updates[0].groups.clone(), r.updates[0].action), (vec![92], SubscriberAction::Deaffiliate));
    assert_eq!((r.updates[1].groups.clone(), r.updates[1].action), (vec![95], SubscriberAction::Affiliate));
    assert_eq!(mm.affiliations.len(), 2);
    // no group list: dropped
    let none = AttachDetachGroupIdentity { group_identity_attach_detach_mode: true, group_identity_uplink: None };
    assert!(mm.rx_u_attach_detach_group_identity(&none, 1001, 3).pdus.is_empty());
}

#[test]
fn u_release_closes_call_and_circuit() {
    let mut cc = CcBsSubentity::new(true);
    let mut alloc = TimeslotAllocator::default();
    let caller = TetraAddress::issi(1001);
    let opened = cc.rx_u_setup(&group_setup(91), caller, ROUTE, &mut alloc);
    let circuit = match opened[0] {
        CcAction::OpenCircuit(c) => c,
        _ => panic!("expected the circuit to open first"),
    };
    let released = cc.rx_u_release(4, &mut alloc);
    assert_eq!(
        released,
        vec![
            CcAction::Release { call_id: 4, to: gssi_addr(91) },
            CcAction::CloseCircuit(circuit),
            CcAction::UmacCallEnded { call_id: 4, ts: 2 },
            CcAction::BrewCallEnded { call_id: 4, ts: 2 },
        ]
    );
    assert!(cc.active_calls.is_empty());
    assert!(cc.cached_setups.is_empty());
    assert_eq!(cc.circuits.is_active(2), (false, false));
    // unknown call: nothing
    assert!(cc.rx_u_release(4, &mut alloc).is_empty());
    // the timeslot is free again
    assert_eq!(cc.rx_u_setup(&group_setup(92), caller, ROUTE, &mut alloc).len(), 5);
    assert_eq!(cc.active_calls[0].ts, 2);
}

#[test]
fn network_call_end_enters_hangtime_then_releases() {
    let mut cc = CcBsSubentity::new(true);
    let mut alloc = TimeslotAllocator::default();
    cc.rx_network_call_start(0x77, 2001, 91, 0, &mut alloc);
    assert!(cc.rx_network_call_end(0x99, &mut alloc).is_empty());
    let ceased = cc.rx_network_call_end(0x77, &mut alloc);
    assert_eq!(
        ceased,
        vec![
            CcAction::TxCeased { call_id: 4, to: gssi_addr(91), ts: 2 },
            CcAction::UmacFloorReleased { call_id: 4, ts: 2 },
        ]
    );
    assert!(!cc.active_calls[0].tx_active);
    let released = cc.rx_network_call_end(0x77, &mut alloc);
    assert_eq!(released.len(), 3);
    assert_eq!(released[0], CcAction::Release { call_id: 4, to: gssi_addr(91) });
    assert_eq!(released[2], CcAction::UmacCallEnded { call_id: 4, ts: 2 });
    assert!(cc.active_calls.is_empty());
}

#[test]
fn itsi_detach_deregisters() {
    let mut mm = MmBs::new();
    assert!(mm.rx_u_itsi_detach(1001).updates.is_empty());
    let mut d = demand(LocationUpdateType::ItsiAttach);
    d.group_identity_location_demand = Some(Some(vec![attach(91)]));
    mm.rx_u_location_update_demand(&d, 1001, 5);
    mm.rx_u_location_update_demand(&demand(LocationUpdateType::ItsiAttach), 1002, 6);
    let r = mm.rx_u_itsi_detach(1001);
    assert!(r.pdus.is_empty());
    assert_eq!(r.updates.len(), 2);
    assert_eq!((r.updates[0].groups.clone(), r.updates[0].action), (vec![91], SubscriberAction::Deaffiliate));
    assert_eq!((r.updates[1].issi, r.updates[1].action), (1001, SubscriberAction::Deregister));
    assert!(r.updates[1].groups.is_empty());
    assert_eq!(mm.clients.len(), 1);
    assert_eq!(mm.clients[0].issi, 1002);
    assert!(mm.affiliations.is_empty());
    // without groups only the deregistration
    let r = mm.rx_u_itsi_detach(1002);
    assert_eq!(r.updates.len(), 1);
    assert_eq!(r.updates[0].action, SubscriberAction::Deregister);
}

#[test]
fn hangtime_expiry_releases_idle_calls() {
    let mut cc = CcBsSubentity::new(false);
    let mut alloc = TimeslotAllocator::default();
    let caller = TetraAddress::issi(1001);
    cc.rx_u_setup(&group_setup(91), caller, ROUTE, &mut alloc);
    cc.rx_u_setup(&group_setup(92), caller, ROUTE, &mut alloc);
    // call 4 releases the floor at the start; call 5 keeps talking
    assert_eq!(cc.rx_u_tx_ceased(4).len(), 2);
    // 5 multiframes later: not yet over
    cc.dltime = TdmaTime { h: 0, m: 6, f: 1, t: 1 };
    assert!(cc.check_hangtime_expiry(&mut alloc).is_empty());
    // one timeslot more: released
    cc.dltime = TdmaTime { h: 0, m: 6, f: 1, t: 2 };
    let released = cc.check_hangtime_expiry(&mut alloc);
    assert_eq!(released[0], CcAction::Release { call_id: 4, to: gssi_addr(91) });
    assert_eq!(released.len(), 3);
    assert_eq!(cc.active_calls.len(), 1);
    assert_eq!(cc.active_calls[0].call_id, 5);
}

#[test]
fn call_control_holds_timeslots_in_the_allocator() {
    let mut cc = CcBsSubentity::new(false);
    let mut alloc = TimeslotAllocator::default();
    // timeslot 2 is held by the bridge: the call goes to 3
    alloc.reserve(TimeslotOwner::Brew, 2).unwrap();
    let caller = TetraAddress::issi(1001);
    let actions = cc.rx_u_setup(&group_setup(91), caller, ROUTE, &mut alloc);
    assert_eq!(actions[1], CcAction::CallProceeding { call_id: 4, to: caller, route: ROUTE });
    assert_eq!(cc.active_calls[0].ts, 3);
    assert_eq!(alloc.owner(3), Some(TimeslotOwner::Cmce));
    cc.rx_u_setup(&group_setup(92), caller, ROUTE, &mut alloc);
    assert_eq!(alloc.owner(4), Some(TimeslotOwner::Cmce));
    // no timeslot left
    assert!(cc.rx_u_setup(&group_setup(93), caller, ROUTE, &mut alloc).is_empty());
    assert!(cc.rx_network_call_start(0x1, 2001, 94, 0, &mut alloc).is_empty());
    cc.rx_u_release(4, &mut alloc);
    assert_eq!(alloc.owner(3), None);
    assert_eq!(alloc.owner(2), Some(TimeslotOwner::Brew));
    assert_eq!(cc.rx_network_call_start(0x1, 2001, 94, 0, &mut alloc).len(), 3);
    assert_eq!(alloc.owner(3), Some(TimeslotOwner::Cmce));
}
