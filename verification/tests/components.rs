use bluestation::address::{SsiType, TetraAddress};
use bluestation::cmce::cc_bs_fsm::{Call, CallAction, DlCallState, PduDisposition, RemoteEvent, UlCallPdu};
use bluestation::cmce::circuit_mgr::{CircuitErr, CircuitMgr, CircuitMgrCmd, CircuitModeType, CommunicationType};
use bluestation::llc::llc_bs_ms::{Llc, ScheduledOutAck};
use bluestation::messagerouter::{MessagePrio, MessageQueue};
use bluestation::mle::broadcast::{BroadcastType, MleBroadcast};
use bluestation::direction::Direction;
use bluestation::mle::mle_router::MleRouter;
use bluestation::tdma_time::TdmaTime;
use bluestation::timeslot_alloc::{TimeslotAllocErr, TimeslotAllocator, TimeslotOwner};

#[test]
fn test_dl_call_fsm() {
    let mut call = Call::new(1001, false, 2001, true, true, false);
    call.handle_pdu(UlCallPdu::UAlert);
}

#[test]
fn call_pdu_dispositions() {
    let mut call = Call::new(1001, true, 2001, true, true, true);
    assert_eq!(call.handle_pdu(UlCallPdu::UAlert), PduDisposition::Discarded);
    assert_eq!(call.handle_pdu(UlCallPdu::USetup), PduDisposition::SetupNotAccepted);
}

#[test]
fn remote_events_drive_the_call() {
    let mut call = Call::new(1001, false, 2001, true, true, false);
    assert_eq!(
        call.handle_remote_event(RemoteEvent::NewCall),
        vec![CallAction::SendDSetup(2001), CallAction::SignalUmacDlCircuit]
    );
    assert_eq!(call.handle_pdu(UlCallPdu::USetup), PduDisposition::Discarded);
    assert_eq!(call.handle_pdu(UlCallPdu::UTxDemand), PduDisposition::NotImplemented);
    assert_eq!(call.handle_pdu(UlCallPdu::UTxCeased), PduDisposition::Discarded);
    assert_eq!(
        call.handle_remote_event(RemoteEvent::CallActive),
        vec![CallAction::SendDCallProceeding(1001)]
    );
    assert_eq!(call.handle_remote_event(RemoteEvent::TxCeased), vec![CallAction::SendDTxCeased]);
    assert_eq!(call.handle_pdu(UlCallPdu::UInfo), PduDisposition::Discarded);
    assert_eq!(call.handle_remote_event(RemoteEvent::CallActive), vec![CallAction::SendDTxContinue]);
    assert_eq!(call.handle_remote_event(RemoteEvent::NewCall), vec![CallAction::Unhandled]);
    let _ = DlCallState::Disconnected;
}

#[test]
fn timeslots_reserve_and_release() {
    let mut alloc = TimeslotAllocator::default();
    assert_eq!(alloc.allocate_any(TimeslotOwner::Cmce), Some(2));
    assert_eq!(alloc.reserve(TimeslotOwner::Brew, 3), Ok(()));
    assert_eq!(
        alloc.reserve(TimeslotOwner::Cmce, 3),
        Err(TimeslotAllocErr::InUse { ts: 3, owner: TimeslotOwner::Brew })
    );
    assert_eq!(alloc.reserve(TimeslotOwner::Cmce, 1), Err(TimeslotAllocErr::InvalidTimeslot(1)));
    assert_eq!(
        alloc.release(TimeslotOwner::Cmce, 3),
        Err(TimeslotAllocErr::OwnerMismatch { ts: 3, owner: TimeslotOwner::Cmce, actual: TimeslotOwner::Brew })
    );
    assert_eq!(alloc.release(TimeslotOwner::Cmce, 4), Err(TimeslotAllocErr::NotAllocated { ts: 4 }));
    assert_eq!(alloc.release(TimeslotOwner::Brew, 3), Ok(()));
    assert!(alloc.is_free(3));
    assert_eq!(alloc.owner(2), Some(TimeslotOwner::Cmce));
}

#[test]
fn mle_handles_resolve() {
    let mut router = MleRouter::new();
    let t0 = TdmaTime::default();
    let t1 = TdmaTime { h: 0, m: 2, f: 3, t: 4 };
    let addr = TetraAddress::new(1234, SsiType::Issi);
    let h1 = router.create_handle(addr, 7, 2, t0);
    let h2 = router.create_handle(TetraAddress::issi(99), 8, 3, t0);
    assert_eq!(h1, 1);
    assert_eq!(h2, 2);
    assert_eq!(router.use_handle(h1, t1), (addr, 7, 2));
    assert_eq!(router.dump_mappings().len(), 2);
    let removed = router.delete_handle(h1).unwrap();
    assert_eq!(removed.ts_last_used, t1);
    assert_eq!(removed.ts_created, t0);
    assert_eq!(router.use_handle(h1, t1), (TetraAddress::issi(0), 0, 0));
    assert!(router.delete_handle(h1).is_none());
}

#[test]
fn directions() {
    assert!(Direction::Both.includes_ul() && Direction::Both.includes_dl());
    assert!(Direction::Ul.includes_ul() && !Direction::Ul.includes_dl());
    assert!(!Direction::Neither.includes_ul());
}

#[test]
fn circuits_allocate_queue_and_close() {
    let mut mgr = CircuitMgr::new();
    let dl = mgr.allocate_circuit(Direction::Dl, CommunicationType::P2Mp).unwrap();
    assert_eq!((dl.ts, dl.call_id, dl.usage), (2, 4, 4));
    assert_eq!(dl.circuit_mode, CircuitModeType::TchS);
    assert_eq!(dl.speech_service, Some(0));
    let both = mgr.allocate_circuit(Direction::Both, CommunicationType::P2p).unwrap();
    assert_eq!((both.ts, both.call_id, both.usage), (3, 5, 5));
    // The uplink of timeslot 2 is still free: its circuit is downlink only.
    let ul = mgr.allocate_circuit(Direction::Ul, CommunicationType::P2Mp).unwrap();
    assert_eq!(ul.ts, 2);
    assert_eq!(mgr.is_active(2), (true, true));
    assert_eq!(mgr.is_active(3), (true, true));
    assert_eq!(mgr.is_active(4), (false, false));
    assert_eq!(mgr.get_usage(2), (Some(4), Some(6)));
    assert_eq!(mgr.get_usage(3), (Some(5), Some(5)));
    assert!(mgr.is_active_dir(3, Direction::Ul));

    assert_eq!(mgr.put_block(4, vec![1]), Err(CircuitErr::CircuitNotActive));
    assert_eq!(mgr.take_block(4), Err(CircuitErr::CircuitNotActive));
    assert_eq!(mgr.put_block(2, vec![1, 2]), Ok(()));
    assert_eq!(mgr.put_block(2, vec![3]), Ok(()));
    assert_eq!(mgr.take_block(2), Ok(Some(vec![1, 2])));
    assert_eq!(mgr.take_block(2), Ok(Some(vec![3])));
    assert_eq!(mgr.take_block(2), Ok(None));

    assert_eq!(mgr.close_circuit(Direction::Ul, 2).unwrap(), ul);
    assert_eq!(mgr.close_circuit(Direction::Ul, 2), Err(CircuitErr::CircuitNotActive));
    mgr.put_block(2, vec![9]).unwrap();
    assert_eq!(mgr.close_circuit(Direction::Dl, 2).unwrap(), dl);
    assert_eq!(mgr.is_active(2), (false, false));
    // Reopening the downlink of timeslot 2 starts with an empty queue.
    let again = mgr.allocate_circuit(Direction::Dl, CommunicationType::P2Mp).unwrap();
    assert_eq!(again.ts, 2);
    assert_eq!(mgr.take_block(2), Ok(None));
}

#[test]
fn circuits_run_out_and_numbers_wrap() {
    let mut mgr = CircuitMgr::new();
    for ts in 2..=4u8 {
        assert_eq!(mgr.allocate_circuit(Direction::Both, CommunicationType::P2Mp).unwrap().ts, ts);
    }
    assert_eq!(mgr.allocate_circuit(Direction::Dl, CommunicationType::P2Mp), Err(CircuitErr::NoCircuitFree));
    assert_eq!(mgr.allocate_circuit(Direction::Neither, CommunicationType::P2Mp), Err(CircuitErr::NoCircuitFree));
    assert_eq!(mgr.next_call_identifier, 7);

    mgr.next_call_identifier = 0x3FF;
    assert_eq!(mgr.get_next_call_id(), 0x3FF);
    assert_eq!(mgr.get_next_call_id(), 1);
    mgr.next_usage_number = 63;
    assert_eq!(mgr.get_next_usage_number(), 63);
    assert_eq!(mgr.get_next_usage_number(), 4);
}

#[test]
fn llc_acks_and_send_sequence() {
    let mut llc = Llc::new();
    let a = TetraAddress::issi(1001);
    let b = TetraAddress::issi(2002);
    let t2 = TdmaTime { h: 0, m: 1, f: 1, t: 2 };
    let t3 = TdmaTime { h: 0, m: 1, f: 2, t: 3 };
    llc.schedule_outgoing_ack(t2, a, 1);
    llc.schedule_outgoing_ack(t3, a, 0);
    llc.schedule_outgoing_ack(t2, a, 0);
    assert_eq!(llc.get_out_ack_seq_if_any(2, b), None);
    assert_eq!(llc.get_out_ack_seq_if_any(2, a), Some(1));
    assert_eq!(llc.get_out_ack_seq_if_any(2, a), Some(0));
    assert_eq!(llc.get_out_ack_seq_if_any(2, a), None);
    assert_eq!(llc.get_out_ack_seq_if_any(3, a), Some(0));

    assert_eq!(llc.get_next_send_seq(&a), 0);
    assert_eq!(llc.get_next_send_seq(&a), 1);
    assert_eq!(llc.get_next_send_seq(&b), 0);
    assert_eq!(llc.get_next_send_seq(&a), 0);

    let list = vec![
        ScheduledOutAck { addr: a, t_start: t2, nr: 1, ts: 2 },
        ScheduledOutAck { addr: b, t_start: t3, nr: 0, ts: 3 },
    ];
    assert_eq!(
        Llc::format_scheduled_ack_list(&list),
        "Scheduled out acks:\n  t_start: 2, ssi: 1001, n: 1\n  t_start: 3, ssi: 2002, n: 0\n"
    );
    assert_eq!(Llc::format_scheduled_ack_list(&Vec::new()), "Scheduled out acks:\n");
}

#[test]
fn message_queue_priorities() {
    let mut q: MessageQueue<u32> = MessageQueue::new();
    assert_eq!(q.pop_front(), None);
    q.push_back(1);
    q.push_prio(2, MessagePrio::Normal);
    q.push_prio(3, MessagePrio::Immediate);
    q.push_prio(4, MessagePrio::default());
    assert_eq!(q.pop_front(), Some(3));
    assert_eq!(q.pop_front(), Some(1));
    assert_eq!(q.pop_front(), Some(2));
    assert_eq!(q.pop_front(), Some(4));
    assert_eq!(q.pop_front(), None);
}

#[test]
fn broadcast_schedule() {
    let mut none = MleBroadcast::new(None);
    assert_eq!(none.determine_next_broadcast_type(), BroadcastType::NoBroadcast);
    assert_eq!(none.send_broadcast(), BroadcastType::NoBroadcast);
    let mut timed = MleBroadcast::new(Some("Europe/Amsterdam".to_string()));
    assert_eq!(timed.send_broadcast(), BroadcastType::NetworkTime);
    assert_eq!(timed.last_broadcast_type, BroadcastType::NetworkTime);
    timed.time_broadcast = None;
    assert_eq!(timed.send_broadcast(), BroadcastType::NetworkTime);
}

#[test]
fn address_texts() {
    assert_eq!(TetraAddress::issi(7).to_text(), "ISSI:7");
    let esi = TetraAddress { ssi: 1234, ssi_type: SsiType::Gssi, encrypted: true };
    assert_eq!(esi.to_text(), "E_GSSI:1234");
    assert_eq!(TetraAddress::new(0, SsiType::EventLabel).to_text(), "EventLabel:0");
}

#[test]
fn tdma_time_age_counts_timeslots() {
    let t0 = TdmaTime { h: 0, m: 1, f: 1, t: 1 };
    assert_eq!(t0.age(TdmaTime { h: 0, m: 1, f: 1, t: 4 }), 3);
    assert_eq!(t0.age(TdmaTime { h: 0, m: 1, f: 2, t: 1 }), 4);
    assert_eq!(t0.age(TdmaTime { h: 0, m: 2, f: 1, t: 1 }), 72);
    assert_eq!(t0.age(TdmaTime { h: 1, m: 1, f: 1, t: 1 }), 72 * 60);
    assert_eq!(TdmaTime { h: 0, m: 1, f: 2, t: 1 }.age(t0), -4);
}

#[test]
fn circuit_ticks_repeat_setups_then_expire() {
    let mut mgr = CircuitMgr::new();
    let c = mgr.allocate_circuit(Direction::Both, CommunicationType::P2Mp).unwrap();
    // not the first timeslot of a frame: nothing
    assert!(mgr.tick_start(TdmaTime { h: 0, m: 1, f: 2, t: 2 }).is_none());
    // 4 timeslots old: D-SETUP repeated
    let cmds = mgr.tick_start(TdmaTime { h: 0, m: 1, f: 2, t: 1 }).unwrap();
    assert_eq!(cmds, vec![CircuitMgrCmd::SendDSetup(c.call_id, c.usage)]);
    // 20 timeslots old: (20 - 4) % 3 == 1, no repetition
    assert!(mgr.tick_start(TdmaTime { h: 0, m: 1, f: 6, t: 1 }).is_none());
    // 24 timeslots old: (24 - 4) % 3 == 2, repeated
    assert_eq!(mgr.tick_start(TdmaTime { h: 0, m: 1, f: 7, t: 1 }).unwrap().len(), 1);
    // more than 10 multiframes old: closed
    let cmds = mgr.tick_start(TdmaTime { h: 0, m: 12, f: 1, t: 1 }).unwrap();
    assert_eq!(cmds, vec![CircuitMgrCmd::SendClose(c.call_id, c)]);
    assert_eq!(mgr.is_active(c.ts), (false, false));
    assert!(mgr.tick_start(TdmaTime { h: 0, m: 12, f: 2, t: 1 }).is_none());
}
