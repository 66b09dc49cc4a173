//! Base-station call control of group calls: calls set up by a local U-SETUP or by the
//! network, and the floor (who talks) within them.
//!
//! Each handler takes the decoded fields of one event and returns, in order, what is sent in
//! reply: PDUs to the radios and signals to the lower MAC and to the network bridge.
use vstd::prelude::*;
use crate::address::{SsiType, TetraAddress};
use crate::cmce::circuit_mgr::{CircuitMgr, CmceCircuit, CommunicationType, call_id_after, new_circuit, usage_after};
use crate::direction::Direction;
use crate::sap_fields::{EndpointId, LinkId};
use crate::timeslot_alloc::{TimeslotAllocator, TimeslotOwner};
use crate::tdma_time::{TdmaTime, ts_index};

verus! {

/// The fields of a U-SETUP that call control decides on.
#[derive(Debug, Clone, Copy, PartialEq, Eq, Structural)]
pub struct USetupFields {
    pub area_selection: u8,
    pub hook_method_selection: bool,
    pub simplex_duplex_selection: bool,
    pub comm_type: CommunicationType,
    pub call_priority: u8,
    pub called_party_ssi: Option<u64>,
}

/// Who set a group call up.
#[derive(Debug, Clone, Copy, PartialEq, Eq, Structural)]
pub enum CallOrigin {
    /// A radio of this cell; its address routes the individually addressed replies.
    Local { caller_addr: TetraAddress },
    /// The network bridge, which tracks the call by its identifier.
    Network { brew_uuid: u128 },
}

/// A group call in progress.
#[derive(Debug, Clone, Copy, PartialEq, Eq, Structural)]
pub struct ActiveCall {
    pub call_id: u16,
    pub origin: CallOrigin,
    /// The called group.
    pub dest_gssi: u32,
    /// The current speaker.
    pub source_issi: u32,
    pub ts: u8,
    pub usage: u8,
    /// Someone is transmitting.
    pub tx_active: bool,
    /// When the floor was released (hangtime); `None` while someone transmits.
    pub hangtime_start: Option<TdmaTime>,
}

/// The D-SETUP kept for late entry: the call it set up and where it went.
#[derive(Debug, Clone, Copy, PartialEq, Eq, Structural)]
pub struct CachedSetup {
    pub call_id: u16,
    pub dest: TetraAddress,
}

/// Where MLE sends a reply to one radio: the handle of its connection, and the link and
/// endpoint it came in on; all zero for a PDU to a group.
#[derive(Debug, Clone, Copy, PartialEq, Eq, Structural)]
pub struct ReplyRoute {
    pub handle: u32,
    pub link_id: LinkId,
    pub endpoint_id: EndpointId,
}

/// A channel allocation: usage number and timeslot.
#[derive(Debug, Clone, Copy, PartialEq, Eq, Structural)]
pub struct ChanAlloc {
    pub usage: u8,
    pub ts: u8,
}

/// What call control sends.
#[derive(Debug, Clone, Copy, PartialEq, Eq, Structural)]
pub enum CcAction {
    /// Tell the lower MAC to open the circuit.
    OpenCircuit(CmceCircuit),
    /// D-CALL PROCEEDING to the calling radio, routed by `route`.
    CallProceeding { call_id: u16, to: TetraAddress, route: ReplyRoute },
    /// D-CONNECT, routed by `route`; `granted` is Granted, else Granted to other user.
    Connect { call_id: u16, to: TetraAddress, route: ReplyRoute, granted: bool, chan: Option<ChanAlloc> },
    /// D-SETUP to the group on the control channel, with the channel allocation; the floor is
    /// granted to another user.
    Setup {
        call_id: u16,
        to: TetraAddress,
        calling_ssi: u32,
        comm_type: CommunicationType,
        call_priority: u8,
        usage: u8,
        ts: u8,
    },
    /// D-TX GRANTED by stealing on the traffic channel; `granted` is Granted, else Granted to
    /// other user.
    TxGranted { call_id: u16, to: TetraAddress, granted: bool, source_issi: u32, ts: u8 },
    /// D-TX CEASED by stealing on the traffic channel; others may ask for the floor.
    TxCeased { call_id: u16, to: TetraAddress, ts: u8 },
    /// Tell the lower MAC that traffic resumes on the timeslot.
    UmacFloorGranted { call_id: u16, source_issi: u32, dest_gssi: u32, ts: u8 },
    /// Tell the lower MAC that the timeslot enters hangtime.
    UmacFloorReleased { call_id: u16, ts: u8 },
    /// Tell the network bridge that a local radio has the floor.
    BrewFloorGranted { call_id: u16, source_issi: u32, dest_gssi: u32, ts: u8 },
    /// Tell the network bridge that the local speaker released the floor.
    BrewFloorReleased { call_id: u16, ts: u8 },
    /// Tell the network bridge which resources carry its call.
    BrewNetworkCallReady { brew_uuid: u128, call_id: u16, ts: u8, usage: u8 },
    /// D-RELEASE to where the call's D-SETUP went.
    Release { call_id: u16, to: TetraAddress },
    /// Tell the lower MAC to close the circuit.
    CloseCircuit(CmceCircuit),
    /// Tell the lower MAC that the call on the timeslot ended.
    UmacCallEnded { call_id: u16, ts: u8 },
    /// Tell the network bridge that a local call ended.
    BrewCallEnded { call_id: u16, ts: u8 },
}

/// Call control sub-entity of the base station.
pub struct CcBsSubentity {
    pub dltime: TdmaTime,
    /// A network bridge is configured.
    pub brew_enabled: bool,
    /// D-SETUPs kept for late entry, oldest first.
    pub cached_setups: Vec<CachedSetup>,
    pub circuits: CircuitMgr,
    /// Group calls in progress, oldest first.
    pub active_calls: Vec<ActiveCall>,
}

/// A U-SETUP asks only for what is supported: area selection 0 or 1, no hook signalling,
/// simplex.
pub open spec fn u_setup_supported(p: USetupFields) -> bool {
    &&& p.area_selection == 0 || p.area_selection == 1
    &&& !p.hook_method_selection
    &&& !p.simplex_duplex_selection
}

/// The address of group `gssi`.
pub open spec fn group_address(gssi: u32) -> TetraAddress {
    TetraAddress { ssi: gssi, ssi_type: SsiType::Gssi, encrypted: false }
}

/// `i` is the first position of a call with identifier `id`.
pub open spec fn first_call(s: Seq<ActiveCall>, id: u16, i: int) -> bool {
    &&& 0 <= i < s.len()
    &&& s[i].call_id == id
    &&& forall|j: int| 0 <= j < i ==> #[trigger] s[j].call_id != id
}

/// The first position of a call with identifier `id`.
pub open spec fn call_index(s: Seq<ActiveCall>, id: u16) -> Option<int> {
    if exists|i: int| first_call(s, id, i) {
        Some(choose|i: int| first_call(s, id, i))
    } else {
        None
    }
}

/// `i` is the first position of a call to group `gssi`.
pub open spec fn first_group_call(s: Seq<ActiveCall>, gssi: u32, i: int) -> bool {
    &&& 0 <= i < s.len()
    &&& s[i].dest_gssi == gssi
    &&& forall|j: int| 0 <= j < i ==> #[trigger] s[j].dest_gssi != gssi
}

/// The first position of a call to group `gssi`.
pub open spec fn group_call_index(s: Seq<ActiveCall>, gssi: u32) -> Option<int> {
    if exists|i: int| first_group_call(s, gssi, i) {
        Some(choose|i: int| first_group_call(s, gssi, i))
    } else {
        None
    }
}

/// `i` is the first position of a kept D-SETUP of call `id`.
pub open spec fn first_setup(s: Seq<CachedSetup>, id: u16, i: int) -> bool {
    &&& 0 <= i < s.len()
    &&& s[i].call_id == id
    &&& forall|j: int| 0 <= j < i ==> #[trigger] s[j].call_id != id
}

/// Where the kept D-SETUP of call `id` went.
pub open spec fn setup_dest(s: Seq<CachedSetup>, id: u16) -> Option<TetraAddress> {
    if exists|i: int| first_setup(s, id, i) {
        Some(s[choose|i: int| first_setup(s, id, i)].dest)
    } else {
        None
    }
}

/// `s` with the call `c` stored under its identifier: replacing the call kept under it, or
/// added last.
pub open spec fn calls_insert(s: Seq<ActiveCall>, c: ActiveCall) -> Seq<ActiveCall> {
    match call_index(s, c.call_id) {
        Some(i) => s.update(i, c),
        None => s.push(c),
    }
}

/// `s` with the D-SETUP `c` kept under its call: replacing the one kept under it, or added last.
pub open spec fn setups_insert(s: Seq<CachedSetup>, c: CachedSetup) -> Seq<CachedSetup> {
    if exists|i: int| first_setup(s, c.call_id, i) {
        s.update(choose|i: int| first_setup(s, c.call_id, i), c)
    } else {
        s.push(c)
    }
}

/// The call after `requesting` was granted the floor by a U-TX DEMAND.
pub open spec fn granted_to(call: ActiveCall, requesting: TetraAddress) -> ActiveCall {
    ActiveCall {
        origin: match call.origin {
            CallOrigin::Local { .. } => CallOrigin::Local { caller_addr: requesting },
            CallOrigin::Network { brew_uuid } => CallOrigin::Network { brew_uuid },
        },
        source_issi: requesting.ssi,
        tx_active: true,
        hangtime_start: None,
        ..call
    }
}

/// The call after its speaker released the floor at `now`.
pub open spec fn released_at(call: ActiveCall, now: TdmaTime) -> ActiveCall {
    ActiveCall { tx_active: false, hangtime_start: Some(now), ..call }
}

/// The call after the network gave the floor to `source_issi`.
pub open spec fn network_speaker(call: ActiveCall, brew_uuid: u128, source_issi: u32) -> ActiveCall {
    ActiveCall {
        origin: match call.origin {
            CallOrigin::Network { .. } => CallOrigin::Network { brew_uuid },
            CallOrigin::Local { caller_addr } => CallOrigin::Local { caller_addr },
        },
        source_issi,
        tx_active: true,
        hangtime_start: None,
        ..call
    }
}

/// The action is addressed to the network bridge.
pub open spec fn to_bridge(a: CcAction) -> bool {
    ||| a is BrewFloorGranted
    ||| a is BrewFloorReleased
    ||| a is BrewNetworkCallReady
    ||| a is BrewCallEnded
}

/// No action of `r` goes to the network bridge.
pub open spec fn none_to_bridge(r: Seq<CcAction>) -> bool {
    forall|k: int| 0 <= k < r.len() ==> !to_bridge(#[trigger] r[k])
}

/// The call is a local one.
pub open spec fn is_local(call: ActiveCall) -> bool {
    call.origin is Local
}

/// What a U-SETUP that opened circuit `c` for group `gssi` sends: open the circuit;
/// D-CALL PROCEEDING and D-CONNECT (granted, with the channel) to the caller; D-SETUP to the
/// group; and, with a network bridge, the floor grant to it.
pub open spec fn u_setup_actions(
    c: CmceCircuit,
    setup: USetupFields,
    caller: TetraAddress,
    route: ReplyRoute,
    gssi: u32,
    brew: bool,
) -> Seq<CcAction> {
    let base = seq![
        CcAction::OpenCircuit(c),
        CcAction::CallProceeding { call_id: c.call_id, to: caller, route },
        CcAction::Connect {
            call_id: c.call_id,
            to: caller,
            route,
            granted: true,
            chan: Some(ChanAlloc { usage: c.usage, ts: c.ts }),
        },
        CcAction::Setup {
            call_id: c.call_id,
            to: group_address(gssi),
            calling_ssi: caller.ssi,
            comm_type: setup.comm_type,
            call_priority: setup.call_priority,
            usage: c.usage,
            ts: c.ts,
        },
    ];
    if brew {
        base.push(CcAction::BrewFloorGranted { call_id: c.call_id, source_issi: caller.ssi, dest_gssi: gssi, ts: c.ts })
    } else {
        base
    }
}

/// What a U-TX DEMAND granted on `call` sends when its D-SETUP went to `dest`.
pub open spec fn tx_demand_actions(call: ActiveCall, requesting: TetraAddress, dest: TetraAddress, brew: bool) -> Seq<CcAction> {
    let base = seq![
        CcAction::TxGranted { call_id: call.call_id, to: dest, granted: true, source_issi: requesting.ssi, ts: call.ts },
        CcAction::UmacFloorGranted { call_id: call.call_id, source_issi: requesting.ssi, dest_gssi: dest.ssi, ts: call.ts },
    ];
    if brew && is_local(call) {
        base.push(CcAction::BrewFloorGranted { call_id: call.call_id, source_issi: requesting.ssi, dest_gssi: dest.ssi, ts: call.ts })
    } else {
        base
    }
}

/// What a U-TX CEASED on `call` sends when its D-SETUP went to `dest`.
pub open spec fn tx_ceased_actions(call: ActiveCall, dest: TetraAddress, brew: bool) -> Seq<CcAction> {
    let base = seq![
        CcAction::TxCeased { call_id: call.call_id, to: dest, ts: call.ts },
        CcAction::UmacFloorReleased { call_id: call.call_id, ts: call.ts },
    ];
    if brew && is_local(call) {
        base.push(CcAction::BrewFloorReleased { call_id: call.call_id, ts: call.ts })
    } else {
        base
    }
}

/// What a network call start sends for a group that already has `call`: the new speaker on
/// the traffic channel and to the lower MAC, and the call's resources to the bridge.
pub open spec fn speaker_change_actions(call: ActiveCall, brew_uuid: u128, source_issi: u32, gssi: u32, brew: bool) -> Seq<CcAction> {
    let base = seq![
        CcAction::TxGranted { call_id: call.call_id, to: group_address(gssi), granted: false, source_issi, ts: call.ts },
        CcAction::UmacFloorGranted { call_id: call.call_id, source_issi, dest_gssi: gssi, ts: call.ts },
    ];
    if brew {
        base.push(CcAction::BrewNetworkCallReady { brew_uuid, call_id: call.call_id, ts: call.ts, usage: call.usage })
    } else {
        base
    }
}

/// What a network call start sends when it opened circuit `c`: open the circuit, D-SETUP and
/// D-CONNECT (granted to other user) to the group, and the resources to the bridge.
pub open spec fn network_call_actions(c: CmceCircuit, brew_uuid: u128, source_issi: u32, gssi: u32, brew: bool) -> Seq<CcAction> {
    let base = seq![
        CcAction::OpenCircuit(c),
        CcAction::Setup {
            call_id: c.call_id,
            to: group_address(gssi),
            calling_ssi: source_issi,
            comm_type: CommunicationType::P2Mp,
            call_priority: 0,
            usage: c.usage,
            ts: c.ts,
        },
        CcAction::Connect {
            call_id: c.call_id,
            to: group_address(gssi),
            route: ReplyRoute { handle: 0, link_id: 0, endpoint_id: 0 },
            granted: false,
            chan: None,
        },
    ];
    if brew {
        base.push(CcAction::BrewNetworkCallReady { brew_uuid, call_id: c.call_id, ts: c.ts, usage: c.usage })
    } else {
        base
    }
}

/// The timeslot owners after call control let go of timeslot `ts`: freed when call control
/// held it, else as they were.
pub open spec fn cmce_released(owners: Seq<Option<TimeslotOwner>>, ts: u8) -> Seq<Option<TimeslotOwner>> {
    if 2 <= ts <= 4 && owners[ts - 2] == Some(TimeslotOwner::Cmce) {
        owners.update(ts - 2, None)
    } else {
        owners
    }
}

/// Every call's timeslot is one of 1 to 4.
pub open spec fn calls_ts_ok(s: Seq<ActiveCall>) -> bool {
    forall|i: int| 0 <= i < s.len() ==> 1 <= #[trigger] s[i].ts <= 4
}

/// `s` without the call kept under `id`.
pub open spec fn calls_remove(s: Seq<ActiveCall>, id: u16) -> Seq<ActiveCall> {
    match call_index(s, id) {
        Some(i) => s.remove(i),
        None => s,
    }
}

/// `s` without the D-SETUP kept for call `id`.
pub open spec fn setups_remove(s: Seq<CachedSetup>, id: u16) -> Seq<CachedSetup> {
    if exists|i: int| first_setup(s, id, i) {
        s.remove(choose|i: int| first_setup(s, id, i))
    } else {
        s
    }
}

/// `i` is the first position of a network call with bridge identifier `brew_uuid`.
pub open spec fn first_network_call(s: Seq<ActiveCall>, brew_uuid: u128, i: int) -> bool {
    &&& 0 <= i < s.len()
    &&& s[i].origin == (CallOrigin::Network { brew_uuid })
    &&& forall|j: int| 0 <= j < i ==> #[trigger] s[j].origin != (CallOrigin::Network { brew_uuid })
}

/// The first position of the network call with bridge identifier `brew_uuid`.
pub open spec fn network_call_index(s: Seq<ActiveCall>, brew_uuid: u128) -> Option<int> {
    if exists|i: int| first_network_call(s, brew_uuid, i) {
        Some(choose|i: int| first_network_call(s, brew_uuid, i))
    } else {
        None
    }
}

/// What releasing `call`, whose D-SETUP went to `dest`, sends: D-RELEASE; the closing of
/// the downlink circuit `closed` of its timeslot, when there was one; the end of the call to
/// the lower MAC, and to the bridge for a local call.
pub open spec fn release_actions(call: ActiveCall, dest: TetraAddress, closed: Option<CmceCircuit>, brew: bool) -> Seq<CcAction> {
    let first = seq![CcAction::Release { call_id: call.call_id, to: dest }];
    let with_close = match closed {
        Some(c) => first.push(CcAction::CloseCircuit(c)),
        None => first,
    };
    let ended = with_close.push(CcAction::UmacCallEnded { call_id: call.call_id, ts: call.ts });
    if brew && is_local(call) {
        ended.push(CcAction::BrewCallEnded { call_id: call.call_id, ts: call.ts })
    } else {
        ended
    }
}

/// The hangtime of a call has run out at `now`: the floor was released more than 5
/// multiframes ago.
pub open spec fn hangtime_over(call: ActiveCall, now: TdmaTime) -> bool {
    match call.hangtime_start {
        Some(h) => ts_index(now) - ts_index(h) > 5 * 18 * 4,
        None => false,
    }
}

/// The identifiers of the calls in `s` whose hangtime has run out at `now`, in order.
pub open spec fn hangtime_expired_ids(s: Seq<ActiveCall>, now: TdmaTime) -> Seq<u16>
    decreases s.len(),
{
    if s.len() == 0 {
        Seq::empty()
    } else {
        let r = hangtime_expired_ids(s.drop_last(), now);
        if hangtime_over(s.last(), now) {
            r.push(s.last().call_id)
        } else {
            r
        }
    }
}

/// The sequences of `rs`, one after another.
pub open spec fn concat_all(rs: Seq<Seq<CcAction>>) -> Seq<CcAction>
    decreases rs.len(),
{
    if rs.len() == 0 {
        Seq::empty()
    } else {
        concat_all(rs.drop_last()) + rs.last()
    }
}

/// The network bridge hears of a floor change only for a locally originated call: for a
/// call set up by the network, or with no bridge, neither a granted U-TX DEMAND nor a
/// U-TX CEASED sends anything to the bridge; for a local call with a bridge, both do.
pub proof fn lemma_bridge_hears_only_local_floor(call: ActiveCall, requesting: TetraAddress, dest: TetraAddress, brew: bool)
    ensures
        !(call.origin is Local) || !brew ==> forall|k: int|
            0 <= k < tx_demand_actions(call, requesting, dest, brew).len() ==> !(#[trigger] tx_demand_actions(
                call,
                requesting,
                dest,
                brew,
            )[k] is BrewFloorGranted),
        !(call.origin is Local) || !brew ==> forall|k: int|
            0 <= k < tx_ceased_actions(call, dest, brew).len() ==> !(#[trigger] tx_ceased_actions(call, dest, brew)[k] is BrewFloorReleased),
        call.origin is Local && brew ==> tx_demand_actions(call, requesting, dest, brew).contains(
            CcAction::BrewFloorGranted { call_id: call.call_id, source_issi: requesting.ssi, dest_gssi: dest.ssi, ts: call.ts },
        ),
        call.origin is Local && brew ==> tx_ceased_actions(call, dest, brew).contains(
            CcAction::BrewFloorReleased { call_id: call.call_id, ts: call.ts },
        ),
{
    let d = tx_demand_actions(call, requesting, dest, brew);
    let c = tx_ceased_actions(call, dest, brew);
    if call.origin is Local && brew {
        assert(d[2] == CcAction::BrewFloorGranted { call_id: call.call_id, source_issi: requesting.ssi, dest_gssi: dest.ssi, ts: call.ts });
        assert(c[2] == CcAction::BrewFloorReleased { call_id: call.call_id, ts: call.ts });
    }
}

proof fn lemma_first_call_unique(s: Seq<ActiveCall>, id: u16, i: int, k: int)
    requires
        first_call(s, id, i),
        first_call(s, id, k),
    ensures
        i == k,
{
    if i < k {
        assert(s[i].call_id != id);
    } else if k < i {
        assert(s[k].call_id != id);
    }
}

proof fn lemma_first_group_call_unique(s: Seq<ActiveCall>, gssi: u32, i: int, k: int)
    requires
        first_group_call(s, gssi, i),
        first_group_call(s, gssi, k),
    ensures
        i == k,
{
    if i < k {
        assert(s[i].dest_gssi != gssi);
    } else if k < i {
        assert(s[k].dest_gssi != gssi);
    }
}

proof fn lemma_first_setup_unique(s: Seq<CachedSetup>, id: u16, i: int, k: int)
    requires
        first_setup(s, id, i),
        first_setup(s, id, k),
    ensures
        i == k,
{
    if i < k {
        assert(s[i].call_id != id);
    } else if k < i {
        assert(s[k].call_id != id);
    }
}

/// After a U-TX CEASED took effect on call `id` at `now`, the call is still found at the
/// same place and is in hangtime, so a repeated U-TX CEASED is ignored and leaves the
/// hangtime start as it was; a U-TX DEMAND then gives the floor back with hangtime over.
pub proof fn lemma_release_is_idempotent(s: Seq<ActiveCall>, id: u16, now: TdmaTime, requesting: TetraAddress)
    requires
        call_index(s, id) is Some,
    ensures
        ({
            let i = call_index(s, id)->Some_0;
            let s2 = s.update(i, released_at(s[i], now));
            &&& call_index(s2, id) == Some(i)
            &&& !s2[i].tx_active && s2[i].hangtime_start == Some(now)
            &&& granted_to(s2[i], requesting).tx_active
            &&& granted_to(s2[i], requesting).hangtime_start is None
            &&& granted_to(s2[i], requesting).source_issi == requesting.ssi
        }),
{
    let i = call_index(s, id)->Some_0;
    let k = choose|k: int| first_call(s, id, k);
    assert(first_call(s, id, k));
    assert(i == k);
    let s2 = s.update(i, released_at(s[i], now));
    assert(first_call(s2, id, i)) by {
        assert forall|j: int| 0 <= j < i implies #[trigger] s2[j].call_id != id by {
            assert(s[j].call_id != id);
        }
    }
    let k2 = choose|k2: int| first_call(s2, id, k2);
    lemma_first_call_unique(s2, id, i, k2);
}

/// Releasing a call right after setting it up, under an identifier no call or D-SETUP had,
/// gives the calls and the kept D-SETUPs back; the release finds the call last and its
/// D-SETUP's destination.
pub proof fn lemma_release_undoes_setup(calls: Seq<ActiveCall>, setups: Seq<CachedSetup>, c: ActiveCall, dest: TetraAddress)
    requires
        forall|i: int| 0 <= i < calls.len() ==> #[trigger] calls[i].call_id != c.call_id,
        forall|i: int| 0 <= i < setups.len() ==> #[trigger] setups[i].call_id != c.call_id,
    ensures
        ({
            let cs = CachedSetup { call_id: c.call_id, dest };
            let calls2 = calls_insert(calls, c);
            let setups2 = setups_insert(setups, cs);
            &&& call_index(calls2, c.call_id) == Some(calls.len() as int)
            &&& setup_dest(setups2, c.call_id) == Some(dest)
            &&& calls_remove(calls2, c.call_id) == calls
            &&& setups_remove(setups2, c.call_id) == setups
        }),
{
    let id = c.call_id;
    let cs = CachedSetup { call_id: id, dest };
    assert forall|i: int| !first_call(calls, id, i) by {
        if first_call(calls, id, i) {
            assert(calls[i].call_id != id);
        }
    }
    assert forall|i: int| !first_setup(setups, id, i) by {
        if first_setup(setups, id, i) {
            assert(setups[i].call_id != id);
        }
    }
    let calls2 = calls.push(c);
    let setups2 = setups.push(cs);
    let n = calls.len() as int;
    let m = setups.len() as int;
    assert(first_call(calls2, id, n)) by {
        assert forall|j: int| 0 <= j < n implies #[trigger] calls2[j].call_id != id by {
            assert(calls2[j] == calls[j]);
        }
    }
    assert(first_setup(setups2, id, m)) by {
        assert forall|j: int| 0 <= j < m implies #[trigger] setups2[j].call_id != id by {
            assert(setups2[j] == setups[j]);
        }
    }
    let k = choose|k: int| first_call(calls2, id, k);
    lemma_first_call_unique(calls2, id, n, k);
    let k2 = choose|k2: int| first_setup(setups2, id, k2);
    lemma_first_setup_unique(setups2, id, m, k2);
    assert(calls2.remove(n) =~= calls);
    assert(setups2.remove(m) =~= setups);
}

proof fn lemma_insert_keeps_ts(s: Seq<ActiveCall>, c: ActiveCall)
    requires
        calls_ts_ok(s),
        1 <= c.ts <= 4,
    ensures
        calls_ts_ok(calls_insert(s, c)),
{
    if exists|i: int| first_call(s, c.call_id, i) {
        let i = choose|i: int| first_call(s, c.call_id, i);
        assert(first_call(s, c.call_id, i));
        let t = s.update(i, c);
        assert forall|j: int| 0 <= j < t.len() implies 1 <= #[trigger] t[j].ts <= 4 by {
            if j != i {
                assert(t[j] == s[j]);
            }
        }
    } else {
        let t = s.push(c);
        assert forall|j: int| 0 <= j < t.len() implies 1 <= #[trigger] t[j].ts <= 4 by {
            if j < s.len() {
                assert(t[j] == s[j]);
            }
        }
    }
}

proof fn lemma_first_network_call_unique(s: Seq<ActiveCall>, brew_uuid: u128, i: int, k: int)
    requires
        first_network_call(s, brew_uuid, i),
        first_network_call(s, brew_uuid, k),
    ensures
        i == k,
{
    if i < k {
        assert(s[i].origin != (CallOrigin::Network { brew_uuid }));
    } else if k < i {
        assert(s[k].origin != (CallOrigin::Network { brew_uuid }));
    }
}

fn find_network_call(calls: &Vec<ActiveCall>, brew_uuid: u128) -> (r: Option<usize>)
    ensures
        r matches Some(i) ==> network_call_index(calls@, brew_uuid) == Some(i as int),
        r is None ==> network_call_index(calls@, brew_uuid) is None,
{
    let mut i: usize = 0;
    while i < calls.len()
        invariant
            i <= calls.len(),
            forall|j: int| 0 <= j < i ==> #[trigger] calls@[j].origin != (CallOrigin::Network { brew_uuid }),
        decreases calls.len() - i,
    {
        let found = match calls[i].origin {
            CallOrigin::Network { brew_uuid: u } => u == brew_uuid,
            CallOrigin::Local { .. } => false,
        };
        if found {
            proof {
                assert(first_network_call(calls@, brew_uuid, i as int));
                let k = choose|k: int| first_network_call(calls@, brew_uuid, k);
                lemma_first_network_call_unique(calls@, brew_uuid, i as int, k);
            }
            return Some(i);
        }
        i = i + 1;
    }
    proof {
        assert forall|k: int| !first_network_call(calls@, brew_uuid, k) by {
            if first_network_call(calls@, brew_uuid, k) {
                assert(calls@[k].origin != (CallOrigin::Network { brew_uuid }));
            }
        }
    }
    None
}

/// The first position of a call with identifier `id`.
fn find_call(calls: &Vec<ActiveCall>, id: u16) -> (r: Option<usize>)
    ensures
        r matches Some(i) ==> call_index(calls@, id) == Some(i as int),
        r is None ==> call_index(calls@, id) is None,
{
    let mut i: usize = 0;
    while i < calls.len()
        invariant
            i <= calls.len(),
            forall|j: int| 0 <= j < i ==> #[trigger] calls@[j].call_id != id,
        decreases calls.len() - i,
    {
        if calls[i].call_id == id {
            proof {
                assert(first_call(calls@, id, i as int));
                let k = choose|k: int| first_call(calls@, id, k);
                lemma_first_call_unique(calls@, id, i as int, k);
            }
            return Some(i);
        }
        i = i + 1;
    }
    proof {
        assert forall|k: int| !first_call(calls@, id, k) by {
            if first_call(calls@, id, k) {
                assert(calls@[k].call_id != id);
            }
        }
    }
    None
}

/// The first position of a call to group `gssi`.
fn find_group_call(calls: &Vec<ActiveCall>, gssi: u32) -> (r: Option<usize>)
    ensures
        r matches Some(i) ==> group_call_index(calls@, gssi) == Some(i as int),
        r is None ==> group_call_index(calls@, gssi) is None,
{
    let mut i: usize = 0;
    while i < calls.len()
        invariant
            i <= calls.len(),
            forall|j: int| 0 <= j < i ==> #[trigger] calls@[j].dest_gssi != gssi,
        decreases calls.len() - i,
    {
        if calls[i].dest_gssi == gssi {
            proof {
                assert(first_group_call(calls@, gssi, i as int));
                let k = choose|k: int| first_group_call(calls@, gssi, k);
                lemma_first_group_call_unique(calls@, gssi, i as int, k);
            }
            return Some(i);
        }
        i = i + 1;
    }
    proof {
        assert forall|k: int| !first_group_call(calls@, gssi, k) by {
            if first_group_call(calls@, gssi, k) {
                assert(calls@[k].dest_gssi != gssi);
            }
        }
    }
    None
}

/// The first position of a kept D-SETUP of call `id`.
fn find_setup(setups: &Vec<CachedSetup>, id: u16) -> (r: Option<usize>)
    ensures
        r matches Some(i) ==> first_setup(setups@, id, i as int) && setup_dest(setups@, id) == Some(setups@[i as int].dest),
        r is None ==> setup_dest(setups@, id) is None && !(exists|k: int| first_setup(setups@, id, k)),
{
    let mut i: usize = 0;
    while i < setups.len()
        invariant
            i <= setups.len(),
            forall|j: int| 0 <= j < i ==> #[trigger] setups@[j].call_id != id,
        decreases setups.len() - i,
    {
        if setups[i].call_id == id {
            proof {
                assert(first_setup(setups@, id, i as int));
                let k = choose|k: int| first_setup(setups@, id, k);
                lemma_first_setup_unique(setups@, id, i as int, k);
            }
            return Some(i);
        }
        i = i + 1;
    }
    proof {
        assert forall|k: int| !first_setup(setups@, id, k) by {
            if first_setup(setups@, id, k) {
                assert(setups@[k].call_id != id);
            }
        }
    }
    None
}

/// Store `c` under its identifier.
fn insert_call(calls: &mut Vec<ActiveCall>, c: ActiveCall)
    ensures
        final(calls)@ == calls_insert(old(calls)@, c),
        calls_ts_ok(old(calls)@) && 1 <= c.ts <= 4 ==> calls_ts_ok(final(calls)@),
{
    proof {
        if calls_ts_ok(old(calls)@) && 1 <= c.ts <= 4 {
            lemma_insert_keeps_ts(old(calls)@, c);
        }
    }
    match find_call(calls, c.call_id) {
        Some(i) => {
            calls.set(i, c);
        },
        None => {
            calls.push(c);
        },
    }
}

/// Keep `c` under its call.
fn insert_setup(setups: &mut Vec<CachedSetup>, c: CachedSetup)
    ensures
        final(setups)@ == setups_insert(old(setups)@, c),
{
    match find_setup(setups, c.call_id) {
        Some(i) => {
            proof {
                let k = choose|k: int| first_setup(old(setups)@, c.call_id, k);
                lemma_first_setup_unique(old(setups)@, c.call_id, i as int, k);
            }
            setups.set(i, c);
        },
        None => {
            setups.push(c);
        },
    }
}

/// Drop the call kept under `id`.
fn remove_call(calls: &mut Vec<ActiveCall>, id: u16)
    ensures
        final(calls)@ == calls_remove(old(calls)@, id),
        calls_ts_ok(old(calls)@) ==> calls_ts_ok(final(calls)@),
{
    match find_call(calls, id) {
        Some(i) => {
            let ghost s = calls@;
            calls.remove(i);
            proof {
                if calls_ts_ok(s) {
                    assert forall|j: int| 0 <= j < calls@.len() implies 1 <= #[trigger] calls@[j].ts <= 4 by {
                        if j < i {
                            assert(calls@[j] == s[j]);
                        } else {
                            assert(calls@[j] == s[j + 1]);
                        }
                    }
                }
            }
        },
        None => {},
    }
}

/// Drop the D-SETUP kept for call `id`.
fn remove_setup(setups: &mut Vec<CachedSetup>, id: u16)
    ensures
        final(setups)@ == setups_remove(old(setups)@, id),
{
    match find_setup(setups, id) {
        Some(i) => {
            proof {
                let k = choose|k: int| first_setup(old(setups)@, id, k);
                lemma_first_setup_unique(old(setups)@, id, i as int, k);
            }
            setups.remove(i);
        },
        None => {},
    }
}

impl CcBsSubentity {
    /// The circuit counters stay where `allocate_circuit` can advance them.
    pub open spec fn wf(&self) -> bool {
        &&& self.circuits.wf()
        &&& self.circuits.next_call_identifier <= 0x3FF
        &&& self.circuits.next_usage_number <= 63
        &&& calls_ts_ok(self.active_calls@)
    }

    /// `after` is `self` with call `id` released, sending `r`, the timeslot owners going from
    /// `owners` to `owners_after`. Without a kept D-SETUP for the call nothing changes and
    /// nothing is sent. Otherwise the D-SETUP and the call are dropped; when the call is
    /// known, the downlink circuit of its timeslot is closed too and the call control's hold
    /// on the timeslot is released.
    pub open spec fn released(
        &self,
        after: &Self,
        owners: Seq<Option<TimeslotOwner>>,
        owners_after: Seq<Option<TimeslotOwner>>,
        id: u16,
        r: Seq<CcAction>,
    ) -> bool {
        match setup_dest(self.cached_setups@, id) {
            None => r == Seq::<CcAction>::empty() && self.unchanged(after) && owners_after == owners,
            Some(dest) => {
                &&& after.dltime == self.dltime
                &&& after.brew_enabled == self.brew_enabled
                &&& after.cached_setups@ == setups_remove(self.cached_setups@, id)
                &&& after.active_calls@ == calls_remove(self.active_calls@, id)
                &&& after.circuits.next_call_identifier == self.circuits.next_call_identifier
                &&& after.circuits.next_usage_number == self.circuits.next_usage_number
                &&& after.circuits.dltime == self.circuits.dltime
                &&& match call_index(self.active_calls@, id) {
                    None => r == seq![CcAction::Release { call_id: id, to: dest }] && self.circuits.same_circuits(
                        &after.circuits,
                    ) && owners_after == owners,
                    Some(i) => {
                        let call = self.active_calls@[i];
                        let k = call.ts - 1;
                        &&& after.circuits.dl@ == self.circuits.dl@.update(k, None)
                        &&& after.circuits.ul_only@ == self.circuits.ul_only@
                        &&& after.circuits.queues() == self.circuits.queues().update(k, Seq::empty())
                        &&& owners_after == cmce_released(owners, call.ts)
                        &&& r == release_actions(call, dest, self.circuits.dl@[k], self.brew_enabled)
                    },
                }
            },
        }
    }

    /// `after` holds the same calls, D-SETUPs and circuits as `self`.
    pub open spec fn unchanged(&self, after: &Self) -> bool {
        &&& after.dltime == self.dltime
        &&& after.brew_enabled == self.brew_enabled
        &&& after.active_calls@ == self.active_calls@
        &&& after.cached_setups@ == self.cached_setups@
        &&& self.circuits.same_circuits(&after.circuits)
        &&& after.circuits.next_call_identifier == self.circuits.next_call_identifier
        &&& after.circuits.next_usage_number == self.circuits.next_usage_number
    }

    /// No calls, no D-SETUPs, no circuits.
    pub fn new(brew_enabled: bool) -> (r: Self)
        ensures
            r.wf(),
            r.brew_enabled == brew_enabled,
            r.dltime == (TdmaTime { h: 0, m: 1, f: 1, t: 1 }),
            r.active_calls@ == Seq::<ActiveCall>::empty(),
            r.cached_setups@ == Seq::<CachedSetup>::empty(),
            r.circuits.next_call_identifier == 4,
            r.circuits.next_usage_number == 4,
            forall|i: int| 0 <= i < 4 ==> #[trigger] r.circuits.dl@[i] is None && r.circuits.ul_only@[i] is None,
    {
        CcBsSubentity {
            dltime: TdmaTime::default(),
            brew_enabled,
            cached_setups: Vec::new(),
            circuits: CircuitMgr::new(),
            active_calls: Vec::new(),
        }
    }

    /// Whether the U-SETUP asks only for what is supported.
    pub fn feature_check_u_setup(p: &USetupFields) -> (r: bool)
        ensures
            r == u_setup_supported(*p),
    {
        (p.area_selection == 0 || p.area_selection == 1) && !p.hook_method_selection && !p.simplex_duplex_selection
    }

    /// A radio asks for a group call. Supported requests to a group get a downlink+uplink
    /// circuit on the first free timeslot, the caller gets the floor, and the call and its
    /// D-SETUP are kept. Unsupported requests, requests without a called SSI and requests
    /// when no timeslot is free change nothing and send nothing.
    pub fn rx_u_setup(
        &mut self,
        setup: &USetupFields,
        calling_party: TetraAddress,
        route: ReplyRoute,
        alloc: &mut TimeslotAllocator,
    ) -> (r: Vec<CcAction>)
        requires
            old(self).wf(),
        ensures
            final(self).wf(),
            !old(self).brew_enabled ==> none_to_bridge(r@),
            !(u_setup_supported(*setup) && setup.called_party_ssi is Some && old(self).circuits.free_ts_in(
                old(alloc)@,
                Direction::Both,
            ) is Some) ==> r@ == Seq::<CcAction>::empty() && old(self).unchanged(final(self)) && final(alloc)@ == old(
                alloc,
            )@,
            u_setup_supported(*setup) ==> (setup.called_party_ssi matches Some(ssi) ==> (old(self).circuits.free_ts_in(
                old(alloc)@,
                Direction::Both,
            ) matches Some(t) ==> {
                let c = new_circuit(
                    old(self).circuits.dltime,
                    Direction::Both,
                    t,
                    old(self).circuits.next_call_identifier,
                    old(self).circuits.next_usage_number,
                    setup.comm_type,
                );
                let gssi = ssi as u32;
                &&& old(self).circuits.opened(&final(self).circuits, Direction::Both, c)
                &&& final(self).circuits.next_call_identifier == call_id_after(old(self).circuits.next_call_identifier)
                &&& final(self).circuits.next_usage_number == usage_after(old(self).circuits.next_usage_number)
                &&& final(alloc)@ == old(alloc)@.update(t - 2, Some(TimeslotOwner::Cmce))
                &&& r@ == u_setup_actions(c, *setup, calling_party, route, gssi, old(self).brew_enabled)
                &&& final(self).active_calls@ == calls_insert(
                    old(self).active_calls@,
                    ActiveCall {
                        call_id: c.call_id,
                        origin: CallOrigin::Local { caller_addr: calling_party },
                        dest_gssi: gssi,
                        source_issi: calling_party.ssi,
                        ts: t,
                        usage: c.usage,
                        tx_active: true,
                        hangtime_start: None,
                    },
                )
                &&& final(self).cached_setups@ == setups_insert(
                    old(self).cached_setups@,
                    CachedSetup { call_id: c.call_id, dest: group_address(gssi) },
                )
                &&& final(self).dltime == old(self).dltime
                &&& final(self).brew_enabled == old(self).brew_enabled
            })),
    {
        let mut r: Vec<CcAction> = Vec::new();
        if !Self::feature_check_u_setup(setup) {
            return r;
        }
        let dest_gssi: u32 = match setup.called_party_ssi {
            Some(ssi) => ssi as u32,
            None => {
                return r;
            },
        };
        let dest_addr = TetraAddress::new(dest_gssi, SsiType::Gssi);
        let circuit = match self.circuits.allocate_circuit_with_allocator(
            Direction::Both,
            setup.comm_type,
            alloc,
            TimeslotOwner::Cmce,
        ) {
            Ok(c) => c,
            Err(_) => {
                return r;
            },
        };
        r.push(CcAction::OpenCircuit(circuit));
        r.push(CcAction::CallProceeding { call_id: circuit.call_id, to: calling_party, route });
        r.push(
            CcAction::Connect {
                call_id: circuit.call_id,
                to: calling_party,
                route,
                granted: true,
                chan: Some(ChanAlloc { usage: circuit.usage, ts: circuit.ts }),
            },
        );
        r.push(
            CcAction::Setup {
                call_id: circuit.call_id,
                to: dest_addr,
                calling_ssi: calling_party.ssi,
                comm_type: setup.comm_type,
                call_priority: setup.call_priority,
                usage: circuit.usage,
                ts: circuit.ts,
            },
        );
        insert_setup(&mut self.cached_setups, CachedSetup { call_id: circuit.call_id, dest: dest_addr });
        insert_call(
            &mut self.active_calls,
            ActiveCall {
                call_id: circuit.call_id,
                origin: CallOrigin::Local { caller_addr: calling_party },
                dest_gssi,
                source_issi: calling_party.ssi,
                ts: circuit.ts,
                usage: circuit.usage,
                tx_active: true,
                hangtime_start: None,
            },
        );
        if self.brew_enabled {
            r.push(
                CcAction::BrewFloorGranted {
                    call_id: circuit.call_id,
                    source_issi: calling_party.ssi,
                    dest_gssi,
                    ts: circuit.ts,
                },
            );
        }
        proof {
            assert(r@ =~= u_setup_actions(circuit, *setup, calling_party, route, dest_gssi, old(self).brew_enabled));
        }
        r
    }
    /// A radio asks for the floor of call `call_id`. A known call is granted to it: it becomes
    /// the speaker (and, for a local call, the address replies go to), hangtime ends. When the
    /// call's D-SETUP is kept, D-TX GRANTED goes to where it went, the lower MAC resumes
    /// traffic, and the bridge hears of a local speaker. An unknown call changes nothing.
    pub fn rx_u_tx_demand(&mut self, call_id: u16, requesting: TetraAddress) -> (r: Vec<CcAction>)
        requires
            old(self).wf(),
        ensures
            final(self).wf(),
            final(self).dltime == old(self).dltime,
            final(self).brew_enabled == old(self).brew_enabled,
            final(self).circuits == old(self).circuits,
            final(self).cached_setups@ == old(self).cached_setups@,
            call_index(old(self).active_calls@, call_id) is None ==> r@ == Seq::<CcAction>::empty()
                && final(self).active_calls@ == old(self).active_calls@,
            call_index(old(self).active_calls@, call_id) matches Some(i) ==> {
                let call = old(self).active_calls@[i];
                &&& final(self).active_calls@ == old(self).active_calls@.update(i, granted_to(call, requesting))
                &&& r@ == match setup_dest(old(self).cached_setups@, call_id) {
                    Some(dest) => tx_demand_actions(call, requesting, dest, old(self).brew_enabled),
                    None => Seq::<CcAction>::empty(),
                }
            },
            call_index(old(self).active_calls@, call_id) matches Some(i) ==> (!(old(self).active_calls@[i].origin is Local)
                || !old(self).brew_enabled ==> forall|k: int| 0 <= k < r@.len() ==> !(#[trigger] r@[k] is BrewFloorGranted)),
    {
        let mut r: Vec<CcAction> = Vec::new();
        let i = match find_call(&self.active_calls, call_id) {
            Some(i) => i,
            None => {
                return r;
            },
        };
        let call = self.active_calls[i];
        let origin = match call.origin {
            CallOrigin::Local { .. } => CallOrigin::Local { caller_addr: requesting },
            CallOrigin::Network { brew_uuid } => CallOrigin::Network { brew_uuid },
        };
        let local = match call.origin {
            CallOrigin::Local { .. } => true,
            CallOrigin::Network { .. } => false,
        };
        let updated = ActiveCall {
            call_id: call.call_id,
            origin,
            dest_gssi: call.dest_gssi,
            source_issi: requesting.ssi,
            ts: call.ts,
            usage: call.usage,
            tx_active: true,
            hangtime_start: None,
        };
        self.active_calls.set(i, updated);
        let dest = match find_setup(&self.cached_setups, call_id) {
            Some(k) => self.cached_setups[k].dest,
            None => {
                return r;
            },
        };
        r.push(CcAction::TxGranted { call_id, to: dest, granted: true, source_issi: requesting.ssi, ts: call.ts });
        r.push(CcAction::UmacFloorGranted { call_id, source_issi: requesting.ssi, dest_gssi: dest.ssi, ts: call.ts });
        if self.brew_enabled && local {
            r.push(CcAction::BrewFloorGranted { call_id, source_issi: requesting.ssi, dest_gssi: dest.ssi, ts: call.ts });
        }
        proof {
            assert(updated == granted_to(call, requesting));
            assert(r@ =~= tx_demand_actions(call, requesting, dest, old(self).brew_enabled));
        }
        r
    }

    /// The speaker of call `call_id` released the floor. A known call that is not already in
    /// hangtime enters it now; when its D-SETUP is kept, D-TX CEASED goes to where it went,
    /// the lower MAC enters hangtime on the timeslot, and the bridge hears of a local release.
    /// An unknown call, or a repeated release in hangtime, changes nothing.
    pub fn rx_u_tx_ceased(&mut self, call_id: u16) -> (r: Vec<CcAction>)
        requires
            old(self).wf(),
        ensures
            final(self).wf(),
            final(self).dltime == old(self).dltime,
            final(self).brew_enabled == old(self).brew_enabled,
            final(self).circuits == old(self).circuits,
            final(self).cached_setups@ == old(self).cached_setups@,
            call_index(old(self).active_calls@, call_id) is None ==> r@ == Seq::<CcAction>::empty()
                && final(self).active_calls@ == old(self).active_calls@,
            call_index(old(self).active_calls@, call_id) matches Some(i) ==> {
                let call = old(self).active_calls@[i];
                if !call.tx_active && call.hangtime_start is Some {
                    r@ == Seq::<CcAction>::empty() && final(self).active_calls@ == old(self).active_calls@
                } else {
                    &&& final(self).active_calls@ == old(self).active_calls@.update(i, released_at(call, old(self).dltime))
                    &&& r@ == match setup_dest(old(self).cached_setups@, call_id) {
                        Some(dest) => tx_ceased_actions(call, dest, old(self).brew_enabled),
                        None => Seq::<CcAction>::empty(),
                    }
                }
            },
            call_index(old(self).active_calls@, call_id) matches Some(i) ==> (!(old(self).active_calls@[i].origin is Local)
                || !old(self).brew_enabled ==> forall|k: int| 0 <= k < r@.len() ==> !(#[trigger] r@[k] is BrewFloorReleased)),
    {
        let mut r: Vec<CcAction> = Vec::new();
        let i = match find_call(&self.active_calls, call_id) {
            Some(i) => i,
            None => {
                return r;
            },
        };
        let call = self.active_calls[i];
        if !call.tx_active && call.hangtime_start.is_some() {
            return r;
        }
        let local = match call.origin {
            CallOrigin::Local { .. } => true,
            CallOrigin::Network { .. } => false,
        };
        let updated = ActiveCall {
            call_id: call.call_id,
            origin: call.origin,
            dest_gssi: call.dest_gssi,
            source_issi: call.source_issi,
            ts: call.ts,
            usage: call.usage,
            tx_active: false,
            hangtime_start: Some(self.dltime),
        };
        self.active_calls.set(i, updated);
        let dest = match find_setup(&self.cached_setups, call_id) {
            Some(k) => self.cached_setups[k].dest,
            None => {
                return r;
            },
        };
        r.push(CcAction::TxCeased { call_id, to: dest, ts: call.ts });
        r.push(CcAction::UmacFloorReleased { call_id, ts: call.ts });
        if self.brew_enabled && local {
            r.push(CcAction::BrewFloorReleased { call_id, ts: call.ts });
        }
        proof {
            assert(updated == released_at(call, old(self).dltime));
            assert(r@ =~= tx_ceased_actions(call, dest, old(self).brew_enabled));
        }
        r
    }

    /// The network starts a call from `source_issi` to group `dest_gssi`. If a call to the
    /// group is in progress (the first one kept), its floor passes to the new speaker.
    /// Otherwise a downlink+uplink circuit opens on the first free timeslot and the call and
    /// its D-SETUP are kept; with no timeslot free nothing changes and nothing is sent.
    pub fn rx_network_call_start(
        &mut self,
        brew_uuid: u128,
        source_issi: u32,
        dest_gssi: u32,
        _priority: u8,
        alloc: &mut TimeslotAllocator,
    ) -> (r: Vec<CcAction>)
        requires
            old(self).wf(),
        ensures
            final(self).wf(),
            !old(self).brew_enabled ==> none_to_bridge(r@),
            final(self).dltime == old(self).dltime,
            final(self).brew_enabled == old(self).brew_enabled,
            group_call_index(old(self).active_calls@, dest_gssi) matches Some(i) ==> {
                let call = old(self).active_calls@[i];
                &&& final(self).active_calls@ == old(self).active_calls@.update(i, network_speaker(call, brew_uuid, source_issi))
                &&& final(self).circuits == old(self).circuits
                &&& final(self).cached_setups@ == old(self).cached_setups@
                &&& final(alloc)@ == old(alloc)@
                &&& r@ == speaker_change_actions(call, brew_uuid, source_issi, dest_gssi, old(self).brew_enabled)
            },
            group_call_index(old(self).active_calls@, dest_gssi) is None ==> {
                match old(self).circuits.free_ts_in(old(alloc)@, Direction::Both) {
                    None => r@ == Seq::<CcAction>::empty() && old(self).unchanged(final(self)) && final(alloc)@ == old(
                        alloc,
                    )@,
                    Some(t) => {
                        let c = new_circuit(
                            old(self).circuits.dltime,
                            Direction::Both,
                            t,
                            old(self).circuits.next_call_identifier,
                            old(self).circuits.next_usage_number,
                            CommunicationType::P2Mp,
                        );
                        &&& old(self).circuits.opened(&final(self).circuits, Direction::Both, c)
                        &&& final(self).circuits.next_call_identifier == call_id_after(old(self).circuits.next_call_identifier)
                        &&& final(self).circuits.next_usage_number == usage_after(old(self).circuits.next_usage_number)
                        &&& final(alloc)@ == old(alloc)@.update(t - 2, Some(TimeslotOwner::Cmce))
                        &&& r@ == network_call_actions(c, brew_uuid, source_issi, dest_gssi, old(self).brew_enabled)
                        &&& final(self).active_calls@ == calls_insert(
                            old(self).active_calls@,
                            ActiveCall {
                                call_id: c.call_id,
                                origin: CallOrigin::Network { brew_uuid },
                                dest_gssi,
                                source_issi,
                                ts: t,
                                usage: c.usage,
                                tx_active: true,
                                hangtime_start: None,
                            },
                        )
                        &&& final(self).cached_setups@ == setups_insert(
                            old(self).cached_setups@,
                            CachedSetup { call_id: c.call_id, dest: group_address(dest_gssi) },
                        )
                    },
                }
            },
    {
        let mut r: Vec<CcAction> = Vec::new();
        let dest_addr = TetraAddress::new(dest_gssi, SsiType::Gssi);
        match find_group_call(&self.active_calls, dest_gssi) {
            Some(i) => {
                let call = self.active_calls[i];
                let origin = match call.origin {
                    CallOrigin::Network { .. } => CallOrigin::Network { brew_uuid },
                    CallOrigin::Local { caller_addr } => CallOrigin::Local { caller_addr },
                };
                let updated = ActiveCall {
                    call_id: call.call_id,
                    origin,
                    dest_gssi: call.dest_gssi,
                    source_issi,
                    ts: call.ts,
                    usage: call.usage,
                    tx_active: true,
                    hangtime_start: None,
                };
                self.active_calls.set(i, updated);
                r.push(
                    CcAction::TxGranted { call_id: call.call_id, to: dest_addr, granted: false, source_issi, ts: call.ts },
                );
                r.push(CcAction::UmacFloorGranted { call_id: call.call_id, source_issi, dest_gssi, ts: call.ts });
                if self.brew_enabled {
                    r.push(
                        CcAction::BrewNetworkCallReady { brew_uuid, call_id: call.call_id, ts: call.ts, usage: call.usage },
                    );
                }
                proof {
                    assert(updated == network_speaker(call, brew_uuid, source_issi));
                    assert(r@ =~= speaker_change_actions(call, brew_uuid, source_issi, dest_gssi, old(self).brew_enabled));
                }
                return r;
            },
            None => {},
        }
        let circuit = match self.circuits.allocate_circuit_with_allocator(
            Direction::Both,
            CommunicationType::P2Mp,
            alloc,
            TimeslotOwner::Cmce,
        ) {
            Ok(c) => c,
            Err(_) => {
                return r;
            },
        };
        r.push(CcAction::OpenCircuit(circuit));
        r.push(
            CcAction::Setup {
                call_id: circuit.call_id,
                to: dest_addr,
                calling_ssi: source_issi,
                comm_type: CommunicationType::P2Mp,
                call_priority: 0,
                usage: circuit.usage,
                ts: circuit.ts,
            },
        );
        r.push(
            CcAction::Connect {
                call_id: circuit.call_id,
                to: dest_addr,
                route: ReplyRoute { handle: 0, link_id: 0, endpoint_id: 0 },
                granted: false,
                chan: None,
            },
        );
        insert_setup(&mut self.cached_setups, CachedSetup { call_id: circuit.call_id, dest: dest_addr });
        insert_call(
            &mut self.active_calls,
            ActiveCall {
                call_id: circuit.call_id,
                origin: CallOrigin::Network { brew_uuid },
                dest_gssi,
                source_issi,
                ts: circuit.ts,
                usage: circuit.usage,
                tx_active: true,
                hangtime_start: None,
            },
        );
        if self.brew_enabled {
            r.push(
                CcAction::BrewNetworkCallReady { brew_uuid, call_id: circuit.call_id, ts: circuit.ts, usage: circuit.usage },
            );
        }
        proof {
            assert(r@ =~= network_call_actions(circuit, brew_uuid, source_issi, dest_gssi, old(self).brew_enabled));
        }
        r
    }
    /// Release call `call_id`: with its D-SETUP kept, send D-RELEASE to where that went,
    /// close the downlink circuit of the call's timeslot, tell the lower MAC (and the bridge,
    /// for a local call) that the call ended, and drop the call and its D-SETUP.
    fn release_call(&mut self, call_id: u16, alloc: &mut TimeslotAllocator) -> (r: Vec<CcAction>)
        requires
            old(self).wf(),
        ensures
            final(self).wf(),
            old(self).released(final(self), old(alloc)@, final(alloc)@, call_id, r@),
    {
        proof {
            alloc.lemma_len();
        }
        let mut r: Vec<CcAction> = Vec::new();
        let dest = match find_setup(&self.cached_setups, call_id) {
            Some(k) => self.cached_setups[k].dest,
            None => {
                return r;
            },
        };
        r.push(CcAction::Release { call_id, to: dest });
        let ghost closed: Option<CmceCircuit> = None;
        let ghost found = call_index(self.active_calls@, call_id);
        match find_call(&self.active_calls, call_id) {
            Some(i) => {
                let call = self.active_calls[i];
                let ts = call.ts;
                let local = match call.origin {
                    CallOrigin::Local { .. } => true,
                    CallOrigin::Network { .. } => false,
                };
                proof {
                    closed = self.circuits.dl@[ts - 1];
                }
                match self.circuits.close_circuit(Direction::Both, ts) {
                    Ok(c) => {
                        r.push(CcAction::CloseCircuit(c));
                    },
                    Err(_) => {},
                }
                r.push(CcAction::UmacCallEnded { call_id, ts });
                let _ = alloc.release(TimeslotOwner::Cmce, ts);
                proof {
                    assert(alloc@ =~= cmce_released(old(alloc)@, ts));
                }
                if self.brew_enabled && local {
                    r.push(CcAction::BrewCallEnded { call_id, ts });
                }
                proof {
                    assert(r@ =~= release_actions(call, dest, closed, old(self).brew_enabled));
                }
            },
            None => {
                proof {
                    assert(r@ =~= seq![CcAction::Release { call_id, to: dest }]);
                }
            },
        }
        remove_setup(&mut self.cached_setups, call_id);
        remove_call(&mut self.active_calls, call_id);
        r
    }

    /// A radio releases call `call_id` (U-RELEASE): the call is released.
    pub fn rx_u_release(&mut self, call_id: u16, alloc: &mut TimeslotAllocator) -> (r: Vec<CcAction>)
        requires
            old(self).wf(),
        ensures
            final(self).wf(),
            !old(self).brew_enabled ==> none_to_bridge(r@),
            !(call_index(old(self).active_calls@, call_id) matches Some(i) && old(self).active_calls@[i].origin is Local)
                ==> forall|k: int| 0 <= k < r@.len() ==> !(#[trigger] r@[k] is BrewCallEnded),
            old(self).released(final(self), old(alloc)@, final(alloc)@, call_id, r@),
    {
        self.release_call(call_id, alloc)
    }

    /// The network ends its call `brew_uuid`. While someone transmits, the call enters
    /// hangtime now: D-TX CEASED goes to the group and the lower MAC enters hangtime on the
    /// timeslot. Otherwise the call is released. An unknown call changes nothing.
    pub fn rx_network_call_end(&mut self, brew_uuid: u128, alloc: &mut TimeslotAllocator) -> (r: Vec<CcAction>)
        requires
            old(self).wf(),
        ensures
            final(self).wf(),
            !old(self).brew_enabled ==> none_to_bridge(r@),
            network_call_index(old(self).active_calls@, brew_uuid) is None ==> r@ == Seq::<CcAction>::empty() && old(
                self,
            ).unchanged(final(self)) && final(alloc)@ == old(alloc)@,
            network_call_index(old(self).active_calls@, brew_uuid) matches Some(i) ==> {
                let call = old(self).active_calls@[i];
                if call.tx_active {
                    &&& final(self).active_calls@ == old(self).active_calls@.update(i, released_at(call, old(self).dltime))
                    &&& final(self).circuits == old(self).circuits
                    &&& final(self).cached_setups@ == old(self).cached_setups@
                    &&& final(self).dltime == old(self).dltime
                    &&& final(self).brew_enabled == old(self).brew_enabled
                    &&& final(alloc)@ == old(alloc)@
                    &&& r@ == seq![
                        CcAction::TxCeased { call_id: call.call_id, to: group_address(call.dest_gssi), ts: call.ts },
                        CcAction::UmacFloorReleased { call_id: call.call_id, ts: call.ts },
                    ]
                } else {
                    old(self).released(final(self), old(alloc)@, final(alloc)@, call.call_id, r@)
                }
            },
    {
        let i = match find_network_call(&self.active_calls, brew_uuid) {
            Some(i) => i,
            None => {
                return Vec::new();
            },
        };
        let call = self.active_calls[i];
        if call.tx_active {
            let updated = ActiveCall {
                call_id: call.call_id,
                origin: call.origin,
                dest_gssi: call.dest_gssi,
                source_issi: call.source_issi,
                ts: call.ts,
                usage: call.usage,
                tx_active: false,
                hangtime_start: Some(self.dltime),
            };
            self.active_calls.set(i, updated);
            let mut r: Vec<CcAction> = Vec::new();
            r.push(
                CcAction::TxCeased {
                    call_id: call.call_id,
                    to: TetraAddress::new(call.dest_gssi, SsiType::Gssi),
                    ts: call.ts,
                },
            );
            r.push(CcAction::UmacFloorReleased { call_id: call.call_id, ts: call.ts });
            proof {
                assert(updated == released_at(call, old(self).dltime));
                assert(r@ =~= seq![
                    CcAction::TxCeased { call_id: call.call_id, to: group_address(call.dest_gssi), ts: call.ts },
                    CcAction::UmacFloorReleased { call_id: call.call_id, ts: call.ts },
                ]);
            }
            r
        } else {
            self.release_call(call.call_id, alloc)
        }
    }
    /// Release, one after another, the calls whose hangtime has run out: the state goes
    /// through one release per such call, in the order the calls are kept, and the actions
    /// are those of the releases in turn.
    pub fn check_hangtime_expiry(&mut self, alloc: &mut TimeslotAllocator) -> (r: Vec<CcAction>)
        requires
            old(self).wf(),
        ensures
            final(self).wf(),
            ({
                let ids = hangtime_expired_ids(old(self).active_calls@, old(self).dltime);
                exists|states: Seq<CcBsSubentity>, owners: Seq<Seq<Option<TimeslotOwner>>>, rs: Seq<Seq<CcAction>>|
                    #![trigger states.len(), owners.len(), rs.len()]
                    states.len() == ids.len() + 1 && owners.len() == ids.len() + 1 && rs.len() == ids.len() && states[0]
                        == *old(self) && owners[0] == old(alloc)@ && states.last() == *final(self) && owners.last()
                        == final(alloc)@ && r@ == concat_all(rs) && forall|k: int|
                        0 <= k < ids.len() ==> #[trigger] states[k].released(&states[k + 1], owners[k], owners[k + 1], ids[k], rs[k])
            }),
    {
        let ghost calls0 = self.active_calls@;
        let ghost now = self.dltime;
        let mut expired: Vec<u16> = Vec::new();
        let mut j: usize = 0;
        while j < self.active_calls.len()
            invariant
                j <= self.active_calls.len(),
                self.active_calls@ == calls0,
                self.dltime == now,
                expired@ == hangtime_expired_ids(calls0.take(j as int), now),
            decreases self.active_calls.len() - j,
        {
            proof {
                assert(calls0.take(j + 1).drop_last() =~= calls0.take(j as int));
                assert(calls0.take(j + 1).last() == calls0[j as int]);
            }
            let call = self.active_calls[j];
            if let Some(h) = call.hangtime_start {
                if h.age(self.dltime) > 5 * 18 * 4 {
                    expired.push(call.call_id);
                }
            }
            j = j + 1;
        }
        proof {
            assert(calls0.take(calls0.len() as int) =~= calls0);
        }
        let ghost ids = expired@;
        let mut r: Vec<CcAction> = Vec::new();
        let ghost mut states: Seq<CcBsSubentity> = seq![*self];
        let ghost mut owners: Seq<Seq<Option<TimeslotOwner>>> = seq![alloc@];
        let ghost mut rs: Seq<Seq<CcAction>> = Seq::empty();
        let mut k: usize = 0;
        while k < expired.len()
            invariant
                k <= expired.len(),
                expired@ == ids,
                self.wf(),
                states.len() == k + 1,
                owners.len() == k + 1,
                rs.len() == k,
                states[0] == *old(self),
                owners[0] == old(alloc)@,
                states.last() == *self,
                owners.last() == alloc@,
                r@ == concat_all(rs),
                forall|q: int| 0 <= q < k ==> #[trigger] states[q].released(&states[q + 1], owners[q], owners[q + 1], ids[q], rs[q]),
            decreases expired.len() - k,
        {
            let ghost before = *self;
            let ghost owners_before = alloc@;
            let rk = self.release_call(expired[k], alloc);
            let ghost sb = states;
            let ghost ob = owners;
            let ghost rsb = rs;
            proof {
                states = states.push(*self);
                owners = owners.push(alloc@);
                rs = rs.push(rk@);
                assert forall|q: int| 0 <= q < k + 1 implies #[trigger] states[q].released(
                    &states[q + 1],
                    owners[q],
                    owners[q + 1],
                    ids[q],
                    rs[q],
                ) by {
                    if q < k {
                        assert(states[q] == sb[q]);
                        assert(states[q + 1] == sb[q + 1]);
                        assert(owners[q] == ob[q]);
                        assert(owners[q + 1] == ob[q + 1]);
                        assert(rs[q] == rsb[q]);
                    } else {
                        assert(states[q] == before);
                        assert(owners[q] == owners_before);
                    }
                }
                assert(rs.drop_last() =~= rsb);
            }
            let mut rk = rk;
            r.append(&mut rk);
            k = k + 1;
        }
        proof {
            assert(states.len() == ids.len() + 1 && owners.len() == ids.len() + 1 && rs.len() == ids.len());
        }
        r
    }
}

} // verus!
