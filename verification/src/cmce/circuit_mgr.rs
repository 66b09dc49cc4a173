//! Circuits on the traffic timeslots 2 to 4, with the downlink blocks queued for them.
use vstd::prelude::*;
use std::collections::VecDeque;
use crate::direction::Direction;
use crate::tdma_time::{TdmaTime, ts_index};
use crate::timeslot_alloc::{TimeslotAllocator, TimeslotOwner};

verus! {

/// Call identifier of a circuit.
pub type CallId = u16;

/// Circuit mode types: speech, then data at 7.2, 4.8 and 2.4 kbit/s with interleaving depths.
#[derive(Debug, Clone, Copy, PartialEq, Eq, Structural)]
pub enum CircuitModeType {
    TchS,
    Tch72,
    Tch48N1,
    Tch48N4,
    Tch48N8,
    Tch24N1,
    Tch24N4,
    Tch24N8,
}

/// Communication types of a call.
#[derive(Debug, Clone, Copy, PartialEq, Eq, Structural)]
pub enum CommunicationType {
    P2p,
    P2Mp,
    P2MpAck,
    Broadcast,
}

/// An open circuit.
#[derive(Debug, Clone, Copy, PartialEq, Eq, Structural)]
pub struct CmceCircuit {
    pub ts_created: TdmaTime,
    pub direction: Direction,
    pub ts: u8,
    pub call_id: CallId,
    pub usage: u8,
    pub circuit_mode: CircuitModeType,
    pub comm_type: CommunicationType,
    pub simplex_duplex: bool,
    pub speech_service: Option<u8>,
    pub etee_encrypted: bool,
}

/// Why a circuit operation was refused.
#[derive(Debug, Clone, Copy, PartialEq, Eq, Structural)]
pub enum CircuitErr {
    NoCircuitFree,
    CircuitAlreadyInUse,
    CircuitNotActive,
}

/// What the circuit manager asks call control to send on a timeslot tick.
#[derive(Debug, Clone, Copy, PartialEq, Eq, Structural)]
pub enum CircuitMgrCmd {
    /// Repeat the D-SETUP of the call, with its usage number.
    SendDSetup(CallId, u8),
    /// Release the call whose circuit was closed.
    SendClose(CallId, CmceCircuit),
}

/// A circuit created at `created` has expired at `now`: it is more than 10 multiframes old.
pub open spec fn circuit_expired(c: CmceCircuit, now: TdmaTime) -> bool {
    ts_index(now) - ts_index(c.ts_created) > 10 * 18 * 4
}

/// The D-SETUP of a circuit is repeated at frame start `now`: in its first 4 frames, then
/// every third frame.
pub open spec fn setup_due(c: CmceCircuit, now: TdmaTime) -> bool {
    let a = ts_index(now) - ts_index(c.ts_created);
    a < 4 * 4 || (a - 4) % 3 == 2
}

/// The close commands for the expired circuits among the first `n` of `slots`, in order.
pub open spec fn expired_closes(slots: Seq<Option<CmceCircuit>>, now: TdmaTime, n: nat) -> Seq<CircuitMgrCmd>
    decreases n,
{
    if n == 0 {
        Seq::empty()
    } else {
        let r = expired_closes(slots, now, (n - 1) as nat);
        match slots[n - 1] {
            Some(c) => if circuit_expired(c, now) {
                r.push(CircuitMgrCmd::SendClose(c.call_id, c))
            } else {
                r
            },
            None => r,
        }
    }
}

/// `slots` without their expired circuits.
pub open spec fn unexpired(slots: Seq<Option<CmceCircuit>>, now: TdmaTime) -> Seq<Option<CmceCircuit>> {
    Seq::new(
        slots.len(),
        |i: int|
            match slots[i] {
                Some(c) => if circuit_expired(c, now) {
                    None
                } else {
                    Some(c)
                },
                None => None,
            },
    )
}

/// The D-SETUP repetitions due among the first `n` of `slots`, in order.
pub open spec fn setups_due(slots: Seq<Option<CmceCircuit>>, now: TdmaTime, n: nat) -> Seq<CircuitMgrCmd>
    decreases n,
{
    if n == 0 {
        Seq::empty()
    } else {
        let r = setups_due(slots, now, (n - 1) as nat);
        match slots[n - 1] {
            Some(c) => if setup_due(c, now) {
                r.push(CircuitMgrCmd::SendDSetup(c.call_id, c.usage))
            } else {
                r
            },
            None => r,
        }
    }
}

/// The commands held by `tasks`.
pub open spec fn cmds_of(tasks: Option<Vec<CircuitMgrCmd>>) -> Seq<CircuitMgrCmd> {
    match tasks {
        Some(v) => v@,
        None => Seq::empty(),
    }
}

/// `tasks` after `cmds` were added: unchanged when there are none, else present with them last.
pub open spec fn tasks_extended(tasks: Option<Vec<CircuitMgrCmd>>, cmds: Seq<CircuitMgrCmd>, r: Option<Vec<CircuitMgrCmd>>) -> bool {
    &&& cmds_of(r) == cmds_of(tasks) + cmds
    &&& (r is None <==> tasks is None && cmds.len() == 0)
}

/// The circuits of timeslots 1 to 4 (index `ts - 1`) and their queued downlink blocks.
pub struct CircuitMgr {
    pub dltime: TdmaTime,
    /// Downlink and downlink+uplink circuits.
    pub dl: [Option<CmceCircuit>; 4],
    /// Uplink-only circuits, with no recipients on this cell.
    pub ul_only: [Option<CmceCircuit>; 4],
    /// Data blocks queued for transmission, per timeslot.
    pub tx_data: [VecDeque<Vec<u8>>; 4],
    /// Next call identifier; zero is reserved.
    pub next_call_identifier: u16,
    /// Next usage number; 0 to 3 are reserved.
    pub next_usage_number: u8,
}

/// The call identifier after `c`: one more, wrapping from 0x3FF to 1.
pub open spec fn call_id_after(c: u16) -> u16 {
    if c + 1 > 0x3FF {
        1
    } else {
        (c + 1) as u16
    }
}

/// The usage number after `u`: one more, wrapping from 63 to 4.
pub open spec fn usage_after(u: u8) -> u8 {
    if u + 1 > 63 {
        4
    } else {
        (u + 1) as u8
    }
}

/// The circuit that `allocate_circuit` opens for `dir` on timeslot `ts`.
pub open spec fn new_circuit(
    created: TdmaTime,
    dir: Direction,
    ts: u8,
    call_id: CallId,
    usage: u8,
    comm_type: CommunicationType,
) -> CmceCircuit {
    CmceCircuit {
        ts_created: created,
        direction: dir,
        ts,
        call_id,
        usage,
        circuit_mode: CircuitModeType::TchS,
        comm_type,
        simplex_duplex: false,
        speech_service: Some(0u8),
        etee_encrypted: false,
    }
}

impl CircuitMgr {
    /// The queued blocks of each timeslot, oldest first.
    pub open spec fn queues(&self) -> Seq<Seq<Vec<u8>>> {
        Seq::new(4, |j: int| self.tx_data@[j]@)
    }

    /// A downlink (or downlink+uplink) circuit is open on timeslot `ts`.
    pub open spec fn dl_active(&self, ts: int) -> bool {
        self.dl@[ts - 1] is Some
    }

    /// The uplink of timeslot `ts` is in use: by a downlink+uplink circuit or an uplink-only one.
    pub open spec fn ul_active(&self, ts: int) -> bool {
        match self.dl@[ts - 1] {
            Some(c) => c.direction == Direction::Both || self.ul_only@[ts - 1] is Some,
            None => self.ul_only@[ts - 1] is Some,
        }
    }

    /// Timeslot `ts` can take a new circuit for `dir`.
    pub open spec fn free_for(&self, ts: int, dir: Direction) -> bool {
        match dir {
            Direction::Dl => !self.dl_active(ts),
            Direction::Ul => !self.ul_active(ts),
            Direction::Both => !self.dl_active(ts) && !self.ul_active(ts),
            Direction::Neither => false,
        }
    }

    /// The first of the timeslots 2 to 4 free for `dir`.
    pub open spec fn free_ts(&self, dir: Direction) -> Option<u8> {
        if self.free_for(2, dir) {
            Some(2u8)
        } else if self.free_for(3, dir) {
            Some(3u8)
        } else if self.free_for(4, dir) {
            Some(4u8)
        } else {
            None
        }
    }

    /// The first of the timeslots 2 to 4 free for `dir` here and without owner in the
    /// timeslot allocator whose owners of timeslots 2, 3, 4 are `owners`.
    pub open spec fn free_ts_in(&self, owners: Seq<Option<TimeslotOwner>>, dir: Direction) -> Option<u8> {
        if self.free_for(2, dir) && owners[0] is None {
            Some(2u8)
        } else if self.free_for(3, dir) && owners[1] is None {
            Some(3u8)
        } else if self.free_for(4, dir) && owners[2] is None {
            Some(4u8)
        } else {
            None
        }
    }

    /// Each circuit sits at the index of its timeslot, downlink and downlink+uplink ones
    /// among the downlink circuits and uplink-only ones among those; no timeslot has both a
    /// downlink+uplink circuit and an uplink-only one.
    pub open spec fn wf(&self) -> bool {
        &&& forall|i: int|
            0 <= i < 4 ==> (#[trigger] self.dl@[i] matches Some(c) && c.direction == Direction::Both ==> self.ul_only@[i] is None)
        &&& forall|i: int|
            0 <= i < 4 ==> (#[trigger] self.dl@[i] matches Some(c) ==> c.ts == i + 1 && (c.direction == Direction::Dl
                || c.direction == Direction::Both))
        &&& forall|i: int|
            0 <= i < 4 ==> (#[trigger] self.ul_only@[i] matches Some(c) ==> c.ts == i + 1 && c.direction == Direction::Ul)
    }

    /// `after` is `self` with the circuit `c` opened for `dir` on its timeslot: an uplink-only
    /// circuit, or a downlink one whose block queue starts empty.
    pub open spec fn opened(&self, after: &CircuitMgr, dir: Direction, c: CmceCircuit) -> bool {
        let i = c.ts - 1;
        &&& after.dltime == self.dltime
        &&& if dir == Direction::Ul {
            &&& after.ul_only@ == self.ul_only@.update(i, Some(c))
            &&& after.dl@ == self.dl@
            &&& after.queues() == self.queues()
        } else {
            &&& after.dl@ == self.dl@.update(i, Some(c))
            &&& after.ul_only@ == self.ul_only@
            &&& after.queues() == self.queues().update(i, Seq::empty())
        }
    }

    /// The other fields of `after` are those of `self`.
    pub open spec fn same_circuits(&self, after: &CircuitMgr) -> bool {
        &&& after.dltime == self.dltime
        &&& after.dl@ == self.dl@
        &&& after.ul_only@ == self.ul_only@
        &&& after.queues() == self.queues()
    }

    /// No circuits, empty queues; call identifiers and usage numbers start at 4.
    pub fn new() -> (r: Self)
        ensures
            r.dltime == (TdmaTime { h: 0, m: 1, f: 1, t: 1 }),
            forall|i: int| 0 <= i < 4 ==> #[trigger] r.dl@[i] is None && r.ul_only@[i] is None,
            r.queues() == Seq::new(4, |j: int| Seq::<Vec<u8>>::empty()),
            r.next_call_identifier == 4,
            r.next_usage_number == 4,
            r.wf(),
    {
        Self {
            dltime: TdmaTime::default(),
            dl: [None, None, None, None],
            ul_only: [None, None, None, None],
            tx_data: [VecDeque::new(), VecDeque::new(), VecDeque::new(), VecDeque::new()],
            next_call_identifier: 4,
            next_usage_number: 4,
        }
    }

    /// Whether timeslot `ts` has an active (downlink, uplink) circuit.
    pub fn is_active(&self, ts: u8) -> (r: (bool, bool))
        requires
            1 <= ts <= 4,
        ensures
            r == (self.dl_active(ts as int), self.ul_active(ts as int)),
    {
        let i = (ts - 1) as usize;
        match &self.dl[i] {
            Some(dl) => {
                if dl.direction == Direction::Both {
                    (true, true)
                } else {
                    (true, self.ul_only[i].is_some())
                }
            },
            None => (false, self.ul_only[i].is_some()),
        }
    }

    /// Whether timeslot `ts` has an active circuit in direction `dir` (downlink or uplink).
    /// For the uplink, a timeslot with a downlink circuit must have no uplink-only one.
    pub fn is_active_dir(&self, ts: u8, dir: Direction) -> (r: bool)
        requires
            1 <= ts <= 4,
            dir == Direction::Dl || dir == Direction::Ul,
            dir == Direction::Ul && self.dl@[ts - 1] is Some ==> self.ul_only@[ts - 1] is None,
        ensures
            r == (if dir == Direction::Dl { self.dl_active(ts as int) } else { self.ul_active(ts as int) }),
    {
        let i = (ts - 1) as usize;
        match dir {
            Direction::Dl => self.dl[i].is_some(),
            _ => {
                let dl_is_both = match &self.dl[i] {
                    Some(dl) => dl.direction == Direction::Both,
                    None => false,
                };
                self.ul_only[i].is_some() || dl_is_both
            },
        }
    }

    /// Usage numbers of the circuits on timeslot `ts`: (downlink, uplink); the uplink of a
    /// downlink+uplink circuit has the downlink's.
    pub fn get_usage(&self, ts: u8) -> (r: (Option<u8>, Option<u8>))
        requires
            1 <= ts <= 4,
            self.dl@[ts - 1] matches Some(c) && c.direction == Direction::Both ==> self.ul_only@[ts - 1] is None,
        ensures
            r.0 == (match self.dl@[ts - 1] {
                Some(c) => Some(c.usage),
                None => None,
            }),
            r.1 == (match self.dl@[ts - 1] {
                Some(c) if c.direction == Direction::Both => Some(c.usage),
                _ => match self.ul_only@[ts - 1] {
                    Some(u) => Some(u.usage),
                    None => None,
                },
            }),
    {
        let i = (ts - 1) as usize;
        let (dl_usage, dl_is_both) = match &self.dl[i] {
            Some(dl) => (Some(dl.usage), dl.direction == Direction::Both),
            None => (None, false),
        };
        let ul_usage = if dl_is_both {
            dl_usage
        } else {
            match &self.ul_only[i] {
                Some(ul) => Some(ul.usage),
                None => None,
            }
        };
        (dl_usage, ul_usage)
    }

    /// Hand out the next call identifier; identifiers wrap from 0x3FF to 1.
    pub fn get_next_call_id(&mut self) -> (r: CallId)
        requires
            old(self).next_call_identifier < 0xFFFF,
        ensures
            r == old(self).next_call_identifier,
            final(self).next_call_identifier == call_id_after(old(self).next_call_identifier),
            final(self).next_usage_number == old(self).next_usage_number,
            old(self).same_circuits(final(self)),
    {
        let call_id = self.next_call_identifier;
        self.next_call_identifier = self.next_call_identifier + 1;
        if self.next_call_identifier > 0x3FF {
            self.next_call_identifier = 1;
        }
        call_id
    }

    /// Hand out the next usage number; numbers wrap from 63 to 4.
    pub fn get_next_usage_number(&mut self) -> (r: u8)
        requires
            old(self).next_usage_number < 0xFF,
        ensures
            r == old(self).next_usage_number,
            final(self).next_usage_number == usage_after(old(self).next_usage_number),
            final(self).next_call_identifier == old(self).next_call_identifier,
            old(self).same_circuits(final(self)),
    {
        let usage = self.next_usage_number;
        self.next_usage_number = self.next_usage_number + 1;
        if self.next_usage_number > 63 {
            self.next_usage_number = 4;
        }
        usage
    }

    /// The first timeslot of 2 to 4 free for `dir`.
    fn get_free_ts(&self, dir: Direction) -> (r: Result<u8, CircuitErr>)
        ensures
            r == (match self.free_ts(dir) {
                Some(t) => Ok::<u8, CircuitErr>(t),
                None => Err(CircuitErr::NoCircuitFree),
            }),
    {
        let mut ts: u8 = 2;
        while ts <= 4
            invariant
                2 <= ts <= 5,
                forall|u: int| 2 <= u < ts ==> !#[trigger] self.free_for(u, dir),
            decreases 5 - ts,
        {
            let (dl_active, ul_active) = self.is_active(ts);
            match dir {
                Direction::Dl => {
                    if !dl_active {
                        return Ok(ts);
                    }
                },
                Direction::Ul => {
                    if !ul_active {
                        return Ok(ts);
                    }
                },
                Direction::Both => {
                    if !dl_active && !ul_active {
                        return Ok(ts);
                    }
                },
                Direction::Neither => {},
            }
            ts = ts + 1;
        }
        Err(CircuitErr::NoCircuitFree)
    }

    /// Open a circuit for `dir` (not `Neither`) on the timeslot it names, refusing when the
    /// timeslot is already in use in a direction that `dir` covers.
    fn open_circuit(&mut self, dir: Direction, circuit: CmceCircuit) -> (r: Result<CmceCircuit, CircuitErr>)
        requires
            1 <= circuit.ts <= 4,
            dir != Direction::Neither,
        ensures
            ((dir == Direction::Dl || dir == Direction::Both) && old(self).dl_active(circuit.ts as int)) || ((dir
                == Direction::Ul || dir == Direction::Both) && old(self).ul_active(circuit.ts as int)) ==> r == Err::<
                CmceCircuit,
                CircuitErr,
            >(CircuitErr::CircuitAlreadyInUse) && old(self).same_circuits(final(self)),
            !(((dir == Direction::Dl || dir == Direction::Both) && old(self).dl_active(circuit.ts as int)) || ((dir
                == Direction::Ul || dir == Direction::Both) && old(self).ul_active(circuit.ts as int))) ==> r == Ok::<
                CmceCircuit,
                CircuitErr,
            >(circuit) && old(self).opened(final(self), dir, circuit),
            final(self).next_call_identifier == old(self).next_call_identifier,
            final(self).next_usage_number == old(self).next_usage_number,
    {
        let ts = circuit.ts;
        let i = (ts - 1) as usize;
        let (dl_active, ul_active) = self.is_active(ts);
        if dir.includes_dl() && dl_active {
            return Err(CircuitErr::CircuitAlreadyInUse);
        }
        if dir.includes_ul() && ul_active {
            return Err(CircuitErr::CircuitAlreadyInUse);
        }
        if dir.includes_dl() {
            self.tx_data[i] = VecDeque::new();
            self.dl[i] = Some(circuit);
            assert(self.queues() =~= old(self).queues().update(i as int, Seq::empty()));
        } else {
            self.ul_only[i] = Some(circuit);
            assert(self.queues() =~= old(self).queues());
        }
        Ok(circuit)
    }

    /// Open a circuit for `dir` on the first free timeslot of 2 to 4, with the next call
    /// identifier and usage number: a speech circuit, simplex, not end-to-end encrypted.
    pub fn allocate_circuit(&mut self, dir: Direction, comm_type: CommunicationType) -> (r: Result<CmceCircuit, CircuitErr>)
        requires
            old(self).free_ts(dir) is Some ==> old(self).next_call_identifier < 0xFFFF && old(self).next_usage_number < 0xFF,
        ensures
            old(self).free_ts(dir) is None ==> r == Err::<CmceCircuit, CircuitErr>(CircuitErr::NoCircuitFree) && old(self).same_circuits(final(self)) && final(self).next_call_identifier == old(self).next_call_identifier && final(self).next_usage_number == old(self).next_usage_number,
            old(self).free_ts(dir) matches Some(t) ==> {
                let c = new_circuit(
                    old(self).dltime,
                    dir,
                    t,
                    old(self).next_call_identifier,
                    old(self).next_usage_number,
                    comm_type,
                );
                &&& r == Ok::<CmceCircuit, CircuitErr>(c)
                &&& old(self).opened(final(self), dir, c)
                &&& final(self).next_call_identifier == call_id_after(old(self).next_call_identifier)
                &&& final(self).next_usage_number == usage_after(old(self).next_usage_number)
            },
            old(self).wf() ==> final(self).wf(),
    {
        let ts = match self.get_free_ts(dir) {
            Ok(ts) => ts,
            Err(e) => {
                return Err(e);
            },
        };
        let call_id = self.get_next_call_id();
        let usage = self.get_next_usage_number();
        let circuit = CmceCircuit {
            ts_created: self.dltime,
            direction: dir,
            ts,
            call_id,
            usage,
            circuit_mode: CircuitModeType::TchS,
            comm_type,
            simplex_duplex: false,
            speech_service: Some(0),
            etee_encrypted: false,
        };
        let r = self.open_circuit(dir, circuit);
        r
    }

    /// The first of the timeslots 2 to 4 free for `dir` here and without owner in `alloc`.
    fn free_ts_with(&self, alloc: &TimeslotAllocator, dir: Direction) -> (r: Option<u8>)
        ensures
            r == self.free_ts_in(alloc@, dir),
    {
        proof {
            alloc.lemma_len();
        }
        let mut ts: u8 = 2;
        while ts <= 4
            invariant
                2 <= ts <= 5,
                alloc@.len() == 3,
                forall|u: int| 2 <= u < ts ==> !(#[trigger] self.free_for(u, dir) && alloc@[u - 2] is None),
            decreases 5 - ts,
        {
            let (dl_active, ul_active) = self.is_active(ts);
            let free_here = match dir {
                Direction::Dl => !dl_active,
                Direction::Ul => !ul_active,
                Direction::Both => !dl_active && !ul_active,
                Direction::Neither => false,
            };
            if free_here && alloc.is_free(ts) {
                return Some(ts);
            }
            ts = ts + 1;
        }
        None
    }

    /// Open a circuit for `dir` on the first of the timeslots 2 to 4 that is free here and
    /// has no owner in `alloc`, reserving that timeslot in `alloc` for `owner`, with the next
    /// call identifier and usage number: a speech circuit, simplex, not end-to-end encrypted.
    pub fn allocate_circuit_with_allocator(
        &mut self,
        dir: Direction,
        comm_type: CommunicationType,
        alloc: &mut TimeslotAllocator,
        owner: TimeslotOwner,
    ) -> (r: Result<CmceCircuit, CircuitErr>)
        requires
            old(self).free_ts_in(old(alloc)@, dir) is Some ==> old(self).next_call_identifier < 0xFFFF
                && old(self).next_usage_number < 0xFF,
        ensures
            final(alloc)@.len() == 3,
            old(self).free_ts_in(old(alloc)@, dir) is None ==> r == Err::<CmceCircuit, CircuitErr>(CircuitErr::NoCircuitFree)
                && old(self).same_circuits(final(self)) && final(self).next_call_identifier == old(self).next_call_identifier
                && final(self).next_usage_number == old(self).next_usage_number && final(alloc)@ == old(alloc)@,
            old(self).free_ts_in(old(alloc)@, dir) matches Some(t) ==> {
                let c = new_circuit(
                    old(self).dltime,
                    dir,
                    t,
                    old(self).next_call_identifier,
                    old(self).next_usage_number,
                    comm_type,
                );
                &&& r == Ok::<CmceCircuit, CircuitErr>(c)
                &&& old(self).opened(final(self), dir, c)
                &&& final(self).next_call_identifier == call_id_after(old(self).next_call_identifier)
                &&& final(self).next_usage_number == usage_after(old(self).next_usage_number)
                &&& final(alloc)@ == old(alloc)@.update(t - 2, Some(owner))
            },
            old(self).wf() ==> final(self).wf(),
    {
        proof {
            alloc.lemma_len();
        }
        let ts = match self.free_ts_with(alloc, dir) {
            Some(ts) => ts,
            None => {
                return Err(CircuitErr::NoCircuitFree);
            },
        };
        assert(self.free_ts_in(alloc@, dir) == Some(ts));
        match alloc.reserve(owner, ts) {
            Ok(()) => {},
            Err(_) => {
                return Err(CircuitErr::NoCircuitFree);
            },
        }
        let call_id = self.get_next_call_id();
        let usage = self.get_next_usage_number();
        let circuit = CmceCircuit {
            ts_created: self.dltime,
            direction: dir,
            ts,
            call_id,
            usage,
            circuit_mode: CircuitModeType::TchS,
            comm_type,
            simplex_duplex: false,
            speech_service: Some(0),
            etee_encrypted: false,
        };
        self.open_circuit(dir, circuit)
    }

    /// Close the circuit of timeslot `ts` in direction `dir`, returning it: the uplink-only
    /// circuit for `Ul`; the downlink (or downlink+uplink) circuit for `Dl` and `Both`, whose
    /// queued blocks are dropped.
    pub fn close_circuit(&mut self, dir: Direction, ts: u8) -> (r: Result<CmceCircuit, CircuitErr>)
        requires
            1 <= ts <= 4,
            dir != Direction::Neither,
        ensures
            dir == Direction::Ul ==> {
                &&& r == (match old(self).ul_only@[ts - 1] {
                    Some(c) => Ok::<CmceCircuit, CircuitErr>(c),
                    None => Err(CircuitErr::CircuitNotActive),
                })
                &&& final(self).ul_only@ == old(self).ul_only@.update(ts - 1, None)
                &&& final(self).dl@ == old(self).dl@
                &&& final(self).queues() == old(self).queues()
            },
            dir != Direction::Ul ==> {
                &&& r == (match old(self).dl@[ts - 1] {
                    Some(c) => Ok::<CmceCircuit, CircuitErr>(c),
                    None => Err(CircuitErr::CircuitNotActive),
                })
                &&& final(self).dl@ == old(self).dl@.update(ts - 1, None)
                &&& final(self).ul_only@ == old(self).ul_only@
                &&& final(self).queues() == old(self).queues().update(ts - 1, Seq::empty())
            },
            final(self).dltime == old(self).dltime,
            final(self).next_call_identifier == old(self).next_call_identifier,
            final(self).next_usage_number == old(self).next_usage_number,
            old(self).wf() ==> final(self).wf(),
    {
        let i = (ts - 1) as usize;
        match dir {
            Direction::Ul => {
                let circuit = self.ul_only[i];
                self.ul_only[i] = None;
                assert(self.queues() =~= old(self).queues());
                match circuit {
                    Some(c) => Ok(c),
                    None => Err(CircuitErr::CircuitNotActive),
                }
            },
            _ => {
                self.tx_data[i] = VecDeque::new();
                assert(self.queues() =~= old(self).queues().update(i as int, Seq::empty()));
                let circuit = self.dl[i];
                self.dl[i] = None;
                match circuit {
                    Some(c) => Ok(c),
                    None => Err(CircuitErr::CircuitNotActive),
                }
            },
        }
    }

    /// `tasks` with `cmd` added last.
    fn push_task(tasks: Option<Vec<CircuitMgrCmd>>, cmd: CircuitMgrCmd) -> (r: Option<Vec<CircuitMgrCmd>>)
        ensures
            r is Some,
            cmds_of(r) == cmds_of(tasks).push(cmd),
    {
        let mut v = match tasks {
            Some(v) => v,
            None => Vec::new(),
        };
        v.push(cmd);
        Some(v)
    }

    /// Close every circuit older than 10 multiframes: the downlink ones first, then the
    /// uplink-only ones, each in timeslot order, adding a close command for each to `tasks`.
    fn close_expired_circuits(&mut self, tasks: Option<Vec<CircuitMgrCmd>>) -> (r: Option<Vec<CircuitMgrCmd>>)
        requires
            old(self).wf(),
        ensures
            final(self).wf(),
            tasks_extended(
                tasks,
                expired_closes(old(self).dl@, old(self).dltime, 4) + expired_closes(old(self).ul_only@, old(self).dltime, 4),
                r,
            ),
            final(self).dl@ == unexpired(old(self).dl@, old(self).dltime),
            final(self).ul_only@ == unexpired(old(self).ul_only@, old(self).dltime),
            forall|i: int|
                0 <= i < 4 ==> #[trigger] final(self).queues()[i] == (if unexpired(old(self).dl@, old(self).dltime)[i]
                    == old(self).dl@[i] {
                    old(self).queues()[i]
                } else {
                    Seq::empty()
                }),
            final(self).dltime == old(self).dltime,
            final(self).next_call_identifier == old(self).next_call_identifier,
            final(self).next_usage_number == old(self).next_usage_number,
    {
        let ghost now = self.dltime;
        let ghost dl0 = self.dl@;
        let ghost ul0 = self.ul_only@;
        let ghost q0 = self.queues();
        let mut t = tasks;
        let mut i: usize = 0;
        while i < 4
            invariant
                i <= 4,
                self.wf(),
                self.dltime == now,
                self.next_call_identifier == old(self).next_call_identifier,
                self.next_usage_number == old(self).next_usage_number,
                dl0 == old(self).dl@,
                ul0 == old(self).ul_only@,
                q0 == old(self).queues(),
                now == old(self).dltime,
                forall|j: int| 0 <= j < i ==> #[trigger] self.dl@[j] == unexpired(dl0, now)[j],
                forall|j: int| i <= j < 4 ==> #[trigger] self.dl@[j] == dl0[j],
                self.ul_only@ == ul0,
                forall|j: int|
                    0 <= j < 4 ==> #[trigger] self.queues()[j] == (if j < i && unexpired(dl0, now)[j] != dl0[j] {
                        Seq::empty()
                    } else {
                        q0[j]
                    }),
                cmds_of(t) == cmds_of(tasks) + expired_closes(dl0, now, i as nat),
                t is None <==> tasks is None && expired_closes(dl0, now, i as nat).len() == 0,
            decreases 4 - i,
        {
            let ghost before_q = self.queues();
            if let Some(c) = self.dl[i] {
                if c.ts_created.age(self.dltime) > 10 * 18 * 4 {
                    assert(c.ts == i + 1);
                    match self.close_circuit(c.direction, c.ts) {
                        Ok(x) => {
                            t = Self::push_task(t, CircuitMgrCmd::SendClose(c.call_id, x));
                        },
                        Err(_) => {},
                    }
                }
            }
            proof {
                assert(cmds_of(tasks) + expired_closes(dl0, now, (i + 1) as nat) =~= cmds_of(t));
            }
            i = i + 1;
        }
        let mut i: usize = 0;
        while i < 4
            invariant
                i <= 4,
                self.wf(),
                self.dltime == now,
                self.next_call_identifier == old(self).next_call_identifier,
                self.next_usage_number == old(self).next_usage_number,
                dl0 == old(self).dl@,
                ul0 == old(self).ul_only@,
                now == old(self).dltime,
                forall|j: int| 0 <= j < 4 ==> #[trigger] self.dl@[j] == unexpired(dl0, now)[j],
                forall|j: int| 0 <= j < i ==> #[trigger] self.ul_only@[j] == unexpired(ul0, now)[j],
                forall|j: int| i <= j < 4 ==> #[trigger] self.ul_only@[j] == ul0[j],
                forall|j: int|
                    0 <= j < 4 ==> #[trigger] self.queues()[j] == (if unexpired(dl0, now)[j] != dl0[j] {
                        Seq::empty()
                    } else {
                        q0[j]
                    }),
                cmds_of(t) == cmds_of(tasks) + expired_closes(dl0, now, 4) + expired_closes(ul0, now, i as nat),
                t is None <==> tasks is None && expired_closes(dl0, now, 4).len() == 0 && expired_closes(ul0, now, i as nat).len() == 0,
            decreases 4 - i,
        {
            if let Some(c) = self.ul_only[i] {
                if c.ts_created.age(self.dltime) > 10 * 18 * 4 {
                    assert(c.ts == i + 1);
                    match self.close_circuit(c.direction, c.ts) {
                        Ok(x) => {
                            t = Self::push_task(t, CircuitMgrCmd::SendClose(c.call_id, x));
                        },
                        Err(_) => {},
                    }
                }
            }
            proof {
                assert(cmds_of(tasks) + expired_closes(dl0, now, 4) + expired_closes(ul0, now, (i + 1) as nat) =~= cmds_of(t));
            }
            i = i + 1;
        }
        proof {
            assert(self.dl@ =~= unexpired(dl0, now));
            assert(self.ul_only@ =~= unexpired(ul0, now));
            assert(cmds_of(tasks) + (expired_closes(dl0, now, 4) + expired_closes(ul0, now, 4)) =~= cmds_of(t));
        }
        t
    }

    /// Start of timeslot `dltime`. At the first timeslot of a frame, circuits older than 10
    /// multiframes are closed, and the D-SETUP of each remaining downlink circuit is repeated
    /// in its first 4 frames and then every third frame. Returns the commands, if any.
    pub fn tick_start(&mut self, dltime: TdmaTime) -> (r: Option<Vec<CircuitMgrCmd>>)
        requires
            old(self).wf(),
        ensures
            final(self).wf(),
            final(self).dltime == dltime,
            final(self).next_call_identifier == old(self).next_call_identifier,
            final(self).next_usage_number == old(self).next_usage_number,
            dltime.t != 1 ==> r is None && final(self).dl@ == old(self).dl@ && final(self).ul_only@ == old(self).ul_only@
                && final(self).queues() == old(self).queues(),
            dltime.t == 1 ==> {
                let kept = unexpired(old(self).dl@, dltime);
                &&& final(self).dl@ == kept
                &&& final(self).ul_only@ == unexpired(old(self).ul_only@, dltime)
                &&& forall|i: int|
                    0 <= i < 4 ==> #[trigger] final(self).queues()[i] == (if kept[i] == old(self).dl@[i] {
                        old(self).queues()[i]
                    } else {
                        Seq::empty()
                    })
                &&& tasks_extended(
                    None,
                    expired_closes(old(self).dl@, dltime, 4) + expired_closes(old(self).ul_only@, dltime, 4) + setups_due(
                        kept,
                        dltime,
                        4,
                    ),
                    r,
                )
            },
    {
        self.dltime = dltime;
        if dltime.t != 1 {
            return None;
        }
        let mut tasks = self.close_expired_circuits(None);
        let ghost after = self.dl@;
        let ghost t0 = cmds_of(tasks);
        let mut i: usize = 0;
        while i < 4
            invariant
                i <= 4,
                self.dl@ == after,
                self.dltime == dltime,
                cmds_of(tasks) == t0 + setups_due(after, dltime, i as nat),
                tasks is None <==> t0.len() == 0 && setups_due(after, dltime, i as nat).len() == 0,
            decreases 4 - i,
        {
            if let Some(c) = self.dl[i] {
                let a = c.ts_created.age(dltime);
                if a < 4 * 4 || (a - 4) % 3 == 2 {
                    tasks = Self::push_task(tasks, CircuitMgrCmd::SendDSetup(c.call_id, c.usage));
                }
            }
            proof {
                assert(t0 + setups_due(after, dltime, (i + 1) as nat) =~= cmds_of(tasks));
            }
            i = i + 1;
        }
        proof {
            assert(t0 + setups_due(after, dltime, 4) =~= cmds_of(tasks));
            assert(cmds_of(None::<Vec<CircuitMgrCmd>>) + (t0 + setups_due(after, dltime, 4)) =~= cmds_of(tasks));
        }
        tasks
    }

    /// Queue `block` for transmission on the downlink circuit of timeslot `ts`.
    pub fn put_block(&mut self, ts: u8, block: Vec<u8>) -> (r: Result<(), CircuitErr>)
        requires
            1 <= ts <= 4,
        ensures
            !old(self).dl_active(ts as int) ==> r == Err::<(), CircuitErr>(CircuitErr::CircuitNotActive) && old(self).same_circuits(final(self)),
            old(self).dl_active(ts as int) ==> {
                &&& r == Ok::<(), CircuitErr>(())
                &&& final(self).queues() == old(self).queues().update(ts - 1, old(self).queues()[ts - 1].push(block))
                &&& final(self).dl@ == old(self).dl@
                &&& final(self).ul_only@ == old(self).ul_only@
                &&& final(self).dltime == old(self).dltime
            },
            final(self).next_call_identifier == old(self).next_call_identifier,
            final(self).next_usage_number == old(self).next_usage_number,
    {
        if !self.is_active_dir(ts, Direction::Dl) {
            Err(CircuitErr::CircuitNotActive)
        } else {
            let i = (ts - 1) as usize;
            self.tx_data[i].push_back(block);
            assert(self.queues() =~= old(self).queues().update(ts - 1, old(self).queues()[ts - 1].push(block)));
            Ok(())
        }
    }

    /// Take the oldest queued block of the downlink circuit of timeslot `ts`, if any.
    pub fn take_block(&mut self, ts: u8) -> (r: Result<Option<Vec<u8>>, CircuitErr>)
        requires
            1 <= ts <= 4,
        ensures
            !old(self).dl_active(ts as int) ==> r == Err::<Option<Vec<u8>>, CircuitErr>(CircuitErr::CircuitNotActive)
                && old(self).same_circuits(final(self)),
            old(self).dl_active(ts as int) && old(self).queues()[ts - 1].len() == 0 ==> r == Ok::<
                Option<Vec<u8>>,
                CircuitErr,
            >(None) && old(self).same_circuits(final(self)),
            old(self).dl_active(ts as int) && old(self).queues()[ts - 1].len() > 0 ==> {
                &&& r == Ok::<Option<Vec<u8>>, CircuitErr>(Some(old(self).queues()[ts - 1][0]))
                &&& final(self).queues() == old(self).queues().update(ts - 1, old(self).queues()[ts - 1].drop_first())
                &&& final(self).dl@ == old(self).dl@
                &&& final(self).ul_only@ == old(self).ul_only@
                &&& final(self).dltime == old(self).dltime
            },
            final(self).next_call_identifier == old(self).next_call_identifier,
            final(self).next_usage_number == old(self).next_usage_number,
    {
        if !self.is_active_dir(ts, Direction::Dl) {
            return Err(CircuitErr::CircuitNotActive);
        }
        let i = (ts - 1) as usize;
        let b = self.tx_data[i].pop_front();
        proof {
            if old(self).queues()[ts - 1].len() > 0 {
                assert(self.queues() =~= old(self).queues().update(ts - 1, old(self).queues()[ts - 1].drop_first()));
            } else {
                assert(self.queues() =~= old(self).queues());
            }
        }
        Ok(b)
    }
}

/// Closing undoes opening: after a circuit was opened, its timeslot holds it in the
/// direction it was opened for, and removing it again gives back the circuits of before
/// when the timeslot was free there.
pub proof fn lemma_close_undoes_open(before: CircuitMgr, after: CircuitMgr, dir: Direction, c: CmceCircuit)
    requires
        1 <= c.ts <= 4,
        before.opened(&after, dir, c),
    ensures
        dir == Direction::Ul ==> after.ul_only@[c.ts - 1] == Some(c),
        dir != Direction::Ul ==> after.dl@[c.ts - 1] == Some(c) && after.queues()[c.ts - 1].len() == 0,
        dir == Direction::Ul && before.ul_only@[c.ts - 1] is None ==> after.ul_only@.update(c.ts - 1, None)
            == before.ul_only@,
        dir != Direction::Ul && before.dl@[c.ts - 1] is None ==> after.dl@.update(c.ts - 1, None) == before.dl@,
{
    if dir == Direction::Ul {
        assert(after.ul_only@.update(c.ts - 1, None) =~= before.ul_only@.update(c.ts - 1, None));
        if before.ul_only@[c.ts - 1] is None {
            assert(before.ul_only@.update(c.ts - 1, None) =~= before.ul_only@);
        }
    } else {
        assert(after.dl@.update(c.ts - 1, None) =~= before.dl@.update(c.ts - 1, None));
        if before.dl@[c.ts - 1] is None {
            assert(before.dl@.update(c.ts - 1, None) =~= before.dl@);
        }
    }
}

/// Call identifiers and usage numbers handed out stay out of the reserved values: from
/// an identifier in 1 to 0x3FF the next is too, and from a usage number in 4 to 63 the next is too.
pub proof fn lemma_numbers_stay_unreserved(c: u16, u: u8)
    ensures
        1 <= c <= 0x3FF ==> 1 <= call_id_after(c) <= 0x3FF,
        4 <= u <= 63 ==> 4 <= usage_after(u) <= 63,
{
}

} // verus!
