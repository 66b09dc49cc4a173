//! Handles that MLE hands out for connections, and what each one stands for.
use vstd::prelude::*;
use std::collections::HashMap;
use vstd::std_specs::iter::IteratorSpec;
use crate::address::TetraAddress;
use crate::sap_fields::{EndpointId, LinkId, MleHandle};
use crate::tdma_time::TdmaTime;

verus! {

/// A connection known under an MLE handle.
#[derive(Debug, Clone, Copy, PartialEq, Eq, Structural)]
pub struct MleConnState {
    pub handle: MleHandle,
    pub addr: TetraAddress,
    pub link_id: LinkId,
    pub endpoint_id: EndpointId,
    pub ts_created: TdmaTime,
    pub ts_last_used: TdmaTime,
}

/// The handles in use and the connection each stands for; handles are given out in
/// increasing order from 1.
pub struct MleRouter {
    states: HashMap<u32, MleConnState>,
    next_handle: u32,
}

impl MleRouter {
    /// The connections by handle.
    pub closed spec fn conns(&self) -> Map<u32, MleConnState> {
        self.states@
    }

    /// The handle the next connection gets.
    pub closed spec fn next(&self) -> u32 {
        self.next_handle
    }

    /// Every handle in use is below the next one to be given out.
    pub open spec fn wf(&self) -> bool {
        forall|h: u32| #[trigger] self.conns().contains_key(h) ==> h < self.next()
    }

    /// A router with no handles; the first handle will be 1.
    pub fn new() -> (r: Self)
        ensures
            r.conns() == Map::<u32, MleConnState>::empty(),
            r.next() == 1,
            r.wf(),
    {
        Self { states: HashMap::new(), next_handle: 1 }
    }

    /// Register a connection created at `ts` under a new handle and return the handle.
    pub fn create_handle(&mut self, addr: TetraAddress, link_id: LinkId, endpoint_id: EndpointId, ts: TdmaTime) -> (r: u32)
        requires
            old(self).next() < u32::MAX,
        ensures
            r == old(self).next(),
            final(self).next() == old(self).next() + 1,
            final(self).conns() == old(self).conns().insert(
                r,
                MleConnState { handle: r, addr, link_id, endpoint_id, ts_created: ts, ts_last_used: ts },
            ),
            old(self).wf() ==> final(self).wf() && !old(self).conns().contains_key(r),
    {
        broadcast use vstd::std_specs::hash::group_hash_axioms;
        let handle = self.next_handle;
        let conn = MleConnState { handle, addr, link_id, endpoint_id, ts_created: ts, ts_last_used: ts };
        self.states.insert(handle, conn);
        self.next_handle = self.next_handle + 1;
        proof {
            if old(self).wf() {
                assert forall|h: u32| #[trigger] self.conns().contains_key(h) implies h < self.next() by {
                    if h != handle {
                        assert(old(self).conns().contains_key(h));
                    }
                }
            }
        }
        handle
    }

    /// Resolve a handle to its address, link ID and endpoint ID, marking it used at `ts`.
    /// An unknown handle resolves to ISSI 0 with link and endpoint 0, and changes nothing.
    pub fn use_handle(&mut self, handle: u32, ts: TdmaTime) -> (r: (TetraAddress, u32, u32))
        ensures
            old(self).conns().contains_key(handle) ==> {
                let c = old(self).conns()[handle];
                &&& r == (c.addr, c.link_id, c.endpoint_id)
                &&& final(self).conns() == old(self).conns().insert(handle, MleConnState { ts_last_used: ts, ..c })
            },
            !old(self).conns().contains_key(handle) ==> r == (TetraAddress::issi_spec(0), 0u32, 0u32)
                && final(self).conns() == old(self).conns(),
            final(self).next() == old(self).next(),
    {
        broadcast use vstd::std_specs::hash::group_hash_axioms;
        match self.states.get(&handle) {
            Some(conn) => {
                let mut updated = *conn;
                updated.ts_last_used = ts;
                let r = (updated.addr, updated.link_id, updated.endpoint_id);
                self.states.insert(handle, updated);
                r
            },
            None => (TetraAddress::issi(0), 0, 0),
        }
    }

    /// The handles in use with their connections, each handle once, in no particular order.
    pub fn dump_mappings(&self) -> (r: Vec<(u32, MleConnState)>)
        ensures
            r@.len() == self.conns().dom().len(),
            forall|i: int|
                0 <= i < r@.len() ==> #[trigger] self.conns().contains_key(r@[i].0) && self.conns()[r@[i].0] == r@[i].1,
            forall|i: int, j: int| 0 <= i < j < r@.len() ==> #[trigger] r@[i].0 != #[trigger] r@[j].0,
            forall|h: u32| #[trigger] self.conns().contains_key(h) ==> exists|i: int| 0 <= i < r@.len() && r@[i].0 == h,
    {
        broadcast use vstd::std_specs::hash::group_hash_axioms;
        let mut out: Vec<(u32, MleConnState)> = Vec::new();
        let ghost keys = self.states.keys().remaining();
        for k in it: self.states.keys()
            invariant
                it.seq() == keys,
                keys.unref().to_set() == self.conns().dom(),
                keys.no_duplicates(),
                keys.len() == self.conns().dom().len(),
                out@.len() == it.index(),
                forall|i: int| 0 <= i < it.index() ==> #[trigger] out@[i].0 == *keys[i] && self.conns().contains_key(out@[i].0)
                    && self.conns()[out@[i].0] == out@[i].1,
        {
            match self.states.get(k) {
                Some(c) => {
                    out.push((*k, *c));
                },
                None => {},
            }
        }
        proof {
            assert forall|h: u32| #[trigger] self.conns().contains_key(h) implies exists|i: int|
                0 <= i < out@.len() && out@[i].0 == h by {
                assert(keys.unref().to_set().contains(h));
                let i = choose|i: int| 0 <= i < keys.unref().len() && keys.unref()[i] == h;
                assert(out@[i].0 == h);
            }
            assert forall|i: int, j: int| 0 <= i < j < out@.len() implies #[trigger] out@[i].0 != #[trigger] out@[j].0 by {
                assert(keys[i] != keys[j]);
            }
        }
        out
    }

    /// Forget a handle, returning the connection it stood for.
    pub fn delete_handle(&mut self, handle: u32) -> (r: Option<MleConnState>)
        ensures
            r == (if old(self).conns().contains_key(handle) {
                Some(old(self).conns()[handle])
            } else {
                None
            }),
            final(self).conns() == old(self).conns().remove(handle),
            final(self).next() == old(self).next(),
    {
        broadcast use vstd::std_specs::hash::group_hash_axioms;
        self.states.remove(&handle)
    }
}


/// A handle resolves to the address, link and endpoint it was created with until it is
/// deleted: creating it records its connection, marking any handle used keeps every handle's
/// address, link and endpoint, creating another handle leaves it alone, and deleting it
/// makes it unknown.
pub proof fn lemma_handle_resolves(
    conns: Map<u32, MleConnState>,
    h: u32,
    c: MleConnState,
    k: u32,
    ts: TdmaTime,
    other: u32,
    c2: MleConnState,
)
    ensures
        conns.insert(h, c).contains_key(h),
        conns.insert(h, c)[h] == c,
        conns.contains_key(h) && conns.contains_key(k) ==> ({
            let used = conns.insert(k, MleConnState { ts_last_used: ts, ..conns[k] });
            &&& used.contains_key(h)
            &&& used[h].addr == conns[h].addr
            &&& used[h].link_id == conns[h].link_id
            &&& used[h].endpoint_id == conns[h].endpoint_id
        }),
        conns.contains_key(h) && other != h ==> conns.insert(other, c2).contains_key(h) && conns.insert(other, c2)[h]
            == conns[h],
        !conns.remove(h).contains_key(h),
{
}

} // verus!
