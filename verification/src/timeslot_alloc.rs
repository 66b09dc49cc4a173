//! Ownership of the traffic timeslots 2, 3 and 4.
use vstd::prelude::*;

verus! {

/// Who holds a timeslot.
#[derive(Debug, Clone, Copy, PartialEq, Eq, Structural)]
pub enum TimeslotOwner {
    Brew,
    Cmce,
}

/// Why a timeslot operation was refused.
#[derive(Debug, Clone, PartialEq, Eq, Structural)]
pub enum TimeslotAllocErr {
    /// Only timeslots 2, 3 and 4 can be allocated.
    InvalidTimeslot(u8),
    /// The timeslot is held by `owner`.
    InUse { ts: u8, owner: TimeslotOwner },
    /// The timeslot is not held by anyone.
    NotAllocated { ts: u8 },
    /// The timeslot is held by `actual`, not by `owner`.
    OwnerMismatch { ts: u8, owner: TimeslotOwner, actual: TimeslotOwner },
}

/// Tracks the owner of timeslots 2, 3 and 4.
#[derive(Debug, Clone)]
pub struct TimeslotAllocator {
    // Index 0 = TS2, 1 = TS3, 2 = TS4
    owners: [Option<TimeslotOwner>; 3],
}

/// Whether `ts` is one of the allocatable timeslots 2, 3, 4.
pub open spec fn valid_ts(ts: u8) -> bool {
    2 <= ts <= 4
}

impl View for TimeslotAllocator {
    /// Owners of timeslots 2, 3 and 4, in that order.
    type V = Seq<Option<TimeslotOwner>>;

    closed spec fn view(&self) -> Seq<Option<TimeslotOwner>> {
        self.owners@
    }
}

impl TimeslotAllocator {
    /// The owner recorded for `ts` (None when free or not allocatable).
    pub open spec fn owner_of(self, ts: u8) -> Option<TimeslotOwner> {
        if valid_ts(ts) {
            self@[ts - 2]
        } else {
            None
        }
    }

    /// Index of the first free timeslot, if any.
    pub open spec fn first_free(self) -> Option<int> {
        if self@[0] is None {
            Some(0)
        } else if self@[1] is None {
            Some(1)
        } else if self@[2] is None {
            Some(2)
        } else {
            None
        }
    }

    /// An allocator tracks exactly the three timeslots 2, 3 and 4.
    pub proof fn lemma_len(&self)
        ensures
            self@.len() == 3,
    {
    }

    fn idx(ts: u8) -> (r: Result<usize, TimeslotAllocErr>)
        ensures
            valid_ts(ts) ==> r == Ok::<usize, TimeslotAllocErr>((ts - 2) as usize),
            !valid_ts(ts) ==> r == Err::<usize, TimeslotAllocErr>(TimeslotAllocErr::InvalidTimeslot(ts)),
    {
        if 2 <= ts && ts <= 4 {
            Ok((ts - 2) as usize)
        } else {
            Err(TimeslotAllocErr::InvalidTimeslot(ts))
        }
    }

    /// Give the first free timeslot (lowest number) to `owner`; None when all are taken.
    pub fn allocate_any(&mut self, owner: TimeslotOwner) -> (r: Option<u8>)
        ensures
            final(self)@.len() == 3,
            old(self).first_free() is None ==> r is None && final(self)@ == old(self)@,
            old(self).first_free() matches Some(i) ==> r == Some((i + 2) as u8) && final(self)@ == old(self)@.update(
                i,
                Some(owner),
            ),
    {
        proof {
            self.lemma_len();
        }
        let mut i: usize = 0;
        while i < 3
            invariant
                i <= 3,
                self@ == old(self)@,
                self@.len() == 3,
                forall|k: int| 0 <= k < i ==> self@[k] is Some,
            decreases 3 - i,
        {
            if self.owners[i].is_none() {
                self.owners[i] = Some(owner);
                return Some(i as u8 + 2);
            }
            i = i + 1;
        }
        None
    }

    /// Give timeslot `ts` to `owner`; refused when `ts` is not 2, 3 or 4, or is already held.
    pub fn reserve(&mut self, owner: TimeslotOwner, ts: u8) -> (r: Result<(), TimeslotAllocErr>)
        ensures
            final(self)@.len() == 3,
            !valid_ts(ts) ==> r == Err::<(), TimeslotAllocErr>(TimeslotAllocErr::InvalidTimeslot(ts)) && final(self)@
                == old(self)@,
            old(self).owner_of(ts) matches Some(existing) ==> r == Err::<(), TimeslotAllocErr>(
                TimeslotAllocErr::InUse { ts, owner: existing },
            ) && final(self)@ == old(self)@,
            valid_ts(ts) && old(self).owner_of(ts) is None ==> r is Ok && final(self)@ == old(self)@.update(
                ts - 2,
                Some(owner),
            ),
    {
        proof {
            self.lemma_len();
        }
        let idx = Self::idx(ts)?;
        match self.owners[idx] {
            None => {
                self.owners[idx] = Some(owner);
                Ok(())
            },
            Some(existing) => Err(TimeslotAllocErr::InUse { ts, owner: existing }),
        }
    }

    /// Free timeslot `ts` held by `owner`; refused when `ts` is not 2, 3 or 4, is free,
    /// or is held by someone else.
    pub fn release(&mut self, owner: TimeslotOwner, ts: u8) -> (r: Result<(), TimeslotAllocErr>)
        ensures
            final(self)@.len() == 3,
            !valid_ts(ts) ==> r == Err::<(), TimeslotAllocErr>(TimeslotAllocErr::InvalidTimeslot(ts)) && final(self)@
                == old(self)@,
            valid_ts(ts) && old(self).owner_of(ts) is None ==> r == Err::<(), TimeslotAllocErr>(
                TimeslotAllocErr::NotAllocated { ts },
            ) && final(self)@ == old(self)@,
            old(self).owner_of(ts) matches Some(existing) ==> (existing != owner ==> r == Err::<(), TimeslotAllocErr>(
                TimeslotAllocErr::OwnerMismatch { ts, owner, actual: existing },
            ) && final(self)@ == old(self)@),
            valid_ts(ts) && old(self).owner_of(ts) == Some(owner) ==> r is Ok && final(self)@ == old(self)@.update(
                ts - 2,
                None,
            ),
    {
        proof {
            self.lemma_len();
        }
        let idx = Self::idx(ts)?;
        match self.owners[idx] {
            None => Err(TimeslotAllocErr::NotAllocated { ts }),
            Some(existing) => {
                if existing != owner {
                    Err(TimeslotAllocErr::OwnerMismatch { ts, owner, actual: existing })
                } else {
                    self.owners[idx] = None;
                    Ok(())
                }
            },
        }
    }

    /// The owner of `ts`; None when it is free or not 2, 3 or 4.
    pub fn owner(&self, ts: u8) -> (r: Option<TimeslotOwner>)
        ensures
            r == self.owner_of(ts),
    {
        proof {
            self.lemma_len();
        }
        match Self::idx(ts) {
            Ok(idx) => self.owners[idx],
            Err(_) => None,
        }
    }

    /// Whether `ts` has no owner (also true when it is not 2, 3 or 4).
    pub fn is_free(&self, ts: u8) -> (r: bool)
        ensures
            r == (self.owner_of(ts) is None),
    {
        self.owner(ts).is_none()
    }
}

impl Default for TimeslotAllocator {
    /// All three timeslots free.
    fn default() -> (r: Self)
        ensures
            r@ == seq![None::<TimeslotOwner>, None, None],
    {
        Self { owners: [None, None, None] }
    }
}

/// Releasing a timeslot right after reserving it for the same owner restores the
/// previous state, and while reserved the timeslot reports that owner.
pub proof fn lemma_reserve_release(
    before: Seq<Option<TimeslotOwner>>,
    ts: u8,
    owner: TimeslotOwner,
)
    requires
        before.len() == 3,
        valid_ts(ts),
        before[ts - 2] is None,
    ensures
        before.update(ts - 2, Some(owner))[ts - 2] == Some(owner),
        before.update(ts - 2, Some(owner)).update(ts - 2, None) == before,
{
    assert(before.update(ts - 2, Some(owner)).update(ts - 2, None) =~= before);
}

} // verus!
