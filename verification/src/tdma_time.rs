//! Position in the TDMA frame structure.
use vstd::prelude::*;

verus! {

/// A TDMA time: hyperframe, multiframe (1 to 60), frame (1 to 18) and timeslot (1 to 4).
#[derive(Debug, Clone, Copy, PartialEq, Eq, Structural)]
pub struct TdmaTime {
    pub h: u16,
    pub m: u8,
    pub f: u8,
    pub t: u8,
}

impl Default for TdmaTime {
    /// The first timeslot of the first frame of the first multiframe of hyperframe 0.
    fn default() -> (r: Self)
        ensures
            r == (TdmaTime { h: 0, m: 1, f: 1, t: 1 }),
    {
        TdmaTime { h: 0, m: 1, f: 1, t: 1 }
    }
}

/// Timeslots from the first timeslot of hyperframe 0 to `t`: 4 timeslots a frame, 18
/// frames a multiframe, 60 multiframes a hyperframe.
pub open spec fn ts_index(t: TdmaTime) -> int {
    ((t.h * 60 + (t.m - 1)) * 18 + (t.f - 1)) * 4 + (t.t - 1)
}

impl TdmaTime {
    /// Timeslots from this time to `now`.
    pub fn age(&self, now: TdmaTime) -> (r: i64)
        ensures
            r == ts_index(now) - ts_index(*self),
    {
        let a: i64 = ((now.h as i64 * 60 + (now.m as i64 - 1)) * 18 + (now.f as i64 - 1)) * 4 + (now.t as i64 - 1);
        let b: i64 = ((self.h as i64 * 60 + (self.m as i64 - 1)) * 18 + (self.f as i64 - 1)) * 4 + (self.t as i64 - 1);
        a - b
    }
}

} // verus!
