//! Sorted, disjoint ranges of subscriber identities.
use vstd::prelude::*;

verus! {

broadcast use vstd::seq_lib::group_to_multiset_ensures;

/// A range of SSIs `[start, end)`.
#[derive(Debug, Clone, Copy, PartialEq, Eq, Structural)]
pub struct SsiRange {
    /// Inclusive start of the range
    pub start: u32,
    /// Exclusive end of the range. E.g. if end is 200, the last valid address in the range is 199.
    pub end: u32,
}

/// A range is valid when its start does not pass its end.
pub open spec fn range_valid(r: SsiRange) -> bool {
    r.start <= r.end
}

/// Two ranges share an SSI.
pub open spec fn ranges_overlap(a: SsiRange, b: SsiRange) -> bool {
    a.start < b.end && b.start < a.end
}

/// The ranges are valid and no two of them share an SSI.
pub open spec fn pairwise_disjoint(s: Seq<SsiRange>) -> bool {
    &&& forall|i: int| 0 <= i < s.len() ==> range_valid(#[trigger] s[i])
    &&& forall|i: int, j: int|
        0 <= i < s.len() && 0 <= j < s.len() && i != j ==> !ranges_overlap(#[trigger] s[i], #[trigger] s[j])
}

/// `a` comes no later than `b` in the order by start, then by end.
pub open spec fn range_le(a: SsiRange, b: SsiRange) -> bool {
    a.start < b.start || (a.start == b.start && a.end <= b.end)
}

/// Of two valid ranges that share no SSI, the one first in start-then-end order ends
/// before the other begins.
proof fn lemma_ordered_disjoint(a: SsiRange, b: SsiRange)
    requires
        range_valid(a),
        range_valid(b),
        !ranges_overlap(a, b),
        range_le(a, b),
    ensures
        a.end <= b.start,
{
}

/// The ranges are valid, sorted by start and do not overlap.
pub open spec fn sorted_disjoint(s: Seq<SsiRange>) -> bool {
    &&& forall|i: int| 0 <= i < s.len() ==> range_valid(#[trigger] s[i])
    &&& forall|i: int, j: int| 0 <= i < j < s.len() ==> #[trigger] s[j].start >= #[trigger] s[i].end
}

/// Whether some range contains `addr`.
pub open spec fn ranges_contain(s: Seq<SsiRange>, addr: u32) -> bool {
    exists|i: int| 0 <= i < s.len() && #[trigger] s[i].start <= addr && addr < s[i].end
}

/// A sorted, non-overlapping list of SSI ranges, for fast lookups.
#[derive(Debug, Clone)]
pub struct SortedDisjointSsiRanges(Vec<SsiRange>);

impl View for SortedDisjointSsiRanges {
    type V = Seq<SsiRange>;

    closed spec fn view(&self) -> Seq<SsiRange> {
        self.0@
    }
}

impl SortedDisjointSsiRanges {
    /// Sort `ranges` by start address, and by end among equal starts, for fast lookups.
    /// The ranges must be valid and must not overlap.
    pub fn from_vec_ssirange(ranges: Vec<SsiRange>) -> (r: Self)
        requires
            pairwise_disjoint(ranges@),
        ensures
            r@.to_multiset() == ranges@.to_multiset(),
            sorted_disjoint(r@),
    {
        let mut out: Vec<SsiRange> = Vec::new();
        let n = ranges.len();
        let mut i: usize = 0;
        while i < n
            invariant
                i <= n,
                n == ranges@.len(),
                pairwise_disjoint(ranges@),
                out@.to_multiset() == ranges@.take(i as int).to_multiset(),
                sorted_disjoint(out@),
                forall|m: int| 0 <= m < out@.len() ==> exists|k: int| 0 <= k < i && #[trigger] out@[m] == ranges@[k],
            decreases n - i,
        {
            let x = ranges[i];
            let mut p: usize = 0;
            while p < out.len() && (out[p].start < x.start || (out[p].start == x.start && out[p].end <= x.end))
                invariant
                    p <= out@.len(),
                    forall|m: int| 0 <= m < p ==> range_le(#[trigger] out@[m], x),
                decreases out@.len() - p,
            {
                p = p + 1;
            }
            let ghost old_out = out@;
            proof {
                assert forall|m: int| 0 <= m < old_out.len() implies (m < p ==> x.start >= #[trigger] old_out[m].end) && (
                m >= p ==> old_out[m].start >= x.end) by {
                    let k = choose|k: int| 0 <= k < i && #[trigger] old_out[m] == ranges@[k];
                    assert(old_out[m] == ranges@[k]);
                    assert(!ranges_overlap(ranges@[k], ranges@[i as int]));
                    assert(!ranges_overlap(ranges@[i as int], ranges@[k]));
                    assert(range_valid(ranges@[k]) && range_valid(ranges@[i as int]));
                    if m < p {
                        lemma_ordered_disjoint(old_out[m], x);
                    } else {
                        assert(p < old_out.len());
                        assert(!range_le(old_out[p as int], x));
                        if m > p {
                            assert(old_out[m].start >= old_out[p as int].end);
                            let kp = choose|kp: int| 0 <= kp < i && #[trigger] old_out[p as int] == ranges@[kp];
                            assert(range_valid(ranges@[kp]));
                        }
                        if range_le(x, old_out[m]) {
                            lemma_ordered_disjoint(x, old_out[m]);
                        }
                    }
                }
            }
            out.insert(p, x);
            proof {
                assert(ranges@.take(i + 1) =~= ranges@.take(i as int).push(x));
                assert forall|a: int, b: int| 0 <= a < b < out@.len() implies #[trigger] out@[b].start >= #[trigger] out@[a].end by {
                    if b < p {
                    } else if b == p {
                        assert(a < p);
                    } else if a < p {
                        assert(out@[b] == old_out[b - 1]);
                        assert(old_out[b - 1].start >= old_out[a].end);
                    } else if a == p {
                        assert(out@[b] == old_out[b - 1]);
                    } else {
                        assert(old_out[b - 1].start >= old_out[a - 1].end);
                    }
                }
                assert forall|m: int| 0 <= m < out@.len() implies exists|k: int| 0 <= k < i + 1 && #[trigger] out@[m] == ranges@[k] by {
                    if m < p {
                        let k = choose|k: int| 0 <= k < i && #[trigger] old_out[m] == ranges@[k];
                        assert(out@[m] == ranges@[k]);
                    } else if m == p {
                        assert(out@[m] == ranges@[i as int]);
                    } else {
                        let k = choose|k: int| 0 <= k < i && #[trigger] old_out[m - 1] == ranges@[k];
                        assert(out@[m] == ranges@[k]);
                    }
                }
                assert forall|m: int| 0 <= m < out@.len() implies range_valid(#[trigger] out@[m]) by {
                    if m != p {
                        let mm = if m < p { m } else { m - 1 };
                        assert(out@[m] == old_out[mm]);
                    }
                }
            }
            i = i + 1;
        }
        assert(ranges@.take(n as int) =~= ranges@);
        SortedDisjointSsiRanges(out)
    }

    /// Build the ranges from `(start, end)` pairs; see `from_vec_ssirange`.
    pub fn from_vec_tuple(tuples: Vec<(u32, u32)>) -> (r: Self)
        requires
            pairwise_disjoint(tuples@.map_values(|t: (u32, u32)| SsiRange { start: t.0, end: t.1 })),
        ensures
            r@.to_multiset() == tuples@.map_values(|t: (u32, u32)| SsiRange { start: t.0, end: t.1 }).to_multiset(),
            sorted_disjoint(r@),
    {
        let mut v: Vec<SsiRange> = Vec::new();
        for i in 0..tuples.len()
            invariant
                v@ == tuples@.take(i as int).map_values(|t: (u32, u32)| SsiRange { start: t.0, end: t.1 }),
        {
            let (start, end) = tuples[i];
            v.push(SsiRange { start, end });
            assert(v@ =~= tuples@.take(i + 1).map_values(|t: (u32, u32)| SsiRange { start: t.0, end: t.1 }));
        }
        assert(tuples@.take(tuples@.len() as int) =~= tuples@);
        Self::from_vec_ssirange(v)
    }

    /// The ranges, sorted by start.
    pub fn as_slice(&self) -> (r: &[SsiRange])
        ensures
            r@ == self@,
    {
        self.0.as_slice()
    }

    /// Whether some range contains `addr` (each range's end is exclusive).
    pub fn contains(&self, addr: u32) -> (r: bool)
        requires
            sorted_disjoint(self@),
        ensures
            r == ranges_contain(self@, addr),
    {
        let s = self.as_slice();
        let mut i: usize = 0;
        while i < s.len()
            invariant
                s@ == self@,
                sorted_disjoint(self@),
                i <= s@.len(),
                forall|k: int| 0 <= k < i ==> !(#[trigger] s@[k].start <= addr && addr < s@[k].end),
            decreases s@.len() - i,
        {
            let range = s[i];
            if addr >= range.start && addr < range.end {
                return true;
            }
            if range.end > addr {
                // Sorted: every later range starts at or after this one's end.
                assert forall|k: int| i < k < s@.len() implies !(#[trigger] s@[k].start <= addr && addr < s@[k].end) by {
                    assert(s@[k].start >= s@[i as int].end);
                }
                return false;
            }
            i = i + 1;
        }
        false
    }
}

} // verus!
