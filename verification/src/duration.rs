//! Durations in whole seconds.
use vstd::prelude::*;
use std::time::Duration;

verus! {

/// Name for the duration that `Duration::from_secs` gives for `secs` seconds.
pub uninterp spec fn secs_duration(secs: u64) -> Duration;

/// `std::time::Duration::from_secs`: a duration of `secs` whole seconds. The contract only
/// names the result, which depends on `secs` alone; it never panics.
#[verifier::external_body]
pub(crate) fn duration_from_secs(secs: u64) -> (d: Duration)
    ensures
        d == secs_duration(secs),
{
    Duration::from_secs(secs)
}

/// `Clone::clone` for `std::time::Duration`, a `Copy` type: the clone equals the original.
pub assume_specification[ <Duration as Clone>::clone ](d: &Duration) -> (r: Duration)
    ensures
        r == *d,
;

} // verus!
