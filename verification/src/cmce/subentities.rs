//! CMCE sub-entities: call control (MS side), short data service (BS side) and
//! supplementary services (MS side).
use vstd::prelude::*;

verus! {

/// Clause 11 call control CMCE sub-entity (MS side).
pub struct CcMsSubentity {}

impl CcMsSubentity {
    /// A new call control sub-entity.
    pub fn new() -> (r: Self) {
        CcMsSubentity {}
    }
}

/// Clause 13 short data service CMCE sub-entity (BS side).
pub struct SdsBsSubentity {}

impl SdsBsSubentity {
    /// A new short data service sub-entity.
    pub fn new() -> (r: Self) {
        SdsBsSubentity {}
    }
}

/// Clause 12 supplementary services CMCE sub-entity (MS side).
pub struct SsMsSubentity {}

impl SsMsSubentity {
    /// A new supplementary services sub-entity.
    pub fn new() -> (r: Self) {
        SsMsSubentity {}
    }
}

} // verus!
