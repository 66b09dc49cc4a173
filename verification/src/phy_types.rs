//! PHY-layer types that are referenced by LMAC, UMAC and SAP primitives.
use vstd::prelude::*;

verus! {

/// Identifies which block(s) within a timeslot
#[derive(Debug, PartialEq, Eq, Clone, Copy, Structural)]
pub enum PhyBlockNum {
    /// Both half-slots combined (full slot)
    Both,
    /// First half-slot only
    Block1,
    /// Second half-slot only
    Block2,
    /// Block number not determined
    Undefined,
}

/// Physical block types
#[derive(Debug, PartialEq, Eq, Clone, Copy, Structural)]
pub enum PhyBlockType {
    BBK,
    SB1,
    SB2,
    NDB,
    NUB,
    SSN1,
    SSN2,
}

/// Burst types (Clause 9.4.4.1)
#[derive(Debug, PartialEq, Eq, Clone, Copy, Structural)]
pub enum BurstType {
    /// Control Uplink Burst
    CUB,
    /// Normal Uplink Burst
    NUB,
    /// Normal Downlink Burst (continuous and discontinuous)
    NDB,
    /// Synchronization Downlink Burst (continuous and discontinuous)
    SDB,
}

/// Training sequences
#[derive(Debug, Copy, Clone, PartialEq, Eq, Structural)]
pub enum TrainingSequence {
    /// 22 n bits
    NormalTrainSeq1,
    /// 22 p bits
    NormalTrainSeq2,
    /// 22 q bits
    NormalTrainSeq3,
    /// 30 x bits
    ExtendedTrainSeq,
    /// 38 y bits
    SyncTrainSeq,
    /// Not found
    NotFound,
}

/// Numeric code of a training sequence (0 when none was found).
pub open spec fn training_sequence_code(t: TrainingSequence) -> u8 {
    match t {
        TrainingSequence::NormalTrainSeq1 => 1,
        TrainingSequence::NormalTrainSeq2 => 2,
        TrainingSequence::NormalTrainSeq3 => 3,
        TrainingSequence::ExtendedTrainSeq => 4,
        TrainingSequence::SyncTrainSeq => 5,
        TrainingSequence::NotFound => 0,
    }
}

impl TrainingSequence {
    /// Numeric code of the training sequence (0 when none was found).
    pub fn code(&self) -> (r: u8)
        ensures
            r == training_sequence_code(*self),
    {
        match self {
            TrainingSequence::NormalTrainSeq1 => 1,
            TrainingSequence::NormalTrainSeq2 => 2,
            TrainingSequence::NormalTrainSeq3 => 3,
            TrainingSequence::ExtendedTrainSeq => 4,
            TrainingSequence::SyncTrainSeq => 5,
            TrainingSequence::NotFound => 0,
        }
    }
}

impl Default for TrainingSequence {
    /// No training sequence found.
    fn default() -> (r: Self)
        ensures
            r == TrainingSequence::NotFound,
    {
        TrainingSequence::NotFound
    }
}

} // verus!
