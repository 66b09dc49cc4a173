//! Optional PDU elements of type 2, 3 and 4 (MLE, CMCE, MM and SNDCP PDUs).
use vstd::prelude::*;

pub mod delimiters;
pub mod typed;

verus! {

/// A type-4 element read without knowing its structure.
#[derive(Debug, PartialEq, Eq, Clone, Copy)]
pub struct Type4FieldGeneric {
    pub field_id: u64,
    pub len: usize,
    pub elems: usize,
    /// Up to 64 bits of data (later bits are discarded)
    pub data: u64,
}

/// A type-3 element read without knowing its structure.
#[derive(Debug, PartialEq, Eq, Clone, Copy)]
pub struct Type3FieldGeneric {
    pub field_id: u64,
    pub len: usize,
    /// Up to 64 bits of data (later bits are discarded)
    pub data: u64,
}

} // verus!
