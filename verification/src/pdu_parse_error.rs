use vstd::prelude::*;

verus! {

/// Errors raised while reading or writing PDU fields.
#[allow(inconsistent_fields)]
#[derive(Debug, Clone, Copy, PartialEq, Eq)]
pub enum PduParseErr {
    /// The buffer ended before the named field could be read.
    BufferEnded { field: Option<&'static str> },
    /// An element's declared length differs from the number of bits that were parsed.
    InconsistentLength { expected: usize, found: usize },
    /// A field holds a value that is not allowed.
    InvalidValue { field: &'static str, value: u64 },
}

} // verus!
