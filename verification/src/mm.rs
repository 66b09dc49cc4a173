//! Mobility management entity.

pub mod mm_bs;
