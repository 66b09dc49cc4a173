//! Logical link control components.

pub mod fcs;
pub mod llc_bs_ms;
