//! Mobile link entity components.

pub mod mle_router;
pub mod broadcast;
pub mod mle_bs;
