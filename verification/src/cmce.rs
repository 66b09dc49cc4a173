//! Circuit mode control entity: call control state machine and sub-entities.

pub mod cc_bs;
pub mod cc_bs_fsm;
pub mod circuit_mgr;
pub mod subentities;
