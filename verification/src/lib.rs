//! Verified core of a TETRA base-station protocol stack: bit buffers,
//! PDU field encoding, lower-MAC channel coding and small state machines.

pub mod direction;
pub mod bits;
pub mod text;
pub mod pdu_parse_error;
pub mod bitbuffer;
pub mod address;
pub mod tdma_time;
pub mod duration;
pub mod phy_types;
pub mod sap_fields;
pub mod tetra_entities;
pub mod timeslot_alloc;
pub mod ranges;
pub mod typed_pdu_fields;
pub mod lmac;
pub mod llc;
pub mod cmce;
pub mod mle;
pub mod mm;
pub mod messagerouter;
pub mod config;
pub mod network;
pub mod net_brew;
pub mod brew;
