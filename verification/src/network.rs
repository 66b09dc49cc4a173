//! Communication with the outside network.

pub mod transports;
