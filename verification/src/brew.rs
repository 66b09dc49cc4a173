//! Brew protocol worker: configuration and HTTP digest authentication.

pub mod worker;
