//! Transport abstraction for entity-to-network communication: addresses, messages and errors.
use vstd::prelude::*;
use vstd::string::StringExecFns;
use std::time::Instant;

pub mod tcp;
pub mod udp;

verus! {

/// `std::time::Instant`, carried through as an opaque value.
#[verifier::external_type_specification]
#[verifier::external_body]
pub struct ExInstant(Instant);

/// `Clone::clone` for `std::time::Instant`, a `Copy` type: the clone equals the original.
pub assume_specification[ <Instant as Clone>::clone ](i: &Instant) -> (r: Instant)
    ensures
        r == *i,
;

/// Network transport for entity-to-network communication: reliable transports (TCP,
/// QUIC streams) and unreliable ones (UDP, QUIC datagrams).
pub trait NetworkTransport: Send {
    /// Connect or reconnect the transport, dropping any existing connection.
    fn connect(&mut self) -> Result<(), NetworkError>;

    /// Send a message reliably (guaranteed delivery, ordered arrival).
    fn send_reliable(&mut self, payload: &[u8]) -> Result<(), NetworkError>;

    /// Send a message unreliably (no delivery guarantee, unordered, lower latency).
    fn send_unreliable(&mut self, payload: &[u8]) -> Result<(), NetworkError>;

    /// Receive pending messages from the reliable channel (non-blocking).
    fn receive_reliable(&mut self) -> Vec<NetworkMessage>;

    /// Receive pending messages from the unreliable channel (non-blocking).
    fn receive_unreliable(&mut self) -> Vec<NetworkMessage>;

    /// Wait for a single response on the reliable channel (blocking with timeout).
    fn wait_for_response_reliable(&mut self) -> Result<NetworkMessage, NetworkError>;
}

/// Construction of a transport from its configuration.
pub trait TransportFactory: NetworkTransport + Sized {
    /// Configuration needed to construct this transport
    type Config: Send + 'static;

    /// Create a new transport instance from its configuration.
    fn create(config: Self::Config) -> Result<Self, NetworkError>;
}

/// Network address.
#[derive(Debug, Clone, PartialEq, Eq, Hash)]
pub enum NetworkAddress {
    /// TCP endpoint
    Tcp { host: String, port: u16 },
    /// UDP endpoint
    Udp { host: String, port: u16 },
    /// Custom addressing scheme
    Custom { scheme: String, address: String },
}

/// Network message received from an external source.
#[derive(Debug, Clone)]
pub struct NetworkMessage {
    pub source: NetworkAddress,
    pub payload: Vec<u8>,
    pub timestamp: Instant,
}

/// Network-related errors.
#[derive(Debug, Clone)]
pub enum NetworkError {
    ConnectionFailed(String),
    SendFailed(String),
    ReceiveFailed(String),
    SerializationError(String),
    InvalidService(String),
    InvalidServiceVersion(String),
    Timeout,
}

/// The text that describes an error.
pub open spec fn network_error_text(e: NetworkError) -> Seq<char> {
    match e {
        NetworkError::ConnectionFailed(msg) => "Connection failed: "@ + msg@,
        NetworkError::SendFailed(msg) => "Send failed: "@ + msg@,
        NetworkError::SerializationError(msg) => "Serialization error: "@ + msg@,
        NetworkError::InvalidService(msg) => "Invalid service: "@ + msg@,
        NetworkError::InvalidServiceVersion(msg) => "Invalid service version: "@ + msg@,
        NetworkError::ReceiveFailed(_) => "Receive failed"@,
        NetworkError::Timeout => "Operation timed out"@,
    }
}

impl NetworkError {
    /// The text that describes this error.
    pub fn to_text(&self) -> (r: String)
        ensures
            r@ == network_error_text(*self),
    {
        match self {
            NetworkError::ConnectionFailed(msg) => String::from_str("Connection failed: ").concat(msg.as_str()),
            NetworkError::SendFailed(msg) => String::from_str("Send failed: ").concat(msg.as_str()),
            NetworkError::SerializationError(msg) => String::from_str("Serialization error: ").concat(msg.as_str()),
            NetworkError::InvalidService(msg) => String::from_str("Invalid service: ").concat(msg.as_str()),
            NetworkError::InvalidServiceVersion(msg) => String::from_str("Invalid service version: ").concat(msg.as_str()),
            NetworkError::ReceiveFailed(_) => String::from_str("Receive failed"),
            NetworkError::Timeout => String::from_str("Operation timed out"),
        }
    }
}

} // verus!
