//! Configuration of the TCP transport.
use vstd::prelude::*;
use std::time::Duration;
use crate::duration::{duration_from_secs, secs_duration};
use vstd::string::StringExecFns;
use crate::network::transports::{NetworkAddress, NetworkError};
use crate::text::{decimal, push_decimal};

verus! {

/// Configuration for creating a TCP transport.
#[derive(Debug, Clone)]
pub struct TcpTransportConfig {
    /// Server address to connect to
    pub server_addr: NetworkAddress,
    /// Connection timeout
    pub connect_timeout: Duration,
    /// Read timeout
    pub read_timeout: Duration,
}

impl TcpTransportConfig {
    /// A configuration with the default timeouts: 5 s to connect, 30 s to read.
    pub fn new(server_addr: NetworkAddress) -> (r: Self)
        ensures
            r.server_addr == server_addr,
            r.connect_timeout == secs_duration(5),
            r.read_timeout == secs_duration(30),
    {
        Self { server_addr, connect_timeout: duration_from_secs(5), read_timeout: duration_from_secs(30) }
    }

    /// A configuration with the given timeouts.
    pub fn with_timeouts(server_addr: NetworkAddress, connect_timeout: Duration, read_timeout: Duration) -> (r: Self)
        ensures
            r.server_addr == server_addr,
            r.connect_timeout == connect_timeout,
            r.read_timeout == read_timeout,
    {
        Self { server_addr, connect_timeout, read_timeout }
    }
}

/// Largest payload a TCP message may announce.
pub const MAX_PAYLOAD_LEN: usize = 1048576;

/// `host:port` for a TCP endpoint; any other address is refused.
pub fn tcp_address(addr: &NetworkAddress) -> (r: Result<String, NetworkError>)
    ensures
        match *addr {
            NetworkAddress::Tcp { host, port } => r matches Ok(s) && s@ == host@ + ":"@ + decimal(port as nat),
            _ => r matches Err(NetworkError::ConnectionFailed(m)) && m@ == "Invalid address type for TcpTransport"@,
        },
{
    match addr {
        NetworkAddress::Tcp { host, port } => {
            let mut s = String::from_str(host.as_str());
            s.append(":");
            push_decimal(&mut s, *port as u64);
            Ok(s)
        },
        _ => Err(NetworkError::ConnectionFailed(String::from_str("Invalid address type for TcpTransport"))),
    }
}

/// The 4-byte big-endian length header sent before a payload of `len` bytes.
pub fn encode_length_header(len: u32) -> (r: [u8; 4])
    ensures
        r@ == seq![(len >> 24u32) as u8, (len >> 16u32) as u8, (len >> 8u32) as u8, len as u8],
{
    let r = [(len >> 24u32) as u8, (len >> 16u32) as u8, (len >> 8u32) as u8, len as u8];
    assert(r@ =~= seq![(len >> 24u32) as u8, (len >> 16u32) as u8, (len >> 8u32) as u8, len as u8]);
    r
}

/// The payload length announced by a 4-byte big-endian header.
pub fn decode_length_header(header: [u8; 4]) -> (r: u32)
    ensures
        r == header@[0] * 0x100_0000 + header@[1] * 0x1_0000 + header@[2] * 0x100 + header@[3],
{
    let r = (header[0] as u32) * 0x100_0000 + (header[1] as u32) * 0x1_0000 + (header[2] as u32) * 0x100 + (header[3] as u32);
    r
}

/// Decoding an encoded length header gives the length back.
pub proof fn lemma_length_header_roundtrip(len: u32)
    ensures
        ((len >> 24u32) as u8) * 0x100_0000 + ((len >> 16u32) as u8) * 0x1_0000 + ((len >> 8u32) as u8) * 0x100 + (len as u8)
            == len,
{
    let a = (len >> 24u32) as u8;
    let b = (len >> 16u32) as u8;
    let c = (len >> 8u32) as u8;
    let d = len as u8;
    assert(a as u32 * 0x100_0000u32 + b as u32 * 0x1_0000u32 + c as u32 * 0x100u32 + d as u32 == len) by (bit_vector)
        requires
            a == (len >> 24u32) as u8,
            b == (len >> 16u32) as u8,
            c == (len >> 8u32) as u8,
            d == len as u8,
    ;
}

} // verus!
