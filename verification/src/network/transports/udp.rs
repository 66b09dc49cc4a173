//! Addressing of the UDP transport.
use vstd::prelude::*;
use vstd::string::StringExecFns;
use crate::network::transports::{NetworkAddress, NetworkError};
use crate::text::{decimal, push_decimal};

verus! {

/// `host:port` for a UDP endpoint; any other address is refused.
pub fn udp_address(addr: &NetworkAddress) -> (r: Result<String, NetworkError>)
    ensures
        match *addr {
            NetworkAddress::Udp { host, port } => r matches Ok(s) && s@ == host@ + ":"@ + decimal(port as nat),
            _ => r matches Err(NetworkError::ConnectionFailed(m)) && m@ == "Invalid address type for UDP transport"@,
        },
{
    match addr {
        NetworkAddress::Udp { host, port } => {
            let mut s = String::from_str(host.as_str());
            s.append(":");
            push_decimal(&mut s, *port as u64);
            Ok(s)
        },
        _ => Err(NetworkError::ConnectionFailed(String::from_str("Invalid address type for UDP transport"))),
    }
}

} // verus!
