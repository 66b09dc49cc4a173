//! Brew protocol integration for bridging TETRA group calls over the network.

pub mod brew_routable;

use vstd::prelude::*;
use std::time::Duration;
use vstd::string::StringExecFns;
use crate::config::sec_brew::CfgBrew;
use crate::duration::{duration_from_secs, secs_duration};

verus! {

/// WebSocket subprotocol of Brew.
pub const BREW_PROTOCOL_VERSION: &'static str = "brew";

/// Settings of a WebSocket transport.
pub struct WebSocketTransportConfig {
    pub host: String,
    pub port: u16,
    pub use_tls: bool,
    /// User name and password for HTTP digest authentication.
    pub digest_auth_credentials: Option<(String, String)>,
    pub endpoint_path: String,
    pub subprotocol: Option<String>,
    pub user_agent: String,
    pub heartbeat_interval: Duration,
    pub heartbeat_timeout: Duration,
    /// DER-encoded certificates to trust besides the system roots.
    pub custom_root_certs: Option<Vec<Vec<u8>>>,
    /// User name and password for HTTP basic authentication.
    pub basic_auth_credentials: Option<(String, String)>,
}

/// The WebSocket settings for Brew from its configuration section: the server and TLS
/// choice of `cfg`, digest credentials when both user name and password are given, the
/// endpoint `/brew/` with subprotocol "brew", user agent "BlueStation/" and the stack
/// version, a heartbeat every 10 s and a 30 s timeout.
pub fn websocket_transport_config(cfg: &CfgBrew, stack_version: &str) -> (r: WebSocketTransportConfig)
    ensures
        r.host == cfg.host,
        r.port == cfg.port,
        r.use_tls == cfg.tls,
        (cfg.username, cfg.password) matches (Some(u), Some(p)) ==> r.digest_auth_credentials == Some((u, p)),
        !(cfg.username is Some && cfg.password is Some) ==> r.digest_auth_credentials is None,
        r.endpoint_path@ == "/brew/"@,
        r.subprotocol matches Some(s) && s@ == "brew"@,
        r.user_agent@ == "BlueStation/"@ + stack_version@,
        r.heartbeat_interval == secs_duration(10),
        r.heartbeat_timeout == secs_duration(30),
        r.custom_root_certs is None,
        r.basic_auth_credentials is None,
{
    let digest_auth_credentials = match (&cfg.username, &cfg.password) {
        (Some(u), Some(p)) => Some((u.clone(), p.clone())),
        _ => None,
    };
    let mut user_agent = String::from_str("BlueStation/");
    user_agent.append(stack_version);
    WebSocketTransportConfig {
        host: cfg.host.clone(),
        port: cfg.port,
        use_tls: cfg.tls,
        digest_auth_credentials,
        endpoint_path: String::from_str("/brew/"),
        subprotocol: Some(String::from_str(BREW_PROTOCOL_VERSION)),
        user_agent,
        heartbeat_interval: duration_from_secs(10),
        heartbeat_timeout: duration_from_secs(30),
        custom_root_certs: None,
        basic_auth_credentials: None,
    }
}

} // verus!
