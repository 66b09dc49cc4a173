//! Brew section of the stack configuration, with the server port and reconnection
//! delay in seconds.
use vstd::prelude::*;
use crate::text::{decimal, u32_to_decimal};

verus! {

/// Brew protocol (TetraPack/BrandMeister) configuration.
#[derive(Debug, Clone)]
pub struct CfgBrew {
    /// TetraPack server hostname or IP
    pub host: String,
    /// TetraPack server port
    pub port: u16,
    /// Use TLS (wss:// / https://)
    pub tls: bool,
    /// Optional username for HTTP Digest auth
    pub username: Option<String>,
    /// Optional password for HTTP Digest auth
    pub password: Option<String>,
    /// ISSI to register with the TetraPack server
    pub issi: u32,
    /// Reconnection delay in seconds
    pub reconnect_delay_secs: u64,
    /// Extra initial jitter playout delay in frames (added on top of adaptive baseline)
    pub jitter_initial_latency_frames: u8,
}

/// The Brew section as written in the configuration file.
#[derive(Debug, Clone)]
pub struct CfgBrewDto {
    /// TetraPack server hostname or IP
    pub host: String,
    /// TetraPack server port
    pub port: u16,
    /// Use TLS (wss:// / https://)
    pub tls: bool,
    /// Username for HTTP Digest auth
    pub username: u32,
    /// Password for HTTP Digest auth
    pub password: String,
    /// ISSI to register with the TetraPack server
    pub issi: u32,
    /// Reconnection delay in seconds
    pub reconnect_delay_secs: u64,
    /// Extra initial jitter playout delay in frames
    pub jitter_initial_latency_frames: u8,
}

/// Server port when the file gives none.
pub fn default_brew_port() -> (r: u16)
    ensures
        r == 3000,
{
    3000
}

/// Reconnection delay in seconds when the file gives none.
pub fn default_brew_reconnect_delay() -> (r: u64)
    ensures
        r == 15,
{
    15
}

/// The Brew configuration of a section read from the file: the numeric username in
/// decimal, and the password, both present.
pub fn apply_brew_patch(src: CfgBrewDto) -> (r: CfgBrew)
    ensures
        r.host@ == src.host@,
        r.port == src.port,
        r.tls == src.tls,
        r.username matches Some(u) && u@ == decimal(src.username as nat),
        r.password matches Some(p) && p@ == src.password@,
        r.issi == src.issi,
        r.reconnect_delay_secs == src.reconnect_delay_secs,
        r.jitter_initial_latency_frames == src.jitter_initial_latency_frames,
{
    CfgBrew {
        host: src.host,
        port: src.port,
        tls: src.tls,
        username: Some(u32_to_decimal(src.username)),
        password: Some(src.password),
        issi: src.issi,
        reconnect_delay_secs: src.reconnect_delay_secs,
        jitter_initial_latency_frames: src.jitter_initial_latency_frames,
    }
}

} // verus!
