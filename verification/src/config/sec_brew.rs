//! Brew section of the stack configuration, with SDS bridging and an optional
//! whitelist of remote SSIs.
use vstd::prelude::*;
use std::time::Duration;
use crate::duration::{duration_from_secs, secs_duration};
use crate::text::{decimal, u32_to_decimal};

verus! {

/// Brew protocol (TetraPack/BrandMeister) configuration.
#[derive(Debug, Clone)]
pub struct CfgBrew {
    /// TetraPack server hostname or IP
    pub host: String,
    /// TetraPack server port
    pub port: u16,
    /// Use TLS (wss:// / https://)
    pub tls: bool,
    /// Optional username for HTTP Digest auth
    pub username: Option<String>,
    /// Optional password for HTTP Digest auth
    pub password: Option<String>,
    /// Reconnection delay
    pub reconnect_delay: Duration,
    /// Extra initial jitter playout delay in frames (added on top of adaptive baseline)
    pub jitter_initial_latency_frames: u8,
    /// Set to true when SDS between local and Brew clients is enabled
    pub feature_sds_enabled: bool,
    /// If present, restrict Brew calls to these remote SSIs
    pub whitelisted_ssis: Option<Vec<u32>>,
}

/// The Brew section as written in the configuration file.
#[derive(Debug, Clone)]
pub struct CfgBrewDto {
    /// TetraPack server hostname or IP
    pub host: String,
    /// TetraPack server port
    pub port: u16,
    /// Use TLS (wss:// / https://)
    pub tls: bool,
    /// Username for HTTP Digest auth
    pub username: u32,
    /// Password for HTTP Digest auth
    pub password: String,
    /// Reconnection delay in seconds
    pub reconnect_delay_secs: u64,
    /// Extra initial jitter playout delay in frames
    pub jitter_initial_latency_frames: u8,
    /// If present, restrict Brew calls to these remote SSIs
    pub whitelisted_ssis: Option<Vec<u32>>,
    /// Set to true when SDS between local and Brew clients is enabled
    pub feature_sds_enabled: bool,
}

/// Server port when the file gives none.
pub fn default_brew_port() -> (r: u16)
    ensures
        r == 443,
{
    443
}

/// Reconnection delay in seconds when the file gives none.
pub fn default_brew_reconnect_delay() -> (r: u64)
    ensures
        r == 15,
{
    15
}

/// SDS bridging is on when the file does not say.
pub fn default_brew_feature_sds_enabled() -> (r: bool)
    ensures
        r,
{
    true
}

/// The Brew configuration of a section read from the file: the numeric username in
/// decimal, the password, both present, and the delay in seconds as a duration.
pub fn apply_brew_patch(src: CfgBrewDto) -> (r: CfgBrew)
    ensures
        r.host@ == src.host@,
        r.port == src.port,
        r.tls == src.tls,
        r.username matches Some(u) && u@ == decimal(src.username as nat),
        r.password matches Some(p) && p@ == src.password@,
        r.reconnect_delay == secs_duration(src.reconnect_delay_secs),
        r.jitter_initial_latency_frames == src.jitter_initial_latency_frames,
        r.feature_sds_enabled == src.feature_sds_enabled,
        r.whitelisted_ssis == src.whitelisted_ssis,
{
    CfgBrew {
        host: src.host,
        port: src.port,
        tls: src.tls,
        username: Some(u32_to_decimal(src.username)),
        password: Some(src.password),
        reconnect_delay: duration_from_secs(src.reconnect_delay_secs),
        jitter_initial_latency_frames: src.jitter_initial_latency_frames,
        feature_sds_enabled: src.feature_sds_enabled,
        whitelisted_ssis: src.whitelisted_ssis,
    }
}

} // verus!
