use bluestation::brew::worker::{
    auth_result, build_digest_response, extract_endpoint, first_auth_step, http_get_request, parse_digest_challenge,
    user_agent, AuthStep,
};
use bluestation::config::sec_brew::{self, CfgBrew, CfgBrewDto};
use bluestation::config::stack_config::{default_stack_mode, CfgCellInfo, StackMode, StackState};
use bluestation::config::stack_config_brew;
use bluestation::net_brew::brew_routable::{
    feature_sds_enabled, is_active, is_brew_gssi_routable, is_brew_issi_routable, is_tetrapack,
};
use bluestation::net_brew::websocket_transport_config;
use bluestation::network::transports::tcp::TcpTransportConfig;
use bluestation::network::transports::{NetworkAddress, NetworkError};
use bluestation::ranges::SortedDisjointSsiRanges;
use std::time::Duration;

fn brew(host: &str, whitelist: Option<Vec<u32>>) -> Option<CfgBrew> {
    Some(CfgBrew {
        host: host.to_string(),
        port: 443,
        tls: true,
        username: None,
        password: None,
        reconnect_delay: Duration::from_secs(15),
        jitter_initial_latency_frames: 0,
        feature_sds_enabled: true,
        whitelisted_ssis: whitelist,
    })
}

#[test]
fn cell_defaults() {
    let c = CfgCellInfo::default();
    assert_eq!(c.freq_band, 4);
    assert_eq!(c.main_carrier, 1521);
    assert!(c.registration && c.deregistration);
    assert!(!c.voice_service);
    assert_eq!(default_stack_mode(), StackMode::Bs);
    assert_eq!(StackState::default().cell_load_ca, 0);
}

#[test]
fn brew_patch_converts_fields() {
    let dto = CfgBrewDto {
        host: "example.org".to_string(),
        port: sec_brew::default_brew_port(),
        tls: true,
        username: 1234567,
        password: "secret".to_string(),
        reconnect_delay_secs: sec_brew::default_brew_reconnect_delay(),
        jitter_initial_latency_frames: 2,
        whitelisted_ssis: Some(vec![91]),
        feature_sds_enabled: sec_brew::default_brew_feature_sds_enabled(),
    };
    let cfg = sec_brew::apply_brew_patch(dto);
    assert_eq!(cfg.port, 443);
    assert_eq!(cfg.username.as_deref(), Some("1234567"));
    assert_eq!(cfg.password.as_deref(), Some("secret"));
    assert_eq!(cfg.reconnect_delay, Duration::from_secs(15));
    assert!(cfg.feature_sds_enabled);

    let old = stack_config_brew::apply_brew_patch(stack_config_brew::CfgBrewDto {
        host: "h".to_string(),
        port: stack_config_brew::default_brew_port(),
        tls: false,
        username: 0,
        password: String::new(),
        issi: 42,
        reconnect_delay_secs: stack_config_brew::default_brew_reconnect_delay(),
        jitter_initial_latency_frames: 0,
    });
    assert_eq!(old.port, 3000);
    assert_eq!(old.username.as_deref(), Some("0"));
    assert_eq!(old.reconnect_delay_secs, 15);
}

#[test]
fn brew_routing_decisions() {
    let local = SortedDisjointSsiRanges::from_vec_tuple(vec![(1000, 2000)]);
    assert!(!is_active(&None));
    assert!(!is_brew_gssi_routable(&None, &local, 5));
    let open = brew("example.org", None);
    assert!(is_active(&open));
    assert!(feature_sds_enabled(&open));
    assert!(is_brew_gssi_routable(&open, &local, 5));
    assert!(!is_brew_gssi_routable(&open, &local, 1500));
    let listed = brew("example.org", Some(vec![5, 7]));
    assert!(is_brew_gssi_routable(&listed, &local, 7));
    assert!(!is_brew_gssi_routable(&listed, &local, 6));
    let tp = brew("core.tetrapack.online", None);
    assert!(is_tetrapack(&tp));
    assert!(!is_tetrapack(&open));
    assert!(is_brew_issi_routable(&tp, 1_000_000));
    assert!(!is_brew_issi_routable(&tp, 999_999));
    assert!(is_brew_issi_routable(&open, 12));
    assert!(!is_brew_issi_routable(&None, 1_234_567));
}

#[test]
fn digest_response_headers() {
    let with_auth = build_digest_response(
        "user", "pass", "tetrapack", "abc123", "auth", "/brew/", "GET", Some("xyz"), 0x1234abcd,
    );
    assert_eq!(
        with_auth,
        "Digest username=\"user\", realm=\"tetrapack\", nonce=\"abc123\", uri=\"/brew/\", response=\"7324ae1e434c40afe620351b57d71279\", qop=auth, nc=00000001, cnonce=\"1234abcd\", opaque=\"xyz\""
    );
    let plain = build_digest_response("user", "pass", "tetrapack", "abc123", "", "/brew/", "GET", None, 0x1234abcd);
    assert_eq!(
        plain,
        "Digest username=\"user\", realm=\"tetrapack\", nonce=\"abc123\", uri=\"/brew/\", response=\"d441b1149372ccfe5a357d94070dabc9\""
    );
}

#[test]
fn network_error_texts() {
    assert_eq!(NetworkError::ConnectionFailed("x".to_string()).to_text(), "Connection failed: x");
    assert_eq!(NetworkError::ReceiveFailed("x".to_string()).to_text(), "Receive failed");
    assert_eq!(NetworkError::Timeout.to_text(), "Operation timed out");
}

#[test]
fn tcp_config_timeouts() {
    let addr = NetworkAddress::Tcp { host: "localhost".to_string(), port: 80 };
    let cfg = TcpTransportConfig::new(addr.clone());
    assert_eq!(cfg.connect_timeout, Duration::from_secs(5));
    assert_eq!(cfg.read_timeout, Duration::from_secs(30));
    let custom = TcpTransportConfig::with_timeouts(addr, Duration::from_secs(1), Duration::from_secs(2));
    assert_eq!(custom.read_timeout, Duration::from_secs(2));
}

#[test]
fn digest_challenge_params() {
    let got = parse_digest_challenge("Digest realm=\"tp\", nonce=\"abc\", QOP=auth, junk, realm=\"other\"");
    let want: Vec<(String, String)> = vec![
        ("realm".to_string(), "other".to_string()),
        ("nonce".to_string(), "abc".to_string()),
        ("qop".to_string(), "auth".to_string()),
    ];
    assert_eq!(got, want);
    let bare = parse_digest_challenge("  Opaque = \"x y\" ");
    assert_eq!(bare, vec![("opaque".to_string(), "x y".to_string())]);
    assert!(parse_digest_challenge("Digest ").is_empty());
}

#[test]
fn endpoint_from_response_body() {
    assert_eq!(
        extract_endpoint("HTTP/1.1 200 OK\r\nContent-Length: 12\r\n\r\n  /brew/abc \r\n"),
        Ok("/brew/abc".to_string())
    );
    assert_eq!(
        extract_endpoint("HTTP/1.1 200 OK\r\n\r\nfoo\r\n\r\n/x"),
        Err("invalid endpoint path: foo\r\n\r\n/x".to_string())
    );
    assert_eq!(extract_endpoint("HTTP/1.1 200 OK\r\n"), Err("no body in 200 response".to_string()));
    assert_eq!(extract_endpoint("\r\n\r\n"), Err("invalid endpoint path: ".to_string()));
}

#[test]
fn brew_websocket_settings() {
    let plain = brew("core.tetrapack.online", None).unwrap();
    let ws = websocket_transport_config(&plain, "0.1.0-abc");
    assert_eq!(ws.host, "core.tetrapack.online");
    assert_eq!(ws.port, 443);
    assert!(ws.use_tls);
    assert_eq!(ws.digest_auth_credentials, None);
    assert_eq!(ws.endpoint_path, "/brew/");
    assert_eq!(ws.subprotocol, Some("brew".to_string()));
    assert_eq!(ws.user_agent, "BlueStation/0.1.0-abc");
    assert_eq!(ws.heartbeat_interval, Duration::from_secs(10));
    assert_eq!(ws.heartbeat_timeout, Duration::from_secs(30));
    assert!(ws.custom_root_certs.is_none() && ws.basic_auth_credentials.is_none());

    let mut auth = plain.clone();
    auth.username = Some("1234567".to_string());
    assert_eq!(websocket_transport_config(&auth, "v").digest_auth_credentials, None);
    auth.password = Some("secret".to_string());
    assert_eq!(
        websocket_transport_config(&auth, "v").digest_auth_credentials,
        Some(("1234567".to_string(), "secret".to_string()))
    );
}

#[test]
fn registration_answers() {
    let user = Some("user".to_string());
    let pass = Some("pass".to_string());
    assert_eq!(
        first_auth_step("HTTP/1.1 200 OK\r\nServer: x\r\n\r\n/brew/xyz\r\n", &user, &pass, 1),
        AuthStep::Endpoint("/brew/xyz".to_string())
    );
    assert_eq!(
        first_auth_step("HTTP/1.1 200 OK\r\n\r\nnope", &None, &None, 1),
        AuthStep::Failed("invalid endpoint path: nope".to_string())
    );
    assert_eq!(
        first_auth_step("HTTP/1.1 500 Internal Server Error\r\n\r\n", &user, &pass, 1),
        AuthStep::Failed("unexpected HTTP status: HTTP/1.1 500 Internal Server Error".to_string())
    );
    assert_eq!(
        first_auth_step("HTTP/1.1 401 Unauthorized\r\nServer: x\r\n\r\n", &user, &pass, 1),
        AuthStep::Failed("401 but no WWW-Authenticate header".to_string())
    );
    assert_eq!(
        first_auth_step("HTTP/1.1 401 Unauthorized\r\nwww-authenticate Digest", &user, &pass, 1),
        AuthStep::Failed("malformed WWW-Authenticate".to_string())
    );
    assert_eq!(
        first_auth_step("HTTP/1.1 401 Unauthorized\r\nWWW-Authenticate: Basic realm=x\r\n\r\n", &user, &pass, 1),
        AuthStep::Failed("unsupported auth scheme: Basic realm=x".to_string())
    );
    let challenge = "HTTP/1.1 401 Unauthorized\r\nWww-Authenticate:  Digest realm=\"tetrapack\", nonce=\"abc123\", qop=\"auth\", opaque=\"xyz\"\r\n\r\n";
    assert_eq!(
        first_auth_step(challenge, &user, &None, 1),
        AuthStep::Failed("server requires auth but no username/password configured".to_string())
    );
    let expected = build_digest_response("user", "pass", "tetrapack", "abc123", "auth", "/brew/", "GET", Some("xyz"), 0x1234abcd);
    assert_eq!(first_auth_step(challenge, &user, &pass, 0x1234abcd), AuthStep::Authorize(expected));
}

#[test]
fn registration_requests_and_results() {
    assert_eq!(user_agent("0.1.0-abc"), "BlueStation/0.1.0-abc");
    assert_eq!(
        http_get_request("core.example", "BlueStation/1", None),
        "GET /brew/ HTTP/1.1\r\nHost: core.example\r\nUser-Agent: BlueStation/1\r\n\r\n"
    );
    assert_eq!(
        http_get_request("core.example", "BlueStation/1", Some("Digest x")),
        "GET /brew/ HTTP/1.1\r\nHost: core.example\r\nUser-Agent: BlueStation/1\r\nAuthorization: Digest x\r\n\r\n"
    );
    assert_eq!(auth_result("HTTP/1.1 200 OK\r\n\r\n/brew/e1"), Ok("/brew/e1".to_string()));
    assert_eq!(
        auth_result("HTTP/1.1 403 Forbidden\r\n\r\n"),
        Err("authentication failed: HTTP/1.1 403 Forbidden".to_string())
    );
    assert_eq!(auth_result("no newline"), Err("authentication failed: no newline".to_string()));
}
