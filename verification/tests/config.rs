use dsh_desktop::config::{
    index_request, index_target, settings_page_url, parse_ready_line, web_launch_args, DshConfig,
    LaunchMode,
};

#[test]
fn default_config_is_valid() {
    assert!(DshConfig::default().validate().is_ok());
    assert_eq!(DshConfig::default().web_url().unwrap(), "http://127.0.0.1:3080/");
}

#[test]
fn connect_rejects_port_zero() {
    let cfg = DshConfig {
        launch_mode: LaunchMode::Connect,
        port: 0,
        ..DshConfig::default()
    };
    assert!(cfg.validate().unwrap_err().contains("nonzero"));
}

#[test]
fn local_rejects_all_interfaces() {
    let cfg = DshConfig {
        host: "0.0.0.0".into(),
        ..DshConfig::default()
    };
    assert!(cfg.validate().unwrap_err().contains("0.0.0.0"));
}

#[test]
fn ready_line_reads_loopback_url() {
    assert_eq!(
        parse_ready_line("dsh web: http://127.0.0.1:4567 (LAN: http://192.168.1.5:4567)").as_deref(),
        Some("http://127.0.0.1:4567")
    );
    assert!(parse_ready_line("waiting").is_none());
}

#[test]
fn validate_reports_each_error() {
    let base = DshConfig::default();
    let empty = DshConfig { host: "   ".into(), ..base.clone() };
    assert_eq!(empty.validate().unwrap_err(), "host must not be empty");
    for bad in ["http://x", "host:80", "a b"] {
        let cfg = DshConfig { host: bad.into(), ..base.clone() };
        assert_eq!(
            cfg.validate().unwrap_err(),
            "host must be a hostname or IPv4 literal, without a scheme or port"
        );
    }
    let connect_all = DshConfig { host: " 0.0.0.0 ".into(), launch_mode: LaunchMode::Connect, ..base.clone() };
    assert!(connect_all.validate().is_ok());
    let local_zero = DshConfig { port: 0, ..base.clone() };
    assert!(local_zero.validate().is_ok());
    assert_eq!(
        local_zero.web_url().unwrap_err(),
        "cannot build a URL until dsh web reports its assigned port"
    );
    let trimmed = DshConfig { host: "  localhost ".into(), port: 65535, ..base };
    assert_eq!(trimmed.web_url().unwrap(), "http://localhost:65535/");
}

#[test]
fn ready_line_edge_cases() {
    assert_eq!(parse_ready_line("  dsh web: https://[::1]:9 ").as_deref(), Some("https://[::1]:9"));
    assert!(parse_ready_line("dsh web: ftp://host").is_none());
    assert!(parse_ready_line("dsh web:").is_none());
    assert!(parse_ready_line("dsh web:    ").is_none());
    assert!(parse_ready_line("dsh web:http://x").is_none());
}

#[test]
fn launch_args_spell_host_and_port() {
    assert_eq!(web_launch_args("127.0.0.1", 0), ["--host", "127.0.0.1", "--port", "0"]);
    assert_eq!(web_launch_args("h", 3080), ["--host", "h", "--port", "3080"]);
}

#[test]
fn settings_page_adds_the_settings_query() {
    assert_eq!(
        settings_page_url("http://127.0.0.1:8787"),
        Ok("http://127.0.0.1:8787/?settings=1".to_string())
    );
    assert_eq!(
        settings_page_url("http://localhost:9000/chat?x=1#top"),
        Ok("http://localhost:9000/chat?settings=1#top".to_string())
    );
    assert!(settings_page_url("not a url").is_err());
}

#[test]
fn index_target_reads_host_and_port() {
    assert_eq!(index_target("http://127.0.0.1:8787/"), Some(("127.0.0.1".to_string(), 8787)));
    assert_eq!(index_target("http://localhost"), Some(("localhost".to_string(), 80)));
    assert_eq!(index_target("https://example.test/x"), Some(("example.test".to_string(), 443)));
    assert_eq!(index_target("nonsense"), None);
    assert_eq!(
        index_request("127.0.0.1", 8787),
        "GET / HTTP/1.1\r\nHost: 127.0.0.1:8787\r\nConnection: close\r\nAccept: text/html\r\n\r\n"
    );
}
