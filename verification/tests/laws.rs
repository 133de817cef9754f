use dsh_desktop::app_update::{is_newer, parse_version};
use dsh_desktop::config::{parse_ready_line, DshConfig};

#[test]
fn newer_is_a_strict_order() {
    let versions = ["0.9.9", "1.0.0", "v1.0.1", "1.1", "2.0.0-rc.1", "2.0.0", "2.0.0-beta", "1.0.0-rc.1", "2.0.0-rc.2", "2.0.0-beta.11"];
    for a in versions {
        assert!(!is_newer(a, a));
        for b in versions {
            if is_newer(a, b) {
                assert!(!is_newer(b, a));
            }
            for c in versions {
                if is_newer(a, b) && is_newer(b, c) {
                    assert!(is_newer(a, c));
                }
            }
        }
    }
}

#[test]
fn leading_v_and_round_trip() {
    for text in ["1.2.3", "0.0.0", "10.20.30 ", "3.1"] {
        assert_eq!(parse_version(&format!("v{text}")), parse_version(text));
    }
    for (a, b, c) in [(0u64, 0u64, 0u64), (1, 4, 0), (u64::MAX, 7, 12)] {
        assert_eq!(parse_version(&format!("{a}.{b}.{c}")), Some((a, b, c)));
    }
}

#[test]
fn ready_line_announcing_the_config_url_reads_it_back() {
    let config = DshConfig { host: " example.local ".into(), port: 8080, ..DshConfig::default() };
    assert!(config.validate().is_ok());
    let url = config.web_url().unwrap();
    assert_eq!(parse_ready_line(&format!("dsh web: {url}")).as_deref(), Some(url.as_str()));
    assert_eq!(parse_ready_line(&format!("dsh web: {url}\t(LAN)")).as_deref(), Some(url.as_str()));
}

#[test]
fn version_forms_read_alike() {
    for p in ["", "v", "V"] {
        for (a, b, c) in [(0u64, 0u64, 0u64), (1, 4, 0), (12, 34, 56), (u64::MAX, 7, u64::MAX)] {
            assert_eq!(parse_version(&format!("{p}{a}.{b}.{c}")), Some((a, b, c)));
            assert_eq!(parse_version(&format!(" {p}{a}.{b} ")), Some((a, b, 0)));
        }
    }
}

#[test]
fn newer_on_plain_versions_compares_triples() {
    assert!(is_newer("1.10.0", "1.9"));
    assert!(!is_newer("1.9", "1.10.0"));
    assert!(is_newer("V2.0", "v1.99.99"));
    assert!(!is_newer("1.4", "1.4.0"));
    assert!(!is_newer("1.4.0", "v1.4"));
    assert!(is_newer("1.4.1", "1.4"));
    assert!(!is_newer("x1.5", "1.4"));
}
