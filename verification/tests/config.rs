use spine::config::{parse_port, AppConfig};
use spine::embed::client::{base_url, embed_batch_url, embed_url};

#[test]
fn port_parses_like_u16() {
    assert_eq!(parse_port("3000"), Some(3000));
    assert_eq!(parse_port("+80"), Some(80));
    assert_eq!(parse_port("007"), Some(7));
    assert_eq!(parse_port("0"), Some(0));
    assert_eq!(parse_port("65535"), Some(65535));
    assert_eq!(parse_port("65536"), None);
    assert_eq!(parse_port("99999999999999999999"), None);
    assert_eq!(parse_port(""), None);
    assert_eq!(parse_port("+"), None);
    assert_eq!(parse_port("-1"), None);
    assert_eq!(parse_port("8a"), None);
    assert_eq!(parse_port(" 80"), None);
    for s in ["3000", "+80", "65536", "", "+", "-0", "12x", "٣"] {
        assert_eq!(parse_port(s), s.parse::<u16>().ok(), "{s}");
    }
}

#[test]
fn settings_fall_back_to_defaults() {
    let c = AppConfig::from_settings(None, None, None);
    assert_eq!(c.port, 3000);
    assert_eq!(c.db_path, "spine.db");
    assert_eq!(c.embed_service_url, "http://localhost:8100");
}

#[test]
fn settings_take_given_values() {
    let c = AppConfig::from_settings(
        Some("8080".to_string()),
        Some("/data/spine.db".to_string()),
        Some("http://embed:8100".to_string()),
    );
    assert_eq!(c.port, 8080);
    assert_eq!(c.db_path, "/data/spine.db");
    assert_eq!(c.embed_service_url, "http://embed:8100");
}

#[test]
fn unreadable_port_gives_default() {
    let c = AppConfig::from_settings(Some("port".to_string()), None, None);
    assert_eq!(c.port, 3000);
}

#[test]
fn base_url_drops_trailing_slashes() {
    assert_eq!(base_url("http://localhost:8100/"), "http://localhost:8100");
    assert_eq!(base_url("http://localhost:8100///"), "http://localhost:8100");
    assert_eq!(base_url("http://localhost:8100"), "http://localhost:8100");
    assert_eq!(base_url("///"), "");
}

#[test]
fn endpoints_extend_base_url() {
    let base = base_url("http://embed:8100/");
    assert_eq!(embed_url(&base), "http://embed:8100/embed");
    assert_eq!(embed_batch_url(&base), "http://embed:8100/embed-batch");
}

#[test]
fn empty_batch_needs_no_request() {
    assert!(!spine::embed::client::batch_needs_request(&[]));
    assert!(spine::embed::client::batch_needs_request(&["a".to_string()]));
}
