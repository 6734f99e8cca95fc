use frostlink::config::Config;
use frostlink::global::{append_log_entry, logger};
use frostlink::keyed::StringMap;
use frostlink::proxy::{
    dashboard_enabled, default_page_response, plan_http_request, plan_tls_request, HttpPlan,
    TlsPlan,
};
use frostlink::statistics::{IpAddress, ProxyDomainStats, ProxyStatistics};
use frostlink::text::decimal_string;
use std::time::Instant;

fn config(domain: &str, http: bool, ssl: bool) -> Config {
    Config {
        domain: domain.to_string(),
        location: format!("localhost:{}", domain.len()),
        allow_ssl: ssl,
        allow_http: http,
        ssl_certificate: None,
        ssl_certificate_key: None,
    }
}

#[test]
fn http_forwards_by_host_header() {
    let configs = vec![config("a.com", true, false), config("b.com", false, false)];
    let req = b"GET /x/y HTTP/1.1\r\nHost: b.com\r\n\r\n";
    match plan_http_request(&configs, req) {
        HttpPlan::Forward { config, path } => {
            assert_eq!(config, 1);
            assert_eq!(path, "/x/y");
        }
        _ => panic!("expected forward"),
    }
}

#[test]
fn http_host_is_a_substring_match() {
    let configs = vec![config("a.com", true, false)];
    let req = b"POST\r\nPOST /form HTTP/1.1\r\nHost: a.com.evil\r\n";
    match plan_http_request(&configs, req) {
        HttpPlan::Forward { config, path } => {
            assert_eq!(config, 0);
            assert_eq!(path, "/form");
        }
        _ => panic!("expected forward"),
    }
}

#[test]
fn http_refused_when_no_domain_allows_it() {
    let configs = vec![config("a.com", false, true)];
    assert!(matches!(plan_http_request(&configs, b"Host: a.com\r\n"), HttpPlan::Refuse));
    assert!(matches!(plan_http_request(&vec![], b""), HttpPlan::Refuse));
}

#[test]
fn http_unknown_host_gets_default_page() {
    let configs = vec![config("a.com", true, false)];
    assert!(matches!(
        plan_http_request(&configs, b"GET / HTTP/1.1\r\nHost: c.com\r\n"),
        HttpPlan::ServeDefault
    ));
}

#[test]
fn tls_forwards_by_exact_host() {
    let configs = vec![config("a.com", false, true), config("b.com", false, false)];
    let req = b"GET /p HTTP/1.1\r\nHost:   b.com  \r\n\r\n";
    match plan_tls_request(&configs, req) {
        TlsPlan::Forward { config, path, target } => {
            assert_eq!(config, 1);
            assert_eq!(path, "/p");
            assert_eq!(target, "/p");
        }
        _ => panic!("expected forward"),
    }
    assert!(matches!(
        plan_tls_request(&configs, b"GET / HTTP/1.1\r\nHost: a.com.evil\r\n"),
        TlsPlan::ServeDefault
    ));
    assert!(matches!(plan_tls_request(&vec![config("a.com", true, false)], b"Host: a.com"), TlsPlan::Refuse));
}

#[test]
fn tls_target_defaults_to_root() {
    let configs = vec![config("a.com", false, true)];
    match plan_tls_request(&configs, b"Host: a.com") {
        TlsPlan::Forward { config, path, target } => {
            assert_eq!(config, 0);
            assert_eq!(path, "a.com");
            assert_eq!(target, "a.com");
        }
        _ => panic!("expected forward"),
    }
}

#[test]
fn default_page_texts() {
    assert_eq!(
        default_page_response(Some("<p>hi</p>".to_string())),
        "HTTP/1.1 200 OK\r\nContent-Type: text/html\r\n\r\n<p>hi</p>"
    );
    assert!(default_page_response(None).starts_with("HTTP/1.1 404 NOT FOUND\r\nContent-Type: text/html\r\n\r\n<html>"));
}

#[test]
fn dashboard_needs_both_credentials() {
    assert!(dashboard_enabled(Some("u"), Some("p")));
    assert!(!dashboard_enabled(Some(""), Some("p")));
    assert!(!dashboard_enabled(None, Some("p")));
    assert!(!dashboard_enabled(Some("u"), None));
}

#[test]
fn logger_appends_one_entry() {
    let mut stats = ProxyDomainStats::default();
    logger("a.com", IpAddress::V4([127, 0, 0, 1]), Some("/x".to_string()), "HTTP", &mut stats, Instant::now());
    assert_eq!(stats.total_connections, 0);
    assert_eq!(stats.log.len(), 1);
    assert_eq!(stats.log[0].domain, "a.com");
    assert_eq!(stats.log[0].path, Some("/x".to_string()));
    assert_eq!(stats.log[0].event, "HTTP");
    let time = &stats.log[0].time;
    let space = time.find(' ').unwrap();
    assert!(space > 0 && time[..space].chars().all(|c| c.is_ascii_digit()));
    assert_eq!(time.len(), space + 1 + 20);
    assert_eq!(&time[space + 3..space + 4], "/");
    assert_eq!(stats.last_active.len(), 20);
    let d: Vec<char> = stats.last_active.chars().collect();
    for i in [0usize, 1, 3, 4, 6, 7, 8, 9, 12, 13, 15, 16, 18, 19] {
        assert!(d[i].is_ascii_digit());
    }
    assert_eq!((d[2], d[5], d[10], d[11], d[14], d[17]), ('/', '/', ',', ' ', ':', ':'));
}

#[test]
fn connections_are_counted_per_domain() {
    let mut stats = ProxyStatistics::default();
    assert_eq!(stats.connections("a.com"), 0);
    stats.record_connection("a.com", IpAddress::V4([1, 2, 3, 4]), "/".to_string(), "HTTP", Instant::now());
    stats.record_connection("a.com", IpAddress::V6([0, 0, 0, 0, 0, 0, 0, 1]), "/b".to_string(), "HTTP", Instant::now());
    stats.record_connection("b.com", IpAddress::V4([1, 2, 3, 4]), "/".to_string(), "HTTP", Instant::now());
    assert_eq!(stats.connections("a.com"), 2);
    assert_eq!(stats.connections("b.com"), 1);
    assert_eq!(stats.proxies.len(), 2);
    assert_eq!(stats.proxies.get("a.com").unwrap().log.len(), 2);
}

#[test]
fn decimal_formatting() {
    assert_eq!(decimal_string(0), "0");
    assert_eq!(decimal_string(7), "7");
    assert_eq!(decimal_string(1024), "1024");
    assert_eq!(decimal_string(u128::MAX), u128::MAX.to_string());
}

#[test]
fn string_map_insert_replace_remove() {
    let mut m: StringMap<String> = StringMap::new();
    m.insert("k".to_string(), "1".to_string());
    m.insert("k".to_string(), "2".to_string());
    m.insert("j".to_string(), "3".to_string());
    assert_eq!(m.len(), 2);
    assert_eq!(m.get("k"), Some(&"2".to_string()));
    assert!(m.contains_key("j"));
    assert_eq!(m.remove("k"), Some("2".to_string()));
    assert!(!m.contains_key("k"));
    assert_eq!(m.get("k"), None);
}

#[test]
fn log_entry_time_is_millis_then_date() {
    let mut stats = ProxyDomainStats::default();
    append_log_entry(
        &mut stats,
        "d",
        IpAddress::V4([10, 0, 0, 1]),
        None,
        "HTTP",
        42,
        "01/02/2024, 03:04:05".to_string(),
        "01/02/2024, 03:04:06".to_string(),
    );
    assert_eq!(stats.last_active, "01/02/2024, 03:04:05");
    assert_eq!(stats.log[0].time, "42 01/02/2024, 03:04:06");
    assert_eq!(stats.log[0].ip, IpAddress::V4([10, 0, 0, 1]));
    assert_eq!(stats.log[0].path, None);
}
