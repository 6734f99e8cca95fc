use frostlink::colors::BColors;
use frostlink::config::{is_config_file_name, load_configs, parse_config, ConfigFile, ConfigFileOutcome};

#[test]
fn readme_example_configuration_loads() {
    let text = "domain: example.com\nssl: true\nlocation: localhost:3000\n";
    let parsed = parse_config(text).unwrap();
    assert_eq!(parsed.0, "example.com");
    assert_eq!(parsed.1, "localhost:3000");
    assert!(!parsed.2);
    assert!(parsed.3);
    assert_eq!(parsed.4, None);
    assert_eq!(parsed.5, None);
}

#[test]
fn full_configuration_with_certificates() {
    let text = "  domain: a.example  \r\nlocation: 127.0.0.1:8080\r\nAllowSSL: true\r\nAllowHTTP: false\r\nssl_certificate: /c.pem\r\nssl_certificate_key: /k.pem";
    let parsed = parse_config(text).unwrap();
    assert_eq!(parsed.0, "a.example");
    assert_eq!(parsed.1, "127.0.0.1:8080");
    assert!(parsed.2);
    assert!(!parsed.3);
    assert_eq!(parsed.4, Some("/c.pem".to_string()));
    assert_eq!(parsed.5, Some("/k.pem".to_string()));
}

#[test]
fn later_line_overrides_earlier() {
    let text = "domain: first\nlocation: here\ndomain: second\n";
    assert_eq!(parse_config(text).unwrap().0, "second");
}

#[test]
fn invalid_allow_ssl_is_refused() {
    let text = "domain: d\nlocation: l\nAllowSSL: yes\n";
    assert_eq!(parse_config(text), Err("Invalid value for AllowSSL"));
}

#[test]
fn invalid_allow_http_is_refused_even_without_domain() {
    assert_eq!(parse_config("AllowHTTP: TRUE"), Err("Invalid value for AllowHTTP"));
}

#[test]
fn ssl_without_certificates_is_refused() {
    let text = "domain: d\nlocation: l\nAllowSSL: true\nssl_certificate: c\n";
    assert_eq!(
        parse_config(text),
        Err("Missing SSL certificate information for a domain with AllowSSL enabled")
    );
}

#[test]
fn missing_location_is_refused() {
    assert_eq!(
        parse_config("domain: d\n"),
        Err("Missing required domain or location information")
    );
    assert_eq!(parse_config(""), Err("Missing required domain or location information"));
}

#[test]
fn empty_value_after_trim_is_not_a_setting() {
    assert_eq!(
        parse_config("domain: \nlocation: l"),
        Err("Missing required domain or location information")
    );
}

#[test]
fn unicode_whitespace_is_trimmed() {
    let text = "\u{3000}domain: d\u{00A0}\nlocation: l\u{2003}";
    let parsed = parse_config(text).unwrap();
    assert_eq!(parsed.0, "d");
    assert_eq!(parsed.1, "l");
}

#[test]
fn colors_palette() {
    let c = BColors::new();
    assert_eq!(c.header, "\x1b[95m");
    assert_eq!(c.blue, "\x1b[94m");
    assert_eq!(c.cyan, "\x1b[96m");
    assert_eq!(c.cyan_green, "\x1b[92m");
    assert_eq!(c.warning, "\x1b[93m");
    assert_eq!(c.fail, "\x1b[91m");
    assert_eq!(c.endc, "\x1b[0m");
    assert_eq!(c.bold, "\x1b[1m");
    assert_eq!(c.underline, "\x1b[4m");
}

#[test]
fn configuration_file_names() {
    assert!(is_config_file_name("example.conf"));
    assert!(is_config_file_name("a.b.conf"));
    assert!(is_config_file_name("..conf"));
    assert!(!is_config_file_name(".conf"));
    assert!(!is_config_file_name("example.config"));
    assert!(!is_config_file_name("conf"));
    assert!(!is_config_file_name("example.CONF"));
}

#[test]
fn comment_lines_inserted_anywhere_change_nothing() {
    let plain = "domain: a.example\nlocation: here:1\nAllowSSL: false\n";
    let noisy = "# head\ndomain: a.example\nssl: true\n\nDomain: x\nlocation: here:1\ndomain:y\nAllowSSL: false\n";
    assert_eq!(parse_config(plain), parse_config(noisy));
    assert_eq!(parse_config(noisy).unwrap().0, "a.example");
}

fn entry(name: &str, is_file: bool, content: Option<&str>) -> ConfigFile {
    ConfigFile { name: name.to_string(), is_file, content: content.map(|c| c.to_string()) }
}

#[test]
fn configuration_directory_is_loaded_in_order() {
    let files = vec![
        entry("b.conf", true, Some("domain: b\nlocation: l:2\n")),
        entry("notes.txt", true, Some("domain: n\nlocation: l:9\n")),
        entry("dir.conf", false, None),
        entry("broken.conf", true, Some("domain: x\n")),
        entry("locked.conf", true, None),
        entry("a.conf", true, Some("domain: a\nlocation: l:1\nAllowSSL: yes\n")),
        entry("c.conf", true, Some("location: l:3\ndomain: c\nAllowHTTP: false\n")),
    ];
    let (configs, outcomes) = load_configs(&files);
    assert_eq!(configs.len(), 2);
    assert_eq!(configs[0].domain, "b");
    assert_eq!(configs[0].location, "l:2");
    assert_eq!(configs[1].domain, "c");
    assert!(!configs[1].allow_http);
    assert_eq!(outcomes.len(), 7);
    assert!(matches!(outcomes[0], ConfigFileOutcome::Loaded));
    assert!(matches!(outcomes[1], ConfigFileOutcome::Skipped));
    assert!(matches!(outcomes[2], ConfigFileOutcome::Skipped));
    assert!(matches!(outcomes[3], ConfigFileOutcome::Rejected("Missing required domain or location information")));
    assert!(matches!(outcomes[4], ConfigFileOutcome::Unreadable));
    assert!(matches!(outcomes[5], ConfigFileOutcome::Rejected("Invalid value for AllowSSL")));
    assert!(matches!(outcomes[6], ConfigFileOutcome::Loaded));
}
