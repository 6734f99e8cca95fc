use frostlink::api::{
    handle_api_request, login_body_readable_check, login_credentials, login_response,
    start_session,
};
use frostlink::config::Config;
use frostlink::dashboard::{
    cache_file_response, cache_get, css_file_path, css_response, not_found_response, plan_page,
    redirect_response, route_request, session_cookie_exec, DashboardRoute, PagePlan,
};
use frostlink::keyed::StringMap;

fn padded(text: &str) -> Vec<u8> {
    let mut b = text.as_bytes().to_vec();
    b.resize(1024, 0);
    b
}

fn config(domain: &str, location: &str) -> Config {
    Config {
        domain: domain.to_string(),
        location: location.to_string(),
        allow_ssl: false,
        allow_http: true,
        ssl_certificate: None,
        ssl_certificate_key: None,
    }
}

#[test]
fn api_paths_are_routed_to_the_api() {
    match route_request(&padded("POST /api/login HTTP/1.1\r\nHost: x\r\n\r\n")) {
        DashboardRoute::Api(p) => assert_eq!(p, "/api/login"),
        _ => panic!("expected api"),
    }
    match route_request(&padded("GET /index?x=1 HTTP/1.1\r\n\r\n")) {
        DashboardRoute::Page(p) => assert_eq!(p, "/index?x=1"),
        _ => panic!("expected page"),
    }
    match route_request(&[0xff, 0xfe]) {
        DashboardRoute::Page(p) => assert_eq!(p, ""),
        _ => panic!("expected page"),
    }
}

#[test]
fn public_pages_need_no_session() {
    let sessions: StringMap<String> = StringMap::new();
    match plan_page("/", &padded("GET / HTTP/1.1\r\n\r\n"), &sessions) {
        PagePlan::Serve { file, css_fallback } => {
            assert_eq!(file, "./default/login.html");
            assert!(!css_fallback);
        }
        _ => panic!("expected serve"),
    }
    match plan_page("/styles/main.css?v=2", &padded(""), &sessions) {
        PagePlan::Serve { file, css_fallback } => {
            assert_eq!(file, "./default/styles/main.css.html");
            assert!(css_fallback);
        }
        _ => panic!("expected serve"),
    }
    match plan_page("/login", &padded(""), &sessions) {
        PagePlan::Serve { file, .. } => assert_eq!(file, "./default/login.html"),
        _ => panic!("expected serve"),
    }
}

#[test]
fn protected_page_without_session_redirects() {
    let sessions: StringMap<String> = StringMap::new();
    assert!(matches!(
        plan_page("/dashboard", &padded("GET /dashboard HTTP/1.1\r\n\r\n"), &sessions),
        PagePlan::Redirect
    ));
    let request = padded("GET /dashboard HTTP/1.1\r\nCookie: session=unknown\r\n\r\n");
    assert!(matches!(plan_page("/dashboard", &request, &sessions), PagePlan::Redirect));
    assert_eq!(redirect_response(), "HTTP/1.1 302 Found\r\nLocation: /\r\n\r\n");
}

#[test]
fn protected_page_with_open_session_is_served() {
    let mut sessions: StringMap<String> = StringMap::new();
    sessions.insert("abc".to_string(), "admin".to_string());
    let request = padded("GET /dashboard HTTP/1.1\r\nCookie: theme=dark;session=abc\r\n\r\n");
    match plan_page("/dashboard", &request, &sessions) {
        PagePlan::Serve { file, css_fallback } => {
            assert_eq!(file, "./default/dashboard.html");
            assert!(!css_fallback);
        }
        _ => panic!("expected serve"),
    }
}

#[test]
fn session_cookie_reading() {
    assert_eq!(
        session_cookie_exec(b"GET / HTTP/1.1\r\nCookie: a=1;session=xyz;b\r\n"),
        Some("xyz".to_string())
    );
    // whitespace ends the header's second word
    assert_eq!(
        session_cookie_exec(b"Cookie: a=1;session= xyz\r\n"),
        Some("".to_string())
    );
    // only the second word of the line is read
    assert_eq!(session_cookie_exec(b"Cookie: a=1; session=xyz\r\n"), None);
    // a later cookie of the same name wins
    assert_eq!(
        session_cookie_exec(b"Cookie: session=1;session=2\r\n"),
        Some("2".to_string())
    );
    // only the first Cookie line counts
    assert_eq!(session_cookie_exec(b"Cookie: x=1\r\nCookie: session=2\r\n"), None);
}

#[test]
fn cached_page_response_is_stored() {
    let mut cache: StringMap<String> = StringMap::new();
    let r = cache_file_response(&mut cache, "./default/a.html", "h\u{e9}llo");
    assert_eq!(r, "HTTP/1.1 200 OK\r\nContent-Length: 6\r\n\r\nh\u{e9}llo");
    assert_eq!(cache.get("./default/a.html"), Some(&r));
    assert_eq!(cache.len(), 1);
    assert_eq!(not_found_response(None), "HTTP/1.1 404 NOT FOUND\r\n\r\n");
    assert_eq!(not_found_response(Some("page".to_string())), "page");
}

#[test]
fn css_requests() {
    assert_eq!(
        css_file_path(&padded("GET /styles/site.css HTTP/1.1\r\n\r\n")),
        "./default/styles/site.css"
    );
    assert_eq!(css_file_path(b"GET"), "");
    assert_eq!(
        css_response(Some("a{}".to_string())),
        "HTTP/1.1 200 OK\r\nContent-Type: text/css\r\nContent-Length: 3\r\n\r\na{}"
    );
    assert_eq!(css_response(None), "HTTP/1.1 404 NOT FOUND\r\n\r\n");
}

fn login_request(body: &str) -> Vec<u8> {
    padded(&format!(
        "POST /api/login HTTP/1.1\r\nContent-Length: {}\r\n\r\n{}",
        body.len(),
        body
    ))
}

#[test]
fn login_reads_credentials_from_the_body() {
    let req = login_request("{\"username\":\"admin\",\"password\":\"pw\"}");
    let (u, p) = login_credentials(&req);
    assert_eq!(u, "admin");
    assert_eq!(p, "pw");
    let req = login_request("not json");
    let (u, p) = login_credentials(&req);
    assert_eq!(u, "");
    assert_eq!(p, "");
}

#[test]
fn login_with_valid_credentials_opens_a_session() {
    let mut sessions: StringMap<String> = StringMap::new();
    let req = login_request("{\"username\":\"admin\",\"password\":\"pw\"}");
    let r = handle_api_request(&vec![], "/api/login", &req, "admin", "pw", &mut sessions);
    let prefix = "HTTP/1.1 200 OK\r\nContent-Type: application/json\r\n\r\n{\"session_id\":\"";
    assert!(r.starts_with(prefix));
    assert!(r.ends_with("\",\"valid\":true}"));
    let id = &r[prefix.len()..prefix.len() + 36];
    for (i, c) in id.chars().enumerate() {
        if i == 8 || i == 13 || i == 18 || i == 23 {
            assert_eq!(c, '-');
        } else {
            assert!(c.is_ascii_digit() || ('a'..='f').contains(&c));
        }
    }
    assert_eq!(&id[14..15], "4");
    assert!(["8", "9", "a", "b"].contains(&&id[19..20]));
    assert_eq!(sessions.get(id), Some(&"admin".to_string()));
    assert_eq!(sessions.len(), 1);
    // the issued session opens protected pages
    let page = padded(&format!("GET /dashboard HTTP/1.1\r\nCookie: session={}\r\n\r\n", id));
    assert!(matches!(plan_page("/dashboard", &page, &sessions), PagePlan::Serve { .. }));
}

#[test]
fn login_with_wrong_credentials_is_refused() {
    let mut sessions: StringMap<String> = StringMap::new();
    let req = login_request("{\"username\":\"admin\",\"password\":\"nope\"}");
    let r = handle_api_request(&vec![], "/api/login", &req, "admin", "pw", &mut sessions);
    assert_eq!(
        r,
        "HTTP/1.1 200 OK\r\nContent-Type: application/json\r\n\r\n{\"valid\":false}"
    );
    assert_eq!(sessions.len(), 0);
}

#[test]
fn login_response_texts() {
    assert_eq!(
        login_response(Some("a\"b")),
        "HTTP/1.1 200 OK\r\nContent-Type: application/json\r\n\r\n{\"session_id\":\"a\\\"b\",\"valid\":true}"
    );
}

#[test]
fn proxies_are_listed_as_json() {
    let mut sessions: StringMap<String> = StringMap::new();
    let mut second = config("b.org", "localhost:2");
    second.allow_ssl = true;
    second.ssl_certificate = Some("c.pem".to_string());
    second.ssl_certificate_key = Some("k.pem".to_string());
    let configs = vec![config("a.com", "localhost:1"), second];
    let r = handle_api_request(&configs, "/api/proxys", b"", "", "", &mut sessions);
    assert_eq!(
        r,
        "HTTP/1.1 200 OK\r\nContent-Type: application/json\r\n\r\n{\"configs\":[\
{\"HTTP\":true,\"SSL\":false,\"domain\":\"a.com\",\"host\":\"localhost:1\",\"privkey\":null,\"pubkey\":null},\
{\"HTTP\":true,\"SSL\":true,\"domain\":\"b.org\",\"host\":\"localhost:2\",\"privkey\":\"k.pem\",\"pubkey\":\"c.pem\"}]}"
    );
    let r = handle_api_request(&vec![], "/api/proxys", b"", "", "", &mut sessions);
    assert_eq!(r, "HTTP/1.1 200 OK\r\nContent-Type: application/json\r\n\r\n{\"configs\":[]}");
}

#[test]
fn unknown_api_path_is_not_found() {
    let mut sessions: StringMap<String> = StringMap::new();
    let r = handle_api_request(&vec![], "/api/other", b"", "", "", &mut sessions);
    assert_eq!(r, "HTTP/1.1 404 NOT FOUND\r\n\r\n");
}

#[test]
fn login_body_bounds_are_checked() {
    assert!(login_body_readable_check(&login_request("{}")));
    // the declared length runs past the text
    let short = b"POST /api/login HTTP/1.1\r\nContent-Length: 10\r\n\r\n{}";
    assert!(!login_body_readable_check(short));
    // no blank line and no length: the body is text[4..4]
    assert!(login_body_readable_check(b"GET /api/login"));
    // invalid UTF-8 leaves no text at all
    assert!(!login_body_readable_check(&[0xff, 0, 0, 0, 0, 0]));
    // the body would start inside a multi-byte character
    assert!(!login_body_readable_check("a\u{e9}\u{e9}".as_bytes()));
    assert!(login_body_readable_check("\u{e9}\u{e9}\u{e9}".as_bytes()));
    // a length that does not parse counts as zero
    assert!(login_body_readable_check(b"Content-Length: x\r\n\r\n"));
    let (u, p) = login_credentials(b"Content-Length: +2\r\n\r\n{}");
    assert_eq!((u.as_str(), p.as_str()), ("", ""));
}

#[test]
fn start_session_stores_the_given_id() {
    let mut sessions: StringMap<String> = StringMap::new();
    sessions.insert("old".to_string(), "someone".to_string());
    let r = start_session(&mut sessions, "0123abcd-0000-4000-8000-000000000000".to_string(), "admin".to_string());
    assert_eq!(
        r,
        "HTTP/1.1 200 OK\r\nContent-Type: application/json\r\n\r\n{\"session_id\":\"0123abcd-0000-4000-8000-000000000000\",\"valid\":true}"
    );
    assert_eq!(sessions.len(), 2);
    assert_eq!(sessions.get("0123abcd-0000-4000-8000-000000000000"), Some(&"admin".to_string()));
    assert_eq!(sessions.get("old"), Some(&"someone".to_string()));
}

#[test]
fn cache_lookup_fills_once_and_repeats() {
    let mut cache: StringMap<String> = StringMap::new();
    assert_eq!(cache_get(&mut cache, "./default/a.html", None), None);
    assert_eq!(cache.len(), 0);
    let first = cache_get(&mut cache, "./default/a.html", Some("hi".to_string()));
    assert_eq!(first, Some("HTTP/1.1 200 OK\r\nContent-Length: 2\r\n\r\nhi".to_string()));
    let second = cache_get(&mut cache, "./default/a.html", Some("changed".to_string()));
    assert_eq!(second, first);
    let third = cache_get(&mut cache, "./default/a.html", None);
    assert_eq!(third, first);
    assert_eq!(cache.len(), 1);
}

#[test]
fn json_strings_are_escaped() {
    assert_eq!(
        login_response(Some("a\u{1}\n\t\\/é")),
        "HTTP/1.1 200 OK\r\nContent-Type: application/json\r\n\r\n{\"session_id\":\"a\\u0001\\n\\t\\\\/é\",\"valid\":true}"
    );
}
