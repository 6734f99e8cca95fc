//! Decisions of the forwarding proxy: which domain a request is for, whether
//! its protocol is allowed, and what is logged of it.

use vstd::prelude::*;
use crate::config::Config;
use crate::request::{
    first_line_word, first_line_word_exec, first_line_with_prefix, first_with_prefix,
    lossy_text_exec, lossy_utf8,
};
use crate::text::{
    append_str, chars_eq, chars_of, contains, find_chars, lines, lines_of, nth, nth_word,
    slice_of, starts_with, starts_with_exec, string_of, views, words,
};

verus! {

/// Some domain accepts plain HTTP.
pub open spec fn http_allowed(cs: Seq<Config>) -> bool {
    exists|i: int| 0 <= i < cs.len() && #[trigger] cs[i].allow_http
}

/// Some domain accepts TLS.
pub open spec fn tls_allowed(cs: Seq<Config>) -> bool {
    exists|i: int| 0 <= i < cs.len() && #[trigger] cs[i].allow_ssl
}

/// The header line that names `domain` as the host.
pub open spec fn host_line(domain: Seq<char>) -> Seq<char> {
    "Host: "@ + domain
}

/// The first domain, from index `i` on, whose host line occurs in `text`.
pub open spec fn host_match_from(cs: Seq<Config>, text: Seq<char>, i: int) -> Option<int>
    decreases cs.len() - i,
{
    if i < 0 || i >= cs.len() {
        None
    } else if contains(text, host_line(cs[i].domain@)) {
        Some(i)
    } else {
        host_match_from(cs, text, i + 1)
    }
}

/// The target of the first `GET` or `POST` line that has one, or empty.
pub open spec fn request_target(ls: Seq<Seq<char>>) -> Seq<char>
    decreases ls.len(),
{
    if ls.len() == 0 {
        Seq::empty()
    } else if (starts_with(ls[0], "GET"@) || starts_with(ls[0], "POST"@)) && nth(words(ls[0]), 1) is Some {
        nth(words(ls[0]), 1)->0
    } else {
        request_target(ls.drop_first())
    }
}

/// What the HTTP listener does with a request.
pub enum HttpPlan {
    /// No domain accepts plain HTTP: drop the request.
    Refuse,
    /// Forward to the domain `configs[config]`, logging `path`.
    Forward { config: usize, path: String },
    /// No domain matches: serve the default page.
    ServeDefault,
}

/// `r` is what the HTTP listener does with the request bytes `request`:
/// dropped when no domain accepts HTTP, else forwarded to the first domain
/// whose host line occurs in it, logging its target, else the default page.
pub open spec fn http_plan_matches(cs: Seq<Config>, request: Seq<u8>, r: HttpPlan) -> bool {
    let text = lossy_utf8(request);
    match r {
        HttpPlan::Refuse => !http_allowed(cs),
        HttpPlan::Forward { config, path } => http_allowed(cs) && host_match_from(cs, text, 0)
            == Some(config as int) && path@ == request_target(lines(text)),
        HttpPlan::ServeDefault => http_allowed(cs) && host_match_from(cs, text, 0) is None,
    }
}

/// Decides what the HTTP listener does with the request `request`: drop it
/// when no domain accepts HTTP, else forward it to the first domain whose
/// `Host: domain` line it holds, else serve the default page.
pub fn plan_http_request(configs: &Vec<Config>, request: &[u8]) -> (r: HttpPlan)
    ensures
        http_plan_matches(configs@, request@, r),
{
    let mut k: usize = 0;
    let mut allowed = false;
    while k < configs.len()
        invariant
            0 <= k <= configs@.len(),
            allowed <==> exists|j: int| 0 <= j < k && #[trigger] configs@[j].allow_http,
        decreases configs@.len() - k,
    {
        if configs[k].allow_http {
            allowed = true;
        }
        k = k + 1;
    }
    if !allowed {
        return HttpPlan::Refuse;
    }
    let text = lossy_text_exec(request);
    let cs = chars_of(text.as_str());
    let mut i: usize = 0;
    while i < configs.len()
        invariant
            0 <= i <= configs@.len(),
            cs@ == lossy_utf8(request@),
            http_allowed(configs@),
            host_match_from(configs@, cs@, 0) == host_match_from(configs@, cs@, i as int),
        decreases configs@.len() - i,
    {
        let mut pattern = String::new();
        append_str(&mut pattern, "Host: ");
        append_str(&mut pattern, configs[i].domain.as_str());
        let p = chars_of(pattern.as_str());
        if find_chars(cs.as_slice(), p.as_slice()).is_some() {
            let path = target_of_lines(&cs);
            return HttpPlan::Forward { config: i, path };
        }
        i = i + 1;
    }
    HttpPlan::ServeDefault
}

/// The target of the first `GET` or `POST` line of `text` that has one.
fn target_of_lines(text: &Vec<char>) -> (r: String)
    ensures
        r@ == request_target(lines(text@)),
{
    let ls = lines_of(text);
    let ghost all = views(ls@);
    let get = chars_of("GET");
    let post = chars_of("POST");
    let mut i: usize = 0;
    assert(all.subrange(0, all.len() as int) =~= all);
    while i < ls.len()
        invariant
            0 <= i <= ls@.len(),
            all == views(ls@),
            all == lines(text@),
            get@ == "GET"@,
            post@ == "POST"@,
            request_target(all) == request_target(all.subrange(i as int, all.len() as int)),
        decreases ls@.len() - i,
    {
        let ghost rest = all.subrange(i as int, all.len() as int);
        assert(rest[0] == ls@[i as int]@);
        assert(rest.drop_first() =~= all.subrange(i + 1, all.len() as int));
        if starts_with_exec(&ls[i], &get) || starts_with_exec(&ls[i], &post) {
            match nth_word(&ls[i], 1) {
                Some(w) => {
                    return string_of(&w);
                },
                None => {},
            }
        }
        i = i + 1;
    }
    String::new()
}

/// The host that a request names: the first word after the colon of its
/// first `Host:` line.
pub open spec fn host_header(text: Seq<char>) -> Option<Seq<char>> {
    match first_with_prefix(lines(text), "Host:"@) {
        Some(l) => nth(words(l.subrange(5, l.len() as int)), 0),
        None => None,
    }
}

/// The first domain, from index `i` on, named `host`.
pub open spec fn domain_match_from(cs: Seq<Config>, host: Seq<char>, i: int) -> Option<int>
    decreases cs.len() - i,
{
    if i < 0 || i >= cs.len() {
        None
    } else if cs[i].domain@ == host {
        Some(i)
    } else {
        domain_match_from(cs, host, i + 1)
    }
}

/// The domain a TLS request is for.
pub open spec fn tls_domain(cs: Seq<Config>, text: Seq<char>) -> Option<int> {
    match host_header(text) {
        Some(h) => domain_match_from(cs, h, 0),
        None => None,
    }
}

/// What the TLS listener does with a request.
pub enum TlsPlan {
    /// No domain accepts TLS: drop the request.
    Refuse,
    /// Forward to `configs[config]`, logging `path`; `target` is the
    /// request's target as reported.
    Forward { config: usize, path: String, target: String },
    /// No domain matches: serve the default page.
    ServeDefault,
}

/// The logged path of a TLS request: the second word of its first line.
pub open spec fn tls_path(text: Seq<char>) -> Seq<char> {
    match first_line_word(text, 1) {
        Some(p) => p,
        None => Seq::empty(),
    }
}

/// The reported target of a TLS request: its second word, or `/`.
pub open spec fn tls_target(text: Seq<char>) -> Seq<char> {
    match nth(words(text), 1) {
        Some(p) => p,
        None => "/"@,
    }
}

/// `r` is what the TLS listener does with the decrypted request bytes
/// `request`: dropped when no domain accepts TLS, else forwarded to the
/// first domain its `Host:` header names, else the default page.
pub open spec fn tls_plan_matches(cs: Seq<Config>, request: Seq<u8>, r: TlsPlan) -> bool {
    let text = lossy_utf8(request);
    match r {
        TlsPlan::Refuse => !tls_allowed(cs),
        TlsPlan::Forward { config, path, target } => tls_allowed(cs) && tls_domain(cs, text) == Some(
            config as int,
        ) && path@ == tls_path(text) && target@ == tls_target(text),
        TlsPlan::ServeDefault => tls_allowed(cs) && tls_domain(cs, text) is None,
    }
}

/// Decides what the TLS listener does with the decrypted request `request`:
/// drop it when no domain accepts TLS, else forward it to the domain its
/// `Host:` header names, else serve the default page.
pub fn plan_tls_request(configs: &Vec<Config>, request: &[u8]) -> (r: TlsPlan)
    ensures
        tls_plan_matches(configs@, request@, r),
{
    let text = lossy_text_exec(request);
    let cs = chars_of(text.as_str());
    let mut k: usize = 0;
    let mut allowed = false;
    while k < configs.len()
        invariant
            0 <= k <= configs@.len(),
            allowed <==> exists|j: int| 0 <= j < k && #[trigger] configs@[j].allow_ssl,
        decreases configs@.len() - k,
    {
        if configs[k].allow_ssl {
            allowed = true;
        }
        k = k + 1;
    }
    if !allowed {
        return TlsPlan::Refuse;
    }
    let host = match first_line_with_prefix(&cs, "Host:") {
        Some(l) => {
            proof {
                reveal_strlit("Host:");
                crate::request::lemma_first_with_prefix_starts(lines(cs@), "Host:"@);
            }
            let rest = slice_of(&l, 5, l.len());
            nth_word(&rest, 0)
        },
        None => None,
    };
    let host = match host {
        Some(h) => h,
        None => return TlsPlan::ServeDefault,
    };
    let mut i: usize = 0;
    while i < configs.len()
        invariant
            0 <= i <= configs@.len(),
            tls_allowed(configs@),
            host_header(cs@) == Some(host@),
            cs@ == lossy_utf8(request@),
            domain_match_from(configs@, host@, 0) == domain_match_from(configs@, host@, i as int),
        decreases configs@.len() - i,
    {
        if chars_eq(&chars_of(configs[i].domain.as_str()), &host) {
            let path = match first_line_word_exec(&cs, 1) {
                Some(p) => string_of(&p),
                None => String::new(),
            };
            let target = match nth_word(&cs, 1) {
                Some(t) => string_of(&t),
                None => crate::colors::owned("/"),
            };
            return TlsPlan::Forward { config: i, path, target };
        }
        i = i + 1;
    }
    TlsPlan::ServeDefault
}

/// Where the search for a domain by host line stops: at the first domain,
/// from `i` on, whose host line occurs in `text`.
proof fn lemma_host_match_from(cs: Seq<Config>, text: Seq<char>, i: int)
    requires
        0 <= i <= cs.len(),
    ensures
        match host_match_from(cs, text, i) {
            Some(k) => i <= k < cs.len() && contains(text, "Host: "@ + cs[k].domain@) && forall|j: int|
                i <= j < k ==> !#[trigger] contains(text, "Host: "@ + cs[j].domain@),
            None => forall|j: int| i <= j < cs.len() ==> !#[trigger] contains(text, "Host: "@ + cs[j].domain@),
        },
    decreases cs.len() - i,
{
    if i < cs.len() {
        lemma_host_match_from(cs, text, i + 1);
    }
}

/// Where the search for a domain by name stops: at the first domain, from
/// `i` on, named `host`.
proof fn lemma_domain_match_from(cs: Seq<Config>, host: Seq<char>, i: int)
    requires
        0 <= i <= cs.len(),
    ensures
        match domain_match_from(cs, host, i) {
            Some(k) => i <= k < cs.len() && cs[k].domain@ == host && forall|j: int|
                i <= j < k ==> #[trigger] cs[j].domain@ != host,
            None => forall|j: int| i <= j < cs.len() ==> #[trigger] cs[j].domain@ != host,
        },
    decreases cs.len() - i,
{
    if i < cs.len() {
        lemma_domain_match_from(cs, host, i + 1);
    }
}

/// A plain HTTP request is dropped exactly when no configured domain accepts
/// plain HTTP: one domain that does is enough, wherever it stands.
pub proof fn law_http_refused_iff_no_http_domain(cs: Seq<Config>, request: Seq<u8>, r: HttpPlan)
    requires
        http_plan_matches(cs, request, r),
    ensures
        (r is Refuse) <==> (forall|i: int| 0 <= i < cs.len() ==> !#[trigger] cs[i].allow_http),
{
}

/// A plain HTTP request that is not dropped goes to the first domain whose
/// `Host: <domain>` text occurs in it, and to the default page only when no
/// domain's does.
pub proof fn law_http_forwards_to_first_named_domain(cs: Seq<Config>, request: Seq<u8>, r: HttpPlan)
    requires
        http_plan_matches(cs, request, r),
    ensures
        ({
            let text = lossy_utf8(request);
            &&& r matches HttpPlan::Forward { config, .. } ==> config < cs.len() && contains(
                text,
                "Host: "@ + cs[config as int].domain@,
            ) && forall|j: int|
                0 <= j < config ==> !#[trigger] contains(text, "Host: "@ + cs[j].domain@)
            &&& r is ServeDefault ==> forall|j: int|
                0 <= j < cs.len() ==> !#[trigger] contains(text, "Host: "@ + cs[j].domain@)
            &&& (exists|i: int| 0 <= i < cs.len() && #[trigger] cs[i].allow_http) && (exists|j: int|
                0 <= j < cs.len() && #[trigger] contains(text, "Host: "@ + cs[j].domain@))
                ==> r is Forward
        }),
{
    lemma_host_match_from(cs, lossy_utf8(request), 0);
}

/// A TLS request is dropped exactly when no configured domain accepts TLS:
/// one domain that does is enough, wherever it stands.
pub proof fn law_tls_refused_iff_no_tls_domain(cs: Seq<Config>, request: Seq<u8>, r: TlsPlan)
    requires
        tls_plan_matches(cs, request, r),
    ensures
        (r is Refuse) <==> (forall|i: int| 0 <= i < cs.len() ==> !#[trigger] cs[i].allow_ssl),
{
}

/// A TLS request that is not dropped goes to the first domain that its
/// `Host:` header names, and to the default page only when it names none; a
/// request naming a domain that accepts TLS is always forwarded.
pub proof fn law_tls_forwards_to_named_domain(cs: Seq<Config>, request: Seq<u8>, r: TlsPlan)
    requires
        tls_plan_matches(cs, request, r),
    ensures
        ({
            let host = host_header(lossy_utf8(request));
            &&& r matches TlsPlan::Forward { config, .. } ==> config < cs.len() && host == Some(
                cs[config as int].domain@,
            ) && forall|j: int| 0 <= j < config ==> host != Some(#[trigger] cs[j].domain@)
            &&& r is ServeDefault ==> forall|j: int| 0 <= j < cs.len() ==> host != Some(#[trigger] cs[j].domain@)
            &&& (exists|k: int| 0 <= k < cs.len() && #[trigger] cs[k].allow_ssl && host == Some(cs[k].domain@))
                ==> r is Forward
        }),
{
    let text = lossy_utf8(request);
    match host_header(text) {
        Some(h) => lemma_domain_match_from(cs, h, 0),
        None => {},
    }
}

/// The answer when no domain matches: the default page when it could be
/// read, else a not-found page.
pub open spec fn default_page_text(contents: Option<Seq<char>>) -> Seq<char> {
    match contents {
        Some(c) => "HTTP/1.1 200 OK\r\nContent-Type: text/html\r\n\r\n"@ + c,
        None => "HTTP/1.1 404 NOT FOUND\r\nContent-Type: text/html\r\n\r\n<html><head><title>Not Found</title></head><body><h1>404 - File Not Found</h1></body></html>"@,
    }
}

/// Builds the answer when no domain matches, from the default page's
/// contents if it could be read.
pub fn default_page_response(contents: Option<String>) -> (r: String)
    ensures
        r@ == default_page_text(crate::config::opt_text(contents)),
{
    match contents {
        Some(c) => {
            let mut r = String::new();
            append_str(&mut r, "HTTP/1.1 200 OK\r\nContent-Type: text/html\r\n\r\n");
            append_str(&mut r, c.as_str());
            r
        },
        None => crate::colors::owned(
            "HTTP/1.1 404 NOT FOUND\r\nContent-Type: text/html\r\n\r\n<html><head><title>Not Found</title></head><body><h1>404 - File Not Found</h1></body></html>",
        ),
    }
}

/// Dashboard access is offered only when both credentials are set and not
/// empty.
pub fn dashboard_enabled(user: Option<&str>, password: Option<&str>) -> (r: bool)
    ensures
        r == (match (user, password) {
            (Some(u), Some(p)) => u@.len() > 0 && p@.len() > 0,
            _ => false,
        }),
{
    match (user, password) {
        (Some(u), Some(p)) => !u.is_empty() && !p.is_empty(),
        _ => false,
    }
}

} // verus!
