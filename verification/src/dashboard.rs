//! Decisions of the dashboard: routing, page access, cached pages and style
//! sheets.

use vstd::prelude::*;
use crate::api::is_uuid_text;
use crate::config::opt_text;
use crate::keyed::StringMap;
use cookie::CookieJar;
use crate::request::{
    first_line_word, first_line_word_exec, first_line_with_prefix, first_with_prefix,
    lossy_text_exec, lossy_utf8, ok_response, ok_response_exec, strict_text, strict_text_exec,
};
use crate::text::{
    append_str, before_first, before_first_exec, chars_eq, chars_of, find, lines, nth, nth_word, occurs_at,
    slice_of, split_of, split_on, starts_with, starts_with_exec, string_of, trim, trimmed, views,
    words,
};

verus! {

/// The outside cookie jar type.
#[verifier::external_type_specification]
#[verifier::external_body]
pub struct ExCookieJar(CookieJar);

/// The cookies a jar holds, by name.
pub uninterp spec fn jar_cookies(jar: CookieJar) -> Map<Seq<char>, Seq<char>>;

/// `CookieJar::new`: an empty jar.
#[verifier::external_body]
fn jar_new() -> (r: CookieJar)
    ensures
        jar_cookies(r).dom().is_empty(),
{
    CookieJar::new()
}

/// `CookieJar::add` of the cookie `name=value`: it replaces any cookie of
/// that name.
#[verifier::external_body]
fn jar_add(jar: &mut CookieJar, name: String, value: String)
    ensures
        jar_cookies(*final(jar)) == jar_cookies(*old(jar)).insert(name@, value@),
{
    jar.add((name, value));
}

/// `CookieJar::get(name)`, as the cookie's value.
#[verifier::external_body]
fn jar_get_value(jar: &CookieJar, name: &str) -> (r: Option<String>)
    ensures
        r is Some <==> jar_cookies(*jar).dom().contains(name@),
        r matches Some(v) ==> v@ == jar_cookies(*jar)[name@],
{
    jar.get(name).map(|c| c.value().to_string())
}

/// The name and value that `Cookie::parse` reads from `s` when `s` holds no
/// `;`: the text around the first `=`, each trimmed, when the name is not
/// empty.
pub open spec fn cookie_pair(s: Seq<char>) -> Option<(Seq<char>, Seq<char>)> {
    match find(s, seq!['=']) {
        Some(i) => {
            let name = trim(s.subrange(0, i));
            let value = trim(s.subrange(i + 1, s.len() as int));
            if name.len() == 0 {
                None
            } else {
                Some((name, value))
            }
        },
        None => None,
    }
}

/// `Cookie::parse(s)`, as its name and value.
///
/// The attributes after the first `;` set fields that are not returned and
/// never make parsing fail, so the pair is that of the text before the `;`.
#[verifier::external_body]
fn cookie_parse(s: String) -> (r: Option<(String, String)>)
    ensures
        match cookie_pair(before_first(s@, ';')) {
            Some(p) => r matches Some(q) && q.0@ == p.0 && q.1@ == p.1,
            None => r is None,
        },
{
    match cookie::Cookie::parse(s) {
        Ok(c) => Some((c.name().to_string(), c.value().to_string())),
        Err(_) => None,
    }
}

/// The cookies named in the pieces of a `Cookie` header, a later cookie of a
/// name replacing an earlier one; pieces that are not cookies are skipped.
pub open spec fn cookies_of(pieces: Seq<Seq<char>>) -> Map<Seq<char>, Seq<char>>
    decreases pieces.len(),
{
    if pieces.len() == 0 {
        Map::empty()
    } else {
        let earlier = cookies_of(pieces.drop_last());
        match cookie_pair(before_first(trim(pieces.last()), ';')) {
            Some(p) => earlier.insert(p.0, p.1),
            None => earlier,
        }
    }
}

/// The value of the `session` cookie of a request's text: the second word
/// of its first `Cookie:` line, read as `;`-separated cookies.
pub open spec fn session_cookie(text: Seq<char>) -> Option<Seq<char>> {
    match first_with_prefix(lines(text), "Cookie:"@) {
        Some(line) => match nth(words(line), 1) {
            Some(header) => {
                let jar = cookies_of(split_on(header, ';'));
                if jar.dom().contains("session"@) {
                    Some(jar["session"@])
                } else {
                    None
                }
            },
            None => None,
        },
        None => None,
    }
}

/// The session named by the `session` cookie of a request.
pub fn session_cookie_exec(buffer: &[u8]) -> (r: Option<String>)
    ensures
        match session_cookie(lossy_utf8(buffer@)) {
            Some(v) => r matches Some(s) && s@ == v,
            None => r is None,
        },
{
    let text = lossy_text_exec(buffer);
    let cs = chars_of(text.as_str());
    let line = match first_line_with_prefix(&cs, "Cookie:") {
        Some(l) => l,
        None => return None,
    };
    let header = match nth_word(&line, 1) {
        Some(h) => h,
        None => return None,
    };
    let pieces = split_of(&header, ';');
    let ghost all = views(pieces@);
    let mut jar = jar_new();
    let mut i: usize = 0;
    while i < pieces.len()
        invariant
            0 <= i <= pieces@.len(),
            all == views(pieces@),
            jar_cookies(jar) == cookies_of(all.take(i as int)),
        decreases pieces@.len() - i,
    {
        proof {
            assert(all.take(i + 1).drop_last() =~= all.take(i as int));
            assert(all.take(i + 1).last() == pieces@[i as int]@);
        }
        let piece = trimmed(&pieces[i]);
        match cookie_parse(string_of(&piece)) {
            Some((name, value)) => {
                jar_add(&mut jar, name, value);
            },
            None => {},
        }
        i = i + 1;
    }
    assert(all.take(pieces@.len() as int) =~= all);
    jar_get_value(&jar, "session")
}

/// Where a dashboard request goes.
pub enum DashboardRoute {
    /// To the JSON interface, with the request path.
    Api(String),
    /// To the page server, with the request path.
    Page(String),
}

/// The path of a dashboard request: the second word of its first line, or
/// empty.
pub open spec fn dashboard_path(buffer: Seq<u8>) -> Seq<char> {
    match first_line_word(strict_text(buffer), 1) {
        Some(p) => p,
        None => Seq::empty(),
    }
}

/// Routes a dashboard request: paths under `/api/` go to the JSON interface,
/// all others to the page server.
pub fn route_request(buffer: &[u8]) -> (r: DashboardRoute)
    ensures
        match r {
            DashboardRoute::Api(p) => p@ == dashboard_path(buffer@) && starts_with(p@, "/api/"@),
            DashboardRoute::Page(p) => p@ == dashboard_path(buffer@) && !starts_with(p@, "/api/"@),
        },
{
    let text = strict_text_exec(buffer);
    let cs = chars_of(text.as_str());
    let path = match first_line_word_exec(&cs, 1) {
        Some(p) => p,
        None => Vec::new(),
    };
    let p = string_of(&path);
    if starts_with_exec(&path, &chars_of("/api/")) {
        DashboardRoute::Api(p)
    } else {
        DashboardRoute::Page(p)
    }
}

/// Pages served without a session: the login page and the style sheets.
pub open spec fn is_public_page(q: Seq<char>) -> bool {
    q == "/"@ || starts_with(q, "/styles/"@) || q == "/login"@
}

/// The file that holds the page at path `q`.
pub open spec fn page_file(q: Seq<char>) -> Seq<char> {
    if q == "/"@ {
        "./default/login.html"@
    } else {
        "./default"@ + q + ".html"@
    }
}

/// What the page server does with a request.
pub enum PagePlan {
    /// Send the client to the login page.
    Redirect,
    /// Serve `file` from the cache; when it is missing, serve the style sheet
    /// named by the request if `css_fallback` holds, else the not-found page.
    Serve { file: String, css_fallback: bool },
}

/// The plan for a page request for `path`, given the request and the open
/// sessions: public pages are served, other pages only to a request whose
/// `session` cookie names an open session.
pub open spec fn page_plan(path: Seq<char>, buffer: Seq<u8>, sessions: Map<Seq<char>, String>) -> (
    bool,
    Seq<char>,
    bool,
) {
    let q = before_first(path, '?');
    if is_public_page(q) {
        (true, page_file(q), starts_with(q, "/styles/"@))
    } else {
        match session_cookie(lossy_utf8(buffer)) {
            Some(id) => if sessions.dom().contains(id) {
                (true, page_file(q), false)
            } else {
                (false, Seq::empty(), false)
            },
            None => (false, Seq::empty(), false),
        }
    }
}

/// A page that is served is served from the file named by its path without
/// the query: the part before the first `?`.
pub proof fn law_served_file_ignores_query(path: Seq<char>, buffer: Seq<u8>, sessions: Map<Seq<char>, String>)
    ensures
        page_plan(path, buffer, sessions).0 ==> page_plan(path, buffer, sessions).1 == page_file(
            before_first(path, '?'),
        ),
{
}

/// Two paths that agree before their first `?` are answered alike, whatever
/// the request and the sessions.
pub proof fn law_same_path_same_answer(
    p1: Seq<char>,
    p2: Seq<char>,
    buffer: Seq<u8>,
    sessions: Map<Seq<char>, String>,
)
    requires
        before_first(p1, '?') == before_first(p2, '?'),
    ensures
        page_plan(p1, buffer, sessions) == page_plan(p2, buffer, sessions),
{
}

/// A query string changes nothing: `p?query` is answered as `p` is.
pub proof fn law_query_string_ignored(
    p: Seq<char>,
    query: Seq<char>,
    buffer: Seq<u8>,
    sessions: Map<Seq<char>, String>,
)
    requires
        forall|j: int| 0 <= j < p.len() ==> p[j] != '?',
    ensures
        page_plan(p + seq!['?'] + query, buffer, sessions) == page_plan(p, buffer, sessions),
{
    let s = p + seq!['?'] + query;
    assert(s[p.len() as int] == '?');
    assert forall|j: int| 0 <= j < p.len() implies s[j] != '?' by {
        assert(s[j] == p[j]);
    }
    crate::text::lemma_first_piece(s, '?', 0, p.len() as int);
    assert(s.subrange(0, p.len() as int) =~= p);
    crate::text::lemma_split_without(p, '?', 0, 0);
    assert(p.subrange(0, p.len() as int) =~= p);
}

/// Decides how the page server answers a request for `request_path`.
pub fn plan_page(request_path: &str, buffer: &[u8], sessions: &StringMap<String>) -> (r: PagePlan)
    requires
        sessions.wf(),
    ensures
        ({
            let (serve, file, css) = page_plan(request_path@, buffer@, sessions@);
            match r {
                PagePlan::Redirect => !serve,
                PagePlan::Serve { file: f, css_fallback } => serve && f@ == file && css_fallback == css,
            }
        }),
{
    let path = chars_of(request_path);
    let q = before_first_exec(&path, '?');
    let styles = starts_with_exec(&q, &chars_of("/styles/"));
    let root = chars_eq(&q, &chars_of("/"));
    let public = root || styles || chars_eq(&q, &chars_of("/login"));
    if !public {
        match session_cookie_exec(buffer) {
            Some(id) => {
                if !sessions.contains_key(id.as_str()) {
                    return PagePlan::Redirect;
                }
            },
            None => {
                return PagePlan::Redirect;
            },
        }
    }
    let file = if root {
        let mut f = String::new();
        append_str(&mut f, "./default/login.html");
        f
    } else {
        let mut f = String::new();
        append_str(&mut f, "./default");
        append_str(&mut f, string_of(&q).as_str());
        append_str(&mut f, ".html");
        f
    };
    proof {
        if !root {
            assert(file@ =~= "./default"@ + q@ + ".html"@);
        } else {
            assert(file@ =~= "./default/login.html"@);
        }
    }
    PagePlan::Serve { file, css_fallback: styles }
}

/// The answer that sends a client to the login page.
pub open spec fn redirect_text() -> Seq<char> {
    "HTTP/1.1 302 Found\r\nLocation: /\r\n\r\n"@
}

/// The answer that sends a client to the login page.
pub fn redirect_response() -> (r: String)
    ensures
        r@ == redirect_text(),
{
    crate::colors::owned("HTTP/1.1 302 Found\r\nLocation: /\r\n\r\n")
}

/// The bare not-found answer of the page server.
pub open spec fn not_found_text() -> Seq<char> {
    "HTTP/1.1 404 NOT FOUND\r\n\r\n"@
}

/// The not-found answer: the cached not-found page if there is one, else a
/// bare status line.
pub fn not_found_response(cached_page: Option<String>) -> (r: String)
    ensures
        match cached_page {
            Some(p) => r == p,
            None => r@ == not_found_text(),
        },
{
    match cached_page {
        Some(p) => p,
        None => crate::colors::owned("HTTP/1.1 404 NOT FOUND\r\n\r\n"),
    }
}

/// The answer cached for a page file of `contents`.
pub open spec fn cached_page_text(contents: Seq<char>) -> Seq<char> {
    ok_response(None, contents)
}

/// Caches the answer for the file at `path`, which holds `contents`, and
/// returns it.
pub fn cache_file_response(cache: &mut StringMap<String>, path: &str, contents: &str) -> (r: String)
    requires
        old(cache).wf(),
    ensures
        final(cache).wf(),
        r@ == cached_page_text(contents@),
        final(cache)@ == old(cache)@.insert(path@, r),
{
    let response = ok_response_exec(None, contents);
    let key = crate::colors::owned(path);
    cache.insert(key, response.clone());
    response
}

/// What a cache lookup of `path` does: a cached answer is returned and
/// nothing changes; on a miss, `file` (the text of the file at `path`, when
/// it exists and was read) is cached as an answer and returned, and without
/// it there is no answer.
pub open spec fn cache_get_outcome(
    before: Map<Seq<char>, String>,
    path: Seq<char>,
    file: Option<Seq<char>>,
    after: Map<Seq<char>, String>,
    r: Option<String>,
) -> bool {
    if before.dom().contains(path) {
        after == before && r == Some(before[path])
    } else {
        match file {
            Some(c) => r matches Some(t) && t@ == cached_page_text(c) && after == before.insert(
                path,
                t,
            ),
            None => r is None && after == before,
        }
    }
}

/// The cached answer for the page file at `path`, filling the cache from
/// `file`, the file's text, when it holds none.
pub fn cache_get(cache: &mut StringMap<String>, path: &str, file: Option<String>) -> (r: Option<String>)
    requires
        old(cache).wf(),
    ensures
        final(cache).wf(),
        cache_get_outcome(old(cache)@, path@, opt_text(file), final(cache)@, r),
{
    match cache.get(path) {
        Some(t) => {
            return Some(t.clone());
        },
        None => {},
    }
    match file {
        Some(c) => Some(cache_file_response(cache, path, c.as_str())),
        None => None,
    }
}

/// A cached answer stays: once a lookup of `path` has answered `r1`, the next
/// lookup of `path` answers `r1` again and changes nothing, whatever the file
/// holds by then.
pub proof fn law_cached_answer_repeats(
    before: Map<Seq<char>, String>,
    path: Seq<char>,
    first_file: Option<Seq<char>>,
    middle: Map<Seq<char>, String>,
    r1: String,
    second_file: Option<Seq<char>>,
    after: Map<Seq<char>, String>,
    r2: Option<String>,
)
    requires
        cache_get_outcome(before, path, first_file, middle, Some(r1)),
        cache_get_outcome(middle, path, second_file, after, r2),
    ensures
        r2 == Some(r1),
        after == middle,
{
}

/// The style sheet file a request names: `./default` and the second word of
/// its first line, or no file.
pub open spec fn css_file(buffer: Seq<u8>) -> Seq<char> {
    match first_line_word(strict_text(buffer), 1) {
        Some(p) => "./default"@ + p,
        None => Seq::empty(),
    }
}

/// The path of the style sheet that a request names.
pub fn css_file_path(buffer: &[u8]) -> (r: String)
    ensures
        r@ == css_file(buffer@),
{
    let text = strict_text_exec(buffer);
    let cs = chars_of(text.as_str());
    match first_line_word_exec(&cs, 1) {
        Some(p) => {
            let mut f = String::new();
            append_str(&mut f, "./default");
            append_str(&mut f, string_of(&p).as_str());
            f
        },
        None => String::new(),
    }
}

/// The answer for a style sheet: its contents when the file exists, else a
/// bare not-found status line.
pub fn css_response(contents: Option<String>) -> (r: String)
    ensures
        match contents {
            Some(c) => r@ == ok_response(Some("text/css"@), c@),
            None => r@ == not_found_text(),
        },
{
    match contents {
        Some(c) => ok_response_exec(Some("text/css"), c.as_str()),
        None => crate::colors::owned("HTTP/1.1 404 NOT FOUND\r\n\r\n"),
    }
}

/// Pages other than the login page and the style sheets are refused to a
/// request whose `session` cookie names no open session.
pub proof fn law_protected_pages_need_session(
    path: Seq<char>,
    buffer: Seq<u8>,
    sessions: Map<Seq<char>, String>,
)
    requires
        !is_public_page(before_first(path, '?')),
        !(session_cookie(lossy_utf8(buffer)) matches Some(id) && sessions.dom().contains(id)),
    ensures
        !page_plan(path, buffer, sessions).0,
{
}

/// Logging in opens the pages: once the session `id` (a UUID, as the login
/// handler issues) is open, a request whose first `Cookie:` line carries the
/// cookie `session=<id>` is served any page.
pub proof fn law_login_opens_pages(
    sessions: Map<Seq<char>, String>,
    id: Seq<char>,
    user: String,
    path: Seq<char>,
    buffer: Seq<u8>,
    line: Seq<char>,
)
    requires
        is_uuid_text(id),
        first_with_prefix(lines(lossy_utf8(buffer)), "Cookie:"@) == Some(line),
        nth(words(line), 1) == Some("session="@ + id),
    ensures
        page_plan(path, buffer, sessions.insert(id, user)).0,
{
    lemma_session_cookie_of_header(id);
    assert(session_cookie(lossy_utf8(buffer)) == Some(id));
}

/// The cookie header `session=<id>` names the session `id`.
proof fn lemma_session_cookie_of_header(id: Seq<char>)
    requires
        is_uuid_text(id),
    ensures
        ({
            let jar = cookies_of(split_on("session="@ + id, ';'));
            jar.dom().contains("session"@) && jar["session"@] == id
        }),
{
    reveal_strlit("session=");
    reveal_strlit("session");
    let h = "session="@ + id;
    assert(forall|k: int| 0 <= k < id.len() ==> !crate::text::is_ws(#[trigger] id[k]) && id[k] != ';'
        && id[k] != '=') by {
        assert forall|k: int| 0 <= k < id.len() implies !crate::text::is_ws(#[trigger] id[k])
            && id[k] != ';' && id[k] != '=' by {
            assert(0 <= k < 36);
            let c = id[k] as u32;
            assert((48 <= c <= 57) || (97 <= c <= 102) || c == 45);
        }
    }
    assert(forall|k: int| 0 <= k < h.len() ==> h[k] != ';') by {
        assert forall|k: int| 0 <= k < h.len() implies h[k] != ';' by {
            if k >= 8 {
                assert(h[k] == id[k - 8]);
            }
        }
    }
    crate::text::lemma_split_without(h, ';', 0, 0);
    assert(h.subrange(0, h.len() as int) =~= h);
    assert(split_on(h, ';') == seq![h]);
    assert(before_first(h, ';') == h);
    assert(h[0] == 's');
    assert(h.last() == id[35]);
    crate::text::lemma_trim_fixed(h);
    let eq: Seq<char> = seq!['='];
    assert(occurs_at(h, eq, 7)) by {
        assert(h.subrange(7, 8) =~= eq);
    }
    assert forall|j: int| 0 <= j < 7 implies !occurs_at(h, eq, j) by {
        assert(h.subrange(j, j + 1)[0] == h[j]);
    }
    crate::text::lemma_find_from_at(h, eq, 0, 7);
    assert(h.subrange(0, 7) =~= "session"@);
    crate::text::lemma_trim_fixed("session"@);
    assert(h.subrange(8, h.len() as int) =~= id);
    crate::text::lemma_trim_fixed(id);
    assert(cookie_pair(h) == Some(("session"@, id)));
    let ps = seq![h];
    assert(ps.drop_last() =~= Seq::<Seq<char>>::empty());
    assert(ps.last() == h);
}

} // verus!
