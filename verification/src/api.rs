//! The dashboard's JSON interface: login and the list of proxied domains.

use vstd::prelude::*;
use vstd::string::StringSliceAdditionalSpecFns;
use vstd::utf8::{decode_utf8, is_char_boundary, valid_utf8};
use crate::config::{opt_text, Config};
use crate::keyed::{str_eq, StringMap};
use crate::request::{first_line_with_prefix, first_with_prefix, strict_text, strict_text_exec};
use crate::text::{append_str, chars_of, find, find_bytes, lines, nth, nth_word, words};

verus! {

/// What `serde_json` gives for `from_str::<Value>(body)` followed by
/// `get(key)` and `as_str()`: the text member `key` of the JSON object in
/// `body`, if there is one.
pub uninterp spec fn json_member(body: Seq<char>, key: Seq<char>) -> Option<Seq<char>>;

/// Parses `body` as JSON with `serde_json::from_str` and reads its text
/// member `key`; a body that does not parse has no members.
#[verifier::external_body]
fn json_text_member(body: &str, key: &str) -> (r: Option<String>)
    ensures
        opt_text(r) == json_member(body@, key@),
{
    match serde_json::from_str::<serde_json::Value>(body) {
        Ok(v) => v.get(key).and_then(|f| f.as_str()).map(|s| s.to_string()),
        Err(_) => None,
    }
}

/// The lower-case hexadecimal digit of `n`, for `0 <= n < 16`.
pub open spec fn hex_digit_char(n: int) -> char {
    if n < 10 {
        (48 + n) as char
    } else {
        (87 + n) as char
    }
}

/// How a JSON string writes the character `c`: a quote and a backslash are
/// escaped by a backslash; backspace, tab, line feed, form feed and carriage
/// return by their short escapes; other control characters below U+0020 as
/// `\u00` and two lower-case hex digits; every other character as itself.
pub open spec fn json_escaped_char(c: char) -> Seq<char> {
    let n = c as u32;
    if c == '"' {
        seq!['\\', '"']
    } else if c == '\\' {
        seq!['\\', '\\']
    } else if n == 8 {
        seq!['\\', 'b']
    } else if n == 9 {
        seq!['\\', 't']
    } else if n == 10 {
        seq!['\\', 'n']
    } else if n == 12 {
        seq!['\\', 'f']
    } else if n == 13 {
        seq!['\\', 'r']
    } else if n < 32 {
        seq!['\\', 'u', '0', '0', hex_digit_char(n as int / 16), hex_digit_char(n as int % 16)]
    } else {
        seq![c]
    }
}

/// The characters of `s`, each written as a JSON string writes it.
pub open spec fn json_escaped(s: Seq<char>) -> Seq<char>
    decreases s.len(),
{
    if s.len() == 0 {
        Seq::empty()
    } else {
        json_escaped(s.drop_last()) + json_escaped_char(s.last())
    }
}

/// The JSON string literal of the text `s`, as `serde_json::to_string`
/// writes it: the escaped characters between double quotes.
pub open spec fn json_string_literal(s: Seq<char>) -> Seq<char> {
    seq!['"'] + json_escaped(s) + seq!['"']
}

/// `serde_json::to_string(s)` for a text. Serialising a `str` cannot fail;
/// its compact formatter escapes exactly the characters `ESCAPE` marks (the
/// quote, the backslash and the bytes below 0x20), so the result is
/// `json_string_literal(s)`.
#[verifier::external_body]
fn json_string(s: &str) -> (r: String)
    ensures
        r@ == json_string_literal(s@),
{
    serde_json::to_string(s).unwrap_or_default()
}

/// A lower-case hexadecimal digit.
pub open spec fn is_lower_hex(c: char) -> bool {
    (48 <= c as u32 <= 57) || (97 <= c as u32 <= 102)
}

/// A version 4 UUID as `uuid` writes it: 36 characters, lower-case hex digits
/// in groups of 8, 4, 4, 4 and 12 joined by hyphens, the version digit `4`
/// opening the third group and the variant digit (`8`, `9`, `a` or `b`)
/// opening the fourth.
pub open spec fn is_uuid_text(s: Seq<char>) -> bool {
    &&& s.len() == 36
    &&& forall|i: int|
        0 <= i < 36 ==> if i == 8 || i == 13 || i == 18 || i == 23 {
            #[trigger] s[i] == '-'
        } else {
            is_lower_hex(s[i])
        }
    &&& s[14] == '4'
    &&& (s[19] == '8' || s[19] == '9' || s[19] == 'a' || s[19] == 'b')
}

/// A fresh random session id, `uuid::Uuid::new_v4().to_string()`.
///
/// `new_v4` fixes the version and variant bits of random bits, and `Display`
/// writes the hyphenated lower-case form. The random digits themselves are
/// not stated, nor that the id differs from earlier ones.
#[verifier::external_body]
fn new_session_id() -> (r: String)
    ensures
        is_uuid_text(r@),
{
    uuid::Uuid::new_v4().to_string()
}

/// The character is an ASCII decimal digit.
pub open spec fn is_digit(c: char) -> bool {
    48 <= c as u32 <= 57
}

/// The number that the decimal digits `d` write.
pub open spec fn digits_value(d: Seq<char>) -> nat
    decreases d.len(),
{
    if d.len() == 0 {
        0
    } else {
        digits_value(d.drop_last()) * 10 + (d.last() as u32 - 48) as nat
    }
}

/// `usize::from_str`: an optional `+` and at least one digit, the value at
/// most `usize::MAX`.
pub open spec fn parse_usize(s: Seq<char>) -> Option<nat> {
    let d = unsigned_digits(s);
    if d.len() > 0 && all_digits(d) && digits_value(d) <= usize::MAX {
        Some(digits_value(d))
    } else {
        None
    }
}

/// The digits of an unsigned number: the text after an optional `+`.
pub open spec fn unsigned_digits(s: Seq<char>) -> Seq<char> {
    if s.len() > 0 && s[0] == '+' {
        s.drop_first()
    } else {
        s
    }
}

/// Every character is a decimal digit.
pub open spec fn all_digits(d: Seq<char>) -> bool {
    forall|i: int| 0 <= i < d.len() ==> is_digit(#[trigger] d[i])
}

proof fn lemma_digits_monotone(d: Seq<char>, i: int, j: int)
    requires
        0 <= i <= j <= d.len(),
        forall|k: int| 0 <= k < d.len() ==> is_digit(#[trigger] d[k]),
    ensures
        digits_value(d.take(i)) <= digits_value(d.take(j)),
    decreases j - i,
{
    if i < j {
        lemma_digits_monotone(d, i, j - 1);
        assert(d.take(j).drop_last() =~= d.take(j - 1));
    }
}

/// `usize::from_str` on a vector of characters.
fn parse_usize_exec(s: &Vec<char>) -> (r: Option<usize>)
    ensures
        match parse_usize(s@) {
            Some(n) => r == Some(n as usize),
            None => r is None,
        },
{
    let ghost d = unsigned_digits(s@);
    let start: usize = if s.len() > 0 && s[0] == '+' {
        1
    } else {
        0
    };
    assert(d =~= s@.subrange(start as int, s@.len() as int));
    if start >= s.len() {
        assert(d.len() == 0);
        assert(parse_usize(s@) is None);
        return None;
    }
    let mut i = start;
    while i < s.len()
        invariant
            start <= i <= s@.len(),
            d =~= s@.subrange(start as int, s@.len() as int),
            d == unsigned_digits(s@),
            forall|k: int| 0 <= k < i - start ==> is_digit(#[trigger] d[k]),
        decreases s@.len() - i,
    {
        let c = s[i] as u32;
        if c < 48 || c > 57 {
            assert(!is_digit(d[i - start]));
            assert(!all_digits(d));
            return None;
        }
        i = i + 1;
    }
    let mut value: usize = 0;
    let mut j = start;
    assert(d.take(0) =~= Seq::<char>::empty());
    while j < s.len()
        invariant
            start <= j <= s@.len(),
            d =~= s@.subrange(start as int, s@.len() as int),
            d == unsigned_digits(s@),
            forall|k: int| 0 <= k < d.len() ==> is_digit(#[trigger] d[k]),
            value == digits_value(d.take(j - start)),
        decreases s@.len() - j,
    {
        assert(d[j - start] == s@[j as int]);
        assert(is_digit(d[j - start]));
        let digit = (s[j] as u32 - 48) as usize;
        assert(d.take(j + 1 - start).drop_last() =~= d.take(j - start));
        assert(d.take(j + 1 - start).last() == s@[j as int]);
        match value.checked_mul(10) {
            Some(v) => match v.checked_add(digit) {
                Some(w) => {
                    value = w;
                },
                None => {
                    proof {
                        lemma_digits_monotone(d, j + 1 - start, d.len() as int);
                        assert(d.take(d.len() as int) =~= d);
                        assert(digits_value(d.take(j + 1 - start)) == value * 10 + digit);
                        assert(digits_value(d) > usize::MAX);
                        assert(parse_usize(s@) is None);
                    }
                    return None;
                },
            },
            None => {
                proof {
                    lemma_digits_monotone(d, j + 1 - start, d.len() as int);
                    assert(d.take(d.len() as int) =~= d);
                    assert(digits_value(d.take(j + 1 - start)) == value * 10 + digit);
                    assert(digits_value(d) > usize::MAX);
                    assert(parse_usize(s@) is None);
                }
                return None;
            },
        }
        j = j + 1;
    }
    assert(d.take(d.len() as int) =~= d);
    Some(value)
}

/// The bytes of a request's text: the buffer when it is valid UTF-8, else
/// none.
pub open spec fn text_bytes(buffer: Seq<u8>) -> Seq<u8> {
    if valid_utf8(buffer) {
        buffer
    } else {
        Seq::empty()
    }
}

/// The length a request declares: the number in the second word of its
/// first `Content-Length:` line, or 0.
pub open spec fn content_length(text: Seq<char>) -> nat {
    match first_with_prefix(lines(text), "Content-Length:"@) {
        Some(l) => match nth(words(l), 1) {
            Some(w) => match parse_usize(w) {
                Some(n) => n,
                None => 0,
            },
            None => 0,
        },
        None => 0,
    }
}

/// Where a request's body starts: four bytes after the first blank line, or
/// at byte 4 when there is none.
pub open spec fn body_start(b: Seq<u8>) -> int {
    match find(b, seq![13u8, 10u8, 13u8, 10u8]) {
        Some(i) => i + 4,
        None => 4,
    }
}

/// Where a request's body ends, by its declared length.
pub open spec fn body_end(buffer: Seq<u8>) -> int {
    body_start(text_bytes(buffer)) + content_length(strict_text(buffer))
}

/// The declared body lies within the request's text, on character
/// boundaries; on any other request the login handler cannot take the body
/// out of the text.
pub open spec fn login_body_readable(buffer: Seq<u8>) -> bool {
    let b = text_bytes(buffer);
    &&& body_end(buffer) <= b.len()
    &&& is_char_boundary(b, body_start(b))
    &&& is_char_boundary(b, body_end(buffer))
}

/// The body of a login request, as text.
pub open spec fn login_body(buffer: Seq<u8>) -> Seq<char> {
    let b = text_bytes(buffer);
    decode_utf8(b.subrange(body_start(b), body_end(buffer)))
}

/// The text member `key` of the login body, or empty.
pub open spec fn credential(buffer: Seq<u8>, key: Seq<char>) -> Seq<char> {
    match json_member(login_body(buffer), key) {
        Some(v) => v,
        None => Seq::empty(),
    }
}

/// The declared length of the body of the request text `s`, and the byte
/// at which the body starts.
fn body_bounds(s: &str) -> (r: (usize, usize))
    ensures
        r.0 == content_length(s@),
        r.1 == body_start(s.spec_bytes()),
{
    let cs = chars_of(s);
    let mut length: usize = 0;
    match first_line_with_prefix(&cs, "Content-Length:") {
        Some(l) => match nth_word(&l, 1) {
            Some(w) => match parse_usize_exec(&w) {
                Some(n) => {
                    length = n;
                },
                None => {},
            },
            None => {},
        },
        None => {},
    }
    let bytes = s.as_bytes();
    let pattern: [u8; 4] = [13u8, 10u8, 13u8, 10u8];
    proof {
        assert(pattern@ =~= seq![13u8, 10u8, 13u8, 10u8]);
    }
    let pat = pattern.as_slice();
    assert(pat@ == pattern@);
    assert(bytes@.len() == bytes.len());
    let start: usize = match find_bytes(bytes, pat) {
        Some(i) => i + 4,
        None => 4,
    };
    (length, start)
}

/// The text of a request buffer is the UTF-8 text whose bytes are
/// `text_bytes` of the buffer.
proof fn lemma_text_bytes(buffer: Seq<u8>, text: Seq<char>)
    requires
        text == strict_text(buffer),
    ensures
        vstd::utf8::encode_utf8(text) == text_bytes(buffer),
{
    if valid_utf8(buffer) {
        vstd::utf8::decode_utf8_encode_utf8(buffer);
    } else {
        assert(text =~= Seq::<char>::empty());
        assert(vstd::utf8::encode_utf8(text) =~= Seq::<u8>::empty());
    }
}

/// Whether the declared body of a login request can be taken out of its
/// text (`login_body_readable`).
pub fn login_body_readable_check(buffer: &[u8]) -> (r: bool)
    ensures
        r == login_body_readable(buffer@),
{
    let text = strict_text_exec(buffer);
    let s = text.as_str();
    let (length, start) = body_bounds(s);
    let bytes = s.as_bytes();
    proof {
        lemma_text_bytes(buffer@, s@);
        assert(bytes@ == text_bytes(buffer@));
    }
    if start > bytes.len() || length > bytes.len() - start {
        return false;
    }
    let end = start + length;
    s.is_char_boundary(start) && s.is_char_boundary(end)
}

/// The (username, password) pair of a login request.
pub fn login_credentials(buffer: &[u8]) -> (r: (String, String))
    requires
        login_body_readable(buffer@),
    ensures
        r.0@ == credential(buffer@, "username"@),
        r.1@ == credential(buffer@, "password"@),
{
    let text = strict_text_exec(buffer);
    let s = text.as_str();
    let (length, start) = body_bounds(s);
    let bytes = s.as_bytes();
    proof {
        lemma_text_bytes(buffer@, s@);
        assert(bytes@ == text_bytes(buffer@));
        assert(start == body_start(text_bytes(buffer@)));
        assert(length == content_length(strict_text(buffer@)));
        assert(bytes@.len() == bytes.len());
    }
    let end = start + length;
    let (head, _) = s.split_at(end);
    proof {
        vstd::utf8::encode_utf8_valid_utf8(s@);
        vstd::utf8::valid_utf8_split(bytes@, end as int);
        vstd::utf8::is_char_boundary_start_end_of_seq(bytes@);
        lemma_boundary_in_prefix(bytes@, start as int, end as int);
    }
    let (_, body) = head.split_at(start);
    proof {
        assert(body.spec_bytes() =~= bytes@.subrange(start as int, end as int));
        vstd::utf8::encode_utf8_decode_utf8(body@);
        assert(body@ == login_body(buffer@));
    }
    let username = match json_text_member(body, "username") {
        Some(u) => u,
        None => String::new(),
    };
    let password = match json_text_member(body, "password") {
        Some(p) => p,
        None => String::new(),
    };
    (username, password)
}

/// `true` or `false` in JSON.
pub open spec fn json_bool(b: bool) -> Seq<char> {
    if b {
        "true"@
    } else {
        "false"@
    }
}

/// An optional text in JSON: a string literal, or `null`.
pub open spec fn json_opt_text(o: Option<Seq<char>>) -> Seq<char> {
    match o {
        Some(s) => json_string_literal(s),
        None => "null"@,
    }
}

/// One domain as a JSON object, its keys in the sorted order in which a
/// `serde_json::Map` writes them.
pub open spec fn config_json(c: Config) -> Seq<char> {
    "{\"HTTP\":"@ + json_bool(c.allow_http) + ",\"SSL\":"@ + json_bool(c.allow_ssl)
        + ",\"domain\":"@ + json_string_literal(c.domain@) + ",\"host\":"@
        + json_string_literal(c.location@) + ",\"privkey\":"@ + json_opt_text(
        opt_text(c.ssl_certificate_key),
    ) + ",\"pubkey\":"@ + json_opt_text(opt_text(c.ssl_certificate)) + "}"@
}

/// The JSON objects of `cs`, separated by commas.
pub open spec fn configs_items(cs: Seq<Config>) -> Seq<char>
    decreases cs.len(),
{
    if cs.len() == 0 {
        Seq::empty()
    } else if cs.len() == 1 {
        config_json(cs[0])
    } else {
        configs_items(cs.drop_last()) + ","@ + config_json(cs.last())
    }
}

/// The body listing every proxied domain.
pub open spec fn configs_json(cs: Seq<Config>) -> Seq<char> {
    "{\"configs\":["@ + configs_items(cs) + "]}"@
}

/// The body that answers a login: the new session for accepted credentials,
/// a refusal otherwise.
pub open spec fn login_json(session_id: Option<Seq<char>>) -> Seq<char> {
    match session_id {
        Some(id) => "{\"session_id\":"@ + json_string_literal(id) + ",\"valid\":true}"@,
        None => "{\"valid\":false}"@,
    }
}

/// A `200 OK` answer carrying a JSON body.
pub open spec fn json_response(body: Seq<char>) -> Seq<char> {
    "HTTP/1.1 200 OK\r\nContent-Type: application/json\r\n\r\n"@ + body
}

/// The answer to a path the JSON interface does not know.
pub open spec fn api_not_found_text() -> Seq<char> {
    "HTTP/1.1 404 NOT FOUND\r\n\r\n"@
}

/// Wraps a JSON body in a `200 OK` answer.
pub fn construct_json_response(body: &str) -> (r: String)
    ensures
        r@ == json_response(body@),
{
    let mut r = String::new();
    append_str(&mut r, "HTTP/1.1 200 OK\r\nContent-Type: application/json\r\n\r\n");
    append_str(&mut r, body);
    r
}

/// Appends `json_bool(b)`.
fn push_json_bool(r: &mut String, b: bool)
    ensures
        final(r)@ == old(r)@ + json_bool(b),
{
    if b {
        append_str(r, "true");
    } else {
        append_str(r, "false");
    }
}

/// Appends `json_opt_text(o)`.
fn push_json_opt(r: &mut String, o: &Option<String>)
    ensures
        final(r)@ == old(r)@ + json_opt_text(opt_text(*o)),
{
    match o {
        Some(s) => {
            let q = json_string(s.as_str());
            append_str(r, q.as_str());
        },
        None => append_str(r, "null"),
    }
}

/// The JSON object of one domain.
pub fn config_to_json(c: &Config) -> (r: String)
    ensures
        r@ == config_json(*c),
{
    let mut r = String::new();
    append_str(&mut r, "{\"HTTP\":");
    push_json_bool(&mut r, c.allow_http);
    append_str(&mut r, ",\"SSL\":");
    push_json_bool(&mut r, c.allow_ssl);
    append_str(&mut r, ",\"domain\":");
    append_str(&mut r, json_string(c.domain.as_str()).as_str());
    append_str(&mut r, ",\"host\":");
    append_str(&mut r, json_string(c.location.as_str()).as_str());
    append_str(&mut r, ",\"privkey\":");
    push_json_opt(&mut r, &c.ssl_certificate_key);
    append_str(&mut r, ",\"pubkey\":");
    push_json_opt(&mut r, &c.ssl_certificate);
    append_str(&mut r, "}");
    r
}

/// The body listing every proxied domain.
pub fn configs_to_json(configs: &Vec<Config>) -> (r: String)
    ensures
        r@ == configs_json(configs@),
{
    let mut r = String::new();
    append_str(&mut r, "{\"configs\":[");
    let ghost head = r@;
    let mut i: usize = 0;
    while i < configs.len()
        invariant
            0 <= i <= configs@.len(),
            head == "{\"configs\":["@,
            r@ == head + configs_items(configs@.take(i as int)),
        decreases configs@.len() - i,
    {
        let ghost before = r@;
        if i > 0 {
            append_str(&mut r, ",");
        }
        let item = config_to_json(&configs[i]);
        append_str(&mut r, item.as_str());
        proof {
            let t = configs@.take(i + 1);
            assert(t.drop_last() =~= configs@.take(i as int));
            assert(t.last() == configs@[i as int]);
            if i == 0 {
                assert(configs_items(configs@.take(0)) =~= Seq::<char>::empty());
                assert(r@ =~= head + configs_items(t));
            } else {
                assert(r@ =~= head + configs_items(t));
            }
        }
        i = i + 1;
    }
    append_str(&mut r, "]}");
    assert(configs@.take(configs@.len() as int) =~= configs@);
    r
}

/// The answer to a login: the new session `session_id` when the
/// credentials were accepted, a refusal when there is none.
pub fn login_response(session_id: Option<&str>) -> (r: String)
    ensures
        r@ == json_response(
            login_json(
                match session_id {
                    Some(s) => Some(s@),
                    None => None,
                },
            ),
        ),
{
    let mut body = String::new();
    match session_id {
        Some(id) => {
            append_str(&mut body, "{\"session_id\":");
            append_str(&mut body, json_string(id).as_str());
            append_str(&mut body, ",\"valid\":true}");
        },
        None => {
            append_str(&mut body, "{\"valid\":false}");
        },
    }
    construct_json_response(body.as_str())
}

/// Opens the session `session_id` for `username` and answers the login with
/// it: the session table gains that one entry.
pub fn start_session(sessions: &mut StringMap<String>, session_id: String, username: String) -> (r:
    String)
    requires
        old(sessions).wf(),
    ensures
        final(sessions).wf(),
        final(sessions)@ == old(sessions)@.insert(session_id@, username),
        r@ == json_response(login_json(Some(session_id@))),
{
    let r = login_response(Some(session_id.as_str()));
    sessions.insert(session_id, username);
    r
}

/// Answers a request to the JSON interface.
///
/// `/api/login` opens a session, under a fresh random id, for the user whose
/// JSON body names `valid_username` and `valid_password`; `/api/proxys` lists
/// the proxied domains; any other path is not found.
pub fn handle_api_request(
    configs: &Vec<Config>,
    path: &str,
    buffer: &[u8],
    valid_username: &str,
    valid_password: &str,
    sessions: &mut StringMap<String>,
) -> (r: String)
    requires
        old(sessions).wf(),
        path@ == "/api/login"@ ==> login_body_readable(buffer@),
    ensures
        final(sessions).wf(),
        path@ == "/api/login"@ ==> {
            let user = credential(buffer@, "username"@);
            let accepted = user == valid_username@ && credential(buffer@, "password"@)
                == valid_password@;
            if accepted {
                exists|id: String, entry: String|
                    #![trigger is_uuid_text(id@), entry@]
                    is_uuid_text(id@) && entry@ == user && final(sessions)@ == old(sessions)@.insert(
                        id@,
                        entry,
                    ) && r@ == json_response(login_json(Some(id@)))
            } else {
                final(sessions)@ == old(sessions)@ && r@ == json_response(login_json(None))
            }
        },
        path@ != "/api/login"@ ==> final(sessions)@ == old(sessions)@,
        path@ == "/api/proxys"@ ==> r@ == json_response(configs_json(configs@)),
        path@ != "/api/login"@ && path@ != "/api/proxys"@ ==> r@ == api_not_found_text(),
{
    if str_eq(path, "/api/login") {
        proof {
            reveal_strlit("/api/login");
            reveal_strlit("/api/proxys");
            assert("/api/login"@[5] != "/api/proxys"@[5]);
        }
        let (username, password) = login_credentials(buffer);
        if str_eq(username.as_str(), valid_username) && str_eq(password.as_str(), valid_password) {
            let id = new_session_id();
            let ghost fresh = id;
            let ghost entry = username;
            let r = start_session(sessions, id, username);
            assert(is_uuid_text(fresh@) && entry@ == credential(buffer@, "username"@));
            r
        } else {
            login_response(None)
        }
    } else if str_eq(path, "/api/proxys") {
        let body = configs_to_json(configs);
        construct_json_response(body.as_str())
    } else {
        crate::colors::owned("HTTP/1.1 404 NOT FOUND\r\n\r\n")
    }
}

/// A boundary of a valid text is a boundary of any prefix that holds it.
proof fn lemma_boundary_in_prefix(b: Seq<u8>, i: int, e: int)
    requires
        valid_utf8(b),
        0 <= i <= e <= b.len(),
        is_char_boundary(b, i),
        is_char_boundary(b, e),
    ensures
        is_char_boundary(b.subrange(0, e), i),
{
    vstd::utf8::valid_utf8_split(b, e);
    let p = b.subrange(0, e);
    if i < e {
        vstd::utf8::is_char_boundary_iff_not_is_continuation_byte(b, i);
        vstd::utf8::is_char_boundary_iff_not_is_continuation_byte(p, i);
    } else {
        vstd::utf8::is_char_boundary_start_end_of_seq(p);
    }
}

} // verus!
