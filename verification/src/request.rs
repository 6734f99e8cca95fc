//! Reading HTTP requests as text, and the fixed responses of the proxy.

use vstd::prelude::*;
use vstd::utf8::{decode_utf8, valid_utf8};
use crate::text::{
    append_str, chars_of, decimal, decimal_string, lines, lines_of, nth, nth_word, starts_with,
    starts_with_exec, views, words,
};

verus! {

/// `std::str::from_utf8`: the text that `bytes` encode, when they are valid
/// UTF-8.
#[verifier::external_body]
fn utf8_text(bytes: &[u8]) -> (r: Option<String>)
    ensures
        r is Some <==> valid_utf8(bytes@),
        r matches Some(t) ==> t@ == decode_utf8(bytes@),
{
    match std::str::from_utf8(bytes) {
        Ok(s) => Some(s.to_string()),
        Err(_) => None,
    }
}

/// What `String::from_utf8_lossy` makes of `bytes`: invalid sequences become
/// replacement characters.
pub uninterp spec fn lossy_utf8(bytes: Seq<u8>) -> Seq<char>;

/// `String::from_utf8_lossy`. Its documentation gives that valid UTF-8 is
/// decoded unchanged; what it makes of invalid input is left to the name.
#[verifier::external_body]
fn utf8_lossy_text(bytes: &[u8]) -> (r: String)
    ensures
        r@ == lossy_utf8(bytes@),
        valid_utf8(bytes@) ==> r@ == decode_utf8(bytes@),
{
    String::from_utf8_lossy(bytes).to_string()
}

/// `from_utf8(bytes).unwrap_or("")`: the text of a request buffer, or no
/// text when it is not valid UTF-8.
pub open spec fn strict_text(bytes: Seq<u8>) -> Seq<char> {
    if valid_utf8(bytes) {
        decode_utf8(bytes)
    } else {
        Seq::empty()
    }
}

/// The text of `bytes`, or an empty text when they are not valid UTF-8.
pub fn strict_text_exec(bytes: &[u8]) -> (r: String)
    ensures
        r@ == strict_text(bytes@),
{
    match utf8_text(bytes) {
        Some(t) => t,
        None => String::new(),
    }
}

/// The text of `bytes`, invalid sequences replaced; valid UTF-8 is decoded
/// unchanged.
pub fn lossy_text_exec(bytes: &[u8]) -> (r: String)
    ensures
        r@ == lossy_utf8(bytes@),
        valid_utf8(bytes@) ==> r@ == decode_utf8(bytes@),
{
    utf8_lossy_text(bytes)
}

/// The `k`-th word of the first line of `text`
/// (`text.lines().next().and_then(|l| l.split_whitespace().nth(k))`).
pub open spec fn first_line_word(text: Seq<char>, k: int) -> Option<Seq<char>> {
    if lines(text).len() > 0 {
        nth(words(lines(text)[0]), k)
    } else {
        None
    }
}

/// The first line of `ls` that starts with `p`.
pub open spec fn first_with_prefix(ls: Seq<Seq<char>>, p: Seq<char>) -> Option<Seq<char>>
    decreases ls.len(),
{
    if ls.len() == 0 {
        None
    } else if starts_with(ls[0], p) {
        Some(ls[0])
    } else {
        first_with_prefix(ls.drop_first(), p)
    }
}

/// The line found starts with the prefix.
pub proof fn lemma_first_with_prefix_starts(ls: Seq<Seq<char>>, p: Seq<char>)
    ensures
        first_with_prefix(ls, p) matches Some(l) ==> starts_with(l, p),
    decreases ls.len(),
{
    if ls.len() > 0 && !starts_with(ls[0], p) {
        lemma_first_with_prefix_starts(ls.drop_first(), p);
    }
}

/// `text.lines().find(|l| l.starts_with(p))`.
pub fn first_line_with_prefix(text: &Vec<char>, p: &str) -> (r: Option<Vec<char>>)
    ensures
        r matches Some(l) ==> first_with_prefix(lines(text@), p@) == Some(l@),
        r is None ==> first_with_prefix(lines(text@), p@) is None,
{
    let ls = lines_of(text);
    let pc = chars_of(p);
    let ghost all = views(ls@);
    let mut i: usize = 0;
    assert(all.subrange(0, all.len() as int) =~= all);
    while i < ls.len()
        invariant
            0 <= i <= ls@.len(),
            all == views(ls@),
            all == lines(text@),
            pc@ == p@,
            first_with_prefix(all, p@) == first_with_prefix(all.subrange(i as int, all.len() as int), p@),
        decreases ls@.len() - i,
    {
        let ghost rest = all.subrange(i as int, all.len() as int);
        assert(rest[0] == ls@[i as int]@);
        assert(rest.drop_first() =~= all.subrange(i + 1, all.len() as int));
        if starts_with_exec(&ls[i], &pc) {
            let mut l: Vec<char> = Vec::new();
            let src = &ls[i];
            let mut j: usize = 0;
            while j < src.len()
                invariant
                    0 <= j <= src@.len(),
                    l@ == src@.subrange(0, j as int),
                decreases src@.len() - j,
            {
                l.push(src[j]);
                assert(src@.subrange(0, j + 1) =~= src@.subrange(0, j as int).push(src@[j as int]));
                j = j + 1;
            }
            assert(src@.subrange(0, src@.len() as int) =~= src@);
            return Some(l);
        }
        i = i + 1;
    }
    None
}

/// The `k`-th word of the first line of `text`.
pub fn first_line_word_exec(text: &Vec<char>, k: usize) -> (r: Option<Vec<char>>)
    ensures
        r matches Some(w) ==> first_line_word(text@, k as int) == Some(w@),
        r is None ==> first_line_word(text@, k as int) is None,
{
    let ls = lines_of(text);
    if ls.len() == 0 {
        return None;
    }
    assert(views(ls@)[0] == ls@[0]@);
    nth_word(&ls[0], k)
}

/// The byte length of the UTF-8 encoding of `s`.
pub open spec fn byte_len(s: Seq<char>) -> nat {
    vstd::utf8::encode_utf8(s).len()
}

/// A `200 OK` response that carries `content_type` (when given) and
/// `contents` with its length.
pub open spec fn ok_response(content_type: Option<Seq<char>>, contents: Seq<char>) -> Seq<char> {
    "HTTP/1.1 200 OK\r\n"@ + match content_type {
        Some(t) => "Content-Type: "@ + t + "\r\n"@,
        None => Seq::empty(),
    } + "Content-Length: "@ + decimal(byte_len(contents)) + "\r\n\r\n"@ + contents
}

/// Builds `ok_response`.
pub fn ok_response_exec(content_type: Option<&str>, contents: &str) -> (r: String)
    ensures
        r@ == ok_response(
            match content_type {
                Some(t) => Some(t@),
                None => None,
            },
            contents@,
        ),
{
    let mut r = String::new();
    append_str(&mut r, "HTTP/1.1 200 OK\r\n");
    let ghost head = r@;
    match content_type {
        Some(t) => {
            append_str(&mut r, "Content-Type: ");
            append_str(&mut r, t);
            append_str(&mut r, "\r\n");
        },
        None => {},
    }
    let ghost typed = r@;
    append_str(&mut r, "Content-Length: ");
    let len = contents.as_bytes().len();
    let digits = decimal_string(len as u128);
    append_str(&mut r, digits.as_str());
    append_str(&mut r, "\r\n\r\n");
    append_str(&mut r, contents);
    proof {
        let ct = match content_type {
            Some(t) => Some(t@),
            None => None,
        };
        let mid: Seq<char> = match ct {
            Some(t) => "Content-Type: "@ + t + "\r\n"@,
            None => Seq::empty(),
        };
        assert(typed =~= "HTTP/1.1 200 OK\r\n"@ + mid);
        assert(len as nat == byte_len(contents@));
        assert(digits@ == decimal(byte_len(contents@)));
        assert(r@ =~= typed + "Content-Length: "@ + digits@ + "\r\n\r\n"@ + contents@);
        assert(r@ =~= ok_response(ct, contents@));
    }
    r
}

} // verus!
