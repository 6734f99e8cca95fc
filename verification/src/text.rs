//! Character-level text primitives shared by the parsers.
//!
//! Every executable helper here is tied to a spec function over `Seq<char>`
//! that states the behaviour of the corresponding `str` operation of std:
//! `lines`, `trim`, `split_whitespace`, `split`, `starts_with`, `contains`.

use vstd::prelude::*;

verus! {

/// Unicode `White_Space`, the set that `char::is_whitespace` tests.
pub open spec fn is_ws(c: char) -> bool {
    let u = c as u32;
    ||| 0x09 <= u <= 0x0D
    ||| u == 0x20
    ||| u == 0x85
    ||| u == 0xA0
    ||| u == 0x1680
    ||| 0x2000 <= u <= 0x200A
    ||| u == 0x2028
    ||| u == 0x2029
    ||| u == 0x202F
    ||| u == 0x205F
    ||| u == 0x3000
}

/// `s` with leading whitespace removed.
pub open spec fn trim_start(s: Seq<char>) -> Seq<char>
    decreases s.len(),
{
    if s.len() > 0 && is_ws(s[0]) {
        trim_start(s.drop_first())
    } else {
        s
    }
}

/// `s` with trailing whitespace removed.
pub open spec fn trim_end(s: Seq<char>) -> Seq<char>
    decreases s.len(),
{
    if s.len() > 0 && is_ws(s.last()) {
        trim_end(s.drop_last())
    } else {
        s
    }
}

/// `str::trim`: whitespace removed at both ends.
pub open spec fn trim(s: Seq<char>) -> Seq<char> {
    trim_end(trim_start(s))
}

/// `str::starts_with` for a text pattern.
pub open spec fn starts_with(s: Seq<char>, p: Seq<char>) -> bool {
    p.len() <= s.len() && s.subrange(0, p.len() as int) == p
}

/// `str::strip_prefix`.
pub open spec fn strip_prefix(s: Seq<char>, p: Seq<char>) -> Option<Seq<char>> {
    if starts_with(s, p) {
        Some(s.subrange(p.len() as int, s.len() as int))
    } else {
        None
    }
}

/// `p` occurs in `s` starting at index `i`.
pub open spec fn occurs_at<T>(s: Seq<T>, p: Seq<T>, i: int) -> bool {
    0 <= i && i + p.len() <= s.len() && s.subrange(i, i + p.len()) == p
}

/// The first index at or after `i` where `p` occurs in `s`.
pub open spec fn find_from<T>(s: Seq<T>, p: Seq<T>, i: int) -> Option<int>
    decreases s.len() + 1 - i,
{
    if i < 0 || i + p.len() > s.len() {
        None
    } else if occurs_at(s, p, i) {
        Some(i)
    } else {
        find_from(s, p, i + 1)
    }
}

/// `str::find` (and `[T]` search): the first index where `p` occurs in `s`.
pub open spec fn find<T>(s: Seq<T>, p: Seq<T>) -> Option<int> {
    find_from(s, p, 0)
}

/// `str::contains` for a text pattern.
pub open spec fn contains(s: Seq<char>, p: Seq<char>) -> bool {
    find(s, p) is Some
}

/// A line as `str::lines` yields it: one trailing carriage return dropped.
pub open spec fn strip_cr(l: Seq<char>) -> Seq<char> {
    if l.len() > 0 && l.last() == '\r' {
        l.drop_last()
    } else {
        l
    }
}

/// The lines of `s` from the line that starts at `start`, when `s[start..i]`
/// holds no line feed.
pub open spec fn lines_from(s: Seq<char>, start: int, i: int) -> Seq<Seq<char>>
    decreases s.len() - i,
{
    if i >= s.len() {
        if start < s.len() {
            seq![s.subrange(start, s.len() as int)]
        } else {
            seq![]
        }
    } else if s[i] == '\n' {
        seq![strip_cr(s.subrange(start, i))] + lines_from(s, i + 1, i + 1)
    } else {
        lines_from(s, start, i + 1)
    }
}

/// `str::lines`: split at each line feed, a carriage return before it dropped,
/// and no empty line after a final line feed.
pub open spec fn lines(s: Seq<char>) -> Seq<Seq<char>> {
    lines_from(s, 0, 0)
}

/// The pieces of `s` from the piece that starts at `start`, when `s[start..i]`
/// holds no `c`.
pub open spec fn split_from(s: Seq<char>, c: char, start: int, i: int) -> Seq<Seq<char>>
    decreases s.len() - i,
{
    if i >= s.len() {
        seq![s.subrange(start, s.len() as int)]
    } else if s[i] == c {
        seq![s.subrange(start, i)] + split_from(s, c, i + 1, i + 1)
    } else {
        split_from(s, c, start, i + 1)
    }
}

/// `str::split` on one character: every piece, empty ones included.
pub open spec fn split_on(s: Seq<char>, c: char) -> Seq<Seq<char>> {
    split_from(s, c, 0, 0)
}

/// The run of non-whitespace that ends at `i`, if it is not empty.
pub open spec fn run(s: Seq<char>, start: int, i: int) -> Seq<Seq<char>> {
    if start < i {
        seq![s.subrange(start, i)]
    } else {
        seq![]
    }
}

/// The whitespace-separated words of `s` from the word that starts at
/// `start`, when `s[start..i]` holds no whitespace.
pub open spec fn words_from(s: Seq<char>, start: int, i: int) -> Seq<Seq<char>>
    decreases s.len() - i,
{
    if i >= s.len() {
        run(s, start, s.len() as int)
    } else if is_ws(s[i]) {
        run(s, start, i) + words_from(s, i + 1, i + 1)
    } else {
        words_from(s, start, i + 1)
    }
}

/// `str::split_whitespace`: the maximal runs of non-whitespace characters.
pub open spec fn words(s: Seq<char>) -> Seq<Seq<char>> {
    words_from(s, 0, 0)
}

/// `Iterator::nth` on a sequence of texts.
pub open spec fn nth(ws: Seq<Seq<char>>, k: int) -> Option<Seq<char>> {
    if 0 <= k < ws.len() {
        Some(ws[k])
    } else {
        None
    }
}

/// The text before the first `c`, or all of `s` (`s.split(c).next()`).
pub open spec fn before_first(s: Seq<char>, c: char) -> Seq<char> {
    split_on(s, c)[0]
}

/// The decimal digit character for `d < 10`.
pub open spec fn digit_char(d: nat) -> char {
    ((d + 48) as u8) as char
}

/// The decimal representation of `n`, as `Display` prints an unsigned integer.
pub open spec fn decimal(n: nat) -> Seq<char>
    decreases n,
{
    if n < 10 {
        seq![digit_char(n)]
    } else {
        decimal(n / 10).push(digit_char(n % 10))
    }
}

/// Appends `c` to `s` (`String::push`).
#[verifier::external_body]
fn push_char(s: &mut String, c: char)
    ensures
        final(s)@ == old(s)@.push(c),
{
    s.push(c);
}

/// Collects the characters of `s` into a vector.
pub fn chars_of(s: &str) -> (r: Vec<char>)
    ensures
        r@ == s@,
{
    let mut r: Vec<char> = Vec::new();
    for c in it: s.chars()
        invariant
            r@ == it.history(),
    {
        r.push(c);
    }
    proof {
        vstd::string::axiom_spec_iter(s);
    }
    r
}

/// The text made of the characters `cs[lo..hi]`.
pub fn string_of_range(cs: &Vec<char>, lo: usize, hi: usize) -> (r: String)
    requires
        lo <= hi <= cs@.len(),
    ensures
        r@ == cs@.subrange(lo as int, hi as int),
{
    let mut r = String::new();
    let mut i = lo;
    while i < hi
        invariant
            lo <= i <= hi <= cs@.len(),
            r@ == cs@.subrange(lo as int, i as int),
        decreases hi - i,
    {
        push_char(&mut r, cs[i]);
        assert(cs@.subrange(lo as int, i + 1) == cs@.subrange(lo as int, i as int).push(cs@[i as int]));
        i = i + 1;
    }
    r
}

/// The text made of the characters `cs`.
pub fn string_of(cs: &Vec<char>) -> (r: String)
    ensures
        r@ == cs@,
{
    let r = string_of_range(cs, 0, cs.len());
    assert(cs@.subrange(0, cs@.len() as int) == cs@);
    r
}

/// The characters `cs[lo..hi]`.
pub fn slice_of(cs: &Vec<char>, lo: usize, hi: usize) -> (r: Vec<char>)
    requires
        lo <= hi <= cs@.len(),
    ensures
        r@ == cs@.subrange(lo as int, hi as int),
{
    let mut r: Vec<char> = Vec::new();
    let mut i = lo;
    while i < hi
        invariant
            lo <= i <= hi <= cs@.len(),
            r@ == cs@.subrange(lo as int, i as int),
        decreases hi - i,
    {
        r.push(cs[i]);
        assert(cs@.subrange(lo as int, i + 1) == cs@.subrange(lo as int, i as int).push(cs@[i as int]));
        i = i + 1;
    }
    r
}

/// Appends the characters of `t` to `s`.
pub fn append_str(s: &mut String, t: &str)
    ensures
        final(s)@ == old(s)@ + t@,
{
    let cs = chars_of(t);
    let mut i: usize = 0;
    while i < cs.len()
        invariant
            0 <= i <= cs@.len(),
            cs@ == t@,
            s@ == old(s)@ + cs@.subrange(0, i as int),
        decreases cs@.len() - i,
    {
        push_char(s, cs[i]);
        assert(cs@.subrange(0, i + 1) == cs@.subrange(0, i as int).push(cs@[i as int]));
        i = i + 1;
    }
    assert(cs@.subrange(0, cs@.len() as int) == cs@);
}

/// `char::is_whitespace`.
pub fn is_whitespace(c: char) -> (r: bool)
    ensures
        r == is_ws(c),
{
    let u = c as u32;
    (0x09 <= u && u <= 0x0D) || u == 0x20 || u == 0x85 || u == 0xA0 || u == 0x1680 || (0x2000
        <= u && u <= 0x200A) || u == 0x2028 || u == 0x2029 || u == 0x202F || u == 0x205F || u
        == 0x3000
}

/// `split_on` always yields at least one piece.
pub proof fn lemma_split_from_nonempty(s: Seq<char>, c: char, start: int, i: int)
    ensures
        split_from(s, c, start, i).len() >= 1,
    decreases s.len() - i,
{
    if i < s.len() {
        if s[i] == c {
            lemma_split_from_nonempty(s, c, i + 1, i + 1);
        } else {
            lemma_split_from_nonempty(s, c, start, i + 1);
        }
    }
}

/// The first piece of `s` ends at its first `c`, at `k`.
pub proof fn lemma_first_piece(s: Seq<char>, c: char, i: int, k: int)
    requires
        0 <= i <= k < s.len(),
        s[k] == c,
        forall|j: int| 0 <= j < k ==> s[j] != c,
    ensures
        split_from(s, c, 0, i)[0] == s.subrange(0, k),
    decreases k - i,
{
    if i < k {
        lemma_first_piece(s, c, i + 1, k);
    }
}

/// A text without `c` is a single piece.
pub proof fn lemma_split_without(s: Seq<char>, c: char, start: int, i: int)
    requires
        0 <= start <= i <= s.len(),
        forall|k: int| 0 <= k < s.len() ==> s[k] != c,
    ensures
        split_from(s, c, start, i) == seq![s.subrange(start, s.len() as int)],
    decreases s.len() - i,
{
    if i < s.len() {
        lemma_split_without(s, c, start, i + 1);
    }
}

/// The first occurrence of `p` at or after `i` is at `k` when `p` occurs at
/// `k` and nowhere in between.
pub proof fn lemma_find_from_at<T>(s: Seq<T>, p: Seq<T>, i: int, k: int)
    requires
        0 <= i <= k,
        occurs_at(s, p, k),
        forall|j: int| i <= j < k ==> !occurs_at(s, p, j),
    ensures
        find_from(s, p, i) == Some(k),
    decreases k - i,
{
    if i < k {
        lemma_find_from_at(s, p, i + 1, k);
    }
}

/// Text that begins and ends with no whitespace is its own trim.
pub proof fn lemma_trim_fixed(s: Seq<char>)
    requires
        s.len() > 0,
        !is_ws(s[0]),
        !is_ws(s.last()),
    ensures
        trim(s) == s,
{
}

/// The views of a sequence of character vectors.
pub open spec fn views(v: Seq<Vec<char>>) -> Seq<Seq<char>> {
    v.map_values(|x: Vec<char>| x@)
}

proof fn lemma_views_push(v: Seq<Vec<char>>, x: Vec<char>)
    ensures
        views(v.push(x)) == views(v).push(x@),
{
    assert(views(v.push(x)) =~= views(v).push(x@));
}

/// Whether `s[i..]` begins with `p` (false when `p` does not fit).
pub fn occurs_at_chars(s: &[char], p: &[char], i: usize) -> (r: bool)
    ensures
        r == occurs_at(s@, p@, i as int),
{
    let n = s.len();
    if i > n || p.len() > n - i {
        return false;
    }
    let mut j: usize = 0;
    while j < p.len()
        invariant
            n == s@.len(),
            i + p@.len() <= s@.len(),
            0 <= j <= p@.len(),
            s@.subrange(i as int, i + j) == p@.subrange(0, j as int),
        decreases p@.len() - j,
    {
        if s[i + j] != p[j] {
            assert(s@.subrange(i as int, i + p@.len())[j as int] == s@[i + j]);
            return false;
        }
        assert(s@.subrange(i as int, i + j + 1) =~= s@.subrange(i as int, i + j).push(s@[i + j]));
        assert(p@.subrange(0, j + 1) =~= p@.subrange(0, j as int).push(p@[j as int]));
        j = j + 1;
    }
    assert(p@.subrange(0, p@.len() as int) =~= p@);
    true
}

/// The first index where `p` occurs in `s`.
pub fn find_chars(s: &[char], p: &[char]) -> (r: Option<usize>)
    ensures
        r matches Some(i) ==> find(s@, p@) == Some(i as int) && i + p@.len() <= s@.len(),
        r is None ==> find(s@, p@) is None,
{
    let n = s.len();
    if p.len() > n {
        return None;
    }
    if p.len() == 0 {
        assert(s@.subrange(0, 0) =~= p@);
        return Some(0);
    }
    let mut i: usize = 0;
    while i <= n - p.len()
        invariant
            n == s@.len(),
            1 <= p@.len() <= s@.len(),
            0 <= i <= n - p@.len() + 1,
            find(s@, p@) == find_from(s@, p@, i as int),
        decreases s@.len() - p@.len() + 1 - i,
    {
        if occurs_at_chars(s, p, i) {
            return Some(i);
        }
        i = i + 1;
    }
    None
}

/// Whether `s[i..]` begins with `p` (false when `p` does not fit).
pub fn occurs_at_bytes(s: &[u8], p: &[u8], i: usize) -> (r: bool)
    ensures
        r == occurs_at(s@, p@, i as int),
{
    let n = s.len();
    if i > n || p.len() > n - i {
        return false;
    }
    let mut j: usize = 0;
    while j < p.len()
        invariant
            n == s@.len(),
            i + p@.len() <= s@.len(),
            0 <= j <= p@.len(),
            s@.subrange(i as int, i + j) == p@.subrange(0, j as int),
        decreases p@.len() - j,
    {
        if s[i + j] != p[j] {
            assert(s@.subrange(i as int, i + p@.len())[j as int] == s@[i + j]);
            return false;
        }
        assert(s@.subrange(i as int, i + j + 1) =~= s@.subrange(i as int, i + j).push(s@[i + j]));
        assert(p@.subrange(0, j + 1) =~= p@.subrange(0, j as int).push(p@[j as int]));
        j = j + 1;
    }
    assert(p@.subrange(0, p@.len() as int) =~= p@);
    true
}

/// The first index where `p` occurs in `s`.
pub fn find_bytes(s: &[u8], p: &[u8]) -> (r: Option<usize>)
    ensures
        r matches Some(i) ==> find(s@, p@) == Some(i as int) && i + p@.len() <= s@.len(),
        r is None ==> find(s@, p@) is None,
{
    let n = s.len();
    if p.len() > n {
        return None;
    }
    if p.len() == 0 {
        assert(s@.subrange(0, 0) =~= p@);
        return Some(0);
    }
    let mut i: usize = 0;
    while i <= n - p.len()
        invariant
            n == s@.len(),
            1 <= p@.len() <= s@.len(),
            0 <= i <= n - p@.len() + 1,
            find(s@, p@) == find_from(s@, p@, i as int),
        decreases s@.len() - p@.len() + 1 - i,
    {
        if occurs_at_bytes(s, p, i) {
            return Some(i);
        }
        i = i + 1;
    }
    None
}

/// `str::trim` on a vector of characters.
pub fn trimmed(s: &Vec<char>) -> (r: Vec<char>)
    ensures
        r@ == trim(s@),
{
    let n = s.len();
    let mut a: usize = 0;
    assert(s@.subrange(0, n as int) =~= s@);
    while a < n && is_whitespace(s[a])
        invariant
            n == s@.len(),
            0 <= a <= n,
            trim_start(s@) == trim_start(s@.subrange(a as int, n as int)),
        decreases n - a,
    {
        assert(s@.subrange(a as int, n as int).drop_first() =~= s@.subrange(a + 1, n as int));
        a = a + 1;
    }
    let mut b: usize = n;
    assert(trim_start(s@) == s@.subrange(a as int, n as int));
    while b > a && is_whitespace(s[b - 1])
        invariant
            n == s@.len(),
            0 <= a <= b <= n,
            trim(s@) == trim_end(s@.subrange(a as int, b as int)),
        decreases b - a,
    {
        assert(s@.subrange(a as int, b as int).drop_last() =~= s@.subrange(a as int, b - 1));
        b = b - 1;
    }
    slice_of(s, a, b)
}

/// `str::lines` on a vector of characters.
pub fn lines_of(s: &Vec<char>) -> (r: Vec<Vec<char>>)
    ensures
        views(r@) == lines(s@),
{
    let n = s.len();
    let mut r: Vec<Vec<char>> = Vec::new();
    let mut start: usize = 0;
    let mut i: usize = 0;
    while i < n
        invariant
            n == s@.len(),
            0 <= start <= i <= n,
            lines(s@) == views(r@) + lines_from(s@, start as int, i as int),
        decreases n - i,
    {
        if s[i] == '\n' {
            let line = if i > start && s[i - 1] == '\r' {
                slice_of(s, start, i - 1)
            } else {
                slice_of(s, start, i)
            };
            assert(line@ == strip_cr(s@.subrange(start as int, i as int))) by {
                if i > start && s@[i - 1] == '\r' {
                    assert(s@.subrange(start as int, i as int).drop_last() =~= s@.subrange(
                        start as int,
                        i - 1,
                    ));
                }
            }
            proof {
                lemma_views_push(r@, line);
                assert(lines_from(s@, start as int, i as int) == seq![line@] + lines_from(
                    s@,
                    i + 1,
                    i + 1,
                ));
                assert(views(r@) + (seq![line@] + lines_from(s@, i + 1, i + 1)) =~= views(
                    r@,
                ).push(line@) + lines_from(s@, i + 1, i + 1));
            }
            r.push(line);
            start = i + 1;
        }
        i = i + 1;
    }
    if start < n {
        let line = slice_of(s, start, n);
        proof {
            lemma_views_push(r@, line);
            assert(views(r@) + seq![line@] =~= views(r@).push(line@));
        }
        r.push(line);
    } else {
        assert(views(r@) + seq![] =~= views(r@));
    }
    r
}

/// `str::split` on one character, over a vector of characters.
pub fn split_of(s: &Vec<char>, c: char) -> (r: Vec<Vec<char>>)
    ensures
        views(r@) == split_on(s@, c),
{
    let n = s.len();
    let mut r: Vec<Vec<char>> = Vec::new();
    let mut start: usize = 0;
    let mut i: usize = 0;
    while i < n
        invariant
            n == s@.len(),
            0 <= start <= i <= n,
            split_on(s@, c) == views(r@) + split_from(s@, c, start as int, i as int),
        decreases n - i,
    {
        if s[i] == c {
            let piece = slice_of(s, start, i);
            proof {
                lemma_views_push(r@, piece);
                assert(views(r@) + (seq![piece@] + split_from(s@, c, i + 1, i + 1)) =~= views(
                    r@,
                ).push(piece@) + split_from(s@, c, i + 1, i + 1));
            }
            r.push(piece);
            start = i + 1;
        }
        i = i + 1;
    }
    let piece = slice_of(s, start, n);
    proof {
        lemma_views_push(r@, piece);
        assert(views(r@) + seq![piece@] =~= views(r@).push(piece@));
    }
    r.push(piece);
    r
}

/// `split_whitespace().nth(k)` on a vector of characters.
pub fn nth_word(s: &Vec<char>, k: usize) -> (r: Option<Vec<char>>)
    ensures
        r matches Some(w) ==> nth(words(s@), k as int) == Some(w@),
        r is None ==> nth(words(s@), k as int) is None,
{
    let n = s.len();
    let mut start: usize = 0;
    let mut i: usize = 0;
    let mut count: usize = 0;
    let ghost mut done: Seq<Seq<char>> = seq![];
    while i < n
        invariant
            n == s@.len(),
            0 <= start <= i <= n,
            count == done.len(),
            count <= k,
            words(s@) == done + words_from(s@, start as int, i as int),
        decreases n - i,
    {
        if is_whitespace(s[i]) {
            assert(words_from(s@, start as int, i as int) == run(s@, start as int, i as int)
                + words_from(s@, i + 1, i + 1));
            if start < i {
                let w = slice_of(s, start, i);
                assert(words(s@) =~= done + seq![w@] + words_from(s@, i + 1, i + 1));
                if count == k {
                    assert(words(s@)[k as int] == w@);
                    return Some(w);
                }
                proof {
                    done = done.push(w@);
                }
                count = count + 1;
            } else {
                assert(words(s@) =~= done + words_from(s@, i + 1, i + 1));
            }
            start = i + 1;
        }
        i = i + 1;
    }
    if start < n {
        let w = slice_of(s, start, n);
        assert(words(s@) =~= done + seq![w@]);
        if count == k {
            assert(words(s@)[k as int] == w@);
            return Some(w);
        }
    } else {
        assert(words(s@) =~= done);
    }
    None
}

/// Whether `s` begins with `p`.
pub fn starts_with_exec(s: &Vec<char>, p: &Vec<char>) -> (r: bool)
    ensures
        r == starts_with(s@, p@),
{
    occurs_at_chars(s.as_slice(), p.as_slice(), 0)
}

/// Whether `s` equals `p`.
pub fn chars_eq(s: &Vec<char>, p: &Vec<char>) -> (r: bool)
    ensures
        r == (s@ == p@),
{
    let b = s.len() == p.len() && occurs_at_chars(s.as_slice(), p.as_slice(), 0);
    proof {
        if s@.len() == p@.len() {
            assert(s@.subrange(0, p@.len() as int) =~= s@);
        }
    }
    b
}

/// The characters of `s` before its first `c` (all of `s` when there is none).
pub fn before_first_exec(s: &Vec<char>, c: char) -> (r: Vec<char>)
    ensures
        r@ == before_first(s@, c),
{
    let pieces = split_of(s, c);
    proof {
        lemma_split_from_nonempty(s@, c, 0, 0);
    }
    assert(views(pieces@)[0] == pieces@[0]@);
    let mut r: Vec<char> = Vec::new();
    let first = &pieces[0];
    let mut i: usize = 0;
    while i < first.len()
        invariant
            0 <= i <= first@.len(),
            r@ == first@.subrange(0, i as int),
        decreases first@.len() - i,
    {
        r.push(first[i]);
        assert(first@.subrange(0, i + 1) =~= first@.subrange(0, i as int).push(first@[i as int]));
        i = i + 1;
    }
    assert(first@.subrange(0, first@.len() as int) =~= first@);
    r
}

/// The decimal representation of `n`.
pub fn decimal_string(n: u128) -> (r: String)
    ensures
        r@ == decimal(n as nat),
{
    let mut m: u128 = n;
    let mut digits: Vec<char> = Vec::new();
    while m >= 10
        invariant
            decimal(n as nat) == decimal(m as nat) + digits@,
        decreases m,
    {
        let d = (m % 10) as u8;
        let c = (d + 48) as char;
        assert(c == digit_char((m % 10) as nat));
        assert(decimal(m as nat) == decimal((m / 10) as nat).push(c));
        assert(decimal(m as nat) + digits@ =~= decimal((m / 10) as nat) + (seq![c] + digits@));
        digits.insert(0, c);
        assert(digits@ =~= seq![c] + digits@.drop_first());
        m = m / 10;
    }
    let c = ((m as u8) + 48) as char;
    assert(c == digit_char(m as nat));
    digits.insert(0, c);
    assert(digits@ =~= decimal(n as nat));
    string_of(&digits)
}

/// Reading lines past a prefix `p` reads the lines of what follows it.
proof fn lemma_lines_shift(p: Seq<char>, r: Seq<char>, a: int, b: int)
    requires
        0 <= a <= b <= r.len(),
    ensures
        lines_from(p + r, p.len() + a, p.len() + b) == lines_from(r, a, b),
    decreases r.len() - b,
{
    let s = p + r;
    let n = p.len() as int;
    if b >= r.len() {
        if a < r.len() {
            assert(s.subrange(n + a, s.len() as int) =~= r.subrange(a, r.len() as int));
        }
    } else {
        assert(s[n + b] == r[b]);
        assert(s.subrange(n + a, n + b) =~= r.subrange(a, b));
        if r[b] == '\n' {
            lemma_lines_shift(p, r, b + 1, b + 1);
        } else {
            lemma_lines_shift(p, r, a, b + 1);
        }
    }
}

/// The lines of `p + r` from inside `p`, when `p` ends a line.
proof fn lemma_lines_from_append(p: Seq<char>, r: Seq<char>, start: int, i: int)
    requires
        0 <= start <= i <= p.len(),
        p.len() == 0 || p.last() == '\n',
        i == p.len() ==> start == i,
    ensures
        lines_from(p + r, start, i) == lines_from(p, start, i) + lines_from(r, 0, 0),
    decreases p.len() - i,
{
    let s = p + r;
    if i == p.len() {
        lemma_lines_shift(p, r, 0, 0);
        assert(lines_from(p, start, i) =~= Seq::<Seq<char>>::empty());
        assert(lines_from(p, start, i) + lines_from(r, 0, 0) =~= lines_from(r, 0, 0));
    } else {
        assert(s[i] == p[i]);
        if p[i] == '\n' {
            assert(s.subrange(start, i) =~= p.subrange(start, i));
            lemma_lines_from_append(p, r, i + 1, i + 1);
            let x = seq![strip_cr(p.subrange(start, i))];
            assert(x + (lines_from(p, i + 1, i + 1) + lines_from(r, 0, 0)) =~= (x + lines_from(
                p,
                i + 1,
                i + 1,
            )) + lines_from(r, 0, 0));
        } else {
            lemma_lines_from_append(p, r, start, i + 1);
        }
    }
}

/// The lines of `p + r`, when `p` is empty or ends a line, are those of `p`
/// followed by those of `r`.
pub proof fn lemma_lines_append(p: Seq<char>, r: Seq<char>)
    requires
        p.len() == 0 || p.last() == '\n',
    ensures
        lines(p + r) == lines(p) + lines(r),
{
    lemma_lines_from_append(p, r, 0, 0);
}

} // verus!
