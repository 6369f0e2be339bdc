//! Character-level text handling shared by every parser in the crate.
//!
//! Text is handled as sequences of `char`. Each helper mirrors the behaviour of
//! the corresponding `str` method of the standard library (character classes,
//! trimming, searching, splitting, integer parsing), stated over `Seq<char>`.
use vstd::prelude::*;

verus! {

broadcast use vstd::string::group_string_axioms;

/* ------------------------------------------------------------ char classes */

/// Unicode `White_Space`, the set `char::is_whitespace` and `str::trim` use.
pub open spec fn is_ws(c: char) -> bool {
    ||| ('\u{9}' <= c && c <= '\u{d}')
    ||| c == ' '
    ||| c == '\u{85}'
    ||| c == '\u{a0}'
    ||| c == '\u{1680}'
    ||| ('\u{2000}' <= c && c <= '\u{200a}')
    ||| c == '\u{2028}'
    ||| c == '\u{2029}'
    ||| c == '\u{202f}'
    ||| c == '\u{205f}'
    ||| c == '\u{3000}'
}

pub open spec fn is_digit(c: char) -> bool {
    '0' <= c && c <= '9'
}

pub open spec fn is_upper(c: char) -> bool {
    'A' <= c && c <= 'Z'
}

pub open spec fn is_lower(c: char) -> bool {
    'a' <= c && c <= 'z'
}

pub open spec fn is_alpha(c: char) -> bool {
    is_upper(c) || is_lower(c)
}

pub open spec fn is_alnum(c: char) -> bool {
    is_alpha(c) || is_digit(c)
}

pub open spec fn is_hex(c: char) -> bool {
    is_digit(c) || ('a' <= c && c <= 'f') || ('A' <= c && c <= 'F')
}

pub open spec fn is_ascii_char(c: char) -> bool {
    (c as u32) < 128
}

/// `char::to_ascii_lowercase`.
pub open spec fn lower(c: char) -> char {
    if is_upper(c) { ((c as u32) + 32) as char } else { c }
}

/// `char::to_ascii_uppercase`.
pub open spec fn upper(c: char) -> char {
    if is_lower(c) { ((c as u32) - 32) as char } else { c }
}

/// Value of a hexadecimal digit.
pub open spec fn hex_value(c: char) -> int {
    if is_digit(c) {
        (c as u32) - ('0' as u32)
    } else if 'a' <= c && c <= 'f' {
        (c as u32) - ('a' as u32) + 10
    } else {
        (c as u32) - ('A' as u32) + 10
    }
}

pub fn ws(c: char) -> (b: bool)
    ensures
        b == is_ws(c),
{
    ('\u{9}' <= c && c <= '\u{d}') || c == ' ' || c == '\u{85}' || c == '\u{a0}' || c == '\u{1680}'
        || ('\u{2000}' <= c && c <= '\u{200a}') || c == '\u{2028}' || c == '\u{2029}' || c
        == '\u{202f}' || c == '\u{205f}' || c == '\u{3000}'
}

pub fn digit(c: char) -> (b: bool)
    ensures
        b == is_digit(c),
{
    '0' <= c && c <= '9'
}

pub fn alpha(c: char) -> (b: bool)
    ensures
        b == is_alpha(c),
{
    ('A' <= c && c <= 'Z') || ('a' <= c && c <= 'z')
}

pub fn alnum(c: char) -> (b: bool)
    ensures
        b == is_alnum(c),
{
    alpha(c) || digit(c)
}

pub fn hex(c: char) -> (b: bool)
    ensures
        b == is_hex(c),
{
    digit(c) || ('a' <= c && c <= 'f') || ('A' <= c && c <= 'F')
}

pub fn to_lower(c: char) -> (r: char)
    ensures
        r == lower(c),
{
    if 'A' <= c && c <= 'Z' {
        ((c as u8) + 32) as char
    } else {
        c
    }
}

pub fn to_upper(c: char) -> (r: char)
    ensures
        r == upper(c),
{
    if 'a' <= c && c <= 'z' {
        ((c as u8) - 32) as char
    } else {
        c
    }
}

/* ------------------------------------------------------ strings and chars */

/// Appends one character to a string (`String::push`).
#[verifier::external_body]
pub fn push_char(s: &mut String, c: char)
    ensures
        final(s)@ == old(s)@.push(c),
{
    s.push(c);
}

/// The characters of `s`, in order.
pub fn chars_of(s: &str) -> (out: Vec<char>)
    ensures
        out@ == s@,
{
    let mut out: Vec<char> = Vec::new();
    for c in it: s.chars()
        invariant
            it.seq() == s@,
            out@ == it.seq().take(it.index() as int),
    {
        out.push(c);
    }
    out
}

/// Builds a string from characters.
pub fn string_of(chars: &[char]) -> (out: String)
    ensures
        out@ == chars@,
{
    let mut out = String::new();
    let mut i: usize = 0;
    while i < chars.len()
        invariant
            i <= chars.len(),
            out@ == chars@.take(i as int),
        decreases chars.len() - i,
    {
        push_char(&mut out, chars[i]);
        i += 1;
        assert(chars@.take(i as int) == chars@.take((i - 1) as int).push(chars@[i - 1]));
    }
    out
}

/// Copies a string slice into an owned string.
pub fn owned(s: &str) -> (out: String)
    ensures
        out@ == s@,
{
    let chars = chars_of(s);
    string_of(&chars)
}

/// Appends characters to a string.
pub fn push_chars(s: &mut String, chars: &[char])
    ensures
        final(s)@ == old(s)@ + chars@,
{
    let mut i: usize = 0;
    while i < chars.len()
        invariant
            i <= chars.len(),
            s@ == old(s)@ + chars@.take(i as int),
        decreases chars.len() - i,
    {
        push_char(s, chars[i]);
        i += 1;
        assert(chars@.take(i as int) == chars@.take((i - 1) as int).push(chars@[i - 1]));
    }
    assert(chars@.take(chars.len() as int) == chars@);
}

/// Appends a string slice to a string.
pub fn push_str(s: &mut String, t: &str)
    ensures
        final(s)@ == old(s)@ + t@,
{
    let chars = chars_of(t);
    push_chars(s, &chars);
}

/// Copies `s[start..end]`.
pub fn slice_chars(s: &[char], start: usize, end: usize) -> (out: Vec<char>)
    requires
        start <= end <= s.len(),
    ensures
        out@ == s@.subrange(start as int, end as int),
{
    let mut out: Vec<char> = Vec::new();
    let mut i = start;
    while i < end
        invariant
            start <= i <= end <= s.len(),
            out@ == s@.subrange(start as int, i as int),
        decreases end - i,
    {
        out.push(s[i]);
        i += 1;
        assert(s@.subrange(start as int, i as int) == s@.subrange(start as int, i - 1).push(s@[i - 1]));
    }
    out
}

/// A copy of a string.
pub fn copy_text(s: &String) -> (out: String)
    ensures
        out@ == s@,
{
    owned(s.as_str())
}

/// A copy of the characters.
pub fn copy_chars(s: &[char]) -> (out: Vec<char>)
    ensures
        out@ == s@,
{
    let out = slice_chars(s, 0, s.len());
    assert(s@.subrange(0, s@.len() as int) =~= s@);
    out
}

/// `s[start..end]` as a string.
pub fn string_range(s: &[char], start: usize, end: usize) -> (out: String)
    requires
        start <= end <= s.len(),
    ensures
        out@ == s@.subrange(start as int, end as int),
{
    let v = slice_chars(s, start, end);
    string_of(&v)
}

/* ------------------------------------------------------------ lowercasing */

pub open spec fn lower_seq(s: Seq<char>) -> Seq<char> {
    Seq::new(s.len(), |i: int| lower(s[i]))
}

/// `str::to_ascii_lowercase`.
pub fn lowercase(s: &[char]) -> (out: Vec<char>)
    ensures
        out@ == lower_seq(s@),
{
    let mut out: Vec<char> = Vec::new();
    let mut i: usize = 0;
    while i < s.len()
        invariant
            i <= s.len(),
            out@ =~= lower_seq(s@.take(i as int)),
        decreases s.len() - i,
    {
        out.push(to_lower(s[i]));
        i += 1;
    }
    assert(s@.take(s.len() as int) =~= s@);
    out
}

pub open spec fn upper_seq(s: Seq<char>) -> Seq<char> {
    Seq::new(s.len(), |i: int| upper(s[i]))
}

/// `str::to_ascii_uppercase`.
pub fn uppercase(s: &[char]) -> (out: Vec<char>)
    ensures
        out@ == upper_seq(s@),
{
    let mut out: Vec<char> = Vec::new();
    let mut i: usize = 0;
    while i < s.len()
        invariant
            i <= s.len(),
            out@ =~= upper_seq(s@.take(i as int)),
        decreases s.len() - i,
    {
        out.push(to_upper(s[i]));
        i += 1;
    }
    assert(s@.take(s.len() as int) =~= s@);
    out
}

/* ---------------------------------------------------------------- trimming */

/// Index of the first non-whitespace character at or after `i`.
pub open spec fn lead_ws(s: Seq<char>, i: int) -> int
    decreases s.len() - i,
{
    if 0 <= i < s.len() && is_ws(s[i]) {
        lead_ws(s, i + 1)
    } else {
        i
    }
}

/// End of `s[..j]` once trailing whitespace is dropped.
pub open spec fn trail_ws(s: Seq<char>, j: int) -> int
    decreases j,
{
    if 0 < j <= s.len() && is_ws(s[j - 1]) {
        trail_ws(s, j - 1)
    } else {
        j
    }
}

/// `str::trim_start`.
pub open spec fn trim_start(s: Seq<char>) -> Seq<char> {
    s.subrange(lead_ws(s, 0), s.len() as int)
}

/// `str::trim_end`.
pub open spec fn trim_end(s: Seq<char>) -> Seq<char> {
    s.subrange(0, trail_ws(s, s.len() as int))
}

/// `str::trim`.
pub open spec fn trim(s: Seq<char>) -> Seq<char> {
    trim_end(trim_start(s))
}

pub proof fn lemma_lead_ws(s: Seq<char>, i: int)
    requires
        0 <= i <= s.len(),
    ensures
        i <= lead_ws(s, i) <= s.len(),
        forall|k: int| i <= k < lead_ws(s, i) ==> is_ws(#[trigger] s[k]),
        lead_ws(s, i) < s.len() ==> !is_ws(s[lead_ws(s, i)]),
    decreases s.len() - i,
{
    if i < s.len() && is_ws(s[i]) {
        lemma_lead_ws(s, i + 1);
    }
}

pub proof fn lemma_trail_ws(s: Seq<char>, j: int)
    requires
        0 <= j <= s.len(),
    ensures
        0 <= trail_ws(s, j) <= j,
        forall|k: int| trail_ws(s, j) <= k < j ==> is_ws(#[trigger] s[k]),
        trail_ws(s, j) > 0 ==> !is_ws(s[trail_ws(s, j) - 1]),
    decreases j,
{
    if j > 0 && is_ws(s[j - 1]) {
        lemma_trail_ws(s, j - 1);
    }
}

/// Bounds of `trim` within `s[lo..hi]`: the result is `s[a..b]`.
pub fn trim_bounds(s: &[char], lo: usize, hi: usize) -> (r: (usize, usize))
    requires
        lo <= hi <= s.len(),
    ensures
        lo <= r.0 <= r.1 <= hi,
        s@.subrange(r.0 as int, r.1 as int) == trim(s@.subrange(lo as int, hi as int)),
{
    let ghost t = s@.subrange(lo as int, hi as int);
    let mut a = lo;
    while a < hi && ws(s[a])
        invariant
            lo <= a <= hi <= s.len(),
            t == s@.subrange(lo as int, hi as int),
            lead_ws(t, 0) == lead_ws(t, a - lo),
        decreases hi - a,
    {
        a += 1;
    }
    proof {
        lemma_lead_ws(t, 0);
    }
    let ghost u = t.subrange(lead_ws(t, 0), t.len() as int);
    assert(u =~= s@.subrange(a as int, hi as int));
    let mut b = hi;
    while b > a && ws(s[b - 1])
        invariant
            lo <= a <= b <= hi <= s.len(),
            u == s@.subrange(a as int, hi as int),
            trail_ws(u, u.len() as int) == trail_ws(u, b - a),
        decreases b,
    {
        b -= 1;
    }
    proof {
        lemma_trail_ws(u, u.len() as int);
    }
    assert(u.subrange(0, trail_ws(u, u.len() as int)) =~= s@.subrange(a as int, b as int));
    (a, b)
}

/// `str::trim`, copied out.
pub fn trimmed(s: &[char]) -> (out: Vec<char>)
    ensures
        out@ == trim(s@),
{
    let (a, b) = trim_bounds(s, 0, s.len());
    assert(s@.subrange(0, s.len() as int) =~= s@);
    slice_chars(s, a, b)
}


/* --------------------------------------------------------------- searching */

/// `p` occurs in `s` at index `i`.
pub open spec fn matches_at(s: Seq<char>, p: Seq<char>, i: int) -> bool {
    &&& 0 <= i
    &&& i + p.len() <= s.len()
    &&& forall|k: int| 0 <= k < p.len() ==> #[trigger] s[i + k] == p[k]
}

/// First occurrence of `p` in `s` at or after `i`.
pub open spec fn find_from(s: Seq<char>, p: Seq<char>, i: int) -> Option<int>
    decreases s.len() - i,
{
    if i < 0 || i + p.len() > s.len() {
        None
    } else if matches_at(s, p, i) {
        Some(i)
    } else {
        find_from(s, p, i + 1)
    }
}

/// `str::find`, in characters.
pub open spec fn find(s: Seq<char>, p: Seq<char>) -> Option<int> {
    find_from(s, p, 0)
}

/// `str::contains`.
pub open spec fn contains(s: Seq<char>, p: Seq<char>) -> bool {
    find(s, p) is Some
}

/// `str::starts_with`.
pub open spec fn starts_with(s: Seq<char>, p: Seq<char>) -> bool {
    p.len() <= s.len() && s.take(p.len() as int) == p
}

/// `str::ends_with`.
pub open spec fn ends_with(s: Seq<char>, p: Seq<char>) -> bool {
    p.len() <= s.len() && s.skip(s.len() - p.len()) == p
}

/// `str::split_once`.
pub open spec fn split_once(s: Seq<char>, p: Seq<char>) -> Option<(Seq<char>, Seq<char>)> {
    match find(s, p) {
        Some(i) => Some((s.take(i), s.skip(i + p.len()))),
        None => None,
    }
}

pub proof fn lemma_find_from(s: Seq<char>, p: Seq<char>, i: int)
    requires
        0 <= i,
    ensures
        find_from(s, p, i) matches Some(k) ==> i <= k && matches_at(s, p, k) && forall|j: int|
            i <= j < k ==> !matches_at(s, p, j),
        find_from(s, p, i) is None ==> forall|j: int| i <= j ==> !matches_at(s, p, j),
    decreases s.len() - i,
{
    if i + p.len() > s.len() {
    } else if matches_at(s, p, i) {
    } else {
        lemma_find_from(s, p, i + 1);
        assert forall|j: int| i <= j && find_from(s, p, i + 1) is None implies !matches_at(
            s,
            p,
            j,
        ) by {
            if j > i {
            }
        }
    }
}

/// Whether `p` occurs in `s` at `i`.
pub fn match_at(s: &[char], p: &[char], i: usize) -> (b: bool)
    ensures
        b == matches_at(s@, p@, i as int),
{
    if p.len() > s.len() || i > s.len() - p.len() {
        return false;
    }
    let mut k: usize = 0;
    while k < p.len()
        invariant
            k <= p.len(),
            i + p.len() <= s.len(),
            forall|j: int| 0 <= j < k ==> #[trigger] s@[i + j] == p@[j],
        decreases p.len() - k,
    {
        if s[i + k] != p[k] {
            return false;
        }
        k += 1;
    }
    true
}

/// First occurrence of `p` in `s` at or after `from`.
pub fn find_chars(s: &[char], p: &[char], from: usize) -> (r: Option<usize>)
    ensures
        r matches Some(k) ==> find_from(s@, p@, from as int) == Some(k as int),
        r is None ==> find_from(s@, p@, from as int) is None,
{
    let mut i = from;
    if p.len() > s.len() {
        proof {
            lemma_find_from_none(s@, p@, from as int);
        }
        return None;
    }
    while i <= s.len() - p.len()
        invariant
            from <= i,
            p.len() <= s.len(),
            find_from(s@, p@, from as int) == find_from(s@, p@, i as int),
        decreases s.len() - i,
    {
        if match_at(s, p, i) {
            return Some(i);
        }
        i += 1;
    }
    None
}

proof fn lemma_find_from_none(s: Seq<char>, p: Seq<char>, i: int)
    requires
        p.len() > s.len(),
    ensures
        find_from(s, p, i) is None,
{
}

/// `str::contains` on characters.
pub fn contains_chars(s: &[char], p: &[char]) -> (b: bool)
    ensures
        b == contains(s@, p@),
{
    find_chars(s, p, 0).is_some()
}

/// `str::contains` for a string slice pattern.
pub fn has(s: &[char], p: &str) -> (b: bool)
    ensures
        b == contains(s@, p@),
{
    let pc = chars_of(p);
    contains_chars(s, &pc)
}

/// Whether two strings hold the same characters.
pub fn str_eq(a: &str, b: &str) -> (r: bool)
    ensures
        r == (a@ == b@),
{
    let x = chars_of(a);
    let y = chars_of(b);
    if x.len() != y.len() {
        return false;
    }
    let m = match_at(&x, &y, 0);
    proof {
        if m {
            assert forall|j: int| 0 <= j < y@.len() implies x@[j] == y@[j] by {
                assert(x@[0 + j] == y@[j]);
            }
            assert(x@ =~= y@);
        }
        if x@ == y@ {
            assert(matches_at(x@, y@, 0));
        }
    }
    m
}

/// Whether two character slices are equal.
pub fn chars_eq(a: &[char], b: &[char]) -> (r: bool)
    ensures
        r == (a@ == b@),
{
    if a.len() != b.len() {
        return false;
    }
    let m = match_at(a, b, 0);
    proof {
        if m {
            assert forall|j: int| 0 <= j < b@.len() implies a@[j] == b@[j] by {
                assert(a@[0 + j] == b@[j]);
            }
            assert(a@ =~= b@);
        }
        if a@ == b@ {
            assert(matches_at(a@, b@, 0));
        }
    }
    m
}

/// Whether the characters spell exactly `p`.
pub fn is_text(s: &[char], p: &str) -> (r: bool)
    ensures
        r == (s@ == p@),
{
    let pc = chars_of(p);
    chars_eq(s, &pc)
}

/// Lexicographic order on characters, as `str`'s ordering compares them.
pub open spec fn text_less(a: Seq<char>, b: Seq<char>) -> bool
    decreases a.len(),
{
    if b.len() == 0 {
        false
    } else if a.len() == 0 {
        true
    } else if a[0] != b[0] {
        a[0] < b[0]
    } else {
        text_less(a.drop_first(), b.drop_first())
    }
}

pub fn less_text(a: &str, b: &str) -> (r: bool)
    ensures
        r == text_less(a@, b@),
{
    let x = chars_of(a);
    let y = chars_of(b);
    less_text_chars(&x, &y)
}

/// Lexicographic order on character slices.
pub fn less_text_chars(x: &[char], y: &[char]) -> (r: bool)
    ensures
        r == text_less(x@, y@),
{
    let mut i: usize = 0;
    assert(x@.skip(0) =~= x@);
    assert(y@.skip(0) =~= y@);
    while i < x.len() && i < y.len()
        invariant
            i <= x@.len(),
            i <= y@.len(),
            text_less(x@, y@) == text_less(x@.skip(i as int), y@.skip(i as int)),
        decreases x.len() - i,
    {
        assert(x@.skip(i as int)[0] == x@[i as int]);
        assert(y@.skip(i as int)[0] == y@[i as int]);
        if x[i] != y[i] {
            return x[i] < y[i];
        }
        proof {
            assert(x@.skip(i as int).drop_first() =~= x@.skip(i + 1));
            assert(y@.skip(i as int).drop_first() =~= y@.skip(i + 1));
        }
        i += 1;
    }
    assert(i == x@.len() ==> x@.skip(i as int).len() == 0);
    assert(i == y@.len() ==> y@.skip(i as int).len() == 0);
    i < y.len()
}


/// Lexicographic order is a strict total order.
pub proof fn lemma_text_less_total(a: Seq<char>, b: Seq<char>)
    ensures
        !(text_less(a, b) && text_less(b, a)),
        a != b ==> text_less(a, b) || text_less(b, a),
        !text_less(a, a),
    decreases a.len(),
{
    if a.len() > 0 && b.len() > 0 && a[0] == b[0] {
        lemma_text_less_total(a.drop_first(), b.drop_first());
        if a != b {
            assert(a.drop_first() != b.drop_first()) by {
                if a.drop_first() == b.drop_first() {
                    assert(a.len() == b.len());
                    assert forall|i: int| 0 <= i < a.len() implies a[i] == b[i] by {
                        if i > 0 {
                            assert(a[i] == a.drop_first()[i - 1]);
                            assert(b[i] == b.drop_first()[i - 1]);
                        }
                    }
                    assert(a =~= b);
                }
            }
        }
    }
    if a.len() > 0 {
        lemma_text_less_total(a.drop_first(), a.drop_first());
    }
    if a.len() == 0 && b.len() == 0 {
        assert(a =~= b);
    }
}

pub proof fn lemma_text_less_trans(a: Seq<char>, b: Seq<char>, c: Seq<char>)
    requires
        text_less(a, b),
        text_less(b, c),
    ensures
        text_less(a, c),
    decreases a.len(),
{
    if a.len() > 0 && b.len() > 0 && c.len() > 0 && a[0] == b[0] && b[0] == c[0] {
        lemma_text_less_trans(a.drop_first(), b.drop_first(), c.drop_first());
    }
}

/// `str::starts_with` on characters.
pub fn starts_with_chars(s: &[char], p: &[char]) -> (b: bool)
    ensures
        b == starts_with(s@, p@),
{
    let b = match_at(s, p, 0);
    proof {
        if b {
            assert forall|k: int| 0 <= k < p@.len() implies s@.take(p@.len() as int)[k] == p@[k] by {
                assert(s@[0 + k] == p@[k]);
            }
            assert(s@.take(p@.len() as int) =~= p@);
        }
        if starts_with(s@, p@) {
            assert forall|k: int| 0 <= k < p@.len() implies #[trigger] s@[0 + k] == p@[k] by {
                assert(s@.take(p@.len() as int)[k] == p@[k]);
            }
        }
    }
    b
}

/// `str::starts_with` for a string slice pattern.
pub fn begins(s: &[char], p: &str) -> (b: bool)
    ensures
        b == starts_with(s@, p@),
{
    let pc = chars_of(p);
    starts_with_chars(s, &pc)
}

/// `str::ends_with` on characters.
pub fn ends_with_chars(s: &[char], p: &[char]) -> (b: bool)
    ensures
        b == ends_with(s@, p@),
{
    if p.len() > s.len() {
        return false;
    }
    let b = match_at(s, p, s.len() - p.len());
    proof {
        let st = s@.len() - p@.len();
        if b {
            assert forall|k: int| 0 <= k < p@.len() implies s@.skip(st)[k] == p@[k] by {
                assert(s@[st + k] == p@[k]);
            }
            assert(s@.skip(st) =~= p@);
        }
        if ends_with(s@, p@) {
            assert forall|k: int| 0 <= k < p@.len() implies #[trigger] s@[st + k] == p@[k] by {
                assert(s@.skip(st)[k] == p@[k]);
            }
        }
    }
    b
}

/// `str::ends_with` for a string slice pattern.
pub fn finishes(s: &[char], p: &str) -> (b: bool)
    ensures
        b == ends_with(s@, p@),
{
    let pc = chars_of(p);
    ends_with_chars(s, &pc)
}

/// `str::split_once`, as the index where the pattern starts.
pub fn split_once_at(s: &[char], p: &[char]) -> (r: Option<usize>)
    ensures
        r matches Some(i) ==> find(s@, p@) == Some(i as int) && i + p.len() <= s.len(),
        r is None ==> find(s@, p@) is None,
{
    let r = find_chars(s, p, 0);
    proof {
        lemma_find_from(s@, p@, 0);
    }
    r
}

/// `str::split_once`, copied out.
pub fn split_once_chars(s: &[char], p: &[char]) -> (r: Option<(Vec<char>, Vec<char>)>)
    ensures
        r matches Some((a, b)) ==> split_once(s@, p@) == Some((a@, b@)),
        r is None ==> split_once(s@, p@) is None,
{
    match split_once_at(s, p) {
        Some(i) => {
            let a = slice_chars(s, 0, i);
            let b = slice_chars(s, i + p.len(), s.len());
            assert(a@ =~= s@.take(i as int));
            assert(b@ =~= s@.skip(i + p.len()));
            Some((a, b))
        },
        None => None,
    }
}


/* ---------------------------------------------------------------- splitting */

/// The contents of a list of character vectors.
/// The character sequences of a list of strings.
pub open spec fn strings_view(v: Seq<String>) -> Seq<Seq<char>> {
    Seq::new(v.len(), |i: int| v[i]@)
}

pub open spec fn views(v: Seq<Vec<char>>) -> Seq<Seq<char>> {
    Seq::new(v.len(), |i: int| v[i]@)
}

pub proof fn lemma_views_push(v: Seq<Vec<char>>, x: Vec<char>)
    ensures
        views(v.push(x)) == views(v).push(x@),
{
    assert(views(v.push(x)) =~= views(v).push(x@));
}

/// Character vectors as strings.
pub fn strings_of(v: &Vec<Vec<char>>) -> (out: Vec<String>)
    ensures
        strings_view(out@) == views(v@),
{
    let mut out: Vec<String> = Vec::new();
    let mut i: usize = 0;
    while i < v.len()
        invariant
            i <= v@.len(),
            strings_view(out@) == views(v@).take(i as int),
        decreases v.len() - i,
    {
        let s = string_of(&v[i]);
        let ghost before = out@;
        assert(views(v@)[i as int] == v@[i as int]@);
        out.push(s);
        assert(strings_view(out@) =~= strings_view(before).push(s@));
        assert(views(v@).take(i + 1) =~= views(v@).take(i as int).push(views(v@)[i as int]));
        i += 1;
    }
    assert(views(v@).take(v@.len() as int) =~= views(v@));
    out
}

/// A line without the `\r` of a `\r\n` terminator.
pub open spec fn strip_cr(l: Seq<char>) -> Seq<char> {
    if l.len() > 0 && l.last() == '\r' {
        l.drop_last()
    } else {
        l
    }
}

/// Complete lines of `s[..i]` and where the unfinished one starts.
pub open spec fn line_scan(s: Seq<char>, i: int) -> (Seq<Seq<char>>, int)
    decreases i,
{
    if i <= 0 || i > s.len() {
        (seq![], 0)
    } else {
        let prev = line_scan(s, i - 1);
        if s[i - 1] == '\n' {
            (prev.0.push(strip_cr(s.subrange(prev.1, i - 1))), i)
        } else {
            prev
        }
    }
}

/// `str::lines`: split at `\n` or `\r\n`; a final terminator ends the last
/// line rather than starting an empty one.
pub open spec fn lines(s: Seq<char>) -> Seq<Seq<char>> {
    let r = line_scan(s, s.len() as int);
    if r.1 < s.len() {
        r.0.push(s.subrange(r.1, s.len() as int))
    } else {
        r.0
    }
}

pub proof fn lemma_line_scan(s: Seq<char>, i: int)
    requires
        0 <= i <= s.len(),
    ensures
        0 <= line_scan(s, i).1 <= i,
    decreases i,
{
    if i > 0 {
        lemma_line_scan(s, i - 1);
    }
}

/// The lines of `s`.
pub fn lines_of(s: &[char]) -> (out: Vec<Vec<char>>)
    ensures
        views(out@) == lines(s@),
{
    let mut out: Vec<Vec<char>> = Vec::new();
    let mut start: usize = 0;
    let mut i: usize = 0;
    while i < s.len()
        invariant
            i <= s.len(),
            (views(out@), start as int) == line_scan(s@, i as int),
        decreases s.len() - i,
    {
        proof {
            lemma_line_scan(s@, i as int);
        }
        if s[i] == '\n' {
            let mut end = i;
            if end > start && s[end - 1] == '\r' {
                end -= 1;
            }
            let line = slice_chars(s, start, end);
            proof {
                let raw = s@.subrange(start as int, i as int);
                assert(line@ =~= strip_cr(raw));
                lemma_views_push(out@, line);
            }
            out.push(line);
            start = i + 1;
        }
        i += 1;
    }
    proof {
        lemma_line_scan(s@, s.len() as int);
    }
    if start < s.len() {
        let last = slice_chars(s, start, s.len());
        proof {
            lemma_views_push(out@, last);
        }
        out.push(last);
    }
    out
}

/// Pieces of `s[..i]` split at `c`, and where the unfinished piece starts.
pub open spec fn split_scan(s: Seq<char>, c: char, i: int) -> (Seq<Seq<char>>, int)
    decreases i,
{
    if i <= 0 || i > s.len() {
        (seq![], 0)
    } else {
        let prev = split_scan(s, c, i - 1);
        if s[i - 1] == c {
            (prev.0.push(s.subrange(prev.1, i - 1)), i)
        } else {
            prev
        }
    }
}

/// `str::split` with a character pattern.
pub open spec fn split_char(s: Seq<char>, c: char) -> Seq<Seq<char>> {
    let r = split_scan(s, c, s.len() as int);
    r.0.push(s.subrange(r.1, s.len() as int))
}

pub proof fn lemma_split_scan(s: Seq<char>, c: char, i: int)
    requires
        0 <= i <= s.len(),
    ensures
        0 <= split_scan(s, c, i).1 <= i,
    decreases i,
{
    if i > 0 {
        lemma_split_scan(s, c, i - 1);
    }
}

/// The pieces of `s` between occurrences of `c`.
pub fn split_on(s: &[char], c: char) -> (out: Vec<Vec<char>>)
    ensures
        views(out@) == split_char(s@, c),
        out@.len() >= 1,
{
    let mut out: Vec<Vec<char>> = Vec::new();
    let mut start: usize = 0;
    let mut i: usize = 0;
    while i < s.len()
        invariant
            i <= s.len(),
            (views(out@), start as int) == split_scan(s@, c, i as int),
        decreases s.len() - i,
    {
        proof {
            lemma_split_scan(s@, c, i as int);
        }
        if s[i] == c {
            let piece = slice_chars(s, start, i);
            proof {
                lemma_views_push(out@, piece);
            }
            out.push(piece);
            start = i + 1;
        }
        i += 1;
    }
    proof {
        lemma_split_scan(s@, c, s.len() as int);
    }
    let last = slice_chars(s, start, s.len());
    proof {
        lemma_views_push(out@, last);
    }
    out.push(last);
    out
}

/// Words of `s[..i]` and where the word in progress starts (-1 when between words).
pub open spec fn word_scan(s: Seq<char>, i: int) -> (Seq<Seq<char>>, int)
    decreases i,
{
    if i <= 0 || i > s.len() {
        (seq![], -1)
    } else {
        let prev = word_scan(s, i - 1);
        if is_ws(s[i - 1]) {
            if prev.1 >= 0 {
                (prev.0.push(s.subrange(prev.1, i - 1)), -1)
            } else {
                prev
            }
        } else if prev.1 >= 0 {
            prev
        } else {
            (prev.0, i - 1)
        }
    }
}

/// `str::split_whitespace`.
pub open spec fn words(s: Seq<char>) -> Seq<Seq<char>> {
    let r = word_scan(s, s.len() as int);
    if r.1 >= 0 {
        r.0.push(s.subrange(r.1, s.len() as int))
    } else {
        r.0
    }
}

pub proof fn lemma_word_scan(s: Seq<char>, i: int)
    requires
        0 <= i <= s.len(),
    ensures
        -1 <= word_scan(s, i).1 < i,
    decreases i,
{
    if i > 0 {
        lemma_word_scan(s, i - 1);
    }
}

/// The whitespace-separated words of `s`.
pub fn words_of(s: &[char]) -> (out: Vec<Vec<char>>)
    ensures
        views(out@) == words(s@),
{
    let mut out: Vec<Vec<char>> = Vec::new();
    let mut in_word = false;
    let mut start: usize = 0;
    let mut i: usize = 0;
    while i < s.len()
        invariant
            i <= s.len(),
            in_word ==> start < i,
            (views(out@), if in_word { start as int } else { -1 }) == word_scan(s@, i as int),
        decreases s.len() - i,
    {
        proof {
            lemma_word_scan(s@, i as int);
        }
        if ws(s[i]) {
            if in_word {
                let w = slice_chars(s, start, i);
                proof {
                    lemma_views_push(out@, w);
                }
                out.push(w);
                in_word = false;
            }
        } else if !in_word {
            in_word = true;
            start = i;
        }
        i += 1;
    }
    if in_word {
        let w = slice_chars(s, start, s.len());
        proof {
            lemma_views_push(out@, w);
        }
        out.push(w);
    }
    out
}


/* ------------------------------------------------------------------ numbers */

/// `c` is a digit of `radix` (10 or 16).
pub open spec fn digit_ok(c: char, radix: int) -> bool {
    is_hex(c) && hex_value(c) < radix
}

/// Value of the digit string `s` in `radix`.
pub open spec fn radix_value(s: Seq<char>, radix: int) -> int
    decreases s.len(),
{
    if s.len() == 0 {
        0
    } else {
        radix_value(s.drop_last(), radix) * radix + hex_value(s.last())
    }
}

/// The digits of an unsigned integer literal: one leading `+` is allowed.
pub open spec fn unsigned_body(s: Seq<char>) -> Seq<char> {
    if s.len() > 0 && s[0] == '+' {
        s.drop_first()
    } else {
        s
    }
}

/// `uN::from_str_radix(s, radix)` for the unsigned type whose maximum is `max`:
/// an optional `+`, then at least one digit, and nothing else; out of range is
/// an error.
pub open spec fn parse_unsigned(s: Seq<char>, radix: int, max: int) -> Option<int> {
    let b = unsigned_body(s);
    if b.len() == 0 || exists|i: int| 0 <= i < b.len() && !digit_ok(#[trigger] b[i], radix) {
        None
    } else if radix_value(b, radix) > max {
        None
    } else {
        Some(radix_value(b, radix))
    }
}

pub proof fn lemma_radix_value_nonneg(s: Seq<char>, radix: int)
    requires
        radix >= 1,
        forall|i: int| 0 <= i < s.len() ==> digit_ok(#[trigger] s[i], radix),
    ensures
        radix_value(s, radix) >= 0,
    decreases s.len(),
{
    if s.len() > 0 {
        lemma_radix_value_nonneg(s.drop_last(), radix);
        let v = radix_value(s.drop_last(), radix);
        assert(v * radix >= 0) by (nonlinear_arith)
            requires
                v >= 0,
                radix >= 1,
        ;
    }
}

/// A longer digit string is worth at least as much as its prefix.
pub proof fn lemma_radix_value_monotone(s: Seq<char>, radix: int, k: int)
    requires
        radix >= 1,
        0 <= k <= s.len(),
        forall|i: int| 0 <= i < s.len() ==> digit_ok(#[trigger] s[i], radix),
    ensures
        radix_value(s.take(k), radix) <= radix_value(s, radix),
    decreases s.len(),
{
    if k == s.len() {
        assert(s.take(k) =~= s);
    } else {
        let t = s.drop_last();
        lemma_radix_value_monotone(t, radix, k);
        assert(t.take(k) =~= s.take(k));
        lemma_radix_value_nonneg(t, radix);
        let v = radix_value(t, radix);
        assert(v * radix >= v) by (nonlinear_arith)
            requires
                v >= 0,
                radix >= 1,
        ;
    }
}

/// `uN::from_str_radix(&s[lo..hi], radix)`, for a type whose maximum is `max`.
pub fn parse_unsigned_range(s: &[char], lo: usize, hi: usize, radix: u64, max: u64) -> (r: Option<
    u64,
>)
    requires
        lo <= hi <= s.len(),
        radix == 10 || radix == 16,
        max <= u32::MAX,
    ensures
        r matches Some(v) ==> parse_unsigned(s@.subrange(lo as int, hi as int), radix as int, max as int)
            == Some(v as int),
        r is None ==> parse_unsigned(s@.subrange(lo as int, hi as int), radix as int, max as int) is None,
{
    let ghost t = s@.subrange(lo as int, hi as int);
    let mut start = lo;
    if lo < hi && s[lo] == '+' {
        start = lo + 1;
    }
    let ghost b = s@.subrange(start as int, hi as int);
    assert(b =~= unsigned_body(t));
    if start == hi {
        return None;
    }
    let mut acc: u64 = 0;
    let mut i = start;
    while i < hi
        invariant
            lo <= start <= i <= hi <= s.len(),
            b == s@.subrange(start as int, hi as int),
            b == unsigned_body(s@.subrange(lo as int, hi as int)),
            b.len() > 0,
            radix == 10 || radix == 16,
            max <= u32::MAX,
            acc <= max,
            forall|k: int| 0 <= k < i - start ==> digit_ok(#[trigger] b[k], radix as int),
            acc as int == radix_value(b.take(i - start), radix as int),
        decreases hi - i,
    {
        let c = s[i];
        let d: u64;
        if '0' <= c && c <= '9' {
            d = (c as u64) - ('0' as u64);
        } else if 'a' <= c && c <= 'f' {
            d = (c as u64) - ('a' as u64) + 10;
        } else if 'A' <= c && c <= 'F' {
            d = (c as u64) - ('A' as u64) + 10;
        } else {
            assert(!digit_ok(b[i - start], radix as int));
            return None;
        }
        if d >= radix {
            assert(!digit_ok(b[i - start], radix as int));
            return None;
        }
        proof {
            assert(b.take(i - start + 1).drop_last() =~= b.take(i - start));
        }
        assert(acc * radix <= u32::MAX * 16) by (nonlinear_arith)
            requires
                acc <= u32::MAX,
                radix <= 16,
        ;
        acc = acc * radix + d;
        i += 1;
        if acc > max {
            proof {
                if forall|k: int| 0 <= k < b.len() ==> digit_ok(#[trigger] b[k], radix as int) {
                    lemma_radix_value_monotone(b, radix as int, i - start);
                }
            }
            return None;
        }
    }
    assert(b.take(i - start) =~= b);
    Some(acc)
}

/// `uN::from_str(s)` over a whole character slice.
pub fn parse_unsigned_chars(s: &[char], max: u64) -> (r: Option<u64>)
    requires
        max <= u32::MAX,
    ensures
        r matches Some(v) ==> parse_unsigned(s@, 10, max as int) == Some(v as int),
        r is None ==> parse_unsigned(s@, 10, max as int) is None,
{
    assert(s@.subrange(0, s@.len() as int) =~= s@);
    parse_unsigned_range(s, 0, s.len(), 10, max)
}

/// `s.parse::<i32>()`: an optional sign, then at least one digit; out of
/// range is an error.
pub open spec fn parse_i32(s: Seq<char>) -> Option<int> {
    if s.len() > 0 && s[0] == '-' {
        let b = s.drop_first();
        if b.len() > 0 && b[0] != '+' {
            match parse_unsigned(b, 10, 0x8000_0000) {
                Some(v) => Some(-v),
                None => None,
            }
        } else {
            None
        }
    } else {
        parse_unsigned(s, 10, 0x7fff_ffff)
    }
}

pub fn parse_i32_chars(s: &[char]) -> (r: Option<i32>)
    ensures
        r matches Some(v) ==> parse_i32(s@) == Some(v as int),
        r is None ==> parse_i32(s@) is None,
{
    if s.len() > 0 && s[0] == '-' {
        if s.len() > 1 && s[1] != '+' {
            assert(s@.subrange(1, s@.len() as int) =~= s@.drop_first());
            match parse_unsigned_range(s, 1, s.len(), 10, 0x8000_0000) {
                Some(v) => {
                    let w: i64 = 0i64 - (v as i64);
                    Some(w as i32)
                },
                None => None,
            }
        } else {
            None
        }
    } else {
        match parse_unsigned_chars(s, 0x7fff_ffff) {
            Some(v) => Some(v as i32),
            None => None,
        }
    }
}

/// Bytes of a character in UTF-8.
pub open spec fn utf8_len(c: char) -> int {
    if (c as u32) < 0x80 {
        1
    } else if (c as u32) < 0x800 {
        2
    } else if (c as u32) < 0x10000 {
        3
    } else {
        4
    }
}

/// Bytes of the leading whitespace of `s` (what `s.len() - s.trim_start().len()` counts).
pub open spec fn lead_bytes(s: Seq<char>) -> int
    decreases s.len(),
{
    if s.len() > 0 && is_ws(s[0]) {
        utf8_len(s[0]) + lead_bytes(s.drop_first())
    } else {
        0
    }
}

pub fn indent_bytes(s: &[char]) -> (n: u128)
    ensures
        n == lead_bytes(s@),
{
    let mut k: usize = 0;
    let mut n: u128 = 0;
    assert(s@.skip(0) =~= s@);
    while k < s.len() && ws(s[k])
        invariant
            k <= s@.len(),
            n <= 4 * k,
            lead_bytes(s@) == n + lead_bytes(s@.skip(k as int)),
        decreases s.len() - k,
    {
        assert(s@.skip(k as int).drop_first() =~= s@.skip(k + 1));
        let u = s[k] as u32;
        let b: u128 = if u < 0x80 {
            1
        } else if u < 0x800 {
            2
        } else if u < 0x10000 {
            3
        } else {
            4
        };
        n = n + b;
        k += 1;
    }
    n
}

/// `uN::from_str_radix(s, radix)` for an unsigned type whose maximum fits 64 bits.
pub fn parse_unsigned_wide(s: &[char], radix: u64, max: u128) -> (r: Option<u128>)
    requires
        radix == 10 || radix == 16,
        max <= u64::MAX,
    ensures
        r matches Some(v) ==> parse_unsigned(s@, radix as int, max as int) == Some(v as int),
        r is None ==> parse_unsigned(s@, radix as int, max as int) is None,
{
    let mut start: usize = 0;
    if s.len() > 0 && s[0] == '+' {
        start = 1;
    }
    let ghost b = s@.subrange(start as int, s@.len() as int);
    assert(b =~= unsigned_body(s@));
    if start == s.len() {
        return None;
    }
    let mut acc: u128 = 0;
    let mut i = start;
    while i < s.len()
        invariant
            start <= i <= s@.len(),
            b == s@.subrange(start as int, s@.len() as int),
            b == unsigned_body(s@),
            b.len() > 0,
            radix == 10 || radix == 16,
            max <= u64::MAX,
            acc <= max,
            forall|k: int| 0 <= k < i - start ==> digit_ok(#[trigger] b[k], radix as int),
            acc as int == radix_value(b.take(i - start), radix as int),
        decreases s.len() - i,
    {
        let c = s[i];
        let d: u128;
        if '0' <= c && c <= '9' {
            d = (c as u128) - ('0' as u128);
        } else if 'a' <= c && c <= 'f' {
            d = (c as u128) - ('a' as u128) + 10;
        } else if 'A' <= c && c <= 'F' {
            d = (c as u128) - ('A' as u128) + 10;
        } else {
            assert(!digit_ok(b[i - start], radix as int));
            return None;
        }
        if d >= radix as u128 {
            assert(!digit_ok(b[i - start], radix as int));
            return None;
        }
        proof {
            assert(b.take(i - start + 1).drop_last() =~= b.take(i - start));
        }
        assert(acc * (radix as u128) <= u64::MAX * 16) by (nonlinear_arith)
            requires
                acc <= u64::MAX,
                radix <= 16,
        ;
        acc = acc * (radix as u128) + d;
        i += 1;
        if acc > max {
            proof {
                if forall|k: int| 0 <= k < b.len() ==> digit_ok(#[trigger] b[k], radix as int) {
                    lemma_radix_value_monotone(b, radix as int, i - start);
                }
            }
            return None;
        }
    }
    assert(b.take(i - start) =~= b);
    Some(acc)
}

/// Bytes of the characters in UTF-8.
pub open spec fn bytes_of(s: Seq<char>) -> int
    decreases s.len(),
{
    if s.len() == 0 {
        0
    } else {
        bytes_of(s.drop_last()) + utf8_len(s.last())
    }
}

/// The number of leading characters from `k` on that make exactly `n`
/// bytes, when a character boundary falls there.
pub open spec fn cut_at(s: Seq<char>, n: int, k: int) -> Option<int>
    decreases s.len() - k,
{
    if k < 0 || k > s.len() || bytes_of(s.take(k)) > n {
        None
    } else if bytes_of(s.take(k)) == n {
        Some(k)
    } else if k == s.len() {
        None
    } else {
        cut_at(s, n, k + 1)
    }
}

/// Bytes of the characters in UTF-8, as a count.
pub fn byte_len(s: &[char]) -> (n: u128)
    ensures
        n == bytes_of(s@),
{
    let mut n: u128 = 0;
    let mut i: usize = 0;
    while i < s.len()
        invariant
            i <= s@.len(),
            n <= 4 * i,
            n == bytes_of(s@.take(i as int)),
        decreases s.len() - i,
    {
        assert(s@.take(i + 1).drop_last() =~= s@.take(i as int));
        let u = s[i] as u32;
        let b: u128 = if u < 0x80 {
            1
        } else if u < 0x800 {
            2
        } else if u < 0x10000 {
            3
        } else {
            4
        };
        n = n + b;
        i += 1;
    }
    assert(s@.take(s@.len() as int) =~= s@);
    n
}

/// Where the first `n` bytes end, in characters, if on a boundary.
pub fn cut_bytes(s: &[char], n: u128) -> (r: Option<usize>)
    ensures
        r matches Some(k) ==> cut_at(s@, n as int, 0) == Some(k as int) && k <= s@.len(),
        r is None ==> cut_at(s@, n as int, 0) is None,
{
    let mut acc: u128 = 0;
    let mut k: usize = 0;
    assert(s@.take(0) =~= Seq::<char>::empty());
    while k <= s.len()
        invariant
            k <= s@.len() + 1,
            k <= s@.len() ==> acc == bytes_of(s@.take(k as int)) && acc <= 4 * k,
            cut_at(s@, n as int, 0) == cut_at(s@, n as int, k as int),
        decreases s.len() + 1 - k,
    {
        if acc > n {
            return None;
        }
        if acc == n {
            return Some(k);
        }
        if k == s.len() {
            return None;
        }
        assert(s@.take(k + 1).drop_last() =~= s@.take(k as int));
        let u = s[k] as u32;
        let b: u128 = if u < 0x80 {
            1
        } else if u < 0x800 {
            2
        } else if u < 0x10000 {
            3
        } else {
            4
        };
        acc = acc + b;
        k += 1;
    }
    None
}

/// The character of a decimal digit.
pub open spec fn digit_char(d: int) -> char {
    (d + 48) as char
}

/// The character of a lowercase hexadecimal digit.
pub open spec fn hex_char_lower(d: int) -> char {
    if d < 10 {
        (d + 48) as char
    } else {
        (d + 87) as char
    }
}

/// The character of an uppercase hexadecimal digit.
pub open spec fn hex_char_upper(d: int) -> char {
    if d < 10 {
        (d + 48) as char
    } else {
        (d + 55) as char
    }
}

/// Decimal representation of `n`, as `Display` writes it.
pub open spec fn dec(n: nat) -> Seq<char>
    decreases n,
{
    if n < 10 {
        seq![digit_char(n as int)]
    } else {
        dec(n / 10).push(digit_char((n % 10) as int))
    }
}

/// Decimal digits of `n`.
pub fn dec_chars(n: u64) -> (out: Vec<char>)
    ensures
        out@ == dec(n as nat),
    decreases n,
{
    if n < 10 {
        let c = ((n as u8) + 48) as char;
        let mut v = Vec::new();
        v.push(c);
        assert(v@ =~= seq![digit_char(n as int)]);
        v
    } else {
        let mut v = dec_chars(n / 10);
        let c = (((n % 10) as u8) + 48) as char;
        v.push(c);
        v
    }
}

/// Decimal digits of `n`, appended to `s`.
pub fn push_dec(s: &mut String, n: u64)
    ensures
        final(s)@ == old(s)@ + dec(n as nat),
{
    let d = dec_chars(n);
    push_chars(s, &d);
}

/// `n.to_string()`.
pub fn dec_text(n: u64) -> (s: String)
    ensures
        s@ == dec(n as nat),
{
    let d = dec_chars(n);
    string_of(&d)
}

/// Decimal digits of a wide `n`.
pub fn dec_chars_wide(n: u128) -> (out: Vec<char>)
    ensures
        out@ == dec(n as nat),
    decreases n,
{
    if n < 10 {
        let c = ((n as u8) + 48) as char;
        let mut v = Vec::new();
        v.push(c);
        assert(v@ =~= seq![digit_char(n as int)]);
        v
    } else {
        let mut v = dec_chars_wide(n / 10);
        let c = (((n % 10) as u8) + 48) as char;
        v.push(c);
        v
    }
}

/// Decimal digits of a wide `n`, appended to `s`.
pub fn push_dec_wide(s: &mut String, n: u128)
    ensures
        final(s)@ == old(s)@ + dec(n as nat),
{
    let d = dec_chars_wide(n);
    push_chars(s, &d);
}

/// Two lowercase hex digits of a byte, as `{:02x}` writes them.
pub open spec fn hex2_lower(b: u8) -> Seq<char> {
    seq![hex_char_lower(b as int / 16), hex_char_lower(b as int % 16)]
}

/// Two uppercase hex digits of a byte, as `{:02X}` writes them.
pub open spec fn hex2_upper(b: u8) -> Seq<char> {
    seq![hex_char_upper(b as int / 16), hex_char_upper(b as int % 16)]
}

fn hex_digit_char(d: u8, upper: bool) -> (c: char)
    requires
        d < 16,
    ensures
        upper ==> c == hex_char_upper(d as int),
        !upper ==> c == hex_char_lower(d as int),
{
    if d < 10 {
        (d + 48) as char
    } else if upper {
        (d + 55) as char
    } else {
        (d + 87) as char
    }
}

/// Appends `{:02x}` (or `{:02X}`) of a byte.
pub fn push_hex2(s: &mut String, b: u8, upper: bool)
    ensures
        upper ==> final(s)@ == old(s)@ + hex2_upper(b),
        !upper ==> final(s)@ == old(s)@ + hex2_lower(b),
{
    push_char(s, hex_digit_char(b / 16, upper));
    push_char(s, hex_digit_char(b % 16, upper));
    proof {
        if upper {
            assert(s@ =~= old(s)@ + hex2_upper(b));
        } else {
            assert(s@ =~= old(s)@ + hex2_lower(b));
        }
    }
}

/* ------------------------------------------------------------------ joining */

/// `[T]::join(sep)`.
pub open spec fn join(parts: Seq<Seq<char>>, sep: Seq<char>) -> Seq<char>
    decreases parts.len(),
{
    if parts.len() == 0 {
        seq![]
    } else if parts.len() == 1 {
        parts[0]
    } else {
        join(parts.drop_last(), sep) + sep + parts.last()
    }
}

/// `[String]::join(sep)`.
pub fn join_strings(items: &Vec<String>, sep: &str) -> (s: String)
    ensures
        s@ == join(strings_view(items@), sep@),
{
    let mut parts: Vec<Vec<char>> = Vec::new();
    let mut i: usize = 0;
    while i < items.len()
        invariant
            i <= items@.len(),
            views(parts@) == strings_view(items@).take(i as int),
        decreases items.len() - i,
    {
        let ghost before = parts@;
        let c = chars_of(items[i].as_str());
        parts.push(c);
        proof {
            crate::text::lemma_views_push(before, c);
        }
        i += 1;
        assert(views(parts@) =~= strings_view(items@).take(i as int));
    }
    assert(strings_view(items@).take(items@.len() as int) =~= strings_view(items@));
    let sc = chars_of(sep);
    string_of(&join_chars(&parts, &sc))
}

/// Joins the pieces with `sep` between them.
pub fn join_chars(parts: &Vec<Vec<char>>, sep: &[char]) -> (out: Vec<char>)
    ensures
        out@ == join(views(parts@), sep@),
{
    let mut out: Vec<char> = Vec::new();
    let mut i: usize = 0;
    while i < parts.len()
        invariant
            i <= parts.len(),
            out@ == join(views(parts@).take(i as int), sep@),
        decreases parts.len() - i,
    {
        let ghost before = out@;
        if i > 0 {
            let mut k: usize = 0;
            while k < sep.len()
                invariant
                    k <= sep.len(),
                    out@ == before + sep@.take(k as int),
                decreases sep.len() - k,
            {
                out.push(sep[k]);
                k += 1;
                assert(sep@.take(k as int) =~= sep@.take(k - 1).push(sep@[k - 1]));
            }
        }
        let ghost mid = out@;
        let part = &parts[i];
        let mut k: usize = 0;
        while k < part.len()
            invariant
                k <= part.len(),
                out@ == mid + part@.take(k as int),
            decreases part.len() - k,
        {
            out.push(part[k]);
            k += 1;
            assert(part@.take(k as int) =~= part@.take(k - 1).push(part@[k - 1]));
        }
        proof {
            let vs = views(parts@);
            assert(vs.take(i + 1).drop_last() =~= vs.take(i as int));
            assert(part@.take(part@.len() as int) =~= part@);
            assert(sep@.take(sep@.len() as int) =~= sep@);
            if i == 0 {
                assert(vs.take(1) =~= seq![part@]);
                assert(out@ =~= part@);
            } else {
                assert(out@ =~= before + sep@ + part@);
            }
        }
        i += 1;
    }
    assert(views(parts@).take(parts.len() as int) =~= views(parts@));
    out
}


/* ---------------------------------------------------------------- replacing */

/// `str::replace`: every non-overlapping occurrence of `p`, left to right,
/// becomes `r`.
pub open spec fn replace(s: Seq<char>, p: Seq<char>, r: Seq<char>) -> Seq<char>
    decreases s.len(),
{
    if p.len() == 0 {
        s
    } else {
        match find(s, p) {
            Some(i) => if 0 <= i && i + p.len() <= s.len() {
                s.take(i) + r + replace(s.skip(i + p.len()), p, r)
            } else {
                s
            },
            None => s,
        }
    }
}

/// `str::replace` with a non-empty pattern.
pub fn replace_chars(s: &[char], p: &[char], r: &[char]) -> (out: Vec<char>)
    requires
        p.len() > 0,
    ensures
        out@ == replace(s@, p@, r@),
{
    let mut out: Vec<char> = Vec::new();
    let mut rest = slice_chars(s, 0, s.len());
    assert(rest@ =~= s@);
    loop
        invariant
            p@.len() > 0,
            replace(s@, p@, r@) == out@ + replace(rest@, p@, r@),
        decreases rest@.len(),
    {
        match split_once_at(&rest, p) {
            Some(i) => {
                let head = slice_chars(&rest, 0, i);
                let tail = slice_chars(&rest, i + p.len(), rest.len());
                proof {
                    assert(head@ =~= rest@.take(i as int));
                    assert(tail@ =~= rest@.skip(i + p.len()));
                }
                let ghost before = out@;
                let mut k: usize = 0;
                while k < head.len()
                    invariant
                        k <= head.len(),
                        out@ == before + head@.take(k as int),
                    decreases head.len() - k,
                {
                    out.push(head[k]);
                    k += 1;
                    assert(head@.take(k as int) =~= head@.take(k - 1).push(head@[k - 1]));
                }
                let ghost mid = out@;
                let mut k: usize = 0;
                while k < r.len()
                    invariant
                        k <= r.len(),
                        out@ == mid + r@.take(k as int),
                    decreases r.len() - k,
                {
                    out.push(r[k]);
                    k += 1;
                    assert(r@.take(k as int) =~= r@.take(k - 1).push(r@[k - 1]));
                }
                proof {
                    assert(head@.take(head@.len() as int) =~= head@);
                    assert(r@.take(r@.len() as int) =~= r@);
                    assert(before + (head@ + r@ + replace(tail@, p@, r@)) =~= out@ + replace(
                        tail@,
                        p@,
                        r@,
                    ));
                }
                rest = tail;
            },
            None => {
                let ghost before = out@;
                let mut k: usize = 0;
                while k < rest.len()
                    invariant
                        k <= rest.len(),
                        out@ == before + rest@.take(k as int),
                    decreases rest.len() - k,
                {
                    out.push(rest[k]);
                    k += 1;
                    assert(rest@.take(k as int) =~= rest@.take(k - 1).push(rest@[k - 1]));
                }
                assert(rest@.take(rest@.len() as int) =~= rest@);
                return out;
            },
        }
    }
}

/// `str::strip_prefix`.
pub open spec fn strip_prefix(s: Seq<char>, p: Seq<char>) -> Option<Seq<char>> {
    if starts_with(s, p) {
        Some(s.skip(p.len() as int))
    } else {
        None
    }
}

/// `str::strip_suffix`.
pub open spec fn strip_suffix(s: Seq<char>, p: Seq<char>) -> Option<Seq<char>> {
    if ends_with(s, p) {
        Some(s.take(s.len() - p.len()))
    } else {
        None
    }
}

/// `str::trim_end_matches` with a string pattern: the suffix is removed as
/// many times as it occurs.
pub open spec fn trim_end_matches(s: Seq<char>, p: Seq<char>) -> Seq<char>
    decreases s.len(),
{
    if p.len() > 0 && ends_with(s, p) {
        trim_end_matches(s.take(s.len() - p.len()), p)
    } else {
        s
    }
}

/// `str::trim_end_matches`.
pub fn trim_end_matching(s: &[char], p: &[char]) -> (out: Vec<char>)
    ensures
        out@ == trim_end_matches(s@, p@),
{
    let mut end = s.len();
    if p.len() == 0 {
        return slice_chars(s, 0, s.len());
    }
    assert(s@.take(s.len() as int) =~= s@);
    loop
        invariant
            end <= s.len(),
            p@.len() > 0,
            trim_end_matches(s@, p@) == trim_end_matches(s@.take(end as int), p@),
        decreases end,
    {
        let cur = slice_chars(s, 0, end);
        assert(cur@ =~= s@.take(end as int));
        if ends_with_chars(&cur, p) {
            assert(s@.take(end as int).take(end - p@.len()) =~= s@.take(end - p@.len()));
            end = end - p.len();
        } else {
            return cur;
        }
    }
}

/// Leading characters of `s` satisfying `is_digit`.
pub open spec fn leading_digits(s: Seq<char>) -> Seq<char>
    decreases s.len(),
{
    if s.len() > 0 && is_digit(s[0]) {
        seq![s[0]] + leading_digits(s.drop_first())
    } else {
        seq![]
    }
}

/// The end of the run of digits in `s` that starts at `from`.
pub fn digits_end(s: &[char], from: usize) -> (end: usize)
    requires
        from <= s.len(),
    ensures
        from <= end <= s.len(),
        s@.subrange(from as int, end as int) == leading_digits(s@.subrange(from as int, s.len() as int)),
{
    let mut end = from;
    while end < s.len() && digit(s[end])
        invariant
            from <= end <= s.len(),
            forall|k: int| from <= k < end ==> is_digit(#[trigger] s@[k]),
            leading_digits(s@.subrange(from as int, s.len() as int)) == s@.subrange(
                from as int,
                end as int,
            ) + leading_digits(s@.subrange(end as int, s.len() as int)),
        decreases s.len() - end,
    {
        proof {
            let t = s@.subrange(end as int, s.len() as int);
            assert(t.drop_first() =~= s@.subrange(end + 1, s.len() as int));
            assert(s@.subrange(from as int, end + 1) =~= s@.subrange(from as int, end as int) + seq![
                s@[end as int],
            ]);
        }
        end += 1;
    }
    proof {
        let t = s@.subrange(end as int, s.len() as int);
        assert(leading_digits(t) =~= seq![]);
        assert(s@.subrange(from as int, end as int) + seq![] =~= s@.subrange(from as int, end as int));
    }
    end
}

} // verus!
