//! UniFi connection settings, and keeping secrets out of diagnostic text.
//!
//! The password never lives in the settings: the desktop layer keeps it in
//! the OS keychain and passes it in when a connection is made.
use crate::text::{
    chars_of, contains, lemma_find_from, lower_seq, lowercase, match_at, matches_at, owned, push_char, push_chars, push_str,
    slice_chars, trim, trimmed,
};
use vstd::prelude::*;

verus! {

#[derive(Debug, Clone)]
pub struct UnifiConfig {
    pub host: String,
    pub port: u16,
    pub site: String,
    pub username: String,
    /// SHA-256 of the controller certificate, pinned on first connection.
    pub fingerprint: Option<String>,
    pub enabled: bool,
}

impl Default for UnifiConfig {
    fn default() -> (c: Self)
        ensures
            c.host@.len() == 0,
            c.port == 443,
            c.site@ == "default"@,
            c.username@.len() == 0,
            c.fingerprint is None,
            !c.enabled,
    {
        UnifiConfig {
            host: String::new(),
            port: 443,
            site: owned("default"),
            username: String::new(),
            fingerprint: None,
            enabled: false,
        }
    }
}

impl UnifiConfig {
    /// Enabled, with a host and a user name that are not blank.
    pub fn is_configured(&self) -> (b: bool)
        ensures
            b == (self.enabled && trim(self.host@).len() > 0 && trim(self.username@).len() > 0),
    {
        let h = chars_of(self.host.as_str());
        let u = chars_of(self.username.as_str());
        let th = trimmed(&h);
        let tu = trimmed(&u);
        self.enabled && th.len() > 0 && tu.len() > 0
    }

    /// The keychain account name for this controller's credential,
    /// `unifi:USER@HOST`, so credentials for several controllers coexist.
    pub fn credential_id(&self) -> (id: String)
        ensures
            id@ == "unifi:"@ + self.username@ + "@"@ + self.host@,
    {
        let mut id = owned("unifi:");
        push_str(&mut id, self.username.as_str());
        push_str(&mut id, "@");
        push_str(&mut id, self.host.as_str());
        id
    }
}

/* ------------------------------------------------------------- redaction */

/// Words that introduce a secret, in the order they are tried.
pub open spec fn secret_keys() -> Seq<Seq<char>> {
    seq!["password"@, "x-csrf-token"@, "csrf_token"@, "cookie"@, "token"@]
}

/// The first secret word that the lowercased text spells at `i`.
pub open spec fn key_at(low: Seq<char>, i: int) -> Option<Seq<char>> {
    if matches_at(low, "password"@, i) {
        Some("password"@)
    } else if matches_at(low, "x-csrf-token"@, i) {
        Some("x-csrf-token"@)
    } else if matches_at(low, "csrf_token"@, i) {
        Some("csrf_token"@)
    } else if matches_at(low, "cookie"@, i) {
        Some("cookie"@)
    } else if matches_at(low, "token"@, i) {
        Some("token"@)
    } else {
        None
    }
}

/// The first index from `c` on whose character is not a quote or a space.
pub open spec fn past_quotes(t: Seq<char>, c: int) -> int
    decreases t.len() - c,
{
    if c < 0 || c >= t.len() || !(t[c] == '"' || t[c] == ' ') {
        c
    } else {
        past_quotes(t, c + 1)
    }
}

/// The first index from `c` on whose character is not a space.
pub open spec fn past_spaces(t: Seq<char>, c: int) -> int
    decreases t.len() - c,
{
    if c < 0 || c >= t.len() || t[c] != ' ' {
        c
    } else {
        past_spaces(t, c + 1)
    }
}

/// Where an unquoted value ends: the next `,` `;` `}` newline or space.
pub open spec fn value_stop(c: char) -> bool {
    c == ',' || c == ';' || c == '}' || c == '\n' || c == ' '
}

/// The first index from `c` on that `stop` holds of (a closing quote when
/// `quoted`), or the length.
pub open spec fn value_end(t: Seq<char>, c: int, quoted: bool) -> int
    decreases t.len() - c,
{
    if c < 0 || c >= t.len() {
        t.len() as int
    } else if (quoted && t[c] == '"') || (!quoted && value_stop(t[c])) {
        c
    } else {
        value_end(t, c + 1, quoted)
    }
}

proof fn lemma_past(t: Seq<char>, c: int)
    requires
        0 <= c <= t.len(),
    ensures
        c <= past_quotes(t, c) <= t.len(),
        c <= past_spaces(t, c) <= t.len(),
        c <= value_end(t, c, true) <= t.len(),
        c <= value_end(t, c, false) <= t.len(),
    decreases t.len() - c,
{
    if c < t.len() {
        lemma_past(t, c + 1);
    }
}

/// Text from `i` on with every secret value replaced: after a secret word,
/// its closing quote and spaces, a `:` or `=`, spaces and an opening quote,
/// the value (up to the closing quote, or to a separator) becomes
/// `«redacted»`. A secret word not followed by a delimiter is prose and stays.
pub open spec fn redact_from(t: Seq<char>, low: Seq<char>, i: int) -> Seq<char>
    decreases t.len() - i,
{
    if i < 0 || i >= t.len() {
        Seq::<char>::empty()
    } else {
        match key_at(low, i) {
            None => seq![t[i]] + redact_from(t, low, i + 1),
            Some(k) => {
                let c1 = i + k.len();
                let c2 = past_quotes(t, c1);
                if c2 <= i || c2 >= t.len() || !(t[c2] == ':' || t[c2] == '=') {
                    if c2 <= i || c2 > t.len() {
                        Seq::<char>::empty()
                    } else {
                        t.subrange(i, c2) + redact_from(t, low, c2)
                    }
                } else {
                    let c3 = past_spaces(t, c2 + 1);
                    let quoted = c3 < t.len() && t[c3] == '"';
                    let c4 = if quoted { c3 + 1 } else { c3 };
                    let end = value_end(t, c4, quoted);
                    if end <= i || end > t.len() || c4 > t.len() {
                        Seq::<char>::empty()
                    } else {
                        t.subrange(i, c4) + (if end > c4 { "\u{ab}redacted\u{bb}"@ } else { Seq::<char>::empty() })
                            + redact_from(t, low, end)
                    }
                }
            },
        }
    }
}

/// Strips anything secret from text before it reaches a log or the UI.
pub open spec fn redact_spec(text: Seq<char>) -> Seq<char> {
    redact_from(text, lower_seq(text), 0)
}

fn key_here(low: &[char], i: usize) -> (r: usize)
    ensures
        r == (match key_at(low@, i as int) {
            Some(k) => k.len(),
            None => 0,
        }),
        key_at(low@, i as int) is Some ==> r > 0,
{
    proof {
        reveal_strlit("password");
        reveal_strlit("x-csrf-token");
        reveal_strlit("csrf_token");
        reveal_strlit("cookie");
        reveal_strlit("token");
    }
    let k0 = chars_of("password");
    if match_at(low, &k0, i) {
        return 8;
    }
    let k1 = chars_of("x-csrf-token");
    if match_at(low, &k1, i) {
        return 12;
    }
    let k2 = chars_of("csrf_token");
    if match_at(low, &k2, i) {
        return 10;
    }
    let k3 = chars_of("cookie");
    if match_at(low, &k3, i) {
        return 6;
    }
    let k4 = chars_of("token");
    if match_at(low, &k4, i) {
        return 5;
    }
    0
}

fn past_quotes_at(t: &[char], c: usize) -> (r: usize)
    requires
        c <= t.len(),
    ensures
        r == past_quotes(t@, c as int),
        c <= r <= t.len(),
{
    let mut k = c;
    while k < t.len() && (t[k] == '"' || t[k] == ' ')
        invariant
            c <= k <= t@.len(),
            past_quotes(t@, c as int) == past_quotes(t@, k as int),
        decreases t.len() - k,
    {
        k += 1;
    }
    k
}

fn past_spaces_at(t: &[char], c: usize) -> (r: usize)
    requires
        c <= t.len(),
    ensures
        r == past_spaces(t@, c as int),
        c <= r <= t.len(),
{
    let mut k = c;
    while k < t.len() && t[k] == ' '
        invariant
            c <= k <= t@.len(),
            past_spaces(t@, c as int) == past_spaces(t@, k as int),
        decreases t.len() - k,
    {
        k += 1;
    }
    k
}

fn value_end_at(t: &[char], c: usize, quoted: bool) -> (r: usize)
    requires
        c <= t.len(),
    ensures
        r == value_end(t@, c as int, quoted),
        c <= r <= t.len(),
{
    let mut k = c;
    while k < t.len()
        invariant
            c <= k <= t@.len(),
            value_end(t@, c as int, quoted) == value_end(t@, k as int, quoted),
        decreases t.len() - k,
    {
        let ch = t[k];
        if quoted && ch == '"' {
            return k;
        }
        if !quoted && (ch == ',' || ch == ';' || ch == '}' || ch == '\n' || ch == ' ') {
            return k;
        }
        k += 1;
    }
    k
}

/// Strips anything secret from text before it reaches a log or the UI:
/// errors can quote a request, and a login request holds the password.
pub fn redact(text: &str) -> (out: String)
    ensures
        out@ == redact_spec(text@),
{
    let t = chars_of(text);
    let low = lowercase(&t);
    let mut out = String::new();
    let mut index: usize = 0;
    let ghost goal = redact_spec(text@);
    while index < t.len()
        invariant
            index <= t@.len(),
            t@ == text@,
            low@ == lower_seq(t@),
            out@ + redact_from(t@, low@, index as int) == goal,
        decreases t.len() - index,
    {
        let ghost before = out@;
        let klen = key_here(&low, index);
        if klen == 0 {
            proof {
                assert(key_at(low@, index as int) is None);
                assert(redact_from(t@, low@, index as int) == seq![t@[index as int]] + redact_from(
                    t@,
                    low@,
                    index + 1,
                ));
            }
            push_char(&mut out, t[index]);
            index += 1;
            proof {
                assert(out@ + redact_from(t@, low@, index as int) =~= before + (seq![t@[index - 1]]
                    + redact_from(t@, low@, index as int)));
            }
            continue;
        }
        proof {
            let k = key_at(low@, index as int).unwrap();
            assert(matches_at(low@, k, index as int));
        }
        let c1 = index + klen;
        let c2 = past_quotes_at(&t, c1);
        if c2 >= t.len() || !(t[c2] == ':' || t[c2] == '=') {
            let piece = slice_chars(&t, index, c2);
            push_chars(&mut out, &piece);
            index = c2;
            proof {
                assert(out@ + redact_from(t@, low@, index as int) =~= goal);
            }
            continue;
        }
        let c3 = past_spaces_at(&t, c2 + 1);
        let quoted = c3 < t.len() && t[c3] == '"';
        let c4 = if quoted {
            c3 + 1
        } else {
            c3
        };
        let end = value_end_at(&t, c4, quoted);
        let piece = slice_chars(&t, index, c4);
        push_chars(&mut out, &piece);
        if end > c4 {
            push_str(&mut out, "\u{ab}redacted\u{bb}");
        }
        index = end;
        proof {
            assert(out@ + redact_from(t@, low@, index as int) =~= goal);
        }
    }
    proof {
        assert(out@ + Seq::<char>::empty() =~= out@);
    }
    out
}

proof fn lemma_plain_from(t: Seq<char>, low: Seq<char>, i: int)
    requires
        0 <= i <= t.len(),
        forall|j: int| i <= j < t.len() ==> #[trigger] key_at(low, j) is None,
    ensures
        redact_from(t, low, i) == t.skip(i),
    decreases t.len() - i,
{
    if i < t.len() {
        lemma_plain_from(t, low, i + 1);
        assert(seq![t[i]] + t.skip(i + 1) =~= t.skip(i));
    } else {
        assert(t.skip(i) =~= Seq::<char>::empty());
    }
}

/// Text that, lower-cased, holds none of the secret words passes through
/// redaction unchanged.
pub proof fn law_redact_keeps_plain_text(text: Seq<char>)
    requires
        forall|k: int| 0 <= k < secret_keys().len() ==> !contains(lower_seq(text), #[trigger] secret_keys()[k]),
    ensures
        redact_spec(text) == text,
{
    let low = lower_seq(text);
    assert forall|j: int| 0 <= j < text.len() implies #[trigger] key_at(low, j) is None by {
        assert(!contains(low, secret_keys()[0]));
        assert(!contains(low, secret_keys()[1]));
        assert(!contains(low, secret_keys()[2]));
        assert(!contains(low, secret_keys()[3]));
        assert(!contains(low, secret_keys()[4]));
        lemma_find_from(low, "password"@, 0);
        lemma_find_from(low, "x-csrf-token"@, 0);
        lemma_find_from(low, "csrf_token"@, 0);
        lemma_find_from(low, "cookie"@, 0);
        lemma_find_from(low, "token"@, 0);
    }
    lemma_plain_from(text, low, 0);
    assert(text.skip(0) =~= text);
}

} // verus!
