//! What the UniFi controller client sends and how it reads the answers.
//!
//! The TLS connection, with its trust-on-first-use certificate pin, is the
//! application's. Controllers come in two flavours: UniFi OS (UDM, UDR, Cloud
//! Key Gen2+), which proxies the Network application under `/proxy/network`
//! and keeps its session in a `TOKEN` cookie, and the legacy software
//! controller, which serves `/api` directly.
use crate::netutil::{is_private_ipv4, is_private_spec, parse_ipv4, parse_ipv4_str};
use crate::scan::wifi::opt_text_view;
use crate::text::{
    chars_of, contains, copy_text, dec, dec_text, has, hex2_upper, is_ws, join, less_text,
    lemma_text_less_total, lemma_text_less_trans, lower_seq, lowercase, owned, push_char,
    push_chars, push_dec, push_hex2, push_str, slice_chars, str_eq, string_of, strings_view,
    text_less, trim, trimmed, bytes_of, byte_len, cut_at, cut_bytes, find, find_chars, lines,
    lines_of, parse_unsigned, parse_unsigned_chars, parse_unsigned_wide, split_char, split_on,
    split_once, split_once_chars, starts_with, views, words, words_of,
};
use crate::textmap::TextMap;
use vstd::prelude::*;

verus! {

/* ------------------------------------------------------------------ errors */

#[derive(Debug, Clone)]
pub enum UnifiError {
    /// The host is not a private address. Refused before any connection.
    NotPrivate(String),
    /// The certificate changed since it was pinned: possible interception.
    FingerprintMismatch { expected: String, actual: String },
    Connect(String),
    /// Credentials rejected by the controller.
    Unauthorized,
    /// Authenticated, but the account cannot read this site.
    Forbidden,
    Http { status: u16, detail: String },
    Protocol(String),
}

/// What each error tells the user.
pub open spec fn error_text(e: UnifiError) -> Seq<char> {
    match e {
        UnifiError::NotPrivate(host) => host@
            + " is not a private address \u{2014} refusing to send credentials to a public host"@,
        UnifiError::FingerprintMismatch { expected, actual } => "The controller's TLS certificate changed. Expected "@
            + expected@ + ", got "@ + actual@
            + ". Credentials were not sent. This is expected after reinstalling the controller or regenerating its certificate; otherwise the connection may be intercepted."@,
        UnifiError::Connect(detail) => "Could not reach the controller: "@ + detail@,
        UnifiError::Unauthorized => "The controller rejected these credentials"@,
        UnifiError::Forbidden => "Signed in, but this account cannot read the requested site"@,
        UnifiError::Http { status, detail } => "Controller returned HTTP "@ + dec(status as nat) + ": "@
            + detail@,
        UnifiError::Protocol(detail) => "Unexpected controller response: "@ + detail@,
    }
}

impl UnifiError {
    /// The message shown to the user.
    pub fn message(&self) -> (m: String)
        ensures
            m@ == error_text(*self),
    {
        match self {
            UnifiError::NotPrivate(host) => {
                let mut m = copy_text(host);
                push_str(
                    &mut m,
                    " is not a private address \u{2014} refusing to send credentials to a public host",
                );
                m
            },
            UnifiError::FingerprintMismatch { expected, actual } => {
                let mut m = owned("The controller's TLS certificate changed. Expected ");
                push_str(&mut m, expected.as_str());
                push_str(&mut m, ", got ");
                push_str(&mut m, actual.as_str());
                push_str(
                    &mut m,
                    ". Credentials were not sent. This is expected after reinstalling the controller or regenerating its certificate; otherwise the connection may be intercepted.",
                );
                m
            },
            UnifiError::Connect(detail) => {
                let mut m = owned("Could not reach the controller: ");
                push_str(&mut m, detail.as_str());
                m
            },
            UnifiError::Unauthorized => owned("The controller rejected these credentials"),
            UnifiError::Forbidden => owned("Signed in, but this account cannot read the requested site"),
            UnifiError::Http { status, detail } => {
                let mut m = owned("Controller returned HTTP ");
                push_dec(&mut m, *status as u64);
                push_str(&mut m, ": ");
                push_str(&mut m, detail.as_str());
                m
            },
            UnifiError::Protocol(detail) => {
                let mut m = owned("Unexpected controller response: ");
                push_str(&mut m, detail.as_str());
                m
            },
        }
    }
}

/* ------------------------------------------------------------ fingerprints */

/// The SHA-256 digest of some bytes.
pub uninterp spec fn sha256(data: Seq<u8>) -> Seq<u8>;

/// `sha2::Sha256::digest`: the 32-byte SHA-256 digest of the data.
#[verifier::external_body]
fn sha256_digest(data: &[u8]) -> (d: Vec<u8>)
    ensures
        d@ == sha256(data@),
        d@.len() == 32,
{
    let digest = <sha2::Sha256 as sha2::Digest>::digest(data);
    digest.to_vec()
}

/// Uppercase hex bytes separated by colons.
pub open spec fn colon_hex(bytes: Seq<u8>) -> Seq<char> {
    join(Seq::new(bytes.len(), |i: int| hex2_upper(bytes[i])), ":"@)
}

/// The certificate fingerprint as `openssl x509 -fingerprint` prints it:
/// uppercase, colon-separated SHA-256.
pub fn fingerprint(der: &[u8]) -> (f: String)
    ensures
        f@ == colon_hex(sha256(der@)),
{
    let d = sha256_digest(der);
    format_colon_hex(&d)
}

/// Formats bytes as uppercase hex separated by colons.
pub fn format_colon_hex(bytes: &[u8]) -> (f: String)
    ensures
        f@ == colon_hex(bytes@),
{
    let mut out = String::new();
    let mut i: usize = 0;
    proof {
        reveal_strlit(":");
    }
    while i < bytes.len()
        invariant
            i <= bytes@.len(),
            out@ == join(Seq::new(i as nat, |k: int| hex2_upper(bytes@[k])), ":"@),
        decreases bytes.len() - i,
    {
        let ghost parts = Seq::new(i as nat, |k: int| hex2_upper(bytes@[k]));
        let ghost next = Seq::new((i + 1) as nat, |k: int| hex2_upper(bytes@[k]));
        if i > 0 {
            push_char(&mut out, ':');
        }
        push_hex2(&mut out, bytes[i], true);
        proof {
            reveal_strlit(":");
            assert(next.drop_last() =~= parts);
            assert(next.last() == hex2_upper(bytes@[i as int]));
            if i == 0 {
                assert(out@ =~= join(next, ":"@));
            } else {
                assert(out@ =~= join(parts, ":"@) + ":"@ + next.last());
            }
        }
        i += 1;
    }
    proof {
        assert(Seq::new(bytes@.len(), |k: int| hex2_upper(bytes@[k])) =~= Seq::new(
            i as nat,
            |k: int| hex2_upper(bytes@[k]),
        ));
    }
    out
}

/* ---------------------------------------------------------------- flavours */

#[derive(Debug, Clone, Copy, PartialEq, Eq, Structural)]
pub enum Flavour {
    /// UDM / UDR / Cloud Key Gen2+: endpoints proxied under `/proxy/network`.
    UnifiOs,
    /// Software controller / Cloud Key Gen1.
    Legacy,
}

impl Flavour {
    pub fn login_path(&self) -> (p: &'static str)
        ensures
            p@ == (match self {
                Flavour::UnifiOs => "/api/auth/login"@,
                Flavour::Legacy => "/api/login"@,
            }),
    {
        match self {
            Flavour::UnifiOs => "/api/auth/login",
            Flavour::Legacy => "/api/login",
        }
    }

    pub fn logout_path(&self) -> (p: &'static str)
        ensures
            p@ == (match self {
                Flavour::UnifiOs => "/api/auth/logout"@,
                Flavour::Legacy => "/api/logout"@,
            }),
    {
        match self {
            Flavour::UnifiOs => "/api/auth/logout",
            Flavour::Legacy => "/api/logout",
        }
    }

    /// A Network-application path for a site.
    pub fn api_path(&self, site: &str, endpoint: &str) -> (p: String)
        ensures
            p@ == (match self {
                Flavour::UnifiOs => "/proxy/network/api/s/"@,
                Flavour::Legacy => "/api/s/"@,
            }) + site@ + "/"@ + endpoint@,
    {
        let mut p = match self {
            Flavour::UnifiOs => owned("/proxy/network/api/s/"),
            Flavour::Legacy => owned("/api/s/"),
        };
        push_str(&mut p, site);
        push_str(&mut p, "/");
        push_str(&mut p, endpoint);
        p
    }
}

/// The flavour a `GET /proxy/network/status` answer reveals: only UniFi OS
/// has the proxy, and a 401 there proves it as well as a 200.
pub fn flavour_from_status(status: u16) -> (f: Flavour)
    ensures
        f == (if status == 404 { Flavour::Legacy } else { Flavour::UnifiOs }),
{
    if status == 404 {
        Flavour::Legacy
    } else {
        Flavour::UnifiOs
    }
}

/* ------------------------------------------------------------------ logins */

#[derive(Debug, Clone, Copy, PartialEq, Eq, Structural)]
pub enum LoginOutcome {
    Accepted,
    BadCredentials,
    MfaRequired,
    NoPermission,
    Other(u16),
}

/// A login answer: the status alone is not enough. A wrong password comes
/// back as 403 on some controllers, with an invalid-credentials marker in
/// the body; a 403 without one is a permissions problem.
pub open spec fn login_spec(status: u16, body: Seq<char>) -> LoginOutcome {
    let low = lower_seq(body);
    let bad = contains(low, "authentication_failed"@) || contains(low, "invalid username or password"@)
        || contains(low, "invalid_credentials"@);
    if contains(low, "mfa"@) || contains(low, "two_factor"@) || contains(low, "2fa"@) {
        LoginOutcome::MfaRequired
    } else if status == 200 {
        LoginOutcome::Accepted
    } else if status == 400 || status == 401 {
        LoginOutcome::BadCredentials
    } else if bad {
        LoginOutcome::BadCredentials
    } else if status == 403 {
        LoginOutcome::NoPermission
    } else {
        LoginOutcome::Other(status)
    }
}

/// Interprets a login response.
pub fn classify_login(status: u16, body: &str) -> (o: LoginOutcome)
    ensures
        o == login_spec(status, body@),
{
    let c = chars_of(body);
    let low = lowercase(&c);
    if has(&low, "mfa") || has(&low, "two_factor") || has(&low, "2fa") {
        return LoginOutcome::MfaRequired;
    }
    let bad = has(&low, "authentication_failed") || has(&low, "invalid username or password") || has(
        &low,
        "invalid_credentials",
    );
    if status == 200 {
        LoginOutcome::Accepted
    } else if status == 400 || status == 401 {
        LoginOutcome::BadCredentials
    } else if bad {
        LoginOutcome::BadCredentials
    } else if status == 403 {
        LoginOutcome::NoPermission
    } else {
        LoginOutcome::Other(status)
    }
}

/// The first `max` characters.
pub open spec fn truncate_spec(text: Seq<char>, max: nat) -> Seq<char> {
    if text.len() <= max {
        text
    } else {
        text.take(max as int)
    }
}

pub fn truncate(text: &str, max: usize) -> (t: String)
    ensures
        t@ == truncate_spec(text@, max as nat),
{
    let c = chars_of(text);
    if c.len() <= max {
        string_of(&c)
    } else {
        let head = slice_chars(&c, 0, max);
        string_of(&head)
    }
}

/// Turns a login outcome into the error the user sees, or success.
pub fn login_result(outcome: LoginOutcome, body: &str, has_session: bool) -> (r: Result<(), UnifiError>)
    ensures
        match outcome {
            LoginOutcome::Accepted => if has_session {
                r is Ok
            } else {
                r matches Err(UnifiError::Protocol(m)) && m@
                    == "login succeeded but no session cookie was returned"@
            },
            LoginOutcome::BadCredentials => r matches Err(UnifiError::Unauthorized),
            LoginOutcome::MfaRequired => r matches Err(UnifiError::Protocol(m)) && m@ == mfa_text(),
            LoginOutcome::NoPermission => r matches Err(UnifiError::Forbidden),
            LoginOutcome::Other(s) => r matches Err(UnifiError::Http { status, detail }) && status == s
                && detail@ == truncate_spec(body@, 200),
        },
{
    match outcome {
        LoginOutcome::Accepted => if has_session {
            Ok(())
        } else {
            Err(UnifiError::Protocol(owned("login succeeded but no session cookie was returned")))
        },
        LoginOutcome::BadCredentials => Err(UnifiError::Unauthorized),
        LoginOutcome::MfaRequired => Err(UnifiError::Protocol(owned(MFA_TEXT))),
        LoginOutcome::NoPermission => Err(UnifiError::Forbidden),
        LoginOutcome::Other(status) => Err(UnifiError::Http { status, detail: truncate(body, 200) }),
    }
}

pub const MFA_TEXT: &'static str = "This account requires two-factor authentication, which this integration cannot complete. Create a separate local account without MFA and give it the read-only Viewer role.";

pub open spec fn mfa_text() -> Seq<char> {
    MFA_TEXT@
}

/// The error a data request's status means: none for 200.
pub fn data_status_error(status: u16, body: &str) -> (r: Option<UnifiError>)
    ensures
        status == 200 ==> r is None,
        status == 401 ==> r matches Some(UnifiError::Unauthorized),
        status == 403 ==> r matches Some(UnifiError::Forbidden),
        status != 200 && status != 401 && status != 403 ==> (r matches Some(
            UnifiError::Http { status: s, detail },
        ) && s == status && detail@ == truncate_spec(body@, 200)),
{
    if status == 200 {
        None
    } else if status == 401 {
        Some(UnifiError::Unauthorized)
    } else if status == 403 {
        Some(UnifiError::Forbidden)
    } else {
        Some(UnifiError::Http { status, detail: truncate(body, 200) })
    }
}

/* -------------------------------------------------------- HTTP responses */

/// A chunk-size line: hex digits, possibly followed by `;extensions`.
pub open spec fn chunk_size(line: Seq<char>) -> Option<int> {
    parse_unsigned(trim(split_char(line, ';')[0]), 16, usize::MAX as int)
}

/// Decodes a chunked body: each chunk is a size line and that many bytes;
/// decoding stops at a zero-size chunk or anything unreadable (a chunk
/// boundary inside a character among it), and a chunk
/// cut short by the end of the text contributes what there is.
pub open spec fn dechunk(rest: Seq<char>) -> Seq<char>
    decreases rest.len(),
{
    match find(rest, "\r\n"@) {
        None => Seq::<char>::empty(),
        Some(p) => {
            let rem = rest.skip(p + 2);
            match chunk_size(rest.take(p)) {
                None => Seq::<char>::empty(),
                Some(size) => if size == 0 {
                    Seq::<char>::empty()
                } else if bytes_of(rem) < size {
                    rem
                } else {
                    match cut_at(rem, size, 0) {
                        None => Seq::<char>::empty(),
                        Some(k) => {
                            let after = rem.skip(k);
                            let next = if starts_with(after, "\r\n"@) {
                                after.skip(2)
                            } else {
                                after
                            };
                            if k <= 0 || p < 0 || p + 2 > rest.len() || k > rem.len() {
                                Seq::<char>::empty()
                            } else {
                                proof {
                                    reveal_strlit("\r\n");
                                }
                                rem.take(k) + dechunk(next)
                            }
                        },
                    }
                },
            }
        },
    }
}

proof fn lemma_cut_at(s: Seq<char>, n: int, j: int)
    requires
        0 <= j,
    ensures
        cut_at(s, n, j) matches Some(k) ==> j <= k <= s.len() && bytes_of(s.take(k)) == n,
    decreases s.len() - j,
{
    if j <= s.len() && bytes_of(s.take(j)) <= n && bytes_of(s.take(j)) != n && j < s.len() {
        lemma_cut_at(s, n, j + 1);
    }
}

/// Decodes a `Transfer-Encoding: chunked` body.
pub fn decode_chunked(body: &str) -> (out: String)
    ensures
        out@ == dechunk(body@),
{
    let crlf = chars_of("\r\n");
    proof {
        reveal_strlit("\r\n");
    }
    let mut rest = chars_of(body);
    let mut out: Vec<char> = Vec::new();
    loop
        invariant_except_break
            crlf@ == "\r\n"@,
            crlf@.len() == 2,
            out@ + dechunk(rest@) == dechunk(body@),
        ensures
            out@ == dechunk(body@),
        decreases rest@.len(),
    {
        let ghost r0 = rest@;
        let p = match find_chars(&rest, &crlf, 0) {
            Some(p) => p,
            None => {
                assert(out@ + Seq::<char>::empty() =~= out@);
                break;
            },
        };
        proof {
            crate::text::lemma_find_from(rest@, crlf@, 0);
        }
        let total = rest.len();
        assert(crate::text::matches_at(rest@, crlf@, p as int));
        assert(p + 2 <= total);
        let line = slice_chars(&rest, 0, p);
        let rem = slice_chars(&rest, p + 2, rest.len());
        assert(line@ =~= r0.take(p as int));
        assert(rem@ =~= r0.skip(p + 2));
        let pieces = split_on(&line, ';');
        assert(views(pieces@)[0] == pieces@[0]@);
        let tok = trimmed(&pieces[0]);
        assert(tok@ == trim(split_char(r0.take(p as int), ';')[0]));
        let size = match parse_unsigned_wide(&tok, 16, usize::MAX as u128) {
            Some(v) => v,
            None => {
                assert(out@ + Seq::<char>::empty() =~= out@);
                break;
            },
        };
        if size == 0 {
            assert(out@ + Seq::<char>::empty() =~= out@);
            break;
        }
        let nb = byte_len(&rem);
        if nb < size {
            let ghost before = out@;
            let mut j: usize = 0;
            while j < rem.len()
                invariant
                    j <= rem@.len(),
                    out@ == before + rem@.take(j as int),
                decreases rem.len() - j,
            {
                out.push(rem[j]);
                j += 1;
                assert(rem@.take(j as int) =~= rem@.take(j - 1).push(rem@[j - 1]));
            }
            assert(rem@.take(rem@.len() as int) =~= rem@);
            break;
        }
        let k = match cut_bytes(&rem, size) {
            Some(k) => k,
            None => {
                assert(out@ + Seq::<char>::empty() =~= out@);
                break;
            },
        };
        proof {
            lemma_cut_at(rem@, size as int, 0);
            assert(rem@.take(0) =~= Seq::<char>::empty());
        }
        let ghost before = out@;
        let mut j: usize = 0;
        while j < k
            invariant
                j <= k <= rem@.len(),
                out@ == before + rem@.take(j as int),
            decreases k - j,
        {
            out.push(rem[j]);
            j += 1;
            assert(rem@.take(j as int) =~= rem@.take(j - 1).push(rem@[j - 1]));
        }
        let after = slice_chars(&rem, k, rem.len());
        assert(after@ =~= rem@.skip(k as int));
        let next = if crate::text::starts_with_chars(&after, &crlf) {
            slice_chars(&after, 2, after.len())
        } else {
            after
        };
        proof {
            if crate::text::starts_with(after@, crlf@) {
                assert(next@ =~= after@.skip(2));
            }
            assert(k > 0);
            assert(rem@.take(k as int) =~= rem@.subrange(0, k as int));
            assert(out@ + dechunk(next@) =~= before + (rem@.take(k as int) + dechunk(next@)));
        }
        rest = next;
    }
    string_of(&out)
}

/// The head and body of a response: split at the first blank line, or all
/// head when there is none.
pub open spec fn head_body(raw: Seq<char>) -> (Seq<char>, Seq<char>) {
    match find(raw, "\r\n\r\n"@) {
        Some(i) => (raw.take(i), raw.skip(i + 4)),
        None => (raw, Seq::<char>::empty()),
    }
}

/// The status code: the second word of the first line, as a `u16`.
pub open spec fn status_of(head: Seq<char>) -> Option<int> {
    let ls = lines(head);
    if ls.len() == 0 {
        None
    } else {
        let w = words(ls[0]);
        if w.len() < 2 {
            None
        } else {
            parse_unsigned(w[1], 10, 65535)
        }
    }
}

/// The headers of the lines after the first, by lowercased name; a repeated
/// header is joined to the earlier values with a newline, because the
/// session and CSRF cookies arrive as separate `Set-Cookie` headers.
pub open spec fn merged_headers(ls: Seq<Seq<char>>, n: int) -> Map<Seq<char>, Seq<char>>
    decreases n,
{
    if n <= 1 || n > ls.len() {
        Map::empty()
    } else {
        let m = merged_headers(ls, n - 1);
        match split_once(ls[n - 1], ":"@) {
            None => m,
            Some(kv) => {
                let key = lower_seq(trim(kv.0));
                let value = trim(kv.1);
                if m.contains_key(key) {
                    m.insert(key, m[key] + "\n"@ + value)
                } else {
                    m.insert(key, value)
                }
            },
        }
    }
}

pub open spec fn response_headers(raw: Seq<char>) -> Map<Seq<char>, Seq<char>> {
    let ls = lines(head_body(raw).0);
    merged_headers(ls, ls.len() as int)
}

/// Whether the headers announce a chunked body.
pub open spec fn is_chunked(h: Map<Seq<char>, Seq<char>>) -> bool {
    h.contains_key("transfer-encoding"@) && contains(h["transfer-encoding"@], "chunked"@)
}

/// The body as delivered: de-chunked when the headers say so.
pub open spec fn response_body(raw: Seq<char>) -> Seq<char> {
    if is_chunked(response_headers(raw)) {
        dechunk(head_body(raw).1)
    } else {
        head_body(raw).1
    }
}


/// Splits an HTTP response into status, headers and body; nothing when the
/// status line does not carry a status code.
pub fn parse_response(raw: &str) -> (r: Option<(u16, TextMap, String)>)
    ensures
        match r {
            None => status_of(head_body(raw@).0) is None,
            Some((status, headers, body)) => {
                &&& status_of(head_body(raw@).0) == Some(status as int)
                &&& headers.view() == response_headers(raw@)
                &&& body@ == response_body(raw@)
            },
        },
{
    let c = chars_of(raw);
    let sep = chars_of("\r\n\r\n");
    proof {
        reveal_strlit("\r\n\r\n");
    }
    let (head, body) = match find_chars(&c, &sep, 0) {
        Some(i) => {
            proof {
                crate::text::lemma_find_from(c@, sep@, 0);
            }
            let h = slice_chars(&c, 0, i);
            let b = slice_chars(&c, i + 4, c.len());
            assert(h@ =~= c@.take(i as int));
            assert(b@ =~= c@.skip(i + 4));
            (h, b)
        },
        None => (crate::text::copy_chars(&c), Vec::new()),
    };
    let ls = lines_of(&head);
    let ghost lv = views(ls@);
    if ls.len() == 0 {
        return None;
    }
    assert(lv[0] == ls@[0]@);
    let w = words_of(&ls[0]);
    if w.len() < 2 {
        return None;
    }
    assert(views(w@)[1] == w@[1]@);
    let status: u16 = match parse_unsigned_chars(&w[1], 65535) {
        Some(v) => v as u16,
        None => {
            return None;
        },
    };
    let colon = chars_of(":");
    let mut headers = TextMap::new();
    let mut i: usize = 1;
    while i < ls.len()
        invariant
            1 <= i <= ls@.len(),
            lv == views(ls@),
            colon@ == ":"@,
            headers.view() == merged_headers(lv, i as int),
        decreases ls.len() - i,
    {
        assert(lv[i as int] == ls@[i as int]@);
        match split_once_chars(&ls[i], &colon) {
            Some((k, v)) => {
                let kt = trimmed(&k);
                let key = lowercase(&kt);
                let vt = trimmed(&v);
                let value = string_of(&vt);
                proof {
                    reveal_strlit("\n");
                }
                let merged = match headers.get_chars(&key) {
                    Some(existing) => {
                        let mut m = copy_text(existing);
                        push_char(&mut m, '\n');
                        push_str(&mut m, value.as_str());
                        assert(m@ =~= existing@ + "\n"@ + value@);
                        m
                    },
                    None => value,
                };
                headers.insert_chars(key, merged);
            },
            None => {},
        }
        i += 1;
    }
    let chunked = match headers.get("transfer-encoding") {
        Some(te) => {
            let tc = chars_of(te.as_str());
            has(&tc, "chunked")
        },
        None => false,
    };
    let text = if chunked {
        let b = string_of(&body);
        decode_chunked(b.as_str())
    } else {
        string_of(&body)
    };
    Some((status, headers, text))
}

/* ----------------------------------------------------------------- cookies */

/// Session cookies by name, kept in name order (so the `Cookie` header lists
/// them in the same order every time).
pub struct CookieJar {
    entries: Vec<(String, String)>,
}

pub open spec fn pair_views(e: Seq<(String, String)>) -> Seq<(Seq<char>, Seq<char>)> {
    Seq::new(e.len(), |i: int| (e[i].0@, e[i].1@))
}

pub open spec fn names_sorted(e: Seq<(Seq<char>, Seq<char>)>) -> bool {
    forall|i: int, j: int| 0 <= i < j < e.len() ==> text_less(e[i].0, e[j].0)
}

pub open spec fn pairs_map(e: Seq<(Seq<char>, Seq<char>)>) -> Map<Seq<char>, Seq<char>> {
    Map::new(
        |k: Seq<char>| exists|i: int| 0 <= i < e.len() && #[trigger] e[i].0 == k,
        |k: Seq<char>| e[choose|i: int| 0 <= i < e.len() && #[trigger] e[i].0 == k].1,
    )
}

/// `name=value` pairs joined by `; `.
pub open spec fn cookie_text(e: Seq<(Seq<char>, Seq<char>)>) -> Seq<char> {
    join(Seq::new(e.len(), |i: int| e[i].0 + "="@ + e[i].1), "; "@)
}

impl CookieJar {
    /// The cookies, in name order.
    pub closed spec fn pairs(&self) -> Seq<(Seq<char>, Seq<char>)> {
        pair_views(self.entries@)
    }

    #[verifier::type_invariant]
    spec fn sorted(&self) -> bool {
        names_sorted(self.pairs())
    }

    pub open spec fn view(&self) -> Map<Seq<char>, Seq<char>> {
        pairs_map(self.pairs())
    }

    pub fn new() -> (j: CookieJar)
        ensures
            j.pairs().len() == 0,
            names_sorted(j.pairs()),
    {
        let j = CookieJar { entries: Vec::new() };
        assert(j.pairs() =~= Seq::<(Seq<char>, Seq<char>)>::empty());
        j
    }

    pub fn len(&self) -> (n: usize)
        ensures
            n == self.pairs().len(),
    {
        self.entries.len()
    }

    /// The value stored under a name.
    pub fn get(&self, name: &str) -> (r: Option<&String>)
        ensures
            r matches Some(v) ==> exists|i: int|
                0 <= i < self.pairs().len() && #[trigger] self.pairs()[i] == (name@, v@),
            r is None ==> forall|i: int| 0 <= i < self.pairs().len() ==> #[trigger] self.pairs()[i].0 != name@,
    {
        let mut i: usize = 0;
        while i < self.entries.len()
            invariant
                i <= self.entries@.len(),
                forall|j: int| 0 <= j < i ==> #[trigger] self.pairs()[j].0 != name@,
            decreases self.entries.len() - i,
        {
            if str_eq(self.entries[i].0.as_str(), name) {
                assert(self.pairs()[i as int] == (name@, self.entries@[i as int].1@));
                return Some(&self.entries[i].1);
            }
            i += 1;
        }
        None
    }

    /// Stores a cookie, replacing any earlier value under the same name.
    pub fn insert(&mut self, name: String, value: String)
        ensures
            names_sorted(final(self).pairs()),
            forall|k: Seq<char>|
                #![trigger final(self).view().contains_key(k)]
                final(self).view().contains_key(k) <==> (old(self).view().contains_key(k) || k == name@),
            final(self).view().contains_key(name@) && final(self).view()[name@] == value@,
            forall|k: Seq<char>|
                k != name@ && old(self).view().contains_key(k) ==> final(self).view()[k] == old(self).view()[k],
            final(self).view() == old(self).view().insert(name@, value@),
    {
        proof {
            use_type_invariant(&*self);
        }
        let ghost ps = self.pairs();
        let mut k: usize = 0;
        while k < self.entries.len() && less_text(self.entries[k].0.as_str(), name.as_str())
            invariant
                k <= self.entries@.len(),
                ps == pair_views(self.entries@),
                names_sorted(ps),
                forall|j: int| 0 <= j < k ==> text_less(ps[j].0, name@),
            decreases self.entries.len() - k,
        {
            k += 1;
        }
        let ghost nv = (name@, value@);
        let replace = k < self.entries.len() && str_eq(self.entries[k].0.as_str(), name.as_str());
        let mut entries: Vec<(String, String)> = Vec::new();
        std::mem::swap(&mut entries, &mut self.entries);
        if replace {
            entries.set(k, (name, value));
            proof {
                assert(pair_views(entries@) =~= ps.update(k as int, nv));
                assert forall|i: int, j: int| 0 <= i < j < ps.len() implies text_less(
                    ps.update(k as int, nv)[i].0,
                    ps.update(k as int, nv)[j].0,
                ) by {
                    assert(ps[k as int].0 == nv.0);
                }
            }
        } else {
            proof {
                if k < ps.len() {
                    lemma_text_less_total(ps[k as int].0, name@);
                }
                assert forall|i: int, j: int| 0 <= i < j < ps.len() + 1 implies text_less(
                    #[trigger] ps.insert(k as int, nv)[i].0,
                    #[trigger] ps.insert(k as int, nv)[j].0,
                ) by {
                    let t = ps.insert(k as int, nv);
                    if i < k && j == k {
                    } else if i < k && j > k {
                        assert(t[j] == ps[j - 1]);
                    } else if i == k && j > k {
                        if j - 1 > k {
                            lemma_text_less_trans(name@, ps[k as int].0, ps[j - 1].0);
                        }
                    } else if i > k {
                        assert(t[i] == ps[i - 1] && t[j] == ps[j - 1]);
                    }
                }
            }
            entries.insert(k, (name, value));
            proof {
                assert(pair_views(entries@) =~= ps.insert(k as int, nv));
            }
        }
        self.entries = entries;
        proof {
            let np = self.pairs();
            assert(names_sorted(np));
            // membership and values
            assert forall|key: Seq<char>| #![trigger self.view().contains_key(key)]
                self.view().contains_key(key) <==> (pairs_map(ps).contains_key(key) || key == name@) by {
                if self.view().contains_key(key) {
                    let w = choose|w: int| 0 <= w < np.len() && #[trigger] np[w].0 == key;
                    if key != name@ {
                        if replace {
                            assert(ps[w].0 == key);
                        } else if w < k {
                            assert(ps[w].0 == key);
                        } else {
                            assert(ps[w - 1].0 == key);
                        }
                    }
                }
                if pairs_map(ps).contains_key(key) {
                    let w = choose|w: int| 0 <= w < ps.len() && #[trigger] ps[w].0 == key;
                    if replace {
                        assert(np[w].0 == key);
                    } else if w < k {
                        assert(np[w].0 == key);
                    } else {
                        assert(np[w + 1].0 == key);
                    }
                }
                if key == name@ {
                    assert(np[k as int].0 == key);
                }
            }
            assert(np[k as int] == nv);
            let wn = choose|w: int| 0 <= w < np.len() && #[trigger] np[w].0 == name@;
            if wn != k {
                if wn < k {
                    assert(text_less(np[wn].0, np[k as int].0));
                } else {
                    assert(text_less(np[k as int].0, np[wn].0));
                }
                lemma_text_less_total(name@, name@);
            }
            assert forall|key: Seq<char>|
                key != name@ && pairs_map(ps).contains_key(key) implies self.view()[key] == pairs_map(ps)[key] by {
                let w = choose|w: int| 0 <= w < ps.len() && #[trigger] ps[w].0 == key;
                let w2 = choose|w2: int| 0 <= w2 < np.len() && #[trigger] np[w2].0 == key;
                let wo = if replace || w < k { w } else { w + 1 };
                assert(np[wo] == ps[w]);
                if w2 != wo {
                    if w2 < wo {
                        assert(text_less(np[w2].0, np[wo].0));
                    } else {
                        assert(text_less(np[wo].0, np[w2].0));
                    }
                    lemma_text_less_total(key, key);
                }
                if w != choose|w: int| 0 <= w < ps.len() && #[trigger] ps[w].0 == key {
                }
            }
            assert(self.view() =~= pairs_map(ps).insert(name@, value@));
        }
    }

    /// The `Cookie` header value, when there is any cookie.
    pub fn header(&self) -> (h: Option<String>)
        ensures
            self.pairs().len() == 0 ==> h is None,
            self.pairs().len() > 0 ==> (h matches Some(t) && t@ == cookie_text(self.pairs())),
    {
        if self.entries.len() == 0 {
            return None;
        }
        let mut out = String::new();
        let mut i: usize = 0;
        let ghost ps = self.pairs();
        while i < self.entries.len()
            invariant
                i <= self.entries@.len(),
                ps == self.pairs(),
                out@ == join(Seq::new(i as nat, |k: int| ps[k].0 + "="@ + ps[k].1), "; "@),
            decreases self.entries.len() - i,
        {
            let ghost parts = Seq::new(i as nat, |k: int| ps[k].0 + "="@ + ps[k].1);
            let ghost next = Seq::new((i + 1) as nat, |k: int| ps[k].0 + "="@ + ps[k].1);
            if i > 0 {
                push_str(&mut out, "; ");
            }
            push_str(&mut out, self.entries[i].0.as_str());
            push_str(&mut out, "=");
            push_str(&mut out, self.entries[i].1.as_str());
            proof {
                assert(next.drop_last() =~= parts);
                assert(ps[i as int] == (self.entries@[i as int].0@, self.entries@[i as int].1@));
                if i == 0 {
                    assert(out@ =~= join(next, "; "@));
                } else {
                    assert(out@ =~= join(parts, "; "@) + "; "@ + next.last());
                }
            }
            i += 1;
        }
        assert(Seq::new(ps.len(), |k: int| ps[k].0 + "="@ + ps[k].1) =~= Seq::new(
            i as nat,
            |k: int| ps[k].0 + "="@ + ps[k].1,
        ));
        Some(out)
    }
}

/* ------------------------------------------------------------------ client */

/// The pairs the `Set-Cookie` lines of a header carry, in order: each line's
/// text before its first `;`, split at its first `=`, both sides trimmed.
pub open spec fn set_cookie_pairs(raw: Seq<char>) -> Seq<(Seq<char>, Seq<char>)> {
    set_cookie_pairs_upto(split_char(raw, '\n'), split_char(raw, '\n').len() as int)
}

pub open spec fn set_cookie_pairs_upto(ls: Seq<Seq<char>>, n: int) -> Seq<(Seq<char>, Seq<char>)>
    decreases n,
{
    if n <= 0 || n > ls.len() {
        seq![]
    } else {
        let prev = set_cookie_pairs_upto(ls, n - 1);
        match split_once(split_char(ls[n - 1], ';')[0], "="@) {
            Some(kv) => prev.push((trim(kv.0), trim(kv.1))),
            None => prev,
        }
    }
}

/// A map with each pair stored in turn, later ones replacing earlier ones.
pub open spec fn store_pairs(m: Map<Seq<char>, Seq<char>>, ps: Seq<(Seq<char>, Seq<char>)>) -> Map<Seq<char>, Seq<char>>
    decreases ps.len(),
{
    if ps.len() == 0 {
        m
    } else {
        store_pairs(m, ps.drop_last()).insert(ps.last().0, ps.last().1)
    }
}

/// The CSRF token the headers carry: an updated one first, then a plain one.
pub open spec fn csrf_after(old_token: Option<Seq<char>>, h: Map<Seq<char>, Seq<char>>) -> Option<Seq<char>> {
    if h.contains_key("x-updated-csrf-token"@) {
        Some(h["x-updated-csrf-token"@])
    } else if h.contains_key("x-csrf-token"@) {
        Some(h["x-csrf-token"@])
    } else {
        old_token
    }
}

/// A connection to one controller: where it is, which flavour it speaks,
/// the pinned certificate fingerprint, and the session it holds. There is no
/// `Debug`: it would print the session cookie and token.
pub struct UnifiClient {
    host: String,
    port: u16,
    flavour: Flavour,
    /// Pinned fingerprint. Set on first successful connect, then enforced.
    pin: Option<String>,
    cookies: CookieJar,
    csrf: Option<String>,
}

/// Outcome of connecting for the first time, so the caller can persist the pin.
#[derive(Debug, Clone)]
pub struct Established {
    pub flavour: Flavour,
    pub fingerprint: String,
    /// True when no pin was supplied and this fingerprint was newly trusted.
    pub newly_pinned: bool,
}

impl UnifiClient {
    pub closed spec fn host_view(&self) -> Seq<char> {
        self.host@
    }

    pub closed spec fn port_view(&self) -> u16 {
        self.port
    }

    pub closed spec fn flavour_view(&self) -> Flavour {
        self.flavour
    }

    pub closed spec fn pin_view(&self) -> Option<Seq<char>> {
        opt_text_view(self.pin)
    }

    pub closed spec fn cookie_view(&self) -> Map<Seq<char>, Seq<char>> {
        self.cookies.view()
    }

    pub closed spec fn cookie_pairs(&self) -> Seq<(Seq<char>, Seq<char>)> {
        self.cookies.pairs()
    }

    pub closed spec fn csrf_view(&self) -> Option<Seq<char>> {
        opt_text_view(self.csrf)
    }

    /// `pin` is the previously stored fingerprint, if any; `None` trusts
    /// whatever is presented, acceptable exactly once, on first setup. A host
    /// written as an IPv4 address outside private space is refused before any
    /// connection: credentials are never sent to a public host. A host name
    /// cannot be checked here; the resolver decides.
    pub fn new(host: &str, port: u16, pin: Option<String>) -> (r: Result<UnifiClient, UnifiError>)
        ensures
            match parse_ipv4(host@) {
                Some(a) if !is_private_spec(a) => r matches Err(UnifiError::NotPrivate(h)) && h@ == host@,
                _ => r matches Ok(c) && c.host_view() == host@ && c.port_view() == port && c.flavour_view()
                    == Flavour::UnifiOs && c.pin_view() == opt_text_view(pin) && c.cookie_pairs().len()
                    == 0 && c.csrf_view() is None,
            },
    {
        match parse_ipv4_str(host) {
            Some(a) => {
                if !is_private_ipv4(a) {
                    return Err(UnifiError::NotPrivate(owned(host)));
                }
            },
            None => {},
        }
        Ok(UnifiClient { host: owned(host), port, flavour: Flavour::UnifiOs, pin, cookies: CookieJar::new(), csrf: None })
    }

    pub fn flavour(&self) -> (f: Flavour)
        ensures
            f == self.flavour_view(),
    {
        self.flavour
    }

    pub fn set_flavour(&mut self, f: Flavour)
        ensures
            final(self).flavour_view() == f,
            final(self).host_view() == old(self).host_view(),
            final(self).port_view() == old(self).port_view(),
            final(self).pin_view() == old(self).pin_view(),
            final(self).cookie_pairs() == old(self).cookie_pairs(),
            final(self).csrf_view() == old(self).csrf_view(),
    {
        self.flavour = f;
    }

    pub fn host(&self) -> (h: &str)
        ensures
            h@ == self.host_view(),
    {
        self.host.as_str()
    }

    pub fn port(&self) -> (p: u16)
        ensures
            p == self.port_view(),
    {
        self.port
    }

    pub fn pin(&self) -> (p: Option<&String>)
        ensures
            match p {
                Some(t) => self.pin_view() == Some(t@),
                None => self.pin_view() is None,
            },
    {
        match &self.pin {
            Some(t) => Some(t),
            None => None,
        }
    }

    /// Whether a session cookie is held.
    pub fn has_session(&self) -> (b: bool)
        ensures
            b == (self.cookie_pairs().len() > 0),
    {
        self.cookies.len() > 0
    }

    /// The cookie stored under a name.
    pub fn cookie(&self, name: &str) -> (r: Option<&String>)
        ensures
            r matches Some(v) ==> exists|i: int|
                0 <= i < self.cookie_pairs().len() && #[trigger] self.cookie_pairs()[i] == (name@, v@),
            r is None ==> forall|i: int| 0 <= i < self.cookie_pairs().len() ==> #[trigger] self.cookie_pairs()[i].0 != name@,
    {
        let r = self.cookies.get(name);
        proof {
            match r {
                Some(v) => {
                    let w = choose|w: int|
                        0 <= w < self.cookies.pairs().len() && #[trigger] self.cookies.pairs()[w] == (name@, v@);
                    assert(self.cookie_pairs()[w] == (name@, v@));
                },
                None => {},
            }
        }
        r
    }

    pub fn csrf(&self) -> (r: Option<&String>)
        ensures
            match r {
                Some(t) => self.csrf_view() == Some(t@),
                None => self.csrf_view() is None,
            },
    {
        match &self.csrf {
            Some(t) => Some(t),
            None => None,
        }
    }

    /// The `Cookie` header: every cookie as `name=value`, in name order,
    /// joined by `; `.
    pub fn cookie_header(&self) -> (h: Option<String>)
        ensures
            self.cookie_pairs().len() == 0 ==> h is None,
            self.cookie_pairs().len() > 0 ==> (h matches Some(t) && t@ == cookie_text(self.cookie_pairs())),
    {
        self.cookies.header()
    }

    /// Forgets the session.
    pub fn clear_session(&mut self)
        ensures
            final(self).cookie_pairs().len() == 0,
            final(self).csrf_view() is None,
            final(self).host_view() == old(self).host_view(),
            final(self).port_view() == old(self).port_view(),
            final(self).flavour_view() == old(self).flavour_view(),
            final(self).pin_view() == old(self).pin_view(),
    {
        self.cookies = CookieJar::new();
        self.csrf = None;
    }

    /// Takes in what a response's headers set: each `Set-Cookie` pair
    /// (repeated headers arrive joined by newlines) and the CSRF token.
    pub fn absorb_cookies(&mut self, headers: &TextMap)
        ensures
            final(self).cookie_view() == (if headers.view().contains_key("set-cookie"@) {
                store_pairs(old(self).cookie_view(), set_cookie_pairs(headers.view()["set-cookie"@]))
            } else {
                old(self).cookie_view()
            }),
            final(self).csrf_view() == csrf_after(old(self).csrf_view(), headers.view()),
            final(self).host_view() == old(self).host_view(),
            final(self).port_view() == old(self).port_view(),
            final(self).flavour_view() == old(self).flavour_view(),
            final(self).pin_view() == old(self).pin_view(),
    {
        match headers.get("set-cookie") {
            Some(raw) => {
                let rc = chars_of(raw.as_str());
                let ls = split_on(&rc, '\n');
                let ghost lv = views(ls@);
                let ghost start = self.cookies.view();
                let eq = chars_of("=");
                let mut i: usize = 0;
                while i < ls.len()
                    invariant
                        i <= ls@.len(),
                        lv == views(ls@),
                        lv == split_char(raw@, '\n'),
                        eq@ == "="@,
                        self.cookies.view() == store_pairs(start, set_cookie_pairs_upto(lv, i as int)),
                        self.host@ == old(self).host@,
                        self.port == old(self).port,
                        self.flavour == old(self).flavour,
                        self.pin == old(self).pin,
                        self.csrf == old(self).csrf,
                    decreases ls.len() - i,
                {
                    assert(lv[i as int] == ls@[i as int]@);
                    let parts = split_on(&ls[i], ';');
                    assert(views(parts@)[0] == parts@[0]@);
                    match split_once_chars(&parts[0], &eq) {
                        Some((n, v)) => {
                            let name = trimmed(&n);
                            let value = trimmed(&v);
                            let ghost ps = set_cookie_pairs_upto(lv, i as int);
                            self.cookies.insert(string_of(&name), string_of(&value));
                            proof {
                                let next = set_cookie_pairs_upto(lv, i + 1);
                                assert(next == ps.push((name@, value@)));
                                assert(next.drop_last() =~= ps);
                            }
                        },
                        None => {},
                    }
                    i += 1;
                }
            },
            None => {},
        }
        match headers.get("x-csrf-token") {
            Some(t) => {
                self.csrf = Some(copy_text(t));
            },
            None => {},
        }
        match headers.get("x-updated-csrf-token") {
            Some(t) => {
                self.csrf = Some(copy_text(t));
            },
            None => {},
        }
    }

    /// The request line and the fixed headers.
    pub open spec fn request_head(&self, method: Seq<char>, path: Seq<char>) -> Seq<char> {
        method + " "@ + path + " HTTP/1.1\r\nHost: "@ + self.host_view() + ":"@ + dec(self.port_view() as nat)
            + "\r\n"@ + "User-Agent: local-network-diag/1.0\r\nAccept: application/json\r\n"@
            + "Connection: close\r\n"@
    }

    /// The session headers: the cookie and the CSRF token, when held.
    pub open spec fn session_headers(&self) -> Seq<char> {
        (if self.cookie_pairs().len() > 0 {
            "Cookie: "@ + cookie_text(self.cookie_pairs()) + "\r\n"@
        } else {
            Seq::<char>::empty()
        }) + (match self.csrf_view() {
            Some(c) => "X-CSRF-Token: "@ + c + "\r\n"@,
            None => Seq::<char>::empty(),
        })
    }

    /// The body's type and its length in bytes, then the blank line and the body.
    pub open spec fn request_tail(body: Option<Seq<char>>) -> Seq<char> {
        match body {
            Some(b) => "Content-Type: application/json\r\n"@ + "Content-Length: "@ + dec(bytes_of(b) as nat)
                + "\r\n"@ + "\r\n"@ + b,
            None => "\r\n"@,
        }
    }

    /// The text of a request to the controller.
    pub fn request_text(&self, method: &str, path: &str, body: Option<&str>) -> (t: String)
        ensures
            t@ == self.request_head(method@, path@) + self.session_headers() + Self::request_tail(
                match body {
                    Some(b) => Some(b@),
                    None => None,
                },
            ),
    {
        let mut r = owned(method);
        push_str(&mut r, " ");
        push_str(&mut r, path);
        push_str(&mut r, " HTTP/1.1\r\nHost: ");
        push_str(&mut r, self.host.as_str());
        push_str(&mut r, ":");
        push_dec(&mut r, self.port as u64);
        push_str(&mut r, "\r\n");
        push_str(&mut r, "User-Agent: local-network-diag/1.0\r\nAccept: application/json\r\n");
        push_str(&mut r, "Connection: close\r\n");
        let ghost head = r@;
        assert(head == self.request_head(method@, path@));
        let mut session = String::new();
        match self.cookie_header() {
            Some(c) => {
                push_str(&mut session, "Cookie: ");
                push_str(&mut session, c.as_str());
                push_str(&mut session, "\r\n");
            },
            None => {},
        }
        match &self.csrf {
            Some(c) => {
                push_str(&mut session, "X-CSRF-Token: ");
                push_str(&mut session, c.as_str());
                push_str(&mut session, "\r\n");
            },
            None => {},
        }
        assert(session@ =~= self.session_headers());
        let mut tail = String::new();
        match body {
            Some(b) => {
                let bc = chars_of(b);
                let n = byte_len(&bc);
                push_str(&mut tail, "Content-Type: application/json\r\n");
                push_str(&mut tail, "Content-Length: ");
                crate::text::push_dec_wide(&mut tail, n);
                push_str(&mut tail, "\r\n");
                push_str(&mut tail, "\r\n");
                push_str(&mut tail, b);
            },
            None => {
                push_str(&mut tail, "\r\n");
            },
        }
        assert(tail@ =~= Self::request_tail(
            match body {
                Some(b) => Some(b@),
                None => None,
            },
        ));
        push_str(&mut r, session.as_str());
        push_str(&mut r, tail.as_str());
        r
    }
}

/// The certificate-pin check, made after the handshake and before anything is
/// sent: with no pin any certificate is accepted; with one, the presented
/// fingerprint must match it, ASCII case aside.
pub fn check_pin(pin: Option<&str>, actual: &str) -> (r: Result<(), UnifiError>)
    ensures
        r is Ok <==> (pin is None || lower_seq(pin->0@) == lower_seq(actual@)),
        r matches Err(e) ==> (e matches UnifiError::FingerprintMismatch { expected, actual: got } && pin is Some
            && expected@ == pin->0@ && got@ == actual@),
{
    match pin {
        None => Ok(()),
        Some(expected) => {
            let a = lowercase(&chars_of(expected));
            let b = lowercase(&chars_of(actual));
            let mut same = a.len() == b.len();
            let mut i: usize = 0;
            while same && i < a.len()
                invariant
                    i <= a@.len(),
                    same ==> a@.len() == b@.len(),
                    same ==> forall|k: int| 0 <= k < i ==> a@[k] == b@[k],
                    !same ==> a@ != b@,
                decreases a.len() - i,
            {
                if a[i] != b[i] {
                    same = false;
                }
                i += 1;
            }
            if same {
                assert(a@ =~= b@);
                Ok(())
            } else {
                Err(UnifiError::FingerprintMismatch { expected: owned(expected), actual: owned(actual) })
            }
        },
    }
}

} // verus!
