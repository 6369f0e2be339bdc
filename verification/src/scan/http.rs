//! A deliberately small HTTP/1.1 reader and writer.
//!
//! Banner grabbing needs the status line, a few headers and a bounded slice of
//! the body. Connections and TLS are the application's; the request text and
//! the reading of the response are here.
use crate::scan::ssdp::{header_map, headers_from};
use crate::text::{
    chars_of, find, find_chars, find_from, join, join_chars, lines, lines_of, lowercase,
    lower_seq, owned, parse_unsigned, parse_unsigned_range, push_str, slice_chars, split_once,
    split_once_chars, string_of, trim, trimmed, views, words, words_of,
};
use crate::textmap::TextMap;
use vstd::prelude::*;

verus! {

#[derive(Debug)]
pub struct HttpResponse {
    pub status: u16,
    pub headers: TextMap,
    pub body: String,
}

pub open spec fn request_text(host: Seq<char>, path: Seq<char>) -> Seq<char> {
    "GET "@ + path + " HTTP/1.1\r\nHost: "@ + host
        + "\r\nUser-Agent: local-network-diag/1.0\r\nAccept: text/html,*/*\r\nConnection: close\r\n\r\n"@
}

/// The request sent for a banner or a description document.
pub fn build_request(host: &str, path: &str) -> (s: String)
    ensures
        s@ == request_text(host@, path@),
{
    let mut s = owned("GET ");
    push_str(&mut s, path);
    push_str(&mut s, " HTTP/1.1\r\nHost: ");
    push_str(&mut s, host);
    push_str(
        &mut s,
        "\r\nUser-Agent: local-network-diag/1.0\r\nAccept: text/html,*/*\r\nConnection: close\r\n\r\n",
    );
    s
}

/// The head and body of a raw response; without a blank line it is all head.
pub open spec fn head_and_body(raw: Seq<char>) -> (Seq<char>, Seq<char>) {
    match split_once(raw, "\r\n\r\n"@) {
        Some(p) => p,
        None => (raw, seq![]),
    }
}

/// Status, headers and body, when the status line carries a status code.
pub open spec fn response_spec(raw: Seq<char>) -> Option<(u16, Map<Seq<char>, Seq<char>>, Seq<char>)> {
    let (head, body) = head_and_body(raw);
    let ls = lines(head);
    if ls.len() == 0 {
        None
    } else {
        let ws = words(ls[0]);
        if ws.len() < 2 {
            None
        } else {
            match parse_unsigned(ws[1], 10, 65535) {
                Some(status) => Some((status as u16, headers_from(ls, ls.len() as int), body)),
                None => None,
            }
        }
    }
}

/// Parses a raw HTTP response; anything without a status code is rejected.
pub fn parse_response(raw: &str) -> (r: Option<HttpResponse>)
    ensures
        match response_spec(raw@) {
            Some((status, headers, body)) => r matches Some(resp) && resp.status == status
                && resp.headers.view() == headers && resp.body@ == body,
            None => r is None,
        },
{
    let c = chars_of(raw);
    let sep = chars_of("\r\n\r\n");
    let (head, body) = match split_once_chars(&c, &sep) {
        Some((h, b)) => (h, b),
        None => (c.clone(), Vec::new()),
    };
    assert((head@, body@) == head_and_body(raw@));
    let ls = lines_of(&head);
    if ls.len() == 0 {
        return None;
    }
    assert(views(ls@)[0] == ls@[0]@);
    let ws = words_of(&ls[0]);
    if ws.len() < 2 {
        return None;
    }
    assert(views(ws@)[1] == ws@[1]@);
    assert(ws@[1]@.subrange(0, ws@[1]@.len() as int) =~= ws@[1]@);
    let status = match parse_unsigned_range(&ws[1], 0, ws[1].len(), 10, 65535) {
        Some(v) => v as u16,
        None => return None,
    };
    let headers = header_map(&ls);
    Some(HttpResponse { status, headers, body: string_of(&body) })
}

/// The `<title>` of an HTML body, whitespace collapsed, at most 200 characters.
pub open spec fn title_spec(body: Seq<char>) -> Option<Seq<char>> {
    let lower = lower_seq(body);
    match find(lower, "<title"@) {
        None => None,
        Some(st) => match find_from(lower, ">"@, st) {
            None => None,
            Some(gt) => {
                let close = gt + 1;
                match find_from(lower, "</title>"@, close) {
                    None => None,
                    Some(end) => {
                        let t = trim(join(words(body.subrange(close, end)), " "@));
                        if t.len() == 0 {
                            None
                        } else {
                            Some(t.take(if t.len() < 200 { t.len() as int } else { 200 }))
                        }
                    },
                }
            },
        },
    }
}

/// Extracts `<title>` from an HTML body, collapsing whitespace.
pub fn extract_title(body: &str) -> (r: Option<String>)
    ensures
        match title_spec(body@) {
            Some(t) => r matches Some(s) && s@ == t,
            None => r is None,
        },
{
    let b = chars_of(body);
    let lower = lowercase(&b);
    let open = chars_of("<title");
    let gt = chars_of(">");
    let close_tag = chars_of("</title>");
    let st = match find_chars(&lower, &open, 0) {
        Some(i) => i,
        None => return None,
    };
    proof {
        crate::text::lemma_find_from(lower@, open@, 0);
    }
    let g = match find_chars(&lower, &gt, st) {
        Some(i) => i,
        None => return None,
    };
    proof {
        crate::text::lemma_find_from(lower@, gt@, st as int);
        reveal_strlit(">");
        assert(crate::text::matches_at(lower@, gt@, g as int));
    }
    let ll = lower.len();
    assert(g + 1 <= ll);
    let close = g + 1;
    let end = match find_chars(&lower, &close_tag, close) {
        Some(i) => i,
        None => return None,
    };
    proof {
        crate::text::lemma_find_from(lower@, close_tag@, close as int);
        assert(crate::text::matches_at(lower@, close_tag@, end as int));
    }
    let inner = slice_chars(&b, close, end);
    let ws = words_of(&inner);
    let space = chars_of(" ");
    let joined = join_chars(&ws, &space);
    let t = trimmed(&joined);
    if t.len() == 0 {
        return None;
    }
    let n = if t.len() < 200 {
        t.len()
    } else {
        200
    };
    let out = slice_chars(&t, 0, n);
    assert(out@ =~= t@.take(n as int));
    Some(string_of(&out))
}

/* ---------------------------------------------------------------------- URLs */

/// Where a description URL points: TLS or not, host, port, the authority as
/// written, and the path.
pub struct UrlTarget {
    pub secure: bool,
    pub host: String,
    pub port: u16,
    pub authority: String,
    pub path: String,
}

/// The text after the last `:`, and before it.
pub open spec fn rsplit_colon(s: Seq<char>) -> Option<(Seq<char>, Seq<char>)> {
    if exists|i: int| 0 <= i < s.len() && s[i] == ':' {
        let i = choose|i: int|
            0 <= i < s.len() && s[i] == ':' && forall|j: int| i < j < s.len() ==> s[j] != ':';
        Some((s.take(i), s.skip(i + 1)))
    } else {
        None
    }
}

pub open spec fn url_spec(url: Seq<char>) -> Option<(bool, Seq<char>, u16, Seq<char>, Seq<char>)> {
    let (secure, rest) = if crate::text::starts_with(url, "http://"@) {
        (false, url.skip(7))
    } else if crate::text::starts_with(url, "https://"@) {
        (true, url.skip(8))
    } else {
        (false, seq![])
    };
    if !crate::text::starts_with(url, "http://"@) && !crate::text::starts_with(url, "https://"@) {
        None
    } else {
        let (authority, path) = match find(rest, "/"@) {
            Some(i) => (rest.take(i), rest.skip(i)),
            None => (rest, "/"@),
        };
        let default_port: u16 = if secure {
            443
        } else {
            80
        };
        let (host, port) = match rsplit_colon(authority) {
            Some((h, p)) => (h, match parse_unsigned(p, 10, 65535) {
                Some(v) => v as u16,
                None => default_port,
            }),
            None => (authority, default_port),
        };
        Some((secure, host, port, authority, path))
    }
}

/// Splits a description URL into what a connection needs. Only `http://` and
/// `https://` are supported; a port that does not parse falls back to the
/// scheme's default.
pub fn parse_url(url: &str) -> (r: Result<UrlTarget, String>)
    ensures
        match url_spec(url@) {
            Some((secure, host, port, authority, path)) => r matches Ok(t) && t.secure == secure
                && t.host@ == host && t.port == port && t.authority@ == authority && t.path@ == path,
            None => r matches Err(e) && e@ == "unsupported scheme"@,
        },
{
    let u = chars_of(url);
    let http = chars_of("http://");
    let https = chars_of("https://");
    proof {
        reveal_strlit("http://");
        reveal_strlit("https://");
        reveal_strlit("/");
    }
    let (secure, rest) = if crate::text::starts_with_chars(&u, &http) {
        (false, slice_chars(&u, 7, u.len()))
    } else if crate::text::starts_with_chars(&u, &https) {
        (true, slice_chars(&u, 8, u.len()))
    } else {
        return Err(owned("unsupported scheme"));
    };
    assert(rest@ =~= u@.skip(if secure { 8int } else { 7int }));
    let slash = chars_of("/");
    let (authority, path) = match find_chars(&rest, &slash, 0) {
        Some(i) => {
            proof {
                crate::text::lemma_find_from(rest@, slash@, 0);
            }
            let a = slice_chars(&rest, 0, i);
            let p = slice_chars(&rest, i, rest.len());
            assert(a@ =~= rest@.take(i as int));
            assert(p@ =~= rest@.skip(i as int));
            (a, p)
        },
        None => (rest.clone(), chars_of("/")),
    };
    let default_port: u16 = if secure {
        443
    } else {
        80
    };
    // The last `:` splits host from port.
    let mut colon: Option<usize> = None;
    let mut k: usize = 0;
    while k < authority.len()
        invariant
            k <= authority@.len(),
            colon matches Some(c) ==> c < k && authority@[c as int] == ':' && forall|j: int|
                c < j < k ==> authority@[j] != ':',
            colon is None ==> forall|j: int| 0 <= j < k ==> authority@[j] != ':',
        decreases authority.len() - k,
    {
        if authority[k] == ':' {
            colon = Some(k);
        }
        k += 1;
    }
    let (host, port) = match colon {
        Some(c) => {
            let h = slice_chars(&authority, 0, c);
            let p = slice_chars(&authority, c + 1, authority.len());
            proof {
                let s = authority@;
                assert(exists|i: int| 0 <= i < s.len() && s[i] == ':');
                let w = choose|i: int|
                    0 <= i < s.len() && s[i] == ':' && forall|j: int| i < j < s.len() ==> s[j] != ':';
                if w < c {
                    assert(s[c as int] != ':');
                }
                if w > c {
                    assert(s[w] != ':');
                }
                assert(h@ =~= s.take(c as int));
                assert(p@ =~= s.skip(c + 1));
                assert(p@.subrange(0, p@.len() as int) =~= p@);
            }
            let port = match parse_unsigned_range(&p, 0, p.len(), 10, 65535) {
                Some(v) => v as u16,
                None => default_port,
            };
            (h, port)
        },
        None => (authority.clone(), default_port),
    };
    Ok(UrlTarget {
        secure,
        host: string_of(&host),
        port,
        authority: string_of(&authority),
        path: string_of(&path),
    })
}

} // verus!
