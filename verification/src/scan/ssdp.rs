//! SSDP / UPnP: reading responders' headers and description documents.
//!
//! Discovery is multicast M-SEARCH then a fetch of each responder's
//! description XML; the sockets are the application's. What the answers mean
//! is read here.
use crate::text::{
    chars_of, ends_with_chars, find, find_chars, lines, lines_of, lower_seq, lowercase, replace,
    replace_chars, slice_chars, split_once, split_once_chars, starts_with_chars, string_of,
    strip_prefix, strip_suffix, trim, trimmed, views,
};
use crate::textmap::TextMap;
use crate::types::SsdpRecord;
use vstd::prelude::*;

verus! {

/// A `Key: value` line as a lowercased, trimmed key and a trimmed value.
pub open spec fn header_entry(line: Seq<char>) -> Option<(Seq<char>, Seq<char>)> {
    match split_once(line, ":"@) {
        Some((k, v)) => Some((lower_seq(trim(k)), trim(v))),
        None => None,
    }
}

/// The headers among the first `n` lines, skipping the first (the status or
/// request line); a later header replaces an earlier one of the same name.
pub open spec fn headers_from(ls: Seq<Seq<char>>, n: int) -> Map<Seq<char>, Seq<char>>
    decreases n,
{
    if n <= 1 {
        Map::empty()
    } else {
        let m = headers_from(ls, n - 1);
        match header_entry(ls[n - 1]) {
            Some((k, v)) => m.insert(k, v),
            None => m,
        }
    }
}

/// Reads the header lines of a message into a map.
pub fn header_map(ls: &Vec<Vec<char>>) -> (m: TextMap)
    ensures
        m.view() == headers_from(views(ls@), ls@.len() as int),
{
    let mut m = TextMap::new();
    let colon = chars_of(":");
    let mut i: usize = 1;
    if ls.len() == 0 {
        return m;
    }
    while i < ls.len()
        invariant
            1 <= i <= ls@.len(),
            colon@ == ":"@,
            m.view() == headers_from(views(ls@), i as int),
        decreases ls.len() - i,
    {
        assert(views(ls@)[i as int] == ls@[i as int]@);
        match split_once_chars(&ls[i], &colon) {
            Some((k, v)) => {
                let kt = trimmed(&k);
                let key = lowercase(&kt);
                let val = trimmed(&v);
                m.insert(string_of(&key), string_of(&val));
            },
            None => {},
        }
        i += 1;
    }
    m
}

/// Parses the headers of an SSDP response, case-insensitively by name.
pub fn parse_headers(message: &str) -> (m: TextMap)
    ensures
        m.view() == headers_from(lines(message@), lines(message@).len() as int),
{
    let c = chars_of(message);
    let ls = lines_of(&c);
    header_map(&ls)
}

/// What a tag's text decodes to: CDATA unwrapped, the five XML entities
/// decoded (`&amp;` last), and surrounding whitespace trimmed.
pub open spec fn decode_text(raw: Seq<char>) -> Seq<char> {
    let unwrapped = match strip_prefix(raw, "<![CDATA["@) {
        Some(rest) => match strip_suffix(rest, "]]>"@) {
            Some(inner) => inner,
            None => raw,
        },
        None => raw,
    };
    trim(
        replace(
            replace(
                replace(replace(replace(unwrapped, "&lt;"@, "<"@), "&gt;"@, ">"@), "&quot;"@, "\""@),
                "&apos;"@,
                "'"@,
            ),
            "&amp;"@,
            "&"@,
        ),
    )
}

/// The decoded text of the first `<tag>…</tag>`, unless it is empty.
pub open spec fn extract_tag_spec(xml: Seq<char>, tag: Seq<char>) -> Option<Seq<char>> {
    let open = "<"@ + tag + ">"@;
    let close = "</"@ + tag + ">"@;
    match find(xml, open) {
        None => None,
        Some(i) => {
            let start = i + open.len();
            match crate::text::find_from(xml, close, start) {
                None => None,
                Some(end) => {
                    let d = decode_text(trim(xml.subrange(start, end)));
                    if d.len() == 0 {
                        None
                    } else {
                        Some(d)
                    }
                },
            }
        },
    }
}

fn decode(raw: &Vec<char>) -> (out: Vec<char>)
    ensures
        out@ == decode_text(raw@),
{
    let pre = chars_of("<![CDATA[");
    let suf = chars_of("]]>");
    let mut unwrapped = raw.clone();
    if starts_with_chars(raw, &pre) {
        let rest = slice_chars(raw, pre.len(), raw.len());
        assert(rest@ =~= raw@.skip(pre@.len() as int));
        if ends_with_chars(&rest, &suf) {
            unwrapped = slice_chars(&rest, 0, rest.len() - suf.len());
            assert(unwrapped@ =~= rest@.take(rest@.len() - suf@.len()));
        }
    }
    assert(unwrapped@ == match strip_prefix(raw@, "<![CDATA["@) {
        Some(rest) => match strip_suffix(rest, "]]>"@) {
            Some(inner) => inner,
            None => raw@,
        },
        None => raw@,
    });
    let lt = chars_of("&lt;");
    let gt = chars_of("&gt;");
    let quot = chars_of("&quot;");
    let apos = chars_of("&apos;");
    let amp = chars_of("&amp;");
    let c_lt = chars_of("<");
    let c_gt = chars_of(">");
    let c_quot = chars_of("\"");
    let c_apos = chars_of("'");
    let c_amp = chars_of("&");
    proof {
        reveal_strlit("&lt;");
        reveal_strlit("&gt;");
        reveal_strlit("&quot;");
        reveal_strlit("&apos;");
        reveal_strlit("&amp;");
    }
    let a = replace_chars(&unwrapped, &lt, &c_lt);
    let b = replace_chars(&a, &gt, &c_gt);
    let c = replace_chars(&b, &quot, &c_quot);
    let d = replace_chars(&c, &apos, &c_apos);
    let e = replace_chars(&d, &amp, &c_amp);
    trimmed(&e)
}

/// Extracts the first occurrence of a tag. Deliberately not a full XML parser —
/// UPnP descriptions are small and flat.
pub fn extract_tag(xml: &str, tag: &str) -> (r: Option<String>)
    ensures
        match extract_tag_spec(xml@, tag@) {
            Some(t) => r matches Some(s) && s@ == t,
            None => r is None,
        },
{
    let x = chars_of(xml);
    let t = chars_of(tag);
    let mut open: Vec<char> = Vec::new();
    open.push('<');
    let mut k: usize = 0;
    while k < t.len()
        invariant
            k <= t@.len(),
            open@ == seq!['<'] + t@.take(k as int),
        decreases t.len() - k,
    {
        open.push(t[k]);
        proof {
            assert(t@.take(k + 1) =~= t@.take(k as int).push(t@[k as int]));
        }
        k += 1;
    }
    open.push('>');
    let mut close: Vec<char> = Vec::new();
    close.push('<');
    close.push('/');
    let mut k2: usize = 0;
    while k2 < t.len()
        invariant
            k2 <= t@.len(),
            close@ == seq!['<', '/'] + t@.take(k2 as int),
        decreases t.len() - k2,
    {
        close.push(t[k2]);
        proof {
            assert(t@.take(k2 + 1) =~= t@.take(k2 as int).push(t@[k2 as int]));
        }
        k2 += 1;
    }
    close.push('>');
    proof {
        reveal_strlit("<");
        reveal_strlit(">");
        reveal_strlit("</");
        assert(t@.take(t@.len() as int) =~= t@);
        assert(open@ =~= "<"@ + tag@ + ">"@);
        assert(close@ =~= "</"@ + tag@ + ">"@);
    }
    let i = match find_chars(&x, &open, 0) {
        Some(i) => i,
        None => return None,
    };
    proof {
        crate::text::lemma_find_from(x@, open@, 0);
        assert(crate::text::matches_at(x@, open@, i as int));
    }
    let xl = x.len();
    let ol = open.len();
    assert(i + ol <= xl);
    let start = i + ol;
    let end = match find_chars(&x, &close, start) {
        Some(e) => e,
        None => return None,
    };
    proof {
        crate::text::lemma_find_from(x@, close@, start as int);
    }
    let raw = slice_chars(&x, start, end);
    let t2 = trimmed(&raw);
    let d = decode(&t2);
    if d.len() == 0 {
        None
    } else {
        Some(string_of(&d))
    }
}

/// Identity fields from a UPnP device description.
pub fn parse_description(xml: &str) -> (r: SsdpRecord)
    ensures
        r.st@.len() == 0,
        r.usn is None && r.server is None && r.location is None,
        opt_is(r.device_type, extract_tag_spec(xml@, "deviceType"@)),
        opt_is(r.friendly_name, extract_tag_spec(xml@, "friendlyName"@)),
        opt_is(r.manufacturer, extract_tag_spec(xml@, "manufacturer"@)),
        opt_is(r.model_name, extract_tag_spec(xml@, "modelName"@)),
        opt_is(r.model_number, extract_tag_spec(xml@, "modelNumber"@)),
        opt_is(r.serial_number, extract_tag_spec(xml@, "serialNumber"@)),
{
    SsdpRecord {
        st: String::new(),
        usn: None,
        server: None,
        location: None,
        device_type: extract_tag(xml, "deviceType"),
        friendly_name: extract_tag(xml, "friendlyName"),
        manufacturer: extract_tag(xml, "manufacturer"),
        model_name: extract_tag(xml, "modelName"),
        model_number: extract_tag(xml, "modelNumber"),
        serial_number: extract_tag(xml, "serialNumber"),
    }
}

pub open spec fn opt_is(s: Option<String>, t: Option<Seq<char>>) -> bool {
    match t {
        Some(v) => s matches Some(x) && x@ == v,
        None => s is None,
    }
}

} // verus!
