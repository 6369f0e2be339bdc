//! NetBIOS node-status query (UDP/137): the query bytes and the reading of
//! an answer.
//!
//! Windows machines, Samba servers and many NAS boxes answer with their
//! machine name, workgroup and adapter MAC: often the only friendly name for
//! a device that publishes no mDNS.
use crate::netutil::{is_meaningless_mac, meaningless_spec};
use crate::text::{hex2_lower, push_hex2, push_str, string_of, trim, trimmed};
use crate::types::NetbiosResult;
use vstd::prelude::*;
use vstd::string::StringSliceAdditionalSpecFns;

verus! {

/// The name padded with NULs to 16 bytes (longer names are cut).
pub open spec fn padded_byte(bytes: Seq<u8>, i: int) -> u8 {
    if i < bytes.len() {
        bytes[i]
    } else {
        0
    }
}

/// NetBIOS first-level encoding: a length byte of 32, each of the 16 padded
/// name bytes as two bytes (one per nibble, offset from `A`), then a NUL.
pub open spec fn encoded_name(bytes: Seq<u8>) -> Seq<u8> {
    seq![32u8] + Seq::new(
        32,
        |k: int|
            if k % 2 == 0 {
                (65 + padded_byte(bytes, k / 2) / 16) as u8
            } else {
                (65 + padded_byte(bytes, k / 2) % 16) as u8
            },
    ) + seq![0u8]
}

/// The wildcard name `*` padded with NULs encodes to `CKAAAA...`.
pub fn encode_netbios_name(name: &str) -> (out: Vec<u8>)
    ensures
        out@ == encoded_name(name.spec_bytes()),
{
    let bytes = name.as_bytes();
    let mut out: Vec<u8> = Vec::new();
    out.push(32);
    let mut i: usize = 0;
    while i < 16
        invariant
            i <= 16,
            bytes@ == name.spec_bytes(),
            out@.len() == 1 + 2 * i,
            out@[0] == 32,
            forall|j: int|
                1 <= j <= 2 * i ==> #[trigger] out@[j] == (if (j - 1) % 2 == 0 {
                    (65 + padded_byte(bytes@, (j - 1) / 2) / 16) as u8
                } else {
                    (65 + padded_byte(bytes@, (j - 1) / 2) % 16) as u8
                }),
        decreases 16 - i,
    {
        let b: u8 = if i < bytes.len() {
            bytes[i]
        } else {
            0
        };
        assert(b == padded_byte(bytes@, i as int));
        out.push(65 + b / 16);
        out.push(65 + b % 16);
        i += 1;
    }
    out.push(0);
    assert(out@ =~= encoded_name(name.spec_bytes()));
    out
}

/// The node-status question for the wildcard name.
pub open spec fn query_bytes(id: u16) -> Seq<u8> {
    seq![(id / 256) as u8, (id % 256) as u8, 0u8, 0u8, 0u8, 1u8, 0u8, 0u8, 0u8, 0u8, 0u8, 0u8]
        + encoded_name(seq![42u8]) + seq![0u8, 0x21u8, 0u8, 1u8]
}

pub fn build_query(transaction_id: u16) -> (out: Vec<u8>)
    ensures
        out@ == query_bytes(transaction_id),
{
    let mut out: Vec<u8> = Vec::new();
    out.push((transaction_id / 256) as u8);
    out.push((transaction_id % 256) as u8);
    out.push(0);
    out.push(0);
    out.push(0);
    out.push(1);
    let mut k: usize = 0;
    while k < 6
        invariant
            k <= 6,
            out@ == seq![(transaction_id / 256) as u8, (transaction_id % 256) as u8, 0u8, 0u8, 0u8, 1u8] + Seq::new(
                k as nat,
                |j: int| 0u8,
            ),
        decreases 6 - k,
    {
        out.push(0);
        k += 1;
        assert(out@ =~= seq![(transaction_id / 256) as u8, (transaction_id % 256) as u8, 0u8, 0u8, 0u8, 1u8] + Seq::new(
            k as nat,
            |j: int| 0u8,
        ));
    }
    let name = encode_netbios_name("*");
    proof {
        reveal_strlit("*");
        assert(("*"@) == seq!['*']);
        assert("*".spec_bytes() =~= seq![42u8]) by {
            vstd::string::is_ascii_spec_bytes("*");
        }
    }
    let mut i: usize = 0;
    let ghost base = out@;
    while i < name.len()
        invariant
            i <= name@.len(),
            out@ == base + name@.take(i as int),
        decreases name.len() - i,
    {
        out.push(name[i]);
        i += 1;
        assert(out@ =~= base + name@.take(i as int));
    }
    assert(name@.take(name@.len() as int) =~= name@);
    out.push(0);
    out.push(0x21);
    out.push(0);
    out.push(1);
    assert(out@ =~= query_bytes(transaction_id));
    out
}

/* ------------------------------------------------------------- the answer */

/// Where the name table begins: after the header, the question and the
/// answer record's header.
pub open spec fn table_start() -> int {
    94int
}

/// The bytes of the `k`th name entry.
pub open spec fn entry_at(buf: Seq<u8>, k: int) -> Seq<u8> {
    buf.subrange(table_start() + 1 + 18 * k, table_start() + 1 + 18 * k + 18)
}

/// An entry's name: its 15 name bytes read as text and trimmed, kept when
/// every byte is ASCII and the trimmed name is a single non-empty word.
pub open spec fn entry_name(e: Seq<u8>) -> Option<Seq<char>> {
    if forall|i: int| 0 <= i < 15 ==> #[trigger] e[i] < 128 {
        let t = trim(Seq::new(15, |i: int| e[i] as char));
        if t.len() > 0 && !t.contains(' ') {
            Some(t)
        } else {
            None
        }
    } else {
        None
    }
}

/// The unique names (workstation 0x00, file server 0x20) and the first
/// workgroup (group entry, 0x00 or 0x1e) of the first `k` entries.
pub open spec fn names_of(buf: Seq<u8>, k: int) -> (Seq<Seq<char>>, Option<Seq<char>>)
    decreases k,
{
    if k <= 0 {
        (seq![], None)
    } else {
        let p = names_of(buf, k - 1);
        let e = entry_at(buf, k - 1);
        match entry_name(e) {
            None => p,
            Some(n) => if e[16] >= 128 {
                if p.1 is None && (e[15] == 0 || e[15] == 0x1e) {
                    (p.0, Some(n))
                } else {
                    p
                }
            } else if (e[15] == 0 || e[15] == 0x20) && !p.0.contains(n) {
                (p.0.push(n), p.1)
            } else {
                p
            },
        }
    }
}

pub open spec fn mac_text(m: Seq<u8>) -> Seq<char> {
    hex2_lower(m[0]) + seq![':'] + hex2_lower(m[1]) + seq![':'] + hex2_lower(m[2]) + seq![':'] + hex2_lower(m[3])
        + seq![':'] + hex2_lower(m[4]) + seq![':'] + hex2_lower(m[5])
}

/// The adapter MAC trailing the table, unless missing, all zero or otherwise
/// meaningless.
pub open spec fn trailing_mac(buf: Seq<u8>, off: int) -> Option<Seq<char>> {
    if buf.len() >= off + 6 {
        let m = buf.subrange(off, off + 6);
        if forall|i: int| 0 <= i < 6 ==> #[trigger] m[i] == 0 {
            None
        } else if meaningless_spec(mac_text(m)) {
            None
        } else {
            Some(mac_text(m))
        }
    } else {
        None
    }
}

/// What a node-status answer says: names, workgroup and MAC, or nothing when
/// it is cut short or names nothing.
pub open spec fn netbios_spec(buf: Seq<u8>) -> Option<(Seq<Seq<char>>, Option<Seq<char>>, Option<Seq<char>>)> {
    if buf.len() <= table_start() {
        None
    } else {
        let count = buf[table_start()] as int;
        if buf.len() < table_start() + 1 + 18 * count {
            None
        } else {
            let (names, wg) = names_of(buf, count);
            if names.len() == 0 && wg is None {
                None
            } else {
                Some((names, wg, trailing_mac(buf, table_start() + 1 + 18 * count)))
            }
        }
    }
}

pub open spec fn result_view(r: NetbiosResult) -> (Seq<Seq<char>>, Option<Seq<char>>, Option<Seq<char>>) {
    (
        crate::text::strings_view(r.names@),
        match r.workgroup {
            Some(w) => Some(w@),
            None => None,
        },
        match r.mac {
            Some(m) => Some(m@),
            None => None,
        },
    )
}

fn entry_name_of(buf: &[u8], start: usize) -> (r: Option<Vec<char>>)
    requires
        start + 18 <= buf@.len(),
    ensures
        match r {
            Some(n) => entry_name(buf@.subrange(start as int, start + 18)) == Some(n@),
            None => entry_name(buf@.subrange(start as int, start + 18)) is None,
        },
{
    let ghost e = buf@.subrange(start as int, start + 18);
    assert(buf@.len() == buf.len());
    let mut raw: Vec<char> = Vec::new();
    let mut i: usize = 0;
    while i < 15
        invariant
            i <= 15,
            start + 18 <= buf@.len(),
            buf@.len() <= usize::MAX,
            e == buf@.subrange(start as int, start + 18),
            raw@ == Seq::new(i as nat, |j: int| e[j] as char),
            forall|j: int| 0 <= j < i ==> #[trigger] e[j] < 128,
        decreases 15 - i,
    {
        let b = buf[start + i];
        assert(b == e[i as int]);
        if b >= 128 {
            return None;
        }
        raw.push(b as char);
        i += 1;
        assert(raw@ =~= Seq::new(i as nat, |j: int| e[j] as char));
    }
    assert(raw@ =~= Seq::new(15, |j: int| e[j] as char));
    let t = trimmed(&raw);
    if t.len() == 0 {
        return None;
    }
    let mut k: usize = 0;
    while k < t.len()
        invariant
            k <= t@.len(),
            forall|j: int| 0 <= j < k ==> t@[j] != ' ',
            e == buf@.subrange(start as int, start + 18),
            t@ == trim(Seq::new(15, |j: int| e[j] as char)),
            t@.len() > 0,
            forall|j: int| 0 <= j < 15 ==> #[trigger] e[j] < 128,
        decreases t.len() - k,
    {
        if t[k] == ' ' {
            assert(t@.contains(' '));
            return None;
        }
        k += 1;
    }
    Some(t)
}

fn contains_name(names: &Vec<String>, n: &Vec<char>) -> (b: bool)
    ensures
        b == crate::text::strings_view(names@).contains(n@),
{
    let mut i: usize = 0;
    while i < names.len()
        invariant
            i <= names@.len(),
            forall|j: int| 0 <= j < i ==> crate::text::strings_view(names@)[j] != n@,
        decreases names.len() - i,
    {
        let c = crate::text::chars_of(names[i].as_str());
        if crate::text::chars_eq(&c, n) {
            assert(crate::text::strings_view(names@)[i as int] == n@);
            return true;
        }
        i += 1;
    }
    false
}

/// Reads a node-status answer: `None` when it is cut short or names nothing.
pub fn parse_response(buf: &[u8]) -> (r: Option<NetbiosResult>)
    ensures
        match r {
            Some(res) => netbios_spec(buf@) == Some(result_view(res)),
            None => netbios_spec(buf@) is None,
        },
{
    let start: usize = 94;
    assert(buf@.len() == buf.len());
    if buf.len() <= start {
        return None;
    }
    let count = buf[start] as usize;
    let mut offset: usize = start + 1;
    let mut names: Vec<String> = Vec::new();
    let mut workgroup: Option<String> = None;
    let mut k: usize = 0;
    while k < count
        invariant
            k <= count,
            count == buf@[table_start()] as int,
            buf@.len() > start,
            start == table_start(),
            offset == table_start() + 1 + 18 * k,
            (crate::text::strings_view(names@), match workgroup {
                Some(w) => Some(w@),
                None => None,
            }) == names_of(buf@, k as int),
        decreases count - k,
    {
        if offset + 18 > buf.len() {
            proof {
                assert(buf@.len() < table_start() + 1 + 18 * count);
            }
            return None;
        }
        let ghost e = entry_at(buf@, k as int);
        let suffix = buf[offset + 15];
        let group = buf[offset + 16] >= 128;
        let name = entry_name_of(buf, offset);
        assert(e == buf@.subrange(offset as int, offset + 18));
        assert(suffix == e[15] && buf@[offset + 16] == e[16]);
        match name {
            Some(n) => {
                if group {
                    if workgroup.is_none() && (suffix == 0 || suffix == 0x1e) {
                        workgroup = Some(string_of(&n));
                    }
                } else if (suffix == 0 || suffix == 0x20) && !contains_name(&names, &n) {
                    let ghost before = names@;
                    let s = string_of(&n);
                    names.push(s);
                    assert(crate::text::strings_view(names@) =~= crate::text::strings_view(before).push(n@));
                }
            },
            None => {},
        }
        offset = offset + 18;
        k += 1;
    }
    if offset > buf.len() {
        return None;
    }
    if names.len() == 0 && workgroup.is_none() {
        return None;
    }
    let mac = if offset + 6 <= buf.len() {
        let ghost m = buf@.subrange(offset as int, offset + 6);
        let mut zero = true;
        let mut text = String::new();
        let mut i: usize = 0;
        while i < 6
            invariant
                i <= 6,
                offset + 6 <= buf@.len(),
                buf@.len() <= usize::MAX,
                m == buf@.subrange(offset as int, offset + 6),
                zero == forall|j: int| 0 <= j < i ==> #[trigger] m[j] == 0,
                i == 0 ==> text@.len() == 0,
                i > 0 ==> text@ == mac_prefix(m, i as int),
            decreases 6 - i,
        {
            let b = buf[offset + i];
            assert(b == m[i as int]);
            if i > 0 {
                push_str(&mut text, ":");
            }
            push_hex2(&mut text, b, false);
            if b != 0 {
                zero = false;
            }
            i += 1;
            proof {
                reveal_strlit(":");
                if i == 1 {
                    assert(text@ =~= mac_prefix(m, 1));
                } else {
                    assert(text@ =~= mac_prefix(m, i as int));
                }
            }
        }
        proof {
            reveal_with_fuel(mac_prefix, 6);
        }
        assert(text@ =~= mac_text(m));
        if zero {
            None
        } else if is_meaningless_mac(text.as_str()) {
            None
        } else {
            Some(text)
        }
    } else {
        None
    };
    Some(NetbiosResult { names, workgroup, mac })
}

/// The first `n` bytes of a MAC in text, colon-separated.
pub open spec fn mac_prefix(m: Seq<u8>, n: int) -> Seq<char>
    decreases n,
{
    if n <= 1 {
        hex2_lower(m[0])
    } else {
        mac_prefix(m, n - 1) + seq![':'] + hex2_lower(m[n - 1])
    }
}

/// A transaction tag from a clock reading: its two halves mixed. Not a
/// secret, only a tag.
pub fn transaction_id(nanos: u32) -> (id: u16)
    ensures
        id == (nanos ^ (nanos >> 16u32)) as u16,
{
    (nanos ^ (nanos >> 16u32)) as u16
}

/// A tag for a new query, from the sub-second part of the clock.
pub fn rand_id() -> (id: u16)
    ensures
        exists|nanos: u32| nanos < 2_000_000_000 && id == (nanos ^ (nanos >> 16u32)) as u16,
{
    transaction_id(crate::clock::subsec_nanos())
}

} // verus!
