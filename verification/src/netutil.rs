//! IPv4/CIDR helpers, MAC normalisation and the port profiles.
//!
//! IPv4 addresses are carried as their 32-bit value (`a.b.c.d` is
//! `a·2²⁴ + b·2¹⁶ + c·2⁸ + d`).
use crate::text::{is_ws, is_lower, is_upper, lead_ws, trail_ws, lemma_lead_ws, lemma_trail_ws, 
    chars_of, dec, dec_chars, hex_value, digit_ok, is_digit, is_hex, lower, parse_unsigned, parse_unsigned_range, push_char, push_chars, push_str, radix_value, split_char, split_on, string_of, trim, trim_bounds, views, ws, split_scan, lemma_split_scan, digit_char,
};
use crate::types::PortProfile;
use vstd::arithmetic::power2::{lemma2_to64, pow2};
use vstd::prelude::*;

verus! {

/// Refuse anything wider than a /22. A mistyped prefix would otherwise queue a
/// 65k-host sweep and hammer the network.
pub const MIN_PREFIX: u8 = 22;

/* --------------------------------------------------------------------- IPv4 */

/// One dotted-quad octet as `Ipv4Addr::from_str` accepts it: one to three
/// digits, no leading zero, at most 255.
pub open spec fn octet_ok(p: Seq<char>) -> bool {
    &&& 1 <= p.len() <= 3
    &&& forall|i: int| 0 <= i < p.len() ==> is_digit(#[trigger] p[i])
    &&& (p.len() == 1 || p[0] != '0')
    &&& radix_value(p, 10) <= 255
}

/// `Ipv4Addr::from_str`: exactly four octets separated by dots.
pub open spec fn parse_ipv4(s: Seq<char>) -> Option<u32> {
    let parts = split_char(s, '.');
    if parts.len() == 4 && forall|i: int| 0 <= i < 4 ==> octet_ok(#[trigger] parts[i]) {
        Some(
            (radix_value(parts[0], 10) * 16777216 + radix_value(parts[1], 10) * 65536
                + radix_value(parts[2], 10) * 256 + radix_value(parts[3], 10)) as u32,
        )
    } else {
        None
    }
}

/// The dotted-quad text of an address, as `Ipv4Addr`'s `Display` writes it.
pub open spec fn ipv4_text(v: u32) -> Seq<char> {
    dec((v / 16777216) as nat) + seq!['.'] + dec(((v / 65536) % 256) as nat) + seq!['.'] + dec(
        ((v / 256) % 256) as nat,
    ) + seq!['.'] + dec((v % 256) as nat)
}

/// Splitting is unaffected by what follows the prefix being split.
proof fn lemma_split_prefix(x: Seq<char>, s: Seq<char>, c: char, i: int)
    requires
        x.len() <= s.len(),
        s.take(x.len() as int) == x,
        0 <= i <= x.len(),
    ensures
        split_scan(s, c, i) == split_scan(x, c, i),
    decreases i,
{
    if i > 0 {
        lemma_split_prefix(x, s, c, i - 1);
        lemma_split_scan(x, c, i - 1);
        let p = split_scan(x, c, i - 1);
        assert(s[i - 1] == x[i - 1]);
        assert(s.subrange(p.1, i - 1) =~= x.subrange(p.1, i - 1));
    }
}

/// A run without separators adds no pieces.
proof fn lemma_split_no_sep(s: Seq<char>, c: char, lo: int, i: int)
    requires
        0 <= lo <= i <= s.len(),
        forall|k: int| lo <= k < i ==> s[k] != c,
    ensures
        split_scan(s, c, i) == split_scan(s, c, lo),
    decreases i - lo,
{
    if i > lo {
        lemma_split_no_sep(s, c, lo, i - 1);
    }
}

/// Splitting `x`, a separator and then separator-free `y` adds `y` as the last piece.
proof fn lemma_split_append(x: Seq<char>, c: char, y: Seq<char>)
    requires
        forall|k: int| 0 <= k < y.len() ==> y[k] != c,
    ensures
        split_char(x + seq![c] + y, c) == split_char(x, c).push(y),
{
    let s = x + seq![c] + y;
    assert(s.take(x.len() as int) =~= x);
    lemma_split_prefix(x, s, c, x.len() as int);
    lemma_split_scan(x, c, x.len() as int);
    let r = split_scan(x, c, x.len() as int);
    assert(s.subrange(r.1, x.len() as int) =~= x.subrange(r.1, x.len() as int));
    assert(s[x.len() as int] == c);
    assert forall|k: int| x.len() + 1 <= k < s.len() implies s[k] != c by {
        assert(s[k] == y[k - x.len() - 1]);
    }
    lemma_split_no_sep(s, c, x.len() as int + 1, s.len() as int);
    assert(s.subrange(x.len() as int + 1, s.len() as int) =~= y);
}

/// A separator-free text splits into itself.
proof fn lemma_split_single(x: Seq<char>, c: char)
    requires
        forall|k: int| 0 <= k < x.len() ==> x[k] != c,
    ensures
        split_char(x, c) == seq![x],
{
    lemma_split_no_sep(x, c, 0, x.len() as int);
    assert(x.subrange(0, x.len() as int) =~= x);
}

proof fn lemma_digit_char(k: int)
    requires
        0 <= k < 10,
    ensures
        is_digit(digit_char(k)),
        hex_value(digit_char(k)) == k,
{
    assert(digit_char(k) as u32 == k + 48);
}

/// Decimal text is digits only, never starts with a redundant zero, and reads back as `n`.
pub proof fn lemma_dec(n: nat)
    ensures
        dec(n).len() >= 1,
        forall|k: int| 0 <= k < dec(n).len() ==> is_digit(#[trigger] dec(n)[k]),
        n >= 10 ==> dec(n)[0] != '0',
        radix_value(dec(n), 10) == n,
        n < 10 ==> dec(n).len() == 1,
        n < 100 ==> dec(n).len() <= 2,
        n < 1000 ==> dec(n).len() <= 3,
    decreases n,
{
    lemma_digit_char((n % 10) as int);
    if n < 10 {
        assert(dec(n).drop_last() =~= seq![]);
        assert(radix_value(dec(n).drop_last(), 10) == 0);
        assert(dec(n).last() == digit_char(n as int));
        assert(n % 10 == n);
        assert(radix_value(dec(n), 10) == radix_value(dec(n).drop_last(), 10) * 10 + hex_value(dec(n).last()));
    }
    if n >= 10 {
        lemma_dec(n / 10);
        let d = dec(n);
        assert(d.drop_last() =~= dec(n / 10));
        assert(d.last() == digit_char((n % 10) as int));
        assert(radix_value(d, 10) == radix_value(d.drop_last(), 10) * 10 + hex_value(d.last()));
        assert(radix_value(d, 10) == (n / 10) * 10 + n % 10);
        assert(d[0] == dec(n / 10)[0]);
        if n / 10 < 10 {
            assert(dec(n / 10)[0] == digit_char((n / 10) as int));
        }
    }
}

/// Formatting an address and parsing the text back gives the same address.
pub proof fn lemma_ipv4_text_parses(v: u32)
    ensures
        parse_ipv4(ipv4_text(v)) == Some(v),
{
    let a = (v / 16777216) as nat;
    let b = ((v / 65536) % 256) as nat;
    let c = ((v / 256) % 256) as nat;
    let d = (v % 256) as nat;
    lemma_dec(a);
    lemma_dec(b);
    lemma_dec(c);
    lemma_dec(d);
    assert forall|n: nat, k: int| 0 <= k < dec(n).len() implies #[trigger] dec(n)[k] != '.' by {
        lemma_dec(n);
        assert(is_digit(dec(n)[k]));
    }
    lemma_split_single(dec(a), '.');
    lemma_split_append(dec(a), '.', dec(b));
    lemma_split_append(dec(a) + seq!['.'] + dec(b), '.', dec(c));
    lemma_split_append(dec(a) + seq!['.'] + dec(b) + seq!['.'] + dec(c), '.', dec(d));
    let parts = split_char(ipv4_text(v), '.');
    assert(parts =~= seq![dec(a), dec(b), dec(c), dec(d)]);
    assert(a < 256) by {
        assert(v < 0x1_0000_0000);
    }
    assert forall|i: int| 0 <= i < 4 implies octet_ok(#[trigger] parts[i]) by {
        if i == 0 {
        } else if i == 1 {
        } else if i == 2 {
        } else {
        }
    }
    assert(a * 16777216 + b * 65536 + c * 256 + d == v) by (nonlinear_arith)
        requires
            a == v / 16777216,
            b == (v / 65536) % 256,
            c == (v / 256) % 256,
            d == v % 256,
    ;
}

fn octet_value(p: &Vec<char>) -> (r: Option<u64>)
    ensures
        r matches Some(v) ==> octet_ok(p@) && v == radix_value(p@, 10),
        r is None ==> !octet_ok(p@),
{
    if p.len() == 0 || p.len() > 3 {
        return None;
    }
    if p.len() > 1 && p[0] == '0' {
        return None;
    }
    let mut i: usize = 0;
    while i < p.len()
        invariant
            i <= p.len(),
            forall|k: int| 0 <= k < i ==> is_digit(#[trigger] p@[k]),
        decreases p.len() - i,
    {
        if !('0' <= p[i] && p[i] <= '9') {
            return None;
        }
        i += 1;
    }
    assert(p@.subrange(0, p@.len() as int) =~= p@);
    let v = parse_unsigned_range(p, 0, p.len(), 10, 255);
    proof {
        assert(p@[0] != '+');
        assert(crate::text::unsigned_body(p@) =~= p@);
        assert forall|k: int| 0 <= k < p@.len() implies digit_ok(#[trigger] p@[k], 10) by {
            assert(is_digit(p@[k]));
        }
    }
    v
}

/// `s.parse::<Ipv4Addr>()`, as the address value.
pub fn parse_ipv4_chars(s: &[char]) -> (r: Option<u32>)
    ensures
        r == parse_ipv4(s@),
{
    let parts = split_on(s, '.');
    proof {
        assert(views(parts@) == split_char(s@, '.'));
    }
    if parts.len() != 4 {
        return None;
    }
    let a = octet_value(&parts[0]);
    let b = octet_value(&parts[1]);
    let c = octet_value(&parts[2]);
    let d = octet_value(&parts[3]);
    proof {
        let ps = split_char(s@, '.');
        assert(ps[0] == parts@[0]@);
        assert(ps[1] == parts@[1]@);
        assert(ps[2] == parts@[2]@);
        assert(ps[3] == parts@[3]@);
    }
    match (a, b, c, d) {
        (Some(a), Some(b), Some(c), Some(d)) => {
            proof {
                let ps = split_char(s@, '.');
                assert forall|i: int| 0 <= i < 4 implies octet_ok(#[trigger] ps[i]) by {
                    if i == 0 {
                    } else if i == 1 {
                    } else if i == 2 {
                    } else {
                    }
                }
            }
            Some((a * 16777216 + b * 65536 + c * 256 + d) as u32)
        },
        _ => None,
    }
}

/// `s.parse::<Ipv4Addr>()`, as the address value.
pub fn parse_ipv4_str(s: &str) -> (r: Option<u32>)
    ensures
        r == parse_ipv4(s@),
{
    let c = chars_of(s);
    parse_ipv4_chars(&c)
}

/// Appends the dotted-quad text of an address.
pub fn push_ipv4(s: &mut String, v: u32)
    ensures
        final(s)@ == old(s)@ + ipv4_text(v),
{
    let ghost start = s@;
    let a = dec_chars((v / 16777216) as u64);
    push_chars(s, &a);
    push_char(s, '.');
    let b = dec_chars(((v / 65536) % 256) as u64);
    push_chars(s, &b);
    push_char(s, '.');
    let c = dec_chars(((v / 256) % 256) as u64);
    push_chars(s, &c);
    push_char(s, '.');
    let d = dec_chars((v % 256) as u64);
    push_chars(s, &d);
    assert(s@ =~= start + ipv4_text(v));
}

/// The dotted-quad text of an address.
pub fn ipv4_string(v: u32) -> (s: String)
    ensures
        s@ == ipv4_text(v),
{
    let mut s = String::new();
    push_ipv4(&mut s, v);
    assert(s@ =~= ipv4_text(v));
    s
}

/* --------------------------------------------------------------------- CIDR */

#[derive(Debug, Clone, Copy, PartialEq, Eq, Structural)]
pub struct ParsedCidr {
    /// The network address.
    pub network: u32,
    pub prefix: u8,
    /// The first and last scannable host addresses.
    pub first: u32,
    pub last: u32,
}

/// `2^(32 - prefix)`: the number of addresses a prefix covers.
pub open spec fn block_size(prefix: int) -> int {
    pow2((32 - prefix) as nat) as int
}

impl ParsedCidr {
    pub open spec fn count(self) -> int {
        if self.last >= self.first {
            self.last - self.first + 1
        } else {
            1
        }
    }

    /// Number of scannable hosts (saturating, as in `last - first + 1`).
    pub fn host_count(&self) -> (n: u32)
        ensures
            n == (if self.count() > u32::MAX { u32::MAX as int } else { self.count() }),
    {
        let d = self.last.saturating_sub(self.first);
        d.saturating_add(1)
    }

    pub fn contains(&self, ip: u32) -> (b: bool)
        ensures
            b == (self.first <= ip <= self.last),
    {
        ip >= self.first && ip <= self.last
    }

    pub open spec fn canonical_text(self) -> Seq<char> {
        ipv4_text(self.network) + seq!['/'] + dec(self.prefix as nat)
    }

    /// `network/prefix`.
    pub fn canonical(&self) -> (s: String)
        ensures
            s@ == self.canonical_text(),
    {
        let mut s = ipv4_string(self.network);
        push_char(&mut s, '/');
        let p = dec_chars(self.prefix as u64);
        push_chars(&mut s, &p);
        s
    }

    /// Every scannable host address, in order.
    pub fn hosts(&self) -> (v: Vec<u32>)
        ensures
            self.first <= self.last ==> v@.len() == self.last - self.first + 1 && forall|i: int|
                0 <= i < v@.len() ==> v@[i] == self.first + i,
            self.first > self.last ==> v@.len() == 0,
    {
        let mut v: Vec<u32> = Vec::new();
        if self.first > self.last {
            return v;
        }
        let mut ip = self.first;
        loop
            invariant
                self.first <= ip <= self.last,
                v@.len() == ip - self.first,
                forall|i: int| 0 <= i < v@.len() ==> v@[i] == self.first + i,
            decreases self.last - ip,
        {
            v.push(ip);
            if ip == self.last {
                return v;
            }
            ip += 1;
        }
    }
}

/// Why a range was refused, and the message shown for it.
pub open spec fn cidr_error(trimmed: Seq<char>) -> Option<Seq<char>> {
    match split_once_char(trimmed, '/') {
        None => Some("Invalid CIDR: "@ + trimmed),
        Some((a, p)) => if parse_ipv4(a) is None {
            Some("Invalid IPv4 address in "@ + trimmed)
        } else if parse_unsigned(p, 10, 255) is None {
            Some("Invalid CIDR prefix in "@ + trimmed)
        } else if parse_unsigned(p, 10, 255).unwrap() > 32 {
            Some("Invalid CIDR prefix in "@ + trimmed)
        } else if parse_unsigned(p, 10, 255).unwrap() < 22 {
            Some("Range "@ + trimmed + " is too large to scan (minimum prefix /22)"@)
        } else {
            None
        }
    }
}

/// `str::split_once` with a character pattern.
pub open spec fn split_once_char(s: Seq<char>, c: char) -> Option<(Seq<char>, Seq<char>)> {
    crate::text::split_once(s, seq![c])
}

/// The range a valid CIDR denotes: network, first and last host.
pub open spec fn cidr_range(ip: u32, prefix: int) -> (int, int, int) {
    let b = block_size(prefix);
    let network = (ip as int) - (ip as int) % b;
    let broadcast = network + b - 1;
    if prefix >= 31 {
        (network, network, broadcast)
    } else {
        (network, network + 1, broadcast - 1)
    }
}

/// Whether `parse_cidr` accepts `input`, and what it yields.
pub open spec fn parse_cidr_spec(input: Seq<char>) -> Result<ParsedCidr, Seq<char>> {
    let t = trim(input);
    match cidr_error(t) {
        Some(e) => Err(e),
        None => {
            let (a, p) = split_once_char(t, '/').unwrap();
            let ip = parse_ipv4(a).unwrap();
            let prefix = parse_unsigned(p, 10, 255).unwrap();
            let r = cidr_range(ip, prefix);
            Ok(ParsedCidr { network: r.0 as u32, prefix: prefix as u8, first: r.1 as u32, last: r.2 as u32 })
        },
    }
}

proof fn lemma_pow2_small(k: nat)
    requires
        k <= 10,
    ensures
        pow2(k) == 1 || pow2(k) == 2 || pow2(k) == 4 || pow2(k) == 8 || pow2(k) == 16 || pow2(k)
            == 32 || pow2(k) == 64 || pow2(k) == 128 || pow2(k) == 256 || pow2(k) == 512 || pow2(k)
            == 1024,
        k >= 2 ==> pow2(k) >= 4,
        k <= 1 ==> pow2(k) <= 2,
{
    lemma2_to64();
    if k == 0 {
    } else if k == 1 {
    } else if k == 2 {
    } else if k == 3 {
    } else if k == 4 {
    } else if k == 5 {
    } else if k == 6 {
    } else if k == 7 {
    } else if k == 8 {
    } else if k == 9 {
    } else {
    }
}

fn block_of(prefix: u8) -> (b: u64)
    requires
        22 <= prefix <= 32,
    ensures
        b == block_size(prefix as int),
        b == 1 || b == 2 || b == 4 || b == 8 || b == 16 || b == 32 || b == 64 || b == 128 || b
            == 256 || b == 512 || b == 1024,
        prefix < 31 ==> b >= 4,
        prefix >= 31 ==> b <= 2,
{
    let mut b: u64 = 1;
    let mut p: u8 = 32;
    proof {
        lemma2_to64();
    }
    while p > prefix
        invariant
            prefix <= p <= 32,
            22 <= prefix,
            b == pow2((32 - p) as nat),
        decreases p,
    {
        proof {
            lemma_pow2_small((32 - p) as nat);
            vstd::arithmetic::power2::lemma_pow2_unfold((32 - (p - 1)) as nat);
        }
        b = b * 2;
        p -= 1;
    }
    proof {
        lemma_pow2_small((32 - prefix) as nat);
    }
    b
}

/// Parses and validates a range such as `10.0.3.221/24`.
pub fn parse_cidr(input: &str) -> (r: Result<ParsedCidr, String>)
    ensures
        r matches Ok(c) ==> parse_cidr_spec(input@) == Ok::<ParsedCidr, Seq<char>>(c),
        r matches Err(e) ==> parse_cidr_spec(input@) == Err::<ParsedCidr, Seq<char>>(e@),
{
    let all = chars_of(input);
    let (lo, hi) = trim_bounds(&all, 0, all.len());
    assert(all@.subrange(0, all@.len() as int) =~= all@);
    let t = crate::text::slice_chars(&all, lo, hi);
    let ghost ts = t@;
    assert(ts == trim(input@));
    let slash = vec!['/'];
    assert(slash@ =~= seq!['/']);
    match crate::text::split_once_chars(&t, &slash) {
        None => {
            let mut e = String::new();
            push_str(&mut e, "Invalid CIDR: ");
            push_chars(&mut e, &t);
            Err(e)
        },
        Some((a, p)) => {
            let ip = parse_ipv4_chars(&a);
            if ip.is_none() {
                let mut e = String::new();
                push_str(&mut e, "Invalid IPv4 address in ");
                push_chars(&mut e, &t);
                return Err(e);
            }
            let ip = ip.unwrap();
            assert(p@.subrange(0, p@.len() as int) =~= p@);
            let prefix = parse_unsigned_range(&p, 0, p.len(), 10, 255);
            if prefix.is_none() {
                let mut e = String::new();
                push_str(&mut e, "Invalid CIDR prefix in ");
                push_chars(&mut e, &t);
                return Err(e);
            }
            let prefix = prefix.unwrap() as u8;
            if prefix > 32 {
                let mut e = String::new();
                push_str(&mut e, "Invalid CIDR prefix in ");
                push_chars(&mut e, &t);
                return Err(e);
            }
            if prefix < MIN_PREFIX {
                let mut e = String::new();
                push_str(&mut e, "Range ");
                push_chars(&mut e, &t);
                push_str(&mut e, " is too large to scan (minimum prefix /22)");
                return Err(e);
            }
            let b = block_of(prefix);
            assert((ip as u64) % b <= (ip as u64)) by (nonlinear_arith)
                requires
                    b >= 1,
            ;
            let network = (ip as u64) - (ip as u64) % b;
            let broadcast = network + b - 1;
            assert(broadcast <= u32::MAX) by (nonlinear_arith)
                requires
                    network == (ip as u64) - (ip as u64) % b,
                    broadcast == network + b - 1,
                    b >= 1,
                    ip <= u32::MAX,
                    b <= 1024,
                    b == 1 || b == 2 || b == 4 || b == 8 || b == 16 || b == 32 || b == 64 || b
                        == 128 || b == 256 || b == 512 || b == 1024,
            ;
            let (first, last) = if prefix >= 31 {
                (network, broadcast)
            } else {
                (network + 1, broadcast - 1)
            };
            Ok(
                ParsedCidr {
                    network: network as u32,
                    prefix,
                    first: first as u32,
                    last: last as u32,
                },
            )
        },
    }
}


/// Why `parse_cidr_any` refuses a range: as `parse_cidr`, without the
/// minimum prefix (a controller may define a /16 the scanner would refuse).
pub open spec fn cidr_any_error(trimmed: Seq<char>) -> Option<Seq<char>> {
    match split_once_char(trimmed, '/') {
        None => Some("Invalid CIDR: "@ + trimmed),
        Some((a, p)) => if parse_ipv4(a) is None {
            Some("Invalid IPv4 address in "@ + trimmed)
        } else if parse_unsigned(p, 10, 255) is None || parse_unsigned(p, 10, 255).unwrap() > 32 {
            Some("Invalid CIDR prefix in "@ + trimmed)
        } else {
            None
        }
    }
}

/// What `parse_cidr_any` yields.
pub open spec fn parse_cidr_any_spec(input: Seq<char>) -> Result<ParsedCidr, Seq<char>> {
    let t = trim(input);
    match cidr_any_error(t) {
        Some(e) => Err(e),
        None => {
            let (a, p) = split_once_char(t, '/').unwrap();
            let ip = parse_ipv4(a).unwrap();
            let prefix = parse_unsigned(p, 10, 255).unwrap();
            let r = cidr_range(ip, prefix);
            Ok(ParsedCidr { network: r.0 as u32, prefix: prefix as u8, first: r.1 as u32, last: r.2 as u32 })
        },
    }
}

fn block_any(prefix: u8) -> (b: u64)
    requires
        prefix <= 32,
    ensures
        b == block_size(prefix as int),
        1 <= b <= 0x1_0000_0000,
        b * pow2(prefix as nat) == 0x1_0000_0000,
{
    let mut b: u64 = 1;
    let mut p: u8 = 32;
    proof {
        lemma2_to64();
    }
    while p > prefix
        invariant
            prefix <= p <= 32,
            b == pow2((32 - p) as nat),
            1 <= b <= 0x1_0000_0000,
            b * pow2(p as nat) == 0x1_0000_0000,
        decreases p,
    {
        proof {
            vstd::arithmetic::power2::lemma_pow2_unfold((32 - (p - 1)) as nat);
            vstd::arithmetic::power2::lemma_pow2_unfold(p as nat);
            vstd::arithmetic::power2::lemma_pow2_pos((p - 1) as nat);
            assert(b * 2 <= 0x1_0000_0000) by (nonlinear_arith)
                requires
                    b * pow2(p as nat) == 0x1_0000_0000,
                    pow2(p as nat) == 2 * pow2((p - 1) as nat),
                    pow2((p - 1) as nat) >= 1,
            ;
            assert((b * 2) * pow2((p - 1) as nat) == 0x1_0000_0000) by (nonlinear_arith)
                requires
                    b * pow2(p as nat) == 0x1_0000_0000,
                    pow2(p as nat) == 2 * pow2((p - 1) as nat),
            ;
        }
        b = b * 2;
        p -= 1;
    }
    b
}

/// Parses a range such as `10.20.30.1/16` with any prefix from 0 to 32.
pub fn parse_cidr_any(input: &str) -> (r: Result<ParsedCidr, String>)
    ensures
        r matches Ok(c) ==> parse_cidr_any_spec(input@) == Ok::<ParsedCidr, Seq<char>>(c),
        r matches Err(e) ==> parse_cidr_any_spec(input@) == Err::<ParsedCidr, Seq<char>>(e@),
{
    let all = chars_of(input);
    let (lo, hi) = trim_bounds(&all, 0, all.len());
    assert(all@.subrange(0, all@.len() as int) =~= all@);
    let t = crate::text::slice_chars(&all, lo, hi);
    let ghost ts = t@;
    assert(ts == trim(input@));
    let slash = vec!['/'];
    assert(slash@ =~= seq!['/']);
    match crate::text::split_once_chars(&t, &slash) {
        None => {
            let mut e = String::new();
            push_str(&mut e, "Invalid CIDR: ");
            push_chars(&mut e, &t);
            Err(e)
        },
        Some((a, p)) => {
            let ip = parse_ipv4_chars(&a);
            if ip.is_none() {
                let mut e = String::new();
                push_str(&mut e, "Invalid IPv4 address in ");
                push_chars(&mut e, &t);
                return Err(e);
            }
            let ip = ip.unwrap();
            assert(p@.subrange(0, p@.len() as int) =~= p@);
            let prefix = parse_unsigned_range(&p, 0, p.len(), 10, 255);
            if prefix.is_none() || prefix.unwrap() > 32 {
                let mut e = String::new();
                push_str(&mut e, "Invalid CIDR prefix in ");
                push_chars(&mut e, &t);
                return Err(e);
            }
            let prefix = prefix.unwrap() as u8;
            let b = block_any(prefix);
            let ghost q = pow2(prefix as nat);
            assert((ip as u64) % b <= (ip as u64)) by (nonlinear_arith)
                requires
                    b >= 1,
            ;
            let network = (ip as u64) - (ip as u64) % b;
            assert(network + b <= 0x1_0000_0000) by (nonlinear_arith)
                requires
                    network == (ip as u64) - (ip as u64) % b,
                    b >= 1,
                    ip < 0x1_0000_0000,
                    b * q == 0x1_0000_0000,
            {
                let k = (ip as int) / (b as int);
                assert(network == k * b);
                assert(k * b <= ip);
                assert(k < q);
                assert((k + 1) * b <= q * b);
            }
            let broadcast = network + b - 1;
            proof {
                if prefix < 31 {
                    vstd::arithmetic::power2::lemma_pow2_unfold((32 - prefix) as nat);
                    vstd::arithmetic::power2::lemma_pow2_unfold((31 - prefix) as nat);
                    vstd::arithmetic::power2::lemma_pow2_pos((30 - prefix) as nat);
                    assert(b >= 4);
                }
            }
            let (first, last) = if prefix >= 31 {
                (network, broadcast)
            } else {
                (network + 1, broadcast - 1)
            };
            Ok(
                ParsedCidr {
                    network: network as u32,
                    prefix,
                    first: first as u32,
                    last: last as u32,
                },
            )
        },
    }
}

/// The enclosing /24, as `a.b.c.0/24`: turns an off-subnet mDNS/SSDP hint into
/// a scannable range.
pub fn to_slash24(ip: u32) -> (s: String)
    ensures
        s@ == ipv4_text((ip - ip % 256) as u32) + "/24"@,
{
    let mut s = ipv4_string(ip - ip % 256);
    push_str(&mut s, "/24");
    s
}

/// RFC1918, link-local and CGNAT space.
pub open spec fn is_private_spec(ip: u32) -> bool {
    let a = ip / 16777216;
    let b = (ip / 65536) % 256;
    ||| a == 10
    ||| (a == 172 && 16 <= b <= 31)
    ||| (a == 192 && b == 168)
    ||| (a == 169 && b == 254)
    ||| (a == 100 && 64 <= b <= 127)
}

/// RFC1918 + CGNAT + link-local. Only private space is ever scanned
/// automatically.
pub fn is_private_ipv4(ip: u32) -> (b: bool)
    ensures
        b == is_private_spec(ip),
{
    let a = ip / 16777216;
    let b = (ip / 65536) % 256;
    a == 10 || (a == 172 && 16 <= b && b <= 31) || (a == 192 && b == 168) || (a == 169 && b
        == 254) || (a == 100 && 64 <= b && b <= 127)
}

/* ---------------------------------------------------------------------- MAC */

pub open spec fn mac_char(c: char) -> char {
    if c == '-' {
        ':'
    } else {
        lower(c)
    }
}

/// Trimmed, lowercased, with dashes turned into colons.
pub open spec fn normalize_mac_spec(mac: Seq<char>) -> Seq<char> {
    Seq::new(trim(mac).len(), |i: int| mac_char(trim(mac)[i]))
}

pub fn normalize_mac_chars(mac: &[char]) -> (out: Vec<char>)
    ensures
        out@ == normalize_mac_spec(mac@),
{
    let t = crate::text::trimmed(mac);
    let mut out: Vec<char> = Vec::new();
    let mut i: usize = 0;
    while i < t.len()
        invariant
            i <= t.len(),
            out@ =~= Seq::new(i as nat, |k: int| mac_char(t@[k])),
        decreases t.len() - i,
    {
        let c = t[i];
        let m = if c == '-' {
            ':'
        } else {
            crate::text::to_lower(c)
        };
        out.push(m);
        i += 1;
    }
    out
}

/// Trims, lowercases and turns dashes into colons.
pub fn normalize_mac(mac: &str) -> (s: String)
    ensures
        s@ == normalize_mac_spec(mac@),
{
    let c = chars_of(mac);
    let n = normalize_mac_chars(&c);
    string_of(&n)
}

/// The first octet of a MAC address, when it parses as hex.
pub open spec fn first_octet_spec(mac: Seq<char>) -> Option<int> {
    parse_unsigned(split_char(normalize_mac_spec(mac), ':')[0], 16, 255)
}

fn first_octet(mac: &str) -> (r: Option<u64>)
    ensures
        r matches Some(v) ==> first_octet_spec(mac@) == Some(v as int),
        r is None ==> first_octet_spec(mac@) is None,
{
    let c = chars_of(mac);
    let n = normalize_mac_chars(&c);
    let parts = split_on(&n, ':');
    let first = &parts[0];
    assert(first@ == split_char(n@, ':')[0]);
    assert(first@.subrange(0, first@.len() as int) =~= first@);
    parse_unsigned_range(first, 0, first.len(), 16, 255)
}

/// The 0x02 bit of the first octet marks a locally-administered address. Modern
/// phones randomize their MAC per network, so an OUI lookup on one of these
/// would confidently report the wrong vendor.
pub fn is_locally_administered(mac: &str) -> (b: bool)
    ensures
        b == (first_octet_spec(mac@) matches Some(v) && (v / 2) % 2 == 1),
{
    match first_octet(mac) {
        Some(v) => (v / 2) % 2 == 1,
        None => false,
    }
}

/// The 0x01 bit of the first octet marks a group (multicast) address.
pub fn is_multicast_mac(mac: &str) -> (b: bool)
    ensures
        b == (first_octet_spec(mac@) matches Some(v) && v % 2 == 1),
{
    match first_octet(mac) {
        Some(v) => v % 2 == 1,
        None => false,
    }
}

/// The hexadecimal digits of `s`, in order.
pub open spec fn hex_digits(s: Seq<char>) -> Seq<char>
    decreases s.len(),
{
    if s.len() == 0 {
        seq![]
    } else if is_hex(s.last()) {
        hex_digits(s.drop_last()).push(s.last())
    } else {
        hex_digits(s.drop_last())
    }
}

/// The hexadecimal digits of `s`, in order.
pub fn hex_digits_of(s: &[char]) -> (h: Vec<char>)
    ensures
        h@ == hex_digits(s@),
{
    let mut h: Vec<char> = Vec::new();
    let mut i: usize = 0;
    while i < s.len()
        invariant
            i <= s.len(),
            h@ == hex_digits(s@.take(i as int)),
        decreases s.len() - i,
    {
        proof {
            assert(s@.take(i + 1).drop_last() =~= s@.take(i as int));
        }
        if crate::text::hex(s[i]) {
            h.push(s[i]);
        }
        i += 1;
    }
    assert(s@.take(s.len() as int) =~= s@);
    h
}

/// All-zero, broadcast, or not twelve hex digits at all.
pub open spec fn meaningless_spec(mac: Seq<char>) -> bool {
    let h = hex_digits(mac);
    ||| h.len() != 12
    ||| (forall|i: int| 0 <= i < h.len() ==> #[trigger] h[i] == '0')
    ||| (forall|i: int| 0 <= i < h.len() ==> lower(#[trigger] h[i]) == 'f')
}

/// True for the all-zero and broadcast MACs, which carry no identity.
pub fn is_meaningless_mac(mac: &str) -> (b: bool)
    ensures
        b == meaningless_spec(mac@),
{
    let c = chars_of(mac);
    let mut h: Vec<char> = Vec::new();
    let mut i: usize = 0;
    while i < c.len()
        invariant
            i <= c.len(),
            h@ == hex_digits(c@.take(i as int)),
        decreases c.len() - i,
    {
        proof {
            assert(c@.take(i + 1).drop_last() =~= c@.take(i as int));
        }
        if crate::text::hex(c[i]) {
            h.push(c[i]);
        }
        i += 1;
    }
    assert(c@.take(c.len() as int) =~= c@);
    if h.len() != 12 {
        return true;
    }
    let mut zeros = true;
    let mut effs = true;
    let mut k: usize = 0;
    while k < h.len()
        invariant
            k <= h.len(),
            zeros == (forall|j: int| 0 <= j < k ==> #[trigger] h@[j] == '0'),
            effs == (forall|j: int| 0 <= j < k ==> lower(#[trigger] h@[j]) == 'f'),
        decreases h.len() - k,
    {
        if h[k] != '0' {
            zeros = false;
        }
        if crate::text::to_lower(h[k]) != 'f' {
            effs = false;
        }
        k += 1;
    }
    zeros || effs
}

/* ---------------------------------------------------------------- port tables */

/// Well-known services plus the IoT/media ports a home network actually runs.
pub open spec fn service_of(port: u16) -> Option<&'static str> {
    match port {
        21 => Some("ftp"),
        22 => Some("ssh"),
        23 => Some("telnet"),
        25 => Some("smtp"),
        53 => Some("dns"),
        80 => Some("http"),
        81 => Some("http-alt"),
        110 => Some("pop3"),
        111 => Some("rpcbind"),
        135 => Some("msrpc"),
        139 => Some("netbios-ssn"),
        143 => Some("imap"),
        161 => Some("snmp"),
        443 => Some("https"),
        445 => Some("smb"),
        515 => Some("printer"),
        548 => Some("afp"),
        554 => Some("rtsp"),
        587 => Some("smtp-sub"),
        631 => Some("ipp"),
        873 => Some("rsync"),
        993 => Some("imaps"),
        995 => Some("pop3s"),
        1400 => Some("sonos"),
        1433 => Some("mssql"),
        1883 => Some("mqtt"),
        1900 => Some("ssdp"),
        2049 => Some("nfs"),
        2375 => Some("docker"),
        2376 => Some("docker-tls"),
        3000 => Some("http-dev"),
        3306 => Some("mysql"),
        3389 => Some("rdp"),
        5000 => Some("upnp/airplay"),
        5001 => Some("http-alt"),
        5432 => Some("postgres"),
        5555 => Some("adb"),
        5900 => Some("vnc"),
        6053 => Some("esphome"),
        6379 => Some("redis"),
        7000 => Some("airplay"),
        8000 => Some("http-alt"),
        8008 => Some("chromecast"),
        8009 => Some("chromecast-tls"),
        8060 => Some("roku"),
        8080 => Some("http-proxy"),
        8081 => Some("http-alt"),
        8096 => Some("jellyfin"),
        8123 => Some("home-assistant"),
        8443 => Some("https-alt"),
        8883 => Some("mqtt-tls"),
        8888 => Some("http-alt"),
        9000 => Some("http-alt"),
        9090 => Some("http-alt"),
        9100 => Some("printer-raw"),
        9200 => Some("elasticsearch"),
        10000 => Some("webmin"),
        11434 => Some("ollama"),
        27017 => Some("mongodb"),
        32400 => Some("plex"),
        _ => None,
    }
}

/// The service conventionally found on `port`.
pub fn service_name(port: u16) -> (r: Option<&'static str>)
    ensures
        r == service_of(port),
{
    match port {
        21 => Some("ftp"),
        22 => Some("ssh"),
        23 => Some("telnet"),
        25 => Some("smtp"),
        53 => Some("dns"),
        80 => Some("http"),
        81 => Some("http-alt"),
        110 => Some("pop3"),
        111 => Some("rpcbind"),
        135 => Some("msrpc"),
        139 => Some("netbios-ssn"),
        143 => Some("imap"),
        161 => Some("snmp"),
        443 => Some("https"),
        445 => Some("smb"),
        515 => Some("printer"),
        548 => Some("afp"),
        554 => Some("rtsp"),
        587 => Some("smtp-sub"),
        631 => Some("ipp"),
        873 => Some("rsync"),
        993 => Some("imaps"),
        995 => Some("pop3s"),
        1400 => Some("sonos"),
        1433 => Some("mssql"),
        1883 => Some("mqtt"),
        1900 => Some("ssdp"),
        2049 => Some("nfs"),
        2375 => Some("docker"),
        2376 => Some("docker-tls"),
        3000 => Some("http-dev"),
        3306 => Some("mysql"),
        3389 => Some("rdp"),
        5000 => Some("upnp/airplay"),
        5001 => Some("http-alt"),
        5432 => Some("postgres"),
        5555 => Some("adb"),
        5900 => Some("vnc"),
        6053 => Some("esphome"),
        6379 => Some("redis"),
        7000 => Some("airplay"),
        8000 => Some("http-alt"),
        8008 => Some("chromecast"),
        8009 => Some("chromecast-tls"),
        8060 => Some("roku"),
        8080 => Some("http-proxy"),
        8081 => Some("http-alt"),
        8096 => Some("jellyfin"),
        8123 => Some("home-assistant"),
        8443 => Some("https-alt"),
        8883 => Some("mqtt-tls"),
        8888 => Some("http-alt"),
        9000 => Some("http-alt"),
        9090 => Some("http-alt"),
        9100 => Some("printer-raw"),
        9200 => Some("elasticsearch"),
        10000 => Some("webmin"),
        11434 => Some("ollama"),
        27017 => Some("mongodb"),
        32400 => Some("plex"),
        _ => None,
    }
}

pub open spec fn quick_ports() -> Seq<u16> {
    seq![21, 22, 23, 53, 80, 139, 443, 445, 554, 631, 3389, 5000, 8080, 8443, 9100]
}

pub open spec fn standard_ports() -> Seq<u16> {
    seq![
        21, 22, 23, 25, 53, 80, 81, 110, 139, 143, 443, 445, 515, 548, 554, 587, 631, 993, 1400,
        1883, 1900, 2049, 3000, 3306, 3389, 5000, 5432, 5900, 6053, 7000, 8008, 8009, 8060, 8080,
        8096, 8123, 8443, 8883, 9100, 32400,
    ]
}

pub open spec fn deep_ports() -> Seq<u16> {
    seq![
        21, 22, 23, 25, 53, 79, 80, 81, 88, 106, 110, 111, 113, 119, 135, 139, 143, 161, 179, 199,
        389, 427, 443, 444, 445, 465, 513, 514, 515, 543, 544, 548, 554, 587, 631, 646, 873, 902,
        990, 993, 995, 1024, 1025, 1026, 1080, 1110, 1194, 1234, 1400, 1433, 1521, 1723, 1755, 1883,
        1900, 2000, 2049, 2121, 2181, 2222, 2375, 2376, 3000, 3001, 3128, 3260, 3268, 3306, 3389,
        3478, 3689, 4000, 4200, 4444, 4567, 5000, 5001, 5060, 5061, 5100, 5222, 5269, 5353, 5357,
        5432, 5555, 5601, 5666, 5672, 5678, 5800, 5900, 5901, 6000, 6001, 6053, 6379, 6666, 6667,
        7000, 7001, 7070, 7100, 7777, 8000, 8001, 8002, 8008, 8009, 8010, 8060, 8080, 8081, 8085,
        8088, 8090, 8096, 8123, 8181, 8200, 8291, 8443, 8500, 8600, 8765, 8880, 8883, 8888, 9000,
        9001, 9080, 9090, 9091, 9100, 9200, 9443, 9999, 10000, 10001, 11434, 20000, 25565, 27017,
        32400, 32469, 44158, 47808, 49152, 49153, 49154, 51413, 62078,
    ]
}

pub open spec fn profile_ports(profile: PortProfile) -> Seq<u16> {
    match profile {
        PortProfile::Quick => quick_ports(),
        PortProfile::Standard => standard_ports(),
        PortProfile::Deep => deep_ports(),
    }
}

/// The ports a scan with `profile` probes.
pub fn ports_for_profile(profile: PortProfile) -> (v: Vec<u16>)
    ensures
        v@ == profile_ports(profile),
{
    let v: Vec<u16> = match profile {
        PortProfile::Quick => vec![21, 22, 23, 53, 80, 139, 443, 445, 554, 631, 3389, 5000, 8080, 8443, 9100],
        PortProfile::Standard => vec![
            21, 22, 23, 25, 53, 80, 81, 110, 139, 143, 443, 445, 515, 548, 554, 587, 631, 993, 1400,
            1883, 1900, 2049, 3000, 3306, 3389, 5000, 5432, 5900, 6053, 7000, 8008, 8009, 8060, 8080,
            8096, 8123, 8443, 8883, 9100, 32400,
        ],
        PortProfile::Deep => vec![
            21, 22, 23, 25, 53, 79, 80, 81, 88, 106, 110, 111, 113, 119, 135, 139, 143, 161, 179, 199,
            389, 427, 443, 444, 445, 465, 513, 514, 515, 543, 544, 548, 554, 587, 631, 646, 873, 902,
            990, 993, 995, 1024, 1025, 1026, 1080, 1110, 1194, 1234, 1400, 1433, 1521, 1723, 1755, 1883,
            1900, 2000, 2049, 2121, 2181, 2222, 2375, 2376, 3000, 3001, 3128, 3260, 3268, 3306, 3389,
            3478, 3689, 4000, 4200, 4444, 4567, 5000, 5001, 5060, 5061, 5100, 5222, 5269, 5353, 5357,
            5432, 5555, 5601, 5666, 5672, 5678, 5800, 5900, 5901, 6000, 6001, 6053, 6379, 6666, 6667,
            7000, 7001, 7070, 7100, 7777, 8000, 8001, 8002, 8008, 8009, 8010, 8060, 8080, 8081, 8085,
            8088, 8090, 8096, 8123, 8181, 8200, 8291, 8443, 8500, 8600, 8765, 8880, 8883, 8888, 9000,
            9001, 9080, 9090, 9091, 9100, 9200, 9443, 9999, 10000, 10001, 11434, 20000, 25565, 27017,
            32400, 32469, 44158, 47808, 49152, 49153, 49154, 51413, 62078,
        ],
    };
    assert(v@ =~= profile_ports(profile));
    v
}

/* -------------------------------------------------------------------- laws */

proof fn lemma_trim_ends(s: Seq<char>)
    ensures
        trim(s).len() > 0 ==> !is_ws(trim(s)[0]) && !is_ws(trim(s)[trim(s).len() - 1]),
{
    let t = s.subrange(lead_ws(s, 0), s.len() as int);
    lemma_lead_ws(s, 0);
    lemma_trail_ws(t, t.len() as int);
}

proof fn lemma_trim_noop(s: Seq<char>)
    requires
        s.len() > 0 ==> !is_ws(s[0]) && !is_ws(s[s.len() - 1]),
    ensures
        trim(s) == s,
{
    assert(lead_ws(s, 0) == 0);
    assert(s.subrange(0, s.len() as int) =~= s);
    assert(trail_ws(s, s.len() as int) == s.len());
    assert(s.subrange(0, s.len() as int) =~= s);
}

/// A normalised MAC is trimmed, lower-case and colon-separated, so
/// normalising it again changes nothing.
pub proof fn law_normalize_mac_idempotent(mac: Seq<char>)
    ensures
        normalize_mac_spec(normalize_mac_spec(mac)) == normalize_mac_spec(mac),
        forall|i: int|
            0 <= i < normalize_mac_spec(mac).len() ==> #[trigger] normalize_mac_spec(mac)[i] != '-' && !is_upper(
                normalize_mac_spec(mac)[i],
            ),
        normalize_mac_spec(mac).len() > 0 ==> !is_ws(normalize_mac_spec(mac)[0]) && !is_ws(
            normalize_mac_spec(mac)[normalize_mac_spec(mac).len() - 1],
        ),
{
    let t = trim(mac);
    let n = normalize_mac_spec(mac);
    lemma_trim_ends(mac);
    assert forall|i: int| 0 <= i < n.len() implies #[trigger] n[i] != '-' && !is_upper(n[i]) && (!is_ws(t[i]) ==> !is_ws(
        n[i],
    )) && mac_char(n[i]) == n[i] by {
        let c = t[i];
        if is_upper(c) {
            assert(is_lower(lower(c)));
        }
    }
    lemma_trim_noop(n);
    assert(normalize_mac_spec(n) =~= n);
}

/// From index `i` on, each port is below the next.
spec fn ascending_from(l: Seq<u16>, i: nat) -> bool
    decreases l.len() - i,
{
    if i + 1 >= l.len() {
        true
    } else {
        l[i as int] < l[i + 1 as int] && ascending_from(l, (i + 1) as nat)
    }
}

proof fn lemma_ascending(l: Seq<u16>, i: nat, j: int)
    requires
        ascending_from(l, i),
        i <= j < l.len() - 1,
    ensures
        l[j] < l[j + 1],
    decreases j - i,
{
    if j > i {
        lemma_ascending(l, (i + 1) as nat, j);
    }
}

/// Every port profile lists each port once, in ascending order.
#[verifier::rlimit(100)]
#[verifier::spinoff_prover]
pub proof fn law_profiles_ascend()
    ensures
        forall|p: PortProfile, i: int, j: int| 0 <= i < j < profile_ports(p).len() ==> profile_ports(p)[i] < profile_ports(p)[j],
{
    assert(ascending_from(quick_ports(), 0)) by {
        reveal_with_fuel(ascending_from, 20);
    }
    assert(ascending_from(standard_ports(), 0)) by {
        reveal_with_fuel(ascending_from, 45);
    }
    let d = deep_ports();
    assert(ascending_from(d, 120)) by {
        reveal_with_fuel(ascending_from, 45);
    }
    assert(ascending_from(d, 80)) by {
        reveal_with_fuel(ascending_from, 45);
    }
    assert(ascending_from(d, 40)) by {
        reveal_with_fuel(ascending_from, 45);
    }
    assert(ascending_from(d, 0)) by {
        reveal_with_fuel(ascending_from, 45);
    }
    assert forall|p: PortProfile, i: int, j: int| 0 <= i < j < profile_ports(p).len() implies profile_ports(p)[i]
        < profile_ports(p)[j] by {
        let l = profile_ports(p);
        assert(ascending_from(l, 0));
        lemma_ascending_pair(l, i, j);
    }
}

proof fn lemma_ascending_pair(l: Seq<u16>, i: int, j: int)
    requires
        ascending_from(l, 0),
        0 <= i < j < l.len(),
    ensures
        l[i] < l[j],
    decreases j - i,
{
    lemma_ascending(l, 0, j - 1);
    if j - 1 > i {
        lemma_ascending_pair(l, i, j - 1);
    }
}

/// Every entry of `a` from `i` on occurs in `b` from `j` on, both ascending.
spec fn included(a: Seq<u16>, b: Seq<u16>, i: nat, j: nat) -> bool
    decreases a.len() - i + b.len() - j,
{
    if i >= a.len() {
        true
    } else if j >= b.len() {
        false
    } else if a[i as int] == b[j as int] {
        included(a, b, (i + 1) as nat, (j + 1) as nat)
    } else if a[i as int] > b[j as int] {
        included(a, b, i, (j + 1) as nat)
    } else {
        false
    }
}

proof fn lemma_included(a: Seq<u16>, b: Seq<u16>, i: nat, j: nat, k: int)
    requires
        included(a, b, i, j),
        i <= k < a.len(),
    ensures
        b.contains(a[k]),
    decreases a.len() - i + b.len() - j,
{
    if a[i as int] == b[j as int] {
        if k == i {
            assert(b[j as int] == a[k]);
        } else {
            lemma_included(a, b, (i + 1) as nat, (j + 1) as nat, k);
        }
    } else {
        lemma_included(a, b, i, (j + 1) as nat, k);
    }
}

/// The port profiles nest: every quick port is a standard port, and every
/// standard port a deep one.
#[verifier::rlimit(100)]
#[verifier::spinoff_prover]
pub proof fn law_profiles_nest()
    ensures
        forall|i: int| 0 <= i < quick_ports().len() ==> standard_ports().contains(#[trigger] quick_ports()[i]),
        forall|i: int| 0 <= i < standard_ports().len() ==> deep_ports().contains(#[trigger] standard_ports()[i]),
{
    let q = quick_ports();
    let st = standard_ports();
    let d = deep_ports();
    assert(included(q, st, 10, 24)) by {
        reveal_with_fuel(included, 25);
    }
    assert(included(q, st, 5, 8)) by {
        reveal_with_fuel(included, 25);
    }
    assert(included(q, st, 0, 0)) by {
        reveal_with_fuel(included, 15);
    }
    assert(included(st, d, 35, 117)) by {
        reveal_with_fuel(included, 45);
    }
    assert(included(st, d, 30, 107)) by {
        reveal_with_fuel(included, 20);
    }
    assert(included(st, d, 25, 75)) by {
        reveal_with_fuel(included, 40);
    }
    assert(included(st, d, 20, 54)) by {
        reveal_with_fuel(included, 30);
    }
    assert(included(st, d, 15, 33)) by {
        reveal_with_fuel(included, 30);
    }
    assert(included(st, d, 10, 22)) by {
        reveal_with_fuel(included, 20);
    }
    assert(included(st, d, 5, 6)) by {
        reveal_with_fuel(included, 25);
    }
    assert(included(st, d, 0, 0)) by {
        reveal_with_fuel(included, 15);
    }
    assert forall|i: int| 0 <= i < q.len() implies st.contains(#[trigger] q[i]) by {
        lemma_included(q, st, 0, 0, i);
    }
    assert forall|i: int| 0 <= i < st.len() implies d.contains(#[trigger] st[i]) by {
        lemma_included(st, d, 0, 0, i);
    }
}

/// The private blocks, as address ranges: 10.0.0.0/8, 172.16.0.0/12,
/// 192.168.0.0/16, 169.254.0.0/16 and 100.64.0.0/10, and nothing else; in
/// particular 172.x is private only for x from 16 to 31.
pub proof fn law_private_blocks(ip: u32)
    ensures
        is_private_spec(ip) <==> (0x0A00_0000 <= ip <= 0x0AFF_FFFF || 0xAC10_0000 <= ip <= 0xAC1F_FFFF || 0xC0A8_0000
            <= ip <= 0xC0A8_FFFF || 0xA9FE_0000 <= ip <= 0xA9FE_FFFF || 0x6440_0000 <= ip <= 0x647F_FFFF),
        ip / 16777216 == 172 ==> (is_private_spec(ip) <==> 16 <= (ip / 65536) % 256 <= 31),
{
}

} // verus!
