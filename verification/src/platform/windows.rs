//! Windows: `arp`, `route`, `netsh`, `ipconfig` and PowerShell output.
//!
//! These commands are localised, so parsing keys on structure (IP-shaped and
//! MAC-shaped tokens) rather than on English words wherever possible.
use crate::netutil::{
    first_octet_spec, hex_digits, hex_digits_of, ipv4_string, ipv4_text, is_meaningless_mac,
    is_multicast_mac, meaningless_spec, normalize_mac_chars, normalize_mac_spec, parse_ipv4,
    parse_ipv4_chars,
};
use crate::platform::linux::u32_or_zero;
use crate::platform::macos::{flush, net_view, nets_view, opt_net_view, NetView};
use crate::platform::{neighbors_view, Neighbor, ToolRef};
use crate::scan::wifi::{band_for_channel, band_of_channel, opt_text_view};
use crate::text::{
    alnum, begins, chars_of, contains, copy_chars, copy_text, dec, dec_text, digit, has,
    is_alnum, is_digit, is_text, lines, lines_of, lower_seq, lowercase, owned,
    parse_unsigned, parse_unsigned_chars, push_str, slice_chars, split_once, split_once_chars,
    starts_with, str_eq, string_of, strings_view, trim, trim_end_matches, trim_end_matching,
    trimmed, upper_seq, uppercase, views, words, words_of,
};
use crate::types::{Gateway, RouteInfo, WifiNetwork};
use vstd::prelude::*;

verus! {

/* ------------------------------------------------------------------ tools */

pub fn arp_tool() -> (t: ToolRef)
    ensures
        t.command@ == "arp"@,
{
    ToolRef {
        command: "arp",
        remedy: "Ships with Windows. If missing, check that %SystemRoot%\\System32 is on PATH.",
    }
}

pub fn ping_tool() -> (t: ToolRef)
    ensures
        t.command@ == "ping"@,
{
    ToolRef {
        command: "ping",
        remedy: "Ships with Windows. If missing, check that %SystemRoot%\\System32 is on PATH.",
    }
}

pub fn trace_tool() -> (t: ToolRef)
    ensures
        t.command@ == "tracert"@,
{
    ToolRef {
        command: "tracert",
        remedy: "Ships with Windows. If missing, check that %SystemRoot%\\System32 is on PATH.",
    }
}

pub fn wifi_tool() -> (t: ToolRef)
    ensures
        t.command@ == "netsh"@,
{
    ToolRef {
        command: "netsh",
        remedy: "Ships with Windows. Wi-Fi scanning also requires the WLAN AutoConfig service to be running.",
    }
}

/* ------------------------------------------------------------------- ping */

/// Windows `ping` uses `-n` for the count and `-w` for a per-reply timeout in
/// milliseconds; `-n` does not mean "numeric" here as it does on Unix.
pub open spec fn ping_args_spec(ip: Seq<char>, count: u32, timeout_secs: u32) -> Seq<Seq<char>> {
    seq!["-n"@, dec(count as nat), "-w"@, dec((timeout_secs * 1000) as nat), "-4"@, ip]
}

pub fn ping_args(ip: &str, count: u32, timeout_secs: u32) -> (args: Vec<String>)
    requires
        timeout_secs * 1000 <= u32::MAX,
    ensures
        strings_view(args@) == ping_args_spec(ip@, count, timeout_secs),
{
    let mut args: Vec<String> = Vec::new();
    args.push(owned("-n"));
    args.push(dec_text(count as u64));
    args.push(owned("-w"));
    args.push(dec_text((timeout_secs * 1000) as u64));
    args.push(owned("-4"));
    args.push(owned(ip));
    assert(strings_view(args@) =~= ping_args_spec(ip@, count, timeout_secs));
    args
}

/// Windows `ping` has no flood-style interval.
pub fn ping_supports_flood() -> (b: bool)
    ensures
        !b,
{
    false
}

/* ----------------------------------------------------------------- arp -a */

/// 224.0.0.0/4.
pub open spec fn ipv4_multicast(ip: u32) -> bool {
    0xE000_0000 <= ip <= 0xEFFF_FFFF
}

/// A row of `arp -a`: `  10.0.3.1   e0-63-da-82-1b-35   dynamic`. Rows
/// whose address or MAC is multicast or broadcast, and MACs that are not
/// twelve hex digits, give nothing.
pub open spec fn arp_a_entry(line: Seq<char>) -> Option<(u32, Seq<char>)> {
    let t = words(line);
    if t.len() < 2 {
        None
    } else {
        match parse_ipv4(t[0]) {
            None => None,
            Some(ip) => {
                let m = normalize_mac_spec(t[1]);
                if hex_digits(m).len() != 12 || meaningless_spec(m) || (first_octet_spec(m) matches Some(
                    v,
                ) && v % 2 == 1) || ipv4_multicast(ip) || ip == 0xFFFF_FFFF {
                    None
                } else {
                    Some((ip, m))
                }
            },
        }
    }
}

pub open spec fn arp_a_rows(ls: Seq<Seq<char>>) -> Seq<(u32, Seq<char>)>
    decreases ls.len(),
{
    if ls.len() == 0 {
        seq![]
    } else {
        match arp_a_entry(ls.last()) {
            Some(e) => arp_a_rows(ls.drop_last()).push(e),
            None => arp_a_rows(ls.drop_last()),
        }
    }
}

fn arp_a_of(line: &Vec<char>) -> (r: Option<Neighbor>)
    ensures
        match r {
            Some(n) => arp_a_entry(line@) == Some((n.ip, n.mac@)),
            None => arp_a_entry(line@) is None,
        },
{
    let t = words_of(line);
    if t.len() < 2 {
        return None;
    }
    assert(views(t@)[0] == t@[0]@);
    assert(views(t@)[1] == t@[1]@);
    let ip = match parse_ipv4_chars(&t[0]) {
        Some(v) => v,
        None => {
            return None;
        },
    };
    let m = normalize_mac_chars(&t[1]);
    let h = hex_digits_of(&m);
    if h.len() != 12 {
        return None;
    }
    let text = string_of(&m);
    if is_meaningless_mac(text.as_str()) || is_multicast_mac(text.as_str()) {
        return None;
    }
    if 0xE000_0000 <= ip && ip <= 0xEFFF_FFFF || ip == 0xFFFF_FFFF {
        return None;
    }
    Some(Neighbor { ip, mac: text })
}

/// Reads `arp -a`.
pub fn parse_arp_a(output: &str) -> (neighbors: Vec<Neighbor>)
    ensures
        neighbors_view(neighbors@) == arp_a_rows(lines(output@)),
{
    let c = chars_of(output);
    let ls = lines_of(&c);
    let ghost lv = views(ls@);
    let mut out: Vec<Neighbor> = Vec::new();
    let mut i: usize = 0;
    while i < ls.len()
        invariant
            i <= ls@.len(),
            lv == views(ls@),
            neighbors_view(out@) == arp_a_rows(lv.take(i as int)),
        decreases ls.len() - i,
    {
        proof {
            assert(lv.take(i + 1).drop_last() =~= lv.take(i as int));
            assert(lv.take(i + 1).last() == ls@[i as int]@);
        }
        match arp_a_of(&ls[i]) {
            Some(n) => {
                let ghost before = out@;
                out.push(n);
                assert(neighbors_view(out@) =~= neighbors_view(before).push((n.ip, n.mac@)));
            },
            None => {},
        }
        i += 1;
    }
    assert(lv.take(ls@.len() as int) =~= lv);
    out
}

/* ------------------------------------------------------------ route print */

/// An active-route row of `route print -4`: destination, netmask, gateway,
/// interface, metric, the first two being addresses.
pub open spec fn route_print_row(line: Seq<char>) -> bool {
    let t = words(line);
    t.len() >= 5 && parse_ipv4(t[0]) is Some && parse_ipv4(t[1]) is Some
}

pub open spec fn route_print_route(line: Seq<char>, r: RouteInfo) -> bool {
    let t = words(line);
    let dest = parse_ipv4(t[0]).unwrap();
    &&& r.destination@ == (if dest == 0 { "default"@ } else { ipv4_text(dest) })
    &&& opt_text_view(r.via) == (match parse_ipv4(t[2]) {
        Some(v) => Some(ipv4_text(v)),
        None => None,
    })
    &&& r.dev@ == t[3]
    &&& r.metric == (match parse_unsigned(t[4], 10, 0xffff_ffff) {
        Some(v) => Some(v as u32),
        None => None,
    })
    &&& r.raw@ == trim(line)
}

pub open spec fn route_print_rows(ls: Seq<Seq<char>>) -> Seq<Seq<char>>
    decreases ls.len(),
{
    if ls.len() == 0 {
        ls
    } else if route_print_row(ls.last()) {
        route_print_rows(ls.drop_last()).push(ls.last())
    } else {
        route_print_rows(ls.drop_last())
    }
}

/// The first `0.0.0.0` route from `i` on with an address as its gateway, as
/// (gateway, interface).
pub open spec fn route_print_default(ls: Seq<Seq<char>>, i: int) -> Option<(Seq<char>, Seq<char>)>
    decreases ls.len() - i,
{
    if i < 0 || i >= ls.len() {
        None
    } else {
        let t = words(ls[i]);
        if route_print_row(ls[i]) && parse_ipv4(t[0]) == Some(0u32) && parse_ipv4(t[2]) is Some {
            Some((ipv4_text(parse_ipv4(t[2]).unwrap()), t[3]))
        } else {
            route_print_default(ls, i + 1)
        }
    }
}

/// Reads `route print -4`: every active route, and the gateway of the first
/// default route.
pub fn parse_route_print(output: &str) -> (r: (Option<Gateway>, Vec<RouteInfo>))
    ensures
        match r.0 {
            Some(g) => route_print_default(lines(output@), 0) == Some((g.ip@, g.dev@)),
            None => route_print_default(lines(output@), 0) is None,
        },
        r.1@.len() == route_print_rows(lines(output@)).len(),
        forall|k: int|
            0 <= k < r.1@.len() ==> route_print_route(route_print_rows(lines(output@))[k], #[trigger] r.1@[k]),
{
    let c = chars_of(output);
    let ls = lines_of(&c);
    let ghost lv = views(ls@);
    let mut routes: Vec<RouteInfo> = Vec::new();
    let mut gateway: Option<Gateway> = None;
    let mut i: usize = 0;
    while i < ls.len()
        invariant
            i <= ls@.len(),
            lv == views(ls@),
            routes@.len() == route_print_rows(lv.take(i as int)).len(),
            forall|k: int|
                0 <= k < routes@.len() ==> route_print_route(route_print_rows(lv.take(i as int))[k], #[trigger] routes@[k]),
            match gateway {
                Some(g) => route_print_default(lv, 0) == Some((g.ip@, g.dev@)),
                None => route_print_default(lv, 0) == route_print_default(lv, i as int),
            },
        decreases ls.len() - i,
    {
        proof {
            assert(lv.take(i + 1).drop_last() =~= lv.take(i as int));
            assert(lv.take(i + 1).last() == ls@[i as int]@);
            assert(lv[i as int] == ls@[i as int]@);
        }
        let t = words_of(&ls[i]);
        if t.len() >= 5 {
            proof {
                assert(views(t@)[0] == t@[0]@);
                assert(views(t@)[1] == t@[1]@);
                assert(views(t@)[2] == t@[2]@);
                assert(views(t@)[3] == t@[3]@);
                assert(views(t@)[4] == t@[4]@);
            }
            let dest = parse_ipv4_chars(&t[0]);
            let mask = parse_ipv4_chars(&t[1]);
            if dest.is_some() && mask.is_some() {
                let d = dest.unwrap();
                let via = match parse_ipv4_chars(&t[2]) {
                    Some(v) => Some(ipv4_string(v)),
                    None => None,
                };
                let metric: Option<u32> = match parse_unsigned_chars(&t[4], 0xffff_ffff) {
                    Some(v) => Some(v as u32),
                    None => None,
                };
                if d == 0 && gateway.is_none() {
                    match &via {
                        Some(v) => {
                            gateway = Some(Gateway { ip: copy_text(v), dev: string_of(&t[3]) });
                        },
                        None => {},
                    }
                }
                let destination = if d == 0 {
                    owned("default")
                } else {
                    ipv4_string(d)
                };
                let raw = trimmed(&ls[i]);
                routes.push(
                    RouteInfo { destination, via, dev: string_of(&t[3]), metric, raw: string_of(&raw) },
                );
            }
        }
        i += 1;
    }
    assert(lv.take(ls@.len() as int) =~= lv);
    (gateway, routes)
}

/* -------------------------------------------------------------- DNS servers */

/// `v` with `x` appended, unless it already holds it.
pub open spec fn add_unique(v: Seq<Seq<char>>, x: Seq<char>) -> Seq<Seq<char>> {
    if v.contains(x) {
        v
    } else {
        v.push(x)
    }
}

fn push_unique(v: &mut Vec<String>, x: String)
    ensures
        strings_view(final(v)@) == add_unique(strings_view(old(v)@), x@),
{
    let mut i: usize = 0;
    while i < v.len()
        invariant
            i <= v@.len(),
            forall|k: int| 0 <= k < i ==> strings_view(v@)[k] != x@,
        decreases v.len() - i,
    {
        if str_eq(v[i].as_str(), x.as_str()) {
            assert(strings_view(v@)[i as int] == x@);
            return;
        }
        i += 1;
    }
    let ghost before = v@;
    v.push(x);
    assert(strings_view(v@) =~= strings_view(before).push(x@));
}

/// The addresses PowerShell's `Get-DnsClientServerAddress` lists, one per
/// line, each once.
pub open spec fn powershell_servers(ls: Seq<Seq<char>>) -> Seq<Seq<char>>
    decreases ls.len(),
{
    if ls.len() == 0 {
        seq![]
    } else {
        let prev = powershell_servers(ls.drop_last());
        let s = trim(ls.last());
        if parse_ipv4(s) is Some {
            add_unique(prev, s)
        } else {
            prev
        }
    }
}

/// Reads the server list PowerShell prints (its output is not localised).
pub fn parse_dns_powershell(output: &str) -> (servers: Vec<String>)
    ensures
        strings_view(servers@) == powershell_servers(lines(output@)),
{
    let c = chars_of(output);
    let ls = lines_of(&c);
    let ghost lv = views(ls@);
    let mut out: Vec<String> = Vec::new();
    let mut i: usize = 0;
    while i < ls.len()
        invariant
            i <= ls@.len(),
            lv == views(ls@),
            strings_view(out@) == powershell_servers(lv.take(i as int)),
        decreases ls.len() - i,
    {
        proof {
            assert(lv.take(i + 1).drop_last() =~= lv.take(i as int));
            assert(lv.take(i + 1).last() == ls@[i as int]@);
        }
        let s = trimmed(&ls[i]);
        if parse_ipv4_chars(&s).is_some() {
            push_unique(&mut out, string_of(&s));
        }
        i += 1;
    }
    assert(lv.take(ls@.len() as int) =~= lv);
    out
}

/// Characters `ipconfig`'s address tokens are trimmed of.
pub open spec fn junk(c: char) -> bool {
    !is_alnum(c) && c != '.'
}

/// `s.trim_matches(junk)`.
pub open spec fn trim_junk(s: Seq<char>) -> Seq<char>
    decreases s.len(),
{
    if s.len() > 0 && junk(s[0]) {
        trim_junk(s.drop_first())
    } else if s.len() > 0 && junk(s.last()) {
        trim_junk(s.drop_last())
    } else {
        s
    }
}

fn trim_junk_chars(s: &[char]) -> (out: Vec<char>)
    ensures
        out@ == trim_junk(s@),
{
    let mut lo: usize = 0;
    let mut hi: usize = s.len();
    assert(s@.subrange(0, s@.len() as int) =~= s@);
    while lo < hi && !alnum(s[lo]) && s[lo] != '.'
        invariant
            lo <= hi == s@.len(),
            trim_junk(s@) == trim_junk(s@.subrange(lo as int, hi as int)),
        decreases hi - lo,
    {
        assert(s@.subrange(lo as int, hi as int).drop_first() =~= s@.subrange(lo + 1, hi as int));
        lo += 1;
    }
    while lo < hi && !alnum(s[hi - 1]) && s[hi - 1] != '.'
        invariant
            lo <= hi <= s@.len(),
            lo < hi ==> !junk(s@[lo as int]),
            trim_junk(s@) == trim_junk(s@.subrange(lo as int, hi as int)),
        decreases hi - lo,
    {
        let ghost sub = s@.subrange(lo as int, hi as int);
        assert(sub.drop_last() =~= s@.subrange(lo as int, hi - 1));
        assert(sub[0] == s@[lo as int]);
        hi -= 1;
    }
    proof {
        let sub = s@.subrange(lo as int, hi as int);
        if sub.len() > 0 {
            assert(sub[0] == s@[lo as int]);
            assert(sub.last() == s@[hi - 1]);
        }
    }
    slice_chars(s, lo, hi)
}

/// Whether an `ipconfig /all` line ends the DNS block: a `:` on a line
/// that does not start, once trimmed, with a digit.
pub open spec fn ends_block(line: Seq<char>) -> bool {
    let t = trim(line);
    contains(line, ":"@) && !(t.len() > 0 && is_digit(t[0]))
}

/// Whether the first `n` lines leave the reader inside the `DNS Servers` block.
pub open spec fn in_dns_block(ls: Seq<Seq<char>>, n: int) -> bool
    decreases n,
{
    if n <= 0 || n > ls.len() {
        false
    } else if contains(ls[n - 1], "DNS Servers"@) {
        true
    } else if ends_block(ls[n - 1]) {
        false
    } else {
        in_dns_block(ls, n - 1)
    }
}

/// The address-shaped tokens of the first `n` words, each once, after `acc`.
pub open spec fn collect_addresses(acc: Seq<Seq<char>>, w: Seq<Seq<char>>, n: int) -> Seq<Seq<char>>
    decreases n,
{
    if n <= 0 || n > w.len() {
        acc
    } else {
        let prev = collect_addresses(acc, w, n - 1);
        let cand = trim_junk(w[n - 1]);
        if parse_ipv4(cand) is Some {
            add_unique(prev, cand)
        } else {
            prev
        }
    }
}

/// The DNS servers `ipconfig /all` lists under its (English) `DNS Servers`
/// label, including the continuation lines below it, each once.
pub open spec fn ipconfig_servers(ls: Seq<Seq<char>>) -> Seq<Seq<char>>
    decreases ls.len(),
{
    if ls.len() == 0 {
        seq![]
    } else {
        let prev = ipconfig_servers(ls.drop_last());
        if in_dns_block(ls, ls.len() as int) {
            let w = words(ls.last());
            collect_addresses(prev, w, w.len() as int)
        } else {
            prev
        }
    }
}

proof fn lemma_in_block_prefix(ls: Seq<Seq<char>>, n: int, m: int)
    requires
        0 <= n <= m <= ls.len(),
    ensures
        in_dns_block(ls.take(m), n) == in_dns_block(ls, n),
    decreases n,
{
    if n > 0 {
        assert(ls.take(m)[n - 1] == ls[n - 1]);
        lemma_in_block_prefix(ls, n - 1, m);
    }
}

/// Reads `ipconfig /all`. The labels are localised; only the English one is
/// recognised here, which is why PowerShell is asked first.
pub fn parse_ipconfig_dns(output: &str) -> (servers: Vec<String>)
    ensures
        strings_view(servers@) == ipconfig_servers(lines(output@)),
{
    let c = chars_of(output);
    let ls = lines_of(&c);
    let ghost lv = views(ls@);
    let mut out: Vec<String> = Vec::new();
    let mut in_block = false;
    let mut i: usize = 0;
    while i < ls.len()
        invariant
            i <= ls@.len(),
            lv == views(ls@),
            in_block == in_dns_block(lv, i as int),
            strings_view(out@) == ipconfig_servers(lv.take(i as int)),
        decreases ls.len() - i,
    {
        let line = &ls[i];
        proof {
            assert(lv.take(i + 1).drop_last() =~= lv.take(i as int));
            assert(lv.take(i + 1).last() == line@);
            assert(lv[i as int] == line@);
            lemma_in_block_prefix(lv, i + 1, i + 1);
        }
        if has(line, "DNS Servers") {
            in_block = true;
        } else {
            let t = trimmed(line);
            let starts_digit = t.len() > 0 && digit(t[0]);
            if has(line, ":") && !starts_digit {
                in_block = false;
            }
        }
        if in_block {
            let w = words_of(line);
            let ghost acc = strings_view(out@);
            let mut j: usize = 0;
            while j < w.len()
                invariant
                    j <= w@.len(),
                    strings_view(out@) == collect_addresses(acc, views(w@), j as int),
                decreases w.len() - j,
            {
                assert(views(w@)[j as int] == w@[j as int]@);
                let cand = trim_junk_chars(&w[j]);
                if parse_ipv4_chars(&cand).is_some() {
                    push_unique(&mut out, string_of(&cand));
                }
                j += 1;
            }
        }
        i += 1;
    }
    assert(lv.take(ls@.len() as int) =~= lv);
    out
}

/* ------------------------------------------------------------------- netsh */

/// Interface name, SSID, BSSID and rate from `netsh wlan show interfaces`.
pub type NetshInterface = (Option<Seq<char>>, Option<Seq<char>>, Option<Seq<char>>, Option<Seq<char>>);

/// One `Key : value` line; the last line of each kind wins, and empty values
/// are ignored.
pub open spec fn netsh_if_step(st: NetshInterface, line: Seq<char>) -> NetshInterface {
    match split_once(line, ":"@) {
        None => st,
        Some(kv) => {
            let key = trim(kv.0);
            let value = trim(kv.1);
            if value.len() == 0 {
                st
            } else if key == "Name"@ {
                (Some(value), st.1, st.2, st.3)
            } else if key == "SSID"@ {
                (st.0, Some(value), st.2, st.3)
            } else if key == "BSSID"@ {
                (st.0, st.1, Some(upper_seq(value)), st.3)
            } else if key == "Receive rate (Mbps)"@ || key == "Transmit rate (Mbps)"@ {
                (st.0, st.1, st.2, Some(value + " Mbit/s"@))
            } else {
                st
            }
        },
    }
}

pub open spec fn netsh_if_run(ls: Seq<Seq<char>>, n: int) -> NetshInterface
    decreases n,
{
    if n <= 0 || n > ls.len() {
        (None, None, None, None)
    } else {
        netsh_if_step(netsh_if_run(ls, n - 1), ls[n - 1])
    }
}

/// Reads `netsh wlan show interfaces`: the interface name, the connected
/// SSID and BSSID, and its link rate.
pub fn parse_netsh_interfaces(output: &str) -> (r: (Option<String>, Option<String>, Option<String>, Option<String>))
    ensures
        (opt_text_view(r.0), opt_text_view(r.1), opt_text_view(r.2), opt_text_view(r.3))
            == netsh_if_run(lines(output@), lines(output@).len() as int),
{
    let c = chars_of(output);
    let ls = lines_of(&c);
    let ghost lv = views(ls@);
    let colon = chars_of(":");
    let mut interface: Option<String> = None;
    let mut ssid: Option<String> = None;
    let mut bssid: Option<String> = None;
    let mut rate: Option<String> = None;
    let mut i: usize = 0;
    while i < ls.len()
        invariant
            i <= ls@.len(),
            lv == views(ls@),
            colon@ == ":"@,
            (opt_text_view(interface), opt_text_view(ssid), opt_text_view(bssid), opt_text_view(rate))
                == netsh_if_run(lv, i as int),
        decreases ls.len() - i,
    {
        assert(lv[i as int] == ls@[i as int]@);
        match split_once_chars(&ls[i], &colon) {
            Some((k, v)) => {
                let key = trimmed(&k);
                let value = trimmed(&v);
                if value.len() > 0 {
                    if is_text(&key, "Name") {
                        interface = Some(string_of(&value));
                    } else if is_text(&key, "SSID") {
                        ssid = Some(string_of(&value));
                    } else if is_text(&key, "BSSID") {
                        let up = uppercase(&value);
                        bssid = Some(string_of(&up));
                    } else if is_text(&key, "Receive rate (Mbps)") || is_text(&key, "Transmit rate (Mbps)") {
                        let mut r = string_of(&value);
                        push_str(&mut r, " Mbit/s");
                        rate = Some(r);
                    }
                }
            },
            None => {},
        }
        i += 1;
    }
    (interface, ssid, bssid, rate)
}

/// Networks read so far, the SSID and authentication of the block being
/// read, and the BSSID entry being read.
pub type NetshState = (Seq<NetView>, Option<Seq<char>>, Option<Seq<char>>, Option<NetView>);

/// One line of `netsh wlan show networks mode=bssid`, which nests BSSID
/// blocks under each SSID; each BSSID becomes its own entry.
pub open spec fn netsh_step(st: NetshState, line: Seq<char>) -> NetshState {
    match split_once(trim(line), ":"@) {
        None => st,
        Some(kv) => {
            let key = trim(kv.0);
            let value = trim(kv.1);
            if starts_with(key, "SSID"@) && !starts_with(key, "BSSID"@) {
                (flush(st.0, st.3), Some(if value.len() == 0 { "(hidden)"@ } else { value }), None, None)
            } else if key == "Authentication"@ {
                (st.0, st.1, Some(value), st.3)
            } else if starts_with(key, "BSSID"@) {
                let ssid = match st.1 {
                    Some(s) => s,
                    None => "(hidden)"@,
                };
                (
                    flush(st.0, st.3),
                    st.1,
                    st.2,
                    Some((ssid, Some(upper_seq(value)), false, 0, 0, "unknown"@, None, st.2)),
                )
            } else {
                match st.3 {
                    None => st,
                    Some(n) => if key == "Signal"@ {
                        let sig = match parse_unsigned(trim_end_matches(value, "%"@), 10, 255) {
                            Some(v) => v as u8,
                            None => 0,
                        };
                        (st.0, st.1, st.2, Some((n.0, n.1, n.2, sig, n.4, n.5, n.6, n.7)))
                    } else if key == "Channel"@ {
                        let ch = u32_or_zero(value) as u32;
                        (st.0, st.1, st.2, Some((n.0, n.1, n.2, n.3, ch, band_of_channel(ch)@, n.6, n.7)))
                    } else {
                        st
                    },
                }
            }
        },
    }
}

pub open spec fn netsh_run(ls: Seq<Seq<char>>, n: int) -> NetshState
    decreases n,
{
    if n <= 0 || n > ls.len() {
        (seq![], None, None, None)
    } else {
        netsh_step(netsh_run(ls, n - 1), ls[n - 1])
    }
}

pub open spec fn netsh_networks(ls: Seq<Seq<char>>) -> Seq<NetView> {
    let st = netsh_run(ls, ls.len() as int);
    flush(st.0, st.3)
}

fn opt_copy(o: &Option<String>) -> (r: Option<String>)
    ensures
        opt_text_view(r) == opt_text_view(*o),
{
    match o {
        Some(s) => Some(copy_text(s)),
        None => None,
    }
}

/// Reads `netsh wlan show networks mode=bssid`.
pub fn parse_netsh_networks(output: &str) -> (networks: Vec<WifiNetwork>)
    ensures
        nets_view(networks@) == netsh_networks(lines(output@)),
{
    let c = chars_of(output);
    let ls = lines_of(&c);
    let ghost lv = views(ls@);
    let colon = chars_of(":");
    let mut networks: Vec<WifiNetwork> = Vec::new();
    let mut ssid: Option<String> = None;
    let mut auth: Option<String> = None;
    let mut pending: Option<WifiNetwork> = None;
    let mut i: usize = 0;
    while i < ls.len()
        invariant
            i <= ls@.len(),
            lv == views(ls@),
            colon@ == ":"@,
            (nets_view(networks@), opt_text_view(ssid), opt_text_view(auth), opt_net_view(pending))
                == netsh_run(lv, i as int),
        decreases ls.len() - i,
    {
        assert(lv[i as int] == ls@[i as int]@);
        let t = trimmed(&ls[i]);
        i += 1;
        let (k, v) = match split_once_chars(&t, &colon) {
            Some(kv) => kv,
            None => {
                continue;
            },
        };
        let key = trimmed(&k);
        let value = trimmed(&v);
        if begins(&key, "SSID") && !begins(&key, "BSSID") {
            match pending {
                Some(n) => {
                    let ghost before = networks@;
                    networks.push(n);
                    assert(nets_view(networks@) =~= nets_view(before).push(net_view(n)));
                },
                None => {},
            }
            pending = None;
            ssid = Some(
                if value.len() == 0 {
                    owned("(hidden)")
                } else {
                    string_of(&value)
                },
            );
            auth = None;
            continue;
        }
        if is_text(&key, "Authentication") {
            auth = Some(string_of(&value));
            continue;
        }
        if begins(&key, "BSSID") {
            match pending {
                Some(n) => {
                    let ghost before = networks@;
                    networks.push(n);
                    assert(nets_view(networks@) =~= nets_view(before).push(net_view(n)));
                },
                None => {},
            }
            let name = match &ssid {
                Some(s) => copy_text(s),
                None => owned("(hidden)"),
            };
            let up = uppercase(&value);
            pending = Some(
                WifiNetwork {
                    ssid: name,
                    bssid: Some(string_of(&up)),
                    active: false,
                    signal: 0,
                    channel: 0,
                    band: owned("unknown"),
                    rate: None,
                    security: opt_copy(&auth),
                },
            );
            continue;
        }
        pending = match pending {
            None => None,
            Some(n) => {
                let mut n = n;
                if is_text(&key, "Signal") {
                    let pct = chars_of("%");
                    let digits = trim_end_matching(&value, &pct);
                    n.signal = match parse_unsigned_chars(&digits, 255) {
                        Some(v) => v as u8,
                        None => 0,
                    };
                } else if is_text(&key, "Channel") {
                    let ch: u32 = match parse_unsigned_chars(&value, 0xffff_ffff) {
                        Some(v) => v as u32,
                        None => 0,
                    };
                    n.channel = ch;
                    n.band = owned(band_for_channel(ch));
                }
                Some(n)
            },
        };
    }
    match pending {
        Some(n) => {
            let ghost before = networks@;
            networks.push(n);
            assert(nets_view(networks@) =~= nets_view(before).push(net_view(n)));
        },
        None => {},
    }
    networks
}

/// Whether a network is the connected one: its BSSID matches (ignoring ASCII
/// case), or, when the connected BSSID is unknown, its SSID does.
pub open spec fn is_connected(n: WifiNetwork, ssid: Option<Seq<char>>, bssid: Option<Seq<char>>) -> bool {
    ||| (opt_text_view(n.bssid) matches Some(a) && bssid matches Some(b) && lower_seq(a) == lower_seq(b))
    ||| (bssid is None && ssid == Some(n.ssid@))
}

/// netsh lists the connected network alongside the rest without marking it:
/// marks it active, and gives it the interface's rate when it has none.
pub fn mark_connected(networks: &mut Vec<WifiNetwork>, ssid: &Option<String>, bssid: &Option<String>, rate: &Option<String>)
    ensures
        final(networks)@.len() == old(networks)@.len(),
        forall|k: int| 0 <= k < old(networks)@.len() ==> {
            let n = #[trigger] old(networks)@[k];
            let m = final(networks)@[k];
            if is_connected(n, opt_text_view(*ssid), opt_text_view(*bssid)) {
                &&& net_view(m) == (
                    n.ssid@,
                    opt_text_view(n.bssid),
                    true,
                    n.signal,
                    n.channel,
                    n.band@,
                    if n.rate is None { opt_text_view(*rate) } else { opt_text_view(n.rate) },
                    opt_text_view(n.security),
                )
            } else {
                m == n
            }
        },
{
    let ghost orig = networks@;
    let mut i: usize = 0;
    while i < networks.len()
        invariant
            i <= networks@.len(),
            networks@.len() == orig.len(),
            forall|k: int| i <= k < orig.len() ==> networks@[k] == orig[k],
            forall|k: int| 0 <= k < i ==> {
                let n = #[trigger] orig[k];
                let m = networks@[k];
                if is_connected(n, opt_text_view(*ssid), opt_text_view(*bssid)) {
                    &&& net_view(m) == (
                        n.ssid@,
                        opt_text_view(n.bssid),
                        true,
                        n.signal,
                        n.channel,
                        n.band@,
                        if n.rate is None { opt_text_view(*rate) } else { opt_text_view(n.rate) },
                        opt_text_view(n.security),
                    )
                } else {
                    m == n
                }
            },
        decreases networks.len() - i,
    {
        let by_bssid = match (&networks[i].bssid, bssid) {
            (Some(a), Some(b)) => {
                let x = chars_of(a.as_str());
                let y = chars_of(b.as_str());
                let lx = lowercase(&x);
                let ly = lowercase(&y);
                crate::text::chars_eq(&lx, &ly)
            },
            _ => false,
        };
        let by_ssid = match (bssid, ssid) {
            (None, Some(s)) => str_eq(s.as_str(), networks[i].ssid.as_str()),
            _ => false,
        };
        if by_bssid || by_ssid {
            networks[i].active = true;
            if networks[i].rate.is_none() {
                networks[i].rate = opt_copy(rate);
            }
        }
        i += 1;
    }
}

} // verus!
