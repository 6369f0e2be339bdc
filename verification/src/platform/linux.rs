//! Linux: iproute2 and NetworkManager output.
use crate::netutil::{
    is_meaningless_mac, meaningless_spec, normalize_mac_chars, normalize_mac_spec, parse_ipv4,
    parse_ipv4_chars,
};
use crate::platform::{neighbors_view, opt_chars, token_after, word_after, Neighbor, ToolRef};
use crate::scan::wifi::{band_for_frequency, band_of_frequency, opt_text_view};
use crate::text::{
    begins, chars_of, copy_text, dec, dec_text, digit, is_digit, is_text, lemma_views_push, lines, lines_of,
    owned, parse_unsigned, parse_unsigned_chars, starts_with, string_of, strings_of,
    strings_view, trim, trimmed, views, words, words_of,
};
use crate::types::{Gateway, RouteInfo, WifiNetwork};
use vstd::prelude::*;

verus! {

/* ------------------------------------------------------------------ tools */

pub fn arp_tool() -> (t: ToolRef)
    ensures
        t.command@ == "ip"@,
{
    ToolRef {
        command: "ip",
        remedy: "Install the iproute2 package (`sudo apt install iproute2`). It is present by default on virtually all distributions.",
    }
}

pub fn ping_tool() -> (t: ToolRef)
    ensures
        t.command@ == "ping"@,
{
    ToolRef { command: "ping", remedy: "Install iputils-ping (`sudo apt install iputils-ping`)." }
}

pub fn trace_tool() -> (t: ToolRef)
    ensures
        t.command@ == "tracepath"@,
{
    ToolRef {
        command: "tracepath",
        remedy: "Install iputils-tracepath or mtr (`sudo apt install mtr-tiny`).",
    }
}

pub fn wifi_tool() -> (t: ToolRef)
    ensures
        t.command@ == "nmcli"@,
{
    ToolRef {
        command: "nmcli",
        remedy: "Install NetworkManager (`sudo apt install network-manager`). Without it Wi-Fi signal and channel data are unavailable; everything else still works.",
    }
}

/* ------------------------------------------------------------------- ping */

/// `ping -c COUNT -W TIMEOUT -n -q IP`: on Linux `-W` is a timeout in seconds.
pub open spec fn ping_args_spec(ip: Seq<char>, count: u32, timeout_secs: u32) -> Seq<Seq<char>> {
    seq!["-c"@, dec(count as nat), "-W"@, dec(timeout_secs as nat), "-n"@, "-q"@, ip]
}

pub fn ping_args(ip: &str, count: u32, timeout_secs: u32) -> (args: Vec<String>)
    ensures
        strings_view(args@) == ping_args_spec(ip@, count, timeout_secs),
{
    let mut args: Vec<String> = Vec::new();
    args.push(owned("-c"));
    args.push(dec_text(count as u64));
    args.push(owned("-W"));
    args.push(dec_text(timeout_secs as u64));
    args.push(owned("-n"));
    args.push(owned("-q"));
    args.push(owned(ip));
    assert(strings_view(args@) =~= ping_args_spec(ip@, count, timeout_secs));
    args
}

/// iputils `ping` accepts the flood-style short intervals the sweep uses.
pub fn ping_supports_flood() -> (b: bool)
    ensures
        b,
{
    true
}

/* ------------------------------------------------------- nmcli terse rows */

/// `f` with `c` prepended to its first field.
pub open spec fn lead(c: Seq<char>, f: Seq<Seq<char>>) -> Seq<Seq<char>> {
    f.update(0, c + f[0])
}

/// The fields of an `nmcli -t` row: split at colons, where `\x` stands for a
/// literal `x` (BSSIDs carry escaped colons) and a trailing lone backslash is
/// dropped.
pub open spec fn terse_fields(s: Seq<char>) -> Seq<Seq<char>>
    decreases s.len(),
{
    if s.len() == 0 {
        seq![Seq::<char>::empty()]
    } else if s[0] == '\\' {
        if s.len() >= 2 {
            lead(seq![s[1]], terse_fields(s.skip(2)))
        } else {
            seq![Seq::<char>::empty()]
        }
    } else if s[0] == ':' {
        seq![Seq::<char>::empty()] + terse_fields(s.drop_first())
    } else {
        lead(seq![s[0]], terse_fields(s.drop_first()))
    }
}

pub proof fn lemma_terse_nonempty(s: Seq<char>)
    ensures
        terse_fields(s).len() >= 1,
    decreases s.len(),
{
    if s.len() > 0 {
        if s[0] == '\\' {
            if s.len() >= 2 {
                lemma_terse_nonempty(s.skip(2));
            }
        } else {
            lemma_terse_nonempty(s.drop_first());
        }
    }
}

pub open spec fn terse_state(done: Seq<Seq<char>>, cur: Seq<char>, rest: Seq<char>) -> Seq<Seq<char>> {
    let t = terse_fields(rest);
    done + seq![cur + t[0]] + t.drop_first()
}

fn split_terse_chars(c: &[char]) -> (out: Vec<Vec<char>>)
    ensures
        views(out@) == terse_fields(c@),
{
    let mut fields: Vec<Vec<char>> = Vec::new();
    let mut cur: Vec<char> = Vec::new();
    let mut i: usize = 0;
    proof {
        assert(c@.skip(0) =~= c@);
        lemma_terse_nonempty(c@);
        let t = terse_fields(c@);
        assert(views(fields@) + seq![cur@ + t[0]] + t.drop_first() =~= t);
    }
    while i < c.len()
        invariant
            i <= c@.len(),
            terse_state(views(fields@), cur@, c@.skip(i as int)) == terse_fields(c@),
        decreases c.len() - i,
    {
        let ghost s = c@.skip(i as int);
        let ghost t = terse_fields(s);
        let ghost before = views(fields@);
        let ghost cur0 = cur@;
        if c[i] == '\\' {
            if c.len() - i >= 2 {
                let ghost t2 = terse_fields(c@.skip(i + 2));
                proof {
                    assert(s.skip(2) =~= c@.skip(i + 2));
                    lemma_terse_nonempty(c@.skip(i + 2));
                }
                cur.push(c[i + 1]);
                i += 2;
                proof {
                    assert(t == lead(seq![c@[i - 1]], t2));
                    assert(cur@ + t2[0] =~= cur0 + t[0]);
                    assert(t2.drop_first() =~= t.drop_first());
                    assert(terse_state(views(fields@), cur@, c@.skip(i as int)) =~= terse_state(
                        before,
                        cur0,
                        s,
                    ));
                }
            } else {
                proof {
                    assert(c@.skip(i + 1) =~= Seq::<char>::empty());
                }
                i += 1;
            }
        } else if c[i] == ':' {
            let ghost t2 = terse_fields(c@.skip(i + 1));
            proof {
                assert(s.drop_first() =~= c@.skip(i + 1));
                lemma_terse_nonempty(c@.skip(i + 1));
                lemma_views_push(fields@, cur);
            }
            fields.push(cur);
            cur = Vec::new();
            i += 1;
            proof {
                assert(t == seq![Seq::<char>::empty()] + t2);
                assert(cur0 + t[0] =~= cur0);
                assert(seq![t2[0]] + t2.drop_first() =~= t2);
                assert(terse_state(views(fields@), cur@, c@.skip(i as int)) =~= terse_state(
                    before,
                    cur0,
                    s,
                ));
            }
        } else {
            let ghost t2 = terse_fields(c@.skip(i + 1));
            proof {
                assert(s.drop_first() =~= c@.skip(i + 1));
                lemma_terse_nonempty(c@.skip(i + 1));
            }
            cur.push(c[i]);
            i += 1;
            proof {
                assert(t == lead(seq![c@[i - 1]], t2));
                assert(cur@ + t2[0] =~= cur0 + t[0]);
                assert(t2.drop_first() =~= t.drop_first());
                assert(terse_state(views(fields@), cur@, c@.skip(i as int)) =~= terse_state(
                    before,
                    cur0,
                    s,
                ));
            }
        }
    }
    proof {
        assert(c@.skip(i as int) =~= Seq::<char>::empty());
        lemma_views_push(fields@, cur);
        assert(cur@ + Seq::<char>::empty() =~= cur@);
    }
    let ghost done = views(fields@);
    fields.push(cur);
    proof {
        assert(views(fields@) =~= terse_state(done, cur@, Seq::<char>::empty()));
    }
    fields
}

/// Splits an `nmcli -t` row on unescaped colons.
pub fn split_terse(line: &str) -> (fields: Vec<String>)
    ensures
        strings_view(fields@) == terse_fields(line@),
{
    let c = chars_of(line);
    let f = split_terse_chars(&c);
    strings_of(&f)
}

/* ------------------------------------------------------------ nmcli survey */

/// The decimal digits of `s`, in order.
pub open spec fn keep_digits(s: Seq<char>) -> Seq<char>
    decreases s.len(),
{
    if s.len() == 0 {
        s
    } else if is_digit(s.last()) {
        keep_digits(s.drop_last()).push(s.last())
    } else {
        keep_digits(s.drop_last())
    }
}

pub fn digits_in(s: &[char]) -> (out: Vec<char>)
    ensures
        out@ == keep_digits(s@),
{
    let mut out: Vec<char> = Vec::new();
    let mut i: usize = 0;
    while i < s.len()
        invariant
            i <= s@.len(),
            out@ == keep_digits(s@.take(i as int)),
        decreases s.len() - i,
    {
        proof {
            assert(s@.take(i + 1).drop_last() =~= s@.take(i as int));
        }
        if digit(s[i]) {
            out.push(s[i]);
        }
        i += 1;
    }
    assert(s@.take(s@.len() as int) =~= s@);
    out
}

/// `s.parse::<u32>()`, or 0.
pub open spec fn u32_or_zero(s: Seq<char>) -> int {
    match parse_unsigned(s, 10, 0xffff_ffff) {
        Some(v) => v,
        None => 0,
    }
}

/// An empty field means "absent".
pub open spec fn or_none(s: Seq<char>) -> Option<Seq<char>> {
    if s.len() == 0 {
        None
    } else {
        Some(s)
    }
}

/// A `dev wifi list` row describes a network: not blank, all eight fields,
/// and a numeric channel.
pub open spec fn nm_row(line: Seq<char>) -> bool {
    let f = terse_fields(line);
    &&& trim(line).len() > 0
    &&& f.len() >= 8
    &&& parse_unsigned(f[3], 10, 0xffff_ffff) is Some
}

/// The network a row describes (`IN-USE,SSID,BSSID,CHAN,FREQ,RATE,SIGNAL,SECURITY`).
/// An empty SSID is a hidden network, not a parse failure.
pub open spec fn nm_network(line: Seq<char>, n: WifiNetwork) -> bool {
    let f = terse_fields(line);
    let freq = u32_or_zero(keep_digits(f[4]));
    &&& n.ssid@ == (if f[1].len() == 0 { "(hidden)"@ } else { f[1] })
    &&& opt_text_view(n.bssid) == or_none(f[2])
    &&& n.active == (trim(f[0]) == "*"@)
    &&& n.signal as int == (match parse_unsigned(f[6], 10, 255) {
        Some(v) => v,
        None => 0,
    })
    &&& Some(n.channel as int) == parse_unsigned(f[3], 10, 0xffff_ffff)
    &&& n.band@ == band_of_frequency(freq as u32)@
    &&& opt_text_view(n.rate) == or_none(f[5])
    &&& opt_text_view(n.security) == Some(if f[7].len() == 0 { "Open"@ } else { f[7] })
}

/// The rows that describe networks, in order.
pub open spec fn nm_rows(ls: Seq<Seq<char>>) -> Seq<Seq<char>>
    decreases ls.len(),
{
    if ls.len() == 0 {
        ls
    } else if nm_row(ls.last()) {
        nm_rows(ls.drop_last()).push(ls.last())
    } else {
        nm_rows(ls.drop_last())
    }
}

fn opt_field(f: &Vec<char>) -> (r: Option<String>)
    ensures
        opt_text_view(r) == or_none(f@),
{
    if f.len() == 0 {
        None
    } else {
        Some(string_of(f))
    }
}

fn nm_network_of(line: &Vec<char>) -> (r: Option<WifiNetwork>)
    ensures
        r is Some == nm_row(line@),
        r matches Some(n) ==> nm_network(line@, n),
{
    let t = trimmed(line);
    if t.len() == 0 {
        return None;
    }
    let f = split_terse_chars(line);
    if f.len() < 8 {
        return None;
    }
    proof {
        assert(views(f@)[3] == f@[3]@);
        assert(views(f@)[4] == f@[4]@);
        assert(views(f@)[6] == f@[6]@);
        assert(views(f@)[0] == f@[0]@);
        assert(views(f@)[1] == f@[1]@);
        assert(views(f@)[2] == f@[2]@);
        assert(views(f@)[5] == f@[5]@);
        assert(views(f@)[7] == f@[7]@);
    }
    let channel: u32 = match parse_unsigned_chars(&f[3], 0xffff_ffff) {
        Some(v) => v as u32,
        None => {
            return None;
        },
    };
    let d = digits_in(&f[4]);
    let freq: u32 = match parse_unsigned_chars(&d, 0xffff_ffff) {
        Some(v) => v as u32,
        None => 0,
    };
    let signal: u8 = match parse_unsigned_chars(&f[6], 255) {
        Some(v) => v as u8,
        None => 0,
    };
    let ssid = if f[1].len() == 0 {
        owned("(hidden)")
    } else {
        string_of(&f[1])
    };
    let mark = trimmed(&f[0]);
    let active = is_text(&mark, "*");
    let security = if f[7].len() == 0 {
        owned("Open")
    } else {
        string_of(&f[7])
    };
    Some(
        WifiNetwork {
            ssid,
            bssid: opt_field(&f[2]),
            active,
            signal,
            channel,
            band: owned(band_for_frequency(freq)),
            rate: opt_field(&f[5]),
            security: Some(security),
        },
    )
}

/// Reads `nmcli -t -f IN-USE,SSID,BSSID,CHAN,FREQ,RATE,SIGNAL,SECURITY dev wifi list`.
pub fn parse_wifi_list(output: &str) -> (networks: Vec<WifiNetwork>)
    ensures
        networks@.len() == nm_rows(lines(output@)).len(),
        forall|k: int|
            0 <= k < networks@.len() ==> nm_network(nm_rows(lines(output@))[k], #[trigger] networks@[k]),
{
    let c = chars_of(output);
    let ls = lines_of(&c);
    let ghost lv = views(ls@);
    let mut out: Vec<WifiNetwork> = Vec::new();
    let mut i: usize = 0;
    while i < ls.len()
        invariant
            i <= ls@.len(),
            lv == views(ls@),
            out@.len() == nm_rows(lv.take(i as int)).len(),
            forall|k: int| 0 <= k < out@.len() ==> nm_network(nm_rows(lv.take(i as int))[k], #[trigger] out@[k]),
        decreases ls.len() - i,
    {
        proof {
            assert(lv.take(i + 1).drop_last() =~= lv.take(i as int));
            assert(lv.take(i + 1).last() == ls@[i as int]@);
        }
        match nm_network_of(&ls[i]) {
            Some(n) => {
                out.push(n);
            },
            None => {},
        }
        i += 1;
    }
    assert(lv.take(ls@.len() as int) =~= lv);
    out
}

/// The first row of `nmcli -t -f DEVICE,TYPE,STATE dev status` from `i` on
/// that is a Wi-Fi device other than a peer-to-peer one.
pub open spec fn wifi_device_from(ls: Seq<Seq<char>>, i: int) -> Option<Seq<char>>
    decreases ls.len() - i,
{
    if i < 0 || i >= ls.len() {
        None
    } else {
        let f = terse_fields(ls[i]);
        if f.len() >= 2 && f[1] == "wifi"@ && !starts_with(f[0], "p2p-"@) {
            Some(f[0])
        } else {
            wifi_device_from(ls, i + 1)
        }
    }
}

/// The Wi-Fi interface named by `nmcli -t -f DEVICE,TYPE,STATE dev status`.
pub fn wifi_interface(output: &str) -> (dev: Option<String>)
    ensures
        opt_text_view(dev) == wifi_device_from(lines(output@), 0),
{
    let c = chars_of(output);
    let ls = lines_of(&c);
    let ghost lv = views(ls@);
    let mut i: usize = 0;
    while i < ls.len()
        invariant
            i <= ls@.len(),
            lv == views(ls@),
            lv == lines(output@),
            wifi_device_from(lv, 0) == wifi_device_from(lv, i as int),
        decreases ls.len() - i,
    {
        let f = split_terse_chars(&ls[i]);
        proof {
            assert(lv[i as int] == ls@[i as int]@);
        }
        if f.len() >= 2 {
            proof {
                assert(views(f@)[0] == f@[0]@);
                assert(views(f@)[1] == f@[1]@);
            }
            if is_text(&f[1], "wifi") && !begins(&f[0], "p2p-") {
                let dev = string_of(&f[0]);
                proof {
                    let t = terse_fields(lv[i as int]);
                    assert(t == views(f@));
                    assert(t[1] == "wifi"@);
                    assert(!starts_with(t[0], "p2p-"@));
                    assert(wifi_device_from(lv, i as int) == Some(t[0]));
                }
                return Some(dev);
            }
        }
        i += 1;
    }
    None
}

/* --------------------------------------------------------- ip neigh / route */

/// The normalised address after the last `lladdr` among the first `i` words
/// (nothing when that `lladdr` is the last word).
pub open spec fn lladdr(t: Seq<Seq<char>>, i: int) -> Option<Seq<char>>
    decreases i,
{
    if i <= 0 || i > t.len() {
        None
    } else if t[i - 1] == "lladdr"@ {
        if i < t.len() {
            Some(normalize_mac_spec(t[i]))
        } else {
            None
        }
    } else {
        lladdr(t, i - 1)
    }
}

/// A line of `ip neigh show` that names an IPv4 neighbour with a usable MAC.
/// Entries in FAILED / INCOMPLETE state carry no `lladdr` and give nothing.
pub open spec fn neigh_entry(line: Seq<char>) -> Option<(u32, Seq<char>)> {
    let t = words(line);
    if t.len() == 0 {
        None
    } else {
        match parse_ipv4(t[0]) {
            None => None,
            Some(ip) => match lladdr(t, t.len() as int) {
                Some(m) => if meaningless_spec(m) {
                    None
                } else {
                    Some((ip, m))
                },
                None => None,
            },
        }
    }
}

pub open spec fn neigh_rows(ls: Seq<Seq<char>>) -> Seq<(u32, Seq<char>)>
    decreases ls.len(),
{
    if ls.len() == 0 {
        seq![]
    } else {
        match neigh_entry(ls.last()) {
            Some(e) => neigh_rows(ls.drop_last()).push(e),
            None => neigh_rows(ls.drop_last()),
        }
    }
}

fn neigh_of(line: &Vec<char>) -> (r: Option<Neighbor>)
    ensures
        match r {
            Some(n) => neigh_entry(line@) == Some((n.ip, n.mac@)),
            None => neigh_entry(line@) is None,
        },
{
    let t = words_of(line);
    if t.len() == 0 {
        return None;
    }
    assert(views(t@)[0] == t@[0]@);
    let ip = match parse_ipv4_chars(&t[0]) {
        Some(v) => v,
        None => {
            return None;
        },
    };
    let mut mac: Option<Vec<char>> = None;
    let mut i: usize = 0;
    while i < t.len()
        invariant
            i <= t@.len(),
            opt_chars(mac) == lladdr(views(t@), i as int),
        decreases t.len() - i,
    {
        assert(views(t@)[i as int] == t@[i as int]@);
        if is_text(&t[i], "lladdr") {
            if i + 1 < t.len() {
                assert(views(t@)[i + 1] == t@[i + 1]@);
                mac = Some(normalize_mac_chars(&t[i + 1]));
            } else {
                mac = None;
            }
        }
        i += 1;
    }
    match mac {
        Some(m) => {
            let text = string_of(&m);
            if is_meaningless_mac(text.as_str()) {
                None
            } else {
                Some(Neighbor { ip, mac: text })
            }
        },
        None => None,
    }
}

/// Reads `ip neigh show`, the kernel neighbour cache.
pub fn parse_ip_neigh(output: &str) -> (neighbors: Vec<Neighbor>)
    ensures
        neighbors_view(neighbors@) == neigh_rows(lines(output@)),
{
    let c = chars_of(output);
    let ls = lines_of(&c);
    let ghost lv = views(ls@);
    let mut out: Vec<Neighbor> = Vec::new();
    let mut i: usize = 0;
    while i < ls.len()
        invariant
            i <= ls@.len(),
            lv == views(ls@),
            neighbors_view(out@) == neigh_rows(lv.take(i as int)),
        decreases ls.len() - i,
    {
        proof {
            assert(lv.take(i + 1).drop_last() =~= lv.take(i as int));
            assert(lv.take(i + 1).last() == ls@[i as int]@);
        }
        match neigh_of(&ls[i]) {
            Some(n) => {
                let ghost before = out@;
                out.push(n);
                assert(neighbors_view(out@) =~= neighbors_view(before).push((n.ip, n.mac@)));
            },
            None => {},
        }
        i += 1;
    }
    assert(lv.take(ls@.len() as int) =~= lv);
    out
}

/// A route line is any non-blank line.
pub open spec fn route_row(line: Seq<char>) -> bool {
    trim(line).len() > 0
}

/// The route an `ip route show` line describes.
pub open spec fn route_of(line: Seq<char>, r: RouteInfo) -> bool {
    let tr = trim(line);
    let t = words(tr);
    &&& r.destination@ == (if t.len() > 0 { t[0] } else { Seq::<char>::empty() })
    &&& opt_text_view(r.via) == token_after(t, "via"@, 0)
    &&& r.dev@ == (match token_after(t, "dev"@, 0) {
        Some(d) => d,
        None => Seq::<char>::empty(),
    })
    &&& r.metric == (match token_after(t, "metric"@, 0) {
        Some(m) => match parse_unsigned(m, 10, 0xffff_ffff) {
            Some(v) => Some(v as u32),
            None => None,
        },
        None => None,
    })
    &&& r.raw@ == tr
}

pub open spec fn route_rows(ls: Seq<Seq<char>>) -> Seq<Seq<char>>
    decreases ls.len(),
{
    if ls.len() == 0 {
        ls
    } else if route_row(ls.last()) {
        route_rows(ls.drop_last()).push(ls.last())
    } else {
        route_rows(ls.drop_last())
    }
}

/// The first `default ... via GW` line from `i` on, as (gateway, device).
pub open spec fn default_route(ls: Seq<Seq<char>>, i: int) -> Option<(Seq<char>, Seq<char>)>
    decreases ls.len() - i,
{
    if i < 0 || i >= ls.len() {
        None
    } else {
        let t = words(trim(ls[i]));
        if t.len() > 0 && t[0] == "default"@ && token_after(t, "via"@, 0) is Some {
            Some(
                (
                    token_after(t, "via"@, 0).unwrap(),
                    match token_after(t, "dev"@, 0) {
                        Some(d) => d,
                        None => Seq::<char>::empty(),
                    },
                ),
            )
        } else {
            default_route(ls, i + 1)
        }
    }
}

fn route_line(line: &Vec<char>) -> (r: (RouteInfo, bool))
    requires
        route_row(line@),
    ensures
        route_of(line@, r.0),
        r.1 == ({
            let t = words(trim(line@));
            t.len() > 0 && t[0] == "default"@ && r.0.via is Some
        }),
{
    let tr = trimmed(line);
    let t = words_of(&tr);
    let dev = match word_after(&t, "dev") {
        Some(d) => string_of(&d),
        None => String::new(),
    };
    let via = match word_after(&t, "via") {
        Some(v) => Some(string_of(&v)),
        None => None,
    };
    let metric: Option<u32> = match word_after(&t, "metric") {
        Some(m) => match parse_unsigned_chars(&m, 0xffff_ffff) {
            Some(v) => Some(v as u32),
            None => None,
        },
        None => None,
    };
    let is_default = t.len() > 0 && is_text(&t[0], "default") && via.is_some();
    let destination = if t.len() > 0 {
        string_of(&t[0])
    } else {
        String::new()
    };
    proof {
        if t.len() > 0 {
            assert(views(t@)[0] == t@[0]@);
        }
    }
    (RouteInfo { destination, via, dev, metric, raw: string_of(&tr) }, is_default)
}

/// Reads `ip route show`: every route, and the gateway of the first default
/// route that names one.
pub fn parse_ip_route(output: &str) -> (r: (Option<Gateway>, Vec<RouteInfo>))
    ensures
        match r.0 {
            Some(g) => default_route(lines(output@), 0) == Some((g.ip@, g.dev@)),
            None => default_route(lines(output@), 0) is None,
        },
        r.1@.len() == route_rows(lines(output@)).len(),
        forall|k: int|
            0 <= k < r.1@.len() ==> route_of(route_rows(lines(output@))[k], #[trigger] r.1@[k]),
{
    let c = chars_of(output);
    let ls = lines_of(&c);
    let ghost lv = views(ls@);
    let mut routes: Vec<RouteInfo> = Vec::new();
    let mut gateway: Option<Gateway> = None;
    let mut i: usize = 0;
    while i < ls.len()
        invariant
            i <= ls@.len(),
            lv == views(ls@),
            routes@.len() == route_rows(lv.take(i as int)).len(),
            forall|k: int|
                0 <= k < routes@.len() ==> route_of(route_rows(lv.take(i as int))[k], #[trigger] routes@[k]),
            match gateway {
                Some(g) => default_route(lv, 0) == Some((g.ip@, g.dev@)),
                None => default_route(lv, 0) == default_route(lv, i as int),
            },
        decreases ls.len() - i,
    {
        proof {
            assert(lv.take(i + 1).drop_last() =~= lv.take(i as int));
            assert(lv.take(i + 1).last() == ls@[i as int]@);
            assert(lv[i as int] == ls@[i as int]@);
        }
        let tr = trimmed(&ls[i]);
        if tr.len() > 0 {
            let (route, is_default) = route_line(&ls[i]);
            if is_default && gateway.is_none() {
                match &route.via {
                    Some(v) => {
                        gateway = Some(Gateway { ip: copy_text(v), dev: copy_text(&route.dev) });
                    },
                    None => {},
                }
            }
            routes.push(route);
        }
        i += 1;
    }
    assert(lv.take(ls@.len() as int) =~= lv);
    (gateway, routes)
}

} // verus!
