//! macOS: the BSD networking tools and `system_profiler`.
use crate::netutil::{is_meaningless_mac, meaningless_spec, parse_ipv4, parse_ipv4_chars};
use crate::platform::{neighbors_view, Neighbor, ToolRef};
use crate::platform::linux::u32_or_zero;
use crate::scan::wifi::{copy_network, band_for_channel, band_of_channel, dbm_to_quality, opt_text_view, quality};
use crate::text::{
    begins, chars_of, contains, dec, dec_text, ends_with_chars, matches_at, digits_end, ends_with, finishes, find,
    find_chars, has, hex, indent_bytes, is_hex, is_text, join, join_chars, lead_bytes,
    leading_digits, lemma_views_push, lines, lines_of, lower_seq, lowercase, owned,
    parse_i32, parse_i32_chars, parse_unsigned_chars, push_str, slice_chars, split_char,
    split_on, split_once, split_once_chars, starts_with, string_of, strings_view, strip_prefix,
    trim, trim_end_matches, trim_end_matching, trimmed, upper_seq, uppercase, views, words,
    words_of,
};
use crate::types::{Gateway, RouteInfo, WifiNetwork};
use vstd::prelude::*;

verus! {

/* ------------------------------------------------------------------ tools */

pub fn arp_tool() -> (t: ToolRef)
    ensures
        t.command@ == "arp"@,
{
    ToolRef {
        command: "arp",
        remedy: "Part of the macOS base system \u{2014} if missing, the system install is damaged.",
    }
}

pub fn ping_tool() -> (t: ToolRef)
    ensures
        t.command@ == "ping"@,
{
    ToolRef {
        command: "ping",
        remedy: "Part of the macOS base system \u{2014} if missing, the system install is damaged.",
    }
}

pub fn trace_tool() -> (t: ToolRef)
    ensures
        t.command@ == "traceroute"@,
{
    ToolRef {
        command: "traceroute",
        remedy: "Part of the macOS base system. `brew install mtr` adds per-hop loss reporting.",
    }
}

pub fn wifi_tool() -> (t: ToolRef)
    ensures
        t.command@ == "system_profiler"@,
{
    ToolRef {
        command: "system_profiler",
        remedy: "Part of the macOS base system. Note that macOS 14+ requires Location Services permission for this app before Wi-Fi SSID and BSSID become visible.",
    }
}

/* ------------------------------------------------------------------- ping */

/// BSD `ping` takes `-W` in milliseconds, unlike Linux where it is seconds.
pub open spec fn ping_args_spec(ip: Seq<char>, count: u32, timeout_secs: u32) -> Seq<Seq<char>> {
    seq!["-c"@, dec(count as nat), "-W"@, dec((timeout_secs * 1000) as nat), "-n"@, "-q"@, ip]
}

pub fn ping_args(ip: &str, count: u32, timeout_secs: u32) -> (args: Vec<String>)
    requires
        timeout_secs * 1000 <= u32::MAX,
    ensures
        strings_view(args@) == ping_args_spec(ip@, count, timeout_secs),
{
    let mut args: Vec<String> = Vec::new();
    args.push(owned("-c"));
    args.push(dec_text(count as u64));
    args.push(owned("-W"));
    args.push(dec_text((timeout_secs * 1000) as u64));
    args.push(owned("-n"));
    args.push(owned("-q"));
    args.push(owned(ip));
    assert(strings_view(args@) =~= ping_args_spec(ip@, count, timeout_secs));
    args
}

/// BSD `ping` refuses the short intervals of a flood-style sweep without root.
pub fn ping_supports_flood() -> (b: bool)
    ensures
        !b,
{
    false
}

/* --------------------------------------------------------------- arp -an */

/// One BSD octet: one or two hex digits.
pub open spec fn bsd_octet_ok(p: Seq<char>) -> bool {
    &&& 1 <= p.len() <= 2
    &&& forall|k: int| 0 <= k < p.len() ==> is_hex(#[trigger] p[k])
}

/// An octet lowercased and zero-padded to two digits.
pub open spec fn bsd_octet(p: Seq<char>) -> Seq<char> {
    if p.len() == 1 {
        seq!['0'] + lower_seq(p)
    } else {
        lower_seq(p)
    }
}

/// BSD prints single-digit octets unpadded (`e0:63:da:8:1b:35`); padded and
/// lowercased they match the OUI table's keys. Anything that is not six
/// octets of one or two hex digits gives the empty string.
pub open spec fn normalize_bsd_spec(mac: Seq<char>) -> Seq<char> {
    let parts = split_char(mac, ':');
    if parts.len() == 6 && forall|k: int| 0 <= k < 6 ==> bsd_octet_ok(#[trigger] parts[k]) {
        join(Seq::new(6, |k: int| bsd_octet(parts[k])), ":"@)
    } else {
        Seq::<char>::empty()
    }
}

fn normalize_bsd_chars(mac: &[char]) -> (out: Vec<char>)
    ensures
        out@ == normalize_bsd_spec(mac@),
{
    let parts = split_on(mac, ':');
    if parts.len() != 6 {
        return Vec::new();
    }
    let mut padded: Vec<Vec<char>> = Vec::new();
    let mut i: usize = 0;
    while i < 6
        invariant
            i <= 6,
            parts@.len() == 6,
            views(parts@) == split_char(mac@, ':'),
            forall|k: int| 0 <= k < i ==> bsd_octet_ok(#[trigger] views(parts@)[k]),
            views(padded@) == Seq::new(i as nat, |k: int| bsd_octet(views(parts@)[k])),
        decreases 6 - i,
    {
        let p = &parts[i];
        assert(views(parts@)[i as int] == p@);
        if p.len() == 0 || p.len() > 2 {
            assert(!bsd_octet_ok(views(parts@)[i as int]));
            assert(!(forall|k: int| 0 <= k < 6 ==> bsd_octet_ok(#[trigger] split_char(mac@, ':')[k])));
            return Vec::new();
        }
        let mut j: usize = 0;
        while j < p.len()
            invariant
                j <= p@.len(),
                i < 6,
                parts@.len() == 6,
                views(parts@) == split_char(mac@, ':'),
                views(parts@)[i as int] == p@,
                forall|k: int| 0 <= k < j ==> is_hex(#[trigger] p@[k]),
            decreases p.len() - j,
        {
            if !hex(p[j]) {
                assert(!is_hex(p@[j as int]));
                assert(!bsd_octet_ok(views(parts@)[i as int]));
                assert(!(forall|k: int| 0 <= k < 6 ==> bsd_octet_ok(#[trigger] split_char(mac@, ':')[k])));
                return Vec::new();
            }
            j += 1;
        }
        let low = lowercase(p);
        let mut o: Vec<char> = Vec::new();
        if p.len() == 1 {
            o.push('0');
        }
        let mut q: usize = 0;
        while q < low.len()
            invariant
                q <= low@.len(),
                o@ == (if p@.len() == 1 { seq!['0'] } else { Seq::<char>::empty() }) + low@.take(
                    q as int,
                ),
            decreases low.len() - q,
        {
            o.push(low[q]);
            q += 1;
            assert(low@.take(q as int) =~= low@.take(q - 1).push(low@[q - 1]));
        }
        assert(low@.take(low@.len() as int) =~= low@);
        assert(o@ =~= bsd_octet(p@));
        let ghost before = padded@;
        proof {
            lemma_views_push(before, o);
        }
        padded.push(o);
        i += 1;
        assert(views(padded@) =~= Seq::new(i as nat, |k: int| bsd_octet(views(parts@)[k])));
    }
    let colon = chars_of(":");
    join_chars(&padded, &colon)
}

/// Zero-pads each octet so BSD's unpadded form matches the OUI table's keys.
pub fn normalize_bsd_mac(mac: &str) -> (s: String)
    ensures
        s@ == normalize_bsd_spec(mac@),
{
    let c = chars_of(mac);
    let o = normalize_bsd_chars(&c);
    string_of(&o)
}

/// A line of `arp -an`: `? (10.0.3.1) at e0:63:da:82:1b:35 on en0 ifscope [ethernet]`.
/// Incomplete entries, and addresses that normalise to nothing usable, give nothing.
pub open spec fn arp_an_entry(line: Seq<char>) -> Option<(u32, Seq<char>)> {
    match (find(line, "("@), find(line, ")"@)) {
        (Some(start), Some(end)) => if end <= start + 1 {
            None
        } else {
            match parse_ipv4(line.subrange(start + 1, end)) {
                None => None,
                Some(ip) => match find(line, " at "@) {
                    None => None,
                    Some(at) => {
                        let w = words(line.skip(at + 4));
                        let token = if w.len() > 0 { w[0] } else { Seq::<char>::empty() };
                        let m = normalize_bsd_spec(token);
                        if lower_seq(token) == "(incomplete)"@ || m.len() == 0 || meaningless_spec(m) {
                            None
                        } else {
                            Some((ip, m))
                        }
                    },
                },
            }
        },
        _ => None,
    }
}

pub open spec fn arp_an_rows(ls: Seq<Seq<char>>) -> Seq<(u32, Seq<char>)>
    decreases ls.len(),
{
    if ls.len() == 0 {
        seq![]
    } else {
        match arp_an_entry(ls.last()) {
            Some(e) => arp_an_rows(ls.drop_last()).push(e),
            None => arp_an_rows(ls.drop_last()),
        }
    }
}

fn arp_an_of(line: &Vec<char>) -> (r: Option<Neighbor>)
    ensures
        match r {
            Some(n) => arp_an_entry(line@) == Some((n.ip, n.mac@)),
            None => arp_an_entry(line@) is None,
        },
{
    let open = chars_of("(");
    let close = chars_of(")");
    let at = chars_of(" at ");
    let start = match find_chars(line, &open, 0) {
        Some(v) => v,
        None => {
            return None;
        },
    };
    let end = match find_chars(line, &close, 0) {
        Some(v) => v,
        None => {
            return None;
        },
    };
    proof {
        reveal_strlit("(");
        reveal_strlit(")");
        reveal_strlit(" at ");
        crate::text::lemma_find_from(line@, open@, 0);
        crate::text::lemma_find_from(line@, close@, 0);
        assert(open@.len() == 1);
        assert(matches_at(line@, open@, start as int));
        assert(start + 1 <= line@.len());
    }
    let n = line.len();
    assert(start + 1 <= n);
    if end <= start + 1 {
        return None;
    }
    let inner = slice_chars(line, start + 1, end);
    let ip = match parse_ipv4_chars(&inner) {
        Some(v) => v,
        None => {
            return None;
        },
    };
    let a = match find_chars(line, &at, 0) {
        Some(v) => v,
        None => {
            return None;
        },
    };
    proof {
        crate::text::lemma_find_from(line@, at@, 0);
        assert(at@.len() == 4);
    }
    assert(a + 4 <= n);
    let rest = slice_chars(line, a + 4, line.len());
    assert(rest@ =~= line@.skip(a + 4));
    let w = words_of(&rest);
    let token = if w.len() > 0 {
        assert(views(w@)[0] == w@[0]@);
        crate::text::copy_chars(&w[0])
    } else {
        Vec::new()
    };
    let low = lowercase(&token);
    if is_text(&low, "(incomplete)") {
        return None;
    }
    let m = normalize_bsd_chars(&token);
    if m.len() == 0 {
        return None;
    }
    let text = string_of(&m);
    if is_meaningless_mac(text.as_str()) {
        return None;
    }
    Some(Neighbor { ip, mac: text })
}

/// Reads `arp -an`.
pub fn parse_arp_an(output: &str) -> (neighbors: Vec<Neighbor>)
    ensures
        neighbors_view(neighbors@) == arp_an_rows(lines(output@)),
{
    let c = chars_of(output);
    let ls = lines_of(&c);
    let ghost lv = views(ls@);
    let mut out: Vec<Neighbor> = Vec::new();
    let mut i: usize = 0;
    while i < ls.len()
        invariant
            i <= ls@.len(),
            lv == views(ls@),
            neighbors_view(out@) == arp_an_rows(lv.take(i as int)),
        decreases ls.len() - i,
    {
        proof {
            assert(lv.take(i + 1).drop_last() =~= lv.take(i as int));
            assert(lv.take(i + 1).last() == ls@[i as int]@);
        }
        match arp_an_of(&ls[i]) {
            Some(n) => {
                let ghost before = out@;
                out.push(n);
                assert(neighbors_view(out@) =~= neighbors_view(before).push((n.ip, n.mac@)));
            },
            None => {},
        }
        i += 1;
    }
    assert(lv.take(ls@.len() as int) =~= lv);
    out
}

/* ---------------------------------------------------------- route / netstat */

/// The trimmed rest of the last of the first `n` lines that start, once
/// trimmed, with `key`.
pub open spec fn last_value(ls: Seq<Seq<char>>, n: int, key: Seq<char>) -> Option<Seq<char>>
    decreases n,
{
    if n <= 0 || n > ls.len() {
        None
    } else {
        match strip_prefix(trim(ls[n - 1]), key) {
            Some(rest) => Some(trim(rest)),
            None => last_value(ls, n - 1, key),
        }
    }
}

/// The gateway `route -n get default` reports: its `gateway:` line, with the
/// `interface:` line (or nothing) as the device.
pub open spec fn route_get_spec(ls: Seq<Seq<char>>) -> Option<(Seq<char>, Seq<char>)> {
    match last_value(ls, ls.len() as int, "gateway:"@) {
        Some(ip) => Some(
            (
                ip,
                match last_value(ls, ls.len() as int, "interface:"@) {
                    Some(d) => d,
                    None => Seq::<char>::empty(),
                },
            ),
        ),
        None => None,
    }
}

fn strip_key(line: &Vec<char>, key: &str) -> (r: Option<Vec<char>>)
    ensures
        crate::platform::opt_chars(r) == (match strip_prefix(trim(line@), key@) {
            Some(rest) => Some(trim(rest)),
            None => None,
        }),
{
    let t = trimmed(line);
    if begins(&t, key) {
        let k = chars_of(key);
        let rest = slice_chars(&t, k.len(), t.len());
        assert(rest@ =~= t@.skip(key@.len() as int));
        Some(trimmed(&rest))
    } else {
        None
    }
}

/// Reads `route -n get default`.
pub fn parse_route_get(output: &str) -> (g: Option<Gateway>)
    ensures
        match g {
            Some(g) => route_get_spec(lines(output@)) == Some((g.ip@, g.dev@)),
            None => route_get_spec(lines(output@)) is None,
        },
{
    let c = chars_of(output);
    let ls = lines_of(&c);
    let ghost lv = views(ls@);
    let mut ip: Option<Vec<char>> = None;
    let mut dev: Vec<char> = Vec::new();
    let mut has_dev = false;
    let mut i: usize = 0;
    while i < ls.len()
        invariant
            i <= ls@.len(),
            lv == views(ls@),
            crate::platform::opt_chars(ip) == last_value(lv, i as int, "gateway:"@),
            has_dev == last_value(lv, i as int, "interface:"@) is Some,
            has_dev ==> last_value(lv, i as int, "interface:"@) == Some(dev@),
        decreases ls.len() - i,
    {
        assert(lv[i as int] == ls@[i as int]@);
        match strip_key(&ls[i], "gateway:") {
            Some(v) => {
                ip = Some(v);
            },
            None => {},
        }
        match strip_key(&ls[i], "interface:") {
            Some(v) => {
                dev = v;
                has_dev = true;
            },
            None => {},
        }
        i += 1;
    }
    match ip {
        Some(v) => {
            let d = if has_dev {
                string_of(&dev)
            } else {
                String::new()
            };
            Some(Gateway { ip: string_of(&v), dev: d })
        },
        None => None,
    }
}

/// A `netstat -rn -f inet` row (after the first line) with at least four
/// columns that is not the header.
pub open spec fn netstat_row(line: Seq<char>) -> bool {
    let t = words(line);
    t.len() >= 4 && t[0] != "Destination"@
}

/// The route a `netstat` row describes: the gateway column counts only when
/// it is an address (it holds a dot), the device is the last column.
pub open spec fn netstat_route(line: Seq<char>, r: RouteInfo) -> bool {
    let t = words(line);
    &&& r.destination@ == t[0]
    &&& opt_text_view(r.via) == (if contains(t[1], "."@) { Some(t[1]) } else { None })
    &&& r.dev@ == t.last()
    &&& r.metric is None
    &&& r.raw@ == trim(line)
}

pub open spec fn netstat_rows(ls: Seq<Seq<char>>) -> Seq<Seq<char>>
    decreases ls.len(),
{
    if ls.len() == 0 {
        ls
    } else if netstat_row(ls.last()) {
        netstat_rows(ls.drop_last()).push(ls.last())
    } else {
        netstat_rows(ls.drop_last())
    }
}

/// All lines but the first.
pub open spec fn after_first(ls: Seq<Seq<char>>) -> Seq<Seq<char>> {
    if ls.len() == 0 {
        ls
    } else {
        ls.skip(1)
    }
}

/// Reads the routing table `netstat -rn -f inet` prints, skipping its first line.
pub fn parse_netstat_routes(output: &str) -> (routes: Vec<RouteInfo>)
    ensures
        routes@.len() == netstat_rows(after_first(lines(output@))).len(),
        forall|k: int|
            0 <= k < routes@.len() ==> netstat_route(
                netstat_rows(after_first(lines(output@)))[k],
                #[trigger] routes@[k],
            ),
{
    let c = chars_of(output);
    let ls = lines_of(&c);
    let ghost lv = after_first(views(ls@));
    let mut out: Vec<RouteInfo> = Vec::new();
    if ls.len() == 0 {
        assert(lv =~= Seq::<Seq<char>>::empty());
        return out;
    }
    let mut i: usize = 1;
    assert(lv.take(0) =~= Seq::<Seq<char>>::empty());
    while i < ls.len()
        invariant
            1 <= i <= ls@.len(),
            lv == views(ls@).skip(1),
            lv.len() == ls@.len() - 1,
            out@.len() == netstat_rows(lv.take(i - 1)).len(),
            forall|k: int| 0 <= k < out@.len() ==> netstat_route(netstat_rows(lv.take(i - 1))[k], #[trigger] out@[k]),
        decreases ls.len() - i,
    {
        proof {
            assert(lv.take(i as int).drop_last() =~= lv.take(i - 1));
            assert(lv.take(i as int).last() == ls@[i as int]@);
        }
        let t = words_of(&ls[i]);
        if t.len() >= 4 && !is_text(&t[0], "Destination") {
            proof {
                assert(views(t@)[0] == t@[0]@);
                assert(views(t@)[1] == t@[1]@);
                assert(views(t@).last() == t@[t@.len() - 1]@);
            }
            let via = if has(&t[1], ".") {
                Some(string_of(&t[1]))
            } else {
                None
            };
            let raw = trimmed(&ls[i]);
            out.push(
                RouteInfo {
                    destination: string_of(&t[0]),
                    via,
                    dev: string_of(&t[t.len() - 1]),
                    metric: None,
                    raw: string_of(&raw),
                },
            );
        } else {
            proof {
                if t.len() >= 4 {
                    assert(views(t@)[0] == t@[0]@);
                }
            }
        }
        i += 1;
    }
    assert(lv.take(ls@.len() - 1) =~= lv);
    out
}

/* -------------------------------------------------------- system_profiler */

/// A network as its fields' contents: SSID, BSSID, active, signal, channel,
/// band, rate, security.
pub type NetView = (Seq<char>, Option<Seq<char>>, bool, u8, u32, Seq<char>, Option<Seq<char>>, Option<Seq<char>>);

pub open spec fn net_view(n: WifiNetwork) -> NetView {
    (n.ssid@, opt_text_view(n.bssid), n.active, n.signal, n.channel, n.band@, opt_text_view(n.rate), opt_text_view(n.security))
}

pub open spec fn nets_view(v: Seq<WifiNetwork>) -> Seq<NetView> {
    Seq::new(v.len(), |i: int| net_view(v[i]))
}

pub open spec fn opt_net_view(o: Option<WifiNetwork>) -> Option<NetView> {
    match o {
        Some(n) => Some(net_view(n)),
        None => None,
    }
}

/// A freshly named network: nothing known yet but whether it is the current one.
pub open spec fn fresh_net(ssid: Seq<char>, active: bool) -> NetView {
    (ssid, None, active, 0, 0, "unknown"@, None, None)
}

/// The band a `Channel:` value names, e.g. `149 (5GHz, 80MHz)`; without a
/// band in the text, the channel number decides.
pub open spec fn channel_band(value: Seq<char>, channel: u32) -> Seq<char> {
    if contains(value, "6GHz"@) {
        "6 GHz"@
    } else if contains(value, "5GHz"@) {
        "5 GHz"@
    } else if contains(value, "2GHz"@) || contains(value, "2.4GHz"@) {
        "2.4 GHz"@
    } else {
        band_of_channel(channel)@
    }
}

/// One `Key: value` attribute line applied to the network being read.
pub open spec fn sp_attr(n: NetView, key: Seq<char>, value: Seq<char>) -> NetView {
    if key == "PHY Mode"@ {
        (n.0, n.1, n.2, n.3, n.4, n.5, Some(value), n.7)
    } else if key == "Channel"@ {
        let ch = u32_or_zero(leading_digits(value)) as u32;
        (n.0, n.1, n.2, n.3, ch, channel_band(value, ch), n.6, n.7)
    } else if key == "Signal / Noise"@ {
        let w = words(value);
        if w.len() > 0 && parse_i32(w[0]) is Some {
            (n.0, n.1, n.2, quality(parse_i32(w[0]).unwrap() as i32) as u8, n.4, n.5, n.6, n.7)
        } else {
            n
        }
    } else if key == "Security"@ {
        (n.0, n.1, n.2, n.3, n.4, n.5, n.6, Some(value))
    } else if key == "BSSID"@ {
        (n.0, Some(upper_seq(value)), n.2, n.3, n.4, n.5, n.6, n.7)
    } else if key == "Transmit Rate"@ {
        (n.0, n.1, n.2, n.3, n.4, n.5, Some(value + " Mbit/s"@), n.7)
    } else {
        n
    }
}

/// Section headers that are not networks.
pub open spec fn sp_skip_label(l: Seq<char>) -> bool {
    ||| l == "Software Versions"@
    ||| l == "Interfaces"@
    ||| l == "Wi-Fi"@
    ||| l == "Card Type"@
    ||| l == "Status"@
}

/// Networks read so far, the interface, the network being read, whether
/// the networks now being read are the current one, and the indentation
/// (in bytes) of the network being read.
pub type SpState = (Seq<NetView>, Option<Seq<char>>, Option<NetView>, bool, int);

pub open spec fn flush(nets: Seq<NetView>, cur: Option<NetView>) -> Seq<NetView> {
    match cur {
        Some(n) => nets.push(n),
        None => nets,
    }
}

/// One line of the indented `system_profiler SPAirPortDataType` report.
pub open spec fn sp_step(st: SpState, line: Seq<char>) -> SpState {
    let t = trim(line);
    if t.len() == 0 {
        st
    } else if starts_with(t, "en"@) && ends_with(t, ":"@) && st.1 is None {
        (st.0, Some(trim_end_matches(t, ":"@)), st.2, st.3, st.4)
    } else if t == "Current Network Information:"@ {
        (st.0, st.1, st.2, true, st.4)
    } else if t == "Other Local Wi-Fi Networks:"@ {
        (flush(st.0, st.2), st.1, None, false, st.4)
    } else if ends_with(t, ":"@) && !contains(t, ": "@) {
        let label = trim_end_matches(t, ":"@);
        if sp_skip_label(label) {
            st
        } else {
            (flush(st.0, st.2), st.1, Some(fresh_net(label, st.3)), st.3, lead_bytes(line))
        }
    } else {
        match st.2 {
            None => st,
            Some(n) => if lead_bytes(line) <= st.4 {
                st
            } else {
                match split_once(t, ": "@) {
                    None => st,
                    Some(kv) => (st.0, st.1, Some(sp_attr(n, trim(kv.0), trim(kv.1))), st.3, st.4),
                }
            },
        }
    }
}

pub open spec fn sp_run(ls: Seq<Seq<char>>, n: int) -> SpState
    decreases n,
{
    if n <= 0 || n > ls.len() {
        (seq![], None, None, false, 0)
    } else {
        sp_step(sp_run(ls, n - 1), ls[n - 1])
    }
}

/// The networks that have a name, in order.
pub open spec fn named(v: Seq<NetView>) -> Seq<NetView>
    decreases v.len(),
{
    if v.len() == 0 {
        v
    } else if v.last().0.len() > 0 {
        named(v.drop_last()).push(v.last())
    } else {
        named(v.drop_last())
    }
}

/// The interface and the named networks of a report.
pub open spec fn system_profiler_spec(ls: Seq<Seq<char>>) -> (Option<Seq<char>>, Seq<NetView>) {
    let st = sp_run(ls, ls.len() as int);
    (st.1, named(flush(st.0, st.2)))
}

fn apply_attr(n: WifiNetwork, key: &[char], value: &[char]) -> (r: WifiNetwork)
    ensures
        net_view(r) == sp_attr(net_view(n), key@, value@),
{
    let mut n = n;
    if is_text(key, "PHY Mode") {
        n.rate = Some(string_of(value));
    } else if is_text(key, "Channel") {
        let end = digits_end(value, 0);
        assert(value@.subrange(0, value@.len() as int) =~= value@);
        let digits = slice_chars(value, 0, end);
        let ch: u32 = match parse_unsigned_chars(&digits, 0xffff_ffff) {
            Some(v) => v as u32,
            None => 0,
        };
        let band = if has(value, "6GHz") {
            owned("6 GHz")
        } else if has(value, "5GHz") {
            owned("5 GHz")
        } else if has(value, "2GHz") || has(value, "2.4GHz") {
            owned("2.4 GHz")
        } else {
            owned(band_for_channel(ch))
        };
        n.channel = ch;
        n.band = band;
    } else if is_text(key, "Signal / Noise") {
        let w = words_of(value);
        if w.len() > 0 {
            assert(views(w@)[0] == w@[0]@);
            match parse_i32_chars(&w[0]) {
                Some(dbm) => {
                    n.signal = dbm_to_quality(dbm);
                },
                None => {},
            }
        }
    } else if is_text(key, "Security") {
        n.security = Some(string_of(value));
    } else if is_text(key, "BSSID") {
        let up = uppercase(value);
        n.bssid = Some(string_of(&up));
    } else if is_text(key, "Transmit Rate") {
        let mut r = string_of(value);
        push_str(&mut r, " Mbit/s");
        n.rate = Some(r);
    }
    n
}

fn is_skip_label(l: &[char]) -> (b: bool)
    ensures
        b == sp_skip_label(l@),
{
    is_text(l, "Software Versions") || is_text(l, "Interfaces") || is_text(l, "Wi-Fi")
        || is_text(l, "Card Type") || is_text(l, "Status")
}

/// Reads the indented `system_profiler SPAirPortDataType` report: the Wi-Fi
/// interface, and each named network with the attributes listed under it.
pub fn parse_system_profiler(output: &str) -> (r: (Option<String>, Vec<WifiNetwork>))
    ensures
        opt_text_view(r.0) == system_profiler_spec(lines(output@)).0,
        nets_view(r.1@) == system_profiler_spec(lines(output@)).1,
{
    let c = chars_of(output);
    let ls = lines_of(&c);
    let ghost lv = views(ls@);
    let mut networks: Vec<WifiNetwork> = Vec::new();
    let mut interface: Option<String> = None;
    let mut current: Option<WifiNetwork> = None;
    let mut in_current = false;
    let mut name_indent: u128 = 0;
    let colon = chars_of(":");
    let mut i: usize = 0;
    while i < ls.len()
        invariant
            i <= ls@.len(),
            lv == views(ls@),
            colon@ == ":"@,
            (nets_view(networks@), opt_text_view(interface), opt_net_view(current), in_current, name_indent as int)
                == sp_run(lv, i as int),
        decreases ls.len() - i,
    {
        let line = &ls[i];
        assert(lv[i as int] == line@);
        let ghost st = sp_run(lv, i as int);
        let t = trimmed(line);
        i += 1;
        if t.len() == 0 {
            continue;
        }
        if begins(&t, "en") && ends_with_chars(&t, &colon) && interface.is_none() {
            let name = trim_end_matching(&t, &colon);
            interface = Some(string_of(&name));
            continue;
        }
        if is_text(&t, "Current Network Information:") {
            in_current = true;
            continue;
        }
        if is_text(&t, "Other Local Wi-Fi Networks:") {
            match current {
                Some(n) => {
                    let ghost before = networks@;
                    networks.push(n);
                    assert(nets_view(networks@) =~= nets_view(before).push(net_view(n)));
                },
                None => {},
            }
            current = None;
            in_current = false;
            continue;
        }
        let spaced = has(&t, ": ");
        if ends_with_chars(&t, &colon) && !spaced {
            let label = trim_end_matching(&t, &colon);
            if is_skip_label(&label) {
                continue;
            }
            match current {
                Some(n) => {
                    let ghost before = networks@;
                    networks.push(n);
                    assert(nets_view(networks@) =~= nets_view(before).push(net_view(n)));
                },
                None => {},
            }
            name_indent = indent_bytes(line);
            current = Some(
                WifiNetwork {
                    ssid: string_of(&label),
                    bssid: None,
                    active: in_current,
                    signal: 0,
                    channel: 0,
                    band: owned("unknown"),
                    rate: None,
                    security: None,
                },
            );
            continue;
        }
        if current.is_none() {
            continue;
        }
        let indent = indent_bytes(line);
        if indent <= name_indent {
            continue;
        }
        let sep = chars_of(": ");
        match split_once_chars(&t, &sep) {
            Some((k, v)) => {
                let key = trimmed(&k);
                let value = trimmed(&v);
                current = match current {
                    Some(n) => Some(apply_attr(n, &key, &value)),
                    None => None,
                };
            },
            None => {},
        }
    }
    match current {
        Some(n) => {
            let ghost before = networks@;
            networks.push(n);
            assert(nets_view(networks@) =~= nets_view(before).push(net_view(n)));
        },
        None => {},
    }
    let ghost all = nets_view(networks@);
    let mut kept: Vec<WifiNetwork> = Vec::new();
    let mut j: usize = 0;
    while j < networks.len()
        invariant
            j <= networks@.len(),
            all == nets_view(networks@),
            nets_view(kept@) == named(all.take(j as int)),
        decreases networks.len() - j,
    {
        proof {
            assert(all.take(j + 1).drop_last() =~= all.take(j as int));
            assert(all.take(j + 1).last() == net_view(networks@[j as int]));
        }
        let ghost nv = net_view(networks@[j as int]);
        let name = chars_of(networks[j].ssid.as_str());
        if name.len() > 0 {
            let copy = copy_network(&networks[j]);
            let ghost before = kept@;
            kept.push(copy);
            assert(nets_view(kept@) =~= nets_view(before).push(nv));
        }
        j += 1;
    }
    assert(all.take(networks@.len() as int) =~= all);
    (interface, kept)
}

} // verus!
