//! Wi-Fi analysis shared by all three platform backends.
//!
//! Each OS gathers the raw network list differently; everything after that —
//! band classification, channel occupancy, the congestion recommendation — is
//! identical and lives here.
use crate::text::{
    chars_of, dec, lemma_text_less_total, lemma_text_less_trans, less_text, owned, push_dec,
    push_str, str_eq, text_less,
};
use crate::types::{ChannelUsage, WifiInfo, WifiNetwork};
use vstd::prelude::*;

verus! {

pub open spec fn band_of_frequency(mhz: u32) -> &'static str {
    if 2400 <= mhz <= 2499 {
        "2.4 GHz"
    } else if 4900 <= mhz <= 5924 {
        "5 GHz"
    } else if 5925 <= mhz <= 7125 {
        "6 GHz"
    } else {
        "unknown"
    }
}

pub fn band_for_frequency(mhz: u32) -> (b: &'static str)
    ensures
        b == band_of_frequency(mhz),
{
    if 2400 <= mhz && mhz <= 2499 {
        "2.4 GHz"
    } else if 4900 <= mhz && mhz <= 5924 {
        "5 GHz"
    } else if 5925 <= mhz && mhz <= 7125 {
        "6 GHz"
    } else {
        "unknown"
    }
}

/// 6 GHz channels overlap 5 GHz numbering; without a frequency the best that
/// can be said is "unknown" rather than guessing wrong.
pub open spec fn band_of_channel(channel: u32) -> &'static str {
    if 1 <= channel <= 14 {
        "2.4 GHz"
    } else if 32 <= channel <= 177 {
        "5 GHz"
    } else {
        "unknown"
    }
}

/// Falls back to channel numbering where a driver reports no frequency.
pub fn band_for_channel(channel: u32) -> (b: &'static str)
    ensures
        b == band_of_channel(channel),
{
    if 1 <= channel && channel <= 14 {
        "2.4 GHz"
    } else if 32 <= channel && channel <= 177 {
        "5 GHz"
    } else {
        "unknown"
    }
}

pub open spec fn quality(dbm: i32) -> int {
    if dbm <= -100 {
        0
    } else if dbm >= -50 {
        100
    } else {
        2 * (dbm + 100)
    }
}

/// Converts dBm to the 0-100 quality figure the other platforms report, using
/// the same mapping NetworkManager applies so numbers are comparable across OSes.
pub fn dbm_to_quality(dbm: i32) -> (q: u8)
    ensures
        q == quality(dbm),
{
    if dbm <= -100 {
        0
    } else if dbm >= -50 {
        100
    } else {
        (2 * (dbm + 100)) as u8
    }
}

/// 2.4 GHz channels overlap: a network on channel 6 is interfered with by
/// anything on 4-8. 5/6 GHz channels do not overlap, so only exact matches count.
pub open spec fn overlap(a_channel: u32, a_band: Seq<char>, b_channel: u32, b_band: Seq<char>) -> bool {
    a_band == b_band && if a_band == "2.4 GHz"@ {
        (if a_channel >= b_channel {
            a_channel - b_channel
        } else {
            b_channel - a_channel
        }) < 5
    } else {
        a_channel == b_channel
    }
}

pub fn overlaps(a_channel: u32, a_band: &str, b_channel: u32, b_band: &str) -> (b: bool)
    ensures
        b == overlap(a_channel, a_band@, b_channel, b_band@),
{
    if !str_eq(a_band, b_band) {
        return false;
    }
    if str_eq(a_band, "2.4 GHz") {
        let d = if a_channel >= b_channel {
            a_channel - b_channel
        } else {
            b_channel - a_channel
        };
        return d < 5;
    }
    a_channel == b_channel
}

/* ------------------------------------------------------------------ ordering */

/// The first position in `l` holding a weaker signal than `signal`.
pub open spec fn first_weaker(l: Seq<WifiNetwork>, signal: u8, i: int) -> int
    decreases l.len() - i,
{
    if i < 0 || i >= l.len() {
        l.len() as int
    } else if l[i].signal < signal {
        i
    } else {
        first_weaker(l, signal, i + 1)
    }
}

/// Strongest signal first; networks with equal signal keep their order.
pub open spec fn by_signal(s: Seq<WifiNetwork>) -> Seq<WifiNetwork>
    decreases s.len(),
{
    if s.len() == 0 {
        seq![]
    } else {
        let l = by_signal(s.drop_last());
        l.insert(first_weaker(l, s.last().signal, 0), s.last())
    }
}

proof fn lemma_first_weaker_range(l: Seq<WifiNetwork>, signal: u8, i: int)
    requires
        0 <= i <= l.len(),
    ensures
        i <= first_weaker(l, signal, i) <= l.len(),
    decreases l.len() - i,
{
    if i < l.len() {
        lemma_first_weaker_range(l, signal, i + 1);
    }
}

proof fn lemma_by_signal_len(s: Seq<WifiNetwork>)
    ensures
        by_signal(s).len() == s.len(),
    decreases s.len(),
{
    if s.len() > 0 {
        lemma_by_signal_len(s.drop_last());
        lemma_first_weaker_range(by_signal(s.drop_last()), s.last().signal, 0);
    }
}

fn sort_by_signal(networks: Vec<WifiNetwork>) -> (out: Vec<WifiNetwork>)
    ensures
        out@ == by_signal(networks@),
{
    let mut out: Vec<WifiNetwork> = Vec::new();
    let mut rest = networks;
    let total = rest.len();
    let ghost orig = rest@;
    let mut i: usize = 0;
    while rest.len() > 0
        invariant
            i <= orig.len(),
            orig.len() <= usize::MAX,
            rest@.len() == orig.len() - i,
            rest@ == orig.skip(i as int),
            out@ == by_signal(orig.take(i as int)),
        decreases rest.len(),
    {
        let item = rest.remove(0);
        proof {
            assert(orig.take(i + 1).drop_last() =~= orig.take(i as int));
            assert(orig.take(i + 1).last() == item);
            lemma_by_signal_len(orig.take(i as int));
        }
        let mut j: usize = 0;
        while j < out.len() && out[j].signal >= item.signal
            invariant
                j <= out@.len(),
                first_weaker(out@, item.signal, 0) == first_weaker(out@, item.signal, j as int),
            decreases out.len() - j,
        {
            j += 1;
        }
        out.insert(j, item);
        proof {
            assert(rest@ =~= orig.skip(i + 1));
        }
        i += 1;
    }
    assert(orig.take(orig.len() as int) =~= orig);
    out
}

/// The first connected network.
pub open spec fn first_active(l: Seq<WifiNetwork>, i: int) -> Option<WifiNetwork>
    decreases l.len() - i,
{
    if i < 0 || i >= l.len() {
        None
    } else if l[i].active {
        Some(l[i])
    } else {
        first_active(l, i + 1)
    }
}

fn copy_text(s: &Option<String>) -> (r: Option<String>)
    ensures
        r == *s,
{
    match s {
        Some(t) => Some(t.clone()),
        None => None,
    }
}

pub fn copy_network(n: &WifiNetwork) -> (r: WifiNetwork)
    ensures
        r == *n,
{
    WifiNetwork {
        ssid: n.ssid.clone(),
        bssid: copy_text(&n.bssid),
        active: n.active,
        signal: n.signal,
        channel: n.channel,
        band: n.band.clone(),
        rate: copy_text(&n.rate),
        security: copy_text(&n.security),
    }
}

/* ------------------------------------------------------------- channel usage */

/// Whether the band is one the congestion chart counts.
pub open spec fn known_band(n: WifiNetwork) -> bool {
    n.band@ != "unknown"@
}

/// Band, then channel — the order the congestion chart lists them in.
pub open spec fn key_less(a_band: Seq<char>, a_channel: u32, b_band: Seq<char>, b_channel: u32) -> bool {
    text_less(a_band, b_band) || (a_band == b_band && a_channel < b_channel)
}

/// How many of the first `n` networks sit on this band and channel.
pub open spec fn on_channel(l: Seq<WifiNetwork>, n: int, band: Seq<char>, channel: u32) -> int
    decreases n,
{
    if n <= 0 {
        0
    } else {
        on_channel(l, n - 1, band, channel) + if known_band(l[n - 1]) && l[n - 1].band@ == band
            && l[n - 1].channel == channel {
            1int
        } else {
            0int
        }
    }
}

pub open spec fn usage_sorted(u: Seq<ChannelUsage>) -> bool {
    forall|a: int, b: int|
        0 <= a < b < u.len() ==> key_less(u[a].band@, u[a].channel, u[b].band@, u[b].channel)
}

/// Whether one of the first `n` networks sits on this known band and channel.
pub open spec fn seen_on(l: Seq<WifiNetwork>, n: int, band: Seq<char>, channel: u32) -> bool {
    exists|j: int| 0 <= j < n && known_band(l[j]) && l[j].band@ == band && l[j].channel == channel
}

/// Whether the chart lists this band and channel.
pub open spec fn listed(u: Seq<ChannelUsage>, band: Seq<char>, channel: u32) -> bool {
    exists|a: int| 0 <= a < u.len() && u[a].band@ == band && u[a].channel == channel
}

/// Some network sits on each listed band and channel.
pub open spec fn usage_witnessed(u: Seq<ChannelUsage>, l: Seq<WifiNetwork>, n: int) -> bool {
    forall|a: int| 0 <= a < u.len() ==> seen_on(l, n, (#[trigger] u[a]).band@, u[a].channel)
}

/// Each network of a known band is listed.
pub open spec fn usage_covers(u: Seq<ChannelUsage>, l: Seq<WifiNetwork>, n: int) -> bool {
    forall|j: int| 0 <= j < n && known_band(#[trigger] l[j]) ==> listed(u, l[j].band@, l[j].channel)
}

pub open spec fn usage_counts(u: Seq<ChannelUsage>, l: Seq<WifiNetwork>, n: int) -> bool {
    forall|a: int| 0 <= a < u.len() ==> (#[trigger] u[a]).count == on_channel(l, n, u[a].band@, u[a].channel)
}

pub open spec fn usage_current(u: Seq<ChannelUsage>, current: Option<WifiNetwork>) -> bool {
    forall|a: int|
        0 <= a < u.len() ==> (#[trigger] u[a]).is_current == (current matches Some(c) && c.channel
            == u[a].channel && c.band@ == u[a].band@)
}

/// The chart lists every occupied band and channel once, in order, with its
/// count and whether it is the connected network's.
#[verifier::opaque]
pub open spec fn usage_ok(u: Seq<ChannelUsage>, l: Seq<WifiNetwork>, n: int, current: Option<WifiNetwork>) -> bool {
    &&& usage_sorted(u)
    &&& usage_witnessed(u, l, n)
    &&& usage_covers(u, l, n)
    &&& usage_counts(u, l, n)
    &&& usage_current(u, current)
}

proof fn lemma_key_total(ab: Seq<char>, ac: u32, bb: Seq<char>, bc: u32)
    ensures
        !(key_less(ab, ac, bb, bc) && key_less(bb, bc, ab, ac)),
        !(ab == bb && ac == bc) ==> key_less(ab, ac, bb, bc) || key_less(bb, bc, ab, ac),
        !key_less(ab, ac, ab, ac),
{
    lemma_text_less_total(ab, bb);
    lemma_text_less_total(ab, ab);
}

proof fn lemma_key_trans(ab: Seq<char>, ac: u32, bb: Seq<char>, bc: u32, cb: Seq<char>, cc: u32)
    requires
        key_less(ab, ac, bb, bc),
        key_less(bb, bc, cb, cc),
    ensures
        key_less(ab, ac, cb, cc),
{
    if text_less(ab, bb) && text_less(bb, cb) {
        lemma_text_less_trans(ab, bb, cb);
    }
}

fn is_current_key(current: &Option<WifiNetwork>, band: &String, channel: u32) -> (b: bool)
    ensures
        b == (*current matches Some(c) && c.channel == channel && c.band@ == band@),
{
    match current {
        Some(c) => c.channel == channel && str_eq(c.band.as_str(), band.as_str()),
        None => false,
    }
}

/// Counting one more network changes only the count for its own band and channel.
proof fn lemma_on_channel_step(l: Seq<WifiNetwork>, i: int, band: Seq<char>, channel: u32)
    requires
        0 <= i < l.len(),
    ensures
        on_channel(l, i + 1, band, channel) == on_channel(l, i, band, channel) + if known_band(l[i])
            && l[i].band@ == band && l[i].channel == channel {
            1int
        } else {
            0int
        },
{
}

/// A band and channel no earlier network has counts nothing.
proof fn lemma_on_channel_zero(l: Seq<WifiNetwork>, n: int, band: Seq<char>, channel: u32)
    requires
        0 <= n <= l.len(),
        forall|j: int| 0 <= j < n && known_band(#[trigger] l[j]) ==> !(l[j].band@ == band && l[j].channel == channel),
    ensures
        on_channel(l, n, band, channel) == 0,
    decreases n,
{
    if n > 0 {
        lemma_on_channel_zero(l, n - 1, band, channel);
    }
}

proof fn lemma_seen_grows(l: Seq<WifiNetwork>, n: int, band: Seq<char>, channel: u32)
    requires
        seen_on(l, n, band, channel),
    ensures
        seen_on(l, n + 1, band, channel),
{
    let j = choose|j: int| 0 <= j < n && known_band(l[j]) && l[j].band@ == band && l[j].channel == channel;
    assert(0 <= j < n + 1 && known_band(l[j]) && l[j].band@ == band && l[j].channel == channel);
}

proof fn lemma_usage_unknown(u: Seq<ChannelUsage>, l: Seq<WifiNetwork>, i: int, current: Option<WifiNetwork>)
    requires
        0 <= i < l.len(),
        usage_ok(u, l, i, current),
        !known_band(l[i]),
    ensures
        usage_ok(u, l, i + 1, current),
{
    reveal(usage_ok);
    assert forall|a: int| 0 <= a < u.len() implies (#[trigger] u[a]).count == on_channel(l, i + 1, u[a].band@, u[a].channel) by {
        lemma_on_channel_step(l, i, u[a].band@, u[a].channel);
    }
    assert forall|a: int| 0 <= a < u.len() implies seen_on(l, i + 1, (#[trigger] u[a]).band@, u[a].channel) by {
        lemma_seen_grows(l, i, u[a].band@, u[a].channel);
    }
}

proof fn lemma_usage_bump(
    before: Seq<ChannelUsage>,
    u: Seq<ChannelUsage>,
    l: Seq<WifiNetwork>,
    i: int,
    j: int,
    current: Option<WifiNetwork>,
)
    requires
        0 <= i < l.len(),
        usage_ok(before, l, i, current),
        known_band(l[i]),
        0 <= j < before.len(),
        before[j].band@ == l[i].band@ && before[j].channel == l[i].channel,
        u == before.update(j, ChannelUsage { count: (before[j].count + 1) as u32, ..before[j] }),
        before[j].count + 1 <= u32::MAX,
        forall|a: int| 0 <= a < before.len() && a != j ==> !((#[trigger] before[a]).band@ == l[i].band@ && before[a].channel == l[i].channel),
    ensures
        usage_ok(u, l, i + 1, current),
{
    reveal(usage_ok);
    assert forall|a: int| 0 <= a < u.len() implies u[a].band == before[a].band && u[a].channel == before[a].channel
        && u[a].is_current == before[a].is_current by {}
    assert(usage_sorted(u));
    assert(usage_current(u, current));
    assert forall|a: int| 0 <= a < u.len() implies (#[trigger] u[a]).count == on_channel(l, i + 1, u[a].band@, u[a].channel) by {
        lemma_on_channel_step(l, i, u[a].band@, u[a].channel);
    }
    assert forall|a: int| 0 <= a < u.len() implies seen_on(l, i + 1, (#[trigger] u[a]).band@, u[a].channel) by {
        lemma_seen_grows(l, i, before[a].band@, before[a].channel);
    }
    assert forall|k: int| 0 <= k < i + 1 && known_band(#[trigger] l[k]) implies listed(u, l[k].band@, l[k].channel) by {
        if k < i {
            assert(listed(before, l[k].band@, l[k].channel));
            let a = choose|a: int| 0 <= a < before.len() && before[a].band@ == l[k].band@ && before[a].channel == l[k].channel;
            assert(u[a].band@ == l[k].band@ && u[a].channel == l[k].channel);
        } else {
            assert(u[j].band@ == l[k].band@ && u[j].channel == l[k].channel);
        }
    }
}

#[verifier::rlimit(30)]
proof fn lemma_insert_sorted(before: Seq<ChannelUsage>, u: Seq<ChannelUsage>, j: int, nb: Seq<char>, nc: u32)
    requires
        usage_sorted(before),
        0 <= j <= before.len(),
        u == before.insert(j, u[j]),
        u[j].band@ == nb && u[j].channel == nc,
        forall|a: int| 0 <= a < j ==> key_less((#[trigger] before[a]).band@, before[a].channel, nb, nc),
        j < before.len() ==> !key_less(before[j].band@, before[j].channel, nb, nc),
        j < before.len() ==> !(before[j].band@ == nb && before[j].channel == nc),
    ensures
        usage_sorted(u),
        forall|a: int| 0 <= a < before.len() ==> !((#[trigger] before[a]).band@ == nb && before[a].channel == nc),
{
    if j < before.len() {
        lemma_key_total(before[j].band@, before[j].channel, nb, nc);
    }
    assert forall|a: int| 0 <= a < before.len() implies !(before[a].band@ == nb && before[a].channel == nc) by {
        if a < j {
            lemma_key_total(before[a].band@, before[a].channel, nb, nc);
        } else if a > j {
            lemma_key_trans(nb, nc, before[j].band@, before[j].channel, before[a].band@, before[a].channel);
            lemma_key_total(nb, nc, before[a].band@, before[a].channel);
        }
    }
    assert(usage_sorted(u)) by {
        assert forall|a: int, b: int| 0 <= a < b < u.len() implies key_less(u[a].band@, u[a].channel, u[b].band@, u[b].channel) by {
            if b < j {
                assert(u[a] == before[a] && u[b] == before[b]);
            } else if b == j {
                assert(u[a] == before[a]);
            } else if a < j {
                assert(u[a] == before[a] && u[b] == before[b - 1]);
                lemma_key_trans(u[a].band@, u[a].channel, nb, nc, before[j].band@, before[j].channel);
                if b - 1 > j {
                    lemma_key_trans(u[a].band@, u[a].channel, before[j].band@, before[j].channel, before[b - 1].band@, before[b - 1].channel);
                }
            } else if a == j {
                assert(u[b] == before[b - 1]);
                if b - 1 > j {
                    lemma_key_trans(nb, nc, before[j].band@, before[j].channel, before[b - 1].band@, before[b - 1].channel);
                }
            } else {
                assert(u[a] == before[a - 1] && u[b] == before[b - 1]);
            }
        }
    }
}

proof fn lemma_usage_insert(
    before: Seq<ChannelUsage>,
    u: Seq<ChannelUsage>,
    l: Seq<WifiNetwork>,
    i: int,
    j: int,
    current: Option<WifiNetwork>,
)
    requires
        0 <= i < l.len(),
        usage_ok(before, l, i, current),
        known_band(l[i]),
        0 <= j <= before.len(),
        u == before.insert(j, u[j]),
        u[j].band@ == l[i].band@ && u[j].channel == l[i].channel && u[j].count == 1,
        u[j].is_current == (current matches Some(c) && c.channel == u[j].channel && c.band@ == u[j].band@),
        forall|a: int| 0 <= a < j ==> key_less((#[trigger] before[a]).band@, before[a].channel, l[i].band@, l[i].channel),
        j < before.len() ==> !key_less(before[j].band@, before[j].channel, l[i].band@, l[i].channel),
        j < before.len() ==> !(before[j].band@ == l[i].band@ && before[j].channel == l[i].channel),
    ensures
        usage_ok(u, l, i + 1, current),
{
    reveal(usage_ok);
    let nb = l[i].band@;
    let nc = l[i].channel;
    lemma_insert_sorted(before, u, j, nb, nc);
    assert forall|k: int| 0 <= k < i && known_band(#[trigger] l[k]) implies !(l[k].band@ == nb && l[k].channel == nc) by {
        assert(listed(before, l[k].band@, l[k].channel));
        let a = choose|a: int| 0 <= a < before.len() && before[a].band@ == l[k].band@ && before[a].channel == l[k].channel;
        assert(!(before[a].band@ == nb && before[a].channel == nc));
    }
    lemma_on_channel_zero(l, i, nb, nc);
    assert forall|a: int| 0 <= a < u.len() implies (#[trigger] u[a]).count == on_channel(l, i + 1, u[a].band@, u[a].channel) by {
        lemma_on_channel_step(l, i, u[a].band@, u[a].channel);
        if a < j {
            assert(u[a] == before[a]);
        } else if a > j {
            assert(u[a] == before[a - 1]);
        }
    }
    assert forall|a: int| 0 <= a < u.len() implies seen_on(l, i + 1, (#[trigger] u[a]).band@, u[a].channel) by {
        if a < j {
            assert(u[a] == before[a]);
            lemma_seen_grows(l, i, before[a].band@, before[a].channel);
        } else if a > j {
            assert(u[a] == before[a - 1]);
            lemma_seen_grows(l, i, before[a - 1].band@, before[a - 1].channel);
        } else {
            assert(0 <= i < i + 1 && known_band(l[i]) && l[i].band@ == u[a].band@ && l[i].channel == u[a].channel);
        }
    }
    assert forall|k: int| 0 <= k < i + 1 && known_band(#[trigger] l[k]) implies listed(u, l[k].band@, l[k].channel) by {
        if k < i {
            assert(listed(before, l[k].band@, l[k].channel));
            let a = choose|a: int| 0 <= a < before.len() && before[a].band@ == l[k].band@ && before[a].channel == l[k].channel;
            if a < j {
                assert(u[a] == before[a]);
            } else {
                assert(u[a + 1] == before[a]);
            }
        } else {
            assert(u[j].band@ == l[k].band@ && u[j].channel == l[k].channel);
        }
    }
    assert forall|a: int| 0 <= a < u.len() implies (#[trigger] u[a]).is_current == (current matches Some(c) && c.channel == u[a].channel && c.band@ == u[a].band@) by {
        if a < j {
            assert(u[a] == before[a]);
        } else if a > j {
            assert(u[a] == before[a - 1]);
        }
    }
}

fn same_key(u: &ChannelUsage, n: &WifiNetwork) -> (b: bool)
    ensures
        b == (u.band@ == n.band@ && u.channel == n.channel),
{
    str_eq(u.band.as_str(), n.band.as_str()) && u.channel == n.channel
}

fn before_key(u: &ChannelUsage, n: &WifiNetwork) -> (b: bool)
    ensures
        b == key_less(u.band@, u.channel, n.band@, n.channel),
{
    less_text(u.band.as_str(), n.band.as_str()) || (str_eq(u.band.as_str(), n.band.as_str()) && u.channel < n.channel)
}

proof fn lemma_usage_empty(l: Seq<WifiNetwork>, current: Option<WifiNetwork>)
    ensures
        usage_ok(seq![], l, 0, current),
{
    reveal(usage_ok);
}

/// Facts about a chart the loop needs without unfolding it.
proof fn lemma_usage_facts(u: Seq<ChannelUsage>, l: Seq<WifiNetwork>, i: int, current: Option<WifiNetwork>)
    requires
        usage_ok(u, l, i, current),
        0 <= i <= l.len(),
    ensures
        forall|a: int, b: int| 0 <= a < b < u.len() ==> key_less(u[a].band@, u[a].channel, u[b].band@, u[b].channel),
{
    reveal(usage_ok);
}

fn channel_usage(l: &Vec<WifiNetwork>, current: &Option<WifiNetwork>) -> (u: Vec<ChannelUsage>)
    requires
        l@.len() <= u32::MAX,
    ensures
        usage_ok(u@, l@, l@.len() as int, *current),
{
    let mut u: Vec<ChannelUsage> = Vec::new();
    proof {
        lemma_usage_empty(l@, *current);
    }
    let mut i: usize = 0;
    while i < l.len()
        invariant
            i <= l@.len(),
            l@.len() <= u32::MAX,
            usage_ok(u@, l@, i as int, *current),
            forall|a: int| 0 <= a < u@.len() ==> (#[trigger] u@[a]).count <= i,
        decreases l.len() - i,
    {
        let n = &l[i];
        let ghost before = u@;
        proof {
            lemma_usage_facts(before, l@, i as int, *current);
        }
        if !str_eq(n.band.as_str(), "unknown") {
            let mut j: usize = 0;
            while j < u.len() && before_key(&u[j], n)
                invariant
                    j <= u@.len(),
                    forall|a: int| 0 <= a < j ==> key_less((#[trigger] u@[a]).band@, u@[a].channel, n.band@, n.channel),
                decreases u.len() - j,
            {
                j += 1;
            }
            if j < u.len() && same_key(&u[j], n) {
                assert(u@[j as int].count <= i);
                proof {
                    assert forall|a: int| 0 <= a < before.len() && a != j implies !(before[a].band@ == n.band@ && before[a].channel == n.channel) by {
                        if a < j {
                            lemma_key_total(before[a].band@, before[a].channel, n.band@, n.channel);
                        } else {
                            lemma_key_total(before[j as int].band@, before[j as int].channel, before[a].band@, before[a].channel);
                        }
                    }
                }
                u[j].count = u[j].count + 1;
                proof {
                    assert(u@ =~= before.update(j as int, ChannelUsage { count: (before[j as int].count + 1) as u32, ..before[j as int] }));
                    lemma_usage_bump(before, u@, l@, i as int, j as int, *current);
                }
            } else {
                let entry = ChannelUsage {
                    channel: n.channel,
                    band: n.band.clone(),
                    count: 1,
                    is_current: is_current_key(current, &n.band, n.channel),
                };
                u.insert(j, entry);
                proof {
                    lemma_usage_insert(before, u@, l@, i as int, j as int, *current);
                }
            }
        } else {
            proof {
                lemma_usage_unknown(u@, l@, i as int, *current);
            }
        }
        i += 1;
    }
    u
}

/* ------------------------------------------------------------ recommendation */

/// How many of the first `n` networks overlap `channel` in `band`.
pub open spec fn load(l: Seq<WifiNetwork>, n: int, band: Seq<char>, channel: u32) -> int
    decreases n,
{
    if n <= 0 {
        0
    } else {
        load(l, n - 1, band, channel) + if overlap(l[n - 1].channel, l[n - 1].band@, channel, band) {
            1int
        } else {
            0int
        }
    }
}

pub open spec fn load_all(l: Seq<WifiNetwork>, band: Seq<char>, channel: u32) -> int {
    load(l, l.len() as int, band, channel)
}

/// On 2.4 GHz only 1, 6 and 11 are candidates; the first with the least load wins.
pub open spec fn best_24(l: Seq<WifiNetwork>, band: Seq<char>) -> (u32, int) {
    let l1 = load_all(l, band, 1);
    let l6 = load_all(l, band, 6);
    let l11 = load_all(l, band, 11);
    if l1 <= l6 && l1 <= l11 {
        (1u32, l1)
    } else if l6 <= l11 {
        (6u32, l6)
    } else {
        (11u32, l11)
    }
}

/// Elsewhere the candidates are the channels in use in the band; the lowest
/// channel with the least load wins.
pub open spec fn is_best_other(l: Seq<WifiNetwork>, band: Seq<char>, p: (u32, int)) -> bool {
    &&& exists|j: int| 0 <= j < l.len() && l[j].band@ == band && l[j].channel == p.0
    &&& p.1 == load_all(l, band, p.0)
    &&& forall|j: int|
        0 <= j < l.len() && (#[trigger] l[j]).band@ == band ==> load_all(l, band, l[j].channel) > p.1
            || (load_all(l, band, l[j].channel) == p.1 && p.0 <= l[j].channel)
}

pub open spec fn best_other(l: Seq<WifiNetwork>, band: Seq<char>) -> (u32, int) {
    choose|p: (u32, int)| is_best_other(l, band, p)
}

pub open spec fn recommendation(l: Seq<WifiNetwork>, cur: WifiNetwork) -> Seq<char> {
    let overlapping = load_all(l, cur.band@, cur.channel);
    let contention = if overlapping > 0 {
        overlapping - 1
    } else {
        0
    };
    let best = if cur.band@ == "2.4 GHz"@ {
        best_24(l, cur.band@)
    } else {
        best_other(l, cur.band@)
    };
    let plural = if contention == 1 {
        ""@
    } else {
        "s"@
    };
    if contention == 0 {
        "Channel "@ + dec(cur.channel as nat) + " is clear — no other visible AP overlaps it."@
    } else if best.1 < contention {
        dec(contention as nat) + " other AP"@ + plural + " overlap channel "@ + dec(cur.channel as nat)
            + ". Channel "@ + dec(best.0 as nat) + " looks quieter ("@ + dec(best.1 as nat)
            + " overlapping)."@
    } else {
        dec(contention as nat) + " other AP"@ + plural + " overlap channel "@ + dec(cur.channel as nat)
            + ", but no visible channel in the "@ + cur.band@ + " band is clearly better."@
    }
}

fn load_of(l: &Vec<WifiNetwork>, band: &String, channel: u32) -> (n: u64)
    requires
        l@.len() <= u32::MAX,
    ensures
        n == load_all(l@, band@, channel),
        n <= l@.len(),
{
    let mut n: u64 = 0;
    let mut i: usize = 0;
    while i < l.len()
        invariant
            i <= l@.len(),
            l@.len() <= u32::MAX,
            n == load(l@, i as int, band@, channel),
            n <= i,
        decreases l.len() - i,
    {
        if overlaps(l[i].channel, l[i].band.as_str(), channel, band.as_str()) {
            n = n + 1;
        }
        i += 1;
    }
    n
}

proof fn lemma_best_other_unique(l: Seq<WifiNetwork>, band: Seq<char>, p: (u32, int))
    requires
        is_best_other(l, band, p),
    ensures
        best_other(l, band) == p,
{
    let q = best_other(l, band);
    assert(is_best_other(l, band, q));
    let jp = choose|j: int| 0 <= j < l.len() && l[j].band@ == band && l[j].channel == p.0;
    let jq = choose|j: int| 0 <= j < l.len() && l[j].band@ == band && l[j].channel == q.0;
    assert(l[jp].band@ == band);
    assert(l[jq].band@ == band);
}

fn best_channel_other(l: &Vec<WifiNetwork>, band: &String, witness: usize) -> (r: (u32, u64))
    requires
        l@.len() <= u32::MAX,
        witness < l@.len(),
        l@[witness as int].band@ == band@,
    ensures
        r.0 == best_other(l@, band@).0,
        r.1 == best_other(l@, band@).1,
{
    let mut best_c: u32 = l[witness].channel;
    let mut best_l: u64 = load_of(l, band, best_c);
    let mut i: usize = 0;
    while i < l.len()
        invariant
            i <= l@.len(),
            l@.len() <= u32::MAX,
            exists|j: int| 0 <= j < l@.len() && l@[j].band@ == band@ && l@[j].channel == best_c,
            best_l == load_all(l@, band@, best_c),
            forall|j: int|
                0 <= j < i && (#[trigger] l@[j]).band@ == band@ ==> load_all(l@, band@, l@[j].channel) > best_l
                    || (load_all(l@, band@, l@[j].channel) == best_l && best_c <= l@[j].channel),
        decreases l.len() - i,
    {
        if str_eq(l[i].band.as_str(), band.as_str()) {
            let c = l[i].channel;
            let ld = load_of(l, band, c);
            if ld < best_l || (ld == best_l && c < best_c) {
                best_c = c;
                best_l = ld;
            }
        }
        i += 1;
    }
    proof {
        lemma_best_other_unique(l@, band@, (best_c, best_l as int));
    }
    (best_c, best_l)
}

fn recommend(l: &Vec<WifiNetwork>, cur: &WifiNetwork, witness: usize) -> (s: String)
    requires
        l@.len() <= u32::MAX,
        witness < l@.len(),
        l@[witness as int] == *cur,
    ensures
        s@ == recommendation(l@, *cur),
{
    let overlapping = load_of(l, &cur.band, cur.channel);
    let contention: u64 = if overlapping > 0 {
        overlapping - 1
    } else {
        0
    };
    let (best_c, best_l): (u32, u64) = if str_eq(cur.band.as_str(), "2.4 GHz") {
        let l1 = load_of(l, &cur.band, 1);
        let l6 = load_of(l, &cur.band, 6);
        let l11 = load_of(l, &cur.band, 11);
        if l1 <= l6 && l1 <= l11 {
            (1, l1)
        } else if l6 <= l11 {
            (6, l6)
        } else {
            (11, l11)
        }
    } else {
        best_channel_other(l, &cur.band, witness)
    };
    let mut s = String::new();
    if contention == 0 {
        push_str(&mut s, "Channel ");
        push_dec(&mut s, cur.channel as u64);
        push_str(&mut s, " is clear — no other visible AP overlaps it.");
    } else {
        push_dec(&mut s, contention);
        push_str(&mut s, " other AP");
        if contention == 1 {
            push_str(&mut s, "");
        } else {
            push_str(&mut s, "s");
        }
        push_str(&mut s, " overlap channel ");
        push_dec(&mut s, cur.channel as u64);
        if best_l < contention {
            push_str(&mut s, ". Channel ");
            push_dec(&mut s, best_c as u64);
            push_str(&mut s, " looks quieter (");
            push_dec(&mut s, best_l);
            push_str(&mut s, " overlapping).");
        } else {
            push_str(&mut s, ", but no visible channel in the ");
            push_str(&mut s, cur.band.as_str());
            push_str(&mut s, " band is clearly better.");
        }
    }
    s
}

fn find_active(l: &Vec<WifiNetwork>) -> (r: Option<usize>)
    ensures
        r matches Some(i) ==> i < l@.len() && first_active(l@, 0) == Some(l@[i as int]),
        r is None ==> first_active(l@, 0) is None,
{
    let mut i: usize = 0;
    while i < l.len()
        invariant
            i <= l@.len(),
            first_active(l@, 0) == first_active(l@, i as int),
        decreases l.len() - i,
    {
        if l[i].active {
            return Some(i);
        }
        i += 1;
    }
    None
}

pub open spec fn opt_text_view(s: Option<String>) -> Option<Seq<char>> {
    match s {
        Some(t) => Some(t@),
        None => None,
    }
}

/// Everything the Wi-Fi panel shows, from the raw network list: networks by
/// signal, the connected one, channel occupancy per band, and a channel
/// recommendation when connected.
pub fn assemble(interface: Option<String>, networks: Vec<WifiNetwork>) -> (w: WifiInfo)
    requires
        networks@.len() <= u32::MAX,
    ensures
        w.interface == interface,
        w.networks@ == by_signal(networks@),
        w.current == first_active(w.networks@, 0),
        usage_ok(w.channel_usage@, w.networks@, w.networks@.len() as int, w.current),
        opt_text_view(w.recommendation) == match w.current {
            Some(c) => Some(recommendation(w.networks@, c)),
            None => None,
        },
{
    proof {
        lemma_by_signal_len(networks@);
    }
    let sorted = sort_by_signal(networks);
    let (current, recommendation) = match find_active(&sorted) {
        Some(i) => {
            let c = copy_network(&sorted[i]);
            let r = recommend(&sorted, &c, i);
            (Some(c), Some(r))
        },
        None => (None, None),
    };
    let channel_usage = channel_usage(&sorted, &current);
    WifiInfo { interface, current, networks: sorted, channel_usage, recommendation }
}

/// The 2.4 GHz suggestion is one of the non-overlapping channels 1, 6 and 11
/// with the fewest overlapping networks, the lowest of them on a tie, and
/// the load it reports is that channel's.
pub proof fn law_quietest_of_1_6_11(l: Seq<WifiNetwork>, band: Seq<char>)
    ensures
        best_24(l, band).0 == 1 || best_24(l, band).0 == 6 || best_24(l, band).0 == 11,
        best_24(l, band).1 == load_all(l, band, best_24(l, band).0),
        best_24(l, band).1 <= load_all(l, band, 1),
        best_24(l, band).1 <= load_all(l, band, 6),
        best_24(l, band).1 <= load_all(l, band, 11),
        best_24(l, band).0 == 6 ==> load_all(l, band, 1) > best_24(l, band).1,
        best_24(l, band).0 == 11 ==> load_all(l, band, 1) > best_24(l, band).1 && load_all(l, band, 6)
            > best_24(l, band).1,
{
}

} // verus!
