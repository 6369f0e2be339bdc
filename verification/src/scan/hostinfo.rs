//! Interface classification and scan-target selection.
//!
//! Enumerating the interfaces is the platform's job; what is worth scanning,
//! and what a user may ask to scan, is decided here.
use crate::netutil::{is_private_ipv4, is_private_spec, parse_cidr, parse_cidr_spec, MIN_PREFIX};
use crate::scan::orchestrator::{capped_count, listed, lists_range, target_view, targets_view};
use crate::text::{begins, lines, lines_of, slice_chars, string_of, strip_prefix, trim, trimmed, views, words, words_of, chars_of, copy_text, dec, has, is_text, owned, push_dec, push_str, starts_with, str_eq, strings_view};
use crate::types::{DnsConfig, InterfaceInfo, Ipv4Addr4, ScanTarget, TargetSource};
use vstd::prelude::*;

verus! {

/// Interface name prefixes that are never worth scanning.
pub open spec fn virtual_prefixes() -> Seq<Seq<char>> {
    seq![
        "docker"@,
        "br-"@,
        "virbr"@,
        "veth"@,
        "tun"@,
        "tap"@,
        "vboxnet"@,
        "vmnet"@,
        "utun"@,
        "awdl"@,
        "llw"@,
        "bridge"@,
        "zt"@,
        "wg"@,
    ]
}

pub open spec fn virtual_spec(name: Seq<char>) -> bool {
    exists|i: int| 0 <= i < virtual_prefixes().len() && starts_with(name, #[trigger] virtual_prefixes()[i])
}

pub fn is_virtual_interface(name: &str) -> (b: bool)
    ensures
        b == virtual_spec(name@),
{
    let prefixes = [
        "docker", "br-", "virbr", "veth", "tun", "tap", "vboxnet", "vmnet", "utun", "awdl", "llw", "bridge", "zt", "wg",
    ];
    let ghost ps = virtual_prefixes();
    assert(prefixes@.len() == 14);
    proof {
        reveal_strlit("docker");
        reveal_strlit("br-");
        reveal_strlit("virbr");
        reveal_strlit("veth");
        reveal_strlit("tun");
        reveal_strlit("tap");
        reveal_strlit("vboxnet");
        reveal_strlit("vmnet");
        reveal_strlit("utun");
        reveal_strlit("awdl");
        reveal_strlit("llw");
        reveal_strlit("bridge");
        reveal_strlit("zt");
        reveal_strlit("wg");
    }
    assert(forall|i: int| 0 <= i < 14 ==> #[trigger] prefixes@[i]@ == ps[i]);
    let n = chars_of(name);
    let mut i: usize = 0;
    while i < prefixes.len()
        invariant
            i <= 14,
            prefixes@.len() == 14,
            ps == virtual_prefixes(),
            n@ == name@,
            forall|k: int| 0 <= k < 14 ==> #[trigger] prefixes@[k]@ == ps[k],
            forall|k: int| 0 <= k < i ==> !starts_with(name@, #[trigger] ps[k]),
        decreases prefixes.len() - i,
    {
        if crate::text::begins(&n, prefixes[i]) {
            assert(starts_with(name@, ps[i as int]));
            return true;
        }
        i += 1;
    }
    false
}

/// The number of set bits.
pub open spec fn ones(x: u32) -> nat
    decreases x,
{
    if x == 0 {
        0
    } else {
        (x % 2) as nat + ones(x / 2)
    }
}

/// The prefix length a netmask denotes: its number of set bits.
pub fn mask_to_prefix(mask: u32) -> (p: u8)
    ensures
        p == ones(mask),
{
    proof {
        lemma_ones_bound(mask);
    }
    let mut x = mask;
    let mut n: u8 = 0;
    while x > 0
        invariant
            n + ones(x) == ones(mask),
            ones(mask) <= 32,
        decreases x,
    {
        n = n + (x % 2) as u8;
        x = x / 2;
    }
    n
}

proof fn lemma_ones_bound(x: u32)
    ensures
        ones(x) <= 32,
{
    vstd::arithmetic::power2::lemma2_to64();
    lemma_ones_le_bits(x, 32);
}

proof fn lemma_ones_le_bits(x: u32, bits: nat)
    requires
        x < vstd::arithmetic::power2::pow2(bits),
    ensures
        ones(x) <= bits,
    decreases bits,
{
    vstd::arithmetic::power2::lemma2_to64();
    if x > 0 {
        if bits == 0 {
            assert(false);
        } else {
            vstd::arithmetic::power2::lemma_pow2_unfold(bits);
            lemma_ones_le_bits(x / 2, (bits - 1) as nat);
        }
    }
}

/* ------------------------------------------------------------ classify */

pub open spec fn loopback_spec(iface: InterfaceInfo) -> bool {
    iface.name@ == "lo"@ || iface.name@ == "lo0"@ || exists|k: int|
        0 <= k < iface.ipv4@.len() && starts_with((#[trigger] iface.ipv4@[k]).address@, "127."@)
}

pub open spec fn link_down(iface: InterfaceInfo) -> bool {
    iface.state@ == "DOWN"@ || strings_view(iface.flags@).contains("NO-CARRIER"@)
}

pub open spec fn too_wide(iface: InterfaceInfo) -> bool {
    forall|k: int| 0 <= k < iface.ipv4@.len() ==> (#[trigger] iface.ipv4@[k]).cidr < 22
}

/// Why an interface is not scanned, checked in this order; none when it is.
pub open spec fn skip_reason_spec(iface: InterfaceInfo) -> Option<Seq<char>> {
    if loopback_spec(iface) {
        Some("loopback"@)
    } else if iface.ipv4@.len() == 0 {
        Some("no IPv4 address"@)
    } else if virtual_spec(iface.name@) {
        Some("virtual/container bridge"@)
    } else if link_down(iface) {
        Some("link down"@)
    } else if too_wide(iface) {
        Some("subnet wider than /22"@)
    } else {
        None
    }
}

/// The warning a skipped interface earns, if any.
pub open spec fn skip_warning(iface: InterfaceInfo) -> Option<Seq<char>> {
    match skip_reason_spec(iface) {
        Some(r) => if r == "virtual/container bridge"@ {
            Some("Skipping "@ + iface.name@ + " (virtual/container bridge)"@)
        } else if r == "subnet wider than /22"@ {
            Some("Skipping "@ + iface.name@ + " \u{2014} its subnet is wider than /22 and would be too large to sweep"@)
        } else {
            None
        },
        None => None,
    }
}

/// An interface after classification: primary when it carries the default
/// route, scannable unless some reason rules it out, and the reason kept.
pub open spec fn classified(old: InterfaceInfo, gateway_dev: Seq<char>, new: InterfaceInfo) -> bool {
    let reason = skip_reason_spec(old);
    &&& new.is_primary == (gateway_dev.len() > 0 && old.name@ == gateway_dev)
    &&& new.scannable == (reason is None)
    &&& new.skip_reason == (if reason is Some { new.skip_reason } else { old.skip_reason })
    &&& (reason is Some ==> (new.skip_reason matches Some(r) && r@ == reason.unwrap()))
    &&& new == (InterfaceInfo { is_primary: new.is_primary, scannable: new.scannable, skip_reason: new.skip_reason, ..old })
}

pub open spec fn skip_warnings(ifaces: Seq<InterfaceInfo>) -> Seq<Seq<char>>
    decreases ifaces.len(),
{
    if ifaces.len() == 0 {
        seq![]
    } else {
        skip_warnings(ifaces.drop_last()) + match skip_warning(ifaces.last()) {
            Some(w) => seq![w],
            None => seq![],
        }
    }
}

fn any_loopback_address(addrs: &Vec<Ipv4Addr4>) -> (b: bool)
    ensures
        b == exists|k: int| 0 <= k < addrs@.len() && starts_with((#[trigger] addrs@[k]).address@, "127."@),
{
    let mut i: usize = 0;
    while i < addrs.len()
        invariant
            i <= addrs@.len(),
            forall|k: int| 0 <= k < i ==> !starts_with((#[trigger] addrs@[k]).address@, "127."@),
        decreases addrs.len() - i,
    {
        let c = chars_of(addrs[i].address.as_str());
        if crate::text::begins(&c, "127.") {
            return true;
        }
        i += 1;
    }
    false
}

fn has_flag(flags: &Vec<String>, flag: &str) -> (b: bool)
    ensures
        b == strings_view(flags@).contains(flag@),
{
    let mut i: usize = 0;
    while i < flags.len()
        invariant
            i <= flags@.len(),
            forall|k: int| 0 <= k < i ==> strings_view(flags@)[k] != flag@,
        decreases flags.len() - i,
    {
        if str_eq(flags[i].as_str(), flag) {
            assert(strings_view(flags@)[i as int] == flag@);
            return true;
        }
        i += 1;
    }
    false
}

fn all_wide(addrs: &Vec<Ipv4Addr4>) -> (b: bool)
    ensures
        b == forall|k: int| 0 <= k < addrs@.len() ==> (#[trigger] addrs@[k]).cidr < 22,
{
    let mut i: usize = 0;
    while i < addrs.len()
        invariant
            i <= addrs@.len(),
            forall|k: int| 0 <= k < i ==> (#[trigger] addrs@[k]).cidr < 22,
        decreases addrs.len() - i,
    {
        if addrs[i].cidr >= MIN_PREFIX {
            return false;
        }
        i += 1;
    }
    true
}

fn skip_reason_of(iface: &InterfaceInfo) -> (r: Option<&'static str>)
    ensures
        match r {
            Some(t) => skip_reason_spec(*iface) == Some(t@),
            None => skip_reason_spec(*iface) is None,
        },
{
    let name = chars_of(iface.name.as_str());
    proof {
        reveal_strlit("lo");
        reveal_strlit("lo0");
        reveal_strlit("127.");
        reveal_strlit("DOWN");
    }
    if is_text(&name, "lo") || is_text(&name, "lo0") || any_loopback_address(&iface.ipv4) {
        return Some("loopback");
    }
    if iface.ipv4.len() == 0 {
        return Some("no IPv4 address");
    }
    if is_virtual_interface(iface.name.as_str()) {
        return Some("virtual/container bridge");
    }
    let state = chars_of(iface.state.as_str());
    if is_text(&state, "DOWN") || has_flag(&iface.flags, "NO-CARRIER") {
        return Some("link down");
    }
    if all_wide(&iface.ipv4) {
        return Some("subnet wider than /22");
    }
    None
}

fn classify_one(iface: &mut InterfaceInfo, gateway_dev: &str) -> (w: Option<String>)
    ensures
        classified(*old(iface), gateway_dev@, *final(iface)),
        opt_view(w) == skip_warning(*old(iface)),
{
    let gd = chars_of(gateway_dev);
    let primary = gd.len() > 0 && str_eq(iface.name.as_str(), gateway_dev);
    iface.is_primary = primary;
    match skip_reason_of(iface) {
        Some(reason) => {
            iface.scannable = false;
            iface.skip_reason = Some(owned(reason));
            proof {
                reveal_strlit("virtual/container bridge");
                reveal_strlit("subnet wider than /22");
                reveal_strlit("loopback");
                reveal_strlit("no IPv4 address");
                reveal_strlit("link down");
            }
            if str_eq(reason, "virtual/container bridge") {
                let mut w = owned("Skipping ");
                push_str(&mut w, iface.name.as_str());
                push_str(&mut w, " (virtual/container bridge)");
                Some(w)
            } else if str_eq(reason, "subnet wider than /22") {
                let mut w = owned("Skipping ");
                push_str(&mut w, iface.name.as_str());
                push_str(&mut w, " \u{2014} its subnet is wider than /22 and would be too large to sweep");
                Some(w)
            } else {
                None
            }
        },
        None => {
            iface.scannable = true;
            None
        },
    }
}

pub open spec fn opt_view(o: Option<String>) -> Option<Seq<char>> {
    match o {
        Some(s) => Some(s@),
        None => None,
    }
}

/// Decides, for every interface, whether it is primary and scannable, and
/// warns about the skipped ones a user might have expected to be scanned.
pub fn classify(interfaces: &mut Vec<InterfaceInfo>, gateway_dev: &str, warnings: &mut Vec<String>)
    ensures
        final(interfaces)@.len() == old(interfaces)@.len(),
        forall|k: int|
            0 <= k < old(interfaces)@.len() ==> classified(old(interfaces)@[k], gateway_dev@, #[trigger] final(interfaces)@[k]),
        strings_view(final(warnings)@) == strings_view(old(warnings)@) + skip_warnings(old(interfaces)@),
{
    let ghost olds = interfaces@;
    let ghost w0 = strings_view(warnings@);
    let mut i: usize = 0;
    while i < interfaces.len()
        invariant
            i <= interfaces@.len(),
            interfaces@.len() == olds.len(),
            forall|k: int| 0 <= k < i ==> classified(olds[k], gateway_dev@, #[trigger] interfaces@[k]),
            forall|k: int| i <= k < olds.len() ==> #[trigger] interfaces@[k] == olds[k],
            strings_view(warnings@) == w0 + skip_warnings(olds.take(i as int)),
        decreases interfaces.len() - i,
    {
        let ghost before = interfaces@;
        let ghost wb = warnings@;
        assert(before[i as int] == olds[i as int]);
        let w = classify_one(&mut interfaces[i], gateway_dev);
        let ghost wv = opt_view(w);
        match w {
            Some(m) => {
                warnings.push(m);
                assert(strings_view(warnings@) =~= strings_view(wb).push(m@));
            },
            None => {},
        }
        proof {
            assert(olds.take(i + 1).drop_last() =~= olds.take(i as int));
            assert(olds.take(i + 1).last() == olds[i as int]);
            assert(wv == skip_warning(olds[i as int]));
            assert(skip_warnings(olds.take(i + 1)) == skip_warnings(olds.take(i as int)) + match skip_warning(olds[i as int]) {
                Some(x) => seq![x],
                None => Seq::<Seq<char>>::empty(),
            });
            assert(strings_view(warnings@) =~= w0 + skip_warnings(olds.take(i + 1)));
            assert forall|k: int| 0 <= k < i + 1 implies classified(olds[k], gateway_dev@, #[trigger] interfaces@[k]) by {
                if k < i {
                    assert(interfaces@[k] == before[k]);
                }
            }
        }
        i += 1;
    }
    assert(olds.take(olds.len() as int) =~= olds);
}

/* ------------------------------------------------------------- targets */

/// What `validate_range` answers: the canonical range, or why it is refused.
pub open spec fn validate_spec(cidr: Seq<char>) -> Result<Seq<char>, Seq<char>> {
    match parse_cidr_spec(cidr) {
        Err(e) => Err(e),
        Ok(p) => if !is_private_spec(p.network) {
            Err(cidr + " is not a private range \u{2014} this tool refuses to scan public address space"@)
        } else {
            Ok(p.canonical_text())
        },
    }
}

/// Only private space is ever scanned: a range that validates lies in
/// private address space and is no wider than /22, and what it names is the
/// canonical form of the range given.
pub proof fn law_validated_ranges_are_private(cidr: Seq<char>)
    ensures
        validate_spec(cidr) is Ok ==> {
            &&& parse_cidr_spec(cidr) is Ok
            &&& is_private_spec(parse_cidr_spec(cidr)->Ok_0.network)
            &&& parse_cidr_spec(cidr)->Ok_0.prefix >= MIN_PREFIX
            &&& validate_spec(cidr)->Ok_0 == parse_cidr_spec(cidr)->Ok_0.canonical_text()
        },
{
}

/// Validates a user-supplied range, refusing public address space outright.
pub fn validate_range(cidr: &str) -> (r: Result<String, String>)
    ensures
        match r {
            Ok(n) => validate_spec(cidr@) == Ok::<Seq<char>, Seq<char>>(n@),
            Err(e) => validate_spec(cidr@) == Err::<Seq<char>, Seq<char>>(e@),
        },
{
    let parsed = match parse_cidr(cidr) {
        Ok(p) => p,
        Err(e) => {
            return Err(e);
        },
    };
    if !is_private_ipv4(parsed.network) {
        let mut e = owned(cidr);
        push_str(&mut e, " is not a private range \u{2014} this tool refuses to scan public address space");
        return Err(e);
    }
    Ok(parsed.canonical())
}

type TargetView = (Seq<char>, TargetSource, u32, Option<Seq<char>>);

/// An interface address written as a range.
pub open spec fn addr_range_text(a: Ipv4Addr4) -> Seq<char> {
    a.address@ + "/"@ + dec(a.cidr as nat)
}

/// The local target an interface address adds: its subnet, when narrow
/// enough to sweep, valid, and not already a target.
pub open spec fn local_target(tvs: Seq<TargetView>, iface: InterfaceInfo, a: Ipv4Addr4) -> Option<TargetView> {
    if a.cidr >= 22 && parse_cidr_spec(addr_range_text(a)) is Ok {
        let p = parse_cidr_spec(addr_range_text(a))->Ok_0;
        if lists_range(tvs, p.canonical_text()) {
            None
        } else {
            Some((p.canonical_text(), TargetSource::Local, capped_count(p), Some("local subnet on "@ + iface.name@)))
        }
    } else {
        None
    }
}

pub open spec fn fold_addrs(tvs: Seq<TargetView>, iface: InterfaceInfo, addrs: Seq<Ipv4Addr4>) -> Seq<TargetView>
    decreases addrs.len(),
{
    if addrs.len() == 0 {
        tvs
    } else {
        let prev = fold_addrs(tvs, iface, addrs.drop_last());
        match local_target(prev, iface, addrs.last()) {
            Some(t) => prev.push(t),
            None => prev,
        }
    }
}

/// The local targets of the scannable interfaces, in order, each once.
pub open spec fn fold_ifaces(tvs: Seq<TargetView>, ifaces: Seq<InterfaceInfo>) -> Seq<TargetView>
    decreases ifaces.len(),
{
    if ifaces.len() == 0 {
        tvs
    } else {
        let prev = fold_ifaces(tvs, ifaces.drop_last());
        if ifaces.last().scannable {
            fold_addrs(prev, ifaces.last(), ifaces.last().ipv4@)
        } else {
            prev
        }
    }
}

/// What a user-supplied range adds: a manual target, or a warning.
pub open spec fn extra_step(tvs: Seq<TargetView>, raw: Seq<char>) -> (Option<TargetView>, Option<Seq<char>>) {
    match validate_spec(raw) {
        Ok(n) => match parse_cidr_spec(n) {
            Ok(p) => if lists_range(tvs, n) {
                (None, None)
            } else {
                (Some((n, TargetSource::Manual, capped_count(p), Some("user-supplied range"@))), None)
            },
            Err(_) => (None, None),
        },
        Err(e) => (None, Some("Ignoring range \""@ + raw + "\": "@ + e)),
    }
}

pub open spec fn fold_extras(tvs: Seq<TargetView>, raws: Seq<Seq<char>>) -> (Seq<TargetView>, Seq<Seq<char>>)
    decreases raws.len(),
{
    if raws.len() == 0 {
        (tvs, seq![])
    } else {
        let prev = fold_extras(tvs, raws.drop_last());
        let step = extra_step(prev.0, raws.last());
        (
            match step.0 {
                Some(t) => prev.0.push(t),
                None => prev.0,
            },
            match step.1 {
                Some(w) => prev.1.push(w),
                None => prev.1,
            },
        )
    }
}

/// The targets a scan sweeps: the subnets of the scannable interfaces, then
/// the user's valid private ranges; each range once.
pub open spec fn targets_spec(ifaces: Seq<InterfaceInfo>, raws: Seq<Seq<char>>) -> (Seq<TargetView>, Seq<Seq<char>>) {
    fold_extras(fold_ifaces(seq![], ifaces), raws)
}

fn add_local(targets: &mut Vec<ScanTarget>, iface: &InterfaceInfo)
    ensures
        targets_view(final(targets)@) == fold_addrs(targets_view(old(targets)@), *iface, iface.ipv4@),
{
    let ghost tv0 = targets_view(targets@);
    let mut k: usize = 0;
    while k < iface.ipv4.len()
        invariant
            k <= iface.ipv4@.len(),
            targets_view(targets@) == fold_addrs(tv0, *iface, iface.ipv4@.take(k as int)),
        decreases iface.ipv4.len() - k,
    {
        proof {
            assert(iface.ipv4@.take(k + 1).drop_last() =~= iface.ipv4@.take(k as int));
        }
        let a = &iface.ipv4[k];
        k += 1;
        if a.cidr < MIN_PREFIX {
            continue;
        }
        let mut text = copy_text(&a.address);
        push_str(&mut text, "/");
        push_dec(&mut text, a.cidr as u64);
        let parsed = match parse_cidr(text.as_str()) {
            Ok(p) => p,
            Err(_) => {
                continue;
            },
        };
        let key = parsed.canonical();
        if listed(targets, key.as_str()) {
            continue;
        }
        let mut note = owned("local subnet on ");
        push_str(&mut note, iface.name.as_str());
        let t = ScanTarget { cidr: key, source: TargetSource::Local, host_count: parsed.host_count(), note: Some(note) };
        let ghost before = targets@;
        targets.push(t);
        assert(targets_view(targets@) =~= targets_view(before).push(target_view(t)));
    }
    assert(iface.ipv4@.take(iface.ipv4@.len() as int) =~= iface.ipv4@);
}

/// The targets a scan sweeps: the subnets of the scannable interfaces, then
/// the user's ranges; each range once. A refused user range becomes a
/// warning rather than a failure.
pub fn build_targets(interfaces: &Vec<InterfaceInfo>, extra_ranges: &Vec<String>, warnings: &mut Vec<String>) -> (targets: Vec<ScanTarget>)
    ensures
        targets_view(targets@) == targets_spec(interfaces@, strings_view(extra_ranges@)).0,
        strings_view(final(warnings)@) == strings_view(old(warnings)@) + targets_spec(interfaces@, strings_view(extra_ranges@)).1,
{
    let mut targets: Vec<ScanTarget> = Vec::new();
    let mut i: usize = 0;
    proof {
        assert(targets_view(targets@) =~= Seq::<TargetView>::empty());
    }
    while i < interfaces.len()
        invariant
            i <= interfaces@.len(),
            targets_view(targets@) == fold_ifaces(seq![], interfaces@.take(i as int)),
            warnings@ == old(warnings)@,
        decreases interfaces.len() - i,
    {
        proof {
            assert(interfaces@.take(i + 1).drop_last() =~= interfaces@.take(i as int));
        }
        if interfaces[i].scannable {
            add_local(&mut targets, &interfaces[i]);
        }
        i += 1;
    }
    assert(interfaces@.take(interfaces@.len() as int) =~= interfaces@);
    let ghost local = targets_view(targets@);
    let ghost w0 = strings_view(warnings@);
    let ghost raws = strings_view(extra_ranges@);
    let mut j: usize = 0;
    while j < extra_ranges.len()
        invariant
            j <= extra_ranges@.len(),
            raws == strings_view(extra_ranges@),
            targets_view(targets@) == fold_extras(local, raws.take(j as int)).0,
            strings_view(warnings@) == w0 + fold_extras(local, raws.take(j as int)).1,
        decreases extra_ranges.len() - j,
    {
        proof {
            assert(raws.take(j + 1).drop_last() =~= raws.take(j as int));
            assert(raws.take(j + 1).last() == extra_ranges@[j as int]@);
        }
        let raw = &extra_ranges[j];
        j += 1;
        match validate_range(raw.as_str()) {
            Ok(normalized) => {
                let parsed = match parse_cidr(normalized.as_str()) {
                    Ok(p) => p,
                    Err(_) => {
                        continue;
                    },
                };
                if listed(&targets, normalized.as_str()) {
                    continue;
                }
                let t = ScanTarget {
                    cidr: normalized,
                    source: TargetSource::Manual,
                    host_count: parsed.host_count(),
                    note: Some(owned("user-supplied range")),
                };
                let ghost before = targets@;
                targets.push(t);
                assert(targets_view(targets@) =~= targets_view(before).push(target_view(t)));
            },
            Err(error) => {
                let mut w = owned("Ignoring range \"");
                push_str(&mut w, raw.as_str());
                push_str(&mut w, "\": ");
                push_str(&mut w, error.as_str());
                let ghost wb = warnings@;
                warnings.push(w);
                assert(strings_view(warnings@) =~= strings_view(wb).push(w@));
            },
        }
    }
    assert(raws.take(raws.len() as int) =~= raws);
    targets
}

/// The ranges a scan started now would sweep, from the interfaces just
/// enumerated: classified with no gateway (which only sets `is_primary`),
/// then turned into targets.
pub fn preview_targets(interfaces: Vec<InterfaceInfo>, extra_ranges: &Vec<String>) -> (targets: Vec<ScanTarget>)
    ensures
        exists|cls: Seq<InterfaceInfo>|
            cls.len() == interfaces@.len() && (forall|k: int| 0 <= k < cls.len() ==> classified(interfaces@[k], ""@, #[trigger] cls[k]))
                && targets_view(targets@) == targets_spec(cls, strings_view(extra_ranges@)).0,
{
    let mut interfaces = interfaces;
    let mut warnings: Vec<String> = Vec::new();
    classify(&mut interfaces, "", &mut warnings);
    build_targets(&interfaces, extra_ranges, &mut warnings)
}

/* ----------------------------------------------------------- resolv.conf */

/// `list` with `x` appended unless it is already there.
pub open spec fn add_unique(list: Seq<Seq<char>>, x: Seq<char>) -> Seq<Seq<char>> {
    if list.contains(x) {
        list
    } else {
        list.push(x)
    }
}

/// `list` with each of `xs`, in order, appended unless already there.
pub open spec fn add_all_unique(list: Seq<Seq<char>>, xs: Seq<Seq<char>>) -> Seq<Seq<char>>
    decreases xs.len(),
{
    if xs.len() == 0 {
        list
    } else {
        add_unique(add_all_unique(list, xs.drop_last()), xs.last())
    }
}

/// One line of a resolver configuration: a `nameserver` line names a server,
/// a `search` line lists domains.
pub open spec fn resolv_step(acc: (Seq<Seq<char>>, Seq<Seq<char>>), line: Seq<char>) -> (Seq<Seq<char>>, Seq<Seq<char>>) {
    let t = trim(line);
    let servers = match strip_prefix(t, "nameserver"@) {
        Some(rest) => add_unique(acc.0, trim(rest)),
        None => acc.0,
    };
    let domains = match strip_prefix(t, "search"@) {
        Some(rest) => add_all_unique(acc.1, words(rest)),
        None => acc.1,
    };
    (servers, domains)
}

pub open spec fn resolv_fold(ls: Seq<Seq<char>>) -> (Seq<Seq<char>>, Seq<Seq<char>>)
    decreases ls.len(),
{
    if ls.len() == 0 {
        (Seq::<Seq<char>>::empty(), Seq::<Seq<char>>::empty())
    } else {
        resolv_step(resolv_fold(ls.drop_last()), ls.last())
    }
}

fn push_unique(v: &mut Vec<String>, x: String)
    ensures
        strings_view(final(v)@) == add_unique(strings_view(old(v)@), x@),
{
    let mut k: usize = 0;
    while k < v.len()
        invariant
            k <= v@.len(),
            v@ == old(v)@,
            forall|j: int| 0 <= j < k ==> strings_view(v@)[j] != x@,
        decreases v.len() - k,
    {
        if str_eq(v[k].as_str(), x.as_str()) {
            assert(strings_view(v@)[k as int] == x@);
            return;
        }
        k += 1;
    }
    assert(!strings_view(v@).contains(x@));
    let ghost before = v@;
    v.push(x);
    assert(strings_view(v@) =~= strings_view(before).push(x@));
}

/// The name servers and search domains of a resolver configuration, each
/// once, in order of appearance. Whether a name server is an address is for
/// the caller to judge.
pub fn parse_resolv_conf(contents: &str) -> (c: DnsConfig)
    ensures
        (strings_view(c.servers@), strings_view(c.search_domains@)) == resolv_fold(lines(contents@)),
{
    let text = chars_of(contents);
    let ls = lines_of(&text);
    let mut servers: Vec<String> = Vec::new();
    let mut domains: Vec<String> = Vec::new();
    let mut i: usize = 0;
    assert(strings_view(servers@) =~= Seq::<Seq<char>>::empty());
    assert(strings_view(domains@) =~= Seq::<Seq<char>>::empty());
    while i < ls.len()
        invariant
            i <= ls@.len(),
            views(ls@) == lines(contents@),
            (strings_view(servers@), strings_view(domains@)) == resolv_fold(views(ls@).take(i as int)),
        decreases ls.len() - i,
    {
        let t = trimmed(&ls[i]);
        assert(views(ls@)[i as int] == ls@[i as int]@);
        assert(views(ls@).take(i + 1).drop_last() =~= views(ls@).take(i as int));
        if begins(&t, "nameserver") {
            proof {
                reveal_strlit("nameserver");
            }
            let rest = slice_chars(&t, 10, t.len());
            assert(rest@ =~= t@.skip(10));
            let server = trimmed(&rest);
            push_unique(&mut servers, string_of(&server));
        }
        if begins(&t, "search") {
            proof {
                reveal_strlit("search");
            }
            let rest = slice_chars(&t, 6, t.len());
            assert(rest@ =~= t@.skip(6));
            let ws = words_of(&rest);
            let ghost d0 = strings_view(domains@);
            let mut k: usize = 0;
            while k < ws.len()
                invariant
                    k <= ws@.len(),
                    views(ws@) == words(rest@),
                    strings_view(domains@) == add_all_unique(d0, views(ws@).take(k as int)),
                decreases ws.len() - k,
            {
                assert(views(ws@)[k as int] == ws@[k as int]@);
                assert(views(ws@).take(k + 1).drop_last() =~= views(ws@).take(k as int));
                push_unique(&mut domains, string_of(&ws[k]));
                k += 1;
            }
            assert(views(ws@).take(ws@.len() as int) =~= views(ws@));
        }
        i += 1;
    }
    assert(views(ls@).take(ls@.len() as int) =~= views(ls@));
    DnsConfig { servers, search_domains: domains }
}

/// A range that validates starts in one of the private blocks: 10.0.0.0/8,
/// 172.16.0.0/12, 192.168.0.0/16, 169.254.0.0/16 or 100.64.0.0/10. Public
/// space such as 172.217.0.0/24 is refused.
pub proof fn law_validated_ranges_start_in_private_blocks(cidr: Seq<char>)
    ensures
        validate_spec(cidr) is Ok ==> ({
            let n = parse_cidr_spec(cidr)->Ok_0.network;
            0x0A00_0000 <= n <= 0x0AFF_FFFF || 0xAC10_0000 <= n <= 0xAC1F_FFFF || 0xC0A8_0000 <= n <= 0xC0A8_FFFF
                || 0xA9FE_0000 <= n <= 0xA9FE_FFFF || 0x6440_0000 <= n <= 0x647F_FFFF
        }),
{
    if validate_spec(cidr) is Ok {
        crate::netutil::law_private_blocks(parse_cidr_spec(cidr)->Ok_0.network);
    }
}

} // verus!
