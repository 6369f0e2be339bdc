//! Folds every probe's output into one [`Device`] per address.
//!
//! Each source knows something the others do not — mDNS has friendly names, SSDP
//! has model numbers, the neighbour table has MACs, open ports imply role. The
//! merge records *why* it concluded something (`type_evidence`, `discovered_by`)
//! so a surprising classification can be audited rather than merely distrusted.
use crate::text::{
    chars_of, contains, has, hex, is_hex, join, join_chars, lower_seq, lowercase, owned, push_str,
    less_text, str_eq, string_of, strings_view, text_less, trim_end_matches, trim_end_matching,
    views, lemma_views_push, dec,
};
use crate::netutil::{
    ipv4_string, ipv4_text, lemma_ipv4_text_parses, parse_cidr, parse_cidr_spec, parse_ipv4,
    parse_ipv4_str,
};
use crate::oui::{lookup_spec, lookup_vendor, OuiTable};
use crate::types::{
    Banner, Device, DeviceType, MdnsService, NetbiosResult, PortInfo, ScanTarget, SsdpRecord,
};
use vstd::prelude::*;

verus! {

/* --------------------------------------------------------------- hint tables */

/// mDNS service-type substrings that imply a device class.
pub open spec fn mdns_hints() -> Seq<(&'static str, DeviceType, &'static str)> {
    seq![
        ("_esphomelib", DeviceType::Iot, "IoT service advertised"),
        ("_matter", DeviceType::Iot, "IoT service advertised"),
        ("_hap", DeviceType::Iot, "HomeKit service advertised"),
        ("_home-assistant", DeviceType::Server, "Home Assistant advertised"),
        ("_esphomebuilder", DeviceType::Server, "ESPHome Builder advertised"),
        ("_googlecast", DeviceType::Media, "media service advertised"),
        ("_airplay", DeviceType::Media, "media service advertised"),
        ("_raop", DeviceType::Media, "media service advertised"),
        ("_sonos", DeviceType::Media, "media service advertised"),
        ("_plexmediasvr", DeviceType::Media, "media service advertised"),
        ("_printer", DeviceType::Printer, "printing service advertised"),
        ("_ipp", DeviceType::Printer, "printing service advertised"),
        ("_pdl-datastream", DeviceType::Printer, "printing service advertised"),
        ("_scanner", DeviceType::Printer, "scanning service advertised"),
        ("_smb", DeviceType::Nas, "file-sharing service advertised"),
        ("_afpovertcp", DeviceType::Nas, "file-sharing service advertised"),
        ("_nfs", DeviceType::Nas, "file-sharing service advertised"),
        ("_adisk", DeviceType::Nas, "Time Machine target advertised"),
        ("_companion-link", DeviceType::Phone, "Apple device service advertised"),
        ("_remotepairing", DeviceType::Phone, "Apple device service advertised"),
        ("_workstation", DeviceType::Computer, "workstation service advertised"),
    ]
}

fn mdns_hint_table() -> (v: Vec<(&'static str, DeviceType, &'static str)>)
    ensures
        v@ == mdns_hints(),
{
    let v = vec![
        ("_esphomelib", DeviceType::Iot, "IoT service advertised"),
        ("_matter", DeviceType::Iot, "IoT service advertised"),
        ("_hap", DeviceType::Iot, "HomeKit service advertised"),
        ("_home-assistant", DeviceType::Server, "Home Assistant advertised"),
        ("_esphomebuilder", DeviceType::Server, "ESPHome Builder advertised"),
        ("_googlecast", DeviceType::Media, "media service advertised"),
        ("_airplay", DeviceType::Media, "media service advertised"),
        ("_raop", DeviceType::Media, "media service advertised"),
        ("_sonos", DeviceType::Media, "media service advertised"),
        ("_plexmediasvr", DeviceType::Media, "media service advertised"),
        ("_printer", DeviceType::Printer, "printing service advertised"),
        ("_ipp", DeviceType::Printer, "printing service advertised"),
        ("_pdl-datastream", DeviceType::Printer, "printing service advertised"),
        ("_scanner", DeviceType::Printer, "scanning service advertised"),
        ("_smb", DeviceType::Nas, "file-sharing service advertised"),
        ("_afpovertcp", DeviceType::Nas, "file-sharing service advertised"),
        ("_nfs", DeviceType::Nas, "file-sharing service advertised"),
        ("_adisk", DeviceType::Nas, "Time Machine target advertised"),
        ("_companion-link", DeviceType::Phone, "Apple device service advertised"),
        ("_remotepairing", DeviceType::Phone, "Apple device service advertised"),
        ("_workstation", DeviceType::Computer, "workstation service advertised"),
    ];
    assert(v@ =~= mdns_hints());
    v
}

/// Vendor substrings that reliably imply a device class.
pub open spec fn vendor_hints() -> Seq<(&'static str, DeviceType, &'static str)> {
    seq![
        ("espressif", DeviceType::Iot, "Espressif (ESP8266/ESP32) MAC"),
        ("ubiquiti", DeviceType::Router, "networking-equipment vendor"),
        ("mikrotik", DeviceType::Router, "networking-equipment vendor"),
        ("tp-link", DeviceType::Router, "networking-equipment vendor"),
        ("netgear", DeviceType::Router, "networking-equipment vendor"),
        ("d-link", DeviceType::Router, "networking-equipment vendor"),
        ("zyxel", DeviceType::Router, "networking-equipment vendor"),
        ("avm ", DeviceType::Router, "networking-equipment vendor"),
        ("apple", DeviceType::Phone, "Apple MAC"),
        ("samsung", DeviceType::Phone, "mobile-device vendor"),
        ("xiaomi", DeviceType::Phone, "mobile-device vendor"),
        ("huawei", DeviceType::Phone, "mobile-device vendor"),
        ("oneplus", DeviceType::Phone, "mobile-device vendor"),
        ("raspberry", DeviceType::Computer, "Raspberry Pi MAC"),
        ("intel", DeviceType::Computer, "PC-hardware vendor"),
        ("dell", DeviceType::Computer, "PC-hardware vendor"),
        ("lenovo", DeviceType::Computer, "PC-hardware vendor"),
        ("hewlett", DeviceType::Computer, "PC-hardware vendor"),
        ("canon", DeviceType::Printer, "printer vendor"),
        ("epson", DeviceType::Printer, "printer vendor"),
        ("brother", DeviceType::Printer, "printer vendor"),
        ("synology", DeviceType::Nas, "NAS vendor"),
        ("qnap", DeviceType::Nas, "NAS vendor"),
        ("hikvision", DeviceType::Camera, "camera vendor"),
        ("dahua", DeviceType::Camera, "camera vendor"),
        ("reolink", DeviceType::Camera, "camera vendor"),
        ("sonos", DeviceType::Media, "media-device vendor"),
        ("roku", DeviceType::Media, "media-device vendor"),
        ("amazon", DeviceType::Media, "media-device vendor"),
        ("google", DeviceType::Media, "media-device vendor"),
        ("technisat", DeviceType::Tv, "TV/set-top vendor"),
        ("advanced digital broadcast", DeviceType::Tv, "TV/set-top vendor"),
        ("frontier silicon", DeviceType::Media, "audio-device vendor"),
        ("lg electronics", DeviceType::Tv, "TV/set-top vendor"),
        ("sony", DeviceType::Tv, "TV/set-top vendor"),
    ]
}

fn vendor_hint_table() -> (v: Vec<(&'static str, DeviceType, &'static str)>)
    ensures
        v@ == vendor_hints(),
{
    let v = vec![
        ("espressif", DeviceType::Iot, "Espressif (ESP8266/ESP32) MAC"),
        ("ubiquiti", DeviceType::Router, "networking-equipment vendor"),
        ("mikrotik", DeviceType::Router, "networking-equipment vendor"),
        ("tp-link", DeviceType::Router, "networking-equipment vendor"),
        ("netgear", DeviceType::Router, "networking-equipment vendor"),
        ("d-link", DeviceType::Router, "networking-equipment vendor"),
        ("zyxel", DeviceType::Router, "networking-equipment vendor"),
        ("avm ", DeviceType::Router, "networking-equipment vendor"),
        ("apple", DeviceType::Phone, "Apple MAC"),
        ("samsung", DeviceType::Phone, "mobile-device vendor"),
        ("xiaomi", DeviceType::Phone, "mobile-device vendor"),
        ("huawei", DeviceType::Phone, "mobile-device vendor"),
        ("oneplus", DeviceType::Phone, "mobile-device vendor"),
        ("raspberry", DeviceType::Computer, "Raspberry Pi MAC"),
        ("intel", DeviceType::Computer, "PC-hardware vendor"),
        ("dell", DeviceType::Computer, "PC-hardware vendor"),
        ("lenovo", DeviceType::Computer, "PC-hardware vendor"),
        ("hewlett", DeviceType::Computer, "PC-hardware vendor"),
        ("canon", DeviceType::Printer, "printer vendor"),
        ("epson", DeviceType::Printer, "printer vendor"),
        ("brother", DeviceType::Printer, "printer vendor"),
        ("synology", DeviceType::Nas, "NAS vendor"),
        ("qnap", DeviceType::Nas, "NAS vendor"),
        ("hikvision", DeviceType::Camera, "camera vendor"),
        ("dahua", DeviceType::Camera, "camera vendor"),
        ("reolink", DeviceType::Camera, "camera vendor"),
        ("sonos", DeviceType::Media, "media-device vendor"),
        ("roku", DeviceType::Media, "media-device vendor"),
        ("amazon", DeviceType::Media, "media-device vendor"),
        ("google", DeviceType::Media, "media-device vendor"),
        ("technisat", DeviceType::Tv, "TV/set-top vendor"),
        ("advanced digital broadcast", DeviceType::Tv, "TV/set-top vendor"),
        ("frontier silicon", DeviceType::Media, "audio-device vendor"),
        ("lg electronics", DeviceType::Tv, "TV/set-top vendor"),
        ("sony", DeviceType::Tv, "TV/set-top vendor"),
    ];
    assert(v@ =~= vendor_hints());
    v
}

/// Open ports that imply a device class, by hint number.
pub open spec fn port_hint_match(k: int, p: u16) -> bool {
    if k == 0 {
        p == 6053
    } else if k == 1 {
        p == 8123
    } else if k == 2 {
        p == 9100 || p == 515 || p == 631
    } else if k == 3 {
        p == 32400 || p == 8096 || p == 8008 || p == 8009 || p == 8060 || p == 1400 || p == 7000
    } else if k == 4 {
        p == 445 || p == 548 || p == 2049
    } else if k == 5 {
        p == 554
    } else if k == 6 {
        p == 3389 || p == 5900
    } else if k == 7 {
        p == 3306 || p == 5432 || p == 27017 || p == 6379 || p == 9200
    } else {
        false
    }
}

pub open spec fn port_hint_class(k: int) -> (DeviceType, &'static str) {
    if k == 0 {
        (DeviceType::Iot, "ESPHome API port open")
    } else if k == 1 {
        (DeviceType::Server, "Home Assistant port open")
    } else if k == 2 {
        (DeviceType::Printer, "printing port open")
    } else if k == 3 {
        (DeviceType::Media, "media-server port open")
    } else if k == 4 {
        (DeviceType::Nas, "file-sharing port open")
    } else if k == 5 {
        (DeviceType::Camera, "RTSP port open")
    } else if k == 6 {
        (DeviceType::Computer, "remote-desktop port open")
    } else {
        (DeviceType::Server, "database port open")
    }
}

pub const PORT_HINT_COUNT: usize = 8;

fn port_hint_matches(k: usize, p: u16) -> (b: bool)
    ensures
        b == port_hint_match(k as int, p),
{
    if k == 0 {
        p == 6053
    } else if k == 1 {
        p == 8123
    } else if k == 2 {
        p == 9100 || p == 515 || p == 631
    } else if k == 3 {
        p == 32400 || p == 8096 || p == 8008 || p == 8009 || p == 8060 || p == 1400 || p == 7000
    } else if k == 4 {
        p == 445 || p == 548 || p == 2049
    } else if k == 5 {
        p == 554
    } else if k == 6 {
        p == 3389 || p == 5900
    } else if k == 7 {
        p == 3306 || p == 5432 || p == 27017 || p == 6379 || p == 9200
    } else {
        false
    }
}

fn port_hint_of(k: usize) -> (r: (DeviceType, &'static str))
    ensures
        r == port_hint_class(k as int),
{
    if k == 0 {
        (DeviceType::Iot, "ESPHome API port open")
    } else if k == 1 {
        (DeviceType::Server, "Home Assistant port open")
    } else if k == 2 {
        (DeviceType::Printer, "printing port open")
    } else if k == 3 {
        (DeviceType::Media, "media-server port open")
    } else if k == 4 {
        (DeviceType::Nas, "file-sharing port open")
    } else if k == 5 {
        (DeviceType::Camera, "RTSP port open")
    } else if k == 6 {
        (DeviceType::Computer, "remote-desktop port open")
    } else {
        (DeviceType::Server, "database port open")
    }
}

/* ------------------------------------------------------------------- ballots */

/// The service types a device advertises, joined by spaces.
pub open spec fn service_types(mdns: Seq<MdnsService>) -> Seq<Seq<char>> {
    Seq::new(mdns.len(), |i: int| mdns[i].service_type@)
}

/// One vote: a class, its weight, and the evidence text.
pub open spec fn mdns_ballots(types: Seq<char>, n: int) -> Seq<(DeviceType, u8, &'static str)>
    decreases n,
{
    if n <= 0 {
        seq![]
    } else {
        let h = mdns_hints()[n - 1];
        let rest = mdns_ballots(types, n - 1);
        if contains(types, h.0@) {
            rest.push((h.1, 3u8, h.2))
        } else {
            rest
        }
    }
}

pub open spec fn port_fires(k: int, ports: Seq<PortInfo>) -> bool {
    exists|j: int| 0 <= j < ports.len() && port_hint_match(k, #[trigger] ports[j].port)
}

pub open spec fn port_ballots(ports: Seq<PortInfo>, n: int) -> Seq<(DeviceType, u8, &'static str)>
    decreases n,
{
    if n <= 0 {
        seq![]
    } else {
        let rest = port_ballots(ports, n - 1);
        if port_fires(n - 1, ports) {
            rest.push((port_hint_class(n - 1).0, 2u8, port_hint_class(n - 1).1))
        } else {
            rest
        }
    }
}

/// The first vendor hint at or after `i` whose needle occurs in `lower`.
pub open spec fn vendor_pick(lower: Seq<char>, i: int) -> Option<int>
    decreases vendor_hints().len() - i,
{
    if i < 0 || i >= vendor_hints().len() {
        None
    } else if contains(lower, vendor_hints()[i].0@) {
        Some(i)
    } else {
        vendor_pick(lower, i + 1)
    }
}

pub open spec fn vendor_ballots(vendor: Option<Seq<char>>) -> Seq<(DeviceType, u8, &'static str)> {
    match vendor {
        None => seq![],
        Some(v) => match vendor_pick(lower_seq(v), 0) {
            Some(i) => seq![(vendor_hints()[i].1, 1u8, vendor_hints()[i].2)],
            None => seq![],
        },
    }
}

pub open spec fn opt_text(s: Option<String>) -> Seq<char> {
    match s {
        Some(t) => t@,
        None => seq![],
    }
}

pub open spec fn record_ballots(r: SsdpRecord) -> Seq<(DeviceType, u8, &'static str)> {
    let t = opt_text(r.device_type);
    let media: Seq<(DeviceType, u8, &'static str)> = if contains(t, "MediaRenderer"@) || contains(
        t,
        "MediaServer"@,
    ) {
        seq![(DeviceType::Media, 2u8, "UPnP media device")]
    } else {
        seq![]
    };
    let gateway: Seq<(DeviceType, u8, &'static str)> = if contains(t, "InternetGatewayDevice"@) {
        seq![(DeviceType::Router, 3u8, "UPnP gateway device")]
    } else {
        seq![]
    };
    let printer: Seq<(DeviceType, u8, &'static str)> = if contains(t, "Printer"@) {
        seq![(DeviceType::Printer, 2u8, "UPnP printer")]
    } else {
        seq![]
    };
    media + gateway + printer
}

pub open spec fn ssdp_ballots(rs: Seq<SsdpRecord>, n: int) -> Seq<(DeviceType, u8, &'static str)>
    decreases n,
{
    if n <= 0 {
        seq![]
    } else {
        ssdp_ballots(rs, n - 1) + record_ballots(rs[n - 1])
    }
}

pub open spec fn netbios_ballots(nb: Option<NetbiosResult>) -> Seq<(DeviceType, u8, &'static str)> {
    match nb {
        Some(n) => if n.names@.len() > 0 {
            seq![(DeviceType::Computer, 1u8, "answers NetBIOS name query")]
        } else {
            seq![]
        },
        None => seq![],
    }
}

/// Every vote a device's evidence casts, in the order the evidence is weighed.
pub open spec fn ballots(d: Device, vendor: Option<Seq<char>>) -> Seq<(DeviceType, u8, &'static str)> {
    mdns_ballots(join(service_types(d.mdns@), " "@), mdns_hints().len() as int) + port_ballots(
        d.ports@,
        8,
    ) + vendor_ballots(vendor) + ssdp_ballots(d.ssdp@, d.ssdp@.len() as int) + netbios_ballots(
        d.netbios,
    )
}

/// The total weight cast for `kind`.
pub open spec fn tally(b: Seq<(DeviceType, u8, &'static str)>, kind: DeviceType) -> int
    decreases b.len(),
{
    if b.len() == 0 {
        0
    } else {
        tally(b.drop_last(), kind) + if b.last().0 == kind {
            b.last().1 as int
        } else {
            0
        }
    }
}

/// The evidence texts, each kept once, in first-seen order.
pub open spec fn evidence_of(b: Seq<(DeviceType, u8, &'static str)>) -> Seq<Seq<char>>
    decreases b.len(),
{
    if b.len() == 0 {
        seq![]
    } else {
        let rest = evidence_of(b.drop_last());
        if rest.contains(b.last().2@) {
            rest
        } else {
            rest.push(b.last().2@)
        }
    }
}

pub open spec fn opt_str_view(s: Option<&str>) -> Option<Seq<char>> {
    match s {
        Some(t) => Some(t@),
        None => None,
    }
}

fn mdns_vote(d: &Device, out: &mut Vec<(DeviceType, u8, &'static str)>)
    ensures
        final(out)@ == old(out)@ + mdns_ballots(
            join(service_types(d.mdns@), " "@),
            mdns_hints().len() as int,
        ),
        final(out)@.len() <= old(out)@.len() + 21,
{
    let mut parts: Vec<Vec<char>> = Vec::new();
    let mut i: usize = 0;
    while i < d.mdns.len()
        invariant
            i <= d.mdns@.len(),
            views(parts@) == service_types(d.mdns@).take(i as int),
        decreases d.mdns.len() - i,
    {
        let p = chars_of(d.mdns[i].service_type.as_str());
        proof {
            lemma_views_push(parts@, p);
            assert(service_types(d.mdns@).take(i + 1) =~= service_types(d.mdns@).take(i as int).push(
                d.mdns@[i as int].service_type@,
            ));
        }
        parts.push(p);
        i += 1;
    }
    assert(service_types(d.mdns@).take(d.mdns@.len() as int) =~= service_types(d.mdns@));
    let sep = chars_of(" ");
    let types = join_chars(&parts, &sep);
    let hints = mdns_hint_table();
    let ghost start = out@;
    let mut k: usize = 0;
    while k < hints.len()
        invariant
            k <= hints@.len(),
            hints@ == mdns_hints(),
            types@ == join(service_types(d.mdns@), " "@),
            out@ == start + mdns_ballots(types@, k as int),
            mdns_ballots(types@, k as int).len() <= k,
        decreases hints.len() - k,
    {
        let h = hints[k];
        if has(&types, h.0) {
            out.push((h.1, 3u8, h.2));
        }
        k += 1;
    }
}

fn port_vote(d: &Device, out: &mut Vec<(DeviceType, u8, &'static str)>)
    ensures
        final(out)@ == old(out)@ + port_ballots(d.ports@, 8),
        final(out)@.len() <= old(out)@.len() + 8,
{
    let ghost start = out@;
    let mut k: usize = 0;
    while k < PORT_HINT_COUNT
        invariant
            k <= 8,
            out@ == start + port_ballots(d.ports@, k as int),
            port_ballots(d.ports@, k as int).len() <= k,
        decreases 8 - k,
    {
        let mut fires = false;
        let mut j: usize = 0;
        while j < d.ports.len()
            invariant
                j <= d.ports@.len(),
                k < 8,
                fires == exists|m: int| 0 <= m < j && port_hint_match(k as int, #[trigger] d.ports@[m].port),
            decreases d.ports.len() - j,
        {
            if port_hint_matches(k, d.ports[j].port) {
                fires = true;
            }
            j += 1;
        }
        if fires {
            let (kind, label) = port_hint_of(k);
            out.push((kind, 2u8, label));
        }
        k += 1;
    }
}

fn vendor_vote(vendor: Option<&str>, out: &mut Vec<(DeviceType, u8, &'static str)>)
    ensures
        final(out)@ == old(out)@ + vendor_ballots(opt_str_view(vendor)),
        final(out)@.len() <= old(out)@.len() + 1,
{
    let v = match vendor {
        Some(v) => v,
        None => return ,
    };
    let vc = chars_of(v);
    let lower = lowercase(&vc);
    let hints = vendor_hint_table();
    let mut i: usize = 0;
    while i < hints.len()
        invariant
            i <= hints@.len(),
            hints@ == vendor_hints(),
            lower@ == lower_seq(v@),
            opt_str_view(vendor) == Some(v@),
            out@ == old(out)@,
            vendor_pick(lower@, 0) == vendor_pick(lower@, i as int),
        decreases hints.len() - i,
    {
        let h = hints[i];
        if has(&lower, h.0) {
            assert(vendor_pick(lower@, i as int) == Some(i as int));
            assert(opt_str_view(vendor) == Some(v@));
            assert(vendor_ballots(opt_str_view(vendor)) == seq![(vendor_hints()[i as int].1, 1u8, vendor_hints()[i as int].2)]);
            out.push((h.1, 1u8, h.2));
            assert(out@ =~= old(out)@ + vendor_ballots(opt_str_view(vendor)));
            return ;
        }
        i += 1;
    }
}

fn ssdp_vote(d: &Device, out: &mut Vec<(DeviceType, u8, &'static str)>)
    ensures
        final(out)@ == old(out)@ + ssdp_ballots(d.ssdp@, d.ssdp@.len() as int),
        final(out)@.len() <= old(out)@.len() + 3 * d.ssdp@.len(),
{
    let ghost start = out@;
    let mut i: usize = 0;
    while i < d.ssdp.len()
        invariant
            i <= d.ssdp@.len(),
            out@ == start + ssdp_ballots(d.ssdp@, i as int),
            out@.len() <= start.len() + 3 * i,
        decreases d.ssdp.len() - i,
    {
        let r = &d.ssdp[i];
        let t: Vec<char> = match &r.device_type {
            Some(s) => chars_of(s.as_str()),
            None => Vec::new(),
        };
        assert(t@ == opt_text(r.device_type));
        let ghost before = out@;
        if has(&t, "MediaRenderer") || has(&t, "MediaServer") {
            out.push((DeviceType::Media, 2u8, "UPnP media device"));
        }
        if has(&t, "InternetGatewayDevice") {
            out.push((DeviceType::Router, 3u8, "UPnP gateway device"));
        }
        if has(&t, "Printer") {
            out.push((DeviceType::Printer, 2u8, "UPnP printer"));
        }
        proof {
            assert(out@ =~= before + record_ballots(d.ssdp@[i as int]));
            assert(start + ssdp_ballots(d.ssdp@, i + 1) =~= start + ssdp_ballots(d.ssdp@, i as int)
                + record_ballots(d.ssdp@[i as int]));
        }
        i += 1;
    }
}

fn netbios_vote(d: &Device, out: &mut Vec<(DeviceType, u8, &'static str)>)
    ensures
        final(out)@ == old(out)@ + netbios_ballots(d.netbios),
        final(out)@.len() <= old(out)@.len() + 1,
{
    match &d.netbios {
        Some(n) => {
            if n.names.len() > 0 {
                out.push((DeviceType::Computer, 1u8, "answers NetBIOS name query"));
                assert(out@ =~= old(out)@ + netbios_ballots(d.netbios));
            } else {
                assert(out@ =~= old(out)@ + netbios_ballots(d.netbios));
            }
        },
        None => {
            assert(out@ =~= old(out)@ + netbios_ballots(d.netbios));
        },
    }
}

/// The total weight cast for `kind`.
fn tally_of(b: &Vec<(DeviceType, u8, &'static str)>, kind: DeviceType) -> (t: u64)
    requires
        b@.len() <= 0xffff_ffff_ffff,
    ensures
        t == tally(b@, kind),
{
    let mut t: u64 = 0;
    let mut i: usize = 0;
    while i < b.len()
        invariant
            i <= b@.len(),
            b@.len() <= 0xffff_ffff_ffff,
            t == tally(b@.take(i as int), kind),
            t <= 255 * i,
        decreases b.len() - i,
    {
        proof {
            assert(b@.take(i + 1).drop_last() =~= b@.take(i as int));
        }
        if b[i].0 == kind {
            t = t + b[i].1 as u64;
        }
        i += 1;
    }
    assert(b@.take(b@.len() as int) =~= b@);
    t
}

/// The evidence texts, each kept once.
fn evidence_list(b: &Vec<(DeviceType, u8, &'static str)>) -> (ev: Vec<String>)
    ensures
        strings_view(ev@) == evidence_of(b@),
{
    let mut ev: Vec<String> = Vec::new();
    let mut i: usize = 0;
    while i < b.len()
        invariant
            i <= b@.len(),
            strings_view(ev@) == evidence_of(b@.take(i as int)),
        decreases b.len() - i,
    {
        proof {
            assert(b@.take(i + 1).drop_last() =~= b@.take(i as int));
        }
        let label = b[i].2;
        let mut seen = false;
        let mut j: usize = 0;
        while j < ev.len()
            invariant
                j <= ev@.len(),
                seen == exists|m: int| 0 <= m < j && #[trigger] ev@[m]@ == label@,
            decreases ev.len() - j,
        {
            if str_eq(ev[j].as_str(), label) {
                seen = true;
            }
            j += 1;
        }
        proof {
            let sv = strings_view(ev@);
            if seen {
                let m = choose|m: int| 0 <= m < ev@.len() && #[trigger] ev@[m]@ == label@;
                assert(sv[m] == label@);
            } else {
                assert forall|m: int| 0 <= m < sv.len() implies sv[m] != label@ by {
                    assert(ev@[m]@ != label@);
                }
            }
        }
        if !seen {
            ev.push(owned(label));
            proof {
                assert(strings_view(ev@) =~= evidence_of(b@.take(i as int)).push(label@));
            }
        }
        i += 1;
    }
    assert(b@.take(b@.len() as int) =~= b@);
    ev
}

/// The class the evidence points to, and the evidence itself.
///
/// The gateway and this machine are known outright; anything else is decided
/// by weighted votes from mDNS service types, open ports, the hardware vendor,
/// UPnP device types and NetBIOS, and the class with the most weight wins.
pub fn classify(device: &Device, vendor: Option<&str>) -> (r: (DeviceType, Vec<String>))
    requires
        device.ssdp@.len() <= 0xffff_ffff,
    ensures
        device.is_gateway ==> r.0 == DeviceType::Router && strings_view(r.1@) == seq![
            "carries the default route"@,
        ],
        !device.is_gateway && device.is_self ==> r.0 == DeviceType::Computer && strings_view(r.1@)
            == seq!["this machine"@],
        !device.is_gateway && !device.is_self ==> {
            let b = ballots(*device, opt_str_view(vendor));
            &&& strings_view(r.1@) == evidence_of(b)
            &&& b.len() == 0 ==> r.0 == DeviceType::Unknown
            &&& b.len() > 0 ==> (exists|i: int| 0 <= i < b.len() && #[trigger] b[i].0 == r.0)
            &&& b.len() > 0 ==> forall|i: int| 0 <= i < b.len() ==> tally(b, #[trigger] b[i].0) <= tally(b, r.0)
        },
{
    if device.is_gateway {
        let ev = vec![owned("carries the default route")];
        assert(strings_view(ev@) =~= seq!["carries the default route"@]);
        return (DeviceType::Router, ev);
    }
    if device.is_self {
        let ev = vec![owned("this machine")];
        assert(strings_view(ev@) =~= seq!["this machine"@]);
        return (DeviceType::Computer, ev);
    }
    let mut b: Vec<(DeviceType, u8, &'static str)> = Vec::new();
    mdns_vote(device, &mut b);
    port_vote(device, &mut b);
    vendor_vote(vendor, &mut b);
    ssdp_vote(device, &mut b);
    netbios_vote(device, &mut b);
    assert(b@ =~= ballots(*device, opt_str_view(vendor)));
    let evidence = evidence_list(&b);
    if b.len() == 0 {
        return (DeviceType::Unknown, Vec::new());
    }
    let mut best = b[0].0;
    let mut best_weight = tally_of(&b, best);
    let mut i: usize = 1;
    while i < b.len()
        invariant
            1 <= i <= b@.len(),
            b@.len() <= 0xffff_ffff_ffff,
            exists|m: int| 0 <= m < i && #[trigger] b@[m].0 == best,
            best_weight == tally(b@, best),
            forall|m: int| 0 <= m < i ==> tally(b@, #[trigger] b@[m].0) <= best_weight,
        decreases b.len() - i,
    {
        let w = tally_of(&b, b[i].0);
        if w >= best_weight {
            best = b[i].0;
            best_weight = w;
        }
        i += 1;
    }
    (best, evidence)
}

/* -------------------------------------------------------------- display name */

/// The first advertised hostname, searching the services in order from `i`.
pub open spec fn first_hostname(m: Seq<MdnsService>, i: int) -> Option<Seq<char>>
    decreases m.len() - i,
{
    if i < 0 || i >= m.len() {
        None
    } else if m[i].hostname is Some {
        Some(m[i].hostname->0@)
    } else {
        first_hostname(m, i + 1)
    }
}

/// A name made only of hex digits and dashes, at least twenty long: a bare UUID.
pub open spec fn uuid_like(name: Seq<char>) -> bool {
    name.len() >= 20 && forall|k: int| 0 <= k < name.len() ==> is_hex(#[trigger] name[k]) || name[k] == '-'
}

/// The first instance name that means something to a human.
pub open spec fn first_plain_name(m: Seq<MdnsService>, i: int) -> Option<Seq<char>>
    decreases m.len() - i,
{
    if i < 0 || i >= m.len() {
        None
    } else if m[i].name@.len() > 0 && !uuid_like(m[i].name@) {
        Some(m[i].name@)
    } else {
        first_plain_name(m, i + 1)
    }
}

pub open spec fn first_friendly(r: Seq<SsdpRecord>, i: int) -> Option<Seq<char>>
    decreases r.len() - i,
{
    if i < 0 || i >= r.len() {
        None
    } else if r[i].friendly_name is Some {
        Some(r[i].friendly_name->0@)
    } else {
        first_friendly(r, i + 1)
    }
}

pub open spec fn port_title(p: PortInfo) -> Option<Seq<char>> {
    match p.banner {
        Some(Banner::Http { title: Some(t), .. }) => Some(t@),
        _ => None,
    }
}

pub open spec fn first_title(p: Seq<PortInfo>, i: int) -> Option<Seq<char>>
    decreases p.len() - i,
{
    if i < 0 || i >= p.len() {
        None
    } else if port_title(p[i]) is Some {
        port_title(p[i])
    } else {
        first_title(p, i + 1)
    }
}

pub open spec fn netbios_first(nb: Option<NetbiosResult>) -> Option<Seq<char>> {
    match nb {
        Some(n) => if n.names@.len() > 0 {
            Some(n.names@[0]@)
        } else {
            None
        },
        None => None,
    }
}

/// A hostname without its trailing dot and `.local` suffix.
pub open spec fn clean_hostname(h: Seq<char>) -> Seq<char> {
    trim_end_matches(trim_end_matches(h, "."@), ".local"@)
}

/// The most human-meaningful name available, in descending order of quality.
pub open spec fn display_name_spec(d: Device, vendor: Option<Seq<char>>) -> Seq<char> {
    if first_hostname(d.mdns@, 0) is Some && clean_hostname(first_hostname(d.mdns@, 0)->0).len() > 0 {
        clean_hostname(first_hostname(d.mdns@, 0)->0)
    } else if first_plain_name(d.mdns@, 0) is Some {
        first_plain_name(d.mdns@, 0)->0
    } else if first_friendly(d.ssdp@, 0) is Some {
        first_friendly(d.ssdp@, 0)->0
    } else if netbios_first(d.netbios) is Some {
        netbios_first(d.netbios)->0
    } else if d.reverse_dns is Some {
        trim_end_matches(d.reverse_dns->0@, "."@)
    } else if first_title(d.ports@, 0) is Some {
        first_title(d.ports@, 0)->0
    } else if d.is_gateway {
        "Gateway"@
    } else if vendor is Some {
        vendor->0 + " device"@
    } else {
        d.ip@
    }
}

fn is_uuid_like(name: &str) -> (b: bool)
    ensures
        b == uuid_like(name@),
{
    let c = chars_of(name);
    if c.len() < 20 {
        return false;
    }
    let mut i: usize = 0;
    while i < c.len()
        invariant
            i <= c@.len(),
            c@ == name@,
            forall|k: int| 0 <= k < i ==> is_hex(#[trigger] c@[k]) || c@[k] == '-',
        decreases c.len() - i,
    {
        if !(hex(c[i]) || c[i] == '-') {
            return false;
        }
        i += 1;
    }
    true
}

fn copy_string(s: &String) -> (o: String)
    ensures
        o@ == s@,
{
    owned(s.as_str())
}

fn find_hostname(m: &Vec<MdnsService>) -> (r: Option<&String>)
    ensures
        r matches Some(h) ==> first_hostname(m@, 0) == Some(h@),
        r is None ==> first_hostname(m@, 0) is None,
{
    let mut i: usize = 0;
    while i < m.len()
        invariant
            i <= m@.len(),
            first_hostname(m@, 0) == first_hostname(m@, i as int),
        decreases m.len() - i,
    {
        if let Some(h) = &m[i].hostname {
            return Some(h);
        }
        i += 1;
    }
    None
}

fn find_plain_name(m: &Vec<MdnsService>) -> (r: Option<&String>)
    ensures
        r matches Some(h) ==> first_plain_name(m@, 0) == Some(h@),
        r is None ==> first_plain_name(m@, 0) is None,
{
    let mut j: usize = 0;
    while j < m.len()
        invariant
            j <= m@.len(),
            first_plain_name(m@, 0) == first_plain_name(m@, j as int),
        decreases m.len() - j,
    {
        let n = &m[j].name;
        let nc = chars_of(n.as_str());
        if nc.len() > 0 && !is_uuid_like(n.as_str()) {
            return Some(n);
        }
        j += 1;
    }
    None
}

fn find_friendly(r: &Vec<SsdpRecord>) -> (o: Option<&String>)
    ensures
        o matches Some(h) ==> first_friendly(r@, 0) == Some(h@),
        o is None ==> first_friendly(r@, 0) is None,
{
    let mut k: usize = 0;
    while k < r.len()
        invariant
            k <= r@.len(),
            first_friendly(r@, 0) == first_friendly(r@, k as int),
        decreases r.len() - k,
    {
        if let Some(f) = &r[k].friendly_name {
            return Some(f);
        }
        k += 1;
    }
    None
}

fn find_title(ports: &Vec<PortInfo>) -> (o: Option<&String>)
    ensures
        o matches Some(h) ==> first_title(ports@, 0) == Some(h@),
        o is None ==> first_title(ports@, 0) is None,
{
    let mut p: usize = 0;
    while p < ports.len()
        invariant
            p <= ports@.len(),
            first_title(ports@, 0) == first_title(ports@, p as int),
        decreases ports.len() - p,
    {
        match &ports[p].banner {
            Some(Banner::Http { title: Some(t), .. }) => {
                return Some(t);
            },
            _ => {},
        }
        p += 1;
    }
    None
}

/// Picks the most human-meaningful name available, in descending order of quality.
pub fn choose_display_name(device: &Device, vendor: Option<&str>) -> (name: String)
    ensures
        name@ == display_name_spec(*device, opt_str_view(vendor)),
{
    if let Some(h) = find_hostname(&device.mdns) {
        let hc = chars_of(h.as_str());
        let dot = chars_of(".");
        let local = chars_of(".local");
        let a = trim_end_matching(&hc, &dot);
        let clean = trim_end_matching(&a, &local);
        if clean.len() > 0 {
            return string_of(&clean);
        }
    }
    if let Some(n) = find_plain_name(&device.mdns) {
        return copy_string(n);
    }
    if let Some(f) = find_friendly(&device.ssdp) {
        return copy_string(f);
    }
    if let Some(n) = &device.netbios {
        if n.names.len() > 0 {
            return copy_string(&n.names[0]);
        }
    }
    if let Some(r) = &device.reverse_dns {
        let rc = chars_of(r.as_str());
        let dot = chars_of(".");
        let t = trim_end_matching(&rc, &dot);
        return string_of(&t);
    }
    if let Some(t) = find_title(&device.ports) {
        return copy_string(t);
    }
    if device.is_gateway {
        return owned("Gateway");
    }
    match vendor {
        Some(v) => {
            let mut out = owned(v);
            push_str(&mut out, " device");
            out
        },
        None => copy_string(&device.ip),
    }
}

/* ----------------------------------------------------------------- merging */

/// Everything the probes found, keyed by address.
///
/// Addresses are IPv4 values. The latency each ping measured is a
/// floating-point figure and stays with the caller, which attaches it to the
/// merged devices by address.
pub struct CorrelateInput {
    /// Addresses that answered ping.
    pub alive: Vec<u32>,
    pub neighbors: Vec<(u32, String)>,
    pub open_ports: Vec<(u32, Vec<PortInfo>)>,
    pub refused_hosts: Vec<u32>,
    pub mdns: Vec<MdnsService>,
    /// Responders by the address text they answered from.
    pub ssdp: Vec<(String, Vec<SsdpRecord>)>,
    pub netbios: Vec<(u32, NetbiosResult)>,
    pub reverse_dns: Vec<(u32, String)>,
    /// Banners by `ip:port`, plus `ip:port:tls` for a certificate carried
    /// alongside an HTTP banner on the same port.
    pub banners: Vec<(String, Banner)>,
    pub gateway_ip: Option<u32>,
    pub self_ips: Vec<u32>,
    /// This machine's own addresses never appear in its own ARP table.
    pub self_macs: Vec<(u32, String)>,
    pub targets: Vec<ScanTarget>,
    pub local_cidrs: Vec<String>,
}

pub open spec fn mdns_ip(s: MdnsService) -> Option<u32> {
    match s.address {
        Some(a) => parse_ipv4(a@),
        None => None,
    }
}

/// Whether some probe proved `ip` is present: a ping reply, a refused or
/// accepted connection, an mDNS or UPnP announcement, or a NetBIOS answer.
/// A neighbour-table entry alone is not proof.
pub open spec fn evidenced(inp: CorrelateInput, ip: u32) -> bool {
    ||| inp.alive@.contains(ip)
    ||| inp.refused_hosts@.contains(ip)
    ||| (exists|j: int| 0 <= j < inp.open_ports@.len() && #[trigger] inp.open_ports@[j].0 == ip)
    ||| (exists|j: int| 0 <= j < inp.mdns@.len() && mdns_ip(#[trigger] inp.mdns@[j]) == Some(ip))
    ||| (exists|j: int| 0 <= j < inp.ssdp@.len() && parse_ipv4(#[trigger] inp.ssdp@[j].0@) == Some(ip))
    ||| (exists|j: int| 0 <= j < inp.netbios@.len() && #[trigger] inp.netbios@[j].0 == ip)
}

/// Whether one of the first `n` subnets covers `ip`.
pub open spec fn covers_upto(cidrs: Seq<String>, n: int, ip: u32) -> bool {
    exists|j: int|
        0 <= j < n && (#[trigger] parse_cidr_spec(cidrs[j]@) matches Ok(c) && c.first <= ip
            <= c.last)
}

/// Whether one of the local subnets covers `ip`.
pub open spec fn local_covers(cidrs: Seq<String>, ip: u32) -> bool {
    covers_upto(cidrs, cidrs.len() as int, ip)
}

pub open spec fn ranges_cover(r: Seq<crate::netutil::ParsedCidr>, ip: u32) -> bool {
    exists|j: int| 0 <= j < r.len() && r[j].first <= ip <= #[trigger] r[j].last
}

/// The first target range that covers `ip`.
pub open spec fn first_covering(targets: Seq<ScanTarget>, ip: u32, i: int) -> Option<Seq<char>>
    decreases targets.len() - i,
{
    if i < 0 || i >= targets.len() {
        None
    } else if parse_cidr_spec(targets[i].cidr@) matches Ok(c) && c.first <= ip <= c.last {
        Some(targets[i].cidr@)
    } else {
        first_covering(targets, ip, i + 1)
    }
}

/// The address a device's text names (0 for text that is not an address).
pub open spec fn addr_of(d: Device) -> u32 {
    match parse_ipv4(d.ip@) {
        Some(a) => a,
        None => 0,
    }
}

/// Gateway first, then this machine, then by address.
pub open spec fn sort_key(d: Device) -> int {
    (if d.is_gateway {
        0int
    } else if d.is_self {
        1int
    } else {
        2int
    }) * 0x1_0000_0000 + addr_of(d)
}

pub open spec fn opt_string_view(s: Option<String>) -> Option<Seq<char>> {
    match s {
        Some(t) => Some(t@),
        None => None,
    }
}

/// The class and evidence a device carries are the ones its own evidence gives.
pub open spec fn classified(d: Device, vendor: Option<Seq<char>>) -> bool {
    let b = ballots(d, vendor);
    &&& d.is_gateway ==> d.device_type == DeviceType::Router && strings_view(d.type_evidence@)
        == seq!["carries the default route"@]
    &&& !d.is_gateway && d.is_self ==> d.device_type == DeviceType::Computer && strings_view(
        d.type_evidence@,
    ) == seq!["this machine"@]
    &&& !d.is_gateway && !d.is_self ==> {
        &&& strings_view(d.type_evidence@) == evidence_of(b)
        &&& b.len() == 0 ==> d.device_type == DeviceType::Unknown
        &&& b.len() > 0 ==> (exists|i: int| 0 <= i < b.len() && #[trigger] b[i].0 == d.device_type)
        &&& b.len() > 0 ==> forall|i: int|
            0 <= i < b.len() ==> tally(b, #[trigger] b[i].0) <= tally(b, d.device_type)
    }
}

/// Vendor, randomization flag, class and name all follow from the merged record.
pub open spec fn identified(t: OuiTable, targets: Seq<ScanTarget>, d: Device) -> bool {
    let l = lookup_spec(t, opt_string_view(d.mac));
    &&& opt_string_view(d.vendor) == l.0
    &&& d.mac_randomized == (if d.mac is Some {
        Some(l.1)
    } else {
        None
    })
    &&& classified(d, l.0)
    &&& d.display_name@ == display_name_spec(d, l.0)
    &&& opt_string_view(d.source_range) == first_covering(targets, addr_of(d), 0)
}

/// The facts about a merged record that depend on its address alone.
pub open spec fn placed(inp: CorrelateInput, d: Device, a: u32) -> bool {
    &&& d.ip@ == ipv4_text(a)
    &&& d.is_gateway == (inp.gateway_ip == Some(a))
    &&& d.is_self == inp.self_ips@.contains(a)
    &&& d.off_subnet == !local_covers(inp.local_cidrs@, a)
    &&& d.ssdp@.len() <= 0xffff_ffff
}

struct Merge {
    devs: Vec<Device>,
    addrs: Vec<u32>,
}

impl Merge {
    spec fn ok(&self, inp: CorrelateInput) -> bool {
        &&& self.devs@.len() == self.addrs@.len()
        &&& forall|i: int, j: int|
            0 <= i < j < self.addrs@.len() ==> self.addrs@[i] != self.addrs@[j]
        &&& forall|i: int|
            0 <= i < self.devs@.len() ==> placed(inp, #[trigger] self.devs@[i], self.addrs@[i])
    }

    /// The record for `ip`, if there is one.
    fn find(&self, ip: u32) -> (r: Option<usize>)
        ensures
            r matches Some(i) ==> i < self.addrs@.len() && self.addrs@[i as int] == ip,
            r is None ==> !self.addrs@.contains(ip),
    {
        let mut i: usize = 0;
        while i < self.addrs.len()
            invariant
                i <= self.addrs@.len(),
                forall|k: int| 0 <= k < i ==> self.addrs@[k] != ip,
            decreases self.addrs.len() - i,
        {
            if self.addrs[i] == ip {
                return Some(i);
            }
            i += 1;
        }
        None
    }
}

fn covered(locals: &Vec<crate::netutil::ParsedCidr>, ip: u32) -> (b: bool)
    ensures
        b == ranges_cover(locals@, ip),
{
    let mut j: usize = 0;
    while j < locals.len()
        invariant
            j <= locals@.len(),
            forall|k: int| 0 <= k < j ==> !(locals@[k].first <= ip <= #[trigger] locals@[k].last),
        decreases locals.len() - j,
    {
        if locals[j].contains(ip) {
            return true;
        }
        j += 1;
    }
    false
}

fn contains_u32(v: &Vec<u32>, x: u32) -> (b: bool)
    ensures
        b == v@.contains(x),
{
    let mut i: usize = 0;
    while i < v.len()
        invariant
            i <= v@.len(),
            forall|k: int| 0 <= k < i ==> v@[k] != x,
        decreases v.len() - i,
    {
        if v[i] == x {
            return true;
        }
        i += 1;
    }
    false
}

fn has_text(v: &Vec<String>, s: &str) -> (b: bool)
    ensures
        b == exists|k: int| 0 <= k < v@.len() && #[trigger] v@[k]@ == s@,
{
    let mut i: usize = 0;
    while i < v.len()
        invariant
            i <= v@.len(),
            forall|k: int| 0 <= k < i ==> #[trigger] v@[k]@ != s@,
        decreases v.len() - i,
    {
        if str_eq(v[i].as_str(), s) {
            return true;
        }
        i += 1;
    }
    false
}

/// Records `source` on the record for `ip`, creating the record if needed.
fn ensure(
    m: &mut Merge,
    ip: u32,
    source: &str,
    inp: &CorrelateInput,
    locals: &Vec<crate::netutil::ParsedCidr>,
    now: &String,
) -> (idx: usize)
    requires
        old(m).ok(*inp),
        locals_match(locals@, *inp),
    ensures
        final(m).ok(*inp),
        idx < final(m).addrs@.len(),
        final(m).addrs@[idx as int] == ip,
        old(m).addrs@.contains(ip) ==> final(m).addrs@ == old(m).addrs@,
        !old(m).addrs@.contains(ip) ==> final(m).addrs@ == old(m).addrs@.push(ip),
        !old(m).addrs@.contains(ip) ==> !final(m).devs@[idx as int].responded_to_ping,
        forall|k: int| 0 <= k < old(m).devs@.len() && k != idx ==> final(m).devs@[k] == old(m).devs@[k],
        idx < old(m).devs@.len() ==> final(m).devs@[idx as int] == (Device {
            discovered_by: final(m).devs@[idx as int].discovered_by,
            ..old(m).devs@[idx as int]
        }),
        old(m).addrs@.contains(ip) ==> idx < old(m).devs@.len() && strings_view(final(m).devs@[idx as int].discovered_by@)
            == add_name(strings_view(old(m).devs@[idx as int].discovered_by@), source@),
        !old(m).addrs@.contains(ip) ==> strings_view(final(m).devs@[idx as int].discovered_by@) == seq![source@]
            && fresh_record(final(m).devs@[idx as int]) && idx == old(m).devs@.len(),
{
    let idx = match m.find(ip) {
        Some(i) => i,
        None => {
            let mut d = Device::bare(ipv4_string(ip), now.clone());
            d.is_gateway = match inp.gateway_ip {
                Some(g) => g == ip,
                None => false,
            };
            d.is_self = contains_u32(&inp.self_ips, ip);
            d.off_subnet = !covered(locals, ip);
            m.devs.push(d);
            m.addrs.push(ip);
            proof {
                assert forall|i: int, j: int| 0 <= i < j < m.addrs@.len() implies m.addrs@[i] != m.addrs@[j] by {
                    if j == m.addrs@.len() - 1 {
                        assert(old(m).addrs@[i] != ip);
                    }
                }
                assert forall|i: int| 0 <= i < m.devs@.len() implies placed(*inp, #[trigger] m.devs@[i], m.addrs@[i]) by {
                    if i < m.devs@.len() - 1 {
                        assert(placed(*inp, old(m).devs@[i], old(m).addrs@[i]));
                    }
                }
            }
            m.addrs.len() - 1
        },
    };
    proof {
        if !old(m).addrs@.contains(ip) {
            assert(strings_view(m.devs@[idx as int].discovered_by@) =~= Seq::<Seq<char>>::empty());
        } else {
            let w = choose|w: int| 0 <= w < old(m).addrs@.len() && old(m).addrs@[w] == ip;
            assert(w == idx);
        }
    }
    push_unique(&mut m.devs[idx].discovered_by, owned(source));
    proof {
        assert(placed(*inp, m.devs@[idx as int], m.addrs@[idx as int]));
        if !old(m).addrs@.contains(ip) {
            assert(add_name(Seq::<Seq<char>>::empty(), source@) =~= seq![source@]);
        }
    }
    idx
}

proof fn lemma_contains_push(s: Seq<u32>, v: u32)
    ensures
        forall|x: u32| #[trigger] s.push(v).contains(x) == (s.contains(x) || x == v),
{
    assert forall|x: u32| #[trigger] s.push(v).contains(x) == (s.contains(x) || x == v) by {
        if s.push(v).contains(x) {
            let w = choose|w: int| 0 <= w < s.push(v).len() && s.push(v)[w] == x;
            if w < s.len() {
                assert(s[w] == x);
            }
        }
        if s.contains(x) {
            let w = choose|w: int| 0 <= w < s.len() && s[w] == x;
            assert(s.push(v)[w] == x);
        }
        if x == v {
            assert(s.push(v)[s.len() as int] == v);
        }
    }
}

/// After recording `v`, the addresses are the earlier ones plus `v`.
proof fn lemma_grow(before: Seq<u32>, after: Seq<u32>, v: u32)
    requires
        before.contains(v) ==> after == before,
        !before.contains(v) ==> after == before.push(v),
    ensures
        forall|x: u32| #[trigger] after.contains(x) == (before.contains(x) || x == v),
{
    lemma_contains_push(before, v);
}

/// The state the merge keeps between passes: every address so far is a
/// record, and a record answered ping exactly when its address did.
spec fn merge_live(m: Merge, inp: CorrelateInput) -> bool {
    &&& m.ok(inp)
    &&& forall|x: u32| inp.alive@.contains(x) ==> m.addrs@.contains(x)
    &&& forall|k: int|
        0 <= k < m.devs@.len() ==> (#[trigger] m.devs@[k]).responded_to_ping == inp.alive@.contains(
            m.addrs@[k],
        )
}

spec fn locals_match(locals: Seq<crate::netutil::ParsedCidr>, inp: CorrelateInput) -> bool {
    forall|x: u32| #[trigger] ranges_cover(locals, x) == local_covers(inp.local_cidrs@, x)
}

fn pass_alive(
    m: &mut Merge,
    inp: &CorrelateInput,
    locals: &Vec<crate::netutil::ParsedCidr>,
    now: &String,
)
    requires
        old(m).ok(*inp),
        old(m).addrs@.len() == 0,
        locals_match(locals@, *inp),
    ensures
        merge_live(*final(m), *inp),
        forall|x: u32| final(m).addrs@.contains(x) == inp.alive@.contains(x),
        sourced(*inp, *final(m), 1),
{
    proof {
        lemma_sourcing_start(*inp, *m, 1);
    }
    let mut i: usize = 0;
    while i < inp.alive.len()
        invariant
            i <= inp.alive@.len(),
            m.ok(*inp),
            sourcing(*inp, *m, 1, i as int),
            locals_match(locals@, *inp),
            forall|x: u32| m.addrs@.contains(x) == inp.alive@.take(i as int).contains(x),
            forall|k: int|
                0 <= k < m.devs@.len() ==> (#[trigger] m.devs@[k]).responded_to_ping
                    == inp.alive@.take(i as int).contains(m.addrs@[k]),
        decreases inp.alive.len() - i,
    {
        let ip = inp.alive[i];
        let ghost before = m.addrs@;
        let ghost devs_before = m.devs@;
        let ghost mb = *m;
        let idx = ensure(m, ip, "icmp", inp, locals, now);
        proof {
            lemma_kept(if mb.addrs@.contains(ip) { Some(mb.devs@[idx as int]) } else { None }, m.devs@[idx as int]);
        }
        m.devs[idx].responded_to_ping = true;
        proof {
            reveal_strlit("icmp");
            assert(alive_cands(*inp)[i as int] == Some(ip));
            lemma_source_step(*inp, 1, mb, *m, i as int, ip, idx as int);
            let t0 = inp.alive@.take(i as int);
            let t1 = inp.alive@.take(i + 1);
            assert(t1 =~= t0.push(ip));
            lemma_contains_push(t0, ip);
            lemma_grow(before, m.addrs@, ip);
            assert forall|k: int| 0 <= k < m.devs@.len() implies (#[trigger] m.devs@[k]).responded_to_ping
                == t1.contains(m.addrs@[k]) by {
                if k != idx {
                    assert(m.addrs@[k] != ip);
                    assert(k < before.len());
                    assert(m.devs@[k] == devs_before[k]);
                    assert(m.addrs@[k] == before[k]);
                }
            }
        }
        i += 1;
    }
    assert(inp.alive@.take(inp.alive@.len() as int) =~= inp.alive@);
    proof {
        lemma_sourcing_done(*inp, *m, 1);
    }
}

/// Whether one of the first `n` candidates is `x`.
pub open spec fn cand_has(c: Seq<Option<u32>>, n: int, x: u32) -> bool {
    exists|j: int| 0 <= j < n && c[j] == Some(x)
}

proof fn lemma_cand_step(c: Seq<Option<u32>>, j: int)
    requires
        0 <= j < c.len(),
    ensures
        forall|x: u32| #[trigger] cand_has(c, j + 1, x) == (cand_has(c, j, x) || c[j] == Some(x)),
{
    assert forall|x: u32| #[trigger] cand_has(c, j + 1, x) == (cand_has(c, j, x) || c[j] == Some(x)) by {
        if cand_has(c, j + 1, x) {
            let w = choose|w: int| 0 <= w < j + 1 && c[w] == Some(x);
            if w < j {
                assert(cand_has(c, j, x));
            }
        }
    }
}

pub open spec fn refused_cands(inp: CorrelateInput) -> Seq<Option<u32>> {
    Seq::new(inp.refused_hosts@.len(), |j: int| Some(inp.refused_hosts@[j]))
}

pub open spec fn port_cands(inp: CorrelateInput) -> Seq<Option<u32>> {
    Seq::new(inp.open_ports@.len(), |j: int| Some(inp.open_ports@[j].0))
}

pub open spec fn mdns_cands(inp: CorrelateInput) -> Seq<Option<u32>> {
    Seq::new(inp.mdns@.len(), |j: int| mdns_ip(inp.mdns@[j]))
}

pub open spec fn ssdp_cands(inp: CorrelateInput) -> Seq<Option<u32>> {
    Seq::new(inp.ssdp@.len(), |j: int| parse_ipv4(inp.ssdp@[j].0@))
}

pub open spec fn netbios_cands(inp: CorrelateInput) -> Seq<Option<u32>> {
    Seq::new(inp.netbios@.len(), |j: int| Some(inp.netbios@[j].0))
}

pub open spec fn alive_cands(inp: CorrelateInput) -> Seq<Option<u32>> {
    Seq::new(inp.alive@.len(), |j: int| Some(inp.alive@[j]))
}

/// The addresses each source names, in merge order: ping replies, refused
/// connections, open ports, mDNS, UPnP, NetBIOS.
pub open spec fn stage_cands(inp: CorrelateInput, stage: int) -> Seq<Option<u32>> {
    if stage == 1 {
        alive_cands(inp)
    } else if stage == 2 {
        refused_cands(inp)
    } else if stage == 3 {
        port_cands(inp)
    } else if stage == 4 {
        mdns_cands(inp)
    } else if stage == 5 {
        ssdp_cands(inp)
    } else {
        netbios_cands(inp)
    }
}

/// The word a source records in `discovered_by`.
pub open spec fn stage_tag(stage: int) -> Seq<char> {
    if stage == 1 {
        "icmp"@
    } else if stage == 2 {
        "tcp-refused"@
    } else if stage == 3 {
        "tcp"@
    } else if stage == 4 {
        "mdns"@
    } else if stage == 5 {
        "ssdp"@
    } else {
        "netbios"@
    }
}

/// Source `stage` names `a`.
pub open spec fn hit(inp: CorrelateInput, stage: int, a: u32) -> bool {
    cand_has(stage_cands(inp, stage), stage_cands(inp, stage).len() as int, a)
}

/// How the first `n` sources found `a`, in merge order.
pub open spec fn tags_upto(inp: CorrelateInput, a: u32, n: int) -> Seq<Seq<char>>
    decreases n,
{
    if n <= 0 {
        Seq::<Seq<char>>::empty()
    } else {
        tags_upto(inp, a, n - 1) + (if hit(inp, n, a) {
            seq![stage_tag(n)]
        } else {
            Seq::<Seq<char>>::empty()
        })
    }
}

/// One of the first `n` sources names `a`.
pub open spec fn seen(inp: CorrelateInput, a: u32, n: int) -> bool
    decreases n,
{
    n > 0 && (seen(inp, a, n - 1) || hit(inp, n, a))
}

/// The value given for `a` last among the first `n` pairs.
pub open spec fn last_of<T>(ps: Seq<(u32, T)>, a: u32, n: int) -> Option<T>
    decreases n,
{
    if n <= 0 || n > ps.len() {
        None
    } else if ps[n - 1].0 == a {
        Some(ps[n - 1].1)
    } else {
        last_of(ps, a, n - 1)
    }
}

/// `p` is a copy, element by element, of `l`.
pub open spec fn all_cloned<T: Clone>(l: Seq<T>, p: Seq<T>) -> bool {
    &&& l.len() == p.len()
    &&& forall|i: int| 0 <= i < l.len() ==> cloned(l[i], #[trigger] p[i])
}

/// A port list as the port scan gave it for `a`: a copy of the last list
/// reported for that address, or nothing.
pub open spec fn ports_given(inp: CorrelateInput, p: Seq<PortInfo>, a: u32) -> bool {
    match last_of(inp.open_ports@, a, inp.open_ports@.len() as int) {
        Some(l) => all_cloned(l@, p),
        None => p.len() == 0,
    }
}

/// What the result says of the record for `a`: how it was found, in merge
/// order; its ports; its UPnP and NetBIOS answers (copies of the last given
/// for the address); its mDNS services (copies of those announced from it,
/// ordered by type and name); its MAC (the neighbour table's last word, else
/// the first NetBIOS adapter MAC, else this machine's interface MAC); its
/// reverse-DNS name; and its host names (from mDNS, then NetBIOS, then
/// reverse DNS, each once).
pub open spec fn reported(inp: CorrelateInput, d: Device, a: u32) -> bool {
    let rd = inp.reverse_dns@;
    &&& strings_view(d.discovered_by@) == tags_upto(inp, a, 6)
    &&& ports_reported(inp, d, a)
    &&& match last_ssdp(inp.ssdp@, a, inp.ssdp@.len() as int) {
        Some(l) => all_cloned(l@, d.ssdp@),
        None => d.ssdp@.len() == 0,
    }
    &&& match last_of(inp.netbios@, a, inp.netbios@.len() as int) {
        Some(r) => d.netbios matches Some(x) && cloned(r, x),
        None => d.netbios is None,
    }
    &&& exists|ms: Seq<MdnsService>| all_cloned(mdns_upto(inp, a, inp.mdns@.len() as int), ms) && stable_by_key(d.mdns@, ms)
    &&& exists|nm: Option<String>|
        opt_cloned(first_mac(inp.netbios@, a, inp.netbios@.len() as int), nm) && d.mac == match last_for(
            inp.neighbors@,
            a,
            inp.neighbors@.len() as int,
        ) {
            Some(x) => Some(x),
            None => match nm {
                Some(y) => Some(y),
                None => first_for(inp.self_macs@, a, inp.self_macs@.len() as int),
            },
        }
    &&& opt_string_view(d.reverse_dns) == match last_for(rd, a, rd.len() as int) {
        Some(h) => Some(trim_end_matches(h@, "."@)),
        None => None,
    }
    &&& strings_view(d.hostnames@) == names_for(
        rd,
        a,
        rd.len() as int,
        netbios_hosts(inp, a, inp.netbios@.len() as int, mdns_hosts(inp, a, inp.mdns@.len() as int)),
    )
}

/// A record's ports in the result: those the scan gave for its address, with
/// banners attached and certificate entries added, ordered by port.
pub open spec fn ports_reported(inp: CorrelateInput, d: Device, a: u32) -> bool {
    exists|p0: Seq<PortInfo>, pre: Seq<PortInfo>|
        ports_given(inp, p0, a) && staged(pre, p0, inp.banners@, d.ip@) && stable_by_port(d.ports@, pre)
}

proof fn lemma_tags_distinct(n: int)
    requires
        1 <= n <= 6,
    ensures
        forall|s: int| 1 <= s < n ==> stage_tag(s) != stage_tag(n),
{
    reveal_strlit("icmp");
    reveal_strlit("tcp-refused");
    reveal_strlit("tcp");
    reveal_strlit("mdns");
    reveal_strlit("ssdp");
    reveal_strlit("netbios");
    assert(stage_tag(1)[0] == 'i');
    assert(stage_tag(2).len() == 11);
    assert(stage_tag(3).len() == 3);
    assert(stage_tag(4)[0] == 'm');
    assert(stage_tag(5)[0] == 's');
    assert(stage_tag(6).len() == 7);
}

proof fn lemma_tags_without(inp: CorrelateInput, a: u32, n: int, t: int)
    requires
        0 <= n < t <= 6,
    ensures
        !tags_upto(inp, a, n).contains(stage_tag(t)),
    decreases n,
{
    if n > 0 {
        lemma_tags_without(inp, a, n - 1, t);
        lemma_tags_distinct(t);
        if tags_upto(inp, a, n).contains(stage_tag(t)) {
            let w = choose|w: int| 0 <= w < tags_upto(inp, a, n).len() && tags_upto(inp, a, n)[w] == stage_tag(t);
            if w < tags_upto(inp, a, n - 1).len() {
                assert(tags_upto(inp, a, n - 1)[w] == stage_tag(t));
            }
        }
    }
}

proof fn lemma_unseen(inp: CorrelateInput, a: u32, n: int)
    requires
        !seen(inp, a, n),
    ensures
        tags_upto(inp, a, n) == Seq::<Seq<char>>::empty(),
    decreases n,
{
    if n > 0 {
        lemma_unseen(inp, a, n - 1);
        assert(tags_upto(inp, a, n) =~= Seq::<Seq<char>>::empty());
    }
}

/// The last UPnP list given for the address `a` among the first `n` entries.
pub open spec fn last_ssdp(ps: Seq<(String, Vec<SsdpRecord>)>, a: u32, n: int) -> Option<Vec<SsdpRecord>>
    decreases n,
{
    if n <= 0 || n > ps.len() {
        None
    } else if parse_ipv4(ps[n - 1].0@) == Some(a) {
        Some(ps[n - 1].1)
    } else {
        last_ssdp(ps, a, n - 1)
    }
}

/// The mDNS services announced from `a` among the first `n`, in order.
pub open spec fn mdns_upto(inp: CorrelateInput, a: u32, n: int) -> Seq<MdnsService>
    decreases n,
{
    if n <= 0 || n > inp.mdns@.len() {
        Seq::<MdnsService>::empty()
    } else {
        mdns_upto(inp, a, n - 1) + (if mdns_ip(inp.mdns@[n - 1]) == Some(a) {
            seq![inp.mdns@[n - 1]]
        } else {
            Seq::<MdnsService>::empty()
        })
    }
}

/// The adapter MAC of the first NetBIOS answer from `a` that reports one,
/// among the first `n`.
pub open spec fn first_mac(ps: Seq<(u32, NetbiosResult)>, a: u32, n: int) -> Option<String>
    decreases n,
{
    if n <= 0 || n > ps.len() {
        None
    } else if first_mac(ps, a, n - 1) is Some {
        first_mac(ps, a, n - 1)
    } else if ps[n - 1].0 == a {
        ps[n - 1].1.mac
    } else {
        None
    }
}

/// `l` with each of `xs`, in order, added unless already there.
pub open spec fn add_all(l: Seq<Seq<char>>, xs: Seq<Seq<char>>) -> Seq<Seq<char>>
    decreases xs.len(),
{
    if xs.len() == 0 {
        l
    } else {
        add_name(add_all(l, xs.drop_last()), xs.last())
    }
}

/// The host name an mDNS service gives, trailing dots dropped, when any is left.
pub open spec fn mdns_host(sv: MdnsService) -> Seq<Seq<char>> {
    match sv.hostname {
        Some(h) => if trim_end_matches(h@, "."@).len() > 0 {
            seq![trim_end_matches(h@, "."@)]
        } else {
            Seq::<Seq<char>>::empty()
        },
        None => Seq::<Seq<char>>::empty(),
    }
}

/// Host names from the mDNS services announced from `a` among the first `n`.
pub open spec fn mdns_hosts(inp: CorrelateInput, a: u32, n: int) -> Seq<Seq<char>>
    decreases n,
{
    if n <= 0 || n > inp.mdns@.len() {
        Seq::<Seq<char>>::empty()
    } else if mdns_ip(inp.mdns@[n - 1]) == Some(a) {
        add_all(mdns_hosts(inp, a, n - 1), mdns_host(inp.mdns@[n - 1]))
    } else {
        mdns_hosts(inp, a, n - 1)
    }
}

/// `base` with the NetBIOS names from `a` among the first `n` answers added.
pub open spec fn netbios_hosts(inp: CorrelateInput, a: u32, n: int, base: Seq<Seq<char>>) -> Seq<Seq<char>>
    decreases n,
{
    if n <= 0 || n > inp.netbios@.len() {
        base
    } else if inp.netbios@[n - 1].0 == a {
        add_all(netbios_hosts(inp, a, n - 1, base), strings_view(inp.netbios@[n - 1].1.names@))
    } else {
        netbios_hosts(inp, a, n - 1, base)
    }
}

/// Both absent, or both present with the second a copy of the first.
pub open spec fn opt_cloned<T: Clone>(a: Option<T>, b: Option<T>) -> bool {
    match (a, b) {
        (None, None) => true,
        (Some(x), Some(y)) => cloned(x, y),
        _ => false,
    }
}

/// How many entries of source `s` are merged while source `n` has merged `i`.
pub open spec fn merged_count(n: int, i: int, s: int, len: int) -> int {
    if s < n {
        len
    } else if s == n {
        i
    } else {
        0
    }
}

/// A record's fields filled from the sources merged so far.
pub open spec fn filled(inp: CorrelateInput, d: Device, a: u32, n: int, i: int) -> bool {
    let cp = merged_count(n, i, 3, inp.open_ports@.len() as int);
    let cm = merged_count(n, i, 4, inp.mdns@.len() as int);
    let cs = merged_count(n, i, 5, inp.ssdp@.len() as int);
    let cn = merged_count(n, i, 6, inp.netbios@.len() as int);
    &&& match last_of(inp.open_ports@, a, cp) {
        Some(l) => all_cloned(l@, d.ports@),
        None => d.ports@.len() == 0,
    }
    &&& all_cloned(mdns_upto(inp, a, cm), d.mdns@)
    &&& match last_ssdp(inp.ssdp@, a, cs) {
        Some(l) => all_cloned(l@, d.ssdp@),
        None => d.ssdp@.len() == 0,
    }
    &&& match last_of(inp.netbios@, a, cn) {
        Some(r) => d.netbios matches Some(x) && cloned(r, x),
        None => d.netbios is None,
    }
    &&& opt_cloned(first_mac(inp.netbios@, a, cn), d.mac)
    &&& d.reverse_dns is None
    &&& strings_view(d.hostnames@) == netbios_hosts(inp, a, cn, mdns_hosts(inp, a, cm))
}

/// The facts about each record that depend on which sources found its
/// address, after the first `n` sources are merged.
spec fn sourced(inp: CorrelateInput, m: Merge, n: int) -> bool {
    &&& forall|x: u32| #[trigger] m.addrs@.contains(x) == seen(inp, x, n)
    &&& forall|k: int|
        0 <= k < m.devs@.len() ==> strings_view((#[trigger] m.devs@[k]).discovered_by@) == tags_upto(inp, m.addrs@[k], n)
    &&& forall|k: int| 0 <= k < m.devs@.len() ==> filled(inp, #[trigger] m.devs@[k], m.addrs@[k], n + 1, 0)
}

/// Midway through source `n`: its first `i` entries are merged.
spec fn sourcing(inp: CorrelateInput, m: Merge, n: int, i: int) -> bool {
    &&& forall|x: u32| #[trigger] m.addrs@.contains(x) == (seen(inp, x, n - 1) || cand_has(stage_cands(inp, n), i, x))
    &&& forall|k: int|
        0 <= k < m.devs@.len() ==> strings_view((#[trigger] m.devs@[k]).discovered_by@) == tags_upto(inp, m.addrs@[k], n - 1) + (
        if cand_has(stage_cands(inp, n), i, m.addrs@[k]) {
            seq![stage_tag(n)]
        } else {
            Seq::<Seq<char>>::empty()
        })
    &&& forall|k: int| 0 <= k < m.devs@.len() ==> filled(inp, #[trigger] m.devs@[k], m.addrs@[k], n, i)
}

/// A record made for an address no earlier entry named.
pub open spec fn fresh_record(d: Device) -> bool {
    &&& d.ports@.len() == 0
    &&& d.mdns@.len() == 0
    &&& d.ssdp@.len() == 0
    &&& d.netbios is None
    &&& d.mac is None
    &&& d.hostnames@.len() == 0
    &&& d.reverse_dns is None
}

proof fn lemma_last_none<T>(ps: Seq<(u32, T)>, a: u32, n: int)
    requires
        forall|j: int| 0 <= j < n && j < ps.len() ==> ps[j].0 != a,
    ensures
        last_of(ps, a, n) is None,
    decreases n,
{
    if n > 0 && n <= ps.len() {
        lemma_last_none(ps, a, n - 1);
    }
}

proof fn lemma_ssdp_none(ps: Seq<(String, Vec<SsdpRecord>)>, a: u32, n: int)
    requires
        forall|j: int| 0 <= j < n && j < ps.len() ==> parse_ipv4(ps[j].0@) != Some(a),
    ensures
        last_ssdp(ps, a, n) is None,
    decreases n,
{
    if n > 0 && n <= ps.len() {
        lemma_ssdp_none(ps, a, n - 1);
    }
}

proof fn lemma_mdns_none(inp: CorrelateInput, a: u32, n: int)
    requires
        forall|j: int| 0 <= j < n && j < inp.mdns@.len() ==> mdns_ip(inp.mdns@[j]) != Some(a),
    ensures
        mdns_upto(inp, a, n) == Seq::<MdnsService>::empty(),
    decreases n,
{
    if n > 0 && n <= inp.mdns@.len() {
        lemma_mdns_none(inp, a, n - 1);
        assert(mdns_upto(inp, a, n) =~= Seq::<MdnsService>::empty());
    }
}

proof fn lemma_mac_none(ps: Seq<(u32, NetbiosResult)>, a: u32, n: int)
    requires
        forall|j: int| 0 <= j < n && j < ps.len() ==> ps[j].0 != a,
    ensures
        first_mac(ps, a, n) is None,
    decreases n,
{
    if n > 0 && n <= ps.len() {
        lemma_mac_none(ps, a, n - 1);
    }
}

proof fn lemma_mdns_hosts_none(inp: CorrelateInput, a: u32, n: int)
    requires
        forall|j: int| 0 <= j < n && j < inp.mdns@.len() ==> mdns_ip(inp.mdns@[j]) != Some(a),
    ensures
        mdns_hosts(inp, a, n) == Seq::<Seq<char>>::empty(),
    decreases n,
{
    if n > 0 && n <= inp.mdns@.len() {
        lemma_mdns_hosts_none(inp, a, n - 1);
    }
}

proof fn lemma_netbios_hosts_none(inp: CorrelateInput, a: u32, n: int, base: Seq<Seq<char>>)
    requires
        forall|j: int| 0 <= j < n && j < inp.netbios@.len() ==> inp.netbios@[j].0 != a,
    ensures
        netbios_hosts(inp, a, n, base) == base,
    decreases n,
{
    if n > 0 && n <= inp.netbios@.len() {
        lemma_netbios_hosts_none(inp, a, n - 1, base);
    }
}

/// A source that names `x` among its first `c` entries... or not: with none
/// of them naming it, the fields it fills are empty for `x`.
proof fn lemma_stage_empty(inp: CorrelateInput, x: u32, s: int, c: int)
    requires
        3 <= s <= 6,
        0 <= c <= stage_cands(inp, s).len(),
        !cand_has(stage_cands(inp, s), c, x),
    ensures
        s == 3 ==> last_of(inp.open_ports@, x, c) is None,
        s == 4 ==> mdns_upto(inp, x, c) == Seq::<MdnsService>::empty() && mdns_hosts(inp, x, c) == Seq::<Seq<char>>::empty(),
        s == 5 ==> last_ssdp(inp.ssdp@, x, c) is None,
        s == 6 ==> last_of(inp.netbios@, x, c) is None && first_mac(inp.netbios@, x, c) is None && forall|base: Seq<Seq<char>>|
            #[trigger] netbios_hosts(inp, x, c, base) == base,
{
    let cs = stage_cands(inp, s);
    if s == 3 {
        assert forall|j: int| 0 <= j < c && j < inp.open_ports@.len() implies inp.open_ports@[j].0 != x by {
            assert(cs[j] == Some(inp.open_ports@[j].0));
        }
        lemma_last_none(inp.open_ports@, x, c);
    } else if s == 4 {
        assert forall|j: int| 0 <= j < c && j < inp.mdns@.len() implies mdns_ip(inp.mdns@[j]) != Some(x) by {
            assert(cs[j] == mdns_ip(inp.mdns@[j]));
        }
        lemma_mdns_none(inp, x, c);
        lemma_mdns_hosts_none(inp, x, c);
    } else if s == 5 {
        assert forall|j: int| 0 <= j < c && j < inp.ssdp@.len() implies parse_ipv4(inp.ssdp@[j].0@) != Some(x) by {
            assert(cs[j] == parse_ipv4(inp.ssdp@[j].0@));
        }
        lemma_ssdp_none(inp.ssdp@, x, c);
    } else {
        assert forall|j: int| 0 <= j < c && j < inp.netbios@.len() implies inp.netbios@[j].0 != x by {
            assert(cs[j] == Some(inp.netbios@[j].0));
        }
        lemma_last_none(inp.netbios@, x, c);
        lemma_mac_none(inp.netbios@, x, c);
        assert forall|base: Seq<Seq<char>>| #[trigger] netbios_hosts(inp, x, c, base) == base by {
            lemma_netbios_hosts_none(inp, x, c, base);
        }
    }
}

proof fn lemma_seen_not_hit(inp: CorrelateInput, x: u32, s: int, n: int)
    requires
        1 <= s <= n,
        !seen(inp, x, n),
    ensures
        !hit(inp, s, x),
    decreases n,
{
    if s < n {
        lemma_seen_not_hit(inp, x, s, n - 1);
    }
}

proof fn lemma_sourcing_start(inp: CorrelateInput, m: Merge, n: int)
    requires
        1 <= n <= 6,
        sourced(inp, m, n - 1),
    ensures
        sourcing(inp, m, n, 0),
{
    assert forall|k: int| 0 <= k < m.devs@.len() implies strings_view((#[trigger] m.devs@[k]).discovered_by@)
        == tags_upto(inp, m.addrs@[k], n - 1) + (if cand_has(stage_cands(inp, n), 0, m.addrs@[k]) {
        seq![stage_tag(n)]
    } else {
        Seq::<Seq<char>>::empty()
    }) by {
        assert(tags_upto(inp, m.addrs@[k], n - 1) + Seq::<Seq<char>>::empty() =~= tags_upto(inp, m.addrs@[k], n - 1));
    }
}

proof fn lemma_sourcing_done(inp: CorrelateInput, m: Merge, n: int)
    requires
        1 <= n <= 6,
        sourcing(inp, m, n, stage_cands(inp, n).len() as int),
    ensures
        sourced(inp, m, n),
{
    assert(stage_cands(inp, 3).len() == inp.open_ports@.len());
    assert(stage_cands(inp, 4).len() == inp.mdns@.len());
    assert(stage_cands(inp, 5).len() == inp.ssdp@.len());
    assert(stage_cands(inp, 6).len() == inp.netbios@.len());
    assert forall|k: int| 0 <= k < m.devs@.len() implies filled(inp, #[trigger] m.devs@[k], m.addrs@[k], n + 1, 0) by {
        assert(filled(inp, m.devs@[k], m.addrs@[k], n, stage_cands(inp, n).len() as int));
    }
}

proof fn lemma_all_cloned_push<T: Clone>(l: Seq<T>, p: Seq<T>, x: T, y: T)
    requires
        all_cloned(l, p),
        cloned(x, y),
    ensures
        all_cloned(l.push(x), p.push(y)),
{
}

/// The record `ensure` hands back keeps what it had, or holds nothing yet.
proof fn lemma_kept(o: Option<Device>, d: Device)
    requires
        match o {
            Some(x) => d.ports == x.ports && d.mdns == x.mdns && d.ssdp == x.ssdp && d.netbios == x.netbios && d.mac
                == x.mac && d.reverse_dns == x.reverse_dns && d.hostnames == x.hostnames,
            None => fresh_record(d),
        },
    ensures
        d.ports@ == (match o {
            Some(x) => x.ports@,
            None => Seq::<PortInfo>::empty(),
        }),
        d.mdns@ == (match o {
            Some(x) => x.mdns@,
            None => Seq::<MdnsService>::empty(),
        }),
        d.ssdp@ == (match o {
            Some(x) => x.ssdp@,
            None => Seq::<SsdpRecord>::empty(),
        }),
        d.netbios == (match o {
            Some(x) => x.netbios,
            None => None,
        }),
        d.mac == (match o {
            Some(x) => x.mac,
            None => None,
        }),
        o is None || o->0.mac is None ==> d.mac is None,
        d.reverse_dns == (match o {
            Some(x) => x.reverse_dns,
            None => None,
        }),
        strings_view(d.hostnames@) == (match o {
            Some(x) => strings_view(x.hostnames@),
            None => Seq::<Seq<char>>::empty(),
        }),
{
    if o is None {
        assert(strings_view(d.hostnames@) =~= Seq::<Seq<char>>::empty());
        assert(d.ports@ =~= Seq::<PortInfo>::empty());
        assert(d.mdns@ =~= Seq::<MdnsService>::empty());
        assert(d.ssdp@ =~= Seq::<SsdpRecord>::empty());
    }
}

/// What merging entry `i` of source `n` does to the record it names.
pub open spec fn entry_applied(inp: CorrelateInput, n: int, i: int, old: Option<Device>, d: Device) -> bool {
    &&& if n == 3 {
        all_cloned(inp.open_ports@[i].1@, d.ports@)
    } else {
        d.ports@ == (match old {
            Some(o) => o.ports@,
            None => Seq::<PortInfo>::empty(),
        })
    }
    &&& if n == 4 {
        d.mdns@.len() > 0 && d.mdns@.drop_last() == (match old {
            Some(o) => o.mdns@,
            None => Seq::<MdnsService>::empty(),
        }) && cloned(inp.mdns@[i], d.mdns@.last())
    } else {
        d.mdns@ == (match old {
            Some(o) => o.mdns@,
            None => Seq::<MdnsService>::empty(),
        })
    }
    &&& if n == 5 {
        all_cloned(inp.ssdp@[i].1@, d.ssdp@)
    } else {
        d.ssdp@ == (match old {
            Some(o) => o.ssdp@,
            None => Seq::<SsdpRecord>::empty(),
        })
    }
    &&& if n == 6 {
        d.netbios matches Some(x) && cloned(inp.netbios@[i].1, x)
    } else {
        d.netbios == (match old {
            Some(o) => o.netbios,
            None => None,
        })
    }
    &&& d.reverse_dns == (match old {
        Some(o) => o.reverse_dns,
        None => None,
    })
    &&& strings_view(d.hostnames@) == (if n == 4 {
        add_all(
            match old {
                Some(o) => strings_view(o.hostnames@),
                None => Seq::<Seq<char>>::empty(),
            },
            mdns_host(inp.mdns@[i]),
        )
    } else if n == 6 {
        add_all(
            match old {
                Some(o) => strings_view(o.hostnames@),
                None => Seq::<Seq<char>>::empty(),
            },
            strings_view(inp.netbios@[i].1.names@),
        )
    } else {
        match old {
            Some(o) => strings_view(o.hostnames@),
            None => Seq::<Seq<char>>::empty(),
        }
    })
    &&& if n == 6 && (old is None || old->0.mac is None) {
        opt_cloned(inp.netbios@[i].1.mac, d.mac)
    } else {
        d.mac == (match old {
            Some(o) => o.mac,
            None => None,
        })
    }
}

/// One more entry of source `n`, naming `ip`, merged into the record at `idx`.
proof fn lemma_source_step(inp: CorrelateInput, n: int, before: Merge, after: Merge, i: int, ip: u32, idx: int)
    requires
        1 <= n <= 6,
        0 <= i < stage_cands(inp, n).len(),
        stage_cands(inp, n)[i] == Some(ip),
        sourcing(inp, before, n, i),
        before.devs@.len() == before.addrs@.len(),
        after.ok(inp),
        0 <= idx < after.addrs@.len(),
        after.addrs@[idx] == ip,
        before.addrs@.contains(ip) ==> after.addrs@ == before.addrs@ && idx < before.devs@.len(),
        !before.addrs@.contains(ip) ==> after.addrs@ == before.addrs@.push(ip) && idx == before.devs@.len(),
        forall|k: int| 0 <= k < before.devs@.len() && k != idx ==> after.devs@[k] == before.devs@[k],
        before.addrs@.contains(ip) ==> strings_view(after.devs@[idx].discovered_by@) == add_name(
            strings_view(before.devs@[idx].discovered_by@),
            stage_tag(n),
        ),
        !before.addrs@.contains(ip) ==> strings_view(after.devs@[idx].discovered_by@) == seq![stage_tag(n)],
        entry_applied(
            inp,
            n,
            i,
            if before.addrs@.contains(ip) { Some(before.devs@[idx]) } else { None },
            after.devs@[idx],
        ),
    ensures
        sourcing(inp, after, n, i + 1),
{
    let c = stage_cands(inp, n);
    lemma_cand_step(c, i);
    lemma_grow(before.addrs@, after.addrs@, ip);
    if n == 3 {
        assert(c[i] == Some(inp.open_ports@[i].0));
    } else if n == 4 {
        assert(c[i] == mdns_ip(inp.mdns@[i]));
    } else if n == 5 {
        assert(c[i] == parse_ipv4(inp.ssdp@[i].0@));
    } else if n == 6 {
        assert(c[i] == Some(inp.netbios@[i].0));
    }
    assert forall|k: int| 0 <= k < after.devs@.len() implies strings_view((#[trigger] after.devs@[k]).discovered_by@)
        == tags_upto(inp, after.addrs@[k], n - 1) + (if cand_has(c, i + 1, after.addrs@[k]) {
        seq![stage_tag(n)]
    } else {
        Seq::<Seq<char>>::empty()
    }) by {
        if k == idx {
            if before.addrs@.contains(ip) {
                let old_tags = strings_view(before.devs@[idx].discovered_by@);
                assert(before.addrs@[idx] == ip);
                lemma_tags_without(inp, ip, n - 1, n);
                if cand_has(c, i, ip) {
                    assert(old_tags[old_tags.len() - 1] == stage_tag(n));
                    assert(old_tags.contains(stage_tag(n)));
                } else {
                    assert(old_tags =~= tags_upto(inp, ip, n - 1));
                    assert(tags_upto(inp, ip, n - 1) + seq![stage_tag(n)] =~= old_tags.push(stage_tag(n)));
                }
            } else {
                assert(!seen(inp, ip, n - 1));
                lemma_unseen(inp, ip, n - 1);
                assert(Seq::<Seq<char>>::empty() + seq![stage_tag(n)] =~= seq![stage_tag(n)]);
            }
        } else {
            assert(after.addrs@[k] != after.addrs@[idx]);
            assert(after.addrs@[k] == before.addrs@[k]);
            assert(after.devs@[k] == before.devs@[k]);
        }
    }
    assert forall|k: int| 0 <= k < after.devs@.len() implies filled(inp, #[trigger] after.devs@[k], after.addrs@[k], n, i + 1) by {
        if k == idx {
            let d = after.devs@[idx];
            if before.addrs@.contains(ip) {
                let o = before.devs@[idx];
                assert(before.addrs@[idx] == ip);
                assert(filled(inp, o, ip, n, i));
                if n == 4 {
                    assert(mdns_upto(inp, ip, i + 1) == mdns_upto(inp, ip, i).push(inp.mdns@[i]));
                    assert(d.mdns@ == o.mdns@.push(d.mdns@.last()));
                    lemma_all_cloned_push(mdns_upto(inp, ip, i), o.mdns@, inp.mdns@[i], d.mdns@.last());
                    assert(mdns_hosts(inp, ip, i + 1) == add_all(mdns_hosts(inp, ip, i), mdns_host(inp.mdns@[i])));
                }
                if n == 6 {
                    let cm = inp.mdns@.len() as int;
                    assert(netbios_hosts(inp, ip, i + 1, mdns_hosts(inp, ip, cm)) == add_all(
                        netbios_hosts(inp, ip, i, mdns_hosts(inp, ip, cm)),
                        strings_view(inp.netbios@[i].1.names@),
                    ));
                }
            } else {
                assert(!seen(inp, ip, n - 1));
                assert(!cand_has(c, i, ip));
                assert forall|s: int| 3 <= s <= 6 implies !cand_has(stage_cands(inp, s), merged_count(n, i, s, stage_cands(inp, s).len() as int), ip) by {
                    if s < n {
                        lemma_seen_not_hit(inp, ip, s, n - 1);
                    }
                }
                lemma_stage_empty(inp, ip, 3, merged_count(n, i, 3, stage_cands(inp, 3).len() as int));
                lemma_stage_empty(inp, ip, 4, merged_count(n, i, 4, stage_cands(inp, 4).len() as int));
                lemma_stage_empty(inp, ip, 5, merged_count(n, i, 5, stage_cands(inp, 5).len() as int));
                lemma_stage_empty(inp, ip, 6, merged_count(n, i, 6, stage_cands(inp, 6).len() as int));
                if n == 4 {
                    assert(mdns_upto(inp, ip, i + 1) =~= seq![inp.mdns@[i]]);
                    assert(d.mdns@ =~= seq![d.mdns@.last()]);
                    assert(mdns_hosts(inp, ip, i + 1) == add_all(mdns_hosts(inp, ip, i), mdns_host(inp.mdns@[i])));
                }
                if n == 6 {
                    let cm = inp.mdns@.len() as int;
                    assert(netbios_hosts(inp, ip, i + 1, mdns_hosts(inp, ip, cm)) == add_all(
                        netbios_hosts(inp, ip, i, mdns_hosts(inp, ip, cm)),
                        strings_view(inp.netbios@[i].1.names@),
                    ));
                }
            }
        } else {
            assert(after.addrs@[k] != after.addrs@[idx]);
            assert(after.addrs@[k] == before.addrs@[k]);
            assert(after.devs@[k] == before.devs@[k]);
            let a = after.addrs@[k];
            assert(filled(inp, before.devs@[k], a, n, i));
            if n == 4 {
                assert(mdns_upto(inp, a, i + 1) == mdns_upto(inp, a, i)) by {
                    assert(mdns_upto(inp, a, i) + Seq::<MdnsService>::empty() =~= mdns_upto(inp, a, i));
                }
                assert(mdns_hosts(inp, a, i + 1) == mdns_hosts(inp, a, i));
            }
            if n == 6 {
                let cm = inp.mdns@.len() as int;
                assert(netbios_hosts(inp, a, i + 1, mdns_hosts(inp, a, cm)) == netbios_hosts(inp, a, i, mdns_hosts(inp, a, cm)));
            }
        }
    }
}

/// An entry of source `n` that names no address changes nothing.
proof fn lemma_source_skip(inp: CorrelateInput, n: int, m: Merge, i: int)
    requires
        1 <= n <= 6,
        n != 3,
        0 <= i < stage_cands(inp, n).len(),
        stage_cands(inp, n)[i] is None,
        sourcing(inp, m, n, i),
    ensures
        sourcing(inp, m, n, i + 1),
{
    lemma_cand_step(stage_cands(inp, n), i);
}

/// After one more record is ensured, the merge state still holds.
proof fn lemma_ensured(
    inp: CorrelateInput,
    before: Merge,
    mid: Merge,
    after: Merge,
    idx: int,
    ip: u32,
)
    requires
        merge_live(before, inp),
        mid.ok(inp),
        0 <= idx < mid.addrs@.len(),
        mid.addrs@[idx] == ip,
        before.addrs@.contains(ip) ==> mid.addrs@ == before.addrs@,
        !before.addrs@.contains(ip) ==> mid.addrs@ == before.addrs@.push(ip),
        !before.addrs@.contains(ip) ==> !mid.devs@[idx].responded_to_ping,
        forall|k: int| 0 <= k < before.devs@.len() && k != idx ==> mid.devs@[k] == before.devs@[k],
        idx < before.devs@.len() ==> mid.devs@[idx].responded_to_ping == before.devs@[idx].responded_to_ping,
        after.addrs@ == mid.addrs@,
        after.devs@.len() == mid.devs@.len(),
        forall|k: int| 0 <= k < mid.devs@.len() && k != idx ==> after.devs@[k] == mid.devs@[k],
        placed(inp, after.devs@[idx], ip),
        after.devs@[idx].responded_to_ping == mid.devs@[idx].responded_to_ping,
    ensures
        merge_live(after, inp),
        forall|x: u32| #[trigger] after.addrs@.contains(x) == (before.addrs@.contains(x) || x == ip),
{
    lemma_grow(before.addrs@, after.addrs@, ip);
    assert forall|k: int| 0 <= k < after.devs@.len() implies placed(inp, #[trigger] after.devs@[k], after.addrs@[k]) by {
        if k != idx {
            assert(after.devs@[k] == mid.devs@[k]);
        }
    }
    assert forall|k: int| 0 <= k < after.devs@.len() implies (#[trigger] after.devs@[k]).responded_to_ping
        == inp.alive@.contains(after.addrs@[k]) by {
        if k != idx {
            assert(after.addrs@[k] != ip);
            assert(k < before.devs@.len());
            assert(before.addrs@[k] == after.addrs@[k]);
        } else if idx < before.devs@.len() {
            assert(before.addrs@[idx] == ip);
        } else {
            assert(!before.addrs@.contains(ip));
        }
    }
}

fn pass_refused(m: &mut Merge, inp: &CorrelateInput, locals: &Vec<crate::netutil::ParsedCidr>, now: &String)
    requires
        merge_live(*old(m), *inp),
        locals_match(locals@, *inp),
        sourced(*inp, *old(m), 1),
    ensures
        merge_live(*final(m), *inp),
        sourced(*inp, *final(m), 2),
        forall|x: u32| #[trigger] final(m).addrs@.contains(x) == (old(m).addrs@.contains(x) || cand_has(refused_cands(*inp), inp.refused_hosts@.len() as int, x)),
{
    let ghost start = m.addrs@;
    proof {
        lemma_sourcing_start(*inp, *m, 2);
    }
    let mut i: usize = 0;
    while i < inp.refused_hosts.len()
        invariant
            i <= inp.refused_hosts@.len(),
            merge_live(*m, *inp),
            locals_match(locals@, *inp),
            sourcing(*inp, *m, 2, i as int),
            forall|x: u32| #[trigger] m.addrs@.contains(x) == (start.contains(x) || cand_has(refused_cands(*inp), i as int, x)),
        decreases inp.refused_hosts.len() - i,
    {
        let ip = inp.refused_hosts[i];
        let ghost before = *m;
        let idx = ensure(m, ip, "tcp-refused", inp, locals, now);
        proof {
            lemma_kept(if before.addrs@.contains(ip) { Some(before.devs@[idx as int]) } else { None }, m.devs@[idx as int]);
            assert(refused_cands(*inp)[i as int] == Some(ip));
            lemma_source_step(*inp, 2, before, *m, i as int, ip, idx as int);
            lemma_ensured(*inp, before, *m, *m, idx as int, ip);
            lemma_cand_step(refused_cands(*inp), i as int);
        }
        i += 1;
    }
    proof {
        lemma_sourcing_done(*inp, *m, 2);
    }
}

fn pass_ports(m: &mut Merge, inp: &CorrelateInput, locals: &Vec<crate::netutil::ParsedCidr>, now: &String)
    requires
        merge_live(*old(m), *inp),
        locals_match(locals@, *inp),
        sourced(*inp, *old(m), 2),
    ensures
        merge_live(*final(m), *inp),
        sourced(*inp, *final(m), 3),
        forall|x: u32| #[trigger] final(m).addrs@.contains(x) == (old(m).addrs@.contains(x) || cand_has(port_cands(*inp), inp.open_ports@.len() as int, x)),
{
    let ghost start = m.addrs@;
    proof {
        lemma_sourcing_start(*inp, *m, 3);
    }
    let mut i: usize = 0;
    while i < inp.open_ports.len()
        invariant
            i <= inp.open_ports@.len(),
            merge_live(*m, *inp),
            locals_match(locals@, *inp),
            sourcing(*inp, *m, 3, i as int),
            forall|x: u32| #[trigger] m.addrs@.contains(x) == (start.contains(x) || cand_has(port_cands(*inp), i as int, x)),
        decreases inp.open_ports.len() - i,
    {
        let ip = inp.open_ports[i].0;
        let ghost before = *m;
        let idx = ensure(m, ip, "tcp", inp, locals, now);
        let ghost mid = *m;
        proof {
            lemma_kept(if before.addrs@.contains(ip) { Some(before.devs@[idx as int]) } else { None }, m.devs@[idx as int]);
        }
        m.devs[idx].ports = inp.open_ports[i].1.clone();
        proof {
            assert(port_cands(*inp)[i as int] == Some(ip));
            lemma_source_step(*inp, 3, before, *m, i as int, ip, idx as int);
            lemma_ensured(*inp, before, mid, *m, idx as int, ip);
            lemma_cand_step(port_cands(*inp), i as int);
        }
        i += 1;
    }
    proof {
        lemma_sourcing_done(*inp, *m, 3);
    }
}

fn pass_ssdp(m: &mut Merge, inp: &CorrelateInput, locals: &Vec<crate::netutil::ParsedCidr>, now: &String)
    requires
        merge_live(*old(m), *inp),
        locals_match(locals@, *inp),
        sourced(*inp, *old(m), 4),
        forall|j: int| 0 <= j < inp.ssdp@.len() ==> (#[trigger] inp.ssdp@[j]).1@.len() <= 0xffff_ffff,
    ensures
        merge_live(*final(m), *inp),
        sourced(*inp, *final(m), 5),
        forall|x: u32| #[trigger] final(m).addrs@.contains(x) == (old(m).addrs@.contains(x) || cand_has(ssdp_cands(*inp), inp.ssdp@.len() as int, x)),
{
    let ghost start = m.addrs@;
    proof {
        lemma_sourcing_start(*inp, *m, 5);
    }
    let mut i: usize = 0;
    while i < inp.ssdp.len()
        invariant
            i <= inp.ssdp@.len(),
            merge_live(*m, *inp),
            locals_match(locals@, *inp),
            sourcing(*inp, *m, 5, i as int),
            forall|j: int| 0 <= j < inp.ssdp@.len() ==> (#[trigger] inp.ssdp@[j]).1@.len() <= 0xffff_ffff,
            forall|x: u32| #[trigger] m.addrs@.contains(x) == (start.contains(x) || cand_has(ssdp_cands(*inp), i as int, x)),
        decreases inp.ssdp.len() - i,
    {
        proof {
            lemma_cand_step(ssdp_cands(*inp), i as int);
        }
        match parse_ipv4_str(inp.ssdp[i].0.as_str()) {
            Some(ip) => {
                let ghost before = *m;
                let idx = ensure(m, ip, "ssdp", inp, locals, now);
                let ghost mid = *m;
                proof {
                    lemma_kept(if before.addrs@.contains(ip) { Some(before.devs@[idx as int]) } else { None }, m.devs@[idx as int]);
                }
                m.devs[idx].ssdp = inp.ssdp[i].1.clone();
                proof {
                    lemma_ensured(*inp, before, mid, *m, idx as int, ip);
                    assert(ssdp_cands(*inp)[i as int] == Some(ip));
                    lemma_source_step(*inp, 5, before, *m, i as int, ip, idx as int);
                }
            },
            None => {
                proof {
                    assert(ssdp_cands(*inp)[i as int] is None);
                    lemma_source_skip(*inp, 5, *m, i as int);
                }
            },
        }
        i += 1;
    }
    proof {
        lemma_sourcing_done(*inp, *m, 5);
    }
}

/// `l` with `x` added at the end unless it is already there.
pub open spec fn add_name(l: Seq<Seq<char>>, x: Seq<char>) -> Seq<Seq<char>> {
    if l.contains(x) {
        l
    } else {
        l.push(x)
    }
}

fn push_unique(v: &mut Vec<String>, s: String)
    ensures
        final(v)@.len() >= old(v)@.len(),
        strings_view(final(v)@) == add_name(strings_view(old(v)@), s@),
{
    if !has_text(v, s.as_str()) {
        let ghost before = v@;
        assert(!strings_view(before).contains(s@)) by {
            if strings_view(before).contains(s@) {
                let k = choose|k: int| 0 <= k < strings_view(before).len() && strings_view(before)[k] == s@;
                assert(before[k]@ == s@);
            }
        }
        v.push(s);
        assert(strings_view(v@) =~= strings_view(before).push(s@));
    } else {
        proof {
            let k = choose|k: int| 0 <= k < v@.len() && #[trigger] v@[k]@ == s@;
            assert(strings_view(v@)[k] == s@);
        }
    }
}

/// A hostname without its trailing dots.
fn without_trailing_dots(h: &str) -> (r: String)
    ensures
        r@ == trim_end_matches(h@, "."@),
{
    let hc = chars_of(h);
    let dot = chars_of(".");
    let t = trim_end_matching(&hc, &dot);
    string_of(&t)
}

fn pass_mdns(m: &mut Merge, inp: &CorrelateInput, locals: &Vec<crate::netutil::ParsedCidr>, now: &String)
    requires
        merge_live(*old(m), *inp),
        locals_match(locals@, *inp),
        sourced(*inp, *old(m), 3),
    ensures
        merge_live(*final(m), *inp),
        sourced(*inp, *final(m), 4),
        forall|x: u32| #[trigger] final(m).addrs@.contains(x) == (old(m).addrs@.contains(x) || cand_has(mdns_cands(*inp), inp.mdns@.len() as int, x)),
{
    let ghost start = m.addrs@;
    proof {
        lemma_sourcing_start(*inp, *m, 4);
    }
    let mut i: usize = 0;
    while i < inp.mdns.len()
        invariant
            i <= inp.mdns@.len(),
            merge_live(*m, *inp),
            locals_match(locals@, *inp),
            sourcing(*inp, *m, 4, i as int),
            forall|x: u32| #[trigger] m.addrs@.contains(x) == (start.contains(x) || cand_has(mdns_cands(*inp), i as int, x)),
        decreases inp.mdns.len() - i,
    {
        proof {
            lemma_cand_step(mdns_cands(*inp), i as int);
        }
        let service = &inp.mdns[i];
        let parsed = match &service.address {
            Some(a) => parse_ipv4_str(a.as_str()),
            None => None,
        };
        match parsed {
            Some(ip) => {
                let ghost before = *m;
                let idx = ensure(m, ip, "mdns", inp, locals, now);
                let ghost mid = *m;
                proof {
                    lemma_kept(if before.addrs@.contains(ip) { Some(before.devs@[idx as int]) } else { None }, m.devs@[idx as int]);
                }
                let sc = service.clone();
                let ghost before_mdns = m.devs@[idx as int].mdns@;
                m.devs[idx].mdns.push(sc);
                proof {
                    assert(m.devs@[idx as int].mdns@.drop_last() =~= before_mdns);
                }
                let ghost hv0 = strings_view(m.devs@[idx as int].hostnames@);
                if let Some(h) = &service.hostname {
                    let clean = without_trailing_dots(h.as_str());
                    let cc = chars_of(clean.as_str());
                    if cc.len() > 0 {
                        push_unique(&mut m.devs[idx].hostnames, clean);
                        proof {
                            assert(mdns_host(*service) == seq![clean@]);
                            assert(seq![clean@].drop_last() =~= Seq::<Seq<char>>::empty());
                            assert(add_all(hv0, seq![clean@]) == add_name(add_all(hv0, Seq::<Seq<char>>::empty()), clean@));
                        }
                    } else {
                        assert(mdns_host(*service) =~= Seq::<Seq<char>>::empty());
                        assert(add_all(hv0, Seq::<Seq<char>>::empty()) == hv0);
                    }
                } else {
                    assert(mdns_host(*service) =~= Seq::<Seq<char>>::empty());
                    assert(add_all(hv0, Seq::<Seq<char>>::empty()) == hv0);
                }
                assert(strings_view(m.devs@[idx as int].hostnames@) == add_all(hv0, mdns_host(*service)));
                proof {
                    lemma_ensured(*inp, before, mid, *m, idx as int, ip);
                    assert(mdns_cands(*inp)[i as int] == Some(ip));
                    lemma_source_step(*inp, 4, before, *m, i as int, ip, idx as int);
                }
            },
            None => {
                proof {
                    assert(mdns_cands(*inp)[i as int] is None);
                    lemma_source_skip(*inp, 4, *m, i as int);
                }
            },
        }
        i += 1;
    }
    proof {
        lemma_sourcing_done(*inp, *m, 4);
    }
}

fn pass_netbios(m: &mut Merge, inp: &CorrelateInput, locals: &Vec<crate::netutil::ParsedCidr>, now: &String)
    requires
        merge_live(*old(m), *inp),
        locals_match(locals@, *inp),
        sourced(*inp, *old(m), 5),
    ensures
        merge_live(*final(m), *inp),
        sourced(*inp, *final(m), 6),
        forall|x: u32| #[trigger] final(m).addrs@.contains(x) == (old(m).addrs@.contains(x) || cand_has(netbios_cands(*inp), inp.netbios@.len() as int, x)),
{
    let ghost start = m.addrs@;
    proof {
        lemma_sourcing_start(*inp, *m, 6);
    }
    let mut i: usize = 0;
    while i < inp.netbios.len()
        invariant
            i <= inp.netbios@.len(),
            merge_live(*m, *inp),
            locals_match(locals@, *inp),
            sourcing(*inp, *m, 6, i as int),
            forall|x: u32| #[trigger] m.addrs@.contains(x) == (start.contains(x) || cand_has(netbios_cands(*inp), i as int, x)),
        decreases inp.netbios.len() - i,
    {
        proof {
            lemma_cand_step(netbios_cands(*inp), i as int);
        }
        let ip = inp.netbios[i].0;
        let result = &inp.netbios[i].1;
        let ghost before = *m;
        let idx = ensure(m, ip, "netbios", inp, locals, now);
        let ghost mid = *m;
        proof {
            lemma_kept(if before.addrs@.contains(ip) { Some(before.devs@[idx as int]) } else { None }, m.devs@[idx as int]);
        }
        let mut n: usize = 0;
        while n < result.names.len()
            invariant
                n <= result.names@.len(),
                idx < m.devs@.len(),
                m.addrs@ == mid.addrs@,
                m.devs@.len() == mid.devs@.len(),
                forall|k: int| 0 <= k < mid.devs@.len() && k != idx ==> m.devs@[k] == mid.devs@[k],
                placed(*inp, m.devs@[idx as int], ip),
                m.devs@[idx as int].responded_to_ping == mid.devs@[idx as int].responded_to_ping,
                m.devs@[idx as int].ports == mid.devs@[idx as int].ports,
                m.devs@[idx as int].discovered_by == mid.devs@[idx as int].discovered_by,
                m.devs@[idx as int].mdns == mid.devs@[idx as int].mdns,
                m.devs@[idx as int].ssdp == mid.devs@[idx as int].ssdp,
                m.devs@[idx as int].netbios == mid.devs@[idx as int].netbios,
                m.devs@[idx as int].mac == mid.devs@[idx as int].mac,
                m.devs@[idx as int].reverse_dns == mid.devs@[idx as int].reverse_dns,
                result == &inp.netbios@[i as int].1,
                strings_view(m.devs@[idx as int].hostnames@) == add_all(
                    strings_view(mid.devs@[idx as int].hostnames@),
                    strings_view(result.names@).take(n as int),
                ),
            decreases result.names.len() - n,
        {
            let nm = result.names[n].clone();
            push_unique(&mut m.devs[idx].hostnames, nm);
            proof {
                assert(strings_view(result.names@).take(n + 1).drop_last() =~= strings_view(result.names@).take(n as int));
                assert(strings_view(result.names@).take(n + 1).last() == nm@);
            }
            n += 1;
        }
        proof {
            assert(strings_view(result.names@).take(result.names@.len() as int) =~= strings_view(result.names@));
        }
        // NetBIOS reports the adapter MAC directly, useful where ARP missed it.
        if m.devs[idx].mac.is_none() {
            m.devs[idx].mac = result.mac.clone();
        }
        let rc = result.clone();
        m.devs[idx].netbios = Some(rc);
        proof {
            lemma_ensured(*inp, before, mid, *m, idx as int, ip);
            assert(netbios_cands(*inp)[i as int] == Some(ip));
            lemma_source_step(*inp, 6, before, *m, i as int, ip, idx as int);
        }
        i += 1;
    }
    proof {
        lemma_sourcing_done(*inp, *m, 6);
    }
}

/// Changing one record's descriptive fields keeps the merge state.
proof fn lemma_touched(inp: CorrelateInput, before: Merge, after: Merge, idx: int)
    requires
        merge_live(before, inp),
        0 <= idx < before.devs@.len(),
        after.addrs@ == before.addrs@,
        after.devs@.len() == before.devs@.len(),
        forall|k: int| 0 <= k < before.devs@.len() && k != idx ==> after.devs@[k] == before.devs@[k],
        placed(inp, after.devs@[idx], before.addrs@[idx]),
        after.devs@[idx].responded_to_ping == before.devs@[idx].responded_to_ping,
    ensures
        merge_live(after, inp),
{
    assert forall|k: int| 0 <= k < after.devs@.len() implies placed(inp, #[trigger] after.devs@[k], after.addrs@[k]) by {
        if k != idx {
            assert(after.devs@[k] == before.devs@[k]);
        }
    }
    assert forall|k: int| 0 <= k < after.devs@.len() implies (#[trigger] after.devs@[k]).responded_to_ping
        == inp.alive@.contains(after.addrs@[k]) by {
        if k != idx {
            assert(after.devs@[k] == before.devs@[k]);
        }
    }
}

/// The value paired with `a` last among the first `n` pairs.
pub open spec fn last_for(ps: Seq<(u32, String)>, a: u32, n: int) -> Option<String>
    decreases n,
{
    if n <= 0 || n > ps.len() {
        None
    } else if ps[n - 1].0 == a {
        Some(ps[n - 1].1)
    } else {
        last_for(ps, a, n - 1)
    }
}

/// The value paired with `a` first among the first `n` pairs.
pub open spec fn first_for(ps: Seq<(u32, String)>, a: u32, n: int) -> Option<String>
    decreases n,
{
    if n <= 0 || n > ps.len() {
        None
    } else if first_for(ps, a, n - 1) is Some {
        first_for(ps, a, n - 1)
    } else if ps[n - 1].0 == a {
        Some(ps[n - 1].1)
    } else {
        None
    }
}

/// The reverse-DNS names for `a` among the first `n` answers, trailing dots
/// dropped, added in order to `l` each once.
pub open spec fn names_for(ps: Seq<(u32, String)>, a: u32, n: int, l: Seq<Seq<char>>) -> Seq<Seq<char>>
    decreases n,
{
    if n <= 0 || n > ps.len() {
        l
    } else if ps[n - 1].0 == a {
        add_name(names_for(ps, a, n - 1, l), trim_end_matches(ps[n - 1].1@, "."@))
    } else {
        names_for(ps, a, n - 1, l)
    }
}

/// `d` as `old` was, but for its MAC, reverse-DNS name and host names.
spec fn same_but_names(old: Device, d: Device) -> bool {
    d == Device { mac: d.mac, reverse_dns: d.reverse_dns, hostnames: d.hostnames, ..old }
}

/// The MAC a record ends with: the neighbour table's last word on its address,
/// else the MAC it had, else the first interface MAC of this machine there.
spec fn mac_after(inp: CorrelateInput, old: Device, a: u32) -> Option<String> {
    match last_for(inp.neighbors@, a, inp.neighbors@.len() as int) {
        Some(x) => Some(x),
        None => match old.mac {
            Some(y) => Some(y),
            None => first_for(inp.self_macs@, a, inp.self_macs@.len() as int),
        },
    }
}

/// What `pass_names` makes of the record at address `a` that was `old`.
#[verifier::opaque]
spec fn named(inp: CorrelateInput, old: Device, a: u32, d: Device) -> bool {
    let rd = inp.reverse_dns@;
    &&& same_but_names(old, d)
    &&& d.mac == mac_after(inp, old, a)
    &&& opt_string_view(d.reverse_dns) == match last_for(rd, a, rd.len() as int) {
        Some(h) => Some(trim_end_matches(h@, "."@)),
        None => opt_string_view(old.reverse_dns),
    }
    &&& strings_view(d.hostnames@) == names_for(rd, a, rd.len() as int, strings_view(old.hostnames@))
}

/// Attaches neighbour-table and interface MACs, and reverse-DNS names, to
/// records that already exist. None of these creates a record: a stale cache
/// entry for a departed device must not resurrect it as a live host.
fn pass_names(m: &mut Merge, inp: &CorrelateInput)
    requires
        merge_live(*old(m), *inp),
    ensures
        merge_live(*final(m), *inp),
        final(m).addrs@ == old(m).addrs@,
        final(m).devs@.len() == old(m).devs@.len(),
        forall|k: int|
            0 <= k < final(m).devs@.len() ==> named(*inp, old(m).devs@[k], old(m).addrs@[k], #[trigger] final(m).devs@[k]),
{
    let ghost m0 = *m;
    let mut i: usize = 0;
    while i < inp.neighbors.len()
        invariant
            i <= inp.neighbors@.len(),
            merge_live(*m, *inp),
            m0 == *old(m),
            merge_live(m0, *inp),
            m.addrs@ == m0.addrs@,
            m.devs@.len() == m0.devs@.len(),
            forall|k: int|
                0 <= k < m.devs@.len() ==> {
                    &&& same_but_names(m0.devs@[k], #[trigger] m.devs@[k])
                    &&& m.devs@[k].reverse_dns == m0.devs@[k].reverse_dns
                    &&& m.devs@[k].hostnames == m0.devs@[k].hostnames
                    &&& m.devs@[k].mac == match last_for(inp.neighbors@, m0.addrs@[k], i as int) {
                        Some(x) => Some(x),
                        None => m0.devs@[k].mac,
                    }
                },
        decreases inp.neighbors.len() - i,
    {
        if let Some(idx) = m.find(inp.neighbors[i].0) {
            let ghost before = *m;
            m.devs[idx].mac = Some(inp.neighbors[i].1.clone());
            proof {
                lemma_touched(*inp, before, *m, idx as int);
                assert forall|k: int| 0 <= k < m.devs@.len() && k != idx implies m0.addrs@[k] != inp.neighbors@[i as int].0 by {
                    assert(m0.addrs@[k] != m0.addrs@[idx as int]);
                }
            }
        } else {
            proof {
                assert forall|k: int| 0 <= k < m.devs@.len() implies m0.addrs@[k] != inp.neighbors@[i as int].0 by {
                    assert(m.addrs@[k] == m0.addrs@[k]);
                }
            }
        }
        i += 1;
    }
    let mut j: usize = 0;
    while j < inp.self_macs.len()
        invariant
            j <= inp.self_macs@.len(),
            merge_live(*m, *inp),
            m0 == *old(m),
            merge_live(m0, *inp),
            m.addrs@ == m0.addrs@,
            m.devs@.len() == m0.devs@.len(),
            forall|k: int|
                0 <= k < m.devs@.len() ==> {
                    &&& same_but_names(m0.devs@[k], #[trigger] m.devs@[k])
                    &&& m.devs@[k].reverse_dns == m0.devs@[k].reverse_dns
                    &&& m.devs@[k].hostnames == m0.devs@[k].hostnames
                    &&& m.devs@[k].mac == match last_for(inp.neighbors@, m0.addrs@[k], inp.neighbors@.len() as int) {
                        Some(x) => Some(x),
                        None => match m0.devs@[k].mac {
                            Some(y) => Some(y),
                            None => first_for(inp.self_macs@, m0.addrs@[k], j as int),
                        },
                    }
                },
        decreases inp.self_macs.len() - j,
    {
        if let Some(idx) = m.find(inp.self_macs[j].0) {
            proof {
                assert forall|k: int| 0 <= k < m.devs@.len() && k != idx implies m0.addrs@[k] != inp.self_macs@[j as int].0 by {
                    assert(m0.addrs@[k] != m0.addrs@[idx as int]);
                }
            }
            if m.devs[idx].mac.is_none() {
                let ghost before = *m;
                m.devs[idx].mac = Some(inp.self_macs[j].1.clone());
                proof {
                    lemma_touched(*inp, before, *m, idx as int);
                }
            }
        } else {
            proof {
                assert forall|k: int| 0 <= k < m.devs@.len() implies m0.addrs@[k] != inp.self_macs@[j as int].0 by {
                    assert(m.addrs@[k] == m0.addrs@[k]);
                }
            }
        }
        j += 1;
    }
    let mut k: usize = 0;
    while k < inp.reverse_dns.len()
        invariant
            k <= inp.reverse_dns@.len(),
            merge_live(*m, *inp),
            m0 == *old(m),
            merge_live(m0, *inp),
            m.addrs@ == m0.addrs@,
            m.devs@.len() == m0.devs@.len(),
            forall|q: int|
                0 <= q < m.devs@.len() ==> {
                    &&& same_but_names(m0.devs@[q], #[trigger] m.devs@[q])
                    &&& m.devs@[q].mac == mac_after(*inp, m0.devs@[q], m0.addrs@[q])
                    &&& opt_string_view(m.devs@[q].reverse_dns) == match last_for(inp.reverse_dns@, m0.addrs@[q], k as int) {
                        Some(h) => Some(trim_end_matches(h@, "."@)),
                        None => opt_string_view(m0.devs@[q].reverse_dns),
                    }
                    &&& strings_view(m.devs@[q].hostnames@) == names_for(
                        inp.reverse_dns@,
                        m0.addrs@[q],
                        k as int,
                        strings_view(m0.devs@[q].hostnames@),
                    )
                },
        decreases inp.reverse_dns.len() - k,
    {
        if let Some(idx) = m.find(inp.reverse_dns[k].0) {
            let ghost before = *m;
            let clean = without_trailing_dots(inp.reverse_dns[k].1.as_str());
            m.devs[idx].reverse_dns = Some(clean.clone());
            push_unique(&mut m.devs[idx].hostnames, clean);
            proof {
                lemma_touched(*inp, before, *m, idx as int);
                assert forall|q: int| 0 <= q < m.devs@.len() && q != idx implies m0.addrs@[q] != inp.reverse_dns@[k as int].0 by {
                    assert(m0.addrs@[q] != m0.addrs@[idx as int]);
                }
            }
        } else {
            proof {
                assert forall|q: int| 0 <= q < m.devs@.len() implies m0.addrs@[q] != inp.reverse_dns@[k as int].0 by {
                    assert(m.addrs@[q] == m0.addrs@[q]);
                }
            }
        }
        k += 1;
    }    proof {
        reveal(named);
    }
}

/// The banner filed under `key` at or after index `i`: the first one.
pub open spec fn banner_from(bs: Seq<(String, Banner)>, key: Seq<char>, i: int) -> Option<Banner>
    decreases bs.len() - i,
{
    if i < 0 || i >= bs.len() {
        None
    } else if bs[i].0@ == key {
        Some(bs[i].1)
    } else {
        banner_from(bs, key, i + 1)
    }
}

fn find_banner<'a>(banners: &'a Vec<(String, Banner)>, key: &str) -> (r: Option<&'a Banner>)
    ensures
        r matches Some(b) ==> banner_from(banners@, key@, 0) == Some(*b),
        r is None ==> banner_from(banners@, key@, 0) is None,
{
    let mut i: usize = 0;
    while i < banners.len()
        invariant
            i <= banners@.len(),
            banner_from(banners@, key@, 0) == banner_from(banners@, key@, i as int),
        decreases banners.len() - i,
    {
        if str_eq(banners[i].0.as_str(), key) {
            return Some(&banners[i].1);
        }
        i += 1;
    }
    None
}

pub open spec fn port_pred(p: u16) -> spec_fn(PortInfo) -> bool {
    |x: PortInfo| x.port == p
}

/// The entries of `s` for port `p`, in order.
pub open spec fn with_port(s: Seq<PortInfo>, p: u16) -> Seq<PortInfo> {
    s.filter(port_pred(p))
}

pub open spec fn ports_sorted(s: Seq<PortInfo>) -> bool {
    forall|i: int, j: int| 0 <= i < j < s.len() ==> s[i].port <= s[j].port
}

/// `out` is `v` ordered by port number, entries for one port keeping their order.
pub open spec fn stable_by_port(out: Seq<PortInfo>, v: Seq<PortInfo>) -> bool {
    &&& ports_sorted(out)
    &&& forall|p: u16| #[trigger] with_port(out, p) == with_port(v, p)
}

proof fn lemma_wp_add(a: Seq<PortInfo>, b: Seq<PortInfo>, p: u16)
    ensures
        with_port(a + b, p) == with_port(a, p) + with_port(b, p),
{
    Seq::filter_distributes_over_add(a, b, port_pred(p));
}

proof fn lemma_wp_one(x: PortInfo, p: u16)
    ensures
        with_port(seq![x], p) == (if x.port == p { seq![x] } else { Seq::<PortInfo>::empty() }),
{
    let e = Seq::<PortInfo>::empty();
    reveal(Seq::filter);
    assert(e.filter(port_pred(p)) =~= e);
    e.lemma_filter_push(x, port_pred(p));
    assert(e.push(x) =~= seq![x]);
}

proof fn lemma_wp_none(s: Seq<PortInfo>, p: u16)
    requires
        forall|i: int| 0 <= i < s.len() ==> s[i].port != p,
    ensures
        with_port(s, p) == Seq::<PortInfo>::empty(),
    decreases s.len(),
{
    reveal(Seq::filter);
    if s.len() > 0 {
        lemma_wp_none(s.drop_last(), p);
    }
}

/// Moving the first of `rest` into `out` at `pos` keeps every port's entries in order.
proof fn lemma_port_insert(out: Seq<PortInfo>, rest: Seq<PortInfo>, pos: int, p: u16)
    requires
        rest.len() > 0,
        0 <= pos <= out.len(),
        ports_sorted(out),
        forall|k: int| 0 <= k < pos ==> out[k].port <= rest[0].port,
        pos < out.len() ==> out[pos].port > rest[0].port,
    ensures
        with_port(out.insert(pos, rest[0]), p) + with_port(rest.drop_first(), p) == with_port(out, p) + with_port(rest, p),
{
    let x = rest[0];
    let t = out.take(pos);
    let k = out.skip(pos);
    assert(out =~= t + k);
    assert(out.insert(pos, x) =~= t + seq![x] + k);
    assert(rest =~= seq![x] + rest.drop_first());
    lemma_wp_add(t + seq![x], k, p);
    lemma_wp_add(t, seq![x], p);
    lemma_wp_add(t, k, p);
    lemma_wp_add(seq![x], rest.drop_first(), p);
    lemma_wp_one(x, p);
    if x.port == p {
        assert forall|i: int| 0 <= i < k.len() implies k[i].port != p by {
            assert(out[pos + i].port >= out[pos].port);
        }
        lemma_wp_none(k, p);
        assert(with_port(out, p) == with_port(t, p));
    }
    assert(with_port(out.insert(pos, x), p) + with_port(rest.drop_first(), p) =~= with_port(out, p) + with_port(
        rest,
        p,
    ));
}

/// Ports in ascending order; ports that compare equal keep their order.
fn sort_ports(v: Vec<PortInfo>) -> (out: Vec<PortInfo>)
    ensures
        out@.len() == v@.len(),
        stable_by_port(out@, v@),
{
    let mut out: Vec<PortInfo> = Vec::new();
    let mut rest = v;
    let ghost total = rest@.len();
    let ghost v0 = rest@;
    proof {
        assert forall|p: u16| #[trigger] with_port(out@, p) + with_port(rest@, p) == with_port(v0, p) by {
            reveal(Seq::filter);
            assert(with_port(out@, p) =~= Seq::<PortInfo>::empty());
            assert(with_port(out@, p) + with_port(rest@, p) =~= with_port(rest@, p));
        }
    }
    while rest.len() > 0
        invariant
            out@.len() + rest@.len() == total,
            v0.len() == total,
            ports_sorted(out@),
            forall|p: u16| #[trigger] with_port(out@, p) + with_port(rest@, p) == with_port(v0, p),
        decreases rest.len(),
    {
        let ghost rest0 = rest@;
        let item = rest.remove(0);
        let mut j: usize = 0;
        while j < out.len() && out[j].port <= item.port
            invariant
                j <= out@.len(),
                forall|k: int| 0 <= k < j ==> out@[k].port <= item.port,
            decreases out.len() - j,
        {
            j += 1;
        }
        let pos = j;
        proof {
            if pos < out@.len() {
                assert(out@[pos as int].port > item.port);
            }
        }
        let ghost before = out@;
        out.insert(pos, item);
        proof {
            assert(rest@ =~= rest0.drop_first());
            assert forall|p: u16| #[trigger] with_port(out@, p) + with_port(rest@, p) == with_port(v0, p) by {
                lemma_port_insert(before, rest0, pos as int, p);
                assert(with_port(before, p) + with_port(rest0, p) == with_port(v0, p));
            }
            assert forall|a: int, b: int| 0 <= a < b < out@.len() implies out@[a].port <= out@[b].port by {
                if b < pos {
                    assert(out@[a] == before[a] && out@[b] == before[b]);
                } else if b == pos {
                    assert(out@[a] == before[a]);
                } else if a < pos {
                    assert(out@[a] == before[a] && out@[b] == before[b - 1]);
                    assert(before[a].port <= before[pos as int].port);
                } else if a == pos {
                    assert(out@[b] == before[b - 1]);
                    assert(before[pos as int].port <= before[b - 1].port);
                } else {
                    assert(out@[a] == before[a - 1] && out@[b] == before[b - 1]);
                }
            }
        }
    }
    proof {
        assert forall|p: u16| #[trigger] with_port(out@, p) == with_port(v0, p) by {
            reveal(Seq::filter);
            assert(with_port(rest@, p) =~= Seq::<PortInfo>::empty());
            assert(with_port(out@, p) + with_port(rest@, p) =~= with_port(out@, p));
        }
    }
    out
}

/// Whether `a` sorts strictly after `b` by service type, then instance name.
pub open spec fn mdns_after_spec(a: MdnsService, b: MdnsService) -> bool {
    ||| text_less(b.service_type@, a.service_type@)
    ||| (a.service_type@ == b.service_type@ && text_less(b.name@, a.name@))
}

fn mdns_after(a: &MdnsService, b: &MdnsService) -> (r: bool)
    ensures
        r == mdns_after_spec(*a, *b),
{
    proof {
        crate::text::lemma_text_less_total(a.service_type@, b.service_type@);
    }
    if less_text(b.service_type.as_str(), a.service_type.as_str()) {
        true
    } else if less_text(a.service_type.as_str(), b.service_type.as_str()) {
        false
    } else {
        less_text(b.name.as_str(), a.name.as_str())
    }
}

pub open spec fn key_pred(t: Seq<char>, n: Seq<char>) -> spec_fn(MdnsService) -> bool {
    |x: MdnsService| x.service_type@ == t && x.name@ == n
}

/// The services of `s` with type `t` and instance name `n`, in order.
pub open spec fn with_key(s: Seq<MdnsService>, t: Seq<char>, n: Seq<char>) -> Seq<MdnsService> {
    s.filter(key_pred(t, n))
}

pub open spec fn services_sorted(s: Seq<MdnsService>) -> bool {
    forall|i: int, j: int| 0 <= i < j < s.len() ==> !mdns_after_spec(s[i], s[j])
}

/// `out` is `v` ordered by type, then name, services with one key keeping their order.
pub open spec fn stable_by_key(out: Seq<MdnsService>, v: Seq<MdnsService>) -> bool {
    &&& services_sorted(out)
    &&& forall|t: Seq<char>, n: Seq<char>| #[trigger] with_key(out, t, n) == with_key(v, t, n)
}

proof fn lemma_after_order(a: MdnsService, b: MdnsService, c: MdnsService)
    ensures
        mdns_after_spec(a, b) ==> !mdns_after_spec(b, a),
        mdns_after_spec(a, b) ==> !(a.service_type@ == b.service_type@ && a.name@ == b.name@),
        mdns_after_spec(b, a) && !mdns_after_spec(b, c) ==> mdns_after_spec(c, a),
{
    crate::text::lemma_text_less_total(a.service_type@, b.service_type@);
    crate::text::lemma_text_less_total(b.service_type@, c.service_type@);
    crate::text::lemma_text_less_total(a.name@, b.name@);
    crate::text::lemma_text_less_total(b.name@, c.name@);
    if text_less(a.service_type@, b.service_type@) && text_less(b.service_type@, c.service_type@) {
        crate::text::lemma_text_less_trans(a.service_type@, b.service_type@, c.service_type@);
    }
    if text_less(a.name@, b.name@) && text_less(b.name@, c.name@) {
        crate::text::lemma_text_less_trans(a.name@, b.name@, c.name@);
    }
}

proof fn lemma_wk_add(a: Seq<MdnsService>, b: Seq<MdnsService>, t: Seq<char>, n: Seq<char>)
    ensures
        with_key(a + b, t, n) == with_key(a, t, n) + with_key(b, t, n),
{
    Seq::filter_distributes_over_add(a, b, key_pred(t, n));
}

proof fn lemma_wk_one(x: MdnsService, t: Seq<char>, n: Seq<char>)
    ensures
        with_key(seq![x], t, n) == (if x.service_type@ == t && x.name@ == n {
            seq![x]
        } else {
            Seq::<MdnsService>::empty()
        }),
{
    let e = Seq::<MdnsService>::empty();
    reveal(Seq::filter);
    assert(e.filter(key_pred(t, n)) =~= e);
    e.lemma_filter_push(x, key_pred(t, n));
    assert(e.push(x) =~= seq![x]);
}

proof fn lemma_wk_none(s: Seq<MdnsService>, t: Seq<char>, n: Seq<char>)
    requires
        forall|i: int| 0 <= i < s.len() ==> !(s[i].service_type@ == t && s[i].name@ == n),
    ensures
        with_key(s, t, n) == Seq::<MdnsService>::empty(),
    decreases s.len(),
{
    reveal(Seq::filter);
    if s.len() > 0 {
        lemma_wk_none(s.drop_last(), t, n);
    }
}

proof fn lemma_service_insert(out: Seq<MdnsService>, rest: Seq<MdnsService>, pos: int, t: Seq<char>, n: Seq<char>)
    requires
        rest.len() > 0,
        0 <= pos <= out.len(),
        services_sorted(out),
        pos < out.len() ==> mdns_after_spec(out[pos], rest[0]),
    ensures
        with_key(out.insert(pos, rest[0]), t, n) + with_key(rest.drop_first(), t, n) == with_key(out, t, n)
            + with_key(rest, t, n),
{
    let x = rest[0];
    let tk = out.take(pos);
    let k = out.skip(pos);
    assert(out =~= tk + k);
    assert(out.insert(pos, x) =~= tk + seq![x] + k);
    assert(rest =~= seq![x] + rest.drop_first());
    lemma_wk_add(tk + seq![x], k, t, n);
    lemma_wk_add(tk, seq![x], t, n);
    lemma_wk_add(tk, k, t, n);
    lemma_wk_add(seq![x], rest.drop_first(), t, n);
    lemma_wk_one(x, t, n);
    if x.service_type@ == t && x.name@ == n {
        assert forall|i: int| 0 <= i < k.len() implies !(k[i].service_type@ == t && k[i].name@ == n) by {
            if i > 0 {
                assert(!mdns_after_spec(out[pos], out[pos + i]));
            }
            lemma_after_order(x, out[pos], out[pos + i]);
            lemma_after_order(out[pos + i], x, x);
        }
        lemma_wk_none(k, t, n);
        assert(with_key(out, t, n) == with_key(tk, t, n));
    }
    assert(with_key(out.insert(pos, x), t, n) + with_key(rest.drop_first(), t, n) =~= with_key(out, t, n)
        + with_key(rest, t, n));
}

/// Services by type, then instance name, so the chosen display name does not
/// depend on the order records happened to arrive in.
fn sort_services(v: Vec<MdnsService>) -> (out: Vec<MdnsService>)
    ensures
        out@.len() == v@.len(),
        stable_by_key(out@, v@),
{
    let mut out: Vec<MdnsService> = Vec::new();
    let mut rest = v;
    let ghost total = rest@.len();
    let ghost v0 = rest@;
    proof {
        assert forall|t: Seq<char>, n: Seq<char>| #[trigger] with_key(out@, t, n) + with_key(rest@, t, n) == with_key(v0, t, n) by {
            reveal(Seq::filter);
            assert(with_key(out@, t, n) =~= Seq::<MdnsService>::empty());
            assert(with_key(out@, t, n) + with_key(rest@, t, n) =~= with_key(rest@, t, n));
        }
    }
    while rest.len() > 0
        invariant
            out@.len() + rest@.len() == total,
            v0.len() == total,
            services_sorted(out@),
            forall|t: Seq<char>, n: Seq<char>| #[trigger] with_key(out@, t, n) + with_key(rest@, t, n) == with_key(v0, t, n),
        decreases rest.len(),
    {
        let ghost rest0 = rest@;
        let item = rest.remove(0);
        let mut j: usize = 0;
        while j < out.len() && !mdns_after(&out[j], &item)
            invariant
                j <= out@.len(),
                forall|k: int| 0 <= k < j ==> !mdns_after_spec(out@[k], item),
            decreases out.len() - j,
        {
            j += 1;
        }
        let pos = j;
        let ghost before = out@;
        out.insert(pos, item);
        proof {
            assert(rest@ =~= rest0.drop_first());
            assert forall|t: Seq<char>, n: Seq<char>| #[trigger] with_key(out@, t, n) + with_key(rest@, t, n) == with_key(v0, t, n) by {
                lemma_service_insert(before, rest0, pos as int, t, n);
                assert(with_key(before, t, n) + with_key(rest0, t, n) == with_key(v0, t, n));
            }
            assert forall|a: int, b: int| 0 <= a < b < out@.len() implies !mdns_after_spec(out@[a], out@[b]) by {
                if b < pos {
                    assert(out@[a] == before[a] && out@[b] == before[b]);
                } else if b == pos {
                    assert(out@[a] == before[a]);
                } else if a < pos {
                    assert(out@[a] == before[a] && out@[b] == before[b - 1]);
                } else if a == pos {
                    assert(out@[b] == before[b - 1]);
                    if b - 1 > pos {
                        assert(!mdns_after_spec(before[pos as int], before[b - 1]));
                    }
                    lemma_after_order(item, before[pos as int], before[b - 1]);
                    lemma_after_order(before[b - 1], item, item);
                } else {
                    assert(out@[a] == before[a - 1] && out@[b] == before[b - 1]);
                }
            }
        }
    }
    proof {
        assert forall|t: Seq<char>, n: Seq<char>| #[trigger] with_key(out@, t, n) == with_key(v0, t, n) by {
            reveal(Seq::filter);
            assert(with_key(rest@, t, n) =~= Seq::<MdnsService>::empty());
            assert(with_key(out@, t, n) + with_key(rest@, t, n) =~= with_key(out@, t, n));
        }
    }
    out
}

/// The `ip:port` key a banner is filed under.
fn banner_key(ip: &String, port: u16) -> (key: String)
    ensures
        key@ == ip@ + ":"@ + dec(port as nat),
{
    let mut key = ip.clone();
    push_str(&mut key, ":");
    crate::text::push_dec(&mut key, port as u64);
    key
}

/// Two banners say the same: equal fields, and header maps with the same entries.
pub open spec fn banner_same(a: Banner, b: Banner) -> bool {
    if a is Http {
        &&& b is Http
        &&& a->scheme == b->scheme
        &&& a->status == b->status
        &&& a->server == b->server
        &&& a->title == b->title
        &&& a->headers.view() == b->headers.view()
        &&& a->headers.size() == b->headers.size()
        &&& a->redirect_location == b->redirect_location
    } else if a is Tls {
        &&& b is Tls
        &&& a->subject == b->subject
        &&& a->issuer == b->issuer
        &&& match (a->alt_names, b->alt_names) {
            (Some(x), Some(y)) => x@ == y@,
            (None, None) => true,
            _ => false,
        }
        &&& a->valid_from == b->valid_from
        &&& a->valid_to == b->valid_to
        &&& a->days_until_expiry == b->days_until_expiry
        &&& a->self_signed == b->self_signed
    } else {
        b is Text && a->text == b->text
    }
}

pub open spec fn opt_banner_same(a: Option<Banner>, b: Option<Banner>) -> bool {
    match (a, b) {
        (None, None) => true,
        (Some(x), Some(y)) => banner_same(x, y),
        _ => false,
    }
}

fn copy_opt_text(o: &Option<String>) -> (r: Option<String>)
    ensures
        r == *o,
{
    match o {
        Some(t) => Some(t.clone()),
        None => None,
    }
}

fn copy_banner(b: &Banner) -> (c: Banner)
    ensures
        banner_same(c, *b),
{
    match b {
        Banner::Http { scheme, status, server, title, headers, redirect_location } => {
            let h = headers.clone();
            Banner::Http {
                scheme: scheme.clone(),
                status: *status,
                server: copy_opt_text(server),
                title: copy_opt_text(title),
                headers: h,
                redirect_location: copy_opt_text(redirect_location),
            }
        },
        Banner::Tls { subject, issuer, alt_names, valid_from, valid_to, days_until_expiry, self_signed } => {
            let names = match alt_names {
                Some(v) => {
                    let mut out: Vec<String> = Vec::new();
                    let mut i: usize = 0;
                    while i < v.len()
                        invariant
                            i <= v@.len(),
                            out@ == v@.take(i as int),
                        decreases v.len() - i,
                    {
                        out.push(v[i].clone());
                        i += 1;
                        assert(out@ =~= v@.take(i as int));
                    }
                    assert(v@.take(v@.len() as int) =~= v@);
                    Some(out)
                },
                None => None,
            };
            Banner::Tls {
                subject: copy_opt_text(subject),
                issuer: copy_opt_text(issuer),
                alt_names: names,
                valid_from: copy_opt_text(valid_from),
                valid_to: copy_opt_text(valid_to),
                days_until_expiry: *days_until_expiry,
                self_signed: *self_signed,
            }
        },
        Banner::Text { text } => Banner::Text { text: text.clone() },
    }
}

/// The key banners of `port` on the device at `ip` are filed under.
pub open spec fn port_key(ip: Seq<char>, port: u16) -> Seq<char> {
    ip + ":"@ + dec(port as nat)
}

/// A port's banner once banners are attached: the one filed under its key,
/// else the one it had.
pub open spec fn attached_banner(p: PortInfo, bs: Seq<(String, Banner)>, ip: Seq<char>) -> Option<Banner> {
    match banner_from(bs, port_key(ip, p.port), 0) {
        Some(b) => Some(b),
        None => p.banner,
    }
}

pub open spec fn is_http(b: Option<Banner>) -> bool {
    b matches Some(Banner::Http { .. })
}

/// The certificate filed beside an HTTP banner for `p`.
pub open spec fn cert_for(p: PortInfo, bs: Seq<(String, Banner)>, ip: Seq<char>) -> Option<Banner> {
    banner_from(bs, port_key(ip, p.port) + ":tls"@, 0)
}

/// A port whose HTTP view won its slot, while a certificate was also read there.
pub open spec fn has_cert(p: PortInfo, bs: Seq<(String, Banner)>, ip: Seq<char>) -> bool {
    is_http(attached_banner(p, bs, ip)) && cert_for(p, bs, ip) is Some
}

pub open spec fn cert_pred(bs: Seq<(String, Banner)>, ip: Seq<char>) -> spec_fn(PortInfo) -> bool {
    |p: PortInfo| has_cert(p, bs, ip)
}

/// `q` is `p` with its banner attached.
pub open spec fn attached_like(q: PortInfo, p: PortInfo, bs: Seq<(String, Banner)>, ip: Seq<char>) -> bool {
    &&& q.port == p.port
    &&& q.protocol == p.protocol
    &&& q.service == p.service
    &&& opt_banner_same(q.banner, attached_banner(p, bs, ip))
}

/// `q` is the sibling entry carrying `p`'s certificate.
pub open spec fn extra_like(q: PortInfo, p: PortInfo, bs: Seq<(String, Banner)>, ip: Seq<char>) -> bool {
    &&& q.port == p.port
    &&& q.protocol@ == "tcp"@
    &&& opt_string_view(q.service) == Some(
        (match p.service {
            Some(t) => t@,
            None => "tls"@,
        }) + " (certificate)"@,
    )
    &&& opt_banner_same(q.banner, cert_for(p, bs, ip))
}

/// `pre` holds the ports `o` with banners attached, then a certificate entry
/// for each port that has one, in order.
pub open spec fn staged(pre: Seq<PortInfo>, o: Seq<PortInfo>, bs: Seq<(String, Banner)>, ip: Seq<char>) -> bool {
    let c = o.filter(cert_pred(bs, ip));
    &&& pre.len() == o.len() + c.len()
    &&& forall|i: int| 0 <= i < o.len() ==> attached_like(#[trigger] pre[i], o[i], bs, ip)
    &&& forall|e: int| 0 <= e < c.len() ==> extra_like(#[trigger] pre[o.len() + e], c[e], bs, ip)
}

/// What `pass_banners` makes of a record: the same but for its ports, now
/// with banners and ordered by port, and its services, now ordered.
#[verifier::opaque]
spec fn bannered(bs: Seq<(String, Banner)>, old: Device, d: Device) -> bool {
    &&& d == Device { ports: d.ports, mdns: d.mdns, ..old }
    &&& exists|pre: Seq<PortInfo>| staged(pre, old.ports@, bs, old.ip@) && stable_by_port(d.ports@, pre)
    &&& stable_by_key(d.mdns@, old.mdns@)
}

/// Attaches banners, keeping a TLS certificate as a sibling entry when the
/// HTTP view won the port's main slot, and puts ports and services in order.
fn pass_banners(m: &mut Merge, inp: &CorrelateInput)
    requires
        merge_live(*old(m), *inp),
    ensures
        merge_live(*final(m), *inp),
        final(m).addrs@ == old(m).addrs@,
        final(m).devs@.len() == old(m).devs@.len(),
        forall|k: int| 0 <= k < final(m).devs@.len() ==> bannered(inp.banners@, old(m).devs@[k], #[trigger] final(m).devs@[k]),
{
    let ghost m0 = *m;
    let ghost bs = inp.banners@;
    let mut d: usize = 0;
    while d < m.devs.len()
        invariant
            d <= m.devs@.len(),
            merge_live(*m, *inp),
            m0 == *old(m),
            bs == inp.banners@,
            m.addrs@ == m0.addrs@,
            m.devs@.len() == m0.devs@.len(),
            forall|k: int| 0 <= k < d ==> bannered(bs, m0.devs@[k], #[trigger] m.devs@[k]),
            forall|k: int| d <= k < m.devs@.len() ==> #[trigger] m.devs@[k] == m0.devs@[k],
        decreases m.devs.len() - d,
    {
        let ghost before = *m;
        let ghost dev0 = m.devs@[d as int];
        let mut olds: Vec<PortInfo> = Vec::new();
        std::mem::swap(&mut olds, &mut m.devs[d].ports);
        let mut taken: Vec<MdnsService> = Vec::new();
        std::mem::swap(&mut taken, &mut m.devs[d].mdns);
        let ip = m.devs[d].ip.clone();
        let ghost o = olds@;
        assert(o == dev0.ports@);
        assert(taken@ == dev0.mdns@);
        let ghost cp = cert_pred(bs, ip@);
        let mut ports: Vec<PortInfo> = Vec::new();
        let mut extras: Vec<PortInfo> = Vec::new();
        let ghost mut p: int = 0;
        while olds.len() > 0
            invariant
                0 <= p <= o.len(),
                olds@ == o.skip(p),
                ip@ == dev0.ip@,
                bs == inp.banners@,
                cp == cert_pred(bs, ip@),
                ports@.len() == p,
                forall|i: int| 0 <= i < p ==> attached_like(#[trigger] ports@[i], o[i], bs, ip@),
                extras@.len() == o.take(p).filter(cp).len(),
                forall|e: int|
                    0 <= e < extras@.len() ==> extra_like(#[trigger] extras@[e], o.take(p).filter(cp)[e], bs, ip@),
            decreases olds@.len(),
        {
            let ghost ex0 = extras@;
            let mut port = olds.remove(0);
            assert(port == o[p]);
            let key = banner_key(&ip, port.port);
            if let Some(b) = find_banner(&inp.banners, key.as_str()) {
                port.banner = Some(copy_banner(b));
            }
            let mut tls_key = key.clone();
            push_str(&mut tls_key, ":tls");
            let mut added = false;
            if let Some(tls) = find_banner(&inp.banners, tls_key.as_str()) {
                let is_web = match &port.banner {
                    Some(Banner::Http { .. }) => true,
                    _ => false,
                };
                if is_web {
                    let mut service = match &port.service {
                        Some(s) => s.clone(),
                        None => owned("tls"),
                    };
                    push_str(&mut service, " (certificate)");
                    extras.push(PortInfo {
                        port: port.port,
                        protocol: owned("tcp"),
                        service: Some(service),
                        banner: Some(copy_banner(tls)),
                    });
                    added = true;
                }
            }
            proof {
                assert(attached_like(port, o[p], bs, ip@));
                assert(added == has_cert(o[p], bs, ip@));
                assert(o.take(p + 1) =~= o.take(p).push(o[p]));
                o.take(p).lemma_filter_push(o[p], cp);
            }
            ports.push(port);
            proof {
                p = p + 1;
                assert(olds@ =~= o.skip(p));
                if added {
                    assert(o.take(p).filter(cp) == o.take(p - 1).filter(cp).push(o[p - 1]));
                    assert forall|e: int| 0 <= e < extras@.len() implies extra_like(
                        #[trigger] extras@[e],
                        o.take(p).filter(cp)[e],
                        bs,
                        ip@,
                    ) by {
                        if e < ex0.len() {
                            assert(extras@[e] == ex0[e]);
                        }
                    }
                } else {
                    assert(o.take(p).filter(cp) == o.take(p - 1).filter(cp));
                }
            }
        }
        let ghost attached_part = ports@;
        let ghost extra_part = extras@;
        ports.append(&mut extras);
        proof {
            assert(o.take(o.len() as int) =~= o);
            assert(ports@ == attached_part + extra_part);
            assert(staged(ports@, o, bs, ip@)) by {
                assert forall|e: int| 0 <= e < o.filter(cp).len() implies extra_like(
                    #[trigger] ports@[o.len() + e],
                    o.filter(cp)[e],
                    bs,
                    ip@,
                ) by {
                    assert(ports@[o.len() + e] == extra_part[e]);
                }
                assert forall|i: int| 0 <= i < o.len() implies attached_like(#[trigger] ports@[i], o[i], bs, ip@) by {
                    assert(ports@[i] == attached_part[i]);
                }
            }
        }
        let ghost pre = ports@;
        let sorted = sort_ports(ports);
        let services = sort_services(taken);
        m.devs[d].ports = sorted;
        m.devs[d].mdns = services;
        proof {
            let dn = m.devs@[d as int];
            assert(dn == Device { ports: dn.ports, mdns: dn.mdns, ..dev0 });
            assert(staged(pre, dev0.ports@, bs, dev0.ip@) && stable_by_port(dn.ports@, pre));
            reveal(bannered);
            assert(bannered(bs, dev0, dn));
            assert(m.addrs@ == before.addrs@);
            lemma_touched(*inp, before, *m, d as int);
            assert forall|k: int| 0 <= k < d + 1 implies bannered(bs, m0.devs@[k], #[trigger] m.devs@[k]) by {
                if k < d {
                    assert(m.devs@[k] == before.devs@[k]);
                }
            }
            assert forall|k: int| d + 1 <= k < m.devs@.len() implies #[trigger] m.devs@[k] == m0.devs@[k] by {
                assert(m.devs@[k] == before.devs@[k]);
            }
        }
        d += 1;
    }
}

fn opt_as_str(s: &Option<String>) -> (r: Option<&str>)
    ensures
        opt_str_view(r) == opt_string_view(*s),
{
    match s {
        Some(t) => Some(t.as_str()),
        None => None,
    }
}

/// The first target range that covers `ip`.
fn covering_target(targets: &Vec<ScanTarget>, ip: u32) -> (r: Option<String>)
    ensures
        opt_string_view(r) == first_covering(targets@, ip, 0),
{
    let mut i: usize = 0;
    while i < targets.len()
        invariant
            i <= targets@.len(),
            first_covering(targets@, ip, 0) == first_covering(targets@, ip, i as int),
        decreases targets.len() - i,
    {
        match parse_cidr(targets[i].cidr.as_str()) {
            Ok(c) => {
                if c.contains(ip) {
                    return Some(targets[i].cidr.clone());
                }
            },
            Err(_) => {},
        }
        i += 1;
    }
    None
}

/// `d` as `old` was, but for what identification decides.
spec fn same_but_identity(old: Device, d: Device) -> bool {
    d == Device {
        vendor: d.vendor,
        mac_randomized: d.mac_randomized,
        device_type: d.device_type,
        type_evidence: d.type_evidence,
        display_name: d.display_name,
        source_range: d.source_range,
        ..old
    }
}

/// Vendor lookup, classification and naming, once everything else is merged.
fn pass_identify(m: &mut Merge, inp: &CorrelateInput, table: &OuiTable)
    requires
        merge_live(*old(m), *inp),
    ensures
        merge_live(*final(m), *inp),
        final(m).addrs@ == old(m).addrs@,
        forall|k: int| 0 <= k < final(m).devs@.len() ==> identified(*table, inp.targets@, #[trigger] final(m).devs@[k]),
        final(m).devs@.len() == old(m).devs@.len(),
        forall|k: int| 0 <= k < final(m).devs@.len() ==> same_but_identity(old(m).devs@[k], #[trigger] final(m).devs@[k]),
{
    let ghost m0 = *m;
    let mut d: usize = 0;
    while d < m.devs.len()
        invariant
            d <= m.devs@.len(),
            merge_live(*m, *inp),
            m.addrs@ == old(m).addrs@,
            m0 == *old(m),
            m.devs@.len() == m0.devs@.len(),
            forall|k: int| 0 <= k < d ==> identified(*table, inp.targets@, #[trigger] m.devs@[k]),
            forall|k: int| 0 <= k < m.devs@.len() ==> same_but_identity(m0.devs@[k], #[trigger] m.devs@[k]),
        decreases m.devs.len() - d,
    {
        let ghost before = *m;
        let lookup = lookup_vendor(table, opt_as_str(&m.devs[d].mac));
        let randomized = match &m.devs[d].mac {
            Some(_) => Some(lookup.randomized),
            None => None,
        };
        let vendor = opt_as_str(&lookup.vendor);
        let (kind, evidence) = classify(&m.devs[d], vendor);
        let name = choose_display_name(&m.devs[d], vendor);
        proof {
            lemma_ipv4_text_parses(m.addrs@[d as int]);
        }
        let range = covering_target(&inp.targets, m.addrs[d]);
        let ghost dev0 = m.devs@[d as int];
        m.devs[d].vendor = lookup.vendor.clone();
        m.devs[d].mac_randomized = randomized;
        m.devs[d].device_type = kind;
        m.devs[d].type_evidence = evidence;
        m.devs[d].display_name = name;
        m.devs[d].source_range = range;
        proof {
            let dv = m.devs@[d as int];
            assert(ballots(dv, opt_string_view(dv.vendor)) == ballots(dev0, opt_string_view(dv.vendor)));
            assert(display_name_spec(dv, opt_string_view(dv.vendor)) == display_name_spec(dev0, opt_string_view(dv.vendor)));
            assert(addr_of(dv) == before.addrs@[d as int]);
            lemma_touched(*inp, before, *m, d as int);
        }
        d += 1;
    }
}

/// The sort key of a record, computed.
fn exec_key(d: &Device, a: u32) -> (k: u64)
    requires
        addr_of(*d) == a,
    ensures
        k == sort_key(*d),
{
    let rank: u64 = if d.is_gateway {
        0
    } else if d.is_self {
        1
    } else {
        2
    };
    rank * 0x1_0000_0000 + a as u64
}

/// Records' sort keys follow their addresses, so distinct addresses give distinct keys.
proof fn lemma_keys(inp: CorrelateInput, m: Merge)
    requires
        m.ok(inp),
    ensures
        forall|k: int| 0 <= k < m.devs@.len() ==> addr_of(#[trigger] m.devs@[k]) == m.addrs@[k],
        forall|k: int, l: int|
            0 <= k < m.devs@.len() && 0 <= l < m.devs@.len() && m.addrs@[k] != m.addrs@[l] ==> sort_key(
                #[trigger] m.devs@[k],
            ) != sort_key(#[trigger] m.devs@[l]),
{
    assert forall|k: int| 0 <= k < m.devs@.len() implies addr_of(#[trigger] m.devs@[k]) == m.addrs@[k] by {
        lemma_ipv4_text_parses(m.addrs@[k]);
    }
}

/// Taking one record out of the merge keeps the rest of its state.
proof fn lemma_removed(inp: CorrelateInput, before: Merge, after: Merge, i: int)
    requires
        before.ok(inp),
        forall|k: int| 0 <= k < before.devs@.len() ==> (#[trigger] before.devs@[k]).responded_to_ping
            == inp.alive@.contains(before.addrs@[k]),
        0 <= i < before.devs@.len(),
        after.devs@ == before.devs@.remove(i),
        after.addrs@ == before.addrs@.remove(i),
    ensures
        after.ok(inp),
        forall|k: int| 0 <= k < after.devs@.len() ==> (#[trigger] after.devs@[k]).responded_to_ping
            == inp.alive@.contains(after.addrs@[k]),
{
    assert forall|a: int, b: int| 0 <= a < b < after.addrs@.len() implies after.addrs@[a] != after.addrs@[b] by {
        let a0 = if a < i { a } else { a + 1 };
        let b0 = if b < i { b } else { b + 1 };
        assert(after.addrs@[a] == before.addrs@[a0]);
        assert(after.addrs@[b] == before.addrs@[b0]);
    }
    assert forall|k: int| 0 <= k < after.devs@.len() implies placed(inp, #[trigger] after.devs@[k], after.addrs@[k]) by {
        let k0 = if k < i { k } else { k + 1 };
        assert(after.devs@[k] == before.devs@[k0]);
        assert(after.addrs@[k] == before.addrs@[k0]);
    }
    assert forall|k: int| 0 <= k < after.devs@.len() implies (#[trigger] after.devs@[k]).responded_to_ping
        == inp.alive@.contains(after.addrs@[k]) by {
        let k0 = if k < i { k } else { k + 1 };
        assert(after.devs@[k] == before.devs@[k0]);
        assert(after.addrs@[k] == before.addrs@[k0]);
    }
}

/// Each source's candidate list names exactly the addresses that source proves.
proof fn lemma_evidence_sources(inp: CorrelateInput)
    ensures
        forall|x: u32| #[trigger] evidenced(inp, x) == (inp.alive@.contains(x)
            || cand_has(refused_cands(inp), inp.refused_hosts@.len() as int, x)
            || cand_has(port_cands(inp), inp.open_ports@.len() as int, x)
            || cand_has(mdns_cands(inp), inp.mdns@.len() as int, x)
            || cand_has(ssdp_cands(inp), inp.ssdp@.len() as int, x)
            || cand_has(netbios_cands(inp), inp.netbios@.len() as int, x)),
{
    assert forall|x: u32| #[trigger] evidenced(inp, x) == (inp.alive@.contains(x)
        || cand_has(refused_cands(inp), inp.refused_hosts@.len() as int, x)
        || cand_has(port_cands(inp), inp.open_ports@.len() as int, x)
        || cand_has(mdns_cands(inp), inp.mdns@.len() as int, x)
        || cand_has(ssdp_cands(inp), inp.ssdp@.len() as int, x)
        || cand_has(netbios_cands(inp), inp.netbios@.len() as int, x)) by {
        if inp.refused_hosts@.contains(x) {
            let w = choose|w: int| 0 <= w < inp.refused_hosts@.len() && inp.refused_hosts@[w] == x;
            assert(refused_cands(inp)[w] == Some(x));
        }
        if cand_has(refused_cands(inp), inp.refused_hosts@.len() as int, x) {
            let w = choose|w: int| 0 <= w < inp.refused_hosts@.len() && refused_cands(inp)[w] == Some(x);
            assert(inp.refused_hosts@[w] == x);
        }
        if exists|j: int| 0 <= j < inp.open_ports@.len() && #[trigger] inp.open_ports@[j].0 == x {
            let w = choose|j: int| 0 <= j < inp.open_ports@.len() && #[trigger] inp.open_ports@[j].0 == x;
            assert(port_cands(inp)[w] == Some(x));
        }
        if cand_has(port_cands(inp), inp.open_ports@.len() as int, x) {
            let w = choose|w: int| 0 <= w < inp.open_ports@.len() && port_cands(inp)[w] == Some(x);
            assert(inp.open_ports@[w].0 == x);
        }
        if exists|j: int| 0 <= j < inp.mdns@.len() && mdns_ip(#[trigger] inp.mdns@[j]) == Some(x) {
            let w = choose|j: int| 0 <= j < inp.mdns@.len() && mdns_ip(#[trigger] inp.mdns@[j]) == Some(x);
            assert(mdns_cands(inp)[w] == Some(x));
        }
        if cand_has(mdns_cands(inp), inp.mdns@.len() as int, x) {
            let w = choose|w: int| 0 <= w < inp.mdns@.len() && mdns_cands(inp)[w] == Some(x);
            assert(mdns_ip(inp.mdns@[w]) == Some(x));
        }
        if exists|j: int| 0 <= j < inp.ssdp@.len() && parse_ipv4(#[trigger] inp.ssdp@[j].0@) == Some(x) {
            let w = choose|j: int| 0 <= j < inp.ssdp@.len() && parse_ipv4(#[trigger] inp.ssdp@[j].0@) == Some(x);
            assert(ssdp_cands(inp)[w] == Some(x));
        }
        if cand_has(ssdp_cands(inp), inp.ssdp@.len() as int, x) {
            let w = choose|w: int| 0 <= w < inp.ssdp@.len() && ssdp_cands(inp)[w] == Some(x);
            assert(parse_ipv4(inp.ssdp@[w].0@) == Some(x));
        }
        if exists|j: int| 0 <= j < inp.netbios@.len() && #[trigger] inp.netbios@[j].0 == x {
            let w = choose|j: int| 0 <= j < inp.netbios@.len() && #[trigger] inp.netbios@[j].0 == x;
            assert(netbios_cands(inp)[w] == Some(x));
        }
        if cand_has(netbios_cands(inp), inp.netbios@.len() as int, x) {
            let w = choose|w: int| 0 <= w < inp.netbios@.len() && netbios_cands(inp)[w] == Some(x);
            assert(inp.netbios@[w].0 == x);
        }
    }
}

/// Merges every probe's output into one device per address.
///
/// A device exists exactly for the addresses some probe proved present; a
/// neighbour-table entry or a reverse-DNS name alone never creates one. The
/// list comes back with the gateway first, then this machine, then by address.
#[verifier::spinoff_prover]
pub fn correlate(input: CorrelateInput, table: &OuiTable) -> (out: Vec<Device>)
    requires
        forall|j: int| 0 <= j < input.ssdp@.len() ==> (#[trigger] input.ssdp@[j]).1@.len() <= 0xffff_ffff,
    ensures
        forall|i: int|
            0 <= i < out@.len() ==> {
                &&& parse_ipv4((#[trigger] out@[i]).ip@) == Some(addr_of(out@[i]))
                &&& evidenced(input, addr_of(out@[i]))
                &&& placed(input, out@[i], addr_of(out@[i]))
                &&& out@[i].responded_to_ping == input.alive@.contains(addr_of(out@[i]))
                &&& identified(*table, input.targets@, out@[i])
            },
        forall|ip: u32| evidenced(input, ip) ==> exists|i: int| 0 <= i < out@.len() && addr_of(#[trigger] out@[i]) == ip,
        forall|i: int, j: int| 0 <= i < j < out@.len() ==> sort_key(out@[i]) < sort_key(out@[j]),
        forall|i: int| 0 <= i < out@.len() ==> reported(input, #[trigger] out@[i], addr_of(out@[i])),
{
    let now = crate::clock::now_rfc3339();
    let mut locals: Vec<crate::netutil::ParsedCidr> = Vec::new();
    let mut c: usize = 0;
    while c < input.local_cidrs.len()
        invariant
            c <= input.local_cidrs@.len(),
            forall|x: u32| #[trigger] ranges_cover(locals@, x) == covers_upto(input.local_cidrs@, c as int, x),
        decreases input.local_cidrs.len() - c,
    {
        let ghost before = locals@;
        match parse_cidr(input.local_cidrs[c].as_str()) {
            Ok(p) => {
                locals.push(p);
            },
            Err(_) => {},
        }
        proof {
            assert forall|x: u32| #[trigger] ranges_cover(locals@, x) == covers_upto(input.local_cidrs@, c + 1, x) by {
                if ranges_cover(locals@, x) {
                    let j = choose|j: int| 0 <= j < locals@.len() && locals@[j].first <= x <= #[trigger] locals@[j].last;
                    if j < before.len() {
                        assert(before[j] == locals@[j]);
                        assert(ranges_cover(before, x));
                    } else {
                        assert(parse_cidr_spec(input.local_cidrs@[c as int]@) matches Ok(p) && p.first <= x <= p.last);
                    }
                }
                if covers_upto(input.local_cidrs@, c + 1, x) {
                    let j = choose|j: int| 0 <= j < c + 1 && (#[trigger] parse_cidr_spec(input.local_cidrs@[j]@) matches Ok(p) && p.first <= x <= p.last);
                    if j < c {
                        assert(covers_upto(input.local_cidrs@, c as int, x));
                        assert(ranges_cover(before, x));
                        let w = choose|w: int| 0 <= w < before.len() && before[w].first <= x <= #[trigger] before[w].last;
                        assert(locals@[w] == before[w]);
                    } else {
                        assert(locals@[locals@.len() - 1].first <= x <= locals@[locals@.len() - 1].last);
                    }
                }
            }
        }
        c += 1;
    }
    let mut m = Merge { devs: Vec::new(), addrs: Vec::new() };
    pass_alive(&mut m, &input, &locals, &now);
    // A refused TCP connection proves the host is up even though it ignored ICMP.
    pass_refused(&mut m, &input, &locals, &now);
    pass_ports(&mut m, &input, &locals, &now);
    pass_mdns(&mut m, &input, &locals, &now);
    pass_ssdp(&mut m, &input, &locals, &now);
    pass_netbios(&mut m, &input, &locals, &now);
    let ghost m6 = m;
    pass_names(&mut m, &input);
    let ghost m7 = m;
    pass_banners(&mut m, &input);
    let ghost m8 = m;
    pass_identify(&mut m, &input, table);
    proof {
        lemma_evidence_sources(input);
        reveal(named);
        reveal(bannered);
        assert forall|k: int| 0 <= k < m.devs@.len() implies reported(input, #[trigger] m.devs@[k], m.addrs@[k]) by {
            let d6 = m6.devs@[k];
            let d7 = m7.devs@[k];
            let d8 = m8.devs@[k];
            assert(named(input, d6, m6.addrs@[k], d7));
            assert(same_but_names(d6, d7));
            assert(bannered(input.banners@, d7, d8));
            assert(same_but_identity(d8, m.devs@[k]));
            let pre = choose|pre: Seq<PortInfo>| staged(pre, d7.ports@, input.banners@, d7.ip@) && stable_by_port(d8.ports@, pre);
            assert(ports_given(input, d7.ports@, m.addrs@[k]));
            assert(filled(input, d6, m6.addrs@[k], 7, 0));
            assert(stable_by_key(m.devs@[k].mdns@, d7.mdns@));
            assert(opt_cloned(first_mac(input.netbios@, m.addrs@[k], input.netbios@.len() as int), d6.mac));
            assert(staged(pre, d7.ports@, input.banners@, m.devs@[k].ip@) && stable_by_port(m.devs@[k].ports@, pre));
        }
    }
    let mut out: Vec<Device> = Vec::new();
    let ghost mut oa: Seq<u32> = seq![];
    while m.devs.len() > 0
        invariant
            m.ok(input),
            forall|k: int| 0 <= k < m.devs@.len() ==> (#[trigger] m.devs@[k]).responded_to_ping
                == input.alive@.contains(m.addrs@[k]),
            forall|k: int| 0 <= k < m.devs@.len() ==> identified(*table, input.targets@, #[trigger] m.devs@[k]),
            forall|k: int| 0 <= k < m.devs@.len() ==> reported(input, #[trigger] m.devs@[k], m.addrs@[k]),
            out@.len() == oa.len(),
            forall|i: int| 0 <= i < out@.len() ==> reported(input, #[trigger] out@[i], oa[i]),
            forall|i: int| 0 <= i < out@.len() ==> {
                &&& placed(input, #[trigger] out@[i], oa[i])
                &&& out@[i].responded_to_ping == input.alive@.contains(oa[i])
                &&& identified(*table, input.targets@, out@[i])
                &&& addr_of(out@[i]) == oa[i]
            },
            forall|i: int, j: int| 0 <= i < j < out@.len() ==> sort_key(out@[i]) < sort_key(out@[j]),
            forall|i: int, j: int| 0 <= i < out@.len() && 0 <= j < m.devs@.len() ==> sort_key(out@[i]) < sort_key(m.devs@[j]),
            forall|x: u32| #[trigger] evidenced(input, x) == (oa.contains(x) || m.addrs@.contains(x)),
        decreases m.devs.len(),
    {
        proof {
            lemma_keys(input, m);
        }
        let mut best: usize = 0;
        let mut best_key: u64 = exec_key(&m.devs[0], m.addrs[0]);
        let mut j: usize = 1;
        while j < m.devs.len()
            invariant
                m.ok(input),
                1 <= j <= m.devs@.len(),
                best < j,
                best_key == sort_key(m.devs@[best as int]),
                forall|k: int| 0 <= k < j ==> sort_key(m.devs@[best as int]) <= sort_key(#[trigger] m.devs@[k]),
            decreases m.devs.len() - j,
        {
            proof {
                lemma_keys(input, m);
            }
            let k = exec_key(&m.devs[j], m.addrs[j]);
            if k < best_key {
                best = j;
                best_key = k;
            }
            j += 1;
        }
        proof {
            lemma_keys(input, m);
            assert forall|k: int| 0 <= k < m.devs@.len() && k != best implies sort_key(m.devs@[best as int]) < sort_key(#[trigger] m.devs@[k]) by {
                assert(m.addrs@[k] != m.addrs@[best as int]);
            }
        }
        let ghost before = m;
        let d = m.devs.remove(best);
        let a = m.addrs.remove(best);
        proof {
            lemma_removed(input, before, m, best as int);
            lemma_ipv4_text_parses(a);
            assert forall|x: u32| #[trigger] evidenced(input, x) == (oa.push(a).contains(x) || m.addrs@.contains(x)) by {
                lemma_contains_push(oa, a);
                if before.addrs@.contains(x) {
                    let w = choose|w: int| 0 <= w < before.addrs@.len() && before.addrs@[w] == x;
                    if w < best {
                        assert(m.addrs@[w] == x);
                    } else if w > best {
                        assert(m.addrs@[w - 1] == x);
                    }
                }
                if m.addrs@.contains(x) {
                    let w = choose|w: int| 0 <= w < m.addrs@.len() && m.addrs@[w] == x;
                    if w < best {
                        assert(before.addrs@[w] == x);
                    } else {
                        assert(before.addrs@[w + 1] == x);
                    }
                }
            }
        }
        out.push(d);
        proof {
            oa = oa.push(a);
        }
    }
    proof {
        assert forall|ip: u32| evidenced(input, ip) implies exists|i: int| 0 <= i < out@.len() && addr_of(#[trigger] out@[i]) == ip by {
            assert(oa.contains(ip));
            let w = choose|w: int| 0 <= w < oa.len() && oa[w] == ip;
            assert(addr_of(out@[w]) == ip);
        }
        assert forall|i: int| 0 <= i < out@.len() implies parse_ipv4((#[trigger] out@[i]).ip@) == Some(addr_of(out@[i])) by {
            lemma_ipv4_text_parses(oa[i]);
        }
        assert forall|i: int| 0 <= i < out@.len() implies evidenced(input, addr_of(#[trigger] out@[i])) by {
            assert(oa[i] == addr_of(out@[i]));
            assert(oa.contains(oa[i]));
        }
    }
    out
}

} // verus!
