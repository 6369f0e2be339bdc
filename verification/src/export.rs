//! A scan's devices as comma-separated values, one row per device.
use crate::scan::wifi::opt_text_view;
use crate::text::{
    chars_of, dec, dec_text, join, join_strings, owned, push_str, replace, replace_chars,
    string_of, strings_view,
};
use crate::types::{Device, DeviceType, PortInfo};
use vstd::prelude::*;

verus! {

/// The first line of every export.
pub open spec fn csv_header() -> Seq<char> {
    "ip,name,type,mac,vendor,randomized_mac,hostnames,open_ports,discovered_by,off_subnet,first_seen\n"@
}

/// A field holds a quote, a comma or a line break.
pub open spec fn quote_needed(v: Seq<char>) -> bool {
    exists|k: int| 0 <= k < v.len() && (v[k] == '"' || v[k] == ',' || v[k] == '\n')
}

/// A field as written: quoted, with its quotes doubled, when it needs it.
pub open spec fn csv_field(v: Seq<char>) -> Seq<char> {
    if quote_needed(v) {
        "\""@ + replace(v, "\""@, "\"\""@) + "\""@
    } else {
        v
    }
}

/// The device kind in lower case, as the export names it.
pub open spec fn type_label(t: DeviceType) -> Seq<char> {
    match t {
        DeviceType::Router => "router"@,
        DeviceType::Phone => "phone"@,
        DeviceType::Computer => "computer"@,
        DeviceType::Iot => "iot"@,
        DeviceType::Media => "media"@,
        DeviceType::Printer => "printer"@,
        DeviceType::Nas => "nas"@,
        DeviceType::Camera => "camera"@,
        DeviceType::Tv => "tv"@,
        DeviceType::Server => "server"@,
        DeviceType::Unknown => "unknown"@,
    }
}

pub open spec fn or_empty(s: Option<String>) -> Seq<char> {
    match opt_text_view(s) {
        Some(t) => t,
        None => Seq::<char>::empty(),
    }
}

pub open spec fn yes_if(b: bool) -> Seq<char> {
    if b {
        "yes"@
    } else {
        Seq::<char>::empty()
    }
}

/// The open port numbers, in decimal.
pub open spec fn port_numbers(ps: Seq<PortInfo>) -> Seq<Seq<char>> {
    Seq::new(ps.len(), |i: int| dec(ps[i].port as nat))
}

/// A device's fields, in header order, before escaping.
pub open spec fn csv_fields(d: Device) -> Seq<Seq<char>> {
    seq![
        d.ip@,
        d.display_name@,
        type_label(d.device_type),
        or_empty(d.mac),
        or_empty(d.vendor),
        yes_if(d.mac_randomized == Some(true)),
        join(strings_view(d.hostnames@), " "@),
        join(port_numbers(d.ports@), " "@),
        join(strings_view(d.discovered_by@), " "@),
        yes_if(d.off_subnet),
        or_empty(d.first_seen),
    ]
}

pub open spec fn csv_row(d: Device) -> Seq<char> {
    join(csv_fields(d).map_values(|f: Seq<char>| csv_field(f)), ","@) + "\n"@
}

pub open spec fn csv_rows(ds: Seq<Device>) -> Seq<char>
    decreases ds.len(),
{
    if ds.len() == 0 {
        Seq::<char>::empty()
    } else {
        csv_rows(ds.drop_last()) + csv_row(ds.last())
    }
}

/// The whole export: the header, then one row per device in order.
pub open spec fn csv_spec(ds: Seq<Device>) -> Seq<char> {
    csv_header() + csv_rows(ds)
}

fn escape(v: &String) -> (out: String)
    ensures
        out@ == csv_field(v@),
{
    let c = chars_of(v.as_str());
    let mut needs = false;
    let mut k: usize = 0;
    while k < c.len()
        invariant
            k <= c@.len(),
            c@ == v@,
            needs == exists|j: int| 0 <= j < k && (c@[j] == '"' || c@[j] == ',' || c@[j] == '\n'),
        decreases c.len() - k,
    {
        if c[k] == '"' || c[k] == ',' || c[k] == '\n' {
            needs = true;
        }
        k += 1;
    }
    if !needs {
        return owned(v.as_str());
    }
    let quote = chars_of("\"");
    let doubled = chars_of("\"\"");
    proof {
        reveal_strlit("\"");
    }
    let inner = replace_chars(&c, &quote, &doubled);
    let mut out = owned("\"");
    let body = string_of(&inner);
    push_str(&mut out, body.as_str());
    push_str(&mut out, "\"");
    out
}

fn label_of(t: DeviceType) -> (s: &'static str)
    ensures
        s@ == type_label(t),
{
    match t {
        DeviceType::Router => "router",
        DeviceType::Phone => "phone",
        DeviceType::Computer => "computer",
        DeviceType::Iot => "iot",
        DeviceType::Media => "media",
        DeviceType::Printer => "printer",
        DeviceType::Nas => "nas",
        DeviceType::Camera => "camera",
        DeviceType::Tv => "tv",
        DeviceType::Server => "server",
        DeviceType::Unknown => "unknown",
    }
}

fn text_or_empty(s: &Option<String>) -> (out: String)
    ensures
        out@ == or_empty(*s),
{
    match s {
        Some(t) => owned(t.as_str()),
        None => String::new(),
    }
}

fn yes_text(b: bool) -> (out: String)
    ensures
        out@ == yes_if(b),
{
    if b {
        owned("yes")
    } else {
        String::new()
    }
}

fn port_text(ports: &Vec<PortInfo>) -> (out: String)
    ensures
        out@ == join(port_numbers(ports@), " "@),
{
    let mut nums: Vec<String> = Vec::new();
    let mut i: usize = 0;
    while i < ports.len()
        invariant
            i <= ports@.len(),
            strings_view(nums@) =~= port_numbers(ports@).take(i as int),
        decreases ports.len() - i,
    {
        let t = dec_text(ports[i].port as u64);
        let ghost before = nums@;
        nums.push(t);
        assert(strings_view(nums@) =~= strings_view(before).push(t@));
        assert(port_numbers(ports@).take(i + 1) =~= port_numbers(ports@).take(i as int).push(t@));
        i += 1;
    }
    assert(port_numbers(ports@).take(ports@.len() as int) =~= port_numbers(ports@));
    join_strings(&nums, " ")
}

fn row_of(d: &Device) -> (out: String)
    ensures
        out@ == csv_row(*d),
{
    let mut fields: Vec<String> = Vec::new();
    fields.push(owned(d.ip.as_str()));
    fields.push(owned(d.display_name.as_str()));
    fields.push(owned(label_of(d.device_type)));
    fields.push(text_or_empty(&d.mac));
    fields.push(text_or_empty(&d.vendor));
    let randomized = match d.mac_randomized {
        Some(b) => b,
        None => false,
    };
    fields.push(yes_text(randomized));
    fields.push(join_strings(&d.hostnames, " "));
    fields.push(port_text(&d.ports));
    fields.push(join_strings(&d.discovered_by, " "));
    fields.push(yes_text(d.off_subnet));
    fields.push(text_or_empty(&d.first_seen));
    assert(strings_view(fields@) =~= csv_fields(*d));
    let mut escaped: Vec<String> = Vec::new();
    let mut i: usize = 0;
    while i < fields.len()
        invariant
            i <= fields@.len(),
            strings_view(fields@) == csv_fields(*d),
            strings_view(escaped@) =~= csv_fields(*d).map_values(|f: Seq<char>| csv_field(f)).take(i as int),
        decreases fields.len() - i,
    {
        let e = escape(&fields[i]);
        let ghost before = escaped@;
        escaped.push(e);
        assert(strings_view(escaped@) =~= strings_view(before).push(e@));
        assert(strings_view(fields@)[i as int] == fields@[i as int]@);
        assert(csv_fields(*d).map_values(|f: Seq<char>| csv_field(f)).take(i + 1) =~= csv_fields(
            *d,
        ).map_values(|f: Seq<char>| csv_field(f)).take(i as int).push(e@));
        i += 1;
    }
    assert(csv_fields(*d).map_values(|f: Seq<char>| csv_field(f)).take(fields@.len() as int) =~= csv_fields(
        *d,
    ).map_values(|f: Seq<char>| csv_field(f)));
    let mut row = join_strings(&escaped, ",");
    push_str(&mut row, "\n");
    row
}

/// The devices of a scan as CSV: a header line, then one line per device with
/// its address, name, kind, MAC, vendor, whether the MAC is randomized, host
/// names, open ports, how it was found, whether it lies off the local subnet,
/// and when it was first seen. A field holding a quote, comma or line break is
/// quoted, with its quotes doubled.
pub fn snapshot_to_csv(devices: &Vec<Device>) -> (out: String)
    ensures
        out@ == csv_spec(devices@),
{
    let mut out = owned(
        "ip,name,type,mac,vendor,randomized_mac,hostnames,open_ports,discovered_by,off_subnet,first_seen\n",
    );
    let mut i: usize = 0;
    while i < devices.len()
        invariant
            i <= devices@.len(),
            out@ == csv_header() + csv_rows(devices@.take(i as int)),
        decreases devices.len() - i,
    {
        let row = row_of(&devices[i]);
        push_str(&mut out, row.as_str());
        assert(devices@.take(i + 1).drop_last() =~= devices@.take(i as int));
        i += 1;
    }
    assert(devices@.take(devices@.len() as int) =~= devices@);
    out
}

/// A text cut to at most `max` characters for a fixed-width column; a cut
/// text ends in an ellipsis.
pub open spec fn truncate_spec(text: Seq<char>, max: nat) -> Seq<char> {
    if text.len() <= max {
        text
    } else {
        text.take(if max >= 1 { max - 1 } else { 0 }) + "\u{2026}"@
    }
}

/// Cuts `text` to fit a column of `max` characters.
pub fn truncate(text: &str, max: usize) -> (out: String)
    ensures
        out@ == truncate_spec(text@, max as nat),
{
    let c = chars_of(text);
    if c.len() <= max {
        return owned(text);
    }
    let keep: usize = if max >= 1 { max - 1 } else { 0 };
    let head = crate::text::slice_chars(&c, 0, keep);
    assert(head@ =~= text@.take(keep as int));
    let mut out = string_of(&head);
    push_str(&mut out, "\u{2026}");
    out
}

} // verus!
