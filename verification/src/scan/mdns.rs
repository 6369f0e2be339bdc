//! mDNS / DNS-SD: naming what was discovered.
//!
//! The protocol runs on a multicast socket in the application; the records it
//! collects are turned into services here.
use crate::text::{
    chars_of, digit, hex_value, is_digit, owned, push_char, radix_value, str_eq, string_of, trim_end_matches,
    trim_end_matching,
};
use vstd::prelude::*;

verus! {

/// Whether three characters at `i` are all decimal digits with a value that fits a byte.
pub open spec fn byte_escape(s: Seq<char>, i: int) -> bool {
    &&& i + 3 <= s.len()
    &&& is_digit(s[i]) && is_digit(s[i + 1]) && is_digit(s[i + 2])
    &&& radix_value(s.subrange(i, i + 3), 10) <= 255
}

/// DNS-SD escapes: `\DDD` is a decimal byte, `\c` a literal character, and a
/// trailing lone backslash is dropped.
pub open spec fn unescape(s: Seq<char>) -> Seq<char>
    decreases s.len(),
{
    if s.len() == 0 {
        seq![]
    } else if s[0] != '\\' {
        seq![s[0]] + unescape(s.drop_first())
    } else if byte_escape(s, 1) {
        seq![(radix_value(s.subrange(1, 4), 10) as u8) as char] + unescape(s.skip(4))
    } else if s.len() >= 2 {
        seq![s[1]] + unescape(s.skip(2))
    } else {
        seq![]
    }
}

/// DNS-SD escapes spaces and dots inside instance labels as `\032` / `\.`.
pub fn unescape_dns_label(label: &str) -> (out: String)
    ensures
        out@ == unescape(label@),
{
    let c = chars_of(label);
    let mut out: Vec<char> = Vec::new();
    let mut i: usize = 0;
    proof {
        assert(c@.skip(0) =~= c@);
        assert(out@ + unescape(c@) =~= unescape(c@));
    }
    while i < c.len()
        invariant
            i <= c@.len(),
            out@ + unescape(c@.skip(i as int)) == unescape(c@),
        decreases c.len() - i,
    {
        let ghost s = c@.skip(i as int);
        if c[i] != '\\' {
            out.push(c[i]);
            proof {
                assert(s.drop_first() =~= c@.skip(i + 1));
            }
            i += 1;
        } else if c.len() - i > 3 && digit(c[i + 1]) && digit(c[i + 2]) && digit(c[i + 3]) {
            let v = (c[i + 1] as u32 - '0' as u32) * 100 + (c[i + 2] as u32 - '0' as u32) * 10 + (c[i + 3] as u32 - '0' as u32);
            proof {
                let d = s.subrange(1, 4);
                assert(d =~= seq![c@[i + 1], c@[i + 2], c@[i + 3]]);
                assert(d.drop_last() =~= seq![c@[i + 1], c@[i + 2]]);
                assert(d.drop_last().drop_last() =~= seq![c@[i + 1]]);
                assert(d.drop_last().drop_last().drop_last() =~= seq![]);
                let h1 = hex_value(c@[i + 1]);
                let h2 = hex_value(c@[i + 2]);
                let h3 = hex_value(c@[i + 3]);
                assert(radix_value(d.drop_last().drop_last().drop_last(), 10) == 0);
                assert(radix_value(d.drop_last().drop_last(), 10) == h1);
                assert(radix_value(d.drop_last(), 10) == h1 * 10 + h2);
                assert(radix_value(d, 10) == (h1 * 10 + h2) * 10 + h3);
                assert(radix_value(d, 10) == v);
            }
            if v <= 255 {
                out.push((v as u8) as char);
                proof {
                    assert(s.skip(4) =~= c@.skip(i + 4));
                }
                i += 4;
            } else {
                out.push(c[i + 1]);
                proof {
                    assert(s.skip(2) =~= c@.skip(i + 2));
                }
                i += 2;
            }
        } else if i + 1 < c.len() {
            proof {
                if byte_escape(s, 1) {
                    assert(s[1] == c@[i + 1] && s[2] == c@[i + 2] && s[3] == c@[i + 3]);
                }
            }
            out.push(c[i + 1]);
            proof {
                assert(s.skip(2) =~= c@.skip(i + 2));
            }
            i += 2;
        } else {
            proof {
                assert(unescape(s) == Seq::<char>::empty());
                assert(c@.skip(i + 1).len() == 0);
            }
            i += 1;
        }
    }
    proof {
        assert(c@.skip(0) =~= c@);
    }
    string_of(&out)
}

/// `str::trim_start_matches` with a single character.
pub open spec fn trim_start_char(s: Seq<char>, c: char) -> Seq<char>
    decreases s.len(),
{
    if s.len() > 0 && s[0] == c {
        trim_start_char(s.drop_first(), c)
    } else {
        s
    }
}

/// A service type without its `.local`, `._tcp` and `._udp` suffixes.
pub open spec fn service_base(t: Seq<char>) -> Seq<char> {
    trim_end_matches(trim_end_matches(trim_end_matches(t, ".local"@), "._tcp"@), "._udp"@)
}

/// Human-readable names for the DNS-SD service types this app recognises.
pub open spec fn service_labels() -> Seq<(&'static str, &'static str)> {
    seq![
        ("_esphomelib", "ESPHome device"),
        ("_home-assistant", "Home Assistant"),
        ("_esphomebuilder", "ESPHome Builder"),
        ("_googlecast", "Google Cast"),
        ("_airplay", "AirPlay"),
        ("_raop", "AirPlay audio"),
        ("_spotify-connect", "Spotify Connect"),
        ("_printer", "Printer"),
        ("_ipp", "Printer (IPP)"),
        ("_ipps", "Printer (IPP)"),
        ("_pdl-datastream", "Printer (raw)"),
        ("_scanner", "Scanner"),
        ("_smb", "SMB file share"),
        ("_afpovertcp", "AFP file share"),
        ("_nfs", "NFS share"),
        ("_adisk", "Time Machine target"),
        ("_ssh", "SSH"),
        ("_sftp-ssh", "SFTP"),
        ("_http", "Web server"),
        ("_https", "Web server (TLS)"),
        ("_workstation", "Workstation"),
        ("_companion-link", "Apple Companion"),
        ("_remotepairing", "Apple remote pairing"),
        ("_rdlink", "Apple Remote Desktop"),
        ("_sleep-proxy", "Sleep proxy"),
        ("_hap", "HomeKit accessory"),
        ("_matter", "Matter device"),
        ("_matterc", "Matter device"),
        ("_plexmediasvr", "Plex Media Server"),
        ("_sonos", "Sonos"),
        ("_mqtt", "MQTT broker"),
        ("_device-info", "Device info"),
    ]
}

fn service_label_table() -> (v: Vec<(&'static str, &'static str)>)
    ensures
        v@ == service_labels(),
{
    let v = vec![
        ("_esphomelib", "ESPHome device"),
        ("_home-assistant", "Home Assistant"),
        ("_esphomebuilder", "ESPHome Builder"),
        ("_googlecast", "Google Cast"),
        ("_airplay", "AirPlay"),
        ("_raop", "AirPlay audio"),
        ("_spotify-connect", "Spotify Connect"),
        ("_printer", "Printer"),
        ("_ipp", "Printer (IPP)"),
        ("_ipps", "Printer (IPP)"),
        ("_pdl-datastream", "Printer (raw)"),
        ("_scanner", "Scanner"),
        ("_smb", "SMB file share"),
        ("_afpovertcp", "AFP file share"),
        ("_nfs", "NFS share"),
        ("_adisk", "Time Machine target"),
        ("_ssh", "SSH"),
        ("_sftp-ssh", "SFTP"),
        ("_http", "Web server"),
        ("_https", "Web server (TLS)"),
        ("_workstation", "Workstation"),
        ("_companion-link", "Apple Companion"),
        ("_remotepairing", "Apple remote pairing"),
        ("_rdlink", "Apple Remote Desktop"),
        ("_sleep-proxy", "Sleep proxy"),
        ("_hap", "HomeKit accessory"),
        ("_matter", "Matter device"),
        ("_matterc", "Matter device"),
        ("_plexmediasvr", "Plex Media Server"),
        ("_sonos", "Sonos"),
        ("_mqtt", "MQTT broker"),
        ("_device-info", "Device info"),
    ];
    assert(v@ =~= service_labels());
    v
}

/// The first known label for `base` among the table entries from `i`.
pub open spec fn known_label(base: Seq<char>, i: int) -> Option<Seq<char>>
    decreases service_labels().len() - i,
{
    if i < 0 || i >= service_labels().len() {
        None
    } else if service_labels()[i].0@ == base {
        Some(service_labels()[i].1@)
    } else {
        known_label(base, i + 1)
    }
}

pub open spec fn label_spec(service_type: Seq<char>) -> Seq<char> {
    let base = service_base(service_type);
    match known_label(base, 0) {
        Some(l) => l,
        None => trim_start_char(base, '_'),
    }
}

/// Human-readable label for a DNS-SD service type; an unknown type is shown
/// without its leading underscore.
pub fn label_for_service_type(service_type: &str) -> (label: String)
    ensures
        label@ == label_spec(service_type@),
{
    let t = chars_of(service_type);
    let local = chars_of(".local");
    let tcp = chars_of("._tcp");
    let udp = chars_of("._udp");
    let a = trim_end_matching(&t, &local);
    let b = trim_end_matching(&a, &tcp);
    let base = trim_end_matching(&b, &udp);
    let base_text = string_of(&base);
    let table = service_label_table();
    let mut i: usize = 0;
    while i < table.len()
        invariant
            i <= table@.len(),
            table@ == service_labels(),
            base_text@ == service_base(service_type@),
            known_label(base_text@, 0) == known_label(base_text@, i as int),
        decreases table.len() - i,
    {
        if str_eq(table[i].0, base_text.as_str()) {
            return owned(table[i].1);
        }
        i += 1;
    }
    let mut k: usize = 0;
    proof {
        assert(base@.skip(0) =~= base@);
    }
    while k < base.len() && base[k] == '_'
        invariant
            k <= base@.len(),
            trim_start_char(base@, '_') == trim_start_char(base@.skip(k as int), '_'),
        decreases base.len() - k,
    {
        proof {
            assert(base@.skip(k as int).drop_first() =~= base@.skip(k + 1));
        }
        k += 1;
    }
    proof {
        assert(base@.skip(0) =~= base@);
    }
    let rest = crate::text::slice_chars(&base, k, base.len());
    assert(rest@ =~= base@.skip(k as int));
    string_of(&rest)
}

} // verus!
