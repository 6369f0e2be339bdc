//! The controller's records, as plain values, and what is read from them.
//!
//! The application decodes the controller's JSON tolerantly (every field
//! optional, unknown keys ignored) into these types. Where the controller
//! sends a loosely typed JSON value, these types hold what the logic reads
//! of it.
use crate::netutil::{
    normalize_mac_spec, parse_cidr_any, parse_cidr_any_spec, parse_ipv4, parse_ipv4_str,
};
use crate::scan::wifi::opt_text_view;
use crate::text::{
    chars_of, contains, copy_text, dec, has, is_text, join, lower_seq, lowercase, owned,
    parse_unsigned, parse_unsigned_chars, push_dec, push_str, string_of, trim, trimmed,
};
use vstd::prelude::*;

verus! {

/// A trimmed text, when it is not blank.
pub open spec fn nonblank(s: Option<Seq<char>>) -> Option<Seq<char>> {
    match s {
        Some(t) => if trim(t).len() > 0 {
            Some(trim(t))
        } else {
            None
        },
        None => None,
    }
}

fn nonblank_of(s: &Option<String>) -> (r: Option<String>)
    ensures
        opt_text_view(r) == nonblank(opt_text_view(*s)),
{
    match s {
        Some(t) => {
            let c = chars_of(t.as_str());
            let tc = trimmed(&c);
            if tc.len() > 0 {
                Some(string_of(&tc))
            } else {
                None
            }
        },
        None => None,
    }
}

fn copy_opt(s: &Option<String>) -> (r: Option<String>)
    ensures
        r == *s,
{
    match s {
        Some(t) => Some(t.clone()),
        None => None,
    }
}

/* ----------------------------------------------------------------- clients */

/// One entry from `stat/sta` (active) or `stat/alluser` (all known).
#[derive(Debug, Clone)]
pub struct UnifiClientRecord {
    /// Normalised MAC (lowercase, colon-separated), when present.
    pub mac: Option<String>,
    pub ip: Option<String>,
    /// DHCP-supplied hostname.
    pub hostname: Option<String>,
    /// Alias a human typed into the controller. The best name available.
    pub name: Option<String>,
    pub oui: Option<String>,
    pub note: Option<String>,
    pub is_wired: Option<bool>,
    pub is_guest: Option<bool>,
    pub network: Option<String>,
    pub vlan: Option<u32>,
    /// AP this client is associated to.
    pub ap_mac: Option<String>,
    pub essid: Option<String>,
    pub channel: Option<u32>,
    pub radio: Option<String>,
    pub radio_proto: Option<String>,
    pub rssi: Option<i32>,
    pub signal: Option<i32>,
    pub noise: Option<i32>,
    pub satisfaction: Option<i32>,
    /// Switch and port a wired client is on: the physical location.
    pub sw_mac: Option<String>,
    pub sw_port: Option<u32>,
    pub uptime: Option<i64>,
    pub first_seen: Option<i64>,
    pub last_seen: Option<i64>,
    pub tx_bytes: Option<i64>,
    pub rx_bytes: Option<i64>,
    /// The controller's own fingerprint of the device, each when sent as text
    /// (some releases send numeric ids instead, which mean nothing to a user).
    pub dev_vendor: Option<String>,
    pub dev_family: Option<String>,
    pub dev_cat: Option<String>,
    pub os_name: Option<String>,
    pub use_fixedip: Option<bool>,
    pub fixed_ip: Option<String>,
}

impl Default for UnifiClientRecord {
    fn default() -> (r: Self)
        ensures
            r.mac is None && r.ip is None && r.hostname is None && r.name is None && r.vlan is None,
            r.ap_mac is None && r.sw_mac is None && r.last_seen is None && r.first_seen is None,
            r.is_wired is None && r.is_guest is None && r.satisfaction is None && r.signal is None
                && r.rssi is None,
            r.dev_vendor is None && r.dev_family is None && r.os_name is None && r.radio_proto is None,
            r.fixed_ip is None && r.network is None && r.essid is None && r.note is None,
    {
        UnifiClientRecord {
            mac: None,
            ip: None,
            hostname: None,
            name: None,
            oui: None,
            note: None,
            is_wired: None,
            is_guest: None,
            network: None,
            vlan: None,
            ap_mac: None,
            essid: None,
            channel: None,
            radio: None,
            radio_proto: None,
            rssi: None,
            signal: None,
            noise: None,
            satisfaction: None,
            sw_mac: None,
            sw_port: None,
            uptime: None,
            first_seen: None,
            last_seen: None,
            tx_bytes: None,
            rx_bytes: None,
            dev_vendor: None,
            dev_family: None,
            dev_cat: None,
            os_name: None,
            use_fixedip: None,
            fixed_ip: None,
        }
    }
}

/// The fingerprint parts that carry text, in order: vendor, family, OS.
pub open spec fn fingerprint_parts(r: UnifiClientRecord) -> Seq<Seq<char>> {
    let a = nonblank(opt_text_view(r.dev_vendor));
    let b = nonblank(opt_text_view(r.dev_family));
    let c = nonblank(opt_text_view(r.os_name));
    (if a is Some { seq![a.unwrap()] } else { seq![] }) + (if b is Some { seq![b.unwrap()] } else { seq![] })
        + (if c is Some { seq![c.unwrap()] } else { seq![] })
}

/// The Wi-Fi generation a `radio_proto` names; an unrecognised value passes
/// through (lowercased) rather than disappearing.
pub open spec fn generation_spec(proto: Seq<char>) -> Option<Seq<char>> {
    let p = lower_seq(trim(proto));
    if p.len() == 0 {
        None
    } else if p == "b"@ || p == "g"@ {
        Some("802.11"@ + p)
    } else if p == "n"@ || p == "ng"@ || p == "na"@ {
        Some("Wi-Fi 4 (n)"@)
    } else if p == "ac"@ {
        Some("Wi-Fi 5 (ac)"@)
    } else if p == "ax"@ {
        Some("Wi-Fi 6 (ax)"@)
    } else if p == "be"@ {
        Some("Wi-Fi 7 (be)"@)
    } else {
        Some(p)
    }
}

impl UnifiClientRecord {
    /// Best human-readable name: an operator-assigned alias beats a DHCP
    /// hostname, which beats nothing; blank ones do not count.
    pub open spec fn best_name_spec(self) -> Option<Seq<char>> {
        match nonblank(opt_text_view(self.name)) {
            Some(n) => Some(n),
            None => nonblank(opt_text_view(self.hostname)),
        }
    }

    pub fn best_name(&self) -> (r: Option<String>)
        ensures
            opt_text_view(r) == self.best_name_spec(),
    {
        match nonblank_of(&self.name) {
            Some(n) => Some(n),
            None => nonblank_of(&self.hostname),
        }
    }

    /// Human summary of the controller's fingerprint: its text parts joined
    /// by ` · `, nothing when there are none.
    pub fn fingerprint(&self) -> (r: Option<String>)
        ensures
            fingerprint_parts(*self).len() == 0 ==> r is None,
            fingerprint_parts(*self).len() > 0 ==> (r matches Some(f) && f@ == join(
                fingerprint_parts(*self),
                " \u{b7} "@,
            )),
    {
        let mut parts: Vec<Vec<char>> = Vec::new();
        let ghost empty = parts@;
        match nonblank_of(&self.dev_vendor) {
            Some(p) => {
                parts.push(chars_of(p.as_str()));
            },
            None => {},
        }
        match nonblank_of(&self.dev_family) {
            Some(p) => {
                parts.push(chars_of(p.as_str()));
            },
            None => {},
        }
        match nonblank_of(&self.os_name) {
            Some(p) => {
                parts.push(chars_of(p.as_str()));
            },
            None => {},
        }
        assert(crate::text::views(parts@) =~= fingerprint_parts(*self));
        if parts.len() == 0 {
            return None;
        }
        let sep = chars_of(" \u{b7} ");
        let joined = crate::text::join_chars(&parts, &sep);
        Some(string_of(&joined))
    }

    /// The first of the leased and the fixed address that is an IPv4 address.
    pub open spec fn effective_ip_spec(self) -> Option<Seq<char>> {
        if self.ip is Some && parse_ipv4(self.ip.unwrap()@) is Some {
            Some(self.ip.unwrap()@)
        } else if self.fixed_ip is Some && parse_ipv4(self.fixed_ip.unwrap()@) is Some {
            Some(self.fixed_ip.unwrap()@)
        } else {
            None
        }
    }

    pub fn effective_ip(&self) -> (r: Option<String>)
        ensures
            opt_text_view(r) == self.effective_ip_spec(),
    {
        match &self.ip {
            Some(a) => if parse_ipv4_str(a.as_str()).is_some() {
                return Some(copy_text(a));
            },
            None => {},
        }
        match &self.fixed_ip {
            Some(a) => if parse_ipv4_str(a.as_str()).is_some() {
                return Some(copy_text(a));
            },
            None => {},
        }
        None
    }

    /// The consumer Wi-Fi generation name of `radio_proto`.
    pub fn wifi_generation(&self) -> (r: Option<String>)
        ensures
            opt_text_view(r) == (match self.radio_proto {
                Some(p) => generation_spec(p@),
                None => None,
            }),
    {
        let proto = match &self.radio_proto {
            Some(p) => p,
            None => {
                return None;
            },
        };
        let c = chars_of(proto.as_str());
        let t = trimmed(&c);
        let p = lowercase(&t);
        if p.len() == 0 {
            return None;
        }
        if is_text(&p, "b") || is_text(&p, "g") {
            let mut s = owned("802.11");
            push_str(&mut s, string_of(&p).as_str());
            return Some(s);
        }
        if is_text(&p, "n") || is_text(&p, "ng") || is_text(&p, "na") {
            return Some(owned("Wi-Fi 4 (n)"));
        }
        if is_text(&p, "ac") {
            return Some(owned("Wi-Fi 5 (ac)"));
        }
        if is_text(&p, "ax") {
            return Some(owned("Wi-Fi 6 (ax)"));
        }
        if is_text(&p, "be") {
            return Some(owned("Wi-Fi 7 (be)"));
        }
        Some(string_of(&p))
    }
}

/* ----------------------------------------------------------------- devices */

#[derive(Debug, Clone)]
pub struct MacTableEntry {
    pub mac: Option<String>,
    pub vlan: Option<u32>,
}

/// A port on a UniFi switch (its PoE draw is read by the application).
#[derive(Debug, Clone)]
pub struct PortEntry {
    pub port_idx: Option<u32>,
    pub name: Option<String>,
    pub up: Option<bool>,
    pub speed: Option<i64>,
    pub poe_enable: Option<bool>,
    /// MACs the switch has learned on this port. More than one means
    /// something unmanaged is plugged in behind it.
    pub mac_table: Option<Vec<MacTableEntry>>,
}

/// One managed UniFi device from `stat/device`.
#[derive(Debug, Clone)]
pub struct UnifiDeviceRecord {
    pub mac: Option<String>,
    pub ip: Option<String>,
    pub name: Option<String>,
    pub model: Option<String>,
    /// `uap`, `usw`, `ugw`, `udm`, ...
    pub kind: Option<String>,
    pub version: Option<String>,
    pub adopted: Option<bool>,
    pub state: Option<i32>,
    pub uptime: Option<i64>,
    pub upgradable: Option<bool>,
    pub port_table: Option<Vec<PortEntry>>,
}

/// A device's name with its model code, or whichever of them it has.
pub open spec fn describe_spec(d: UnifiDeviceRecord) -> Seq<char> {
    let named = d.name is Some && trim(d.name.unwrap()@).len() > 0;
    if named && d.model is Some {
        trim(d.name.unwrap()@) + " ("@ + d.model.unwrap()@ + ")"@
    } else if named {
        trim(d.name.unwrap()@)
    } else if d.model is Some {
        d.model.unwrap()@
    } else {
        "UniFi device"@
    }
}

/// The label of an abnormal device state; nothing for a connected device or
/// one not adopted (that has its own badge).
pub open spec fn state_problem_spec(d: UnifiDeviceRecord) -> Option<Seq<char>> {
    match d.state {
        None => None,
        Some(s) => if s == 1 || d.adopted != Some(true) {
            None
        } else {
            Some(
                if s == 0 {
                    "Disconnected"@
                } else if s == 2 {
                    "Adoption pending"@
                } else if s == 4 {
                    "Upgrading"@
                } else if s == 5 {
                    "Provisioning"@
                } else if s == 6 {
                    "Heartbeat missed"@
                } else if s == 7 {
                    "Adopting"@
                } else if s == 9 {
                    "Adoption error"@
                } else if s == 11 {
                    "Isolated"@
                } else if s < 0 {
                    "State -"@ + dec((-s) as nat)
                } else {
                    "State "@ + dec(s as nat)
                },
            )
        },
    }
}

impl UnifiDeviceRecord {
    /// `model` is a short code (`U7PG2`); paired with the name the UI shows
    /// something meaningful either way.
    pub fn describe(&self) -> (d: String)
        ensures
            d@ == describe_spec(*self),
    {
        let named = match &self.name {
            Some(n) => {
                let c = chars_of(n.as_str());
                let t = trimmed(&c);
                if t.len() > 0 {
                    Some(string_of(&t))
                } else {
                    None
                }
            },
            None => None,
        };
        match (named, &self.model) {
            (Some(n), Some(m)) => {
                let mut s = n;
                push_str(&mut s, " (");
                push_str(&mut s, m.as_str());
                push_str(&mut s, ")");
                s
            },
            (Some(n), None) => n,
            (None, Some(m)) => copy_text(m),
            (None, None) => owned("UniFi device"),
        }
    }

    pub fn kind_label(&self) -> (l: &'static str)
        ensures
            l@ == (match self.kind {
                Some(k) => if k@ == "uap"@ {
                    "Access point"@
                } else if k@ == "usw"@ {
                    "Switch"@
                } else if k@ == "ugw"@ || k@ == "udm"@ {
                    "Gateway"@
                } else {
                    "UniFi device"@
                },
                None => "UniFi device"@,
            }),
    {
        match &self.kind {
            Some(k) => {
                let c = chars_of(k.as_str());
                if is_text(&c, "uap") {
                    "Access point"
                } else if is_text(&c, "usw") {
                    "Switch"
                } else if is_text(&c, "ugw") || is_text(&c, "udm") {
                    "Gateway"
                } else {
                    "UniFi device"
                }
            },
            None => "UniFi device",
        }
    }

    pub fn state_problem(&self) -> (r: Option<String>)
        ensures
            opt_text_view(r) == state_problem_spec(*self),
    {
        let state = match self.state {
            Some(s) => s,
            None => {
                return None;
            },
        };
        if state == 1 || self.adopted != Some(true) {
            return None;
        }
        let text = if state == 0 {
            owned("Disconnected")
        } else if state == 2 {
            owned("Adoption pending")
        } else if state == 4 {
            owned("Upgrading")
        } else if state == 5 {
            owned("Provisioning")
        } else if state == 6 {
            owned("Heartbeat missed")
        } else if state == 7 {
            owned("Adopting")
        } else if state == 9 {
            owned("Adoption error")
        } else if state == 11 {
            owned("Isolated")
        } else if state < 0 {
            let mut s = owned("State -");
            let m: i64 = 0i64 - (state as i64);
            push_dec(&mut s, m as u64);
            s
        } else {
            let mut s = owned("State ");
            push_dec(&mut s, state as u64);
            s
        };
        Some(text)
    }
}

/* ---------------------------------------------------------------- networks */

/// A JSON value as far as a numeric field reads it: some releases send a
/// number, others a string.
#[derive(Debug, Clone)]
pub enum LooseValue {
    /// A non-negative integer.
    Unsigned(u64),
    /// Any other number.
    OtherNumber,
    Text(String),
    Other,
}

/// One entry from `rest/networkconf`: a network as the operator configured it.
#[derive(Debug, Clone)]
pub struct UnifiNetworkConf {
    pub name: Option<String>,
    /// `corporate`, `guest`, `wan`, `vlan-only`, `vpn-client`, ...
    pub purpose: Option<String>,
    /// Gateway address with prefix, e.g. `10.0.30.1/24`.
    pub ip_subnet: Option<String>,
    pub vlan: Option<LooseValue>,
    pub enabled: Option<bool>,
    pub vlan_enabled: Option<bool>,
    pub dhcpd_enabled: Option<bool>,
}

/// The VLAN id a loosely typed value holds.
pub open spec fn vlan_spec(v: Option<LooseValue>) -> Option<u32> {
    match v {
        Some(LooseValue::Unsigned(n)) => if n <= u32::MAX {
            Some(n as u32)
        } else {
            None
        },
        Some(LooseValue::Text(s)) => match parse_unsigned(trim(s@), 10, 0xffff_ffff) {
            Some(n) => Some(n as u32),
            None => None,
        },
        _ => None,
    }
}

impl UnifiNetworkConf {
    pub fn vlan_id(&self) -> (r: Option<u32>)
        ensures
            r == vlan_spec(self.vlan),
    {
        match &self.vlan {
            Some(LooseValue::Unsigned(n)) => if *n <= 0xffff_ffff {
                Some(*n as u32)
            } else {
                None
            },
            Some(LooseValue::Text(s)) => {
                let c = chars_of(s.as_str());
                let t = trimmed(&c);
                match parse_unsigned_chars(&t, 0xffff_ffff) {
                    Some(n) => Some(n as u32),
                    None => None,
                }
            },
            _ => None,
        }
    }
}

/// The configured network as stored in a snapshot.
#[derive(Debug, Clone)]
pub struct UnifiNetworkSummary {
    pub name: String,
    pub purpose: Option<String>,
    /// Canonical network address, e.g. `10.0.30.0/24` (the configured
    /// `ip_subnet` is the gateway's address, which would mislead a reader).
    pub subnet: Option<String>,
    pub vlan: Option<u32>,
    pub enabled: bool,
    pub dhcp: Option<bool>,
}

/// The subnet as a canonical network address, or as written when it does
/// not read as one.
pub open spec fn canonical_subnet(raw: Seq<char>) -> Seq<char> {
    match parse_cidr_any_spec(raw) {
        Ok(c) => c.canonical_text(),
        Err(_) => raw,
    }
}

impl UnifiNetworkSummary {
    pub fn from_conf(record: &UnifiNetworkConf) -> (s: Self)
        ensures
            s.name@ == (match nonblank(opt_text_view(record.name)) {
                Some(_) => record.name.unwrap()@,
                None => "unnamed network"@,
            }),
            s.purpose == record.purpose,
            opt_text_view(s.subnet) == (match record.ip_subnet {
                Some(raw) => Some(canonical_subnet(raw@)),
                None => None,
            }),
            s.vlan == vlan_spec(record.vlan),
            s.enabled == (match record.enabled {
                Some(e) => e,
                None => true,
            }),
            s.dhcp == record.dhcpd_enabled,
    {
        let subnet = match &record.ip_subnet {
            Some(raw) => match parse_cidr_any(raw.as_str()) {
                Ok(c) => Some(c.canonical()),
                Err(_) => Some(copy_text(raw)),
            },
            None => None,
        };
        let name = match nonblank_of(&record.name) {
            Some(_) => copy_text(record.name.as_ref().unwrap()),
            None => owned("unnamed network"),
        };
        UnifiNetworkSummary {
            name,
            purpose: copy_opt(&record.purpose),
            subnet,
            vlan: record.vlan_id(),
            enabled: match record.enabled {
                Some(e) => e,
                None => true,
            },
            dhcp: record.dhcpd_enabled,
        }
    }
}

/* ------------------------------------------------------------------ events */

/// One entry from `stat/event`: connects, disconnects, roams and the like.
#[derive(Debug, Clone)]
pub struct UnifiEventRecord {
    /// e.g. `EVT_WU_Disconnected` (wireless user), `EVT_LU_Connected` (LAN user).
    pub key: Option<String>,
    pub subsystem: Option<String>,
    /// Epoch milliseconds in every observed release.
    pub time: Option<i64>,
    pub msg: Option<String>,
    /// The client involved: `user` for normal clients, `guest` for guests.
    pub user: Option<String>,
    pub guest: Option<String>,
    pub hostname: Option<String>,
    pub ap: Option<String>,
    pub ssid: Option<String>,
}

/// A time in epoch seconds, whichever unit it came in: a value that would
/// place the event thousands of years out is milliseconds.
pub open spec fn seconds_spec(t: i64) -> i64 {
    if t > 100_000_000_000 {
        (t / 1000) as i64
    } else {
        t
    }
}

pub fn to_seconds(t: i64) -> (s: i64)
    ensures
        s == seconds_spec(t),
{
    if t > 100_000_000_000 {
        t / 1000
    } else {
        t
    }
}

impl UnifiEventRecord {
    /// The client involved: the user, else the guest.
    pub fn client_mac(&self) -> (r: Option<&str>)
        ensures
            match r {
                Some(m) => m@ == (if self.user is Some { self.user.unwrap()@ } else { self.guest.unwrap()@ })
                    && (self.user is Some || self.guest is Some),
                None => self.user is None && self.guest is None,
            },
    {
        match &self.user {
            Some(u) => Some(u.as_str()),
            None => match &self.guest {
                Some(g) => Some(g.as_str()),
                None => None,
            },
        }
    }

    pub fn time_seconds(&self) -> (r: Option<i64>)
        ensures
            r == (match self.time {
                Some(t) => Some(seconds_spec(t)),
                None => None,
            }),
    {
        match self.time {
            Some(t) => Some(to_seconds(t)),
            None => None,
        }
    }

    pub fn is_disconnect(&self) -> (b: bool)
        ensures
            b == (self.key is Some && contains(self.key.unwrap()@, "Disconnected"@)),
    {
        match &self.key {
            Some(k) => {
                let c = chars_of(k.as_str());
                has(&c, "Disconnected")
            },
            None => false,
        }
    }
}

/* ------------------------------------------------------------------ alarms */

/// One entry from `list/alarm`.
#[derive(Debug, Clone)]
pub struct UnifiAlarmRecord {
    pub key: Option<String>,
    pub msg: Option<String>,
    /// Epoch milliseconds, like events.
    pub time: Option<i64>,
    pub subsystem: Option<String>,
    pub archived: Option<bool>,
}

/// An active alarm as stored in a snapshot; the controller already words
/// these for humans, so the message passes through verbatim.
#[derive(Debug, Clone)]
pub struct UnifiAlarmSummary {
    pub message: String,
    pub subsystem: Option<String>,
    /// Epoch seconds.
    pub time: Option<i64>,
}

impl UnifiAlarmRecord {
    /// An active alarm's summary: archived alarms vanish, the message is the
    /// text when not blank, else the key; without either there is nothing.
    pub fn summarize(&self) -> (r: Option<UnifiAlarmSummary>)
        ensures
            self.archived == Some(true) ==> r is None,
            self.archived != Some(true) ==> match r {
                None => nonblank(opt_text_view(self.msg)) is None && self.key is None,
                Some(s) => {
                    &&& s.message@ == (if nonblank(opt_text_view(self.msg)) is Some {
                        self.msg.unwrap()@
                    } else {
                        self.key.unwrap()@
                    })
                    &&& (nonblank(opt_text_view(self.msg)) is Some || self.key is Some)
                    &&& s.subsystem == self.subsystem
                    &&& s.time == (match self.time {
                        Some(t) => Some(seconds_spec(t)),
                        None => None,
                    })
                },
            },
    {
        if self.archived == Some(true) {
            return None;
        }
        let message = match nonblank_of(&self.msg) {
            Some(_) => copy_text(self.msg.as_ref().unwrap()),
            None => match &self.key {
                Some(k) => copy_text(k),
                None => {
                    return None;
                },
            },
        };
        Some(
            UnifiAlarmSummary {
                message,
                subsystem: copy_opt(&self.subsystem),
                time: match self.time {
                    Some(t) => Some(to_seconds(t)),
                    None => None,
                },
            },
        )
    }
}

/* ------------------------------------------------------------ foreign APs */

/// One entry from `stat/rogueap`: a foreign access point overheard by the
/// site's own radios.
#[derive(Debug, Clone)]
pub struct UnifiRogueApRecord {
    pub essid: Option<String>,
    pub bssid: Option<String>,
    pub channel: Option<u32>,
    /// dBm (negative) in most releases.
    pub signal: Option<i32>,
    /// dB above noise (small positive): the same fact on another scale.
    pub rssi: Option<i32>,
    pub security: Option<String>,
    pub oui: Option<String>,
}

/// A neighbouring AP as stored in a snapshot.
#[derive(Debug, Clone)]
pub struct NeighborApSummary {
    pub ssid: Option<String>,
    pub bssid: Option<String>,
    pub channel: Option<u32>,
    pub signal_dbm: Option<i32>,
    pub security: Option<String>,
    /// A foreign radio broadcasting one of this site's own SSIDs: the
    /// evil-twin signature.
    pub evil_twin: bool,
}

/// The summary of one overheard AP: an evil twin when its (non-blank) SSID
/// is one of the site's own; the signal in dBm is whichever reading is
/// negative, the `signal` field first.
pub open spec fn neighbor_ok(r: UnifiRogueApRecord, own: Seq<Seq<char>>, n: NeighborApSummary) -> bool {
    let essid = opt_text_view(r.essid);
    &&& n.evil_twin == (essid is Some && trim(essid.unwrap()).len() > 0 && own.contains(essid.unwrap()))
    &&& opt_text_view(n.ssid) == (if essid is Some && trim(essid.unwrap()).len() > 0 { essid } else { None })
    &&& n.bssid == r.bssid
    &&& n.channel == r.channel
    &&& n.signal_dbm == (if r.signal is Some && r.signal.unwrap() < 0 {
        r.signal
    } else if r.rssi is Some && r.rssi.unwrap() < 0 {
        r.rssi
    } else {
        None
    })
    &&& n.security == r.security
}

/// The signal the order of interest uses: absent counts as weakest.
pub open spec fn strength_key(n: NeighborApSummary) -> int {
    match n.signal_dbm {
        Some(s) => s as int,
        None => i32::MIN as int,
    }
}

/// `a` comes strictly before `b`: evil twins first, then stronger signal.
pub open spec fn ap_before(a: NeighborApSummary, b: NeighborApSummary) -> bool {
    (a.evil_twin && !b.evil_twin) || (a.evil_twin == b.evil_twin && strength_key(a) > strength_key(b))
}

/// The first position in `l` that `n` comes before.
pub open spec fn ap_slot(l: Seq<NeighborApSummary>, n: NeighborApSummary, i: int) -> int
    decreases l.len() - i,
{
    if i < 0 || i >= l.len() {
        l.len() as int
    } else if ap_before(n, l[i]) {
        i
    } else {
        ap_slot(l, n, i + 1)
    }
}

/// Evil twins first, then strongest signal; equals keep their order.
pub open spec fn by_interest(s: Seq<NeighborApSummary>) -> Seq<NeighborApSummary>
    decreases s.len(),
{
    if s.len() == 0 {
        seq![]
    } else {
        let l = by_interest(s.drop_last());
        l.insert(ap_slot(l, s.last(), 0), s.last())
    }
}

proof fn lemma_ap_slot_range(l: Seq<NeighborApSummary>, n: NeighborApSummary, i: int)
    requires
        0 <= i <= l.len(),
    ensures
        i <= ap_slot(l, n, i) <= l.len(),
    decreases l.len() - i,
{
    if i < l.len() {
        lemma_ap_slot_range(l, n, i + 1);
    }
}

proof fn lemma_by_interest_len(s: Seq<NeighborApSummary>)
    ensures
        by_interest(s).len() == s.len(),
    decreases s.len(),
{
    if s.len() > 0 {
        lemma_by_interest_len(s.drop_last());
        lemma_ap_slot_range(by_interest(s.drop_last()), s.last(), 0);
    }
}

/// The evil twins among the summaries.
pub open spec fn twins(s: Seq<NeighborApSummary>) -> nat
    decreases s.len(),
{
    if s.len() == 0 {
        0
    } else {
        twins(s.drop_last()) + (if s.last().evil_twin { 1nat } else { 0nat })
    }
}

/// How many summaries survive the cap: at most `cap`, but never fewer than
/// the evil twins.
pub open spec fn neighbor_keep(all: Seq<NeighborApSummary>, cap: nat) -> int {
    if cap >= twins(all) {
        if cap <= all.len() {
            cap as int
        } else {
            all.len() as int
        }
    } else {
        twins(all) as int
    }
}

proof fn lemma_ap_slot_first(l: Seq<NeighborApSummary>, n: NeighborApSummary, i: int)
    requires
        0 <= i <= l.len(),
    ensures
        forall|j: int| i <= j < ap_slot(l, n, i) ==> !ap_before(n, #[trigger] l[j]),
        ap_slot(l, n, i) < l.len() ==> ap_before(n, l[ap_slot(l, n, i)]),
    decreases l.len() - i,
{
    if i < l.len() && !ap_before(n, l[i]) {
        lemma_ap_slot_first(l, n, i + 1);
    }
}

proof fn lemma_twins_le(s: Seq<NeighborApSummary>)
    ensures
        twins(s) <= s.len(),
    decreases s.len(),
{
    if s.len() > 0 {
        lemma_twins_le(s.drop_last());
    }
}

/// The ordering puts every evil twin ahead of every other summary, and
/// loses none of them.
proof fn lemma_twins_first(s: Seq<NeighborApSummary>)
    ensures
        by_interest(s).len() == s.len(),
        twins(s) <= s.len(),
        forall|k: int| 0 <= k < s.len() ==> ((#[trigger] by_interest(s)[k]).evil_twin <==> k < twins(s)),
        forall|x: NeighborApSummary| s.contains(x) ==> by_interest(s).contains(x),
    decreases s.len(),
{
    lemma_by_interest_len(s);
    lemma_twins_le(s);
    if s.len() > 0 {
        let p = s.drop_last();
        let n = s.last();
        let l = by_interest(p);
        let t = twins(p);
        lemma_twins_first(p);
        lemma_ap_slot_range(l, n, 0);
        lemma_ap_slot_first(l, n, 0);
        let slot = ap_slot(l, n, 0);
        let r = l.insert(slot, n);
        assert(by_interest(s) == r);
        if n.evil_twin {
            if t < l.len() {
                assert(!l[t as int].evil_twin);
                assert(ap_before(n, l[t as int]));
            }
            assert(slot <= t);
        } else {
            if slot < t {
                assert(l[slot].evil_twin);
                assert(!ap_before(n, l[slot]));
            }
            assert(slot >= t);
        }
        assert forall|k: int| 0 <= k < s.len() implies ((#[trigger] r[k]).evil_twin <==> k < twins(s)) by {
            if k < slot {
                assert(r[k] == l[k]);
            } else if k > slot {
                assert(r[k] == l[k - 1]);
            }
        }
        assert forall|x: NeighborApSummary| s.contains(x) implies r.contains(x) by {
            let i = choose|i: int| 0 <= i < s.len() && s[i] == x;
            if i == s.len() - 1 {
                assert(r[slot] == x);
            } else {
                assert(p[i] == x);
                assert(p.contains(x));
                let j = choose|j: int| 0 <= j < l.len() && l[j] == x;
                if j < slot {
                    assert(r[j] == x);
                } else {
                    assert(r[j + 1] == x);
                }
            }
        }
    }
}

/// Evil twins always survive the cut: however small the cap, every
/// summary flagged as an evil twin is among those kept.
pub proof fn law_evil_twins_survive_the_cap(all: Seq<NeighborApSummary>, cap: nat)
    ensures
        forall|i: int|
            0 <= i < all.len() && (#[trigger] all[i]).evil_twin ==> by_interest(all).take(neighbor_keep(all, cap)).contains(
                all[i],
            ),
{
    lemma_twins_first(all);
    assert forall|i: int| 0 <= i < all.len() && (#[trigger] all[i]).evil_twin implies by_interest(all).take(
        neighbor_keep(all, cap),
    ).contains(all[i]) by {
        let b = by_interest(all);
        assert(all.contains(all[i]));
        let k = choose|k: int| 0 <= k < b.len() && b[k] == all[i];
        assert(b[k].evil_twin);
        assert(k < twins(all));
        assert(b.take(neighbor_keep(all, cap))[k] == all[i]);
    }
}

fn summarize_ap(r: &UnifiRogueApRecord, own_ssids: &Vec<String>) -> (n: NeighborApSummary)
    ensures
        neighbor_ok(*r, crate::text::strings_view(own_ssids@), n),
{
    let ghost own = crate::text::strings_view(own_ssids@);
    let (ssid, evil) = match &r.essid {
        Some(e) => {
            let c = chars_of(e.as_str());
            let t = trimmed(&c);
            if t.len() > 0 {
                let mut found = false;
                let mut i: usize = 0;
                while i < own_ssids.len()
                    invariant
                        i <= own_ssids@.len(),
                        own == crate::text::strings_view(own_ssids@),
                        found == exists|k: int| 0 <= k < i && own[k] == e@,
                    decreases own_ssids.len() - i,
                {
                    let same = crate::text::str_eq(own_ssids[i].as_str(), e.as_str());
                    assert(own[i as int] == own_ssids@[i as int]@);
                    if same {
                        found = true;
                        assert(own[i as int] == e@);
                    }
                    i += 1;
                }
                proof {
                    if found {
                        let k = choose|k: int| 0 <= k < own_ssids@.len() && own[k] == e@;
                        assert(own.contains(e@));
                    }
                    if own.contains(e@) {
                        let k = choose|k: int| 0 <= k < own.len() && own[k] == e@;
                        assert(exists|k: int| 0 <= k < own_ssids@.len() && own[k] == e@);
                    }
                }
                (Some(copy_text(e)), found)
            } else {
                (None, false)
            }
        },
        None => (None, false),
    };
    let signal_dbm = match r.signal {
        Some(s) if s < 0 => Some(s),
        _ => match r.rssi {
            Some(x) if x < 0 => Some(x),
            _ => None,
        },
    };
    NeighborApSummary {
        ssid,
        bssid: copy_opt(&r.bssid),
        channel: r.channel,
        signal_dbm,
        security: copy_opt(&r.security),
        evil_twin: evil,
    }
}

/// Summarizes overheard APs: evil twins always survive, the rest keep only
/// the `cap` strongest. Returns the summaries and the total seen, so the UI
/// can say "30 of 174" instead of silently truncating.
pub fn summarize_neighbor_aps(records: &[UnifiRogueApRecord], own_ssids: &Vec<String>, cap: usize) -> (r: (
    Vec<NeighborApSummary>,
    usize,
))
    ensures
        r.1 == records@.len(),
        exists|all: Seq<NeighborApSummary>|
            {
                &&& all.len() == records@.len()
                &&& forall|i: int|
                    0 <= i < all.len() ==> neighbor_ok(
                        records@[i],
                        crate::text::strings_view(own_ssids@),
                        #[trigger] all[i],
                    )
                &&& r.0@ == by_interest(all).take(neighbor_keep(all, cap as nat))
            },
{
    let mut all: Vec<NeighborApSummary> = Vec::new();
    let mut sorted: Vec<NeighborApSummary> = Vec::new();
    let mut evil: usize = 0;
    let mut i: usize = 0;
    while i < records.len()
        invariant
            i <= records@.len(),
            all@.len() == i,
            forall|k: int|
                0 <= k < i ==> neighbor_ok(records@[k], crate::text::strings_view(own_ssids@), #[trigger] all@[k]),
            sorted@ == by_interest(all@),
            evil as nat == twins(all@),
            evil <= i,
        decreases records.len() - i,
    {
        let n = summarize_ap(&records[i], own_ssids);
        let ghost prev = all@;
        proof {
            lemma_by_interest_len(prev);
        }
        let mut j: usize = 0;
        while j < sorted.len() && !(n.evil_twin && !sorted[j].evil_twin || n.evil_twin == sorted[j].evil_twin
            && key_of(&n) > key_of(&sorted[j]))
            invariant
                j <= sorted@.len(),
                ap_slot(sorted@, n, 0) == ap_slot(sorted@, n, j as int),
            decreases sorted.len() - j,
        {
            j += 1;
        }
        if n.evil_twin {
            evil += 1;
        }
        sorted.insert(j, n.clone_summary());
        all.push(n);
        proof {
            assert(all@.drop_last() =~= prev);
        }
        i += 1;
    }
    proof {
        lemma_by_interest_len(all@);
    }
    let keep = if cap >= evil {
        if cap <= sorted.len() {
            cap
        } else {
            sorted.len()
        }
    } else {
        evil
    };
    proof {
        lemma_twins_bound(all@);
    }
    sorted.truncate(keep);
    (sorted, records.len())
}

proof fn lemma_twins_bound(s: Seq<NeighborApSummary>)
    ensures
        twins(s) <= s.len(),
    decreases s.len(),
{
    if s.len() > 0 {
        lemma_twins_bound(s.drop_last());
    }
}

fn key_of(n: &NeighborApSummary) -> (k: i64)
    ensures
        k == strength_key(*n),
{
    match n.signal_dbm {
        Some(s) => s as i64,
        None => i32::MIN as i64,
    }
}

impl NeighborApSummary {
    fn clone_summary(&self) -> (c: NeighborApSummary)
        ensures
            c == *self,
    {
        NeighborApSummary {
            ssid: copy_opt(&self.ssid),
            bssid: copy_opt(&self.bssid),
            channel: self.channel,
            signal_dbm: self.signal_dbm,
            security: copy_opt(&self.security),
            evil_twin: self.evil_twin,
        }
    }
}

/* ----------------------------------------------------------- switch ports */

#[derive(Debug, Clone)]
pub struct CrowdedPort {
    pub switch_name: String,
    pub port: u32,
    pub port_name: Option<String>,
    pub macs: Vec<String>,
}

#[derive(Debug, Clone)]
pub struct DegradedLinkPort {
    pub switch_name: String,
    pub port: u32,
    pub port_name: Option<String>,
    pub speed_mbps: i64,
    pub fastest_mbps: i64,
}

/// The MACs a port's table has learned, in order.
pub open spec fn learned(t: Seq<MacTableEntry>) -> Seq<Seq<char>>
    decreases t.len(),
{
    if t.len() == 0 {
        seq![]
    } else {
        match t.last().mac {
            Some(m) => learned(t.drop_last()).push(m@),
            None => learned(t.drop_last()),
        }
    }
}

/// The crowded ports of one device's port list: those that learned two or
/// more MACs, in order.
pub open spec fn crowded_of(d: UnifiDeviceRecord, ports: Seq<PortEntry>) -> Seq<(Seq<char>, u32, Option<Seq<char>>, Seq<Seq<char>>)>
    decreases ports.len(),
{
    if ports.len() == 0 {
        seq![]
    } else {
        let prev = crowded_of(d, ports.drop_last());
        let p = ports.last();
        match p.mac_table {
            Some(t) => if learned(t@).len() >= 2 {
                prev.push(
                    (
                        describe_spec(d),
                        match p.port_idx {
                            Some(i) => i,
                            None => 0,
                        },
                        opt_text_view(p.name),
                        learned(t@),
                    ),
                )
            } else {
                prev
            },
            None => prev,
        }
    }
}

/// Every crowded port, device by device.
pub open spec fn crowded_all(devs: Seq<UnifiDeviceRecord>) -> Seq<(Seq<char>, u32, Option<Seq<char>>, Seq<Seq<char>>)>
    decreases devs.len(),
{
    if devs.len() == 0 {
        seq![]
    } else {
        crowded_all(devs.drop_last()) + match devs.last().port_table {
            Some(ports) => crowded_of(devs.last(), ports@),
            None => seq![],
        }
    }
}

pub open spec fn crowded_view(c: CrowdedPort) -> (Seq<char>, u32, Option<Seq<char>>, Seq<Seq<char>>) {
    (c.switch_name@, c.port, opt_text_view(c.port_name), crate::text::strings_view(c.macs@))
}

fn learned_of(t: &Vec<MacTableEntry>) -> (out: Vec<String>)
    ensures
        crate::text::strings_view(out@) == learned(t@),
{
    let mut out: Vec<String> = Vec::new();
    let mut i: usize = 0;
    while i < t.len()
        invariant
            i <= t@.len(),
            crate::text::strings_view(out@) == learned(t@.take(i as int)),
        decreases t.len() - i,
    {
        proof {
            assert(t@.take(i + 1).drop_last() =~= t@.take(i as int));
        }
        match &t[i].mac {
            Some(m) => {
                let ghost before = out@;
                out.push(copy_text(m));
                assert(crate::text::strings_view(out@) =~= crate::text::strings_view(before).push(m@));
            },
            None => {},
        }
        i += 1;
    }
    assert(t@.take(t@.len() as int) =~= t@);
    out
}

/// Switch ports with more than one learned MAC: an unmanaged switch, a VM
/// host or a bridge sits behind each, a segment the controller cannot see into.
pub fn crowded_ports(devices: &Vec<UnifiDeviceRecord>) -> (out: Vec<CrowdedPort>)
    ensures
        out@.len() == crowded_all(devices@).len(),
        forall|k: int| 0 <= k < out@.len() ==> crowded_view(#[trigger] out@[k]) == crowded_all(devices@)[k],
{
    let mut out: Vec<CrowdedPort> = Vec::new();
    let mut d: usize = 0;
    while d < devices.len()
        invariant
            d <= devices@.len(),
            out@.len() == crowded_all(devices@.take(d as int)).len(),
            forall|k: int|
                0 <= k < out@.len() ==> crowded_view(#[trigger] out@[k]) == crowded_all(devices@.take(d as int))[k],
        decreases devices.len() - d,
    {
        let dev = &devices[d];
        proof {
            assert(devices@.take(d + 1).drop_last() =~= devices@.take(d as int));
        }
        let ghost base = out@;
        let ghost base_all = crowded_all(devices@.take(d as int));
        match &dev.port_table {
            Some(ports) => {
                let name = dev.describe();
                let mut p: usize = 0;
                while p < ports.len()
                    invariant
                        p <= ports@.len(),
                        name@ == describe_spec(*dev),
                        out@.len() == base.len() + crowded_of(*dev, ports@.take(p as int)).len(),
                        base.len() == base_all.len(),
                        forall|k: int| 0 <= k < base.len() ==> out@[k] == base[k],
                        forall|k: int| 0 <= k < base.len() ==> crowded_view(#[trigger] base[k]) == base_all[k],
                        forall|k: int|
                            0 <= k < crowded_of(*dev, ports@.take(p as int)).len() ==> crowded_view(
                                #[trigger] out@[base.len() + k],
                            ) == crowded_of(*dev, ports@.take(p as int))[k],
                    decreases ports.len() - p,
                {
                    proof {
                        assert(ports@.take(p + 1).drop_last() =~= ports@.take(p as int));
                    }
                    let port = &ports[p];
                    match &port.mac_table {
                        Some(t) => {
                            let macs = learned_of(t);
                            if macs.len() >= 2 {
                                let c = CrowdedPort {
                                    switch_name: copy_text(&name),
                                    port: match port.port_idx {
                                        Some(i) => i,
                                        None => 0,
                                    },
                                    port_name: copy_opt(&port.name),
                                    macs,
                                };
                                out.push(c);
                            }
                        },
                        None => {},
                    }
                    p += 1;
                }
                assert(ports@.take(ports@.len() as int) =~= ports@);
                proof {
                    let add = crowded_of(*dev, ports@);
                    assert(crowded_all(devices@.take(d + 1)) == base_all + add);
                    assert forall|k: int| 0 <= k < out@.len() implies crowded_view(#[trigger] out@[k]) == (base_all
                        + add)[k] by {
                        if k < base.len() {
                            assert(out@[k] == base[k]);
                            assert(crowded_view(base[k]) == base_all[k]);
                        } else {
                            let k2 = k - base.len();
                            assert(out@[base.len() + k2] == out@[k]);
                            assert(crowded_view(out@[base.len() + k2]) == crowded_of(*dev, ports@.take(p as int))[k2]);
                        }
                    }
                }
            },
            None => {
                proof {
                    assert(crowded_all(devices@.take(d + 1)) =~= base_all);
                }
            },
        }
        d += 1;
    }
    assert(devices@.take(devices@.len() as int) =~= devices@);
    out
}

/// A port is live when it is up at a positive speed.
pub open spec fn live(p: PortEntry) -> bool {
    p.up == Some(true) && (match p.speed {
        Some(s) => s > 0,
        None => false,
    })
}

/// The fastest live speed among the ports, or 0.
pub open spec fn fastest_live(ports: Seq<PortEntry>) -> i64
    decreases ports.len(),
{
    if ports.len() == 0 {
        0
    } else {
        let prev = fastest_live(ports.drop_last());
        let p = ports.last();
        if live(p) && p.speed.unwrap() > prev {
            p.speed.unwrap()
        } else {
            prev
        }
    }
}

/// Live ports at 100 Mbps or less on a device whose fastest live port runs at
/// 1000 Mbps or more, in order.
pub open spec fn degraded_of(d: UnifiDeviceRecord, ports: Seq<PortEntry>, fastest: i64) -> Seq<(Seq<char>, u32, Option<Seq<char>>, i64, i64)>
    decreases ports.len(),
{
    if ports.len() == 0 {
        seq![]
    } else {
        let prev = degraded_of(d, ports.drop_last(), fastest);
        let p = ports.last();
        if live(p) && p.speed.unwrap() <= 100 {
            prev.push(
                (
                    describe_spec(d),
                    match p.port_idx {
                        Some(i) => i,
                        None => 0,
                    },
                    nonblank_raw(opt_text_view(p.name)),
                    p.speed.unwrap(),
                    fastest,
                ),
            )
        } else {
            prev
        }
    }
}

/// A name when it is not blank, as written.
pub open spec fn nonblank_raw(s: Option<Seq<char>>) -> Option<Seq<char>> {
    match s {
        Some(t) => if trim(t).len() > 0 {
            Some(t)
        } else {
            None
        },
        None => None,
    }
}

pub open spec fn degraded_all(devs: Seq<UnifiDeviceRecord>) -> Seq<(Seq<char>, u32, Option<Seq<char>>, i64, i64)>
    decreases devs.len(),
{
    if devs.len() == 0 {
        seq![]
    } else {
        degraded_all(devs.drop_last()) + match devs.last().port_table {
            Some(ports) => if fastest_live(ports@) >= 1000 {
                degraded_of(devs.last(), ports@, fastest_live(ports@))
            } else {
                seq![]
            },
            None => seq![],
        }
    }
}

pub open spec fn degraded_view(c: DegradedLinkPort) -> (Seq<char>, u32, Option<Seq<char>>, i64, i64) {
    (c.switch_name@, c.port, opt_text_view(c.port_name), c.speed_mbps, c.fastest_mbps)
}

fn is_live(p: &PortEntry) -> (b: bool)
    ensures
        b == live(*p),
{
    p.up == Some(true) && match p.speed {
        Some(s) => s > 0,
        None => false,
    }
}

fn nonblank_raw_of(s: &Option<String>) -> (r: Option<String>)
    ensures
        opt_text_view(r) == nonblank_raw(opt_text_view(*s)),
{
    match s {
        Some(t) => {
            let c = chars_of(t.as_str());
            let tc = trimmed(&c);
            if tc.len() > 0 {
                Some(copy_text(t))
            } else {
                None
            }
        },
        None => None,
    }
}

/// Ports running at 10/100 Mbps on hardware that demonstrably does better:
/// comparing with the device's own fastest live port separates "gigabit
/// switch with one struggling link" (often a damaged cable) from "everything
/// here is a 100 Mbps device".
pub fn degraded_link_ports(devices: &Vec<UnifiDeviceRecord>) -> (out: Vec<DegradedLinkPort>)
    ensures
        out@.len() == degraded_all(devices@).len(),
        forall|k: int| 0 <= k < out@.len() ==> degraded_view(#[trigger] out@[k]) == degraded_all(devices@)[k],
{
    let mut out: Vec<DegradedLinkPort> = Vec::new();
    let mut d: usize = 0;
    while d < devices.len()
        invariant
            d <= devices@.len(),
            out@.len() == degraded_all(devices@.take(d as int)).len(),
            forall|k: int|
                0 <= k < out@.len() ==> degraded_view(#[trigger] out@[k]) == degraded_all(devices@.take(d as int))[k],
        decreases devices.len() - d,
    {
        let dev = &devices[d];
        proof {
            assert(devices@.take(d + 1).drop_last() =~= devices@.take(d as int));
        }
        let ghost base = out@;
        let ghost base_all = degraded_all(devices@.take(d as int));
        match &dev.port_table {
            Some(ports) => {
                let mut fastest: i64 = 0;
                let mut q: usize = 0;
                while q < ports.len()
                    invariant
                        q <= ports@.len(),
                        fastest == fastest_live(ports@.take(q as int)),
                    decreases ports.len() - q,
                {
                    proof {
                        assert(ports@.take(q + 1).drop_last() =~= ports@.take(q as int));
                    }
                    if is_live(&ports[q]) && ports[q].speed.unwrap() > fastest {
                        fastest = ports[q].speed.unwrap();
                    }
                    q += 1;
                }
                assert(ports@.take(ports@.len() as int) =~= ports@);
                if fastest >= 1000 {
                    let name = dev.describe();
                    let mut p: usize = 0;
                    while p < ports.len()
                        invariant
                            p <= ports@.len(),
                            name@ == describe_spec(*dev),
                            fastest == fastest_live(ports@),
                            out@.len() == base.len() + degraded_of(*dev, ports@.take(p as int), fastest).len(),
                            base.len() == base_all.len(),
                            forall|k: int| 0 <= k < base.len() ==> out@[k] == base[k],
                            forall|k: int| 0 <= k < base.len() ==> degraded_view(#[trigger] base[k]) == base_all[k],
                            forall|k: int|
                                0 <= k < degraded_of(*dev, ports@.take(p as int), fastest).len() ==> degraded_view(
                                    #[trigger] out@[base.len() + k],
                                ) == degraded_of(*dev, ports@.take(p as int), fastest)[k],
                        decreases ports.len() - p,
                    {
                        proof {
                            assert(ports@.take(p + 1).drop_last() =~= ports@.take(p as int));
                        }
                        let port = &ports[p];
                        if is_live(port) && port.speed.unwrap() <= 100 {
                            out.push(
                                DegradedLinkPort {
                                    switch_name: copy_text(&name),
                                    port: match port.port_idx {
                                        Some(i) => i,
                                        None => 0,
                                    },
                                    port_name: nonblank_raw_of(&port.name),
                                    speed_mbps: port.speed.unwrap(),
                                    fastest_mbps: fastest,
                                },
                            );
                        }
                        p += 1;
                    }
                    assert(ports@.take(ports@.len() as int) =~= ports@);
                    proof {
                        let add = degraded_of(*dev, ports@, fastest);
                        assert(degraded_all(devices@.take(d + 1)) == base_all + add);
                        assert forall|k: int| 0 <= k < out@.len() implies degraded_view(#[trigger] out@[k]) == (
                        base_all + add)[k] by {
                            if k < base.len() {
                                assert(out@[k] == base[k]);
                                assert(degraded_view(base[k]) == base_all[k]);
                            } else {
                                let k2 = k - base.len();
                                assert(out@[base.len() + k2] == out@[k]);
                                assert(degraded_view(out@[base.len() + k2]) == degraded_of(
                                    *dev,
                                    ports@.take(p as int),
                                    fastest,
                                )[k2]);
                            }
                        }
                    }
                } else {
                    proof {
                        assert(degraded_all(devices@.take(d + 1)) =~= base_all);
                    }
                }
            },
            None => {
                proof {
                    assert(degraded_all(devices@.take(d + 1)) =~= base_all);
                }
            },
        }
        d += 1;
    }
    assert(devices@.take(devices@.len() as int) =~= devices@);
    out
}

/* ------------------------------------------------------------------ lookup */

/// The last record in `rs` with this MAC.
pub open spec fn last_with_mac(rs: Seq<UnifiClientRecord>, mac: Seq<char>) -> Option<UnifiClientRecord>
    decreases rs.len(),
{
    if rs.len() == 0 {
        None
    } else if rs.last().mac is Some && rs.last().mac.unwrap()@ == mac {
        Some(rs.last())
    } else {
        last_with_mac(rs.drop_last(), mac)
    }
}

/// The controller's record of a MAC: active clients win over historical
/// ones, since `stat/alluser` carries a stale IP for anything offline.
pub open spec fn client_record(active: Seq<UnifiClientRecord>, known: Seq<UnifiClientRecord>, mac: Seq<char>) -> Option<UnifiClientRecord> {
    match last_with_mac(active, mac) {
        Some(r) => Some(r),
        None => last_with_mac(known, mac),
    }
}

fn find_last_mac(rs: &Vec<UnifiClientRecord>, mac: &str) -> (r: Option<usize>)
    ensures
        match r {
            Some(i) => i < rs@.len() && last_with_mac(rs@, mac@) == Some(rs@[i as int]),
            None => last_with_mac(rs@, mac@) is None,
        },
{
    let mut i = rs.len();
    assert(rs@.take(i as int) =~= rs@);
    while i > 0
        invariant
            i <= rs@.len(),
            last_with_mac(rs@, mac@) == last_with_mac(rs@.take(i as int), mac@),
        decreases i,
    {
        let k = i - 1;
        proof {
            assert(rs@.take(i as int).drop_last() =~= rs@.take(k as int));
            assert(rs@.take(i as int).last() == rs@[k as int]);
        }
        match &rs[k].mac {
            Some(m) => if crate::text::str_eq(m.as_str(), mac) {
                return Some(k);
            },
            None => {},
        }
        i = k;
    }
    None
}

/// The record the controller holds for a MAC.
pub fn lookup_client<'a>(active: &'a Vec<UnifiClientRecord>, known: &'a Vec<UnifiClientRecord>, mac: &str) -> (r: Option<&'a UnifiClientRecord>)
    ensures
        match r {
            Some(c) => client_record(active@, known@, mac@) == Some(*c),
            None => client_record(active@, known@, mac@) is None,
        },
{
    match find_last_mac(active, mac) {
        Some(i) => Some(&active[i]),
        None => match find_last_mac(known, mac) {
            Some(i) => Some(&known[i]),
            None => None,
        },
    }
}

/// The name of the managed device with this MAC (the last listed), if any.
pub open spec fn device_name(devs: Seq<UnifiDeviceRecord>, mac: Seq<char>) -> Option<Seq<char>>
    decreases devs.len(),
{
    if devs.len() == 0 {
        None
    } else if devs.last().mac is Some && devs.last().mac.unwrap()@ == mac {
        Some(describe_spec(devs.last()))
    } else {
        device_name(devs.drop_last(), mac)
    }
}

/// Resolves a MAC to the managed device's name, for `ap_mac` / `sw_mac`.
pub fn name_of_device(devs: &Vec<UnifiDeviceRecord>, mac: &str) -> (r: Option<String>)
    ensures
        opt_text_view(r) == device_name(devs@, mac@),
{
    let mut i = devs.len();
    assert(devs@.take(i as int) =~= devs@);
    while i > 0
        invariant
            i <= devs@.len(),
            device_name(devs@, mac@) == device_name(devs@.take(i as int), mac@),
        decreases i,
    {
        let k = i - 1;
        proof {
            assert(devs@.take(i as int).drop_last() =~= devs@.take(k as int));
            assert(devs@.take(i as int).last() == devs@[k as int]);
        }
        match &devs[k].mac {
            Some(m) => if crate::text::str_eq(m.as_str(), mac) {
                return Some(devs[k].describe());
            },
            None => {},
        }
        i = k;
    }
    None
}


/* ------------------------------------------------------------- WAN triage */

/// What the LAN-or-internet verdict reads of one health entry. The latency is
/// the controller's figure to its external probe, already rounded to whole
/// milliseconds and written out.
#[derive(Debug, Clone)]
pub struct HealthReading {
    pub subsystem: String,
    /// `ok`, `warning`, `error` or `unknown`, as the controller reports it.
    pub status: String,
    pub latency: Option<String>,
    pub drops: Option<i64>,
}

/// The first entry from `i` on for `subsystem`.
pub open spec fn first_health(h: Seq<HealthReading>, subsystem: Seq<char>, i: int) -> Option<HealthReading>
    decreases h.len() - i,
{
    if i < 0 || i >= h.len() {
        None
    } else if h[i].subsystem@ == subsystem {
        Some(h[i])
    } else {
        first_health(h, subsystem, i + 1)
    }
}

/// The figures quoted beside a troubled verdict, from the internet check.
pub open spec fn trouble_figures(www: Option<HealthReading>) -> Seq<Seq<char>> {
    match www {
        Some(w) => {
            let lat: Seq<Seq<char>> = match w.latency {
                Some(l) => seq!["latency "@ + l@ + " ms"@],
                None => seq![],
            };
            let drops: Seq<Seq<char>> = match w.drops {
                Some(d) => if d > 0 {
                    seq![dec(d as nat) + " dropped probe(s)"@]
                } else {
                    seq![]
                },
                None => seq![],
            };
            lat + drops
        },
        None => seq![],
    }
}

pub open spec fn healthy_sentence(www: Option<HealthReading>) -> Seq<char> {
    "The controller reports the internet link healthy"@ + (match www {
        Some(w) => match w.latency {
            Some(l) => " ("@ + l@ + " ms to its external probe)"@,
            None => Seq::<char>::empty(),
        },
        None => Seq::<char>::empty(),
    }) + " \u{2014} if something feels slow, the cause is on the local network."@
}

pub open spec fn trouble_sentence(figures: Seq<Seq<char>>) -> Seq<char> {
    "The controller reports trouble on the internet link"@ + (if figures.len() == 0 {
        Seq::<char>::empty()
    } else {
        " ("@ + join(figures, ", "@) + ")"@
    }) + " \u{2014} slowness is likely upstream, not on your LAN."@
}

/// The LAN-or-internet verdict. The `www` check decides unless it is missing
/// or `unknown`; then the `wan` entry decides. Any other status decides nothing.
pub open spec fn wan_triage_spec(h: Seq<HealthReading>) -> Option<Seq<char>> {
    let www = first_health(h, "www"@, 0);
    let wan = first_health(h, "wan"@, 0);
    let verdict = if www is Some && www->0.status@ != "unknown"@ {
        www
    } else {
        wan
    };
    match verdict {
        Some(v) => if v.status@ == "ok"@ {
            Some(healthy_sentence(www))
        } else if v.status@ == "warning"@ || v.status@ == "error"@ {
            Some(trouble_sentence(trouble_figures(www)))
        } else {
            None
        },
        None => None,
    }
}

fn find_health(h: &Vec<HealthReading>, subsystem: &str) -> (r: Option<usize>)
    ensures
        r matches Some(i) ==> i < h@.len() && first_health(h@, subsystem@, 0) == Some(h@[i as int]),
        r is None ==> first_health(h@, subsystem@, 0) is None,
{
    let mut i: usize = 0;
    while i < h.len()
        invariant
            i <= h@.len(),
            first_health(h@, subsystem@, 0) == first_health(h@, subsystem@, i as int),
        decreases h.len() - i,
    {
        if crate::text::str_eq(h[i].subsystem.as_str(), subsystem) {
            return Some(i);
        }
        i += 1;
    }
    None
}

/// The one sentence a home user wants: is the problem the LAN or the
/// internet? Answered from the controller's own health verdicts; `None` when
/// they offer nothing conclusive, since an absent or `unknown` internet check
/// must not produce false reassurance.
pub fn wan_triage(health: &Vec<HealthReading>) -> (r: Option<String>)
    ensures
        match r {
            Some(t) => wan_triage_spec(health@) == Some(t@),
            None => wan_triage_spec(health@) is None,
        },
{
    let www = find_health(health, "www");
    let wan = find_health(health, "wan");
    let verdict = match www {
        Some(i) => if crate::text::str_eq(health[i].status.as_str(), "unknown") {
            wan
        } else {
            www
        },
        None => wan,
    };
    let v = match verdict {
        Some(v) => v,
        None => return None,
    };
    let status = health[v].status.as_str();
    if crate::text::str_eq(status, "ok") {
        let mut sentence = owned("The controller reports the internet link healthy");
        if let Some(i) = www {
            if let Some(l) = &health[i].latency {
                push_str(&mut sentence, " (");
                push_str(&mut sentence, l.as_str());
                push_str(&mut sentence, " ms to its external probe)");
            }
        }
        push_str(&mut sentence, " \u{2014} if something feels slow, the cause is on the local network.");
        return Some(sentence);
    }
    if crate::text::str_eq(status, "warning") || crate::text::str_eq(status, "error") {
        let mut lat: Option<String> = None;
        let mut drops: Option<String> = None;
        if let Some(i) = www {
            if let Some(l) = &health[i].latency {
                let mut t = owned("latency ");
                push_str(&mut t, l.as_str());
                push_str(&mut t, " ms");
                lat = Some(t);
            }
            if let Some(d) = health[i].drops {
                if d > 0 {
                    let mut t = String::new();
                    push_dec(&mut t, d as u64);
                    push_str(&mut t, " dropped probe(s)");
                    drops = Some(t);
                }
            }
        }
        let ghost figures = trouble_figures(if www is Some { Some(health@[www->0 as int]) } else { None });
        let mut sentence = owned("The controller reports trouble on the internet link");
        match (&lat, &drops) {
            (Some(a), Some(b)) => {
                push_str(&mut sentence, " (");
                push_str(&mut sentence, a.as_str());
                push_str(&mut sentence, ", ");
                push_str(&mut sentence, b.as_str());
                push_str(&mut sentence, ")");
                assert(figures == seq![a@, b@]);
                assert(join(figures, ", "@) == a@ + ", "@ + b@) by {
                    assert(figures.drop_last() =~= seq![a@]);
                    assert(join(figures.drop_last(), ", "@) == a@);
                }
            },
            (Some(a), None) => {
                push_str(&mut sentence, " (");
                push_str(&mut sentence, a.as_str());
                push_str(&mut sentence, ")");
                assert(figures =~= seq![a@]);
            },
            (None, Some(b)) => {
                push_str(&mut sentence, " (");
                push_str(&mut sentence, b.as_str());
                push_str(&mut sentence, ")");
                assert(figures =~= seq![b@]);
            },
            (None, None) => {
                assert(figures =~= Seq::<Seq<char>>::empty());
            },
        }
        push_str(&mut sentence, " \u{2014} slowness is likely upstream, not on your LAN.");
        return Some(sentence);
    }
    None
}

} // verus!
