//! Shared data model.
//!
//! Everything the UI renders comes from a scan snapshot. Probe results carry an
//! explicit status so a missing tool degrades the snapshot rather than failing
//! the scan.
use crate::text::owned;
use crate::textmap::TextMap;
use vstd::prelude::*;

verus! {

/* ------------------------------------------------------------- probe results */

#[derive(Debug, Clone, Copy, PartialEq, Eq, Structural)]
pub enum ProbeStatus {
    Success,
    Unavailable,
    Error,
}

#[derive(Debug, Clone)]
pub struct ProbeResult<T> {
    pub status: ProbeStatus,
    pub detail: Option<String>,
    pub data: Option<T>,
}

impl<T> ProbeResult<T> {
    pub fn ok(data: T) -> (r: Self)
        ensures
            r.status == ProbeStatus::Success,
            r.detail is None,
            r.data == Some(data),
    {
        ProbeResult { status: ProbeStatus::Success, detail: None, data: Some(data) }
    }

    pub fn unavailable(detail: &str) -> (r: Self)
        ensures
            r.status == ProbeStatus::Unavailable,
            r.detail matches Some(d) && d@ == detail@,
            r.data is None,
    {
        ProbeResult { status: ProbeStatus::Unavailable, detail: Some(owned(detail)), data: None }
    }

    pub fn error(detail: &str) -> (r: Self)
        ensures
            r.status == ProbeStatus::Error,
            r.detail matches Some(d) && d@ == detail@,
            r.data is None,
    {
        ProbeResult { status: ProbeStatus::Error, detail: Some(owned(detail)), data: None }
    }
}

/* ---------------------------------------------------------------- host / link */

#[derive(Debug, Clone)]
pub struct Ipv4Addr4 {
    pub address: String,
    pub cidr: u8,
}

#[derive(Debug, Clone)]
pub struct Ipv6Addr6 {
    pub address: String,
    pub cidr: u8,
    pub scope: String,
}

#[derive(Debug, Clone)]
pub struct InterfaceInfo {
    pub name: String,
    pub state: String,
    pub mac: Option<String>,
    pub mtu: Option<u32>,
    pub flags: Vec<String>,
    pub ipv4: Vec<Ipv4Addr4>,
    pub ipv6: Vec<Ipv6Addr6>,
    /// Interface carrying the default route.
    pub is_primary: bool,
    pub scannable: bool,
    pub skip_reason: Option<String>,
}

#[derive(Debug, Clone)]
pub struct RouteInfo {
    pub destination: String,
    pub via: Option<String>,
    pub dev: String,
    pub metric: Option<u32>,
    pub raw: String,
}

#[derive(Debug, Clone)]
pub struct DnsConfig {
    pub servers: Vec<String>,
    pub search_domains: Vec<String>,
}

impl DnsConfig {
    pub fn new() -> (c: DnsConfig)
        ensures
            c.servers@.len() == 0,
            c.search_domains@.len() == 0,
    {
        DnsConfig { servers: Vec::new(), search_domains: Vec::new() }
    }
}

#[derive(Debug, Clone)]
pub struct Gateway {
    pub ip: String,
    pub dev: String,
}

#[derive(Debug, Clone, Copy, PartialEq, Eq, Structural)]
pub enum TargetSource {
    Local,
    Discovered,
    Manual,
}

#[derive(Debug, Clone)]
pub struct ScanTarget {
    pub cidr: String,
    pub source: TargetSource,
    pub host_count: u32,
    pub note: Option<String>,
}

#[derive(Debug, Clone)]
pub struct HostInfo {
    pub hostname: String,
    pub platform: String,
    pub os: String,
    pub arch: String,
    pub app_version: String,
    pub interfaces: Vec<InterfaceInfo>,
    pub routes: Vec<RouteInfo>,
    pub gateway: Option<Gateway>,
    pub dns: DnsConfig,
    pub scan_targets: Vec<ScanTarget>,
}

/* --------------------------------------------------------------- device data */

#[derive(Debug, Clone)]
pub enum Banner {
    Http {
        scheme: String,
        status: Option<u16>,
        server: Option<String>,
        title: Option<String>,
        headers: TextMap,
        redirect_location: Option<String>,
    },
    Tls {
        subject: Option<String>,
        issuer: Option<String>,
        alt_names: Option<Vec<String>>,
        valid_from: Option<String>,
        valid_to: Option<String>,
        days_until_expiry: Option<i64>,
        self_signed: Option<bool>,
    },
    Text { text: String },
}

#[derive(Debug, Clone)]
pub struct PortInfo {
    pub port: u16,
    pub protocol: String,
    pub service: Option<String>,
    pub banner: Option<Banner>,
}

#[derive(Debug, Clone)]
pub struct MdnsService {
    /// e.g. `_esphomelib._tcp`
    pub service_type: String,
    pub name: String,
    pub hostname: Option<String>,
    pub port: Option<u16>,
    pub address: Option<String>,
    pub txt: TextMap,
}

#[derive(Debug, Clone)]
pub struct SsdpRecord {
    pub st: String,
    pub usn: Option<String>,
    pub server: Option<String>,
    pub location: Option<String>,
    pub device_type: Option<String>,
    pub friendly_name: Option<String>,
    pub manufacturer: Option<String>,
    pub model_name: Option<String>,
    pub model_number: Option<String>,
    pub serial_number: Option<String>,
}

#[derive(Debug, Clone)]
pub struct NetbiosResult {
    pub names: Vec<String>,
    pub workgroup: Option<String>,
    pub mac: Option<String>,
}

#[derive(Debug, Clone, Copy, PartialEq, Eq, Hash, Structural)]
pub enum DeviceType {
    Router,
    Phone,
    Computer,
    Iot,
    Media,
    Printer,
    Nas,
    Camera,
    Tv,
    Server,
    Unknown,
}

/// One discovered host, merged from every probe's output.
///
/// The round-trip latency a ping measured is a floating-point figure and is
/// carried alongside this record by the application rather than inside it.
#[derive(Debug, Clone)]
pub struct Device {
    pub ip: String,
    pub mac: Option<String>,
    pub vendor: Option<String>,
    /// Locally-administered MACs are chosen by the device, so a vendor lookup
    /// would be meaningless — flagged instead of guessed at.
    pub mac_randomized: Option<bool>,
    pub hostnames: Vec<String>,
    pub display_name: String,
    pub device_type: DeviceType,
    pub type_evidence: Vec<String>,
    pub is_gateway: bool,
    pub is_self: bool,
    pub responded_to_ping: bool,
    pub discovered_by: Vec<String>,
    pub ports: Vec<PortInfo>,
    pub mdns: Vec<MdnsService>,
    pub ssdp: Vec<SsdpRecord>,
    pub netbios: Option<NetbiosResult>,
    pub reverse_dns: Option<String>,
    pub source_range: Option<String>,
    pub off_subnet: bool,
    pub first_seen: Option<String>,
    pub last_seen: String,
    pub unifi_name: Option<String>,
    pub unifi_fingerprint: Option<String>,
    pub unifi_network: Option<String>,
    pub switch_port: Option<String>,
    pub access_point: Option<String>,
    pub vlan: Option<u32>,
    pub rssi: Option<i32>,
    pub is_wired: Option<bool>,
    pub satisfaction: Option<i32>,
    pub channel: Option<u32>,
    pub wifi_generation: Option<String>,
    pub tx_bytes: Option<i64>,
    pub rx_bytes: Option<i64>,
    pub unifi_uptime: Option<i64>,
    pub unifi_first_seen: Option<i64>,
    pub is_guest: Option<bool>,
    pub unifi_note: Option<String>,
}

impl Device {
    /// A device known only by its address, before any probe has described it.
    pub fn bare(ip: String, last_seen: String) -> (d: Device)
        ensures
            d.ip@ == ip@,
            d.display_name@ == ip@,
            d.last_seen@ == last_seen@,
            d.mac is None,
            d.vendor is None,
            d.mac_randomized is None,
            d.hostnames@.len() == 0,
            d.device_type == DeviceType::Unknown,
            d.type_evidence@.len() == 0,
            !d.is_gateway,
            !d.is_self,
            !d.responded_to_ping,
            d.discovered_by@.len() == 0,
            d.ports@.len() == 0,
            d.mdns@.len() == 0,
            d.ssdp@.len() == 0,
            d.netbios is None,
            d.reverse_dns is None,
            d.source_range is None,
            !d.off_subnet,
            d.first_seen is None,
            d.unifi_name is None,
            d.unifi_fingerprint is None,
            d.unifi_network is None,
            d.switch_port is None,
            d.access_point is None,
            d.vlan is None,
            d.rssi is None,
            d.is_wired is None,
            d.satisfaction is None,
            d.channel is None,
            d.wifi_generation is None,
            d.tx_bytes is None,
            d.rx_bytes is None,
            d.unifi_uptime is None,
            d.unifi_first_seen is None,
            d.is_guest is None,
            d.unifi_note is None,
    {
        let name = ip.clone();
        Device {
            ip,
            mac: None,
            vendor: None,
            mac_randomized: None,
            hostnames: Vec::new(),
            display_name: name,
            device_type: DeviceType::Unknown,
            type_evidence: Vec::new(),
            is_gateway: false,
            is_self: false,
            responded_to_ping: false,
            discovered_by: Vec::new(),
            ports: Vec::new(),
            mdns: Vec::new(),
            ssdp: Vec::new(),
            netbios: None,
            reverse_dns: None,
            source_range: None,
            off_subnet: false,
            first_seen: None,
            last_seen,
            unifi_name: None,
            unifi_fingerprint: None,
            unifi_network: None,
            switch_port: None,
            access_point: None,
            vlan: None,
            rssi: None,
            is_wired: None,
            satisfaction: None,
            channel: None,
            wifi_generation: None,
            tx_bytes: None,
            rx_bytes: None,
            unifi_uptime: None,
            unifi_first_seen: None,
            is_guest: None,
            unifi_note: None,
        }
    }
}

/* -------------------------------------------------------------- connectivity */

#[derive(Debug, Clone)]
pub struct DnsTiming {
    pub server: String,
    pub query: String,
    pub ok: bool,
    pub response_ms: Option<u64>,
    pub answers: Vec<String>,
    pub error: Option<String>,
}

/* ---------------------------------------------------------------------- wifi */

#[derive(Debug, Clone)]
pub struct WifiNetwork {
    pub ssid: String,
    pub bssid: Option<String>,
    pub active: bool,
    pub signal: u8,
    pub channel: u32,
    pub band: String,
    pub rate: Option<String>,
    pub security: Option<String>,
}

#[derive(Debug, Clone)]
pub struct ChannelUsage {
    pub channel: u32,
    pub band: String,
    pub count: u32,
    pub is_current: bool,
}

#[derive(Debug, Clone)]
pub struct WifiInfo {
    pub interface: Option<String>,
    pub current: Option<WifiNetwork>,
    pub networks: Vec<WifiNetwork>,
    pub channel_usage: Vec<ChannelUsage>,
    pub recommendation: Option<String>,
}

/* ------------------------------------------------------------------ snapshot */

#[derive(Debug, Clone, Copy, PartialEq, Eq, Structural)]
pub enum ScanPhase {
    Host,
    Announce,
    Sweep,
    Ports,
    Identity,
    Connectivity,
    Wifi,
    Correlate,
}

/// The order phases run in.
pub open spec fn phase_sequence() -> Seq<ScanPhase> {
    seq![
        ScanPhase::Host,
        ScanPhase::Announce,
        ScanPhase::Sweep,
        ScanPhase::Ports,
        ScanPhase::Identity,
        ScanPhase::Connectivity,
        ScanPhase::Wifi,
        ScanPhase::Correlate,
    ]
}

impl ScanPhase {
    /// Every phase, in the order a scan runs them.
    pub fn order() -> (v: Vec<ScanPhase>)
        ensures
            v@ == phase_sequence(),
    {
        let v = vec![
            ScanPhase::Host,
            ScanPhase::Announce,
            ScanPhase::Sweep,
            ScanPhase::Ports,
            ScanPhase::Identity,
            ScanPhase::Connectivity,
            ScanPhase::Wifi,
            ScanPhase::Correlate,
        ];
        assert(v@ =~= phase_sequence());
        v
    }

    pub open spec fn label_text(self) -> &'static str {
        match self {
            ScanPhase::Host => "Interfaces, routes & DNS",
            ScanPhase::Announce => "mDNS & UPnP announcements",
            ScanPhase::Sweep => "Ping sweep & MAC harvest",
            ScanPhase::Ports => "TCP port scan",
            ScanPhase::Identity => "NetBIOS, reverse DNS & banners",
            ScanPhase::Connectivity => "Latency, DNS & path",
            ScanPhase::Wifi => "Wi-Fi & channel survey",
            ScanPhase::Correlate => "Correlating results",
        }
    }

    /// The label shown for this phase.
    pub fn label(&self) -> (s: &'static str)
        ensures
            s == self.label_text(),
    {
        match self {
            ScanPhase::Host => "Interfaces, routes & DNS",
            ScanPhase::Announce => "mDNS & UPnP announcements",
            ScanPhase::Sweep => "Ping sweep & MAC harvest",
            ScanPhase::Ports => "TCP port scan",
            ScanPhase::Identity => "NetBIOS, reverse DNS & banners",
            ScanPhase::Connectivity => "Latency, DNS & path",
            ScanPhase::Wifi => "Wi-Fi & channel survey",
            ScanPhase::Correlate => "Correlating results",
        }
    }
}

#[derive(Debug, Clone, Copy, PartialEq, Eq, Structural)]
pub enum PhaseStatus {
    Pending,
    Running,
    Done,
    Skipped,
    Error,
}

#[derive(Debug, Clone, Copy, PartialEq, Eq, Structural)]
pub struct PhaseProgress {
    pub current: u64,
    pub total: u64,
}

#[derive(Debug, Clone)]
pub struct PhaseState {
    pub phase: ScanPhase,
    pub label: String,
    pub status: PhaseStatus,
    pub progress: Option<PhaseProgress>,
    pub detail: Option<String>,
}

#[derive(Debug, Clone, Copy, PartialEq, Eq, Structural)]
pub enum PortProfile {
    Quick,
    Standard,
    Deep,
}

impl Default for PortProfile {
    fn default() -> (p: Self)
        ensures
            p == PortProfile::Standard,
    {
        PortProfile::Standard
    }
}

#[derive(Debug, Clone)]
pub struct ScanConfig {
    pub extra_ranges: Vec<String>,
    pub port_profile: PortProfile,
    pub include_discovered_subnets: bool,
    pub sweep_concurrency: usize,
    pub port_concurrency: usize,
    pub port_timeout_ms: u64,
}

impl Default for ScanConfig {
    fn default() -> (c: Self)
        ensures
            c.extra_ranges@.len() == 0,
            c.port_profile == PortProfile::Standard,
            c.include_discovered_subnets,
            c.sweep_concurrency == 64,
            c.port_concurrency == 400,
            c.port_timeout_ms == 1200,
    {
        ScanConfig {
            extra_ranges: Vec::new(),
            port_profile: PortProfile::Standard,
            include_discovered_subnets: true,
            sweep_concurrency: 64,
            port_concurrency: 400,
            port_timeout_ms: 1200,
        }
    }
}

/* --------------------------------------------------------------------- diff */

#[derive(Debug, Clone, Copy, PartialEq, Eq, Structural)]
pub enum ChangeKind {
    Appeared,
    Disappeared,
    IpChanged,
    PortsOpened,
    PortsClosed,
    NameChanged,
}

#[derive(Debug, Clone)]
pub struct DeviceChange {
    pub kind: ChangeKind,
    pub device: Device,
    pub previous: Option<Device>,
    pub detail: String,
}

#[derive(Debug, Clone)]
pub struct ScanDiff {
    pub from_id: String,
    pub to_id: String,
    pub changes: Vec<DeviceChange>,
}

/* --------------------------------------------------------------- scan events */

#[derive(Debug, Clone)]
pub enum ScanEvent {
    Phase { phases: Vec<PhaseState> },
    Warning { message: String },
    Done { snapshot_id: String },
    Error { message: String },
    Cancelled,
}

} // verus!
