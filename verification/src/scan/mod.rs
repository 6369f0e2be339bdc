//! The scan engine: protocol codecs, parsers and the decisions each phase makes.
pub mod dnsmsg;
pub mod correlate;
pub mod wifi;
pub mod sweep;
pub mod banners;
pub mod ssdp;
pub mod http;
pub mod mdns;
pub mod orchestrator;
pub mod hostinfo;
pub mod netbios;
pub mod dns;
pub mod ports;
pub mod connectivity;
