//! Local network discovery and diagnostics: the verified core.
pub mod text;
pub mod textmap;
pub mod types;
pub mod netutil;
pub mod oui;
pub mod scan;
pub mod store;
pub mod exec;
mod clock;
pub mod networks;
pub mod update;
pub mod unifi;
pub mod platform;
pub mod doctor;
pub mod export;
