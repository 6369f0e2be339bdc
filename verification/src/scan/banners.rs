//! Which open ports are worth a banner grab.
//!
//! Three kinds: an HTTP request for status, server and title; a TLS handshake
//! for certificate detail; and a passive read for protocols that greet first
//! (SSH, SMTP, FTP).
use vstd::prelude::*;

verus! {

pub open spec fn http_port(p: u16) -> bool {
    p == 80 || p == 81 || p == 631 || p == 3000 || p == 5000 || p == 8000 || p == 8008 || p == 8060
        || p == 8080 || p == 8081 || p == 8085 || p == 8096 || p == 8123 || p == 8181 || p == 8888
        || p == 9000 || p == 9090 || p == 10000 || p == 11434 || p == 32400
}

pub open spec fn https_port(p: u16) -> bool {
    p == 443 || p == 8443 || p == 9443 || p == 8009
}

/// Protocols that send a greeting before the client says anything.
pub open spec fn greeting_port(p: u16) -> bool {
    p == 21 || p == 22 || p == 23 || p == 25 || p == 110 || p == 143 || p == 587 || p == 6379
}

pub fn is_http_port(p: u16) -> (b: bool)
    ensures
        b == http_port(p),
{
    p == 80 || p == 81 || p == 631 || p == 3000 || p == 5000 || p == 8000 || p == 8008 || p == 8060
        || p == 8080 || p == 8081 || p == 8085 || p == 8096 || p == 8123 || p == 8181 || p == 8888
        || p == 9000 || p == 9090 || p == 10000 || p == 11434 || p == 32400
}

pub fn is_https_port(p: u16) -> (b: bool)
    ensures
        b == https_port(p),
{
    p == 443 || p == 8443 || p == 9443 || p == 8009
}

pub fn is_greeting_port(p: u16) -> (b: bool)
    ensures
        b == greeting_port(p),
{
    p == 21 || p == 22 || p == 23 || p == 25 || p == 110 || p == 143 || p == 587 || p == 6379
}

/// Whether any banner protocol applies to the port.
pub fn is_banner_port(port: u16) -> (b: bool)
    ensures
        b == (http_port(port) || https_port(port) || greeting_port(port)),
{
    is_http_port(port) || is_https_port(port) || is_greeting_port(port)
}

} // verus!
