//! A UniFi controller as a second source of truth about the network.
//!
//! Read-only: the client issues GETs plus the login/logout pair and nothing
//! else. The controller is contacted by the application over HTTPS; what it
//! says, and what the client must send it, is worked out here.
pub mod config;
pub mod client;
pub mod model;
pub mod correlate;

use crate::text::{chars_of, copy_text, owned, push_str, starts_with, strings_view, trim, trimmed};
use crate::unifi::client::{error_text, Established, Flavour, UnifiError};
use crate::unifi::model::UnifiClientRecord;
use vstd::prelude::*;

verus! {

/// Keep only the strongest few neighbours; evil twins always survive the cut.
pub const NEIGHBOR_AP_CAP: usize = 30;

/// The endpoints fetched in one pass, each with the label used if it fails.
pub open spec fn endpoints_spec() -> Seq<(Seq<char>, Seq<char>)> {
    seq![
        ("stat/sta"@, "active clients"@),
        ("stat/device"@, "managed devices"@),
        ("stat/alluser"@, "known clients"@),
        ("stat/health"@, "site health"@),
        ("rest/networkconf"@, "configured networks"@),
        ("stat/event?_limit=200&within=24"@, "recent events"@),
        ("list/alarm?archived=false"@, "active alarms"@),
        ("stat/rogueap?within=24"@, "nearby access points"@),
    ]
}

pub fn endpoints() -> (e: Vec<(&'static str, &'static str)>)
    ensures
        e@.len() == endpoints_spec().len(),
        forall|k: int| 0 <= k < e@.len() ==> (#[trigger] e@[k]).0@ == endpoints_spec()[k].0 && e@[k].1@ == endpoints_spec()[k].1,
{
    let e = vec![
        ("stat/sta", "active clients"),
        ("stat/device", "managed devices"),
        ("stat/alluser", "known clients"),
        ("stat/health", "site health"),
        ("rest/networkconf", "configured networks"),
        ("stat/event?_limit=200&within=24", "recent events"),
        ("list/alarm?archived=false", "active alarms"),
        ("stat/rogueap?within=24", "nearby access points"),
    ];
    assert(e@.len() == 8);
    e
}

/// The endpoint's path, without any query string.
pub open spec fn endpoint_path_spec(endpoint: Seq<char>) -> Seq<char> {
    match crate::text::find(endpoint, "?"@) {
        Some(i) => endpoint.take(i),
        None => endpoint,
    }
}

pub fn endpoint_path(endpoint: &str) -> (p: String)
    ensures
        p@ == endpoint_path_spec(endpoint@),
{
    let c = chars_of(endpoint);
    let q = chars_of("?");
    proof {
        crate::text::lemma_find_from(c@, q@, 0);
    }
    match crate::text::find_chars(&c, &q, 0) {
        Some(i) => crate::text::string_range(&c, 0, i),
        None => owned(endpoint),
    }
}

/// The warning for a collection that could not be read; a forbidden
/// configuration read also names the role it needs.
pub open spec fn read_failure_spec(label: Seq<char>, error: UnifiError, endpoint: Seq<char>) -> Seq<char> {
    "Could not read "@ + label + ": "@ + error_text(error) + (if error == UnifiError::Forbidden && starts_with(
        endpoint,
        "rest/"@,
    ) {
        " \u{2014} reading configuration needs the account's Network role to be Viewer (or higher), not a restricted read-only role."@
    } else {
        Seq::<char>::empty()
    })
}

pub fn read_failure(label: &str, error: &UnifiError, endpoint: &str) -> (m: String)
    ensures
        m@ == read_failure_spec(label@, *error, endpoint@),
{
    let mut m = owned("Could not read ");
    push_str(&mut m, label);
    push_str(&mut m, ": ");
    let t = error.message();
    push_str(&mut m, t.as_str());
    let forbidden = match error {
        UnifiError::Forbidden => true,
        _ => false,
    };
    let e = chars_of(endpoint);
    if forbidden && crate::text::begins(&e, "rest/") {
        push_str(
            &mut m,
            " \u{2014} reading configuration needs the account's Network role to be Viewer (or higher), not a restricted read-only role.",
        );
    } else {
        assert(m@ =~= m@ + Seq::<char>::empty());
    }
    m
}

/// The note that a controller's certificate was trusted on first use.
pub open spec fn first_pin_spec(fingerprint: Seq<char>) -> Seq<char> {
    "Trusted this controller's certificate for the first time ("@ + fingerprint
        + "). Future connections are checked against it."@
}

pub fn first_pin_warning(established: &Established) -> (w: Option<String>)
    ensures
        established.newly_pinned ==> (w matches Some(t) && t@ == first_pin_spec(established.fingerprint@)),
        !established.newly_pinned ==> w is None,
{
    if established.newly_pinned {
        let mut t = owned("Trusted this controller's certificate for the first time (");
        push_str(&mut t, established.fingerprint.as_str());
        push_str(&mut t, "). Future connections are checked against it.");
        Some(t)
    } else {
        None
    }
}

/// The SSIDs this site's own clients associate to: every non-blank ESSID of
/// the active and known clients, each once.
pub open spec fn own_ssid(clients: Seq<UnifiClientRecord>, known: Seq<UnifiClientRecord>, s: Seq<char>) -> bool {
    essid_among(clients, clients.len() as int, s) || essid_among(known, known.len() as int, s)
}


/// A non-blank SSID one of the first `i` records associates to.
pub open spec fn essid_among(rs: Seq<UnifiClientRecord>, i: int, s: Seq<char>) -> bool {
    trim(s).len() > 0 && exists|k: int| 0 <= k < i && crate::scan::wifi::opt_text_view((#[trigger] rs[k]).essid) == Some(s)
}

proof fn lemma_essid_step(rs: Seq<UnifiClientRecord>, i: int, s: Seq<char>)
    requires
        0 <= i < rs.len(),
    ensures
        essid_among(rs, i + 1, s) == (essid_among(rs, i, s) || (trim(s).len() > 0
            && crate::scan::wifi::opt_text_view(rs[i].essid) == Some(s))),
{
    if essid_among(rs, i + 1, s) {
        let k = choose|k: int| 0 <= k < i + 1 && crate::scan::wifi::opt_text_view((#[trigger] rs[k]).essid) == Some(s);
        if k < i {
            assert(essid_among(rs, i, s));
        }
    }
    if essid_among(rs, i, s) {
        let k = choose|k: int| 0 <= k < i && crate::scan::wifi::opt_text_view((#[trigger] rs[k]).essid) == Some(s);
        assert(0 <= k < i + 1);
    }
    if trim(s).len() > 0 && crate::scan::wifi::opt_text_view(rs[i].essid) == Some(s) {
        assert(crate::scan::wifi::opt_text_view(rs[i].essid) == Some(s));
    }
}

fn has_text(v: &Vec<String>, t: &str) -> (b: bool)
    ensures
        b == strings_view(v@).contains(t@),
{
    let mut k: usize = 0;
    while k < v.len()
        invariant
            k <= v@.len(),
            forall|j: int| 0 <= j < k ==> strings_view(v@)[j] != t@,
        decreases v.len() - k,
    {
        if crate::text::str_eq(v[k].as_str(), t) {
            assert(strings_view(v@)[k as int] == t@);
            return true;
        }
        k += 1;
    }
    false
}

fn add_ssids(out: &mut Vec<String>, rs: &Vec<UnifiClientRecord>)
    requires
        forall|a: int, b: int| 0 <= a < b < old(out)@.len() ==> old(out)@[a]@ != old(out)@[b]@,
    ensures
        forall|a: int, b: int| 0 <= a < b < final(out)@.len() ==> final(out)@[a]@ != final(out)@[b]@,
        forall|s: Seq<char>|
            strings_view(final(out)@).contains(s) <==> (strings_view(old(out)@).contains(s) || essid_among(
                rs@,
                rs@.len() as int,
                s,
            )),
{
    let ghost o0 = strings_view(out@);
    let mut i: usize = 0;
    while i < rs.len()
        invariant
            i <= rs@.len(),
            o0 == strings_view(old(out)@),
            forall|a: int, b: int| 0 <= a < b < out@.len() ==> out@[a]@ != out@[b]@,
            forall|s: Seq<char>|
                #![trigger strings_view(out@).contains(s)]
                strings_view(out@).contains(s) <==> (o0.contains(s) || essid_among(rs@, i as int, s)),
        decreases rs.len() - i,
    {
        let ghost before = out@;
        match &rs[i].essid {
            Some(e) => {
                let c = chars_of(e.as_str());
                let t = trimmed(&c);
                let seen = has_text(out, e.as_str());
                if t.len() > 0 && !seen {
                    out.push(copy_text(e));
                    proof {
                        assert forall|a: int, b: int| 0 <= a < b < out@.len() implies out@[a]@ != out@[b]@ by {
                            if b == out@.len() - 1 {
                                assert(out@[a] == before[a]);
                                assert(strings_view(before)[a] == out@[a]@);
                            }
                        }
                        assert(strings_view(out@) =~= strings_view(before).push(e@));
                    }
                }
                proof {
                    assert forall|s: Seq<char>|
                        strings_view(out@).contains(s) <==> (o0.contains(s) || essid_among(rs@, i + 1, s)) by {
                        lemma_essid_step(rs@, i as int, s);
                        assert(strings_view(before).contains(s) <==> (o0.contains(s) || essid_among(rs@, i as int, s)));
                        assert(crate::scan::wifi::opt_text_view(rs@[i as int].essid) == Some(e@));
                        assert(t@ == trim(e@));
                        if t.len() > 0 && !seen {
                            if strings_view(out@).contains(s) {
                                let j = choose|j: int| 0 <= j < out@.len() && strings_view(out@)[j] == s;
                                if j < before.len() {
                                    assert(strings_view(before)[j] == s);
                                }
                            }
                            if strings_view(before).contains(s) {
                                let j = choose|j: int| 0 <= j < before.len() && strings_view(before)[j] == s;
                                assert(strings_view(out@)[j] == s);
                            }
                            if s == e@ {
                                assert(strings_view(out@)[out@.len() - 1] == s);
                            }
                        }
                    }
                }
            },
            None => {
                proof {
                    assert forall|s: Seq<char>|
                        strings_view(out@).contains(s) <==> (o0.contains(s) || essid_among(rs@, i + 1, s)) by {
                        lemma_essid_step(rs@, i as int, s);
                        assert(rs@[i as int].essid is None);
                        assert(strings_view(out@).contains(s) <==> (o0.contains(s) || essid_among(rs@, i as int, s)));
                    }
                }
            },
        }
        let ghost next = i + 1;
        assert(forall|s: Seq<char>|
            #![trigger strings_view(out@).contains(s)]
            strings_view(out@).contains(s) <==> (o0.contains(s) || essid_among(rs@, next, s)));
        i += 1;
        assert(i as int == next);
    }
}

/// The SSIDs this site's own clients associate to, each once: what an
/// overheard access point is compared against to spot an evil twin.
pub fn own_ssids(clients: &Vec<UnifiClientRecord>, known: &Vec<UnifiClientRecord>) -> (out: Vec<String>)
    ensures
        forall|a: int, b: int| 0 <= a < b < out@.len() ==> out@[a]@ != out@[b]@,
        forall|s: Seq<char>| strings_view(out@).contains(s) <==> own_ssid(clients@, known@, s),
{
    let mut out: Vec<String> = Vec::new();
    add_ssids(&mut out, clients);
    add_ssids(&mut out, known);
    out
}

/// Credentials that work on an account that can see nothing: every
/// collection empty and at least one read refused.
pub fn sees_nothing(clients: usize, known: usize, devices: usize, health: usize, warnings: usize) -> (b: bool)
    ensures
        b == (clients == 0 && known == 0 && devices == 0 && health == 0 && warnings > 0),
{
    clients == 0 && known == 0 && devices == 0 && health == 0 && warnings > 0
}

#[derive(Debug, Clone)]
pub struct VerifyReport {
    pub flavour: Flavour,
    pub fingerprint: String,
    pub newly_pinned: bool,
    pub client_count: usize,
}

impl VerifyReport {
    /// What a successful connection test reports.
    pub fn new(established: Established, client_count: usize) -> (r: Self)
        ensures
            r.flavour == established.flavour,
            r.fingerprint == established.fingerprint,
            r.newly_pinned == established.newly_pinned,
            r.client_count == client_count,
    {
        VerifyReport {
            flavour: established.flavour,
            fingerprint: established.fingerprint,
            newly_pinned: established.newly_pinned,
            client_count,
        }
    }
}

} // verus!
