//! MAC → vendor lookup against the IEEE registries.
//!
//! The registries are plain prefix → vendor tables, filled by their caller
//! (from the bundled registry file) and handed to [`lookup_vendor`], so
//! identifying hardware needs no network access at all — which matters for a
//! diagnostic tool, since it is often run precisely when the internet is
//! broken. Reading that file is not part of this library.
use crate::netutil::{
    hex_digits, hex_digits_of, is_locally_administered, is_meaningless_mac, meaningless_spec,
    normalize_mac_chars, normalize_mac_spec, first_octet_spec,
};
use crate::text::{chars_of, slice_chars, uppercase, upper_seq};
use crate::textmap::TextMap;
use vstd::prelude::*;

verus! {

/// The three IEEE registries, keyed by upper-case hex prefix.
#[derive(Debug)]
pub struct OuiTable {
    pub generated_at: String,
    /// 24-bit prefixes (6 hex chars).
    pub mal: TextMap,
    /// 28-bit prefixes (7 hex chars).
    pub mam: TextMap,
    /// 36-bit prefixes (9 hex chars).
    pub mas: TextMap,
}

impl OuiTable {
    /// A table with no prefixes, used when the registry data cannot be read.
    pub fn empty() -> (t: OuiTable)
        ensures
            t.generated_at@.len() == 0,
            t.mal.view() == Map::<Seq<char>, Seq<char>>::empty(),
            t.mam.view() == Map::<Seq<char>, Seq<char>>::empty(),
            t.mas.view() == Map::<Seq<char>, Seq<char>>::empty(),
            t.mal.size() + t.mam.size() + t.mas.size() == 0,
    {
        OuiTable { generated_at: String::new(), mal: TextMap::new(), mam: TextMap::new(), mas: TextMap::new() }
    }
}

#[derive(Debug, Clone, PartialEq, Eq)]
pub struct VendorLookup {
    pub vendor: Option<String>,
    pub randomized: bool,
}

impl Default for VendorLookup {
    fn default() -> (v: Self)
        ensures
            v.vendor is None,
            !v.randomized,
    {
        VendorLookup { vendor: None, randomized: false }
    }
}

/// The upper-case hex digits a registry is keyed by.
pub open spec fn oui_key(mac: Seq<char>) -> Seq<char> {
    upper_seq(hex_digits(normalize_mac_spec(mac)))
}

pub open spec fn locally_administered(mac: Seq<char>) -> bool {
    first_octet_spec(mac) matches Some(v) && (v / 2) % 2 == 1
}

/// The vendor the registries give for a key of at least six digits: the most
/// specific registry that knows the prefix wins (36 → 28 → 24 bit).
pub open spec fn registry_vendor(t: OuiTable, key: Seq<char>) -> Option<Seq<char>> {
    let k9 = key.take(if key.len() < 9 { key.len() as int } else { 9 });
    let k7 = key.take(if key.len() < 7 { key.len() as int } else { 7 });
    let k6 = key.take(6);
    if t.mas.view().contains_key(k9) {
        Some(t.mas.view()[k9])
    } else if t.mam.view().contains_key(k7) {
        Some(t.mam.view()[k7])
    } else if t.mal.view().contains_key(k6) {
        Some(t.mal.view()[k6])
    } else {
        None
    }
}

/// What a lookup of `mac` gives: the vendor, and whether the address is randomized.
pub open spec fn lookup_spec(t: OuiTable, mac: Option<Seq<char>>) -> (Option<Seq<char>>, bool) {
    match mac {
        None => (None, false),
        Some(m) => if meaningless_spec(m) {
            (None, false)
        } else if locally_administered(m) {
            (None, true)
        } else if oui_key(m).len() < 6 {
            (None, false)
        } else {
            (registry_vendor(t, oui_key(m)), false)
        },
    }
}

fn copy_found(r: Option<&String>) -> (o: Option<String>)
    ensures
        r matches Some(v) ==> o matches Some(w) && w@ == v@,
        r is None ==> o is None,
{
    match r {
        Some(v) => Some(v.clone()),
        None => None,
    }
}

/// Resolves a vendor, trying the most specific registry first (36 → 28 → 24 bit).
///
/// Locally-administered MACs short-circuit: those bits are chosen by the device
/// rather than assigned by IEEE, so any prefix "match" would be a coincidence.
pub fn lookup_vendor(table: &OuiTable, mac: Option<&str>) -> (r: VendorLookup)
    ensures
        r.randomized == lookup_spec(*table, opt_view(mac)).1,
        match lookup_spec(*table, opt_view(mac)).0 {
            Some(v) => r.vendor matches Some(w) && w@ == v,
            None => r.vendor is None,
        },
{
    let mac = match mac {
        Some(m) => m,
        None => return VendorLookup { vendor: None, randomized: false },
    };
    if is_meaningless_mac(mac) {
        return VendorLookup { vendor: None, randomized: false };
    }
    if is_locally_administered(mac) {
        return VendorLookup { vendor: None, randomized: true };
    }
    let c = chars_of(mac);
    let n = normalize_mac_chars(&c);
    let h = hex_digits_of(&n);
    let key = uppercase(&h);
    if key.len() < 6 {
        return VendorLookup { vendor: None, randomized: false };
    }
    let l9 = if key.len() < 9 { key.len() } else { 9 };
    let l7 = if key.len() < 7 { key.len() } else { 7 };
    let k9 = slice_chars(&key, 0, l9);
    let k7 = slice_chars(&key, 0, l7);
    let k6 = slice_chars(&key, 0, 6);
    assert(k9@ =~= key@.take(l9 as int));
    assert(k7@ =~= key@.take(l7 as int));
    assert(k6@ =~= key@.take(6));
    let found = match table.mas.get_chars(&k9) {
        Some(v) => Some(v),
        None => match table.mam.get_chars(&k7) {
            Some(v) => Some(v),
            None => table.mal.get_chars(&k6),
        },
    };
    VendorLookup { vendor: copy_found(found), randomized: false }
}

/// The view of an optional string.
pub open spec fn opt_view(s: Option<&str>) -> Option<Seq<char>> {
    match s {
        Some(t) => Some(t@),
        None => None,
    }
}

pub struct OuiTableInfo {
    pub generated_at: String,
    pub prefixes: usize,
}

/// When the registries were generated and how many prefixes they hold.
pub fn table_info(table: &OuiTable) -> (i: OuiTableInfo)
    requires
        table.mal.size() + table.mam.size() + table.mas.size() <= usize::MAX,
    ensures
        i.generated_at@ == table.generated_at@,
        i.prefixes == table.mal.size() + table.mam.size() + table.mas.size(),
{
    OuiTableInfo {
        generated_at: table.generated_at.clone(),
        prefixes: table.mal.len() + table.mam.len() + table.mas.len(),
    }
}

} // verus!
