use netdiag::oui::{lookup_vendor, table_info, OuiTable, VendorLookup};

/// The reference network's vendors, as the IEEE registries list them.
fn reference_table() -> OuiTable {
    let mut t = OuiTable::empty();
    t.mal.insert("E063DA".to_string(), "Ubiquiti".to_string());
    t.mal.insert("2462AB".to_string(), "Espressif".to_string());
    t.mal.insert("3C58C2".to_string(), "Intel Corporate".to_string());
    t.mam.insert("70B3D51".to_string(), "Medium Block Vendor".to_string());
    t.mas.insert("70B3D5123".to_string(), "Small Block Vendor".to_string());
    t
}

#[test]
fn resolves_known_vendors_from_the_reference_network() {
    let t = reference_table();
    assert_eq!(lookup_vendor(&t, Some("e0:63:da:82:1b:35")).vendor.as_deref(), Some("Ubiquiti"));
    assert_eq!(lookup_vendor(&t, Some("24:62:ab:e4:5f:a4")).vendor.as_deref(), Some("Espressif"));
    assert_eq!(lookup_vendor(&t, Some("3c:58:c2:52:29:84")).vendor.as_deref(), Some("Intel Corporate"));
}

#[test]
fn flags_randomized_macs_instead_of_guessing_a_vendor() {
    let t = reference_table();
    let result = lookup_vendor(&t, Some("f6:10:04:1c:20:08"));
    assert!(result.randomized);
    assert!(result.vendor.is_none(), "a randomized MAC must never report a vendor");
}

#[test]
fn ignores_meaningless_macs() {
    let t = reference_table();
    assert_eq!(lookup_vendor(&t, Some("00:00:00:00:00:00")), VendorLookup::default());
    assert_eq!(lookup_vendor(&t, None), VendorLookup::default());
}

#[test]
fn the_most_specific_registry_wins() {
    let t = reference_table();
    assert_eq!(lookup_vendor(&t, Some("70:b3:d5:12:34:56")).vendor.as_deref(), Some("Small Block Vendor"));
    assert_eq!(lookup_vendor(&t, Some("70:b3:d5:1f:34:56")).vendor.as_deref(), Some("Medium Block Vendor"));
    assert_eq!(lookup_vendor(&t, Some("70:b3:d5:2f:34:56")).vendor, None);
}

#[test]
fn table_info_counts_every_registry() {
    let t = reference_table();
    assert_eq!(table_info(&t).prefixes, 5);
}
