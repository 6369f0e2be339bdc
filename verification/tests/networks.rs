use netdiag::networks::{
    match_strength, new_id, Detection, MatchStrength, NetworkFingerprint, NetworkIndex, NetworkProfile,
};

fn fingerprint(gateway_mac: Option<&str>, subnet: &str, ssid: Option<&str>) -> NetworkFingerprint {
    NetworkFingerprint {
        gateway_mac: gateway_mac.map(|m| m.to_string()),
        gateway_ip: Some("192.168.0.1".into()),
        subnets: vec![subnet.to_string()],
        ssid: ssid.map(|s| s.to_string()),
        dns_servers: vec!["192.168.0.1".into()],
    }
}

#[test]
fn the_same_subnet_at_two_places_is_not_the_same_network() {
    let home = fingerprint(Some("aa:aa:aa:aa:aa:aa"), "192.168.0.0/24", Some("HomeWiFi"));
    let office = fingerprint(Some("bb:bb:bb:bb:bb:bb"), "192.168.0.0/24", Some("OfficeWiFi"));
    assert_eq!(match_strength(&home, &office), MatchStrength::Unmatched);
}

#[test]
fn a_differing_gateway_mac_overrides_everything_else_agreeing() {
    let a = fingerprint(Some("aa:aa:aa:aa:aa:aa"), "192.168.0.0/24", Some("linksys"));
    let b = fingerprint(Some("bb:bb:bb:bb:bb:bb"), "192.168.0.0/24", Some("linksys"));
    assert_eq!(
        match_strength(&a, &b),
        MatchStrength::Unmatched,
        "hardware identity must win over coincidental agreement"
    );
}

#[test]
fn the_same_gateway_is_definitive_even_if_the_subnet_changed() {
    let before = fingerprint(Some("aa:aa:aa:aa:aa:aa"), "192.168.0.0/24", Some("Home"));
    let mut after = fingerprint(Some("AA:AA:AA:AA:AA:AA"), "10.0.0.0/24", Some("Home"));
    after.dns_servers = vec!["10.0.0.1".into()];
    assert_eq!(
        match_strength(&before, &after),
        MatchStrength::Definitive,
        "re-addressing the LAN does not make it a different place"
    );
}

#[test]
fn ssid_identifies_a_site_when_no_gateway_mac_is_available() {
    let stored = fingerprint(None, "192.168.0.0/24", Some("Office"));
    let observed = fingerprint(None, "192.168.5.0/24", Some("Office"));
    assert_eq!(match_strength(&stored, &observed), MatchStrength::Strong);
}

#[test]
fn subnet_alone_is_only_a_weak_match() {
    let stored = fingerprint(None, "192.168.0.0/24", None);
    let mut observed = fingerprint(None, "192.168.0.0/24", None);
    observed.dns_servers = vec!["1.1.1.1".into()];
    assert_eq!(
        match_strength(&stored, &observed),
        MatchStrength::Weak,
        "a shared subnet is exactly the ambiguous case, not a match"
    );
}

#[test]
fn an_unrecognised_network_is_reported_as_unknown() {
    let index = NetworkIndex::default();
    let observed = fingerprint(Some("cc:cc:cc:cc:cc:cc"), "172.16.0.0/24", Some("Cafe"));
    match index.detect(&observed) {
        Detection::Unknown { suggested_name } => assert_eq!(suggested_name, "Cafe"),
        other => panic!("expected Unknown, got {other:?}"),
    }
}

#[test]
fn a_definitive_match_on_another_network_offers_a_switch() {
    let mut index = NetworkIndex::default();
    let home = NetworkProfile::new("Home", fingerprint(Some("aa:aa:aa:aa:aa:aa"), "192.168.0.0/24", Some("Home")));
    let office = NetworkProfile::new("Office", fingerprint(Some("bb:bb:bb:bb:bb:bb"), "192.168.0.0/24", Some("Office")));
    index.networks.push(home);
    let office_id = office.id.clone();
    index.networks.push(office);
    index.active = Some(index.networks[0].id.clone());

    let observed = fingerprint(Some("bb:bb:bb:bb:bb:bb"), "192.168.0.0/24", Some("Office"));
    match index.detect(&observed) {
        Detection::Switch { id, name, strength } => {
            assert_eq!(id, office_id);
            assert_eq!(name, "Office");
            assert_eq!(strength, MatchStrength::Definitive);
        }
        other => panic!("expected Switch, got {other:?}"),
    }
}

#[test]
fn staying_on_the_same_network_is_a_no_op() {
    let mut index = NetworkIndex::default();
    let profile = NetworkProfile::new("Home", fingerprint(Some("aa:aa:aa:aa:aa:aa"), "192.168.0.0/24", Some("Home")));
    let id = profile.id.clone();
    index.networks.push(profile);
    index.active = Some(id.clone());

    let observed = fingerprint(Some("aa:aa:aa:aa:aa:aa"), "192.168.0.0/24", Some("Home"));
    match index.detect(&observed) {
        Detection::Current { id: found, .. } => assert_eq!(found, id),
        other => panic!("expected Current, got {other:?}"),
    }
}

#[test]
fn two_gateway_less_networks_sharing_a_subnet_are_reported_ambiguous() {
    let mut index = NetworkIndex::default();
    index.networks.push(NetworkProfile::new("Site A", fingerprint(None, "192.168.0.0/24", None)));
    index.networks.push(NetworkProfile::new("Site B", fingerprint(None, "192.168.0.0/24", None)));

    let mut observed = fingerprint(None, "192.168.0.0/24", None);
    observed.dns_servers = vec!["8.8.8.8".into()];

    match index.detect(&observed) {
        Detection::Ambiguous { candidates } => assert_eq!(candidates.len(), 2),
        other => panic!("expected Ambiguous, got {other:?}"),
    }
}

#[test]
fn no_addresses_at_all_reports_no_network() {
    let index = NetworkIndex::default();
    assert!(matches!(index.detect(&NetworkFingerprint::default()), Detection::NoNetwork));
}

#[test]
fn ids_are_unique_even_when_minted_in_the_same_instant() {
    let ids: std::collections::HashSet<String> = (0..1000).map(|_| new_id()).collect();
    assert_eq!(ids.len(), 1000, "id generation must not collide under speed");
    for id in &ids {
        assert!(
            id.chars().all(|c| c.is_ascii_alphanumeric() || c == '-'),
            "ids become directory names: {id}"
        );
    }
}

#[test]
fn adding_a_duplicate_id_disambiguates_rather_than_merging() {
    let mut index = NetworkIndex::default();
    let first = NetworkProfile::new("A", NetworkFingerprint::default());
    let mut second = NetworkProfile::new("B", NetworkFingerprint::default());
    second.id = first.id.clone();

    let first_id = index.add(first);
    let second_id = index.add(second);

    assert_ne!(first_id, second_id, "two networks must never share a directory");
    assert_eq!(index.networks.len(), 2);
}

#[test]
fn the_active_profile_falls_back_when_the_id_is_stale() {
    let mut index = NetworkIndex::default();
    index.networks.push(NetworkProfile::new("Home", NetworkFingerprint::default()));
    index.active = Some("net-does-not-exist".into());
    assert_eq!(
        index.active_profile().map(|p| p.name.as_str()),
        Some("Home"),
        "a dangling id must not leave the app with no network"
    );
}

#[test]
fn format_id_pads_and_masks_its_parts() {
    let id = netdiag::networks::format_id("20240102-030405", 1_234_567, 0x1_2345);
    assert_eq!(id, "net-20240102-030405-34567-2345");
}
