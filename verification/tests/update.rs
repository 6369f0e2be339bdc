use netdiag::update::{build_info, fresh_within, truncate_notes, UpdatePreferences, Version, CACHE_TTL_HOURS};

#[test]
fn compares_versions_numerically_not_lexically() {
    let v = |s: &str| Version::parse(s).unwrap();
    assert!(v("1.10.0") > v("1.9.0"));
    assert!(v("2.0.0") > v("1.99.99"));
    assert!(v("1.0.1") > v("1.0.0"));
    assert_eq!(v("1.0.0"), v("1.0.0"));
}

#[test]
fn accepts_the_tag_formats_github_actually_returns() {
    let v = |s: &str| Version::parse(s).unwrap();
    assert_eq!(v("v1.2.3"), v("1.2.3"));
    assert_eq!(v("V1.2.3"), v("1.2.3"));
    assert_eq!(v(" 1.2.3 "), v("1.2.3"));
    assert_eq!(v("1.2"), v("1.2.0"));
    assert_eq!(v("1.2.3-beta.1"), v("1.2.3"));
    assert_eq!(v("1.2.3+build7"), v("1.2.3"));
}

#[test]
fn rejects_junk_rather_than_guessing() {
    assert!(Version::parse("").is_none());
    assert!(Version::parse("not-a-version").is_none());
    assert!(Version::parse("latest").is_none());
}

#[test]
fn an_equal_or_older_release_is_not_an_update() {
    let prefs = UpdatePreferences::default();
    let current = Version::parse("1.0.0").unwrap();
    let same = build_info(&prefs, current, "v1.0.0", "u", None, None).unwrap();
    assert!(!same.update_available);
    let older = build_info(&prefs, current, "v0.9.0", "u", None, None).unwrap();
    assert!(!older.update_available);
    let newer = build_info(&prefs, current, "v1.1.0", "u", None, None).unwrap();
    assert!(newer.update_available);
    assert_eq!(newer.latest_version, "1.1.0", "the v prefix is stripped for display");
}

#[test]
fn a_skipped_version_stops_prompting_but_still_reports() {
    let prefs = UpdatePreferences { skipped_version: Some("1.1.0".into()), ..Default::default() };
    let info = build_info(&prefs, Version::parse("1.0.0").unwrap(), "v1.1.0", "u", None, None).unwrap();
    assert!(!info.update_available, "the user asked not to be prompted");
    assert_eq!(info.latest_version, "1.1.0", "but the version is still known");
    let next = build_info(&prefs, Version::parse("1.0.0").unwrap(), "v1.2.0", "u", None, None).unwrap();
    assert!(next.update_available);
}

#[test]
fn cache_freshness_respects_the_ttl() {
    let mut prefs = UpdatePreferences::default();
    assert!(!prefs.cache_is_fresh(), "never checked");
    prefs.last_checked = Some(chrono::Utc::now().to_rfc3339());
    assert!(prefs.cache_is_fresh());
    prefs.last_checked = Some((chrono::Utc::now() - chrono::Duration::hours(CACHE_TTL_HOURS + 1)).to_rfc3339());
    assert!(!prefs.cache_is_fresh());
    prefs.last_checked = Some("not a timestamp".into());
    assert!(!prefs.cache_is_fresh(), "corrupt state must re-check, not trust");
}

#[test]
fn freshness_is_decided_by_the_ttl_alone() {
    assert!(fresh_within(Some(0)));
    assert!(fresh_within(Some(CACHE_TTL_HOURS - 1)));
    assert!(!fresh_within(Some(CACHE_TTL_HOURS)));
    assert!(!fresh_within(None));
}

#[test]
fn release_notes_are_truncated_for_a_popup() {
    let short = truncate_notes("  Fixed a thing.  ");
    assert_eq!(short, "Fixed a thing.");
    let long = truncate_notes(&"x".repeat(5000));
    assert!(long.chars().count() < 1300);
    assert!(long.ends_with('…'));
}

#[test]
fn preferences_default_to_checking_enabled() {
    assert!(UpdatePreferences::default().check_enabled);
}

#[test]
fn junk_tags_are_not_reported() {
    let prefs = UpdatePreferences::default();
    assert!(build_info(&prefs, Version::parse("1.0.0").unwrap(), "latest", "u", None, None).is_none());
}
