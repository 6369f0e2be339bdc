use netdiag::unifi::client::{
    check_pin, classify_login, decode_chunked, fingerprint, parse_response, Flavour, LoginOutcome, UnifiClient, UnifiError,
};
use netdiag::unifi::config::{redact, UnifiConfig};

#[test]
fn refuses_public_hosts_before_connecting() {
    let err = match UnifiClient::new("8.8.8.8", 443, None) {
        Err(e) => e,
        Ok(_) => panic!("a public host must be refused"),
    };
    assert!(matches!(err, UnifiError::NotPrivate(_)));
    assert!(UnifiClient::new("10.0.3.12", 443, None).is_ok());
    assert!(UnifiClient::new("unifi.local", 443, None).is_ok());
}

#[test]
fn fingerprint_matches_openssl_format() {
    let printed = fingerprint(b"example");
    assert_eq!(printed.matches(':').count(), 31);
    assert!(printed.chars().all(|c| c.is_ascii_hexdigit() && !c.is_ascii_lowercase() || c == ':'));
}

#[test]
fn fingerprint_is_the_sha256_of_the_certificate() {
    assert_eq!(
        fingerprint(b"abc"),
        "BA:78:16:BF:8F:01:CF:EA:41:41:40:DE:5D:AE:22:23:B0:03:61:A3:96:17:7A:9C:B4:10:FF:61:F2:00:15:AD"
    );
}

#[test]
fn collects_repeated_set_cookie_headers() {
    let raw = "HTTP/1.1 200 OK\r\nSet-Cookie: TOKEN=abc; Path=/; HttpOnly\r\nSet-Cookie: csrf_token=xyz; Path=/\r\nX-CSRF-Token: header-token\r\n\r\n{}";
    let (status, headers, _) = parse_response(raw).unwrap();
    assert_eq!(status, 200);

    let mut client = UnifiClient::new("10.0.3.12", 443, None).unwrap();
    client.absorb_cookies(&headers);

    assert_eq!(client.cookie("TOKEN").unwrap(), "abc");
    assert_eq!(client.cookie("csrf_token").unwrap(), "xyz");
    assert_eq!(client.csrf().map(|c| c.as_str()), Some("header-token"));

    let cookie = client.cookie_header().unwrap();
    assert!(cookie.contains("TOKEN=abc") && cookie.contains("csrf_token=xyz"));
}

#[test]
fn a_wrong_password_is_reported_as_bad_credentials_not_a_permissions_problem() {
    let body = r#"{"code":"AUTHENTICATION_FAILED_INVALID_CREDENTIALS","message":"Invalid username or password","level":"debug"}"#;
    assert_eq!(classify_login(403, body), LoginOutcome::BadCredentials);
    assert_eq!(classify_login(403, "{\"error\":\"forbidden\"}"), LoginOutcome::NoPermission);
    assert_eq!(classify_login(200, "{}"), LoginOutcome::Accepted);
    assert_eq!(classify_login(401, "{}"), LoginOutcome::BadCredentials);
    assert_eq!(classify_login(500, "{}"), LoginOutcome::Other(500));
}

#[test]
fn an_mfa_challenge_is_explained_rather_than_reported_as_a_bad_password() {
    let body = r#"{"required":"MFA","code":"MFA_REQUIRED"}"#;
    assert_eq!(classify_login(499, body), LoginOutcome::MfaRequired);
}

#[test]
fn builds_paths_for_both_flavours() {
    assert_eq!(Flavour::UnifiOs.api_path("default", "stat/sta"), "/proxy/network/api/s/default/stat/sta");
    assert_eq!(Flavour::Legacy.api_path("default", "stat/sta"), "/api/s/default/stat/sta");
    assert_eq!(Flavour::UnifiOs.login_path(), "/api/auth/login");
    assert_eq!(Flavour::Legacy.login_path(), "/api/login");
}

fn chunked(parts: &[&str]) -> String {
    let mut out = String::new();
    for part in parts {
        out.push_str(&format!("{:x}\r\n{part}\r\n", part.len()));
    }
    out.push_str("0\r\n\r\n");
    out
}

#[test]
fn decodes_chunked_bodies() {
    let payload = r#"{"meta":{"rc":"ok"},"data":[1,2]}"#;
    let body = chunked(&[&payload[..19], &payload[19..]]);
    assert_eq!(decode_chunked(&body), payload);
}

#[test]
fn parses_chunked_response_end_to_end() {
    let raw = format!(
        "HTTP/1.1 200 OK\r\nTransfer-Encoding: chunked\r\nContent-Type: application/json\r\n\r\n{}",
        chunked(&["{\"a\":", "1}"])
    );
    let (status, _, body) = parse_response(&raw).unwrap();
    assert_eq!(status, 200);
    assert_eq!(body, "{\"a\":1}");
}

#[test]
fn malformed_responses_are_rejected() {
    assert!(parse_response("").is_none());
    assert!(parse_response("garbage").is_none());
    assert!(parse_response("HTTP/1.1\r\n\r\n").is_none());
}

#[test]
fn fingerprint_mismatch_message_says_credentials_were_not_sent() {
    let err = UnifiError::FingerprintMismatch { expected: "AA:BB".into(), actual: "CC:DD".into() };
    let text = err.message();
    assert!(text.contains("were not sent"), "must reassure the user: {text}");
    assert!(text.contains("AA:BB") && text.contains("CC:DD"));
}

#[test]
fn a_config_without_host_or_user_is_not_configured() {
    assert!(!UnifiConfig::default().is_configured());
    let mut config = UnifiConfig { host: "10.0.3.12".into(), username: "viewer".into(), enabled: true, ..Default::default() };
    assert!(config.is_configured());
    config.enabled = false;
    assert!(!config.is_configured(), "disabled means do not contact it");
}

#[test]
fn keyring_accounts_are_scoped_per_host_and_user() {
    let a = UnifiConfig { host: "10.0.3.12".into(), username: "viewer".into(), ..Default::default() };
    let b = UnifiConfig { host: "10.0.4.12".into(), username: "viewer".into(), ..Default::default() };
    assert_ne!(a.credential_id(), b.credential_id());
    assert_eq!(a.credential_id(), "unifi:viewer@10.0.3.12");
}

#[test]
fn redacts_secrets_from_diagnostic_text() {
    let text = r#"{"username":"viewer","password":"hunter2","remember":false}"#;
    let clean = redact(text);
    assert!(!clean.contains("hunter2"), "password leaked: {clean}");
    assert!(clean.contains("viewer"), "non-secret context should survive");
    let header = "Cookie: TOKEN=abc123; Path=/";
    assert!(!redact(header).contains("abc123"));
}

#[test]
fn redaction_terminates_on_pathological_input() {
    let _ = redact(&"password".repeat(200));
    let _ = redact("password:");
    let _ = redact("password=");
}

#[test]
fn a_changed_certificate_is_refused_before_anything_is_sent() {
    assert!(check_pin(None, "AA:BB").is_ok());
    assert!(check_pin(Some("aa:bb"), "AA:BB").is_ok());
    match check_pin(Some("AA:BB"), "AA:CC") {
        Err(UnifiError::FingerprintMismatch { expected, actual }) => {
            assert_eq!(expected, "AA:BB");
            assert_eq!(actual, "AA:CC");
        }
        other => panic!("expected a mismatch, got {:?}", other.is_ok()),
    }
    assert!(check_pin(Some("AA:BB"), "AA:BB:CC").is_err());
}

#[test]
fn text_without_secrets_passes_redaction_unchanged() {
    assert_eq!(redact("status ok, 3 devices"), "status ok, 3 devices");
}

#[test]
fn a_chunk_cut_inside_a_character_stops_decoding() {
    // "é" is two bytes; a one-byte chunk would split it.
    assert_eq!(decode_chunked("1\r\né\r\n0\r\n\r\n"), "");
    assert_eq!(decode_chunked("2\r\né\r\n0\r\n\r\n"), "é");
}
