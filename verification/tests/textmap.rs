use netdiag::textmap::TextMap;

#[test]
fn entries_come_back_in_key_order() {
    let mut m = TextMap::new();
    m.insert("server".to_string(), "nginx".to_string());
    m.insert("content-type".to_string(), "text/html".to_string());
    m.insert("location".to_string(), "/".to_string());
    m.insert("server".to_string(), "caddy".to_string());
    assert_eq!(m.len(), 3);
    let keys: Vec<String> = (0..m.len()).map(|i| m.entry(i).0.iter().collect()).collect();
    assert_eq!(keys, vec!["content-type".to_string(), "location".to_string(), "server".to_string()]);
    assert_eq!(m.get("server").map(|s| s.as_str()), Some("caddy"));
}
