use gt::errors::TunnelError;
use gt::routes::{split_channel_name, RouteEntry, RouteTable};

fn table(entries: &[(&[u8], &[u8])]) -> RouteTable {
    RouteTable::from_entries(
        entries
            .iter()
            .map(|(k, o)| RouteEntry { key: k.to_vec(), origin: o.to_vec() })
            .collect(),
    )
}

#[test]
fn split_at_first_slash_round_trip() {
    let (key, token) = split_channel_name(&b"a/b".to_vec());
    assert_eq!(key, b"a".to_vec());
    assert_eq!(token, b"b".to_vec());
    let mut rebuilt = key.clone();
    rebuilt.push(b'/');
    rebuilt.extend_from_slice(&token);
    assert_eq!(rebuilt, b"a/b".to_vec());
}

#[test]
fn split_takes_only_the_first_slash() {
    let (key, token) = split_channel_name(&b"www/a/b".to_vec());
    assert_eq!(key, b"www".to_vec());
    assert_eq!(token, b"a/b".to_vec());
}

#[test]
fn split_without_slash_gives_empty_token() {
    let (key, token) = split_channel_name(&b"plain".to_vec());
    assert_eq!(key, b"plain".to_vec());
    assert_eq!(token, b"".to_vec());
}

#[test]
fn split_leading_slash_gives_empty_key() {
    let (key, token) = split_channel_name(&b"/session".to_vec());
    assert_eq!(key, b"".to_vec());
    assert_eq!(token, b"session".to_vec());
}

#[test]
fn resolve_exact_match() {
    let t = table(&[(b"www", b"http://example.test")]);
    let (origin, token) = t.resolve(&b"www/session1".to_vec()).expect("resolved");
    assert_eq!(origin, b"http://example.test".to_vec());
    assert_eq!(token, b"session1".to_vec());
}

#[test]
fn resolve_unknown_without_wildcard_fails() {
    let t = table(&[(b"api", b"http://api.test")]);
    assert_eq!(
        t.resolve(&b"www/session1".to_vec()),
        Err(TunnelError::UnknownRoute)
    );
    assert_eq!(
        RouteTable::new().resolve(&b"www/s".to_vec()),
        Err(TunnelError::UnknownRoute)
    );
}

#[test]
fn resolve_is_case_sensitive_and_exact() {
    let t = table(&[(b"www", b"http://example.test")]);
    assert_eq!(
        t.resolve(&b"WWW/s".to_vec()),
        Err(TunnelError::UnknownRoute)
    );
    assert_eq!(
        t.resolve(&b"ww/s".to_vec()),
        Err(TunnelError::UnknownRoute)
    );
    assert_eq!(
        t.resolve(&b"wwww/s".to_vec()),
        Err(TunnelError::UnknownRoute)
    );
}

#[test]
fn wildcard_entry_catches_unmatched_keys() {
    let t = table(&[(b"www", b"http://example.test"), (b"@", b"http://fallback.test")]);
    let (origin, _) = t.resolve(&b"other/s".to_vec()).expect("wildcard");
    assert_eq!(origin, b"http://fallback.test".to_vec());
    let (origin, _) = t.resolve(&b"www/s".to_vec()).expect("exact");
    assert_eq!(origin, b"http://example.test".to_vec());
}

#[test]
fn wildcard_key_itself_resolves() {
    let t = table(&[(b"@", b"http://www.baidu.com")]);
    let (origin, token) = t.resolve(&b"@/uuid".to_vec()).expect("resolved");
    assert_eq!(origin, b"http://www.baidu.com".to_vec());
    assert_eq!(token, b"uuid".to_vec());
}

#[test]
fn empty_key_resolves_its_own_entry() {
    let t = table(&[(b"", b"http://default.test")]);
    let (origin, token) = t.resolve(&b"/session".to_vec()).expect("resolved");
    assert_eq!(origin, b"http://default.test".to_vec());
    assert_eq!(token, b"session".to_vec());
}

#[test]
fn earlier_entries_shadow_later_ones() {
    let t = table(&[(b"www", b"http://first.test"), (b"www", b"http://second.test")]);
    let (origin, _) = t.resolve(&b"www/s".to_vec()).expect("resolved");
    assert_eq!(origin, b"http://first.test".to_vec());
}

#[test]
fn lookup_has_no_wildcard_fallback() {
    let t = table(&[(b"@", b"http://fallback.test")]);
    assert_eq!(t.lookup(&b"www".to_vec()), None);
    assert_eq!(
        t.lookup(&b"@".to_vec()),
        Some(b"http://fallback.test".to_vec())
    );
}
