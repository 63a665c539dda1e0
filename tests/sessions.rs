use puppynet::session::{
    generate_session_token, hash_password, session_token_from, token_hash, verify_password,
    AuthError, SessionStore,
};

#[test]
fn session_lookup_until_expiry() {
    let mut store = SessionStore::new();
    store.save_session("tok", "alice".to_string(), 100, 200);
    assert_eq!(store.lookup("tok", 150), Some("alice".to_string()));
    assert_eq!(store.lookup("tok", 199), Some("alice".to_string()));
    assert_eq!(store.lookup("other", 150), None);
    assert_eq!(store.lookup("tok", 200), None);
    assert_eq!(store.lookup("tok", 150), None);
}

#[test]
fn saving_again_replaces_and_logout_drops() {
    let mut store = SessionStore::new();
    store.save_session("tok", "alice".to_string(), 0, 10);
    store.save_session("tok", "bob".to_string(), 0, 50);
    assert_eq!(store.lookup("tok", 20), Some("bob".to_string()));
    store.drop_session("tok");
    assert_eq!(store.lookup("tok", 20), None);
}

#[test]
fn token_hash_is_sha256_of_token() {
    let h = token_hash("abc");
    let hex: String = h.iter().map(|b| format!("{:02x}", b)).collect();
    assert_eq!(hex, "ba7816bf8f01cfea414140de5dae2223b00361a396177a9cb410ff61f20015ad");
}

#[test]
fn session_tokens_are_hex() {
    let (token, hash) = session_token_from(&[0xab, 0x01]);
    assert_eq!(token, "ab01");
    assert_eq!(hash, token_hash("ab01"));
    let (token, hash) = generate_session_token().unwrap();
    assert_eq!(token.len(), 64);
    assert!(token.chars().all(|c| c.is_ascii_hexdigit()));
    assert_eq!(hash, token_hash(&token));
}

#[test]
fn password_hash_round_trip() {
    let hash = hash_password("s3cret").unwrap();
    assert_eq!(verify_password("s3cret", &hash), Ok(true));
    assert_eq!(verify_password("wrong", &hash), Ok(false));
    assert_eq!(verify_password("s3cret", "not a phc string"), Err(AuthError::MalformedHash));
}
