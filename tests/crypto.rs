use base64::Engine;
use finledger::{CryptoError, SecurityManager};

const KEY: [u8; 32] = [7u8; 32];

#[test]
fn round_trip_restores_text() {
    let sm = SecurityManager::new();
    for text in ["", "Groceries at the market", "caf\u{e9} \u{20ac}12"] {
        let tok = sm.encrypt(text, &KEY).unwrap();
        assert_ne!(tok, text);
        let raw = base64::engine::general_purpose::STANDARD.decode(&tok).unwrap();
        assert_eq!(raw.len(), 12 + text.len() + 16);
        assert_eq!(sm.decrypt(&tok, &KEY).unwrap(), text);
    }
}

#[test]
fn tokens_use_fresh_nonces() {
    let sm = SecurityManager::new();
    let a = sm.encrypt("rent", &KEY).unwrap();
    let b = sm.encrypt("rent", &KEY).unwrap();
    assert_ne!(a, b);
    assert_eq!(sm.decrypt(&b, &KEY).unwrap(), "rent");
}

#[test]
fn wrong_key_fails_authentication() {
    let sm = SecurityManager::new();
    let tok = sm.encrypt("salary", &KEY).unwrap();
    let other = [8u8; 32];
    assert_eq!(sm.decrypt(&tok, &other), Err(CryptoError::AuthenticationFailed));
}

#[test]
fn flipped_byte_is_rejected() {
    let sm = SecurityManager::new();
    let tok = sm.encrypt("transfer to savings", &KEY).unwrap();
    let raw = base64::engine::general_purpose::STANDARD.decode(&tok).unwrap();
    for i in 0..raw.len() {
        let mut bad = raw.clone();
        bad[i] ^= 0x01;
        let bad_tok = base64::engine::general_purpose::STANDARD.encode(&bad);
        assert_eq!(sm.decrypt(&bad_tok, &KEY), Err(CryptoError::AuthenticationFailed));
    }
}

#[test]
fn short_or_garbled_tokens_are_invalid_format() {
    let sm = SecurityManager::new();
    assert_eq!(sm.decrypt("not base64 !!", &KEY), Err(CryptoError::InvalidFormat));
    assert_eq!(sm.decrypt("AAAA", &KEY), Err(CryptoError::InvalidFormat));
    assert_eq!(sm.decrypt("", &KEY), Err(CryptoError::InvalidFormat));
}

#[test]
fn derive_key_is_stable() {
    let sm = SecurityManager::new();
    let a = sm.derive_key("correct horse").unwrap();
    let b = sm.derive_key("correct horse").unwrap();
    assert_eq!(a, b);
    assert_ne!(a, [0u8; 32]);
}

#[test]
fn hash_is_hex_sha256() {
    let sm = SecurityManager::new();
    assert_eq!(
        sm.create_hash("abc").unwrap(),
        "ba7816bf8f01cfea414140de5dae2223b00361a396177a9cb410ff61f20015ad"
    );
    assert_eq!(sm.create_hash("").unwrap().len(), 64);
}

#[test]
fn secure_ids_are_distinct_uuids() {
    let sm = SecurityManager::new();
    let a = sm.generate_secure_id().unwrap();
    let b = sm.generate_secure_id().unwrap();
    assert_eq!(a.len(), 36);
    assert_ne!(a, b);
    for (i, c) in a.chars().enumerate() {
        if [8, 13, 18, 23].contains(&i) {
            assert_eq!(c, '-');
        } else {
            assert!(c.is_ascii_hexdigit() && !c.is_ascii_uppercase());
        }
    }
    assert_eq!(a.chars().nth(14), Some('4'));
    assert!("89ab".contains(a.chars().nth(19).unwrap()));
}

#[test]
fn unparsable_password_hash_is_an_error() {
    let sm = SecurityManager::new();
    assert_eq!(sm.verify_password("pw", "not a phc string"), Err(CryptoError::InvalidHash));
}

#[test]
fn argon2_hash_verifies_its_password() {
    let salt = argon2::password_hash::SaltString::from_b64("c29tZXNhbHRzb21lc2FsdA").unwrap();
    let hash = argon2::PasswordHasher::hash_password(&argon2::Argon2::default(), b"secret", &salt)
        .unwrap()
        .to_string();
    let sm = SecurityManager::new();
    assert_eq!(sm.verify_password("secret", &hash), Ok(true));
    assert_eq!(sm.verify_password("Secret", &hash), Ok(false));
}

#[test]
fn sealing_with_a_given_nonce_is_exact() {
    let sm = SecurityManager::new();
    let nonce = vec![3u8; 12];
    let a = sm.seal_with_nonce("lunch", &KEY, &nonce).unwrap();
    let b = sm.seal_with_nonce("lunch", &KEY, &nonce).unwrap();
    assert_eq!(a, b);
    let raw = base64::engine::general_purpose::STANDARD.decode(&a).unwrap();
    assert_eq!(&raw[..12], &nonce[..]);
    assert_eq!(raw.len(), 12 + 5 + 16);
    let other = sm.seal_with_nonce("lunch", &KEY, &vec![4u8; 12]).unwrap();
    assert_ne!(a, other);
    assert_eq!(sm.decrypt(&a, &KEY).unwrap(), "lunch");
}
