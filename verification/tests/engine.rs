use passlock::cipher;
use passlock::engine::{open_vault, seal_vault, seal_vault_with_nonce};
use passlock::errors::VaultError;
use passlock::models::{Entry, PasswordHistory, Vault, SALT_LEN};
use passlock::random::gen_salt;
use passlock::secure::SecureBuffer;

fn sample_salt() -> Vec<u8> {
    (0u8..16).collect()
}

fn sample_entry(name: &str, user: &str, pass: &str) -> Entry {
    Entry {
        id: "id-1".to_string(),
        n: name.to_string(),
        u: user.to_string(),
        p: pass.to_string(),
        url: Some("https://example.test".to_string()),
        nt: None,
        t: 1_700_000_000,
        tags: vec!["mail".to_string(), "work".to_string()],
        history: vec![PasswordHistory { password: "old".to_string(), changed_at: 1_600_000_000 }],
        last_modified: 1_700_000_001,
    }
}

fn sample_vault() -> Vault {
    let mut v = Vault::new(sample_salt());
    v.e.push(sample_entry("email", "a@b.com", "xyz"));
    v
}

fn assert_entries_equal(a: &Entry, b: &Entry) {
    assert_eq!(a.id, b.id);
    assert_eq!(a.n, b.n);
    assert_eq!(a.u, b.u);
    assert_eq!(a.p, b.p);
    assert_eq!(a.url, b.url);
    assert_eq!(a.nt, b.nt);
    assert_eq!(a.t, b.t);
    assert_eq!(a.tags, b.tags);
    assert_eq!(a.history.len(), b.history.len());
    for (x, y) in a.history.iter().zip(b.history.iter()) {
        assert_eq!(x.password, y.password);
        assert_eq!(x.changed_at, y.changed_at);
    }
    assert_eq!(a.last_modified, b.last_modified);
}

#[test]
fn round_trip_empty_vault() {
    let v = Vault::new(sample_salt());
    let c = seal_vault(&v, "correct horse").unwrap();
    let back = open_vault(&c, "correct horse").unwrap();
    assert_eq!(back.s, v.s);
    assert!(back.e.is_empty());
}

#[test]
fn round_trip_with_entries() {
    let mut v = sample_vault();
    v.e.push(sample_entry("bank", "user2", "pass2"));
    v.e[1].id = "id-2".to_string();
    let c = seal_vault(&v, "pw").unwrap();
    let back = open_vault(&c, "pw").unwrap();
    assert_eq!(back.s, v.s);
    assert_eq!(back.e.len(), 2);
    assert_entries_equal(&back.e[0], &v.e[0]);
    assert_entries_equal(&back.e[1], &v.e[1]);
}

#[test]
fn round_trip_unicode_fields() {
    let mut v = Vault::new(sample_salt());
    let mut e = sample_entry("почта", "ユーザー", "påsswörd✓");
    e.nt = Some("ノート — résumé".to_string());
    v.e.push(e);
    let c = seal_vault(&v, "påss✓wörd").unwrap();
    let back = open_vault(&c, "påss✓wörd").unwrap();
    assert_eq!(back.e[0].n, "почта");
    assert_eq!(back.e[0].u, "ユーザー");
    assert_eq!(back.e[0].p, "påsswörd✓");
    assert_eq!(back.e[0].nt.as_deref(), Some("ノート — résumé"));
}

#[test]
fn tamper_every_byte_fails_auth() {
    // Every byte of a sealed payload, checked against the cipher directly
    // so the slow key derivation runs once.
    let salt = sample_salt();
    let key_bytes = passlock::kdf::derive(b"pw", &salt).unwrap().as_slice().to_vec();
    let mut key = SecureBuffer::from_bytes(key_bytes.clone());
    let blob = cipher::seal(b"the payload under test", &mut key, &[5u8; 12]).unwrap();
    for i in 0..blob.len() {
        let mut bad = blob.clone();
        bad[i] ^= 0x01;
        let mut k = SecureBuffer::from_bytes(key_bytes.clone());
        assert!(cipher::open(&bad, &mut k).is_err(), "byte {} flipped", i);
    }

    // And end to end through the engine at positions covering the salt,
    // the nonce, the ciphertext and the tag.
    let v = sample_vault();
    let c = seal_vault(&v, "pw").unwrap();
    let positions = [0, 7, 15, 16, 20, 27, 28, c.len() / 2, c.len() - 17, c.len() - 1];
    for &i in positions.iter() {
        let mut bad = c.clone();
        bad[i] ^= 0x01;
        match open_vault(&bad, "pw") {
            Err(VaultError::AuthError) => {}
            Err(e) => panic!("byte {} flipped: expected AuthError, got {:?}", i, e),
            Ok(_) => panic!("byte {} flipped: decryption unexpectedly succeeded", i),
        }
    }
}

#[test]
fn wrong_password_fails_auth() {
    let v = sample_vault();
    let c = seal_vault(&v, "a").unwrap();
    match open_vault(&c, "b") {
        Err(VaultError::AuthError) => {}
        Err(e) => panic!("expected AuthError, got {:?}", e),
        Ok(_) => panic!("expected AuthError, got a vault"),
    }
}

#[test]
fn nonce_uniqueness_two_seals_differ() {
    let v = sample_vault();
    let c1 = seal_vault(&v, "pw").unwrap();
    let c2 = seal_vault(&v, "pw").unwrap();
    assert_ne!(c1, c2);
    assert!(open_vault(&c1, "pw").is_ok());
    assert!(open_vault(&c2, "pw").is_ok());
}

#[test]
fn salt_stability_across_saves() {
    let v = sample_vault();
    let c1 = seal_vault(&v, "pw").unwrap();
    assert_eq!(&c1[..SALT_LEN], v.s.as_slice());
    let reopened = open_vault(&c1, "pw").unwrap();
    let c2 = seal_vault(&reopened, "pw").unwrap();
    assert_eq!(&c2[..SALT_LEN], v.s.as_slice());
}

#[test]
fn changed_salt_invalidates_decryption() {
    let v = sample_vault();
    let c = seal_vault(&v, "pw").unwrap();
    let mut bad = c.clone();
    bad[3] = bad[3].wrapping_add(1);
    match open_vault(&bad, "pw") {
        Err(VaultError::AuthError) => {}
        Err(e) => panic!("expected AuthError, got {:?}", e),
        Ok(_) => panic!("expected AuthError, got a vault"),
    }
}

#[test]
fn derive_is_deterministic() {
    let salt = sample_salt();
    let k1 = passlock::kdf::derive(b"password", &salt).unwrap();
    let k2 = passlock::kdf::derive(b"password", &salt).unwrap();
    assert_eq!(k1.as_slice(), k2.as_slice());
    assert_eq!(k1.as_slice().len(), 32);
}

#[test]
fn derive_differs_from_its_input() {
    let salt = sample_salt();
    let pw = [0x61u8; 32];
    let k = passlock::kdf::derive(&pw, &salt).unwrap();
    assert_ne!(k.as_slice(), &pw[..]);
    assert_ne!(k.as_slice(), &[0u8; 32][..]);
}

#[test]
fn derive_rejects_bad_salt() {
    match passlock::kdf::derive(b"pw", &[1, 2, 3]) {
        Err(VaultError::KeyDerivationError) => {}
        Err(e) => panic!("expected KeyDerivationError, got {:?}", e),
        Ok(_) => panic!("expected KeyDerivationError, got a key"),
    }
}

#[test]
fn different_passwords_give_different_keys() {
    let salt = sample_salt();
    let k1 = passlock::kdf::derive(b"one", &salt).unwrap();
    let k2 = passlock::kdf::derive(b"two", &salt).unwrap();
    assert_ne!(k1.as_slice(), k2.as_slice());
}

#[test]
fn short_container_is_format_error() {
    match open_vault(&[1, 2, 3], "pw") {
        Err(VaultError::FormatError) => {}
        Err(e) => panic!("expected FormatError, got {:?}", e),
        Ok(_) => panic!("expected FormatError, got a vault"),
    }
}

#[test]
fn garbage_plaintext_is_deserialization_error() {
    // Seal bytes that are no vault payload, under the very key open_vault
    // will derive, and frame them by hand: decryption succeeds, the
    // deserializer refuses.
    let salt = sample_salt();
    let mut key = passlock::kdf::derive(b"pw", &salt).unwrap();
    let blob = cipher::seal(&[0xFF; 7], &mut key, &[9u8; 12]).unwrap();
    let mut container = salt.clone();
    container.extend_from_slice(&blob);
    match open_vault(&container, "pw") {
        Err(VaultError::DeserializationError) => {}
        Err(e) => panic!("expected DeserializationError, got {:?}", e),
        Ok(_) => panic!("expected DeserializationError, got a vault"),
    }
}

#[test]
fn bad_nonce_width_is_seal_error() {
    let v = sample_vault();
    match seal_vault_with_nonce(&v, "pw", &[1, 2, 3]) {
        Err(VaultError::SealError) => {}
        Err(e) => panic!("expected SealError, got {:?}", e),
        Ok(_) => panic!("expected SealError, got a container"),
    }
}

#[test]
fn seal_with_fixed_nonce_is_deterministic() {
    let v = sample_vault();
    let nonce = [7u8; 12];
    let c1 = seal_vault_with_nonce(&v, "pw", &nonce).unwrap();
    let c2 = seal_vault_with_nonce(&v, "pw", &nonce).unwrap();
    assert_eq!(c1, c2);
    assert!(open_vault(&c1, "pw").is_ok());
}

#[test]
fn ciphertext_differs_from_plaintext() {
    let salt = sample_salt();
    let mut key = passlock::kdf::derive(b"pw", &salt).unwrap();
    let blob = cipher::seal(b"hello", &mut key, &[0u8; 12]).unwrap();
    assert_eq!(blob.len(), 12 + 5 + 16);
    assert_ne!(&blob[12..17], b"hello");
}

#[test]
fn key_is_wiped_after_sealing() {
    let salt = sample_salt();
    let mut key = passlock::kdf::derive(b"pw", &salt).unwrap();
    let _ = cipher::seal(b"data", &mut key, &[0u8; 12]).unwrap();
    assert_eq!(key.as_slice(), &[0u8; 32][..]);
}

#[test]
fn key_is_wiped_after_failed_open() {
    let salt = sample_salt();
    let mut key = passlock::kdf::derive(b"pw", &salt).unwrap();
    assert!(cipher::open(&[0u8; 5], &mut key).is_err());
    assert_eq!(key.as_slice(), &[0u8; 32][..]);
}

#[test]
fn secure_buffer_wipe_zeroes_in_place() {
    let mut b = SecureBuffer::from_bytes(vec![1, 2, 3, 4]);
    assert_eq!(b.len(), 4);
    assert_eq!(b.as_slice(), &[1, 2, 3, 4][..]);
    b.wipe();
    assert_eq!(b.as_slice(), &[0, 0, 0, 0][..]);
}

#[test]
fn gen_salt_has_fixed_width() {
    let s1 = gen_salt().unwrap();
    let s2 = gen_salt().unwrap();
    assert_eq!(s1.len(), SALT_LEN);
    assert_eq!(s2.len(), SALT_LEN);
    assert_ne!(s1, s2);
}

#[test]
fn error_descriptions() {
    assert_eq!(VaultError::FormatError.describe(), "invalid vault format");
    assert_eq!(VaultError::AuthError.describe(), "wrong password or corrupted data");
    assert_eq!(VaultError::KeyDerivationError.describe(), "key derivation failed");
    assert_eq!(VaultError::DeserializationError.describe(), "vault data is corrupt");
    assert_eq!(VaultError::SealError.describe(), "sealing the vault failed");
}
