use passlock::container::{decode_container, encode_container};
use passlock::errors::VaultError;
use passlock::models::{Entry, PasswordHistory};
use passlock::wire::{decode_payload, encode_payload};

fn entry(id: &str, name: &str) -> Entry {
    Entry {
        id: id.to_string(),
        n: name.to_string(),
        u: "user".to_string(),
        p: "pass".to_string(),
        url: None,
        nt: Some("note".to_string()),
        t: 42,
        tags: vec![],
        history: vec![],
        last_modified: 43,
    }
}

#[test]
fn container_round_trip() {
    let salt: Vec<u8> = (0u8..16).collect();
    let sealed = vec![9u8, 8, 7];
    let framed = encode_container(&salt, &sealed);
    assert_eq!(framed.len(), 19);
    assert_eq!(&framed[..16], salt.as_slice());
    assert_eq!(&framed[16..], sealed.as_slice());
    let (s2, p2) = decode_container(&framed).unwrap();
    assert_eq!(s2, salt);
    assert_eq!(p2, sealed);
}

#[test]
fn container_too_short_is_format_error() {
    match decode_container(&[0u8; 15]) {
        Err(VaultError::FormatError) => {}
        other => panic!("expected FormatError, got {:?}", other),
    }
    // exactly the salt width decodes to an empty payload
    let (s, p) = decode_container(&[0u8; 16]).unwrap();
    assert_eq!(s.len(), 16);
    assert!(p.is_empty());
}

#[test]
fn payload_round_trip_empty() {
    let entries: Vec<Entry> = vec![];
    let bytes = encode_payload(&entries);
    assert_eq!(bytes, vec![0u8; 8]);
    let back = decode_payload(&bytes).unwrap();
    assert!(back.is_empty());
}

#[test]
fn payload_round_trip_entries() {
    let mut e = entry("id-9", "almacén");
    e.tags = vec!["家".to_string(), "b".to_string()];
    e.history = vec![PasswordHistory { password: "p0".to_string(), changed_at: 7 }];
    let entries = vec![e, entry("id-10", "second")];
    let bytes = encode_payload(&entries);
    let back = decode_payload(&bytes).unwrap();
    assert_eq!(back.len(), 2);
    assert_eq!(back[0].id, "id-9");
    assert_eq!(back[0].n, "almacén");
    assert_eq!(back[0].tags, vec!["家".to_string(), "b".to_string()]);
    assert_eq!(back[0].history.len(), 1);
    assert_eq!(back[0].history[0].password, "p0");
    assert_eq!(back[0].history[0].changed_at, 7);
    assert_eq!(back[0].nt.as_deref(), Some("note"));
    assert_eq!(back[0].url, None);
    assert_eq!(back[1].id, "id-10");
}

#[test]
fn payload_rejects_trailing_bytes() {
    let entries = vec![entry("a", "b")];
    let mut bytes = encode_payload(&entries);
    bytes.push(0);
    assert!(decode_payload(&bytes).is_none());
}

#[test]
fn payload_rejects_truncation() {
    let entries = vec![entry("a", "b")];
    let bytes = encode_payload(&entries);
    for cut in 0..bytes.len() {
        assert!(decode_payload(&bytes[..cut]).is_none(), "cut at {}", cut);
    }
}

#[test]
fn payload_rejects_invalid_utf8() {
    // count 1, then an id whose length prefix says 2 but whose bytes are
    // not valid UTF-8
    let mut bytes = vec![1, 0, 0, 0, 0, 0, 0, 0];
    bytes.extend_from_slice(&[2, 0, 0, 0, 0, 0, 0, 0]);
    bytes.extend_from_slice(&[0xFF, 0xFE]);
    assert!(decode_payload(&bytes).is_none());
}
