use clankerdiff_core::fingerprint::{Fingerprint, FingerprintError};

fn of(fields: &[&str]) -> Fingerprint {
    let fields: Vec<Vec<u8>> = fields.iter().map(|field| field.as_bytes().to_vec()).collect();
    Fingerprint::of(&fields)
}

#[test]
fn separates_fields_so_concatenations_do_not_collide() {
    assert_ne!(of(&["ab", "c"]), of(&["a", "bc"]));
    assert_ne!(of(&["a\0", "b"]), of(&["a", "\0b"]));
    assert_eq!(of(&["a", "b"]), of(&["a", "b"]));
}

#[test]
fn round_trips_through_hexadecimal() {
    let fingerprint = of(&["value"]);
    let hex = fingerprint.to_hex();
    assert_eq!(hex.len(), 64);
    assert_eq!(Fingerprint::from_hex(&hex).unwrap(), fingerprint);
    assert!(Fingerprint::from_hex("beef").is_err());
    assert!(Fingerprint::from_hex(&"z".repeat(64)).is_err());
}

#[test]
fn hex_errors_name_the_length_or_the_digit() {
    assert_eq!(Fingerprint::from_hex("beef"), Err(FingerprintError::Length(4)));
    let mut text = "0".repeat(63);
    text.push('g');
    assert_eq!(Fingerprint::from_hex(&text), Err(FingerprintError::Digit('g')));
    let upper = Fingerprint::from_hex(&"AB".repeat(32)).unwrap();
    assert_eq!(upper.bytes, [0xab; 32]);
    assert_eq!(upper.to_hex(), "ab".repeat(32));
}

#[test]
fn fields_are_hashed_with_little_endian_length_prefixes() {
    assert_eq!(Fingerprint::of(&Vec::new()).bytes, *blake3::hash(&[]).as_bytes());
    let mut encoded = vec![5u8, 0, 0, 0, 0, 0, 0, 0];
    encoded.extend_from_slice(b"value");
    assert_eq!(of(&["value"]).bytes, *blake3::hash(&encoded).as_bytes());
    assert_eq!(Fingerprint::from_bytes([1; 32]).to_u64(), 0x0101010101010101);
}

#[test]
fn upper_case_hex_round_trips() {
    let fingerprint = of(&["value"]);
    let hex = fingerprint.to_hex();
    assert!(hex.chars().all(|c| c.is_ascii_digit() || ('a'..='f').contains(&c)));
    assert_eq!(Fingerprint::from_hex(&hex.to_ascii_uppercase()), Ok(fingerprint));
}
