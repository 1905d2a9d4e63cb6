use wallet::hex::{from_hex, to_hex};
use wallet::types::{Error, Identifier};

#[test]
fn hex_encodes_lower_case() {
    assert_eq!(to_hex(&[0x00, 0x0f, 0xab, 0xff]), "000fabff");
    assert_eq!(to_hex(&[]), "");
}

#[test]
fn hex_decodes_both_cases() {
    assert_eq!(from_hex("000fabFF"), Some(vec![0x00, 0x0f, 0xab, 0xff]));
    assert_eq!(from_hex(""), Some(vec![]));
}

#[test]
fn hex_rejects_malformed_text() {
    assert_eq!(from_hex("abc"), None);
    assert_eq!(from_hex("zz"), None);
    assert_eq!(from_hex("0x12"), None);
    assert_eq!(from_hex("é1"), None);
}

#[test]
fn hex_round_trip() {
    let bytes: Vec<u8> = (0..=255u8).collect();
    assert_eq!(from_hex(&to_hex(&bytes)), Some(bytes));
}

#[test]
fn identifier_hex_round_trip() {
    let id = Identifier([1, 2, 3, 4, 5, 6, 7, 8, 9, 0xaa]);
    assert_eq!(id.to_hex(), "010203040506070809aa");
    let back = Identifier::from_hex("010203040506070809aa").unwrap();
    assert!(back == id);
    assert!(back != Identifier([0; 10]));
}

#[test]
fn identifier_rejects_wrong_length_and_bad_hex() {
    assert!(matches!(Identifier::from_hex("0102"), Err(Error::Format(_))));
    assert!(matches!(Identifier::from_hex("zz02030405060708090a"), Err(Error::Format(_))));
}
