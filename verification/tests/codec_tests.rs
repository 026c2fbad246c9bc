use issuetrack::codec::Cursor;
use issuetrack::codec::decode;
use issuetrack::codec::encode_key;

#[test]
fn round_trip_plain_key() {
    let c = encode_key("alpha");
    assert_eq!(decode(&c), Ok(String::from("alpha")));
}

#[test]
fn round_trip_empty_key() {
    let c = encode_key("");
    assert_eq!(decode(&c), Ok(String::from("")));
}

#[test]
fn round_trip_unicode_key() {
    let c = encode_key("caf\u{e9}\u{2615}");
    assert_eq!(decode(&c), Ok(String::from("caf\u{e9}\u{2615}")));
}

#[test]
fn round_trip_survives_the_wire() {
    let c = encode_key("some-project");
    let wire = c.token().clone();
    let back = Cursor::from_token(wire);
    assert_eq!(decode(&back), Ok(String::from("some-project")));
}

#[test]
fn token_is_not_the_key_itself() {
    let c = encode_key("alpha");
    assert_ne!(c.token().as_str(), "alpha");
    assert_eq!(c.token().as_str(), "YWxwaGE=");
}

#[test]
fn rejects_invalid_alphabet() {
    let c = Cursor::from_token(String::from("!!not a token!!"));
    assert!(decode(&c).is_err());
}

#[test]
fn rejects_standard_alphabet_characters() {
    // '+' and '/' belong to the non-URL-safe alphabet.
    let c = Cursor::from_token(String::from("a+b/"));
    assert!(decode(&c).is_err());
}

#[test]
fn rejects_truncated_token() {
    let c = encode_key("alpha");
    let mut t = c.token().clone();
    t.pop();
    assert!(decode(&Cursor::from_token(t)).is_err());
}

#[test]
fn rejects_non_canonical_trailing_bits() {
    // Decodes as base64 to the same byte as "AA==", but only "AA==" is what
    // encoding that byte produces.
    let c = Cursor::from_token(String::from("AB=="));
    assert!(decode(&c).is_err());
}

#[test]
fn rejects_non_utf8_payload() {
    // Valid base64 of the single byte 0xFF, which no UTF-8 string has.
    let c = Cursor::from_token(String::from("_w=="));
    assert!(decode(&c).is_err());
}
