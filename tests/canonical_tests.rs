use eventually::canonical::{content_hash, encode_into};
use eventually::json::JsonValue;

#[test]
fn content_hash_of_null_is_sha256_of_its_tag() {
    let expected: Vec<u8> = vec![
        0x6e, 0x34, 0x0b, 0x9c, 0xff, 0xb3, 0x7a, 0x98, 0x9c, 0xa5, 0x44, 0xe6, 0xbb, 0x78, 0x0a,
        0x2c, 0x78, 0x90, 0x1d, 0x3f, 0xb3, 0x37, 0x38, 0x76, 0x85, 0x11, 0xa3, 0x06, 0x17, 0xaf,
        0xa0, 0x1d,
    ];
    assert_eq!(content_hash(&JsonValue::Null), expected);
}

#[test]
fn encoding_of_a_small_object() {
    let v = JsonValue::Object(vec![("a".to_string(), JsonValue::Number(-1))]);
    let mut out = Vec::new();
    encode_into(&v, &mut out);
    let expected: Vec<u8> = vec![
        6, 0, 0, 0, 0, 0, 0, 0, 1, 0, 0, 0, 0, 0, 0, 0, 1, b'a', 2, 0x7f, 0xff, 0xff, 0xff,
        0xff, 0xff, 0xff, 0xff,
    ];
    assert_eq!(out, expected);
}

#[test]
fn encoding_tells_text_from_decimal() {
    let a = content_hash(&JsonValue::Text("1.5".to_string()));
    let b = content_hash(&JsonValue::Decimal("1.5".to_string()));
    assert_ne!(a, b);
    let c = content_hash(&JsonValue::Array(vec![JsonValue::Bool(true)]));
    let d = content_hash(&JsonValue::Array(vec![JsonValue::Bool(false)]));
    assert_ne!(c, d);
}
