use luakit::random::{hex_encode, random_hex, RandomError, MAX_RANDOM_BYTES};

#[test]
fn creates_requested_hex_length() {
    let value = random_hex(12).unwrap();
    assert_eq!(value.len(), 24);
    assert!(value.bytes().all(|byte| byte.is_ascii_hexdigit()));
}

#[test]
fn hex_encode_renders_lower_case_pairs() {
    assert_eq!(hex_encode(&[0x00, 0x0f, 0xa5, 0xff]), "000fa5ff");
    assert_eq!(hex_encode(&[]), "");
}

#[test]
fn random_hex_refuses_too_many_bytes() {
    assert!(matches!(random_hex(MAX_RANDOM_BYTES + 1), Err(RandomError::TooManyBytes)));
    let max = random_hex(MAX_RANDOM_BYTES).unwrap();
    assert_eq!(max.len(), 2 * MAX_RANDOM_BYTES);
    assert!(max.bytes().all(|b| b.is_ascii_digit() || (b'a'..=b'f').contains(&b)));
    assert_eq!(random_hex(0).unwrap(), "");
}
