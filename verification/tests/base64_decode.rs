use base64::Engine as _;
use luakit::base64::{decode, Base64Error, MAX_INPUT_BYTES};

#[test]
fn decodes_url_safe_and_standard_values() {
    assert_eq!(decode("_w").unwrap(), vec![0xff]);
    assert_eq!(decode("/w==").unwrap(), vec![0xff]);
    assert!(decode("!").is_err());
}

#[test]
fn rejects_input_over_cap() {
    let over = "A".repeat(MAX_INPUT_BYTES + 1);
    assert!(matches!(decode(&over), Err(Base64Error::InputTooLarge)));
}

#[test]
fn decode_prefers_url_safe_alphabet() {
    // "-_" is URL-safe only; "+/" is standard only.
    assert_eq!(decode("-_8").unwrap(), vec![0xfb, 0xff]);
    assert_eq!(decode("+/8=").unwrap(), vec![0xfb, 0xff]);
    assert_eq!(decode("aGVsbG8").unwrap(), b"hello".to_vec());
    assert_eq!(decode("aGVsbG8=").unwrap(), b"hello".to_vec());
}

#[test]
fn decode_reports_invalid_input() {
    assert!(matches!(decode("a"), Err(Base64Error::Invalid(_))));
    assert_eq!(decode("").unwrap(), Vec::<u8>::new());
}

#[test]
fn decode_accepts_input_at_cap() {
    let at_cap = "A".repeat(MAX_INPUT_BYTES);
    assert_eq!(decode(&at_cap).unwrap().len(), MAX_INPUT_BYTES / 4 * 3);
}

#[test]
fn decode_inverts_either_encoding() {
    let samples: Vec<Vec<u8>> = vec![vec![], vec![0xff], b"hello world".to_vec(), (0u8..=255).collect()];
    for b in samples {
        let url_safe = base64::engine::general_purpose::URL_SAFE_NO_PAD.encode(&b);
        let standard = base64::engine::general_purpose::STANDARD.encode(&b);
        assert_eq!(decode(&url_safe).unwrap(), b);
        assert_eq!(decode(&standard).unwrap(), b);
    }
}
