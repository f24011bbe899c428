//! Base64 decoding that accepts both the URL-safe alphabet without padding
//! and the standard alphabet with padding, up to a size limit.

use vstd::prelude::*;
use vstd::string::StringSliceAdditionalSpecFns;
use ::base64::Engine;

verus! {

/// The largest input, in bytes, that `decode` accepts.
pub const MAX_INPUT_BYTES: usize = 16777216;

#[verifier::external_type_specification]
#[verifier::external_body]
pub struct ExDecodeError(::base64::DecodeError);

/// The bytes that the URL-safe, unpadded engine decodes from `input`, or
/// `None` when it rejects it.
pub uninterp spec fn url_safe_no_pad_decoding(input: Seq<u8>) -> Option<Seq<u8>>;

/// The bytes that the standard, padded engine decodes from `input`, or
/// `None` when it rejects it.
pub uninterp spec fn standard_decoding(input: Seq<u8>) -> Option<Seq<u8>>;

/// The text that `Engine::encode` on the URL-safe, unpadded engine writes
/// for `bytes`.
pub uninterp spec fn url_safe_no_pad_encoding(bytes: Seq<u8>) -> Seq<u8>;

/// The text that `Engine::encode` on the standard, padded engine writes for
/// `bytes`.
pub uninterp spec fn standard_encoding(bytes: Seq<u8>) -> Seq<u8>;

/// Decodes with the URL-safe alphabet, no padding.
///
/// Trusted: calls `Engine::decode` on `base64::engine::general_purpose::URL_SAFE_NO_PAD`,
/// a function of the input alone. The contract also claims two facts of
/// the engines' source: the engine decodes its own encoding of any bytes
/// back to them; and when it accepts the standard engine's encoding of
/// some bytes (one without `+`, `/` and `=`, whose other characters the two
/// alphabets share), it decodes it to the same bytes.
#[verifier::external_body]
fn decode_url_safe_no_pad(input: &[u8]) -> (r: Result<Vec<u8>, ::base64::DecodeError>)
    ensures
        match r {
            Ok(b) => url_safe_no_pad_decoding(input@) == Some(b@),
            Err(_) => url_safe_no_pad_decoding(input@) is None,
        },
        (exists|b: Seq<u8>| input@ == #[trigger] url_safe_no_pad_encoding(b)) ==> r is Ok,
        r matches Ok(out) ==> forall|b: Seq<u8>|
            #![trigger url_safe_no_pad_encoding(b)]
            #![trigger standard_encoding(b)]
            input@ == url_safe_no_pad_encoding(b) || input@ == standard_encoding(b) ==> out@ == b,
{
    ::base64::engine::general_purpose::URL_SAFE_NO_PAD.decode(input)
}

/// Decodes with the standard alphabet and padding.
///
/// Trusted: calls `Engine::decode` on `base64::engine::general_purpose::STANDARD`,
/// a function of the input alone. The contract also claims that the engine
/// decodes its own encoding of any bytes back to them.
#[verifier::external_body]
fn decode_standard(input: &[u8]) -> (r: Result<Vec<u8>, ::base64::DecodeError>)
    ensures
        match r {
            Ok(b) => standard_decoding(input@) == Some(b@),
            Err(_) => standard_decoding(input@) is None,
        },
        (exists|b: Seq<u8>| input@ == #[trigger] standard_encoding(b)) ==> r is Ok,
        r matches Ok(out) ==> forall|b: Seq<u8>| input@ == #[trigger] standard_encoding(b) ==> out@ == b,
{
    ::base64::engine::general_purpose::STANDARD.decode(input)
}

/// Why a Base64 input was refused.
#[derive(Debug)]
pub enum Base64Error {
    /// The input is longer than `MAX_INPUT_BYTES` bytes.
    InputTooLarge,
    /// Neither alphabet decodes the input; this is the standard engine's error.
    Invalid(::base64::DecodeError),
}

/// The decoding of a Base64 text: URL-safe without padding when that
/// succeeds, the standard alphabet with padding otherwise.
pub open spec fn base64_decoding(input: Seq<u8>) -> Option<Seq<u8>> {
    match url_safe_no_pad_decoding(input) {
        Some(b) => Some(b),
        None => standard_decoding(input),
    }
}

/// Decodes Base64 text, trying the URL-safe alphabet without padding first
/// and the standard alphabet with padding second. Inputs longer than
/// `MAX_INPUT_BYTES` bytes are refused before any decoding.
pub fn decode(value: &str) -> (r: Result<Vec<u8>, Base64Error>)
    ensures
        value.len() > MAX_INPUT_BYTES ==> (r matches Err(e) && e is InputTooLarge),
        value.len() <= MAX_INPUT_BYTES ==> match base64_decoding(value.spec_bytes()) {
            Some(b) => (r matches Ok(out) && out@ == b),
            None => (r matches Err(e) && e is Invalid),
        },
        forall|b: Seq<u8>|
            #![trigger url_safe_no_pad_encoding(b)]
            #![trigger standard_encoding(b)]
            value.len() <= MAX_INPUT_BYTES && (value.spec_bytes() == url_safe_no_pad_encoding(b)
                || value.spec_bytes() == standard_encoding(b)) ==> (r matches Ok(out) && out@ == b),
{
    if value.len() > MAX_INPUT_BYTES {
        return Err(Base64Error::InputTooLarge);
    }
    let bytes = value.as_bytes();
    match decode_url_safe_no_pad(bytes) {
        Ok(out) => Ok(out),
        Err(_) => {
            proof {
                assert forall|b: Seq<u8>| bytes@ != #[trigger] url_safe_no_pad_encoding(b) by {
                    if bytes@ == url_safe_no_pad_encoding(b) {
                        assert(exists|c: Seq<u8>| bytes@ == #[trigger] url_safe_no_pad_encoding(c));
                    }
                }
            }
            match decode_standard(bytes) {
                Ok(out) => Ok(out),
                Err(e) => {
                    proof {
                        assert forall|b: Seq<u8>| bytes@ != #[trigger] standard_encoding(b) by {
                            if bytes@ == standard_encoding(b) {
                                assert(exists|c: Seq<u8>| bytes@ == #[trigger] standard_encoding(c));
                            }
                        }
                    }
                    Err(Base64Error::Invalid(e))
                },
            }
        },
    }
}

} // verus!
