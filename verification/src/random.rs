//! Random hex tokens: a bounded number of bytes from the operating
//! system's random source, rendered as lower-case hexadecimal.

use vstd::prelude::*;
use crate::text::chars_to_string;

verus! {

/// The largest number of random bytes one request may ask for.
pub const MAX_RANDOM_BYTES: usize = 4096;

/// The lower-case hexadecimal digit for a value below sixteen.
pub open spec fn hex_digit(v: u8) -> char
    recommends
        v < 16,
{
    if v < 10 {
        ((v + 48) as u8) as char
    } else {
        ((v + 87) as u8) as char
    }
}

/// The two lower-case hexadecimal digits of each byte, high nibble first.
pub open spec fn spec_hex(bytes: Seq<u8>) -> Seq<char>
    decreases bytes.len(),
{
    if bytes.len() == 0 {
        Seq::empty()
    } else {
        seq![hex_digit(bytes[0] / 16), hex_digit(bytes[0] % 16)] + spec_hex(bytes.drop_first())
    }
}

fn nibble_char(v: u8) -> (c: char)
    requires
        v < 16,
    ensures
        c == hex_digit(v),
{
    if v < 10 {
        ((v + 48) as u8) as char
    } else {
        ((v + 87) as u8) as char
    }
}

/// Renders bytes as lower-case hexadecimal, two digits per byte.
pub fn hex_encode(bytes: &[u8]) -> (r: String)
    ensures
        r@ == spec_hex(bytes@),
{
    let mut out: Vec<char> = Vec::new();
    let n = bytes.len();
    assert(bytes@.skip(0) == bytes@);
    assert(out@ + spec_hex(bytes@) == spec_hex(bytes@));
    for i in 0..n
        invariant
            n == bytes@.len(),
            spec_hex(bytes@) == out@ + spec_hex(bytes@.skip(i as int)),
    {
        let b = bytes[i];
        out.push(nibble_char(b / 16));
        out.push(nibble_char(b % 16));
        assert(bytes@.skip(i as int).drop_first() == bytes@.skip(i + 1));
    }
    assert(bytes@.skip(n as int) == Seq::<u8>::empty());
    assert(out@ + spec_hex(bytes@.skip(n as int)) == out@);
    chars_to_string(&out)
}

#[verifier::external_type_specification]
#[verifier::external_body]
pub struct ExRandomError(getrandom::Error);

/// Fills the buffer with bytes from the operating system's random source.
///
/// Trusted: calls `getrandom::fill`, which writes into the given slice and
/// never changes its length. The bytes are random, so nothing is claimed of
/// them.
#[verifier::external_body]
fn fill_random(buf: &mut Vec<u8>) -> (r: Result<(), getrandom::Error>)
    ensures
        final(buf)@.len() == old(buf)@.len(),
{
    getrandom::fill(buf.as_mut_slice())
}

/// Why a random token could not be made.
#[derive(Debug)]
pub enum RandomError {
    /// More than `MAX_RANDOM_BYTES` bytes were asked for.
    TooManyBytes,
    /// The random source failed.
    SourceFailed(getrandom::Error),
}

/// Whether a character is a lower-case hexadecimal digit.
pub open spec fn is_lower_hex(c: char) -> bool {
    ('0' <= c && c <= '9') || ('a' <= c && c <= 'f')
}

/// `size` random bytes as lower-case hexadecimal. Asking for more than
/// `MAX_RANDOM_BYTES` bytes is refused before the random source is read.
pub fn random_hex(size: usize) -> (r: Result<String, RandomError>)
    ensures
        size > MAX_RANDOM_BYTES ==> (r matches Err(e) && e is TooManyBytes),
        r matches Ok(s) ==> size <= MAX_RANDOM_BYTES && exists|bytes: Seq<u8>| bytes.len() == size && s@ == spec_hex(bytes),
        r matches Err(e) ==> (e is TooManyBytes <==> size > MAX_RANDOM_BYTES),
{
    if size > MAX_RANDOM_BYTES {
        return Err(RandomError::TooManyBytes);
    }
    let mut bytes: Vec<u8> = vec![0u8; size];
    match fill_random(&mut bytes) {
        Ok(()) => {
            let s = hex_encode(bytes.as_slice());
            assert(bytes@.len() == size);
            Ok(s)
        },
        Err(e) => Err(RandomError::SourceFailed(e)),
    }
}

/// Law: the hexadecimal form of `n` bytes has `2 * n` characters, each a
/// lower-case hexadecimal digit.
pub proof fn lemma_hex_shape(bytes: Seq<u8>)
    ensures
        spec_hex(bytes).len() == 2 * bytes.len(),
        forall|i: int| 0 <= i < spec_hex(bytes).len() ==> is_lower_hex(#[trigger] spec_hex(bytes)[i]),
    decreases bytes.len(),
{
    if bytes.len() > 0 {
        lemma_hex_shape(bytes.drop_first());
        let head = seq![hex_digit(bytes[0] / 16), hex_digit(bytes[0] % 16)];
        let tail = spec_hex(bytes.drop_first());
        assert forall|i: int| 0 <= i < spec_hex(bytes).len() implies is_lower_hex(#[trigger] spec_hex(bytes)[i]) by {
            if i >= 2 {
                assert(spec_hex(bytes)[i] == tail[i - 2]);
            } else {
                assert(spec_hex(bytes)[i] == head[i]);
            }
        }
    }
}

} // verus!
