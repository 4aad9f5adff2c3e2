//! ASCII-hex transcoding, as the device's wire format uses it.
//!
//! The mathematical meaning of the encoding is given by the spec functions
//! here; the executable work is done by the `hex` crate behind two trusted
//! wrappers whose contracts state that meaning exactly.

use vstd::prelude::*;

verus! {

/// The uppercase hex digit (as an ASCII byte) for a nibble `n < 16`.
pub open spec fn hex_digit_upper(n: u8) -> u8 {
    if n < 10 {
        (0x30 + n) as u8
    } else {
        (0x41 + (n - 10)) as u8
    }
}

/// Uppercase hex encoding of a byte sequence: two digits per byte,
/// high nibble first.
pub open spec fn spec_hex_upper(s: Seq<u8>) -> Seq<u8> {
    Seq::new(2 * s.len(), |i: int|
        if i % 2 == 0 {
            hex_digit_upper(s[i / 2] >> 4)
        } else {
            hex_digit_upper(s[i / 2] & 0x0f)
        }
    )
}

/// Whether an ASCII byte is a hex digit (either case).
pub open spec fn is_hex_digit(c: u8) -> bool {
    (0x30 <= c && c <= 0x39) || (0x41 <= c && c <= 0x46) || (0x61 <= c && c <= 0x66)
}

/// The nibble value of a hex-digit byte (zero on a non-digit).
pub open spec fn hex_val(c: u8) -> u8 {
    if 0x30 <= c && c <= 0x39 {
        (c - 0x30) as u8
    } else if 0x41 <= c && c <= 0x46 {
        (c - 0x41 + 10) as u8
    } else if 0x61 <= c && c <= 0x66 {
        (c - 0x61 + 10) as u8
    } else {
        0
    }
}

/// Whether a byte sequence is a well-formed hex string: even length and
/// every byte a hex digit.
pub open spec fn is_hex_seq(s: Seq<u8>) -> bool {
    s.len() % 2 == 0 && forall|i: int| 0 <= i < s.len() ==> is_hex_digit(s[i])
}

/// Hex decoding of a well-formed hex string: one byte per digit pair.
pub open spec fn spec_hex_decode(s: Seq<u8>) -> Seq<u8> {
    Seq::new(s.len() / 2, |i: int| (hex_val(s[2 * i]) * 16 + hex_val(s[2 * i + 1])) as u8)
}

/// The error type of `hex::decode`.
#[verifier::external_type_specification]
#[verifier::external_body]
pub struct ExFromHexError(hex::FromHexError);

/// Relies on `hex::encode_upper`: each input byte becomes two uppercase
/// hex digits, high nibble first, from the table `"0123456789ABCDEF"`.
#[verifier::external_body]
pub(crate) fn hex_encode_upper(data: &[u8]) -> (r: Vec<u8>)
    ensures
        r@ == spec_hex_upper(data@),
{
    hex::encode_upper(data).into_bytes()
}

/// Relies on `hex::decode`: fails on an odd-length input (`OddLength`) or
/// on any byte outside `0-9`/`a-f`/`A-F` (`InvalidHexCharacter`), and
/// otherwise decodes each digit pair to the byte `hi * 16 + lo`.
#[verifier::external_body]
pub(crate) fn hex_decode(data: &[u8]) -> (r: Result<Vec<u8>, hex::FromHexError>)
    ensures
        r is Ok <==> is_hex_seq(data@),
        r is Ok ==> r.unwrap()@ == spec_hex_decode(data@),
{
    hex::decode(data)
}

} // verus!
