//! The device's wire framing.
//!
//! A request frame is uppercase ASCII hex with no separators: two digits
//! for the content length, two per content byte, and two for the checksum
//! of the content. A response uses the same triplet structure, but the
//! device may insert spaces between hex pairs and ends the message with
//! `\r\n`; all of those are stripped before hex-decoding.
//!
//! Because the transport is an unstructured byte stream, a response is
//! read in two phases: a fixed-size header first, from which the size of
//! the remainder is computed, then exactly that remainder. The two
//! computations stand here; the reads themselves are the caller's.

use vstd::prelude::*;
use crate::checksum::{checksum, spec_checksum};
use crate::error::ProtocolError;
use crate::hexcode::{
    hex_decode, hex_encode_upper, hex_val, is_hex_digit, is_hex_seq, spec_hex_decode,
    spec_hex_upper,
};

verus! {

/// A request kind the device understands. Exactly one is defined:
/// "get identity".
#[derive(Clone, Copy, Debug, PartialEq, Eq, Structural)]
pub enum Command {
    GetInfo,
}

/// The fixed content bytes of a command.
pub open spec fn spec_command_content(c: Command) -> Seq<u8> {
    match c {
        Command::GetInfo => seq![0x80u8],
    }
}

/// The full encoded frame for content `c`: hex length, hex content, hex
/// checksum of the content, all uppercase.
pub open spec fn spec_frame(c: Seq<u8>) -> Seq<u8> {
    spec_hex_upper(seq![c.len() as u8]) + spec_hex_upper(c) + spec_hex_upper(
        seq![spec_checksum(c)],
    )
}

impl Command {
    /// Encodes the command the way the device expects: the content length,
    /// the content and the content's checksum, each as uppercase ASCII hex.
    /// The identity command (content byte `0x80`) becomes `"018080"`.
    pub fn to_bytes(&self) -> (r: Vec<u8>)
        ensures
            r@ == spec_frame(spec_command_content(*self)),
    {
        let mut contents: Vec<u8> = Vec::new();
        contents.push(0x80);
        let mut len_byte: Vec<u8> = Vec::new();
        len_byte.push(contents.len() as u8);
        let mut ck_byte: Vec<u8> = Vec::new();
        ck_byte.push(checksum(contents.as_slice()));
        let mut out = hex_encode_upper(len_byte.as_slice());
        let mut mid = hex_encode_upper(contents.as_slice());
        let mut tail = hex_encode_upper(ck_byte.as_slice());
        out.append(&mut mid);
        out.append(&mut tail);
        proof {
            assert(contents@ =~= spec_command_content(*self));
            assert(len_byte@ =~= seq![spec_command_content(*self).len() as u8]);
            assert(ck_byte@ =~= seq![spec_checksum(spec_command_content(*self))]);
        }
        out
    }
}

/// Whether a byte is one of the separators the device may insert into a
/// response: space, carriage return, line feed.
pub open spec fn is_separator(b: u8) -> bool {
    b == 0x20 || b == 0x0d || b == 0x0a
}

/// The response bytes with every separator removed.
pub open spec fn strip_separators(s: Seq<u8>) -> Seq<u8>
    decreases s.len(),
{
    if s.len() == 0 {
        Seq::empty()
    } else if is_separator(s.last()) {
        strip_separators(s.drop_last())
    } else {
        strip_separators(s.drop_last()).push(s.last())
    }
}

/// The content length a response header declares: the value of its first
/// two bytes read as hex.
pub open spec fn spec_declared_len(s: Seq<u8>) -> int {
    hex_val(s[0]) * 16 + hex_val(s[1])
}

/// What decoding a raw response buffer yields.
///
/// The first two bytes must be hex digits and declare the content length
/// `L` (excluding the checksum byte). The buffer must then reach past the
/// three-byte header by `(L + 1) * 3 + 2` more bytes: three per remaining
/// payload byte in the device's `"XX "` convention, plus the `\r\n`
/// terminator. Everything consumed but the final byte is stripped of
/// separators and hex-decoded into the payload (declared length byte,
/// content, checksum trailer).
pub open spec fn spec_decode_response(raw: Seq<u8>) -> Result<Seq<u8>, ProtocolError> {
    if raw.len() < 3 {
        Err(ProtocolError::Transport)
    } else if !(is_hex_digit(raw[0]) && is_hex_digit(raw[1])) {
        Err(ProtocolError::Framing)
    } else if raw.len() < 3 + (spec_declared_len(raw) + 1) * 3 + 2 {
        Err(ProtocolError::Transport)
    } else {
        let body = strip_separators(raw.subrange(0, 2 + (spec_declared_len(raw) + 1) * 3 + 2));
        if is_hex_seq(body) {
            Ok(spec_hex_decode(body))
        } else {
            Err(ProtocolError::Framing)
        }
    }
}

/// A response buffer shorter than the length implied by its own header
/// fails as a transport error: it is never decoded, truncated or
/// accepted.
pub proof fn lemma_short_response_rejected(raw: Seq<u8>)
    requires
        raw.len() < 3 || (is_hex_digit(raw[0]) && is_hex_digit(raw[1]) && raw.len() < 3 + (
        spec_declared_len(raw) + 1) * 3 + 2),
    ensures
        spec_decode_response(raw) == Err::<Seq<u8>, ProtocolError>(ProtocolError::Transport),
{
}

/// How many more bytes must be read from the transport after the
/// three-byte response header `header`: three per remaining payload byte
/// (content plus checksum), plus the two-byte line terminator.
pub fn response_remaining_len(header: &[u8]) -> (r: Result<usize, ProtocolError>)
    ensures
        header@.len() < 2 ==> r == Err::<usize, ProtocolError>(ProtocolError::Transport),
        header@.len() >= 2 && !(is_hex_digit(header@[0]) && is_hex_digit(header@[1])) ==> r
            == Err::<usize, ProtocolError>(ProtocolError::Framing),
        header@.len() >= 2 && is_hex_digit(header@[0]) && is_hex_digit(header@[1]) ==> r
            == Ok::<usize, ProtocolError>(((spec_declared_len(header@) + 1) * 3 + 2) as usize),
    {
    if header.len() < 2 {
        return Err(ProtocolError::Transport);
    }
    let two = vstd::slice::slice_subrange(header, 0, 2);
    match hex_decode(two) {
        Ok(v) => {
            proof {
                assert(two@[0] == header@[0] && two@[1] == header@[1]);
                assert(spec_hex_decode(two@)[0] == (hex_val(two@[0]) * 16 + hex_val(
                    two@[1],
                )) as u8);
            }
            let declared = v[0] as usize;
            Ok((declared + 1) * 3 + 2)
        },
        Err(_) => Err(ProtocolError::Framing),
    }
}

/// Decodes a raw response buffer (already read from the transport) into
/// the full payload: declared length byte, content bytes, checksum
/// trailer. Fails with `Transport` when the buffer is shorter than its
/// own header implies, and with `Framing` on a malformed header or on
/// non-hex characters after the separators are stripped.
pub fn decode_response(raw: &[u8]) -> (r: Result<Vec<u8>, ProtocolError>)
    ensures
        match r {
            Ok(v) => spec_decode_response(raw@) is Ok && v@ == spec_decode_response(
                raw@,
            ).unwrap(),
            Err(e) => spec_decode_response(raw@) == Err::<Seq<u8>, ProtocolError>(e),
        },
{
    if raw.len() < 3 {
        return Err(ProtocolError::Transport);
    }
    let two = vstd::slice::slice_subrange(raw, 0, 2);
    let declared: usize;
    match hex_decode(two) {
        Ok(v) => {
            proof {
                assert(two@[0] == raw@[0] && two@[1] == raw@[1]);
                assert(spec_hex_decode(two@)[0] == (hex_val(two@[0]) * 16 + hex_val(
                    two@[1],
                )) as u8);
            }
            declared = v[0] as usize;
        },
        Err(_) => {
            return Err(ProtocolError::Framing);
        },
    }
    let used: usize = 2 + (declared + 1) * 3 + 2;
    if raw.len() < used + 1 {
        return Err(ProtocolError::Transport);
    }
    let mut body: Vec<u8> = Vec::new();
    let mut i: usize = 0;
    while i < used
        invariant
            i <= used,
            used <= raw@.len(),
            body@ == strip_separators(raw@.subrange(0, i as int)),
        decreases used - i,
    {
        proof {
            assert(raw@.subrange(0, i + 1).drop_last() =~= raw@.subrange(0, i as int));
        }
        let b = raw[i];
        if !(b == 0x20 || b == 0x0d || b == 0x0a) {
            body.push(b);
        }
        i = i + 1;
    }
    match hex_decode(body.as_slice()) {
        Ok(payload) => Ok(payload),
        Err(_) => Err(ProtocolError::Framing),
    }
}

} // verus!

