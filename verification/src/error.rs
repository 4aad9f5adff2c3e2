//! Error kinds of the protocol core.
//!
//! Every failure of an exchange is terminal for that exchange: the core
//! performs no retry. Unknown product-type codes are deliberately not an
//! error (they decode to a sentinel variant instead).

use vstd::prelude::*;

verus! {

/// What went wrong while decoding a response or an identity record.
#[derive(Clone, Copy, Debug, PartialEq, Eq, Structural)]
pub enum ProtocolError {
    /// The buffer holds fewer bytes than the exchange needs (short read,
    /// timeout, device not present).
    Transport,
    /// Malformed length header, or non-hex characters after the
    /// separators are stripped.
    Framing,
    /// The computed checksum does not match the trailing byte: corruption
    /// or protocol desync.
    Checksum,
    /// The serial-number bytes are not valid text.
    Encoding,
}

} // verus!
