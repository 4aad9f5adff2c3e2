//! The device-identity record: the decoded form of a Type0 payload.
//!
//! A payload is accepted only when the checksum over bytes 1 through the
//! second-to-last matches the trailing byte; the fields then come from
//! fixed offsets. An unrecognized product-type code is not an error: it
//! decodes to the `Unknown` variant, so newer hardware does not break
//! identity queries.

use vstd::prelude::*;
use crate::checksum::{checksum, spec_checksum};
use crate::error::ProtocolError;

verus! {

/// The kind of hardware a product-type code names. Codes outside the
/// defined range degrade to `Unknown`.
#[derive(Clone, Copy, Debug, PartialEq, Eq, Structural)]
pub enum ProductType {
    Neptune,
    Wave,
    Tracker,
    DataLogger,
    N3,
    N3A,
    Atlas,
    Unknown,
}

/// The product type a raw code decodes to: codes 1 through 7 name the
/// known hardware kinds, anything else is `Unknown`.
pub open spec fn spec_product_type(code: u8) -> ProductType {
    if code == 1 {
        ProductType::Neptune
    } else if code == 2 {
        ProductType::Wave
    } else if code == 3 {
        ProductType::Tracker
    } else if code == 4 {
        ProductType::DataLogger
    } else if code == 5 {
        ProductType::N3
    } else if code == 6 {
        ProductType::N3A
    } else if code == 7 {
        ProductType::Atlas
    } else {
        ProductType::Unknown
    }
}

impl ProductType {
    /// Maps a raw product-type code to its variant.
    pub fn from_code(code: u8) -> (r: Self)
        ensures
            r == spec_product_type(code),
    {
        match code {
            1 => ProductType::Neptune,
            2 => ProductType::Wave,
            3 => ProductType::Tracker,
            4 => ProductType::DataLogger,
            5 => ProductType::N3,
            6 => ProductType::N3A,
            7 => ProductType::Atlas,
            _ => ProductType::Unknown,
        }
    }
}

/// The device's software version, split out of the payload's version
/// nibbles and revision byte.
#[derive(Clone, Copy, Debug, PartialEq, Eq, Structural)]
pub struct SoftwareVersion {
    pub major: usize,
    pub minor: usize,
    pub revision: usize,
}

/// The decoded identity record of a device.
pub struct DeviceInfo {
    pub comm_type: u8,
    pub sw_version: SoftwareVersion,
    pub serial_number: String,
    pub hardware_revision: u8,
    pub product_type: ProductType,
    pub nvram_config: u8,
}

/// Whether an ASCII byte is whitespace (space, or one of the `\t` .. `\r`
/// control characters).
pub open spec fn is_ascii_whitespace(b: u8) -> bool {
    b == 0x20 || (0x09 <= b && b <= 0x0d)
}

/// The sequence with trailing whitespace removed.
pub open spec fn rtrim(s: Seq<u8>) -> Seq<u8>
    decreases s.len(),
{
    if s.len() > 0 && is_ascii_whitespace(s.last()) {
        rtrim(s.drop_last())
    } else {
        s
    }
}

/// The characters an ASCII byte sequence spells.
pub open spec fn ascii_chars(s: Seq<u8>) -> Seq<char> {
    Seq::new(s.len(), |i: int| s[i] as char)
}

/// The checksummed region of a payload: bytes 1 through second-to-last.
pub open spec fn spec_checked_region(b: Seq<u8>) -> Seq<u8> {
    b.subrange(1, b.len() - 1)
}

/// Whether a payload's trailing byte matches the checksum of its
/// checksummed region.
pub open spec fn spec_payload_checksum_ok(b: Seq<u8>) -> bool {
    spec_checksum(spec_checked_region(b)) == b[b.len() - 1]
}

/// The raw serial-number bytes of a payload: offsets 5 through 13.
pub open spec fn spec_serial_raw(b: Seq<u8>) -> Seq<u8> {
    b.subrange(5, 14)
}

/// Whether the serial-number bytes are valid text: plain ASCII.
pub open spec fn spec_serial_text_ok(b: Seq<u8>) -> bool {
    forall|i: int| 0 <= i < spec_serial_raw(b).len() ==> spec_serial_raw(b)[i] < 128
}

/// Corrupting any single byte within the checksummed region of a payload
/// that validates, without correcting the trailing checksum byte, makes
/// validation fail: decoding such a payload reports a checksum mismatch.
pub proof fn lemma_single_corruption_detected(p: Seq<u8>, q: Seq<u8>, i: int)
    requires
        p.len() >= 3,
        q.len() == p.len(),
        1 <= i < p.len() - 1,
        q[i] != p[i],
        forall|j: int| 0 <= j < p.len() && j != i ==> q[j] == p[j],
        spec_payload_checksum_ok(p),
    ensures
        !spec_payload_checksum_ok(q),
{
    assert(spec_checked_region(q) =~= spec_checked_region(p).update(i - 1, q[i]));
    crate::checksum::lemma_checksum_detects_single_change(
        spec_checked_region(p),
        i - 1,
        q[i],
    );
    assert(q[q.len() - 1] == p[p.len() - 1]);
}

/// Relies on `String::from_utf8`: ASCII bytes are valid UTF-8 and decode
/// to the characters with the same code points.
#[verifier::external_body]
fn ascii_to_string(bytes: &[u8]) -> (r: String)
    requires
        forall|i: int| 0 <= i < bytes@.len() ==> bytes@[i] < 128,
    ensures
        r@ == ascii_chars(bytes@),
{
    String::from_utf8(bytes.to_vec()).unwrap()
}

/// Whether a byte is ASCII whitespace, executably.
fn is_whitespace_byte(b: u8) -> (r: bool)
    ensures
        r == is_ascii_whitespace(b),
{
    b == 0x20 || (0x09 <= b && b <= 0x0d)
}

impl DeviceInfo {
    /// Decodes a validated Type0 payload into an identity record.
    ///
    /// Fails with `Checksum` when the trailing byte does not match the
    /// checksum of bytes 1 through second-to-last, and with `Encoding`
    /// when the serial-number bytes are not ASCII text; succeeds exactly
    /// otherwise, extracting each field from its fixed offset and
    /// right-trimming whitespace off the serial number.
    pub fn try_from(bytes: &[u8]) -> (r: Result<DeviceInfo, ProtocolError>)
        requires
            bytes@.len() >= 17,
        ensures
            !spec_payload_checksum_ok(bytes@) ==> r == Err::<DeviceInfo, ProtocolError>(
                ProtocolError::Checksum,
            ),
            spec_payload_checksum_ok(bytes@) && !spec_serial_text_ok(bytes@) ==> r == Err::<
                DeviceInfo,
                ProtocolError,
            >(ProtocolError::Encoding),
            spec_payload_checksum_ok(bytes@) && spec_serial_text_ok(bytes@) ==> r is Ok
                && ({
                let info = r.unwrap();
                &&& info.comm_type == bytes@[2]
                &&& info.sw_version.major == (bytes@[3] >> 4) as usize
                &&& info.sw_version.minor == (bytes@[3] & 0x0f) as usize
                &&& info.sw_version.revision == bytes@[4] as usize
                &&& info.serial_number@ == ascii_chars(rtrim(spec_serial_raw(bytes@)))
                &&& info.hardware_revision == bytes@[14]
                &&& info.product_type == spec_product_type(bytes@[15])
                &&& info.nvram_config == bytes@[16]
            }),
    {
        let n = bytes.len();
        let region = vstd::slice::slice_subrange(bytes, 1, n - 1);
        if checksum(region) != bytes[n - 1] {
            proof {
                assert(region@ =~= spec_checked_region(bytes@));
            }
            return Err(ProtocolError::Checksum);
        }
        proof {
            assert(region@ =~= spec_checked_region(bytes@));
            assert(spec_payload_checksum_ok(bytes@));
        }
        let mut i: usize = 5;
        while i < 14
            invariant
                5 <= i <= 14,
                bytes@.len() >= 17,
                spec_payload_checksum_ok(bytes@),
                forall|j: int| 5 <= j < i ==> bytes@[j] < 128,
            decreases 14 - i,
        {
            if bytes[i] >= 128 {
                proof {
                    assert(spec_serial_raw(bytes@)[i - 5] == bytes@[i as int]);
                }
                return Err(ProtocolError::Encoding);
            }
            i = i + 1;
        }
        proof {
            assert forall|j: int| 0 <= j < spec_serial_raw(bytes@).len() implies spec_serial_raw(
                bytes@,
            )[j] < 128 by {
                assert(spec_serial_raw(bytes@)[j] == bytes@[5 + j]);
            }
        }
        let mut end: usize = 14;
        while end > 5 && is_whitespace_byte(bytes[end - 1])
            invariant
                5 <= end <= 14,
                bytes@.len() >= 17,
                spec_payload_checksum_ok(bytes@),
                spec_serial_text_ok(bytes@),
                rtrim(bytes@.subrange(5, end as int)) == rtrim(spec_serial_raw(bytes@)),
            decreases end,
        {
            proof {
                assert(bytes@.subrange(5, end as int).drop_last() =~= bytes@.subrange(
                    5,
                    end - 1,
                ));
            }
            end = end - 1;
        }
        proof {
            let trimmed = bytes@.subrange(5, end as int);
            assert(rtrim(trimmed) == trimmed);
            assert(forall|j: int| 0 <= j < trimmed.len() ==> trimmed[j] == bytes@[5 + j]
                && trimmed[j] < 128);
        }
        let serial = ascii_to_string(vstd::slice::slice_subrange(bytes, 5, end));
        Ok(DeviceInfo {
            comm_type: bytes[2],
            sw_version: SoftwareVersion {
                major: (bytes[3] >> 4) as usize,
                minor: (bytes[3] & 0x0f) as usize,
                revision: bytes[4] as usize,
            },
            serial_number: serial,
            hardware_revision: bytes[14],
            product_type: ProductType::from_code(bytes[15]),
            nvram_config: bytes[16],
        })
    }
}

} // verus!
