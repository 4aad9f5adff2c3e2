use alti2::checksum::checksum;
use alti2::cipher::Cipher;
use alti2::error::ProtocolError;
use alti2::frame::{decode_response, response_remaining_len, Command};
use alti2::identity::{DeviceInfo, ProductType};

static TYPE0_RESPONSE: &[u8] = &[
    0x1E, 0x00, 0x05, 0x10, 0x03, 0x59, 0x31, 0x38, 0x33, 0x36, 0x34, 0x31, 0x20, 0x20, 0x02,
    0x07, 0x01, 0x00, 0x20, 0x01, 0x00, 0x00, 0x00, 0x00, 0x00, 0x00, 0x00, 0x20, 0x05, 0x00,
    0x00, 0x38,
];

#[test]
fn test_cipher_roundtrip() {
    static TEST_PAYLOAD: &[u8] = &[1, 170, 170];
    let cipher = Cipher::from_type0_bytes(TYPE0_RESPONSE);
    let encrypted = cipher.encrypt(TEST_PAYLOAD);
    assert_eq!(&cipher.decrypt(&encrypted)[..TEST_PAYLOAD.len()], TEST_PAYLOAD);
}

#[test]
fn cipher_roundtrip_multiple_of_32() {
    let cipher = Cipher::from_type0_bytes(TYPE0_RESPONSE);
    let payload: Vec<u8> = (0u8..64).collect();
    let encrypted = cipher.encrypt(&payload);
    assert_eq!(encrypted.len(), 64);
    assert_eq!(cipher.decrypt(&encrypted), payload);
}

#[test]
fn cipher_pads_to_32_bytes() {
    let cipher = Cipher::from_type0_bytes(TYPE0_RESPONSE);
    assert_eq!(cipher.encrypt(&[7u8; 3]).len(), 32);
    assert_eq!(cipher.encrypt(&[7u8; 32]).len(), 32);
    assert_eq!(cipher.encrypt(&[7u8; 33]).len(), 64);
    assert_eq!(cipher.encrypt(&[]).len(), 0);
    // The zero padding is visible in decrypted output past the original
    // length.
    let decrypted = cipher.decrypt(&cipher.encrypt(&[7u8; 3]));
    assert_eq!(&decrypted[..3], &[7u8, 7, 7]);
    assert_eq!(&decrypted[3..], &[0u8; 29]);
}

#[test]
fn cipher_single_block_roundtrip() {
    let cipher = Cipher::from_type0_bytes(TYPE0_RESPONSE);
    let words = [0xDEADBEEFu32, 0x01234567];
    let enc = cipher.encrypt_single(&words);
    assert_ne!(enc, words);
    let dec = cipher.decrypt_single(&enc);
    assert_eq!(dec, words);
}

#[test]
fn encode_identity_command() {
    assert_eq!(Command::GetInfo.to_bytes(), b"018080".to_vec());
}

#[test]
fn checksum_wraps_at_8_bits() {
    assert_eq!(checksum(&[]), 0);
    assert_eq!(checksum(&[0xFF, 0x02]), 0x01);
    assert_eq!(checksum(&[0x80]), 0x80);
}

#[test]
fn checksum_of_concatenation_continues_partial_sum() {
    let a: Vec<u8> = vec![0x10, 0xF0, 0x33];
    let b: Vec<u8> = vec![0xEE, 0x01, 0x7F, 0x80];
    let mut joined = a.clone();
    joined.extend_from_slice(&b);
    let mut acc = checksum(&a);
    for byte in &b {
        acc = acc.wrapping_add(*byte);
    }
    assert_eq!(checksum(&joined), acc);
}

#[test]
fn decode_identity_payload() {
    let info = DeviceInfo::try_from(TYPE0_RESPONSE).expect("payload must validate");
    assert_eq!(info.sw_version.major, 1);
    assert_eq!(info.sw_version.minor, 0);
    assert_eq!(info.sw_version.revision, 3);
    assert_eq!(info.serial_number, "Y183641");
    assert_eq!(info.hardware_revision, 0x02);
    // The payload's product-type byte (offset 15) is 0x07.
    assert_eq!(info.product_type, ProductType::Atlas);
    assert_eq!(info.comm_type, 0x05);
    assert_eq!(info.nvram_config, 0x01);
}

#[test]
fn corrupted_payload_fails_checksum() {
    // Mutating any single byte of the checksummed region (bytes 1 through
    // second-to-last), without correcting the trailer, must be caught.
    for i in 1..TYPE0_RESPONSE.len() - 1 {
        let mut corrupted = TYPE0_RESPONSE.to_vec();
        corrupted[i] = corrupted[i].wrapping_add(1);
        let result = DeviceInfo::try_from(&corrupted);
        assert!(
            matches!(result, Err(ProtocolError::Checksum)),
            "corruption at byte {} was not detected",
            i
        );
    }
}

#[test]
fn unknown_product_code_decodes_to_unknown() {
    assert_eq!(ProductType::from_code(99), ProductType::Unknown);
    assert_eq!(ProductType::from_code(0), ProductType::Unknown);
    assert_eq!(ProductType::from_code(3), ProductType::Tracker);
    assert_eq!(ProductType::from_code(7), ProductType::Atlas);

    // A payload carrying code 99 (with its checksum trailer fixed up)
    // must decode without error.
    let mut payload = TYPE0_RESPONSE.to_vec();
    payload[15] = 99;
    let n = payload.len();
    let trailer = checksum(&payload[1..n - 1]);
    payload[n - 1] = trailer;
    let info = DeviceInfo::try_from(&payload).expect("unknown code must not fail");
    assert_eq!(info.product_type, ProductType::Unknown);
}

#[test]
fn non_ascii_serial_fails_with_encoding_error() {
    let mut payload = TYPE0_RESPONSE.to_vec();
    payload[6] = 0xC3;
    let n = payload.len();
    let trailer = checksum(&payload[1..n - 1]);
    payload[n - 1] = trailer;
    let result = DeviceInfo::try_from(&payload);
    assert!(matches!(result, Err(ProtocolError::Encoding)));
}

/// The raw byte stream the device would send for `TYPE0_RESPONSE`: the
/// length as two hex digits, then each remaining byte as two hex digits
/// followed by a space, then `\r\n`.
fn wire_response() -> Vec<u8> {
    let digits = b"0123456789ABCDEF";
    let mut raw = Vec::new();
    raw.push(digits[(TYPE0_RESPONSE[0] >> 4) as usize]);
    raw.push(digits[(TYPE0_RESPONSE[0] & 0x0F) as usize]);
    raw.push(b' ');
    for byte in &TYPE0_RESPONSE[1..] {
        raw.push(digits[(byte >> 4) as usize]);
        raw.push(digits[(byte & 0x0F) as usize]);
        raw.push(b' ');
    }
    raw.push(b'\r');
    raw.push(b'\n');
    raw
}

#[test]
fn decode_full_response_yields_payload() {
    let raw = wire_response();
    assert_eq!(decode_response(&raw), Ok(TYPE0_RESPONSE.to_vec()));
}

#[test]
fn short_response_fails_as_transport_error() {
    let raw = wire_response();
    // Shorter than the length its own header implies: never a panic or a
    // silent truncation.
    for len in [0, 1, 2, 3, 10, raw.len() - 1] {
        assert_eq!(
            decode_response(&raw[..len]),
            Err(ProtocolError::Transport),
            "length {} must fail as a short read",
            len
        );
    }
}

#[test]
fn malformed_response_fails_as_framing_error() {
    // Non-hex in the length header.
    assert_eq!(decode_response(b"ZZ whatever"), Err(ProtocolError::Framing));
    // Non-hex in the body after separators are stripped.
    let mut raw = wire_response();
    raw[4] = b'G';
    assert_eq!(decode_response(&raw), Err(ProtocolError::Framing));
}

#[test]
fn remaining_length_follows_declared_length() {
    // 0x1E content bytes, plus one checksum byte, three ASCII bytes each,
    // plus the two-byte terminator.
    assert_eq!(response_remaining_len(b"1E "), Ok((0x1E + 1) * 3 + 2));
    assert_eq!(response_remaining_len(b"00 "), Ok(5));
    assert_eq!(response_remaining_len(b"Q0 "), Err(ProtocolError::Framing));
    assert_eq!(response_remaining_len(b"1"), Err(ProtocolError::Transport));
}
