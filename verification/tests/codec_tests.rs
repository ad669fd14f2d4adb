use calibraw_core::codec::{
    arc_u16_is_empty, arc_u8_is_empty, decode_bytes_base64, decode_u16_le_base64,
    encode_bytes_base64, encode_u16_le_base64, u16_values_from_le_bytes, u16_values_to_le_bytes,
    PayloadDecodeError,
};

#[test]
fn bytes_use_standard_padded_base64() {
    assert_eq!(encode_bytes_base64(b"hello"), "aGVsbG8=");
    assert_eq!(encode_bytes_base64(&[]), "");
    assert_eq!(encode_bytes_base64(&[0xff, 0xfe]), "//4=");
    assert_eq!(decode_bytes_base64("aGVsbG8=").unwrap(), b"hello".to_vec());
    assert_eq!(decode_bytes_base64("not base64!"), Err(PayloadDecodeError::InvalidBase64));
}

#[test]
fn samples_round_trip_through_little_endian_base64() {
    let values = vec![0u16, 1, 0x1234, 0xffff];
    assert_eq!(u16_values_to_le_bytes(&values), vec![0, 0, 1, 0, 0x34, 0x12, 0xff, 0xff]);
    let encoded = encode_u16_le_base64(&values);
    assert_eq!(encoded, "AAABADQS//8=");
    assert_eq!(decode_u16_le_base64(&encoded).unwrap(), values);
    assert_eq!(u16_values_from_le_bytes(&[1, 2, 3]), Err(PayloadDecodeError::OddByteLength));
    assert_eq!(decode_u16_le_base64("AQID"), Err(PayloadDecodeError::OddByteLength));
    assert_eq!(PayloadDecodeError::OddByteLength.message(), "RGB16 patch byte length is odd");
}

#[test]
fn empty_payload_checks() {
    assert!(arc_u16_is_empty(&[]));
    assert!(!arc_u16_is_empty(&[1]));
    assert!(arc_u8_is_empty(&[]));
    assert!(!arc_u8_is_empty(&[0]));
}
