use pumpkin_worldedit::error::SchemError;
use pumpkin_worldedit::varint::{decode_varints, encode_varints};

#[test]
fn varint_round_trip_reference_values() {
    let values: Vec<i32> = vec![0, 127, 128, 16384, 2147483647];
    let encoded = encode_varints(&values);
    let decoded = decode_varints(&encoded, 5).unwrap();
    assert_eq!(decoded, values);
}

#[test]
fn varint_zero_is_one_byte() {
    assert_eq!(encode_varints(&[0]), vec![0u8]);
}

#[test]
fn varint_known_encodings() {
    assert_eq!(encode_varints(&[1]), vec![1u8]);
    assert_eq!(encode_varints(&[127]), vec![0x7fu8]);
    assert_eq!(encode_varints(&[128]), vec![0x80u8, 0x01]);
    assert_eq!(encode_varints(&[300]), vec![0xacu8, 0x02]);
}

#[test]
fn varint_negative_round_trip() {
    let values: Vec<i32> = vec![-1, i32::MIN, -12345];
    let encoded = encode_varints(&values);
    assert_eq!(decode_varints(&encoded, 3).unwrap(), values);
}

#[test]
fn varint_truncated_stream_fails() {
    let r = decode_varints(&[0x80], 1);
    assert_eq!(r.unwrap_err(), SchemError::TruncatedVarint);
}

#[test]
fn varint_oversized_value_fails() {
    let r = decode_varints(&[0xff, 0xff, 0xff, 0xff, 0xff, 0x01], 1);
    assert_eq!(r.unwrap_err(), SchemError::OversizedVarint);
}

#[test]
fn varint_stops_early_at_clean_boundary() {
    // Fewer values than expected, ending exactly at a value boundary.
    let r = decode_varints(&[0x05, 0x07], 5).unwrap();
    assert_eq!(r, vec![5, 7]);
}

#[test]
fn varint_error_message() {
    assert_eq!(SchemError::TruncatedVarint.message(), "Unexpected end of varint data");
    assert_eq!(SchemError::OversizedVarint.message(), "Varint too large");
}

#[test]
fn varint_five_full_groups_decode() {
    // Five groups carrying 32 significant bits: u32::MAX, read back as -1.
    let r = decode_varints(&[0xff, 0xff, 0xff, 0xff, 0x0f], 1).unwrap();
    assert_eq!(r, vec![-1]);
}
