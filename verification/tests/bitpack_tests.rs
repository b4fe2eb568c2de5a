use pumpkin_worldedit::bitpack::{bits_for_palette_size, unpack_packed_long_array};
use pumpkin_worldedit::error::SchemError;

#[test]
fn bits_for_palette_size_reference_values() {
    assert_eq!(bits_for_palette_size(1), 4);
    assert_eq!(bits_for_palette_size(16), 4);
    assert_eq!(bits_for_palette_size(17), 5);
    assert_eq!(bits_for_palette_size(256), 8);
}

#[test]
fn bits_for_palette_size_edges() {
    assert_eq!(bits_for_palette_size(0), 4);
    assert_eq!(bits_for_palette_size(2), 4);
    assert_eq!(bits_for_palette_size(257), 9);
    assert_eq!(bits_for_palette_size(usize::MAX), 64);
}

#[test]
fn unpack_nibbles_from_one_word() {
    // Entries fill each word from the low bit: 0x4321 unpacks to 1,2,3,4.
    let longs: Vec<i64> = vec![0x4321];
    let r = unpack_packed_long_array(&longs, 4, 4).unwrap();
    assert_eq!(r, vec![1, 2, 3, 4]);
}

#[test]
fn unpack_crosses_words_without_splitting() {
    // At 5 bits per entry, 12 entries fit a word; entry 12 starts word 1.
    let mut w0: u64 = 0;
    for i in 0..12u64 {
        w0 |= (i + 1) << (5 * i);
    }
    let longs: Vec<i64> = vec![w0 as i64, 0b11111];
    let r = unpack_packed_long_array(&longs, 13, 5).unwrap();
    let expected: Vec<u32> = (1..=12u32).chain([31]).collect();
    assert_eq!(r, expected);
}

#[test]
fn unpack_rejects_zero_width() {
    let r = unpack_packed_long_array(&[0], 1, 0);
    assert_eq!(r.unwrap_err(), SchemError::InvalidBitsPerEntry);
}

#[test]
fn unpack_rejects_overwide_width() {
    let r = unpack_packed_long_array(&[0], 1, 65);
    assert_eq!(r.unwrap_err(), SchemError::InvalidBitsPerEntry);
}

#[test]
fn unpack_rejects_short_array() {
    let r = unpack_packed_long_array(&[0], 17, 4);
    assert_eq!(r.unwrap_err(), SchemError::PackedArrayTooShort);
}

#[test]
fn unpack_full_width_entries() {
    let longs: Vec<i64> = vec![-1, 7];
    let r = unpack_packed_long_array(&longs, 2, 64).unwrap();
    // A 64-bit entry is truncated to its low 32 bits.
    assert_eq!(r, vec![0xffff_ffffu32, 7]);
}
