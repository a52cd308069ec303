use variant_fields::cursor::{signed_of, ByteCursor};
use variant_fields::error::CursorError;

#[test]
fn numbers_are_read_least_significant_byte_first() {
    let mut bytes = vec![0x01, 0x02, 0x01, 0x04, 0x03, 0x02, 0x01, 0xFE, 0xFF, 0xFF, 0xFF];
    bytes.extend_from_slice(&1.5f32.to_le_bytes());
    let mut cursor = ByteCursor::new(&bytes);
    assert_eq!(cursor.position(), 0);
    assert_eq!(cursor.remaining(), 15);
    assert_eq!(cursor.read_u8(), Ok(1));
    assert_eq!(cursor.read_u16(), Ok(0x0102));
    assert_eq!(cursor.read_u32(), Ok(0x0102_0304));
    assert_eq!(cursor.read_i32(), Ok(-2));
    assert_eq!(cursor.read_f32_bits().map(f32::from_bits), Ok(1.5));
    assert_eq!(cursor.position(), 15);
    assert!(cursor.is_at_end());
}

#[test]
fn the_ends_of_the_signed_range_are_read() {
    let bytes = [0x00, 0x00, 0x00, 0x80, 0xFF, 0xFF, 0xFF, 0x7F, 0xFF, 0xFF, 0xFF, 0xFF];
    let mut cursor = ByteCursor::new(&bytes);
    assert_eq!(cursor.read_i32(), Ok(i32::MIN));
    assert_eq!(cursor.read_i32(), Ok(i32::MAX));
    assert_eq!(cursor.read_i32(), Ok(-1));
    assert_eq!(signed_of(0), 0);
    assert_eq!(signed_of(0x8000_0000), i32::MIN);
    assert_eq!(signed_of(0xFFFF_FFFF), -1);
}

#[test]
fn the_largest_unsigned_numbers_are_read() {
    let bytes = [0xFF, 0xFF, 0xFF, 0xFF, 0xFF, 0xFF, 0xFF];
    let mut cursor = ByteCursor::new(&bytes);
    assert_eq!(cursor.read_u32(), Ok(u32::MAX));
    assert_eq!(cursor.read_u16(), Ok(u16::MAX));
    assert_eq!(cursor.read_u8(), Ok(u8::MAX));
}

#[test]
fn a_read_past_the_end_fails_and_moves_nothing() {
    let bytes = [7u8, 8, 9];
    let mut cursor = ByteCursor::new(&bytes);
    assert_eq!(cursor.read_u32(), Err(CursorError::TruncatedInput));
    assert_eq!(cursor.read_i32(), Err(CursorError::TruncatedInput));
    assert_eq!(cursor.read_f32_bits(), Err(CursorError::TruncatedInput));
    assert_eq!(cursor.read_bytes(4), Err(CursorError::TruncatedInput));
    assert_eq!(cursor.position(), 0);
    assert_eq!(cursor.read_u16(), Ok(0x0807));
    assert_eq!(cursor.read_u16(), Err(CursorError::TruncatedInput));
    assert_eq!(cursor.position(), 2);
    assert_eq!(cursor.read_u8(), Ok(9));
    assert_eq!(cursor.read_u8(), Err(CursorError::TruncatedInput));
    assert_eq!(cursor.position(), 3);
    assert_eq!(cursor.remaining(), 0);
}

#[test]
fn read_bytes_hands_out_the_next_bytes() {
    let bytes = [1u8, 2, 3, 4, 5];
    let mut cursor = ByteCursor::new(&bytes);
    assert_eq!(cursor.read_bytes(2), Ok(&bytes[0..2]));
    assert_eq!(cursor.read_bytes(0), Ok(&bytes[2..2]));
    assert_eq!(cursor.read_bytes(3), Ok(&bytes[2..5]));
    assert_eq!(cursor.read_bytes(0), Ok(&bytes[5..5]));
    assert!(cursor.is_at_end());
}

#[test]
fn a_length_prefixed_string_is_read_as_text() {
    let mut bytes = vec![4, 0, 0, 0];
    bytes.extend_from_slice(b"chr1");
    bytes.extend_from_slice(&[0, 0, 0, 0]);
    bytes.extend_from_slice(&[5, 0, 0, 0]);
    bytes.extend_from_slice("né€".as_bytes()[..5].as_ref());
    let mut cursor = ByteCursor::new(&bytes);
    assert_eq!(cursor.read_length_prefixed_string(), Ok("chr1".to_string()));
    assert_eq!(cursor.position(), 8);
    assert_eq!(cursor.read_length_prefixed_string(), Ok(String::new()));
    assert_eq!(cursor.position(), 12);
    assert_eq!(cursor.read_length_prefixed_string(), Err(CursorError::InvalidText));
    assert_eq!(cursor.position(), 12);
}

#[test]
fn text_of_several_bytes_a_character_is_read() {
    let text = "naïve €";
    let mut bytes = (text.len() as u32).to_le_bytes().to_vec();
    bytes.extend_from_slice(text.as_bytes());
    let mut cursor = ByteCursor::new(&bytes);
    assert_eq!(cursor.read_length_prefixed_string(), Ok(text.to_string()));
    assert!(cursor.is_at_end());
}

#[test]
fn bytes_that_are_no_text_are_refused() {
    for bad in [vec![0xFFu8], vec![0xC0, 0x80], vec![0xED, 0xA0, 0x80], vec![0xE2, 0x82]] {
        let mut bytes = (bad.len() as u32).to_le_bytes().to_vec();
        bytes.extend_from_slice(&bad);
        let mut cursor = ByteCursor::new(&bytes);
        assert_eq!(cursor.read_length_prefixed_string(), Err(CursorError::InvalidText));
        assert_eq!(cursor.position(), 0);
    }
}

#[test]
fn a_string_shorter_than_its_length_is_truncated() {
    let bytes = [5u8, 0, 0, 0, b'a', b'b'];
    let mut cursor = ByteCursor::new(&bytes);
    assert_eq!(cursor.read_length_prefixed_string(), Err(CursorError::TruncatedInput));
    assert_eq!(cursor.position(), 0);
    let short = [5u8, 0, 0];
    let mut cursor = ByteCursor::new(&short);
    assert_eq!(cursor.read_length_prefixed_string(), Err(CursorError::TruncatedInput));
    assert_eq!(cursor.position(), 0);
}
