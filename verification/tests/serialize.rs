use bumpalo::{self, collections::Vec, Bump};
use roc_gen::leb128::MAX_SIZE_ENCODED_U32;
use roc_gen::serialize::{
    decode_u32, overwrite_padded_u32_help, parse_string_bytes, parse_u32_or_panic, SerialBuffer,
    Serialize, SkipBytes,
};

fn help_u32(arena: &Bump, value: u32) -> Vec<'_, u8> {
    let mut buffer = Vec::with_capacity_in(MAX_SIZE_ENCODED_U32, arena);
    buffer.encode_u32(value);
    buffer
}

#[test]
fn test_encode_u32() {
    let a = &Bump::new();
    assert_eq!(help_u32(a, 0), &[0]);
    assert_eq!(help_u32(a, 64), &[64]);
    assert_eq!(help_u32(a, 0x7f), &[0x7f]);
    assert_eq!(help_u32(a, 0x80), &[0x80, 0x01]);
    assert_eq!(help_u32(a, 0x3fff), &[0xff, 0x7f]);
    assert_eq!(help_u32(a, 0x4000), &[0x80, 0x80, 0x01]);
    assert_eq!(help_u32(a, u32::MAX), &[0xff, 0xff, 0xff, 0xff, 0x0f]);
}

fn help_u64(arena: &Bump, value: u64) -> Vec<'_, u8> {
    let mut buffer = Vec::with_capacity_in(10, arena);
    buffer.encode_u64(value);
    buffer
}

#[test]
fn test_encode_u64() {
    let a = &Bump::new();
    assert_eq!(help_u64(a, 0), &[0]);
    assert_eq!(help_u64(a, 64), &[64]);
    assert_eq!(help_u64(a, 0x7f), &[0x7f]);
    assert_eq!(help_u64(a, 0x80), &[0x80, 0x01]);
    assert_eq!(help_u64(a, 0x3fff), &[0xff, 0x7f]);
    assert_eq!(help_u64(a, 0x4000), &[0x80, 0x80, 0x01]);
    assert_eq!(
        help_u64(a, u64::MAX),
        &[0xff, 0xff, 0xff, 0xff, 0xff, 0xff, 0xff, 0xff, 0xff, 0x01],
    );
}

fn help_i32(arena: &Bump, value: i32) -> Vec<'_, u8> {
    let mut buffer = Vec::with_capacity_in(MAX_SIZE_ENCODED_U32, arena);
    buffer.encode_i32(value);
    buffer
}

#[test]
fn test_encode_i32() {
    let a = &Bump::new();
    assert_eq!(help_i32(a, 0), &[0]);
    assert_eq!(help_i32(a, 1), &[1]);
    assert_eq!(help_i32(a, -1), &[0x7f]);
    assert_eq!(help_i32(a, 63), &[63]);
    assert_eq!(help_i32(a, 64), &[0xc0, 0x0]);
    assert_eq!(help_i32(a, -64), &[0x40]);
    assert_eq!(help_i32(a, -65), &[0xbf, 0x7f]);
    assert_eq!(help_i32(a, i32::MAX), &[0xff, 0xff, 0xff, 0xff, 0x07]);
    assert_eq!(help_i32(a, i32::MIN), &[0x80, 0x80, 0x80, 0x80, 0x78]);
}

fn help_i64(arena: &Bump, value: i64) -> Vec<'_, u8> {
    let mut buffer = Vec::with_capacity_in(10, arena);
    buffer.encode_i64(value);
    buffer
}

#[test]
fn test_encode_i64() {
    let a = &Bump::new();
    assert_eq!(help_i64(a, 0), &[0]);
    assert_eq!(help_i64(a, 1), &[1]);
    assert_eq!(help_i64(a, -1), &[0x7f]);
    assert_eq!(help_i64(a, 63), &[63]);
    assert_eq!(help_i64(a, 64), &[0xc0, 0x0]);
    assert_eq!(help_i64(a, -64), &[0x40]);
    assert_eq!(help_i64(a, -65), &[0xbf, 0x7f]);
    assert_eq!(
        help_i64(a, i64::MAX),
        &[0xff, 0xff, 0xff, 0xff, 0xff, 0xff, 0xff, 0xff, 0xff, 0x00],
    );
    assert_eq!(
        help_i64(a, i64::MIN),
        &[0x80, 0x80, 0x80, 0x80, 0x80, 0x80, 0x80, 0x80, 0x80, 0x7f],
    );
}

#[test]
fn test_overwrite_u32_padded() {
    let mut buffer = [0, 0, 0, 0, 0];

    overwrite_padded_u32_help(&mut buffer, u32::MAX);
    assert_eq!(buffer, [0xff, 0xff, 0xff, 0xff, 0x0f]);

    overwrite_padded_u32_help(&mut buffer, 0);
    assert_eq!(buffer, [0x80, 0x80, 0x80, 0x80, 0x00]);

    overwrite_padded_u32_help(&mut buffer, 127);
    assert_eq!(buffer, [0xff, 0x80, 0x80, 0x80, 0x00]);

    overwrite_padded_u32_help(&mut buffer, 128);
    assert_eq!(buffer, [0x80, 0x81, 0x80, 0x80, 0x00]);
}

#[test]
fn test_write_unencoded_u32() {
    let mut buffer = std::vec::Vec::with_capacity(4);

    buffer.write_unencoded_u32(0);
    assert_eq!(buffer, &[0, 0, 0, 0]);

    buffer.clear();
    buffer.write_unencoded_u32(u32::MAX);
    assert_eq!(buffer, &[0xff, 0xff, 0xff, 0xff]);
}

#[test]
fn test_write_unencoded_u64() {
    let mut buffer = std::vec::Vec::with_capacity(8);

    buffer.write_unencoded_u64(0);
    assert_eq!(buffer, &[0, 0, 0, 0, 0, 0, 0, 0]);

    buffer.clear();
    buffer.write_unencoded_u64(u64::MAX);
    assert_eq!(buffer, &[0xff, 0xff, 0xff, 0xff, 0xff, 0xff, 0xff, 0xff]);
}

fn help_pad_i32(val: i32) -> std::vec::Vec<u8> {
    let mut buffer = std::vec::Vec::with_capacity(MAX_SIZE_ENCODED_U32);
    buffer.encode_padded_i32(val);
    buffer
}

#[test]
fn test_encode_padded_i32() {
    assert_eq!(help_pad_i32(0), &[0x80, 0x80, 0x80, 0x80, 0x00]);
    assert_eq!(help_pad_i32(1), &[0x81, 0x80, 0x80, 0x80, 0x00]);
    assert_eq!(help_pad_i32(-1), &[0xff, 0xff, 0xff, 0xff, 0x7f]);
    assert_eq!(help_pad_i32(i32::MAX), &[0xff, 0xff, 0xff, 0xff, 0x07]);
    assert_eq!(help_pad_i32(i32::MIN), &[0x80, 0x80, 0x80, 0x80, 0x78]);
}

fn help_pad_i64(val: i64) -> std::vec::Vec<u8> {
    let mut buffer = std::vec::Vec::with_capacity(10);
    buffer.encode_padded_i64(val);
    buffer
}

#[test]
fn test_encode_padded_i64() {
    assert_eq!(
        help_pad_i64(0),
        &[0x80, 0x80, 0x80, 0x80, 0x80, 0x80, 0x80, 0x80, 0x80, 0x00]
    );
    assert_eq!(
        help_pad_i64(1),
        &[0x81, 0x80, 0x80, 0x80, 0x80, 0x80, 0x80, 0x80, 0x80, 0x00]
    );
    assert_eq!(
        help_pad_i64(-1),
        &[0xff, 0xff, 0xff, 0xff, 0xff, 0xff, 0xff, 0xff, 0xff, 0x7f]
    );
    assert_eq!(
        help_pad_i64(i64::MAX),
        &[0xff, 0xff, 0xff, 0xff, 0xff, 0xff, 0xff, 0xff, 0xff, 0x00],
    );
    assert_eq!(
        help_pad_i64(i64::MIN),
        &[0x80, 0x80, 0x80, 0x80, 0x80, 0x80, 0x80, 0x80, 0x80, 0x7f],
    );
}

#[test]
fn test_decode_u32() {
    assert_eq!(decode_u32(&[0]), Ok((0, 1)));
    assert_eq!(decode_u32(&[64]), Ok((64, 1)));
    assert_eq!(decode_u32(&[0x7f]), Ok((0x7f, 1)));
    assert_eq!(decode_u32(&[0x80, 0x01]), Ok((0x80, 2)));
    assert_eq!(decode_u32(&[0xff, 0x7f]), Ok((0x3fff, 2)));
    assert_eq!(decode_u32(&[0x80, 0x80, 0x01]), Ok((0x4000, 3)));
    assert_eq!(
        decode_u32(&[0xff, 0xff, 0xff, 0xff, 0x0f]),
        Ok((u32::MAX, MAX_SIZE_ENCODED_U32))
    );
    assert!(matches!(decode_u32(&[0x80; 6]), Err(_)));
    assert!(matches!(decode_u32(&[0x80; 2]), Err(_)));
    assert!(matches!(decode_u32(&[]), Err(_)));
}

#[test]
fn test_parse_u32_sequence() {
    let bytes = &[0, 0x80, 0x01, 0xff, 0xff, 0xff, 0xff, 0x0f];
    let expected = [0, 128, u32::MAX];
    let mut cursor = 0;

    assert_eq!(parse_u32_or_panic(bytes, &mut cursor), expected[0]);
    assert_eq!(cursor, 1);

    assert_eq!(parse_u32_or_panic(bytes, &mut cursor), expected[1]);
    assert_eq!(cursor, 3);

    assert_eq!(parse_u32_or_panic(bytes, &mut cursor), expected[2]);
    assert_eq!(cursor, 8);
}

#[test]
fn decode_u32_reports_the_bytes_it_read() {
    assert_eq!(
        decode_u32(&[0x80, 0x8f]),
        Err(String::from("Failed to decode u32 as LEB-128 from bytes: [80, 8f]"))
    );
    assert_eq!(
        decode_u32(&[0xff; 7]),
        Err(String::from("Failed to decode u32 as LEB-128 from bytes: [ff, ff, ff, ff, ff]"))
    );
    assert_eq!(
        decode_u32(&[]),
        Err(String::from("Failed to decode u32 as LEB-128 from bytes: []"))
    );
}

#[test]
fn decode_u32_cuts_the_fifth_byte_to_32_bits() {
    assert_eq!(decode_u32(&[0xff, 0xff, 0xff, 0xff, 0x7f]), Ok((u32::MAX, 5)));
    assert_eq!(decode_u32(&[0x80, 0x80, 0x80, 0x80, 0x10]), Ok((0, 5)));
    assert_eq!(decode_u32(&[0x81, 0x80, 0x80, 0x80, 0x00, 0x55]), Ok((1, 5)));
}

#[test]
fn decode_u32_reads_back_what_encode_u32_wrote() {
    for value in [0u32, 1, 127, 128, 300, 0x3fff, 0x4000, 0xdead_beef, u32::MAX] {
        let mut buffer: std::vec::Vec<u8> = std::vec::Vec::new();
        let written = buffer.encode_u32(value);
        assert_eq!(written, buffer.len());
        assert_eq!(decode_u32(&buffer), Ok((value, written)));
    }
}

#[test]
fn std_buffer_appends_and_overwrites() {
    let mut buffer: std::vec::Vec<u8> = vec![1, 2];
    buffer.append_u8(3);
    buffer.append_slice(&[4, 5]);
    buffer.overwrite_u8(0, 9);
    assert_eq!(buffer.size(), 5);
    assert_eq!(buffer, [9, 2, 3, 4, 5]);

    let index = buffer.reserve_padded_u32();
    assert_eq!(index, 5);
    assert_eq!(buffer, [9, 2, 3, 4, 5, 0xff, 0xff, 0xff, 0xff, 0xff]);
    buffer.overwrite_padded_u32(index, 128);
    assert_eq!(buffer, [9, 2, 3, 4, 5, 0x80, 0x81, 0x80, 0x80, 0x00]);

    let index = buffer.encode_padded_u32(u32::MAX);
    assert_eq!(index, 10);
    assert_eq!(&buffer[10..], [0xff, 0xff, 0xff, 0xff, 0x0f]);
    buffer.overwrite_padded_u32(1, 1);
    assert_eq!(&buffer[..7], [9, 0x81, 0x80, 0x80, 0x80, 0x00, 0x81]);
}

#[test]
fn arena_buffer_appends_and_overwrites() {
    let arena = Bump::new();
    let mut buffer: Vec<'_, u8> = Vec::new_in(&arena);
    buffer.append_u8(1);
    buffer.append_slice(&[2, 3]);
    buffer.overwrite_u8(1, 7);
    assert_eq!(buffer.size(), 3);
    assert_eq!(buffer, [1, 7, 3]);

    let index = buffer.reserve_padded_u32();
    assert_eq!(index, 3);
    assert_eq!(buffer, [1, 7, 3, 0xff, 0xff, 0xff, 0xff, 0xff]);
    buffer.overwrite_padded_u32(index, 127);
    assert_eq!(buffer, [1, 7, 3, 0xff, 0x80, 0x80, 0x80, 0x00]);

    let index = buffer.encode_padded_u32(128);
    assert_eq!(index, 8);
    assert_eq!(&buffer[8..], [0x80, 0x81, 0x80, 0x80, 0x00]);

    buffer.write_unencoded_u32(0x0403_0201);
    assert_eq!(&buffer[13..], [1, 2, 3, 4]);
}

#[test]
fn parse_string_bytes_copies_the_bytes_after_the_length() {
    let arena = Bump::new();
    let bytes = [0xaa, 3, b'a', b'b', b'c', 0, 0xbb];
    let mut cursor = 1;
    let copy = parse_string_bytes(&arena, &bytes, &mut cursor);
    assert_eq!(copy, b"abc");
    assert_eq!(cursor, 5);
    let empty = parse_string_bytes(&arena, &bytes, &mut cursor);
    assert_eq!(empty, b"");
    assert_eq!(cursor, 6);
}

#[test]
fn skip_bytes_moves_past_one_value() {
    let bytes = [0x80, 0x80, 0x01, 0x7f, 2, b'h', b'i', 9];
    let mut cursor = 0;
    <u32 as SkipBytes>::skip_bytes(&bytes, &mut cursor);
    assert_eq!(cursor, 3);
    <u64 as SkipBytes>::skip_bytes(&bytes, &mut cursor);
    assert_eq!(cursor, 4);
    <String as SkipBytes>::skip_bytes(&bytes, &mut cursor);
    assert_eq!(cursor, 7);
    <u8 as SkipBytes>::skip_bytes(&bytes, &mut cursor);
    assert_eq!(cursor, 8);

    let long = [0xff, 0xff, 0xff, 0xff, 0xff, 0xff, 0xff, 0xff, 0xff, 0x01];
    let mut cursor = 0;
    <u64 as SkipBytes>::skip_bytes(&long, &mut cursor);
    assert_eq!(cursor, 10);
}

#[test]
fn serialize_writes_length_prefixed_values() {
    let arena = Bump::new();
    let mut buffer: std::vec::Vec<u8> = std::vec::Vec::new();
    "hey".serialize(&mut buffer);
    assert_eq!(buffer, [3, b'h', b'e', b'y']);

    buffer.clear();
    7u8.serialize(&mut buffer);
    300u32.serialize(&mut buffer);
    ().serialize(&mut buffer);
    assert_eq!(buffer, [7, 0xac, 0x02]);

    buffer.clear();
    [1u32, 128, 3][..].serialize(&mut buffer);
    assert_eq!(buffer, [3, 1, 0x80, 0x01, 3]);

    buffer.clear();
    Some(5u8).serialize(&mut buffer);
    None::<u8>.serialize(&mut buffer);
    assert_eq!(buffer, [1, 5, 0]);

    buffer.clear();
    let mut inner: Vec<'_, u8> = Vec::new_in(&arena);
    inner.extend_from_slice(&[8, 9]);
    inner.serialize(&mut buffer);
    assert_eq!(buffer, [2, 8, 9]);
}

#[test]
fn signed_encodings_at_the_sign_boundary() {
    let mut buffer: std::vec::Vec<u8> = std::vec::Vec::new();
    assert_eq!(buffer.encode_i32(-128), 2);
    assert_eq!(buffer, [0x80, 0x7f]);
    buffer.clear();
    assert_eq!(buffer.encode_i64(127), 2);
    assert_eq!(buffer, [0xff, 0x00]);
    buffer.clear();
    assert_eq!(buffer.encode_u64(1 << 35), 6);
    assert_eq!(buffer, [0x80, 0x80, 0x80, 0x80, 0x80, 0x01]);
}
