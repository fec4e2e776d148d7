use capture_the_flag::codec::{ByteReader, ByteWriter, DecodeError, Field};

#[test]
fn writer_encodes_big_endian() {
    let mut w = ByteWriter::new();
    w.write_u8(0xAB);
    w.write_u16(0x1234);
    w.write_u32(0xDEAD_BEEF);
    w.write_i32(-2);
    w.write_bool(true);
    w.write_bool(false);
    assert_eq!(
        w.into_bytes(),
        vec![0xAB, 0x12, 0x34, 0xDE, 0xAD, 0xBE, 0xEF, 0xFF, 0xFF, 0xFF, 0xFE, 0x01, 0x00]
    );
}

#[test]
fn writer_prefixes_strings_with_length() {
    let mut w = ByteWriter::new();
    w.write_str("hi");
    w.write_str("");
    w.write_str("é");
    assert_eq!(w.into_bytes(), vec![2, b'h', b'i', 0, 2, 0xC3, 0xA9]);
}

#[test]
fn writer_cuts_long_strings_at_255_bytes() {
    let long = "a".repeat(300);
    let mut w = ByteWriter::new();
    w.write_str(&long);
    let bytes = w.into_bytes();
    assert_eq!(bytes.len(), 256);
    assert_eq!(bytes[0], 255);
    assert!(bytes[1..].iter().all(|b| *b == b'a'));
}

#[test]
fn reader_reads_back_what_was_written() {
    let mut w = ByteWriter::new();
    w.write_u8(7);
    w.write_u16(65535);
    w.write_u32(0x0102_0304);
    w.write_i32(i32::MIN);
    w.write_bool(true);
    w.write_str("flag");
    let bytes = w.into_bytes();
    let mut r = ByteReader::new(&bytes);
    assert_eq!(r.read_u8(), Ok(7));
    assert_eq!(r.read_u16(), Ok(65535));
    assert_eq!(r.read_u32(), Ok(0x0102_0304));
    assert_eq!(r.read_i32(), Ok(i32::MIN));
    assert_eq!(r.read_bool(), Ok(true));
    assert_eq!(r.read_str(), Ok("flag".to_string()));
    assert_eq!(r.read_u8(), Err(DecodeError::UnexpectedEof(Field::U8)));
}

#[test]
fn reader_treats_any_nonzero_byte_as_true() {
    let bytes = [2u8, 0];
    let mut r = ByteReader::new(&bytes);
    assert_eq!(r.read_bool(), Ok(true));
    assert_eq!(r.read_bool(), Ok(false));
}

#[test]
fn reader_reports_short_fields() {
    let empty: [u8; 0] = [];
    assert_eq!(ByteReader::new(&empty).read_u8(), Err(DecodeError::UnexpectedEof(Field::U8)));
    assert_eq!(ByteReader::new(&[1u8]).read_u16(), Err(DecodeError::UnexpectedEof(Field::U16)));
    assert_eq!(ByteReader::new(&[1u8, 2, 3]).read_u32(), Err(DecodeError::UnexpectedEof(Field::U32)));
    assert_eq!(ByteReader::new(&[1u8, 2, 3]).read_i32(), Err(DecodeError::UnexpectedEof(Field::I32)));
    assert_eq!(ByteReader::new(&empty).read_bool(), Err(DecodeError::UnexpectedEof(Field::U8)));
    assert_eq!(ByteReader::new(&[5u8, b'a', b'b']).read_str(), Err(DecodeError::UnexpectedEof(Field::Str)));
    assert_eq!(ByteReader::new(&empty).read_str(), Err(DecodeError::UnexpectedEof(Field::U8)));
}

#[test]
fn reader_rejects_invalid_utf8() {
    assert_eq!(ByteReader::new(&[2u8, 0xC3, 0x28]).read_str(), Err(DecodeError::InvalidUtf8));
    assert_eq!(ByteReader::new(&[1u8, 0xFF]).read_str(), Err(DecodeError::InvalidUtf8));
}
