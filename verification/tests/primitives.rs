use session_codec::codec::{
    read_bytes, read_string, read_sync, read_u32, read_u64, read_u8, write_bytes, write_string,
    write_sync, write_u32, write_u64, write_u8, Reader,
};
use session_codec::error::Error;

#[test]
fn string_terminator_encoding() {
    let mut out: Vec<u8> = Vec::new();
    write_string(&mut out, "abc");
    assert_eq!(out, vec![0x00, 0x00, 0x00, 0x04, 0x61, 0x62, 0x63, 0x00]);
    let mut reader = Reader::new(out);
    assert_eq!(read_string(&mut reader).unwrap(), "abc".to_string());
    assert_eq!(reader.remaining_len(), 0);
}

#[test]
fn u8_roundtrip() {
    let mut out: Vec<u8> = Vec::new();
    write_u8(&mut out, 0xab);
    assert_eq!(out, vec![0xab]);
    let mut reader = Reader::new(out);
    assert_eq!(read_u8(&mut reader).unwrap(), 0xab);
}

#[test]
fn u32_big_endian_bytes() {
    let mut out: Vec<u8> = Vec::new();
    write_u32(&mut out, 0x0102_0304);
    assert_eq!(out, vec![0x01, 0x02, 0x03, 0x04]);
    let mut reader = Reader::new(out);
    assert_eq!(read_u32(&mut reader).unwrap(), 0x0102_0304);
}

#[test]
fn u64_big_endian_bytes() {
    let mut out: Vec<u8> = Vec::new();
    write_u64(&mut out, 0x0102_0304_0506_0708);
    assert_eq!(out, vec![0x01, 0x02, 0x03, 0x04, 0x05, 0x06, 0x07, 0x08]);
    let mut reader = Reader::new(out);
    assert_eq!(read_u64(&mut reader).unwrap(), 0x0102_0304_0506_0708);
}

#[test]
fn bytes_block_roundtrip() {
    let mut out: Vec<u8> = Vec::new();
    write_bytes(&mut out, &[9, 8, 7]);
    assert_eq!(out, vec![0x00, 0x00, 0x00, 0x03, 9, 8, 7]);
    let mut reader = Reader::new(out);
    assert_eq!(read_bytes(&mut reader).unwrap(), vec![9, 8, 7]);
}

#[test]
fn non_ascii_string_roundtrip() {
    let mut out: Vec<u8> = Vec::new();
    write_string(&mut out, "héllo wörld");
    let mut reader = Reader::new(out);
    assert_eq!(read_string(&mut reader).unwrap(), "héllo wörld".to_string());
}

#[test]
fn sync_scan_skips_garbage() {
    let mut data: Vec<u8> = vec![0x01, 0xff, 0x5a, 0x5a, 0x00];
    let mut marker: Vec<u8> = Vec::new();
    write_sync(&mut marker);
    assert_eq!(marker, vec![0x5a, 0x5a, 0x5a, 0x5a]);
    data.extend(marker);
    data.push(0x42);
    let mut reader = Reader::new(data);
    assert_eq!(read_sync(&mut reader), Ok(()));
    assert_eq!(read_u8(&mut reader).unwrap(), 0x42);
}

#[test]
fn sync_not_found_is_truncated() {
    let mut reader = Reader::new(vec![1, 2, 3, 0x5a, 0x5a, 0x5a]);
    assert_eq!(read_sync(&mut reader), Err(Error::Truncated));
    assert_eq!(reader.remaining_len(), 6);
}

#[test]
fn empty_string_block_is_malformed() {
    let mut reader = Reader::new(vec![0x00, 0x00, 0x00, 0x00]);
    assert_eq!(read_string(&mut reader), Err(Error::EmptyStringBlock));
    assert_eq!(reader.remaining_len(), 4);
}

#[test]
fn invalid_utf8_string_is_malformed() {
    // A two-byte block: one invalid UTF-8 byte, then the terminator.
    let mut reader = Reader::new(vec![0x00, 0x00, 0x00, 0x02, 0xff, 0x00]);
    assert_eq!(read_string(&mut reader), Err(Error::InvalidUtf8));
}

#[test]
fn short_block_is_truncated_and_consumes_nothing() {
    let mut reader = Reader::new(vec![0x00, 0x00, 0x00, 0x05, 1, 2]);
    assert_eq!(read_bytes(&mut reader), Err(Error::Truncated));
    assert_eq!(reader.remaining_len(), 6);
}

#[test]
fn error_kinds_are_distinguished() {
    assert!(Error::Truncated.is_transport());
    assert!(!Error::InvalidUtf8.is_transport());
    assert!(!Error::UnknownTypeTag(77).is_transport());
    assert!(!Error::LengthMismatch.is_transport());
}
