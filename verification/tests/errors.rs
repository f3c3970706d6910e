use session_codec::codec::Reader;
use session_codec::error::Error;
use session_codec::message::{Reply, Request};

/// Builds a raw frame by hand: sync marker, declared total length, type tag,
/// then the given payload bytes verbatim.
fn raw_frame(declared_len: u32, tag: u8, payload: &[u8]) -> Vec<u8> {
    let mut wire: Vec<u8> = vec![0x5a, 0x5a, 0x5a, 0x5a];
    wire.extend(declared_len.to_be_bytes());
    wire.push(tag);
    wire.extend(payload);
    wire
}

#[test]
fn request_tag_zero_is_malformed() {
    let mut reader = Reader::new(raw_frame(9, 0, &[]));
    assert_eq!(Request::read_from(&mut reader), Err(Error::UnknownTypeTag(0)));
}

#[test]
fn request_tag_thirteen_is_malformed() {
    let mut reader = Reader::new(raw_frame(9, 13, &[]));
    assert_eq!(Request::read_from(&mut reader), Err(Error::UnknownTypeTag(13)));
}

#[test]
fn request_tag_byte_max_is_malformed() {
    let mut reader = Reader::new(raw_frame(9, 255, &[]));
    assert_eq!(Request::read_from(&mut reader), Err(Error::UnknownTypeTag(255)));
}

#[test]
fn reply_tag_sixteen_is_malformed() {
    let mut reader = Reader::new(raw_frame(9, 16, &[]));
    assert_eq!(Reply::read_from(&mut reader), Err(Error::UnknownTypeTag(16)));
}

#[test]
fn truncated_load_library_is_io_error() {
    // Declared length promises 91 payload bytes; only three arrive.
    let mut reader = Reader::new(raw_frame(100, 5, &[1, 2, 3]));
    assert_eq!(Request::read_from(&mut reader), Err(Error::Truncated));
}

#[test]
fn truncated_string_field_is_io_error() {
    // An rpc-reply whose string block promises more bytes than the stream has.
    let mut reader = Reader::new(raw_frame(30, 7, &[0x00, 0x00, 0x00, 0x10, 0x41]));
    assert_eq!(Request::read_from(&mut reader), Err(Error::Truncated));
}

#[test]
fn truncated_header_is_io_error() {
    let mut reader = Reader::new(vec![0x5a, 0x5a, 0x5a, 0x5a, 0x00, 0x00]);
    assert_eq!(Request::read_from(&mut reader), Err(Error::Truncated));
}

#[test]
fn declared_length_below_header_is_malformed() {
    let mut reader = Reader::new(raw_frame(5, 1, &[]));
    assert_eq!(Request::read_from(&mut reader), Err(Error::LengthMismatch));
}

#[test]
fn excess_declared_length_is_malformed() {
    // An ident request carries no payload, yet the header declares one byte.
    let mut reader = Reader::new(raw_frame(10, 3, &[0x77]));
    assert_eq!(Request::read_from(&mut reader), Err(Error::LengthMismatch));
}

#[test]
fn short_declared_length_is_malformed() {
    // A switch-clock request carries one byte, yet the header declares none.
    let mut reader = Reader::new(raw_frame(9, 4, &[0x02]));
    assert_eq!(Request::read_from(&mut reader), Err(Error::LengthMismatch));
}

#[test]
fn reply_without_banner_is_malformed() {
    let mut reader = Reader::new(raw_frame(14, 2, b"XROR!"));
    assert_eq!(Reply::read_from(&mut reader), Err(Error::BadIdentBanner));
}

#[test]
fn reply_log_invalid_utf8_is_malformed() {
    let mut reader = Reader::new(raw_frame(11, 1, &[0xff, 0xfe]));
    assert_eq!(Reply::read_from(&mut reader), Err(Error::InvalidUtf8));
}

#[test]
fn request_string_without_terminator_room_is_malformed() {
    // A flash-read request whose key block has length zero.
    let mut reader = Reader::new(raw_frame(13, 9, &[0x00, 0x00, 0x00, 0x00]));
    assert_eq!(Request::read_from(&mut reader), Err(Error::EmptyStringBlock));
}

#[test]
fn stream_without_sync_is_io_error() {
    let mut reader = Reader::new(vec![1, 2, 3, 4, 5, 6, 7, 8, 9]);
    assert_eq!(Request::read_from(&mut reader), Err(Error::Truncated));
}
