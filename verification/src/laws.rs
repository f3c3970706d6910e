//! The guarantees the codec gives as a whole: encoded frames decode back to
//! the value that was encoded, a decoder resynchronizes across garbage, the
//! length field is accurate, and malformed or truncated frames fail with the
//! right kind of error.

use vstd::prelude::*;
use vstd::utf8::{encode_utf8, encode_utf8_decode_utf8, encode_utf8_valid_utf8};

use crate::codec::{
    dec_bytes, dec_raw, dec_string, dec_sync, dec_u32, dec_u64, dec_u8, enc_bytes, enc_string,
    find_sync, lemma_find_sync_first, lemma_find_sync_props, string_fits, sync_at, sync_marker,
};
use crate::endian::{
    lemma_u32_be_round_trip, lemma_u64_be_round_trip, spec_u32_from_be_bytes,
    spec_u32_to_be_bytes, spec_u64_to_be_bytes,
};
use crate::error::Error;
use crate::message::{
    dec_exception, dec_header, dec_reply, dec_request, enc_exception, enc_reply, enc_request,
    exception_wf, ident_banner, reply_body, reply_tag, reply_wf, request_body, request_tag,
    request_wf, ExceptionView, ReplyView, RequestView,
};

verus! {

/// A one-byte image decodes to the byte.
proof fn lemma_dec_u8_prefix(v: u8, rest: Seq<u8>)
    ensures
        dec_u8(seq![v] + rest) == Ok::<(u8, Seq<u8>), Error>((v, rest)),
{
    let b = seq![v] + rest;
    assert(b[0] == v);
    assert(b.skip(1) =~= rest);
}

/// A 32-bit big-endian image decodes to the value.
proof fn lemma_dec_u32_prefix(x: u32, rest: Seq<u8>)
    ensures
        dec_u32(spec_u32_to_be_bytes(x) + rest) == Ok::<(u32, Seq<u8>), Error>((x, rest)),
{
    let b = spec_u32_to_be_bytes(x) + rest;
    lemma_u32_be_round_trip(x);
    assert(b.take(4) =~= spec_u32_to_be_bytes(x));
    assert(b.skip(4) =~= rest);
}

/// A 64-bit big-endian image decodes to the value.
proof fn lemma_dec_u64_prefix(x: u64, rest: Seq<u8>)
    ensures
        dec_u64(spec_u64_to_be_bytes(x) + rest) == Ok::<(u64, Seq<u8>), Error>((x, rest)),
{
    let b = spec_u64_to_be_bytes(x) + rest;
    lemma_u64_be_round_trip(x);
    assert(b.take(8) =~= spec_u64_to_be_bytes(x));
    assert(b.skip(8) =~= rest);
}

/// Raw bytes decode to themselves when exactly their count is asked for.
proof fn lemma_dec_raw_prefix(bytes: Seq<u8>, rest: Seq<u8>)
    ensures
        dec_raw(bytes + rest, bytes.len() as int) == Ok::<(Seq<u8>, Seq<u8>), Error>(
            (bytes, rest),
        ),
{
    let b = bytes + rest;
    assert(b.take(bytes.len() as int) =~= bytes);
    assert(b.skip(bytes.len() as int) =~= rest);
}

/// A length-prefixed block decodes to the bytes that were prefixed.
proof fn lemma_dec_bytes_prefix(bytes: Seq<u8>, rest: Seq<u8>)
    requires
        bytes.len() <= u32::MAX,
    ensures
        dec_bytes(enc_bytes(bytes) + rest) == Ok::<(Seq<u8>, Seq<u8>), Error>((bytes, rest)),
{
    assert(enc_bytes(bytes) + rest =~= spec_u32_to_be_bytes(bytes.len() as u32) + (bytes + rest));
    lemma_dec_u32_prefix(bytes.len() as u32, bytes + rest);
    lemma_dec_raw_prefix(bytes, rest);
}

/// Round trip of the string block: encoding appends the UTF-8 bytes and a
/// zero terminator under one length prefix, and decoding that block yields
/// exactly the original characters.
pub proof fn lemma_string_round_trip(s: Seq<char>, rest: Seq<u8>)
    requires
        string_fits(s),
    ensures
        dec_string(enc_string(s) + rest) == Ok::<(Seq<char>, Seq<u8>), Error>((s, rest)),
{
    let block = encode_utf8(s) + seq![0u8];
    lemma_dec_bytes_prefix(block, rest);
    assert(block.take(block.len() - 1) =~= encode_utf8(s));
    encode_utf8_valid_utf8(s);
    encode_utf8_decode_utf8(s);
}

/// What follows an encoded exception's seventh field: the trailing bytes.
#[verifier::opaque]
spec fn exc_tail8(e: ExceptionView, rest: Seq<u8>) -> Seq<u8> {
    enc_string(e.function) + rest
}

/// What follows an encoded exception's sixth field.
#[verifier::opaque]
spec fn exc_tail7(e: ExceptionView, rest: Seq<u8>) -> Seq<u8> {
    spec_u32_to_be_bytes(e.column) + exc_tail8(e, rest)
}

/// What follows an encoded exception's fifth field.
#[verifier::opaque]
spec fn exc_tail6(e: ExceptionView, rest: Seq<u8>) -> Seq<u8> {
    spec_u32_to_be_bytes(e.line) + exc_tail7(e, rest)
}

/// What follows an encoded exception's fourth field.
#[verifier::opaque]
spec fn exc_tail5(e: ExceptionView, rest: Seq<u8>) -> Seq<u8> {
    enc_string(e.file) + exc_tail6(e, rest)
}

/// What follows an encoded exception's third field.
#[verifier::opaque]
spec fn exc_tail4(e: ExceptionView, rest: Seq<u8>) -> Seq<u8> {
    spec_u64_to_be_bytes(e.param[2]) + exc_tail5(e, rest)
}

/// What follows an encoded exception's second field.
#[verifier::opaque]
spec fn exc_tail3(e: ExceptionView, rest: Seq<u8>) -> Seq<u8> {
    spec_u64_to_be_bytes(e.param[1]) + exc_tail4(e, rest)
}

/// What follows an encoded exception's first field.
#[verifier::opaque]
spec fn exc_tail2(e: ExceptionView, rest: Seq<u8>) -> Seq<u8> {
    spec_u64_to_be_bytes(e.param[0]) + exc_tail3(e, rest)
}

/// The bytes of an encoded exception after its name.
#[verifier::opaque]
spec fn exc_tail1(e: ExceptionView, rest: Seq<u8>) -> Seq<u8> {
    enc_string(e.message) + exc_tail2(e, rest)
}

/// The first field of an encoded exception decodes to its name, leaving the
/// remaining eight fields.
#[verifier::spinoff_prover]
#[verifier::rlimit(100)]
proof fn lemma_exception_first_field(e: ExceptionView, rest: Seq<u8>)
    requires
        exception_wf(e),
    ensures
        dec_string(enc_exception(e) + rest) == Ok::<(Seq<char>, Seq<u8>), Error>(
            (e.name, exc_tail1(e, rest)),
        ),
{
    reveal(exc_tail1);
    reveal(exc_tail2);
    reveal(exc_tail3);
    reveal(exc_tail4);
    reveal(exc_tail5);
    reveal(exc_tail6);
    reveal(exc_tail7);
    reveal(exc_tail8);
    let p1 = enc_string(e.name);
    let p2 = enc_string(e.message);
    let p3 = spec_u64_to_be_bytes(e.param[0]);
    let p4 = spec_u64_to_be_bytes(e.param[1]);
    let p5 = spec_u64_to_be_bytes(e.param[2]);
    let p6 = enc_string(e.file);
    let p7 = spec_u32_to_be_bytes(e.line);
    let p8 = spec_u32_to_be_bytes(e.column);
    let p9 = enc_string(e.function);
    let t8 = exc_tail8(e, rest);
    let t7 = exc_tail7(e, rest);
    let t6 = exc_tail6(e, rest);
    let t5 = exc_tail5(e, rest);
    let t4 = exc_tail4(e, rest);
    let t3 = exc_tail3(e, rest);
    let t2 = exc_tail2(e, rest);
    let t1 = exc_tail1(e, rest);
    let b = enc_exception(e) + rest;
    // Reassociate the nine-part concatenation one step at a time.
    let l2 = p1 + p2;
    let l3 = l2 + p3;
    let l4 = l3 + p4;
    let l5 = l4 + p5;
    let l6 = l5 + p6;
    let l7 = l6 + p7;
    let l8 = l7 + p8;
    let l9 = l8 + p9;
    assert(b == l9 + rest);
    assert(l9 + rest =~= l8 + t8);
    assert(l8 + t8 =~= l7 + t7);
    assert(l7 + t7 =~= l6 + t6);
    assert(l6 + t6 =~= l5 + t5);
    assert(l5 + t5 =~= l4 + t4);
    assert(l4 + t4 =~= l3 + t3);
    assert(l3 + t3 =~= l2 + t2);
    assert(l2 + t2 =~= p1 + t1);
    lemma_string_round_trip(e.name, t1);
}

/// Fields two through four of an encoded exception decode in order: the
/// message string and the first two parameters.
#[verifier::spinoff_prover]
proof fn lemma_exception_early_fields(e: ExceptionView, rest: Seq<u8>)
    requires
        exception_wf(e),
    ensures
        dec_string(exc_tail1(e, rest)) == Ok::<(Seq<char>, Seq<u8>), Error>(
            (e.message, exc_tail2(e, rest)),
        ),
        dec_u64(exc_tail2(e, rest)) == Ok::<(u64, Seq<u8>), Error>((e.param[0], exc_tail3(e, rest))),
        dec_u64(exc_tail3(e, rest)) == Ok::<(u64, Seq<u8>), Error>((e.param[1], exc_tail4(e, rest))),
{
    reveal(exc_tail1);
    reveal(exc_tail2);
    reveal(exc_tail3);
    lemma_string_round_trip(e.message, exc_tail2(e, rest));
    lemma_dec_u64_prefix(e.param[0], exc_tail3(e, rest));
    lemma_dec_u64_prefix(e.param[1], exc_tail4(e, rest));
}

/// Fields five through seven of an encoded exception decode in order: the
/// last parameter, the source location and the function name.
#[verifier::spinoff_prover]
proof fn lemma_exception_late_fields(e: ExceptionView, rest: Seq<u8>)
    requires
        exception_wf(e),
    ensures
        dec_u64(exc_tail4(e, rest)) == Ok::<(u64, Seq<u8>), Error>((e.param[2], exc_tail5(e, rest))),
        dec_string(exc_tail5(e, rest)) == Ok::<(Seq<char>, Seq<u8>), Error>(
            (e.file, exc_tail6(e, rest)),
        ),
        dec_u32(exc_tail6(e, rest)) == Ok::<(u32, Seq<u8>), Error>((e.line, exc_tail7(e, rest))),
        dec_u32(exc_tail7(e, rest)) == Ok::<(u32, Seq<u8>), Error>((e.column, exc_tail8(e, rest))),
        dec_string(exc_tail8(e, rest)) == Ok::<(Seq<char>, Seq<u8>), Error>((e.function, rest)),
{
    reveal(exc_tail4);
    reveal(exc_tail5);
    reveal(exc_tail6);
    reveal(exc_tail7);
    reveal(exc_tail8);
    lemma_dec_u64_prefix(e.param[2], exc_tail5(e, rest));
    lemma_string_round_trip(e.file, exc_tail6(e, rest));
    lemma_dec_u32_prefix(e.line, exc_tail7(e, rest));
    lemma_dec_u32_prefix(e.column, exc_tail8(e, rest));
    lemma_string_round_trip(e.function, rest);
}

/// Round trip of the exception record: all seven fields survive encoding and
/// decoding exactly.
#[verifier::spinoff_prover]
#[verifier::rlimit(100)]
pub proof fn lemma_exception_round_trip(e: ExceptionView, rest: Seq<u8>)
    requires
        exception_wf(e),
    ensures
        dec_exception(enc_exception(e) + rest) == Ok::<(ExceptionView, Seq<u8>), Error>((e, rest)),
{
    lemma_exception_first_field(e, rest);
    lemma_exception_early_fields(e, rest);
    lemma_exception_late_fields(e, rest);
    assert(seq![e.param[0], e.param[1], e.param[2]] =~= e.param);
}

/// A frame header built from a sync marker, a length of at least nine and a
/// tag decodes to exactly those values.
proof fn lemma_dec_header_prefix(length: u32, tag: u8, tail: Seq<u8>)
    requires
        length >= 9,
    ensures
        dec_header(sync_marker() + spec_u32_to_be_bytes(length) + seq![tag] + tail) == Ok::<
            (u32, u8, Seq<u8>),
            Error,
        >((length, tag, tail)),
{
    let b = sync_marker() + spec_u32_to_be_bytes(length) + seq![tag] + tail;
    assert(sync_at(b, 0));
    lemma_find_sync_first(b, 0);
    assert(b.skip(4) =~= spec_u32_to_be_bytes(length) + (seq![tag] + tail));
    lemma_dec_u32_prefix(length, seq![tag] + tail);
    lemma_dec_u8_prefix(tag, tail);
}

/// Round trip of a whole request frame: decoding an encoded request, with
/// any trailing bytes behind it, yields the request and leaves exactly the
/// trailing bytes.
#[verifier::spinoff_prover]
#[verifier::rlimit(100)]
pub proof fn lemma_request_round_trip(r: RequestView, rest: Seq<u8>)
    requires
        request_wf(r),
    ensures
        dec_request(enc_request(r) + rest) == Ok::<(RequestView, Seq<u8>), Error>((r, rest)),
{
    let body = request_body(r);
    let length = (9 + body.len()) as u32;
    let tag = request_tag(r);
    let b = enc_request(r) + rest;
    assert(b =~= sync_marker() + spec_u32_to_be_bytes(length) + seq![tag] + (body + rest));
    lemma_dec_header_prefix(length, tag, body + rest);
    match r {
        RequestView::Log => {
            assert(body + rest =~= rest);
        },
        RequestView::LogClear => {
            assert(body + rest =~= rest);
        },
        RequestView::Ident => {
            assert(body + rest =~= rest);
        },
        RequestView::SwitchClock(id) => {
            assert(body + rest =~= seq![id] + rest);
            lemma_dec_u8_prefix(id, rest);
        },
        RequestView::LoadLibrary(code) => {
            lemma_dec_raw_prefix(code, rest);
        },
        RequestView::RunKernel => {
            assert(body + rest =~= rest);
        },
        RequestView::RpcReply { tag: t } => {
            lemma_string_round_trip(t, rest);
        },
        RequestView::RpcException(e) => {
            lemma_exception_round_trip(e, rest);
        },
        RequestView::FlashRead { key } => {
            lemma_string_round_trip(key, rest);
        },
        RequestView::FlashWrite { key, value } => {
            assert(body + rest =~= enc_string(key) + (enc_bytes(value) + rest));
            lemma_string_round_trip(key, enc_bytes(value) + rest);
            lemma_dec_bytes_prefix(value, rest);
        },
        RequestView::FlashErase => {
            assert(body + rest =~= rest);
        },
        RequestView::FlashRemove { key } => {
            lemma_string_round_trip(key, rest);
        },
    }
}

/// Round trip of a whole reply frame: decoding an encoded reply, with any
/// trailing bytes behind it, yields the reply and leaves exactly the
/// trailing bytes.
#[verifier::spinoff_prover]
#[verifier::rlimit(100)]
pub proof fn lemma_reply_round_trip(r: ReplyView, rest: Seq<u8>)
    requires
        reply_wf(r),
    ensures
        dec_reply(enc_reply(r) + rest) == Ok::<(ReplyView, Seq<u8>), Error>((r, rest)),
{
    let body = reply_body(r);
    let length = (9 + body.len()) as u32;
    let tag = reply_tag(r);
    let b = enc_reply(r) + rest;
    assert(b =~= sync_marker() + spec_u32_to_be_bytes(length) + seq![tag] + (body + rest));
    lemma_dec_header_prefix(length, tag, body + rest);
    match r {
        ReplyView::Log(text) => {
            lemma_dec_raw_prefix(encode_utf8(text), rest);
            encode_utf8_valid_utf8(text);
            encode_utf8_decode_utf8(text);
        },
        ReplyView::Ident(text) => {
            lemma_dec_raw_prefix(body, rest);
            assert(body.take(4) =~= ident_banner());
            assert(body.skip(4) =~= encode_utf8(text));
            encode_utf8_valid_utf8(text);
            encode_utf8_decode_utf8(text);
        },
        ReplyView::KernelException(e) => {
            lemma_exception_round_trip(e, rest);
        },
        ReplyView::RpcRequest { service } => {
            lemma_dec_u32_prefix(service, rest);
        },
        ReplyView::FlashRead(bytes) => {
            lemma_dec_raw_prefix(bytes, rest);
        },
        _ => {
            assert(body + rest =~= rest);
        },
    }
}

/// Resynchronization: a prefix of garbage in which no sync pattern begins
/// changes nothing about what is decoded.  The hypothesis speaks of the
/// combined stream so that it also rules out a pattern that straddles the
/// boundary, which would move the scanner's stopping point.
pub proof fn lemma_resync(garbage: Seq<u8>, frame: Seq<u8>)
    requires
        forall|j: int| 0 <= j < garbage.len() ==> !sync_at(garbage + frame, j),
    ensures
        dec_request(garbage + frame) == dec_request(frame),
        dec_reply(garbage + frame) == dec_reply(frame),
{
    let g = garbage;
    let f = frame;
    let b = g + f;
    assert forall|m: int| 0 <= m implies sync_at(f, m) == sync_at(b, g.len() + m) by {
        if m + 4 <= f.len() {
            assert(b[g.len() + m] == f[m]);
            assert(b[g.len() + m + 1] == f[m + 1]);
            assert(b[g.len() + m + 2] == f[m + 2]);
            assert(b[g.len() + m + 3] == f[m + 3]);
        }
    }
    lemma_find_sync_props(f);
    match find_sync(f) {
        Some(j) => {
            assert(sync_at(b, g.len() + j));
            assert forall|k: int| 0 <= k < g.len() + j implies !sync_at(b, k) by {
                if k >= g.len() {
                    assert(!sync_at(f, k - g.len()));
                }
            }
            lemma_find_sync_first(b, g.len() + j);
            assert(b.skip(g.len() + j + 4) =~= f.skip(j + 4));
            assert(dec_sync(b) == dec_sync(f));
        },
        None => {
            lemma_find_sync_props(b);
            match find_sync(b) {
                Some(k) => {
                    assert(sync_at(b, k));
                    if k >= g.len() {
                        assert(sync_at(f, k - g.len()));
                    }
                    assert(false);
                },
                None => {},
            }
        },
    }
}

/// The length field of an encoded request frame equals the frame's literal
/// byte count.
pub proof fn lemma_request_length_accuracy(r: RequestView)
    requires
        request_wf(r),
    ensures
        spec_u32_from_be_bytes(enc_request(r).subrange(4, 8)) == enc_request(r).len(),
{
    let frame = enc_request(r);
    let n = (9 + request_body(r).len()) as u32;
    assert(frame.subrange(4, 8) =~= spec_u32_to_be_bytes(n));
    lemma_u32_be_round_trip(n);
}

/// The length field of an encoded reply frame equals the frame's literal
/// byte count.  This holds for every variant, the exception reply included,
/// because the encoder stages every payload inside the measured frame.
pub proof fn lemma_reply_length_accuracy(r: ReplyView)
    requires
        reply_wf(r),
    ensures
        spec_u32_from_be_bytes(enc_reply(r).subrange(4, 8)) == enc_reply(r).len(),
{
    let frame = enc_reply(r);
    let n = (9 + reply_body(r).len()) as u32;
    assert(frame.subrange(4, 8) =~= spec_u32_to_be_bytes(n));
    lemma_u32_be_round_trip(n);
}

/// A request frame whose type tag lies outside 1 through 12 decodes to the
/// unknown-tag error, whatever its payload holds.
pub proof fn lemma_unknown_request_tag(length: u32, tag: u8, payload: Seq<u8>)
    requires
        length >= 9,
        !(1 <= tag <= 12),
    ensures
        dec_request(sync_marker() + spec_u32_to_be_bytes(length) + seq![tag] + payload) == Err::<
            (RequestView, Seq<u8>),
            Error,
        >(Error::UnknownTypeTag(tag)),
{
    lemma_dec_header_prefix(length, tag, payload);
}

/// A reply frame whose type tag lies outside 1 through 15 decodes to the
/// unknown-tag error, whatever its payload holds.
pub proof fn lemma_unknown_reply_tag(length: u32, tag: u8, payload: Seq<u8>)
    requires
        length >= 9,
        !(1 <= tag <= 15),
    ensures
        dec_reply(sync_marker() + spec_u32_to_be_bytes(length) + seq![tag] + payload) == Err::<
            (ReplyView, Seq<u8>),
            Error,
        >(Error::UnknownTypeTag(tag)),
{
    lemma_dec_header_prefix(length, tag, payload);
}

/// A frame whose declared length exceeds the bytes actually available is a
/// transport failure, never a panic or an endless scan: here for the
/// code-loading request, whose payload extent the declared length alone
/// drives.
pub proof fn lemma_truncated_frame(length: u32, payload: Seq<u8>)
    requires
        length >= 9,
        payload.len() < length - 9,
    ensures
        dec_request(sync_marker() + spec_u32_to_be_bytes(length) + seq![5u8] + payload) == Err::<
            (RequestView, Seq<u8>),
            Error,
        >(Error::Truncated),
{
    lemma_dec_header_prefix(length, 5u8, payload);
}

} // verus!
