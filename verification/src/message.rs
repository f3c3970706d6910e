//! The typed message sets carried over the link: `Request` (host to target)
//! and `Reply` (target to host), each variant a one-byte type tag plus a
//! variant-specific payload, and the structured `Exception` record both sets
//! transport.
//!
//! A whole frame is `[sync: 4][length: u32 BE][type: u8][payload]`, where
//! `length` counts the entire frame including the nine-byte header.  Decoding
//! resynchronizes on the sync marker first, and checks that the variant
//! consumed exactly the declared payload; encoding stages the frame in a
//! buffer and patches the length field before handing the bytes out.

use vstd::prelude::*;
use vstd::utf8::{decode_utf8, encode_utf8, valid_utf8};

use crate::codec::{
    dec_bytes, dec_raw, dec_string, dec_sync, dec_u32, dec_u64, dec_u8, enc_bytes, enc_string,
    lemma_suffix_trans, read_bytes, read_exact, read_string, read_sync, read_u32, read_u64,
    read_u8, string_fits, suffix_of, sync_marker, utf8_from_bytes, write_bytes, write_raw,
    write_string, write_sync, write_u32, write_u64, write_u8, Reader,
};
use crate::endian::{spec_u32_to_be_bytes, spec_u64_to_be_bytes};
use crate::error::Error;

verus! {

/// A structured fault raised inside the remote kernel, transported verbatim
/// in the `RpcException` request and the `KernelException` reply.
#[derive(Debug, PartialEq, Eq)]
pub struct Exception {
    pub name: String,
    pub message: String,
    pub param: [u64; 3],
    pub file: String,
    pub line: u32,
    pub column: u32,
    pub function: String,
}

/// The mathematical image of an [`Exception`].
pub struct ExceptionView {
    pub name: Seq<char>,
    pub message: Seq<char>,
    pub param: Seq<u64>,
    pub file: Seq<char>,
    pub line: u32,
    pub column: u32,
    pub function: Seq<char>,
}

impl View for Exception {
    type V = ExceptionView;

    open spec fn view(&self) -> ExceptionView {
        ExceptionView {
            name: self.name@,
            message: self.message@,
            param: self.param@,
            file: self.file@,
            line: self.line,
            column: self.column,
            function: self.function@,
        }
    }
}

/// An exception that the wire format can carry: three parameters, and every
/// string block length within the 32-bit prefix.
pub open spec fn exception_wf(e: ExceptionView) -> bool {
    &&& e.param.len() == 3
    &&& string_fits(e.name)
    &&& string_fits(e.message)
    &&& string_fits(e.file)
    &&& string_fits(e.function)
}

/// The wire image of an exception record: the seven fields in fixed order.
pub open spec fn enc_exception(e: ExceptionView) -> Seq<u8>
    recommends
        exception_wf(e),
{
    enc_string(e.name) + enc_string(e.message) + spec_u64_to_be_bytes(e.param[0])
        + spec_u64_to_be_bytes(e.param[1]) + spec_u64_to_be_bytes(e.param[2]) + enc_string(e.file)
        + spec_u32_to_be_bytes(e.line) + spec_u32_to_be_bytes(e.column) + enc_string(e.function)
}

/// Decoding an exception record: the seven fields in fixed order.
pub open spec fn dec_exception(b: Seq<u8>) -> Result<(ExceptionView, Seq<u8>), Error> {
    match dec_string(b) {
        Err(e) => Err(e),
        Ok((name, b)) => match dec_string(b) {
            Err(e) => Err(e),
            Ok((message, b)) => match dec_u64(b) {
                Err(e) => Err(e),
                Ok((p0, b)) => match dec_u64(b) {
                    Err(e) => Err(e),
                    Ok((p1, b)) => match dec_u64(b) {
                        Err(e) => Err(e),
                        Ok((p2, b)) => match dec_string(b) {
                            Err(e) => Err(e),
                            Ok((file, b)) => match dec_u32(b) {
                                Err(e) => Err(e),
                                Ok((line, b)) => match dec_u32(b) {
                                    Err(e) => Err(e),
                                    Ok((column, b)) => match dec_string(b) {
                                        Err(e) => Err(e),
                                        Ok((function, b)) => Ok(
                                            (
                                                ExceptionView {
                                                    name,
                                                    message,
                                                    param: seq![p0, p1, p2],
                                                    file,
                                                    line,
                                                    column,
                                                    function,
                                                },
                                                b,
                                            ),
                                        ),
                                    },
                                },
                            },
                        },
                    },
                },
            },
        },
    }
}

impl Exception {
    /// Reads the seven exception fields in fixed order.
    #[verifier::rlimit(80)]
    pub fn read_from(reader: &mut Reader) -> (res: Result<Exception, Error>)
        ensures
            match dec_exception(old(reader)@) {
                Ok((e, rest)) => (res matches Ok(v) && v@ == e) && final(reader)@ == rest,
                Err(er) => res == Err::<Exception, Error>(er),
            },
            suffix_of(final(reader)@, old(reader)@),
    {
        let ghost s0 = reader@;
        let name = match read_string(reader) {
            Ok(v) => v,
            Err(e) => return Err(e),
        };
        let ghost s1 = reader@;
        let message = match read_string(reader) {
            Ok(v) => v,
            Err(e) => return Err(e),
        };
        let ghost s2 = reader@;
        proof {
            lemma_suffix_trans(s2, s1, s0);
        }
        let p0 = match read_u64(reader) {
            Ok(v) => v,
            Err(e) => return Err(e),
        };
        let ghost s3 = reader@;
        proof {
            lemma_suffix_trans(s3, s2, s0);
        }
        let p1 = match read_u64(reader) {
            Ok(v) => v,
            Err(e) => return Err(e),
        };
        let ghost s4 = reader@;
        proof {
            lemma_suffix_trans(s4, s3, s0);
        }
        let p2 = match read_u64(reader) {
            Ok(v) => v,
            Err(e) => return Err(e),
        };
        let ghost s5 = reader@;
        proof {
            lemma_suffix_trans(s5, s4, s0);
        }
        let file = match read_string(reader) {
            Ok(v) => v,
            Err(e) => return Err(e),
        };
        let ghost s6 = reader@;
        proof {
            lemma_suffix_trans(s6, s5, s0);
        }
        let line = match read_u32(reader) {
            Ok(v) => v,
            Err(e) => return Err(e),
        };
        let ghost s7 = reader@;
        proof {
            lemma_suffix_trans(s7, s6, s0);
        }
        let column = match read_u32(reader) {
            Ok(v) => v,
            Err(e) => return Err(e),
        };
        let ghost s8 = reader@;
        proof {
            lemma_suffix_trans(s8, s7, s0);
        }
        let function = match read_string(reader) {
            Ok(v) => v,
            Err(e) => return Err(e),
        };
        proof {
            lemma_suffix_trans(reader@, s8, s0);
        }
        let exc = Exception { name, message, param: [p0, p1, p2], file, line, column, function };
        assert(exc@.param =~= seq![p0, p1, p2]);
        Ok(exc)
    }

    /// Writes the seven exception fields in fixed order.
    pub fn write_to(&self, writer: &mut Vec<u8>)
        requires
            exception_wf(self@),
        ensures
            final(writer)@ == old(writer)@ + enc_exception(self@),
    {
        write_string(writer, self.name.as_str());
        write_string(writer, self.message.as_str());
        write_u64(writer, self.param[0]);
        write_u64(writer, self.param[1]);
        write_u64(writer, self.param[2]);
        write_string(writer, self.file.as_str());
        write_u32(writer, self.line);
        write_u32(writer, self.column);
        write_string(writer, self.function.as_str());
        assert(writer@ =~= old(writer)@ + enc_exception(self@));
    }
}

/// A message sent from the controlling host to the remote execution target.
#[derive(Debug, PartialEq, Eq)]
pub enum Request {
    Log,
    LogClear,
    Ident,
    SwitchClock(u8),
    LoadLibrary(Vec<u8>),
    RunKernel,
    RpcReply { tag: String },
    RpcException(Exception),
    FlashRead { key: String },
    FlashWrite { key: String, value: Vec<u8> },
    FlashRemove { key: String },
    FlashErase,
}

/// The mathematical image of a [`Request`].
pub enum RequestView {
    Log,
    LogClear,
    Ident,
    SwitchClock(u8),
    LoadLibrary(Seq<u8>),
    RunKernel,
    RpcReply { tag: Seq<char> },
    RpcException(ExceptionView),
    FlashRead { key: Seq<char> },
    FlashWrite { key: Seq<char>, value: Seq<u8> },
    FlashRemove { key: Seq<char> },
    FlashErase,
}

impl View for Request {
    type V = RequestView;

    open spec fn view(&self) -> RequestView {
        match self {
            Request::Log => RequestView::Log,
            Request::LogClear => RequestView::LogClear,
            Request::Ident => RequestView::Ident,
            Request::SwitchClock(id) => RequestView::SwitchClock(*id),
            Request::LoadLibrary(code) => RequestView::LoadLibrary(code@),
            Request::RunKernel => RequestView::RunKernel,
            Request::RpcReply { tag } => RequestView::RpcReply { tag: tag@ },
            Request::RpcException(e) => RequestView::RpcException(e@),
            Request::FlashRead { key } => RequestView::FlashRead { key: key@ },
            Request::FlashWrite { key, value } => RequestView::FlashWrite {
                key: key@,
                value: value@,
            },
            Request::FlashRemove { key } => RequestView::FlashRemove { key: key@ },
            Request::FlashErase => RequestView::FlashErase,
        }
    }
}

/// The one-byte type tag of a request variant.
pub open spec fn request_tag(r: RequestView) -> u8 {
    match r {
        RequestView::Log => 1,
        RequestView::LogClear => 2,
        RequestView::Ident => 3,
        RequestView::SwitchClock(_) => 4,
        RequestView::LoadLibrary(_) => 5,
        RequestView::RunKernel => 6,
        RequestView::RpcReply { .. } => 7,
        RequestView::RpcException(_) => 8,
        RequestView::FlashRead { .. } => 9,
        RequestView::FlashWrite { .. } => 10,
        RequestView::FlashErase => 11,
        RequestView::FlashRemove { .. } => 12,
    }
}

/// The payload bytes that follow a request's type tag.
pub open spec fn request_body(r: RequestView) -> Seq<u8> {
    match r {
        RequestView::Log => Seq::empty(),
        RequestView::LogClear => Seq::empty(),
        RequestView::Ident => Seq::empty(),
        RequestView::SwitchClock(id) => seq![id],
        RequestView::LoadLibrary(code) => code,
        RequestView::RunKernel => Seq::empty(),
        RequestView::RpcReply { tag } => enc_string(tag),
        RequestView::RpcException(e) => enc_exception(e),
        RequestView::FlashRead { key } => enc_string(key),
        RequestView::FlashWrite { key, value } => enc_string(key) + enc_bytes(value),
        RequestView::FlashErase => Seq::empty(),
        RequestView::FlashRemove { key } => enc_string(key),
    }
}

/// A request the wire format can carry: every length field fits its 32-bit
/// prefix and the whole frame length fits the header's length field.
pub open spec fn request_wf(r: RequestView) -> bool {
    &&& match r {
        RequestView::RpcReply { tag } => string_fits(tag),
        RequestView::RpcException(e) => exception_wf(e),
        RequestView::FlashRead { key } => string_fits(key),
        RequestView::FlashWrite { key, value } => string_fits(key) && value.len() <= u32::MAX,
        RequestView::FlashRemove { key } => string_fits(key),
        _ => true,
    }
    &&& 9 + request_body(r).len() <= u32::MAX
}

/// The complete wire image of a request frame: sync marker, total length
/// (header included), type tag, payload.
pub open spec fn enc_request(r: RequestView) -> Seq<u8>
    recommends
        request_wf(r),
{
    sync_marker() + spec_u32_to_be_bytes((9 + request_body(r).len()) as u32) + seq![
        request_tag(r),
    ] + request_body(r)
}

/// Decoding the frame header: resynchronize, then read the declared total
/// length and the type tag.  A declared length below the nine header bytes
/// cannot be satisfied by any frame.
pub open spec fn dec_header(b: Seq<u8>) -> Result<(u32, u8, Seq<u8>), Error> {
    match dec_sync(b) {
        Err(e) => Err(e),
        Ok(after) => match dec_u32(after) {
            Err(e) => Err(e),
            Ok((length, b1)) => match dec_u8(b1) {
                Err(e) => Err(e),
                Ok((tag, body)) => if length < 9 {
                    Err(Error::LengthMismatch)
                } else {
                    Ok((length, tag, body))
                },
            },
        },
    }
}

/// Decoding the payload of one request variant, given its tag and the
/// declared payload length.  A tag outside 1 through 12 is malformed.
pub open spec fn dec_request_body(tag: u8, payload_len: int, b: Seq<u8>) -> Result<
    (RequestView, Seq<u8>),
    Error,
> {
    if tag == 1 {
        Ok((RequestView::Log, b))
    } else if tag == 2 {
        Ok((RequestView::LogClear, b))
    } else if tag == 3 {
        Ok((RequestView::Ident, b))
    } else if tag == 4 {
        match dec_u8(b) {
            Ok((id, r)) => Ok((RequestView::SwitchClock(id), r)),
            Err(e) => Err(e),
        }
    } else if tag == 5 {
        match dec_raw(b, payload_len) {
            Ok((code, r)) => Ok((RequestView::LoadLibrary(code), r)),
            Err(e) => Err(e),
        }
    } else if tag == 6 {
        Ok((RequestView::RunKernel, b))
    } else if tag == 7 {
        match dec_string(b) {
            Ok((t, r)) => Ok((RequestView::RpcReply { tag: t }, r)),
            Err(e) => Err(e),
        }
    } else if tag == 8 {
        match dec_exception(b) {
            Ok((exc, r)) => Ok((RequestView::RpcException(exc), r)),
            Err(e) => Err(e),
        }
    } else if tag == 9 {
        match dec_string(b) {
            Ok((key, r)) => Ok((RequestView::FlashRead { key }, r)),
            Err(e) => Err(e),
        }
    } else if tag == 10 {
        match dec_string(b) {
            Ok((key, r)) => match dec_bytes(r) {
                Ok((value, r2)) => Ok((RequestView::FlashWrite { key, value }, r2)),
                Err(e) => Err(e),
            },
            Err(e) => Err(e),
        }
    } else if tag == 11 {
        Ok((RequestView::FlashErase, b))
    } else if tag == 12 {
        match dec_string(b) {
            Ok((key, r)) => Ok((RequestView::FlashRemove { key }, r)),
            Err(e) => Err(e),
        }
    } else {
        Err(Error::UnknownTypeTag(tag))
    }
}

/// Decoding one whole request frame: header, variant payload, and the check
/// that the variant consumed exactly the declared payload length.
pub open spec fn dec_request(b: Seq<u8>) -> Result<(RequestView, Seq<u8>), Error> {
    match dec_header(b) {
        Err(e) => Err(e),
        Ok((length, tag, body)) => match dec_request_body(tag, length - 9, body) {
            Err(e) => Err(e),
            Ok((m, rest)) => if body.len() - rest.len() == length - 9 {
                Ok((m, rest))
            } else {
                Err(Error::LengthMismatch)
            },
        },
    }
}

/// Reads a frame header: sync scan, declared length, type tag.
fn read_header(reader: &mut Reader) -> (res: Result<(u32, u8), Error>)
    ensures
        match dec_header(old(reader)@) {
            Ok((length, tag, body)) => (res matches Ok(h) && h.0 == length && h.1 == tag)
                && final(reader)@ == body,
            Err(e) => res == Err::<(u32, u8), Error>(e),
        },
        suffix_of(final(reader)@, old(reader)@),
{
    let ghost s0 = reader@;
    match read_sync(reader) {
        Ok(_) => (),
        Err(e) => return Err(e),
    }
    let ghost s1 = reader@;
    let length = match read_u32(reader) {
        Ok(v) => v,
        Err(e) => return Err(e),
    };
    let ghost s2 = reader@;
    proof {
        lemma_suffix_trans(s2, s1, s0);
    }
    let tag = match read_u8(reader) {
        Ok(v) => v,
        Err(e) => return Err(e),
    };
    proof {
        lemma_suffix_trans(reader@, s2, s0);
    }
    if length < 9 {
        return Err(Error::LengthMismatch);
    }
    Ok((length, tag))
}

impl Request {
    /// Reads one whole request frame: resynchronizes on the sync marker,
    /// reads the header, dispatches on the type tag, and checks that the
    /// variant consumed exactly the declared payload length.
    #[verifier::rlimit(80)]
    pub fn read_from(reader: &mut Reader) -> (res: Result<Request, Error>)
        ensures
            match dec_request(old(reader)@) {
                Ok((m, rest)) => (res matches Ok(req) && req@ == m) && final(reader)@ == rest,
                Err(e) => res == Err::<Request, Error>(e),
            },
            suffix_of(final(reader)@, old(reader)@),
    {
        let ghost s0 = reader@;
        let header = match read_header(reader) {
            Ok(h) => h,
            Err(e) => return Err(e),
        };
        let length = header.0;
        let tag = header.1;
        let ghost body0 = reader@;
        let before = reader.remaining_len();
        let req = match tag {
            1 => Request::Log,
            2 => Request::LogClear,
            3 => Request::Ident,
            4 => {
                let id = match read_u8(reader) {
                    Ok(v) => v,
                    Err(e) => {
                        proof {
                            lemma_suffix_trans(reader@, body0, s0);
                        }
                        return Err(e);
                    },
                };
                proof {
                    lemma_suffix_trans(reader@, body0, s0);
                }
                Request::SwitchClock(id)
            },
            5 => {
                let n = (length - 9) as usize;
                let code = match read_exact(reader, n) {
                    Ok(v) => v,
                    Err(e) => {
                        proof {
                            lemma_suffix_trans(reader@, body0, s0);
                        }
                        return Err(e);
                    },
                };
                proof {
                    lemma_suffix_trans(reader@, body0, s0);
                }
                Request::LoadLibrary(code)
            },
            6 => Request::RunKernel,
            7 => {
                let t = match read_string(reader) {
                    Ok(v) => v,
                    Err(e) => {
                        proof {
                            lemma_suffix_trans(reader@, body0, s0);
                        }
                        return Err(e);
                    },
                };
                proof {
                    lemma_suffix_trans(reader@, body0, s0);
                }
                Request::RpcReply { tag: t }
            },
            8 => {
                let exc = match Exception::read_from(reader) {
                    Ok(v) => v,
                    Err(e) => {
                        proof {
                            lemma_suffix_trans(reader@, body0, s0);
                        }
                        return Err(e);
                    },
                };
                proof {
                    lemma_suffix_trans(reader@, body0, s0);
                }
                Request::RpcException(exc)
            },
            9 => {
                let key = match read_string(reader) {
                    Ok(v) => v,
                    Err(e) => {
                        proof {
                            lemma_suffix_trans(reader@, body0, s0);
                        }
                        return Err(e);
                    },
                };
                proof {
                    lemma_suffix_trans(reader@, body0, s0);
                }
                Request::FlashRead { key }
            },
            10 => {
                let key = match read_string(reader) {
                    Ok(v) => v,
                    Err(e) => {
                        proof {
                            lemma_suffix_trans(reader@, body0, s0);
                        }
                        return Err(e);
                    },
                };
                let ghost sk = reader@;
                proof {
                    lemma_suffix_trans(sk, body0, s0);
                }
                let value = match read_bytes(reader) {
                    Ok(v) => v,
                    Err(e) => {
                        proof {
                            lemma_suffix_trans(reader@, sk, s0);
                        }
                        return Err(e);
                    },
                };
                proof {
                    lemma_suffix_trans(reader@, sk, body0);
                    lemma_suffix_trans(reader@, body0, s0);
                }
                Request::FlashWrite { key, value }
            },
            11 => Request::FlashErase,
            12 => {
                let key = match read_string(reader) {
                    Ok(v) => v,
                    Err(e) => {
                        proof {
                            lemma_suffix_trans(reader@, body0, s0);
                        }
                        return Err(e);
                    },
                };
                proof {
                    lemma_suffix_trans(reader@, body0, s0);
                }
                Request::FlashRemove { key }
            },
            _ => {
                return Err(Error::UnknownTypeTag(tag));
            },
        };
        let after = reader.remaining_len();
        let payload = (length - 9) as usize;
        if before - after != payload {
            return Err(Error::LengthMismatch);
        }
        Ok(req)
    }

    /// Writes one whole request frame, staging it in a buffer and patching
    /// the length field once the payload size is known.  This is the mirror
    /// image of [`Request::read_from`], used to exercise the decoder.
    pub fn write_to(&self, writer: &mut Vec<u8>)
        requires
            request_wf(self@),
        ensures
            final(writer)@ == old(writer)@ + enc_request(self@),
    {
        let mut buf: Vec<u8> = Vec::new();
        write_sync(&mut buf);
        write_u32(&mut buf, 0);
        match self {
            Request::Log => write_u8(&mut buf, 1),
            Request::LogClear => write_u8(&mut buf, 2),
            Request::Ident => write_u8(&mut buf, 3),
            Request::SwitchClock(id) => {
                write_u8(&mut buf, 4);
                write_u8(&mut buf, *id);
            },
            Request::LoadLibrary(code) => {
                write_u8(&mut buf, 5);
                write_raw(&mut buf, code.as_slice());
            },
            Request::RunKernel => write_u8(&mut buf, 6),
            Request::RpcReply { tag } => {
                write_u8(&mut buf, 7);
                write_string(&mut buf, tag.as_str());
            },
            Request::RpcException(e) => {
                write_u8(&mut buf, 8);
                e.write_to(&mut buf);
            },
            Request::FlashRead { key } => {
                write_u8(&mut buf, 9);
                write_string(&mut buf, key.as_str());
            },
            Request::FlashWrite { key, value } => {
                write_u8(&mut buf, 10);
                write_string(&mut buf, key.as_str());
                write_bytes(&mut buf, value.as_slice());
            },
            Request::FlashErase => write_u8(&mut buf, 11),
            Request::FlashRemove { key } => {
                write_u8(&mut buf, 12);
                write_string(&mut buf, key.as_str());
            },
        }
        assert(buf@ =~= sync_marker() + spec_u32_to_be_bytes(0) + seq![request_tag(self@)]
            + request_body(self@));
        patch_frame_len(&mut buf);
        assert(buf@ =~= enc_request(self@));
        write_raw(writer, buf.as_slice());
    }
}

/// A message sent from the remote execution target to the controlling host.
#[derive(Debug, PartialEq, Eq)]
pub enum Reply {
    Log(String),
    Ident(String),
    ClockSwitchCompleted,
    ClockSwitchFailed,
    LoadCompleted,
    LoadFailed,
    KernelFinished,
    KernelStartupFailed,
    KernelException(Exception),
    RpcRequest { service: u32 },
    FlashRead(Vec<u8>),
    FlashOk,
    FlashError,
    WatchdogExpired,
    ClockFailure,
}

/// The mathematical image of a [`Reply`].
pub enum ReplyView {
    Log(Seq<char>),
    Ident(Seq<char>),
    ClockSwitchCompleted,
    ClockSwitchFailed,
    LoadCompleted,
    LoadFailed,
    KernelFinished,
    KernelStartupFailed,
    KernelException(ExceptionView),
    RpcRequest { service: u32 },
    FlashRead(Seq<u8>),
    FlashOk,
    FlashError,
    WatchdogExpired,
    ClockFailure,
}

impl View for Reply {
    type V = ReplyView;

    open spec fn view(&self) -> ReplyView {
        match self {
            Reply::Log(text) => ReplyView::Log(text@),
            Reply::Ident(text) => ReplyView::Ident(text@),
            Reply::ClockSwitchCompleted => ReplyView::ClockSwitchCompleted,
            Reply::ClockSwitchFailed => ReplyView::ClockSwitchFailed,
            Reply::LoadCompleted => ReplyView::LoadCompleted,
            Reply::LoadFailed => ReplyView::LoadFailed,
            Reply::KernelFinished => ReplyView::KernelFinished,
            Reply::KernelStartupFailed => ReplyView::KernelStartupFailed,
            Reply::KernelException(e) => ReplyView::KernelException(e@),
            Reply::RpcRequest { service } => ReplyView::RpcRequest { service: *service },
            Reply::FlashRead(bytes) => ReplyView::FlashRead(bytes@),
            Reply::FlashOk => ReplyView::FlashOk,
            Reply::FlashError => ReplyView::FlashError,
            Reply::WatchdogExpired => ReplyView::WatchdogExpired,
            Reply::ClockFailure => ReplyView::ClockFailure,
        }
    }
}

/// The fixed four ASCII bytes that open an ident reply's payload.
pub open spec fn ident_banner() -> Seq<u8> {
    seq![0x41u8, 0x52u8, 0x4fu8, 0x52u8]
}

/// The one-byte type tag of a reply variant.
pub open spec fn reply_tag(r: ReplyView) -> u8 {
    match r {
        ReplyView::Log(_) => 1,
        ReplyView::Ident(_) => 2,
        ReplyView::ClockSwitchCompleted => 3,
        ReplyView::ClockSwitchFailed => 4,
        ReplyView::LoadCompleted => 5,
        ReplyView::LoadFailed => 6,
        ReplyView::KernelFinished => 7,
        ReplyView::KernelStartupFailed => 8,
        ReplyView::KernelException(_) => 9,
        ReplyView::RpcRequest { .. } => 10,
        ReplyView::FlashRead(_) => 11,
        ReplyView::FlashOk => 12,
        ReplyView::FlashError => 13,
        ReplyView::WatchdogExpired => 14,
        ReplyView::ClockFailure => 15,
    }
}

/// The payload bytes that follow a reply's type tag.  Log and flash contents
/// are raw tails whose extent the frame length alone declares; an ident
/// payload opens with the fixed banner.
pub open spec fn reply_body(r: ReplyView) -> Seq<u8> {
    match r {
        ReplyView::Log(text) => encode_utf8(text),
        ReplyView::Ident(text) => ident_banner() + encode_utf8(text),
        ReplyView::KernelException(e) => enc_exception(e),
        ReplyView::RpcRequest { service } => spec_u32_to_be_bytes(service),
        ReplyView::FlashRead(bytes) => bytes,
        _ => Seq::empty(),
    }
}

/// A reply the wire format can carry: every length field fits its 32-bit
/// prefix and the whole frame length fits the header's length field.
pub open spec fn reply_wf(r: ReplyView) -> bool {
    &&& match r {
        ReplyView::KernelException(e) => exception_wf(e),
        _ => true,
    }
    &&& 9 + reply_body(r).len() <= u32::MAX
}

/// The complete wire image of a reply frame: sync marker, total length
/// (header included), type tag, payload.
pub open spec fn enc_reply(r: ReplyView) -> Seq<u8>
    recommends
        reply_wf(r),
{
    sync_marker() + spec_u32_to_be_bytes((9 + reply_body(r).len()) as u32) + seq![reply_tag(r)]
        + reply_body(r)
}

/// Decoding the payload of one reply variant, given its tag and the declared
/// payload length.  A tag outside 1 through 15 is malformed.
pub open spec fn dec_reply_body(tag: u8, payload_len: int, b: Seq<u8>) -> Result<
    (ReplyView, Seq<u8>),
    Error,
> {
    if tag == 1 {
        match dec_raw(b, payload_len) {
            Ok((bytes, r)) => if valid_utf8(bytes) {
                Ok((ReplyView::Log(decode_utf8(bytes)), r))
            } else {
                Err(Error::InvalidUtf8)
            },
            Err(e) => Err(e),
        }
    } else if tag == 2 {
        match dec_raw(b, payload_len) {
            Ok((bytes, r)) => if bytes.len() >= 4 && bytes.take(4) == ident_banner() {
                if valid_utf8(bytes.skip(4)) {
                    Ok((ReplyView::Ident(decode_utf8(bytes.skip(4))), r))
                } else {
                    Err(Error::InvalidUtf8)
                }
            } else {
                Err(Error::BadIdentBanner)
            },
            Err(e) => Err(e),
        }
    } else if tag == 3 {
        Ok((ReplyView::ClockSwitchCompleted, b))
    } else if tag == 4 {
        Ok((ReplyView::ClockSwitchFailed, b))
    } else if tag == 5 {
        Ok((ReplyView::LoadCompleted, b))
    } else if tag == 6 {
        Ok((ReplyView::LoadFailed, b))
    } else if tag == 7 {
        Ok((ReplyView::KernelFinished, b))
    } else if tag == 8 {
        Ok((ReplyView::KernelStartupFailed, b))
    } else if tag == 9 {
        match dec_exception(b) {
            Ok((exc, r)) => Ok((ReplyView::KernelException(exc), r)),
            Err(e) => Err(e),
        }
    } else if tag == 10 {
        match dec_u32(b) {
            Ok((service, r)) => Ok((ReplyView::RpcRequest { service }, r)),
            Err(e) => Err(e),
        }
    } else if tag == 11 {
        match dec_raw(b, payload_len) {
            Ok((bytes, r)) => Ok((ReplyView::FlashRead(bytes), r)),
            Err(e) => Err(e),
        }
    } else if tag == 12 {
        Ok((ReplyView::FlashOk, b))
    } else if tag == 13 {
        Ok((ReplyView::FlashError, b))
    } else if tag == 14 {
        Ok((ReplyView::WatchdogExpired, b))
    } else if tag == 15 {
        Ok((ReplyView::ClockFailure, b))
    } else {
        Err(Error::UnknownTypeTag(tag))
    }
}

/// Decoding one whole reply frame: header, variant payload, and the check
/// that the variant consumed exactly the declared payload length.
pub open spec fn dec_reply(b: Seq<u8>) -> Result<(ReplyView, Seq<u8>), Error> {
    match dec_header(b) {
        Err(e) => Err(e),
        Ok((length, tag, body)) => match dec_reply_body(tag, length - 9, body) {
            Err(e) => Err(e),
            Ok((m, rest)) => if body.len() - rest.len() == length - 9 {
                Ok((m, rest))
            } else {
                Err(Error::LengthMismatch)
            },
        },
    }
}

impl Reply {
    /// Reads one whole reply frame.  This is the mirror image of
    /// [`Reply::write_to`], used to exercise the encoder.
    #[verifier::spinoff_prover]
    #[verifier::rlimit(100)]
    pub fn read_from(reader: &mut Reader) -> (res: Result<Reply, Error>)
        ensures
            match dec_reply(old(reader)@) {
                Ok((m, rest)) => (res matches Ok(rep) && rep@ == m) && final(reader)@ == rest,
                Err(e) => res == Err::<Reply, Error>(e),
            },
            suffix_of(final(reader)@, old(reader)@),
    {
        let ghost s0 = reader@;
        let header = match read_header(reader) {
            Ok(h) => h,
            Err(e) => return Err(e),
        };
        let length = header.0;
        let tag = header.1;
        let ghost body0 = reader@;
        let before = reader.remaining_len();
        let rep = match tag {
            1 => {
                let n = (length - 9) as usize;
                let bytes = match read_exact(reader, n) {
                    Ok(v) => v,
                    Err(e) => {
                        proof {
                            lemma_suffix_trans(reader@, body0, s0);
                        }
                        return Err(e);
                    },
                };
                proof {
                    lemma_suffix_trans(reader@, body0, s0);
                }
                let text = match utf8_from_bytes(bytes) {
                    Ok(s) => s,
                    Err(e) => return Err(e),
                };
                Reply::Log(text)
            },
            2 => {
                let n = (length - 9) as usize;
                let bytes = match read_exact(reader, n) {
                    Ok(v) => v,
                    Err(e) => {
                        proof {
                            lemma_suffix_trans(reader@, body0, s0);
                        }
                        return Err(e);
                    },
                };
                proof {
                    lemma_suffix_trans(reader@, body0, s0);
                }
                if bytes.len() < 4 || bytes[0] != 0x41 || bytes[1] != 0x52 || bytes[2] != 0x4f
                    || bytes[3] != 0x52 {
                    return Err(Error::BadIdentBanner);
                }
                assert(bytes@.take(4) =~= ident_banner());
                let tail = tail_of(&bytes, 4);
                let text = match utf8_from_bytes(tail) {
                    Ok(s) => s,
                    Err(e) => return Err(e),
                };
                Reply::Ident(text)
            },
            3 => Reply::ClockSwitchCompleted,
            4 => Reply::ClockSwitchFailed,
            5 => Reply::LoadCompleted,
            6 => Reply::LoadFailed,
            7 => Reply::KernelFinished,
            8 => Reply::KernelStartupFailed,
            9 => {
                let exc = match Exception::read_from(reader) {
                    Ok(v) => v,
                    Err(e) => {
                        proof {
                            lemma_suffix_trans(reader@, body0, s0);
                        }
                        return Err(e);
                    },
                };
                proof {
                    lemma_suffix_trans(reader@, body0, s0);
                }
                Reply::KernelException(exc)
            },
            10 => {
                let service = match read_u32(reader) {
                    Ok(v) => v,
                    Err(e) => {
                        proof {
                            lemma_suffix_trans(reader@, body0, s0);
                        }
                        return Err(e);
                    },
                };
                proof {
                    lemma_suffix_trans(reader@, body0, s0);
                }
                Reply::RpcRequest { service }
            },
            11 => {
                let n = (length - 9) as usize;
                let bytes = match read_exact(reader, n) {
                    Ok(v) => v,
                    Err(e) => {
                        proof {
                            lemma_suffix_trans(reader@, body0, s0);
                        }
                        return Err(e);
                    },
                };
                proof {
                    lemma_suffix_trans(reader@, body0, s0);
                }
                Reply::FlashRead(bytes)
            },
            12 => Reply::FlashOk,
            13 => Reply::FlashError,
            14 => Reply::WatchdogExpired,
            15 => Reply::ClockFailure,
            _ => {
                return Err(Error::UnknownTypeTag(tag));
            },
        };
        let after = reader.remaining_len();
        let payload = (length - 9) as usize;
        if before - after != payload {
            return Err(Error::LengthMismatch);
        }
        Ok(rep)
    }

    /// Writes one whole reply frame, staging it in a buffer and patching the
    /// length field once the payload size is known.  Every variant is staged
    /// in that buffer — the `KernelException` record too, so the declared
    /// length covers its payload and the framing is uniform across variants.
    pub fn write_to(&self, writer: &mut Vec<u8>)
        requires
            reply_wf(self@),
        ensures
            final(writer)@ == old(writer)@ + enc_reply(self@),
    {
        let mut buf: Vec<u8> = Vec::new();
        write_sync(&mut buf);
        write_u32(&mut buf, 0);
        match self {
            Reply::Log(text) => {
                write_u8(&mut buf, 1);
                let tb = text.as_str().as_bytes_vec();
                write_raw(&mut buf, tb.as_slice());
            },
            Reply::Ident(text) => {
                write_u8(&mut buf, 2);
                write_u8(&mut buf, 0x41);
                write_u8(&mut buf, 0x52);
                write_u8(&mut buf, 0x4f);
                write_u8(&mut buf, 0x52);
                let tb = text.as_str().as_bytes_vec();
                write_raw(&mut buf, tb.as_slice());
            },
            Reply::ClockSwitchCompleted => write_u8(&mut buf, 3),
            Reply::ClockSwitchFailed => write_u8(&mut buf, 4),
            Reply::LoadCompleted => write_u8(&mut buf, 5),
            Reply::LoadFailed => write_u8(&mut buf, 6),
            Reply::KernelFinished => write_u8(&mut buf, 7),
            Reply::KernelStartupFailed => write_u8(&mut buf, 8),
            Reply::KernelException(e) => {
                write_u8(&mut buf, 9);
                e.write_to(&mut buf);
            },
            Reply::RpcRequest { service } => {
                write_u8(&mut buf, 10);
                write_u32(&mut buf, *service);
            },
            Reply::FlashRead(bytes) => {
                write_u8(&mut buf, 11);
                write_raw(&mut buf, bytes.as_slice());
            },
            Reply::FlashOk => write_u8(&mut buf, 12),
            Reply::FlashError => write_u8(&mut buf, 13),
            Reply::WatchdogExpired => write_u8(&mut buf, 14),
            Reply::ClockFailure => write_u8(&mut buf, 15),
        }
        assert(buf@ =~= sync_marker() + spec_u32_to_be_bytes(0) + seq![reply_tag(self@)]
            + reply_body(self@));
        patch_frame_len(&mut buf);
        assert(buf@ =~= enc_reply(self@));
        write_raw(writer, buf.as_slice());
    }
}

/// Copies the bytes of `v` from position `from` to the end.
#[verifier::loop_isolation(false)]
fn tail_of(v: &Vec<u8>, from: usize) -> (out: Vec<u8>)
    requires
        from <= v@.len(),
    ensures
        out@ == v@.skip(from as int),
{
    let mut out: Vec<u8> = Vec::new();
    let mut i: usize = from;
    while i < v.len()
        invariant
            from <= i <= v@.len(),
            out@ =~= v@.subrange(from as int, i as int),
        decreases v@.len() - i,
    {
        let b = v[i];
        out.push(b);
        i = i + 1;
        assert(out@ =~= v@.subrange(from as int, i as int));
    }
    assert(out@ =~= v@.skip(from as int));
    out
}

/// Overwrites bytes 4 through 7 of a staged frame with the frame's own total
/// length, big-endian, completing the header that was written with a
/// placeholder.
fn patch_frame_len(buf: &mut Vec<u8>)
    requires
        8 <= old(buf)@.len() <= u32::MAX,
    ensures
        final(buf)@ == old(buf)@.take(4) + spec_u32_to_be_bytes(old(buf)@.len() as u32) + old(
            buf,
        )@.skip(8),
{
    let n = buf.len() as u32;
    proof {
        assert((n >> 24) & 0xff < 256 && (n >> 16) & 0xff < 256 && (n >> 8) & 0xff < 256 && n
            & 0xff < 256) by (bit_vector);
    }
    buf.set(4, ((n >> 24) & 0xff) as u8);
    buf.set(5, ((n >> 16) & 0xff) as u8);
    buf.set(6, ((n >> 8) & 0xff) as u8);
    buf.set(7, (n & 0xff) as u8);
    assert(buf@ =~= old(buf)@.take(4) + spec_u32_to_be_bytes(old(buf)@.len() as u32) + old(
        buf,
    )@.skip(8));
}

} // verus!
