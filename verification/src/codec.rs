//! Primitive codec: a byte cursor over received data, the sync-marker scanner
//! that resynchronizes after stream corruption, and the length-prefixed
//! readers and writers for integers, byte blocks and strings.
//!
//! Every reader is specified against a specification-level decoder (`dec_*`)
//! on the remaining byte sequence, and every writer against the byte image
//! (`enc_*`, or the `spec_*_to_be_bytes` images) it appends.  A reader that
//! fails leaves the cursor exactly where it was, so the caller can
//! resynchronize or hand the stream more bytes and retry.

use vstd::prelude::*;
use vstd::string::StrSliceExecFns;
use vstd::utf8::{decode_utf8, encode_utf8, valid_utf8};

use crate::endian::{
    spec_u32_from_be_bytes, spec_u32_to_be_bytes, spec_u64_from_be_bytes, spec_u64_to_be_bytes,
    u32_from_be, u32_to_be_append, u64_from_be, u64_to_be_append,
};
use crate::error::Error;

verus! {

/// A read cursor over the bytes received from the transport.
///
/// The transport layer collects raw bytes and hands them over as a `Vec`;
/// the readers below consume them front to back.
pub struct Reader {
    data: Vec<u8>,
    pos: usize,
}

impl View for Reader {
    type V = Seq<u8>;

    /// The bytes not yet consumed.
    closed spec fn view(&self) -> Seq<u8> {
        if self.pos <= self.data.len() {
            self.data@.skip(self.pos as int)
        } else {
            Seq::empty()
        }
    }
}

impl Reader {
    #[verifier::type_invariant]
    spec fn inv(self) -> bool {
        self.pos <= self.data.len()
    }

    /// A cursor positioned at the start of `data`.
    pub fn new(data: Vec<u8>) -> (r: Reader)
        ensures
            r@ == data@,
    {
        let r = Reader { data, pos: 0 };
        assert(r@ =~= r.data@);
        r
    }

    /// How many bytes are left to consume.
    pub fn remaining_len(&self) -> (n: usize)
        ensures
            n == self@.len(),
    {
        proof {
            use_type_invariant(self);
        }
        self.data.len() - self.pos
    }
}

/// The fixed four-byte pattern that precedes every frame.
pub open spec fn sync_marker() -> Seq<u8> {
    seq![0x5au8, 0x5au8, 0x5au8, 0x5au8]
}

/// True when the sync pattern occupies positions `i .. i + 4` of `b`.
pub open spec fn sync_at(b: Seq<u8>, i: int) -> bool {
    &&& 0 <= i
    &&& i + 4 <= b.len()
    &&& b[i] == 0x5au8
    &&& b[i + 1] == 0x5au8
    &&& b[i + 2] == 0x5au8
    &&& b[i + 3] == 0x5au8
}

/// The position of the first sync pattern in `b`, if any.
pub open spec fn find_sync(b: Seq<u8>) -> Option<int>
    decreases b.len(),
{
    if b.len() < 4 {
        None
    } else if sync_at(b, 0) {
        Some(0)
    } else {
        match find_sync(b.skip(1)) {
            Some(j) => Some(j + 1),
            None => None,
        }
    }
}

/// `find_sync` returns the first sync position, or `None` when there is none.
pub proof fn lemma_find_sync_props(b: Seq<u8>)
    ensures
        match find_sync(b) {
            Some(j) => sync_at(b, j) && (forall|k: int| 0 <= k < j ==> !sync_at(b, k)),
            None => forall|k: int| !sync_at(b, k),
        },
    decreases b.len(),
{
    if b.len() < 4 {
    } else if sync_at(b, 0) {
    } else {
        lemma_find_sync_props(b.skip(1));
        assert forall|m: int| 0 <= m implies sync_at(b.skip(1), m) == sync_at(b, m + 1) by {
            if m + 5 <= b.len() {
                assert(b.skip(1)[m] == b[m + 1]);
                assert(b.skip(1)[m + 1] == b[m + 2]);
                assert(b.skip(1)[m + 2] == b[m + 3]);
                assert(b.skip(1)[m + 3] == b[m + 4]);
            }
        }
        match find_sync(b.skip(1)) {
            Some(j) => {
                assert(sync_at(b, j + 1));
                assert forall|k: int| 0 <= k < j + 1 implies !sync_at(b, k) by {
                    if k > 0 {
                        assert(!sync_at(b.skip(1), k - 1));
                    }
                }
            },
            None => {
                assert forall|k: int| !sync_at(b, k) by {
                    if k > 0 {
                        assert(!sync_at(b.skip(1), k - 1));
                    }
                }
            },
        }
    }
}

/// A sync pattern with none before it is the one `find_sync` returns.
pub proof fn lemma_find_sync_first(b: Seq<u8>, j: int)
    requires
        sync_at(b, j),
        forall|k: int| 0 <= k < j ==> !sync_at(b, k),
    ensures
        find_sync(b) == Some(j),
{
    lemma_find_sync_props(b);
    match find_sync(b) {
        Some(m) => {
            if m < j {
                assert(!sync_at(b, m));
            }
            if m > j {
                assert(!sync_at(b, j));
            }
        },
        None => {
            assert(!sync_at(b, j));
        },
    }
}

/// Decoding the sync scan: everything through the end of the first sync
/// pattern is consumed; a stream without one is a transport failure.
pub open spec fn dec_sync(b: Seq<u8>) -> Result<Seq<u8>, Error> {
    match find_sync(b) {
        Some(j) => Ok(b.skip(j + 4)),
        None => Err(Error::Truncated),
    }
}

/// Decoding one byte.
pub open spec fn dec_u8(b: Seq<u8>) -> Result<(u8, Seq<u8>), Error> {
    if b.len() >= 1 {
        Ok((b[0], b.skip(1)))
    } else {
        Err(Error::Truncated)
    }
}

/// Decoding a 32-bit big-endian integer.
pub open spec fn dec_u32(b: Seq<u8>) -> Result<(u32, Seq<u8>), Error> {
    if b.len() >= 4 {
        Ok((spec_u32_from_be_bytes(b.take(4)), b.skip(4)))
    } else {
        Err(Error::Truncated)
    }
}

/// Decoding a 64-bit big-endian integer.
pub open spec fn dec_u64(b: Seq<u8>) -> Result<(u64, Seq<u8>), Error> {
    if b.len() >= 8 {
        Ok((spec_u64_from_be_bytes(b.take(8)), b.skip(8)))
    } else {
        Err(Error::Truncated)
    }
}

/// Decoding `n` raw bytes.
pub open spec fn dec_raw(b: Seq<u8>, n: int) -> Result<(Seq<u8>, Seq<u8>), Error>
    recommends
        n >= 0,
{
    if 0 <= n <= b.len() {
        Ok((b.take(n), b.skip(n)))
    } else {
        Err(Error::Truncated)
    }
}

/// Decoding a length-prefixed byte block.
pub open spec fn dec_bytes(b: Seq<u8>) -> Result<(Seq<u8>, Seq<u8>), Error> {
    match dec_u32(b) {
        Ok((n, rest)) => dec_raw(rest, n as int),
        Err(e) => Err(e),
    }
}

/// Decoding a length-prefixed string: the block must be non-empty, its last
/// byte (the mandatory terminator) is dropped, and the remainder must be
/// valid UTF-8.
pub open spec fn dec_string(b: Seq<u8>) -> Result<(Seq<char>, Seq<u8>), Error> {
    match dec_bytes(b) {
        Ok((block, rest)) => {
            if block.len() == 0 {
                Err(Error::EmptyStringBlock)
            } else {
                let body = block.take(block.len() - 1);
                if valid_utf8(body) {
                    Ok((decode_utf8(body), rest))
                } else {
                    Err(Error::InvalidUtf8)
                }
            }
        },
        Err(e) => Err(e),
    }
}

/// The wire image of a length-prefixed byte block.
pub open spec fn enc_bytes(b: Seq<u8>) -> Seq<u8>
    recommends
        b.len() <= u32::MAX,
{
    spec_u32_to_be_bytes(b.len() as u32) + b
}

/// The wire image of a length-prefixed string: the UTF-8 bytes followed by a
/// single zero terminator, the prefix counting both.
pub open spec fn enc_string(s: Seq<char>) -> Seq<u8> {
    enc_bytes(encode_utf8(s) + seq![0u8])
}

/// True when the string's wire block length fits the 32-bit length prefix.
pub open spec fn string_fits(s: Seq<char>) -> bool {
    encode_utf8(s).len() + 1 <= u32::MAX
}

/// True when `a` is a suffix of `b`.  A reader only ever consumes from the
/// front, so whatever it leaves behind is a suffix of what it was given.
pub open spec fn suffix_of(a: Seq<u8>, b: Seq<u8>) -> bool {
    a.len() <= b.len() && a =~= b.skip(b.len() - a.len())
}

/// A suffix of a suffix is a suffix.
pub broadcast proof fn lemma_suffix_trans(a: Seq<u8>, b: Seq<u8>, c: Seq<u8>)
    requires
        suffix_of(a, b),
        suffix_of(b, c),
    ensures
        #![trigger suffix_of(a, b), suffix_of(b, c)]
        suffix_of(a, c),
{
    assert(a =~= c.skip(c.len() - a.len()));
}

/// Relies on `String::from_utf8` from std: it succeeds exactly on valid
/// UTF-8 input and yields the characters those bytes encode, as vstd's
/// `valid_utf8` and `decode_utf8` define them.
#[verifier::external_body]
fn string_from_utf8(bytes: Vec<u8>) -> (r: Option<String>)
    ensures
        (r is Some) == valid_utf8(bytes@),
        r matches Some(s) ==> s@ == decode_utf8(bytes@),
{
    String::from_utf8(bytes).ok()
}

/// Turns raw bytes into a string, failing on invalid UTF-8.  Raw-tail reply
/// payloads (log text, ident text) go through this.
pub fn utf8_from_bytes(bytes: Vec<u8>) -> (res: Result<String, Error>)
    ensures
        match res {
            Ok(s) => valid_utf8(bytes@) && s@ == decode_utf8(bytes@),
            Err(e) => e == Error::InvalidUtf8 && !valid_utf8(bytes@),
        },
{
    match string_from_utf8(bytes) {
        Some(s) => Ok(s),
        None => Err(Error::InvalidUtf8),
    }
}

/// Consumes one byte.
pub fn read_u8(reader: &mut Reader) -> (res: Result<u8, Error>)
    ensures
        match dec_u8(old(reader)@) {
            Ok((v, rest)) => res == Ok::<u8, Error>(v) && final(reader)@ == rest,
            Err(e) => res == Err::<u8, Error>(e) && final(reader)@ == old(reader)@,
        },
        suffix_of(final(reader)@, old(reader)@),
{
    proof {
        use_type_invariant(&*reader);
    }
    if reader.pos < reader.data.len() {
        let v = reader.data[reader.pos];
        reader.pos = reader.pos + 1;
        assert(reader@ =~= old(reader)@.skip(1));
        Ok(v)
    } else {
        Err(Error::Truncated)
    }
}

/// Consumes four bytes as a big-endian 32-bit integer.
pub fn read_u32(reader: &mut Reader) -> (res: Result<u32, Error>)
    ensures
        match dec_u32(old(reader)@) {
            Ok((v, rest)) => res == Ok::<u32, Error>(v) && final(reader)@ == rest,
            Err(e) => res == Err::<u32, Error>(e) && final(reader)@ == old(reader)@,
        },
        suffix_of(final(reader)@, old(reader)@),
{
    proof {
        use_type_invariant(&*reader);
    }
    if reader.data.len() - reader.pos >= 4 {
        let v = u32_from_be(
            reader.data[reader.pos],
            reader.data[reader.pos + 1],
            reader.data[reader.pos + 2],
            reader.data[reader.pos + 3],
        );
        reader.pos = reader.pos + 4;
        assert(old(reader)@.take(4) =~= seq![
            old(reader).data@[old(reader).pos as int],
            old(reader).data@[old(reader).pos + 1],
            old(reader).data@[old(reader).pos + 2],
            old(reader).data@[old(reader).pos + 3],
        ]);
        assert(reader@ =~= old(reader)@.skip(4));
        Ok(v)
    } else {
        Err(Error::Truncated)
    }
}

/// Consumes eight bytes as a big-endian 64-bit integer.
pub fn read_u64(reader: &mut Reader) -> (res: Result<u64, Error>)
    ensures
        match dec_u64(old(reader)@) {
            Ok((v, rest)) => res == Ok::<u64, Error>(v) && final(reader)@ == rest,
            Err(e) => res == Err::<u64, Error>(e) && final(reader)@ == old(reader)@,
        },
        suffix_of(final(reader)@, old(reader)@),
{
    proof {
        use_type_invariant(&*reader);
    }
    if reader.data.len() - reader.pos >= 8 {
        let v = u64_from_be(
            reader.data[reader.pos],
            reader.data[reader.pos + 1],
            reader.data[reader.pos + 2],
            reader.data[reader.pos + 3],
            reader.data[reader.pos + 4],
            reader.data[reader.pos + 5],
            reader.data[reader.pos + 6],
            reader.data[reader.pos + 7],
        );
        reader.pos = reader.pos + 8;
        assert(old(reader)@.take(8) =~= seq![
            old(reader).data@[old(reader).pos as int],
            old(reader).data@[old(reader).pos + 1],
            old(reader).data@[old(reader).pos + 2],
            old(reader).data@[old(reader).pos + 3],
            old(reader).data@[old(reader).pos + 4],
            old(reader).data@[old(reader).pos + 5],
            old(reader).data@[old(reader).pos + 6],
            old(reader).data@[old(reader).pos + 7],
        ]);
        assert(reader@ =~= old(reader)@.skip(8));
        Ok(v)
    } else {
        Err(Error::Truncated)
    }
}

/// Consumes exactly `n` raw bytes.
#[verifier::loop_isolation(false)]
pub fn read_exact(reader: &mut Reader, n: usize) -> (res: Result<Vec<u8>, Error>)
    ensures
        match dec_raw(old(reader)@, n as int) {
            Ok((v, rest)) => (res matches Ok(out) && out@ == v) && final(reader)@ == rest,
            Err(e) => res == Err::<Vec<u8>, Error>(e) && final(reader)@ == old(reader)@,
        },
        suffix_of(final(reader)@, old(reader)@),
{
    proof {
        use_type_invariant(&*reader);
    }
    if n <= reader.data.len() - reader.pos {
        let mut out: Vec<u8> = Vec::new();
        let mut i: usize = 0;
        while i < n
            invariant
                i <= n,
                out@ =~= old(reader)@.take(i as int),
            decreases n - i,
        {
            out.push(reader.data[reader.pos + i]);
            i = i + 1;
            assert(out@ =~= old(reader)@.take(i as int));
        }
        reader.pos = reader.pos + n;
        assert(reader@ =~= old(reader)@.skip(n as int));
        Ok(out)
    } else {
        Err(Error::Truncated)
    }
}

/// Consumes a length-prefixed byte block.
#[verifier::rlimit(40)]
pub fn read_bytes(reader: &mut Reader) -> (res: Result<Vec<u8>, Error>)
    ensures
        match dec_bytes(old(reader)@) {
            Ok((v, rest)) => (res matches Ok(out) && out@ == v) && final(reader)@ == rest,
            Err(e) => res == Err::<Vec<u8>, Error>(e) && final(reader)@ == old(reader)@,
        },
        suffix_of(final(reader)@, old(reader)@),
{
    proof {
        use_type_invariant(&*reader);
    }
    let avail = reader.data.len() - reader.pos;
    if avail < 4 {
        return Err(Error::Truncated);
    }
    // Peek at the length prefix so that a short block consumes nothing.
    let n32 = u32_from_be(
        reader.data[reader.pos],
        reader.data[reader.pos + 1],
        reader.data[reader.pos + 2],
        reader.data[reader.pos + 3],
    );
    let n = n32 as usize;
    if n > avail - 4 {
        assert(old(reader)@.take(4) =~= seq![
            old(reader).data@[old(reader).pos as int],
            old(reader).data@[old(reader).pos + 1],
            old(reader).data@[old(reader).pos + 2],
            old(reader).data@[old(reader).pos + 3],
        ]);
        return Err(Error::Truncated);
    }
    let length = read_u32(reader);
    proof {
        use_type_invariant(&*reader);
    }
    assert(old(reader)@.take(4) =~= seq![
        old(reader).data@[old(reader).pos as int],
        old(reader).data@[old(reader).pos + 1],
        old(reader).data@[old(reader).pos + 2],
        old(reader).data@[old(reader).pos + 3],
    ]);
    match length {
        Ok(_) => (),
        Err(_) => {
            proof {
                assert(false);
            }
        },
    }
    let ghost mid = reader@;
    let block = read_exact(reader, n);
    proof {
        lemma_suffix_trans(reader@, mid, old(reader)@);
    }
    match block {
        Ok(v) => Ok(v),
        Err(_) => {
            proof {
                assert(false);
            }
            Err(Error::Truncated)
        },
    }
}

/// Consumes a length-prefixed string, dropping the mandatory terminator.
pub fn read_string(reader: &mut Reader) -> (res: Result<String, Error>)
    ensures
        match dec_string(old(reader)@) {
            Ok((s, rest)) => (res matches Ok(v) && v@ == s) && final(reader)@ == rest,
            Err(e) => res == Err::<String, Error>(e) && final(reader)@ == old(reader)@,
        },
        suffix_of(final(reader)@, old(reader)@),
{
    proof {
        use_type_invariant(&*reader);
    }
    let avail = reader.data.len() - reader.pos;
    if avail < 4 {
        return Err(Error::Truncated);
    }
    let n32 = u32_from_be(
        reader.data[reader.pos],
        reader.data[reader.pos + 1],
        reader.data[reader.pos + 2],
        reader.data[reader.pos + 3],
    );
    proof {
        assert(old(reader)@.take(4) =~= seq![
            old(reader).data@[old(reader).pos as int],
            old(reader).data@[old(reader).pos + 1],
            old(reader).data@[old(reader).pos + 2],
            old(reader).data@[old(reader).pos + 3],
        ]);
    }
    let n = n32 as usize;
    if n > avail - 4 {
        return Err(Error::Truncated);
    }
    if n == 0 {
        return Err(Error::EmptyStringBlock);
    }
    // Copy the block body (without its terminator byte) before committing,
    // so that invalid UTF-8 consumes nothing.
    let body_len = n - 1;
    let mut body: Vec<u8> = Vec::new();
    let mut i: usize = 0;
    let ghost block = old(reader)@.skip(4).take(n as int);
    #[verifier::loop_isolation(false)]
    while i < body_len
        invariant
            i <= body_len,
            body@ =~= block.take(i as int),
        decreases body_len - i,
    {
        proof {
            lemma_block_byte(reader, n, i);
        }
        body.push(reader.data[reader.pos + 4 + i]);
        i = i + 1;
        assert(body@ =~= block.take(i as int));
    }
    assert(body@ =~= block.take(block.len() - 1));
    match string_from_utf8(body) {
        Some(s) => {
            reader.pos = reader.pos + 4 + n;
            assert(reader@ =~= old(reader)@.skip(4).skip(n as int));
            Ok(s)
        },
        None => Err(Error::InvalidUtf8),
    }
}

/// The byte at offset `4 + i` of the reader is the block byte `i`.
proof fn lemma_block_byte(reader: &Reader, n: usize, i: usize)
    requires
        reader.inv(),
        reader.pos + 4 + n <= reader.data.len(),
        i < n,
    ensures
        reader.pos + 4 + i < reader.data.len(),
        reader.data@[reader.pos + 4 + i] == reader@.skip(4).take(n as int)[i as int],
{
}

/// Scans for the sync marker, consuming everything through its end; a stream
/// without one is left untouched so more bytes can be supplied.
#[verifier::loop_isolation(false)]
pub fn read_sync(reader: &mut Reader) -> (res: Result<(), Error>)
    ensures
        match dec_sync(old(reader)@) {
            Ok(rest) => res == Ok::<(), Error>(()) && final(reader)@ == rest,
            Err(e) => res == Err::<(), Error>(e) && final(reader)@ == old(reader)@,
        },
        suffix_of(final(reader)@, old(reader)@),
{
    proof {
        use_type_invariant(&*reader);
    }
    let len = reader.data.len();
    if len >= 4 && reader.pos <= len - 4 {
        let last = len - 4;
        let mut i: usize = reader.pos;
        while i <= last
            invariant
                *reader == *old(reader),
                old(reader).pos <= i,
                i <= last + 1,
                forall|k: int| old(reader).pos <= k < i ==> !sync_at(reader.data@, k),
            decreases last + 1 - i,
        {
            if reader.data[i] == 0x5a && reader.data[i + 1] == 0x5a && reader.data[i + 2] == 0x5a
                && reader.data[i + 3] == 0x5a {
                proof {
                    let v = old(reader)@;
                    let j = i - old(reader).pos;
                    assert(sync_at(v, j));
                    assert forall|k: int| 0 <= k < j implies !sync_at(v, k) by {
                        assert(!sync_at(reader.data@, old(reader).pos + k));
                    }
                    lemma_find_sync_first(v, j);
                }
                reader.pos = i + 4;
                assert(reader@ =~= old(reader)@.skip(i - old(reader).pos + 4));
                return Ok(());
            }
            i = i + 1;
        }
        proof {
            let v = old(reader)@;
            assert forall|k: int| !sync_at(v, k) by {
                if 0 <= k && k + 4 <= v.len() {
                    assert(!sync_at(reader.data@, old(reader).pos + k));
                }
            }
            lemma_find_sync_props(v);
        }
        Err(Error::Truncated)
    } else {
        proof {
            let v = old(reader)@;
            assert forall|k: int| !sync_at(v, k) by {}
            lemma_find_sync_props(v);
        }
        Err(Error::Truncated)
    }
}

/// Appends one byte.
pub fn write_u8(writer: &mut Vec<u8>, value: u8)
    ensures
        final(writer)@ == old(writer)@ + seq![value],
{
    writer.push(value);
    assert(writer@ =~= old(writer)@ + seq![value]);
}

/// Appends a 32-bit integer in big-endian order.
pub fn write_u32(writer: &mut Vec<u8>, value: u32)
    ensures
        final(writer)@ == old(writer)@ + spec_u32_to_be_bytes(value),
{
    u32_to_be_append(writer, value);
}

/// Appends a 64-bit integer in big-endian order.
pub fn write_u64(writer: &mut Vec<u8>, value: u64)
    ensures
        final(writer)@ == old(writer)@ + spec_u64_to_be_bytes(value),
{
    u64_to_be_append(writer, value);
}

/// Appends raw bytes without a length prefix.
#[verifier::loop_isolation(false)]
pub fn write_raw(writer: &mut Vec<u8>, value: &[u8])
    ensures
        final(writer)@ == old(writer)@ + value@,
{
    let n = value.len();
    let mut i: usize = 0;
    while i < n
        invariant
            i <= n,
            writer@ =~= old(writer)@ + value@.take(i as int),
        decreases n - i,
    {
        let b = value[i];
        writer.push(b);
        i = i + 1;
        assert(writer@ =~= old(writer)@ + value@.take(i as int));
    }
    assert(writer@ =~= old(writer)@ + value@);
}

/// Appends a length-prefixed byte block.
pub fn write_bytes(writer: &mut Vec<u8>, value: &[u8])
    requires
        value@.len() <= u32::MAX,
    ensures
        final(writer)@ == old(writer)@ + enc_bytes(value@),
{
    write_u32(writer, value.len() as u32);
    write_raw(writer, value);
    assert(writer@ =~= old(writer)@ + enc_bytes(value@));
}

/// Appends a length-prefixed string: its UTF-8 bytes and a zero terminator.
pub fn write_string(writer: &mut Vec<u8>, value: &str)
    requires
        string_fits(value@),
    ensures
        final(writer)@ == old(writer)@ + enc_string(value@),
{
    let mut block = value.as_bytes_vec();
    block.push(0u8);
    assert(block@ =~= encode_utf8(value@) + seq![0u8]);
    write_bytes(writer, block.as_slice());
}

/// Appends the four-byte sync marker.
pub fn write_sync(writer: &mut Vec<u8>)
    ensures
        final(writer)@ == old(writer)@ + sync_marker(),
{
    writer.push(0x5a);
    writer.push(0x5a);
    writer.push(0x5a);
    writer.push(0x5a);
    assert(writer@ =~= old(writer)@ + sync_marker());
}

} // verus!
