use vstd::prelude::*;

verus! {

/// Failure of a decode operation.
///
/// `Truncated` is the transport-level failure: the stream ended before the
/// bytes a field or a declared frame length called for.  All other variants
/// are malformed-content failures: the bytes were there but did not form a
/// valid frame.  Neither kind ever aborts the process; the caller decides
/// whether to resynchronize or drop the session.
#[derive(Clone, Copy, Debug, PartialEq, Eq)]
pub enum Error {
    /// The stream ended before the requested bytes were available.
    Truncated,
    /// A string field did not hold valid UTF-8.
    InvalidUtf8,
    /// A string block had length zero, leaving no room for the terminator.
    EmptyStringBlock,
    /// The one-byte type tag was outside the defined set.
    UnknownTypeTag(u8),
    /// The declared frame length did not match the bytes the variant consumed,
    /// or was smaller than the nine-byte header.
    LengthMismatch,
    /// An ident reply did not begin with the fixed four-byte banner.
    BadIdentBanner,
}

impl Error {
    /// True for the transport-level failure, false for malformed content.
    pub open spec fn spec_is_transport(self) -> bool {
        self is Truncated
    }

    /// True for the transport-level failure, false for malformed content.
    pub fn is_transport(&self) -> (b: bool)
        ensures
            b == self.spec_is_transport(),
    {
        matches!(self, Error::Truncated)
    }
}

} // verus!
