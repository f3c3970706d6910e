//! Wire codec for the session link between a host controller and a remote
//! real-time execution target.
//!
//! Every frame on the link is `[sync: 4 bytes][length: u32 BE][type: u8]`
//! followed by a variant-specific payload of `length - 9` bytes.  The crate
//! provides the primitive big-endian readers and writers, the sync-marker
//! scanner that resynchronizes after stream corruption, and the typed
//! `Request`/`Reply` message sets with structured exception marshaling.
//! Transport I/O is left to the caller: decoding works on an in-memory
//! [`codec::Reader`] and encoding appends to a byte buffer.

pub mod codec;
pub mod endian;
pub mod error;
pub mod laws;
pub mod message;
