//! Error kinds of the session engine.

use vstd::prelude::*;

verus! {

/// Why an operation failed.
#[derive(Clone, Debug)]
pub enum Error {
    /// Connecting, reading or writing failed (raised by the I/O shell).
    Io(String),
    /// A malformed frame: a bad length VarInt, a negative length, or a
    /// packet too large for its length prefix.
    Decode,
    /// A packet arrived that the current protocol state cannot accept.
    ProtocolState,
    /// The server ended the session; carries the reason text.
    Disconnected(String),
    /// A user callback panicked (raised by the I/O shell).
    CallbackPanic,
}

} // verus!
