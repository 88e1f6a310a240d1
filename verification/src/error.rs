//! Failures a session can end with.

use vstd::prelude::*;

verus! {

/// The ways a session, or a step on the way to one, can fail.
#[derive(Clone, Copy, Debug, PartialEq, Eq, Structural)]
pub enum ErrorKind {
    /// A file system or network operation failed.
    Io,
    /// The peer broke the protocol, or bytes on the wire did not decode.
    InvalidData,
    /// The remote peer does not serve the module that was asked for.
    InvalidInput,
    /// A value was outside what the operation can work with.
    Other,
}

} // verus!
