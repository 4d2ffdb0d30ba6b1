//! Failures of decoding, each located at a byte offset.
use vstd::prelude::*;

verus! {

/// Why decoding stopped. The offset is relative to the start of the bytes
/// handed to the failing function.
#[derive(Clone, Copy, Debug, PartialEq, Eq, Structural)]
pub enum DecodeError {
    /// A fixed-size read or a declared field length runs past the end of the
    /// buffer; `offset` is where the read starts.
    TruncatedInput { offset: usize },
    /// A text field of the header is not valid UTF-8; `offset` is where the
    /// text starts.
    MalformedHeader { offset: usize },
    /// A packet's declared payload runs past the end of the body; `offset` is
    /// where the packet header word stands.
    TruncatedPacket { offset: usize },
}

} // verus!
