//! The error kinds the core surfaces.

use vstd::prelude::*;

verus! {

/// What can go wrong between the transport and a typed result.
#[derive(Debug)]
pub enum IMAPError {
    /// The transport failed or closed early; the connection is lost.
    TransportError,
    /// A completed frame was not valid text; the offending bytes are handed
    /// back so the caller can decide to abort the connection.
    DecodeError(Vec<u8>),
    /// A tagged line carried a status token outside OK/NO/BAD, or a command
    /// kind with no parsing rule reached the parser.
    ProtocolError,
}

} // verus!
