//! The ways in which a peer can break the protocol. Each one is fatal for
//! the connection.

use vstd::prelude::*;

verus! {

/// Why a packet was refused.
#[derive(Clone, Copy, PartialEq, Eq, Debug, Structural)]
pub enum ProtocolError {
    /// The bytes run out early, or name a kind or a tag that is not
    /// registered.
    Malformed,
    /// A create names a key that is already in use.
    DuplicateKey,
    /// An update, a delete or an assignment names a key that is not in use.
    UnknownKey,
}

} // verus!
