//! The failures that the wallet reports.

use vstd::prelude::*;

verus! {

/// Why a wallet operation was refused.
#[derive(Debug)]
pub enum MPCError {
    /// Fewer than two participants were asked for.
    InvalidParticipants(usize),
    /// The threshold is zero or above the number of participants.
    InvalidThreshold(usize),
    /// Fewer signature shares than the threshold were supplied.
    InsufficientShares,
    /// A signature share is not a point of the signature group.
    InvalidShare,
    /// Encoded data is truncated or malformed; the text says how.
    SerializationError(String),
    /// The signature does not match the message and public key.
    VerificationFailed,
}

} // verus!
