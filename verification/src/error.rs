//! The ways in which an operation on the lockbox can fail.

use vstd::prelude::*;

verus! {

/// Why a call was refused. A refused call changes nothing.
#[derive(Clone, Copy, Debug, PartialEq, Eq, Structural)]
pub enum ContractError {
    /// A deposit was expected and none came with the call.
    EmptyBalance,
    /// The expiry time is not after the current time.
    LowExpired,
    /// The lock would last as long as the longest permitted duration, or longer.
    HighExpired,
    /// The owner already has a lock under this id, open or completed.
    AlreadyInUse,
    /// The owner has no lock under this id.
    NotFound,
    /// The lock was released before.
    LockComplete,
    /// The lock's expiry time has not passed yet.
    LockNotExpired,
    /// An amount would grow beyond what 128 bits hold.
    Overflow,
    /// The message that came with a token deposit could not be decoded.
    MalformedPayload,
    /// A transfer message could not be encoded.
    Serialize,
}

} // verus!
