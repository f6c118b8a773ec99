use vstd::prelude::*;

verus! {

/// Errors surfaced by address derivation and the two counter operations.
/// Every failure is returned to the caller synchronously, with no state
/// mutated by the failing call.
#[derive(Clone, Copy, Debug, PartialEq, Eq, Structural)]
pub enum CustomError {
    /// No disambiguation byte yields a valid derived address.
    DerivationExhausted,
    /// `initialize` was called for an owner that already has a record.
    AlreadyExists,
    /// The payer cannot cover the allocation cost.
    InsufficientFunds,
    /// The targeted address holds no allocated record.
    NotFound,
    /// The caller's identity does not match the record's stored authority.
    Unauthorized,
}

} // verus!
