//! The error taxonomy of the ledger.
//!
//! Every rejected command surfaces one of these kinds; validation and
//! authorization failures are detected before any mutation, so a rejection
//! always leaves the stored state exactly as it was.

use vstd::prelude::*;

verus! {

/// The reasons a command can be rejected.
#[derive(Clone, Copy, Debug, PartialEq, Eq, Structural)]
pub enum ContractError {
    /// The caller is not the current admin.
    Unauthorized,
    /// A zero amount was supplied (or no recognized funds at all) where a
    /// positive amount is required.
    InvalidAmount,
    /// The recipient and amount lists of a distribution differ in length.
    LengthMismatch,
    /// A reward distribution was asked of an empty staker registry.
    NoStakers,
    /// The reward per staker would round down to zero.
    AmountTooSmall,
    /// No ledger state has ever been saved.
    NotInitialized,
    /// The backing store failed to persist the state.  The in-memory store of
    /// this crate never fails; a persistent backend maps its write failures to
    /// this kind.
    StorageWriteError,
}

impl ContractError {
    /// A short description of the error, for hosts that report errors as text.
    pub fn describe(&self) -> (r: &'static str)
        ensures
            r@.len() > 0,
    {
        proof {
            reveal_strlit("unauthorized");
            reveal_strlit("invalid deposit amount");
            reveal_strlit("recipients and amounts length mismatch");
            reveal_strlit("no stakers found");
            reveal_strlit("reward amount too small");
            reveal_strlit("state not initialized");
            reveal_strlit("storage write failed");
        }
        match self {
            ContractError::Unauthorized => "unauthorized",
            ContractError::InvalidAmount => "invalid deposit amount",
            ContractError::LengthMismatch => "recipients and amounts length mismatch",
            ContractError::NoStakers => "no stakers found",
            ContractError::AmountTooSmall => "reward amount too small",
            ContractError::NotInitialized => "state not initialized",
            ContractError::StorageWriteError => "storage write failed",
        }
    }
}

} // verus!
