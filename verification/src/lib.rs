//! A vesting ledger for fungible tokens.
//!
//! The ledger holds deposited token balances for many accounts and releases
//! them over time along piecewise-linear unlock schedules. A grant can be
//! terminated early by the party named in its termination config, and every
//! release is reconciled against a token ledger that is reached by a transfer
//! whose outcome arrives later, as success or failure.
//!
//! Every function here is pure with respect to the outside world: the caller
//! hands in the current time and the acting account, and carries out the
//! transfers that the ledger asks for.

use vstd::prelude::*;

pub mod arith;
pub mod hash;
pub mod schedule;
pub mod commitment;
pub mod termination;
pub mod lockup;
pub mod account_index;
pub mod sums;
pub mod contract;
pub mod claims;
pub mod terminations;
pub mod callbacks;
pub mod seizure;
pub mod cleanup;
pub mod whitelist;
pub mod ft_token_receiver;
pub mod views;
pub mod migration;
pub mod consistency;

pub use crate::callbacks::SelfCallbacks;
pub use crate::contract::Contract;

verus! {

/// Seconds since the Unix epoch.
pub type TimestampSec = u32;

/// An amount of tokens, in the token's smallest unit.
pub type Balance = u128;

/// The name of an account.
pub type AccountId = String;

/// The account of the token contract whose balances are locked here.
pub type TokenAccountId = AccountId;

/// The position of a lockup in the ledger; it never changes once given.
pub type LockupIndex = u32;

/// A SHA-256 digest.
pub type CryptoHash = [u8; 32];

/// Why a call was refused.
#[derive(Clone, Copy, Debug, PartialEq, Eq, Structural)]
pub enum Error {
    /// A schedule or an amount is malformed or inconsistent.
    ValidationError,
    /// The caller may not perform this action.
    Unauthorized,
    /// The revealed schedule is missing or does not match the commitment.
    InvalidReveal,
    /// No tokens are claimable.
    NothingToClaim,
    /// The token ledger did not confirm a transfer.
    ExternalTransferFailed,
    /// An invariant of the ledger does not hold.
    InvalidState,
    /// A transfer for the account is still awaiting its outcome.
    TransferPending,
}

} // verus!
