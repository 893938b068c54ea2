//! Who may end a lockup early, and by which schedule the vested part is
//! then measured.

use vstd::prelude::*;
use crate::schedule::Schedule;
use crate::AccountId;
use crate::CryptoHash;

verus! {

/// The vesting schedule of a termination config: either disclosed, or only
/// committed to by its digest and disclosed when the lockup is terminated.
#[derive(Clone, Debug, PartialEq, Eq)]
pub enum HashOrSchedule {
    Hash(CryptoHash),
    Schedule(Schedule),
}

/// Makes a lockup terminable.
#[derive(Clone, Debug, PartialEq, Eq)]
pub struct TerminationConfig {
    /// The only account that may terminate the lockup; it receives what has
    /// not vested.
    pub terminator_id: AccountId,
    /// A schedule that takes the place of the lockup's own schedule when the
    /// lockup is terminated. It is consumed by the termination.
    pub vesting_schedule: Option<HashOrSchedule>,
}

} // verus!
