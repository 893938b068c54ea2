//! The outcomes of the transfers that the ledger has asked for.

use vstd::prelude::*;
use crate::contract::claims_total;
use crate::contract::Contract;
use crate::AccountId;
use crate::Balance;
use crate::Error;
use crate::TimestampSec;

verus! {

/// What a ledger does when a transfer that it asked for has been resolved.
pub trait SelfCallbacks {
    /// Whether the ledger is in order.
    spec fn in_order(&self) -> bool;

    /// Applies the outcome of the transfer that a claim of `account_id` has
    /// asked for, and returns the amount that was transferred.
    fn after_ft_transfer(
        &mut self,
        account_id: &AccountId,
        promise_success: bool,
    ) -> (r: Result<Balance, Error>)
        requires
            old(self).in_order(),
        ensures
            final(self).in_order(),
            !promise_success ==> r is Err,
    ;

    /// Applies the outcome of the transfer of the unvested `amount` to the
    /// terminator `account_id`, and returns the amount that was transferred.
    fn after_lockup_termination(
        &mut self,
        account_id: &AccountId,
        amount: Balance,
        promise_success: bool,
    ) -> (r: Result<Balance, Error>)
        requires
            old(self).in_order(),
        ensures
            final(self).in_order(),
            promise_success ==> r == Ok::<Balance, Error>(amount),
            !promise_success ==> r == Err::<Balance, Error>(Error::ExternalTransferFailed),
    ;
}

impl SelfCallbacks for Contract {
    open spec fn in_order(&self) -> bool {
        self.wf()
    }

    /// Applies the outcome of the transfer that a claim of `account_id` has
    /// asked for. On success the claim is committed and the amount that was
    /// transferred is returned. On failure the claim is rolled back: nothing
    /// was claimed, and the claim can be made again.
    fn after_ft_transfer(
        &mut self,
        account_id: &AccountId,
        promise_success: bool,
    ) -> (r: Result<Balance, Error>)
        ensures
            final(self).wf(),
            !old(self).has_pending(account_id@) ==> r == Err::<Balance, Error>(Error::InvalidState)
                && *final(self) == *old(self),
            forall|p: int| #[trigger]
                old(self).is_pending_at(account_id@, p) ==> if promise_success {
                    &&& r == Ok::<Balance, Error>(
                        claims_total(old(self).pending_claims@[p].lockup_claims@) as Balance,
                    )
                    &&& final(self).is_commit_of(*old(self), p)
                } else {
                    &&& r == Err::<Balance, Error>(Error::ExternalTransferFailed)
                    &&& final(self).is_rollback_of(*old(self), p)
                },
            forall|now: TimestampSec|
                old(self).invariant_at(now) ==> #[trigger] final(self).invariant_at(now),
            !promise_success ==> forall|account: Seq<char>, now: TimestampSec|
                #[trigger] final(self).claimable_total(account, now) == old(self).claimable_total(
                    account,
                    now,
                ),
    {
        if promise_success {
            self.commit_claim(account_id)
        } else {
            match self.rollback_claim(account_id) {
                Ok(_) => Err(Error::ExternalTransferFailed),
                Err(error) => Err(error),
            }
        }
    }

    /// Applies the outcome of the transfer of the unvested `amount` to the
    /// terminator `account_id`. The termination itself stands either way: a
    /// failed transfer is reported, for the amount to be paid out again by
    /// hand, and is not retried.
    fn after_lockup_termination(
        &mut self,
        account_id: &AccountId,
        amount: Balance,
        promise_success: bool,
    ) -> (r: Result<Balance, Error>)
        ensures
            *final(self) == *old(self),
            promise_success ==> r == Ok::<Balance, Error>(amount),
            !promise_success ==> r == Err::<Balance, Error>(Error::ExternalTransferFailed),
    {
        if promise_success {
            Ok(amount)
        } else {
            Err(Error::ExternalTransferFailed)
        }
    }
}

} // verus!
