//! Read-only projections of the ledger as of a given time.

use vstd::prelude::*;
use crate::contract::Contract;
use crate::lockup::Lockup;
use crate::schedule::unlocked_at;
use crate::AccountId;
use crate::Balance;
use crate::LockupIndex;
use crate::TimestampSec;

verus! {

/// A lockup as it stands at some time.
#[derive(Clone, Debug, PartialEq, Eq)]
pub struct LockupView {
    pub account_id: AccountId,
    /// What the lockup grants.
    pub total_balance: Balance,
    /// What has been claimed.
    pub claimed_balance: Balance,
    /// What the schedule has unlocked.
    pub unlocked_balance: Balance,
    /// What is unlocked and not claimed.
    pub unclaimed_balance: Balance,
    /// What the schedule has not unlocked yet.
    pub unvested_balance: Balance,
}

impl Lockup {
    /// Whether `view` shows the lockup as it stands at `now`.
    pub open spec fn is_viewed_by(&self, view: LockupView, now: TimestampSec) -> bool {
        let unlocked = unlocked_at(self.schedule@, now as int);
        &&& view.account_id@ == self.account_id@
        &&& view.total_balance == self.total()
        &&& view.claimed_balance == self.claimed_balance
        &&& view.unlocked_balance == unlocked
        &&& view.unclaimed_balance == if unlocked >= self.claimed_balance {
            unlocked - self.claimed_balance
        } else {
            0
        }
        &&& view.unvested_balance == self.total() - unlocked
    }

    /// The lockup as it stands at `now`.
    pub fn view_at(&self, now: TimestampSec) -> (view: LockupView)
        requires
            self.schedule.is_valid(),
        ensures
            self.is_viewed_by(view, now),
    {
        let total_balance = self.schedule.total_balance();
        let unlocked_balance = self.schedule.unlocked_balance(now);
        LockupView {
            account_id: self.account_id.clone(),
            total_balance,
            claimed_balance: self.claimed_balance,
            unlocked_balance,
            unclaimed_balance: if unlocked_balance >= self.claimed_balance {
                unlocked_balance - self.claimed_balance
            } else {
                0
            },
            unvested_balance: total_balance - unlocked_balance,
        }
    }
}

impl Contract {
    /// The account of the token whose balances are locked here.
    pub fn get_token_account_id(&self) -> (token_account_id: AccountId)
        ensures
            token_account_id@ == self.token_account_id@,
    {
        self.token_account_id.clone()
    }

    /// The number of lockups in the ledger, dead ones included.
    pub fn get_num_lockups(&self) -> (n: u32)
        requires
            self.wf(),
        ensures
            n == self.lockups@.len(),
    {
        self.lockups.len() as u32
    }

    /// The lockup `index` as it stands at `now`, if there is such a lockup.
    pub fn get_lockup(&self, index: LockupIndex, now: TimestampSec) -> (view: Option<LockupView>)
        requires
            self.wf(),
        ensures
            index >= self.lockups@.len() ==> view is None,
            index < self.lockups@.len() ==> view is Some && self.lockups@[index as int].is_viewed_by(
                view.unwrap(),
                now,
            ),
    {
        if index as usize >= self.lockups.len() {
            return None;
        }
        assert(self.lockups@[index as int].is_valid());
        Some(self.lockups[index as usize].view_at(now))
    }

    /// The lockups of `account_id` that still hold tokens, each with its
    /// position, as they stand at `now`.
    pub fn get_account_lockups(
        &self,
        account_id: &AccountId,
        now: TimestampSec,
    ) -> (views: Vec<(LockupIndex, LockupView)>)
        requires
            self.wf(),
        ensures
            forall|e: int|
                0 <= e < views@.len() ==> {
                    &&& self.is_live_lockup_of(account_id@, (#[trigger] views@[e]).0)
                    &&& self.lockups@[views@[e].0 as int].is_viewed_by(views@[e].1, now)
                },
            forall|e1: int, e2: int| 0 <= e1 < e2 < views@.len() ==> views@[e1].0 != views@[e2].0,
            forall|i: LockupIndex| #[trigger]
                self.is_live_lockup_of(account_id@, i) ==> exists|e: int|
                    0 <= e < views@.len() && views@[e].0 == i,
    {
        let indices = self.account_lockups.get(account_id);
        let mut views: Vec<(LockupIndex, LockupView)> = Vec::new();
        let mut k: usize = 0;
        proof {
            assert forall|j: int| 0 <= j < indices@.len() implies self.is_live_lockup_of(
                account_id@,
                #[trigger] indices@[j],
            ) by {
                assert(indices@.to_set().contains(indices@[j]));
                assert(self.index_agrees_at(account_id@, indices@[j]));
            }
        }
        while k < indices.len()
            invariant
                k <= indices@.len(),
                self.wf(),
                indices@.no_duplicates(),
                forall|j: int|
                    0 <= j < indices@.len() ==> self.is_live_lockup_of(
                        account_id@,
                        #[trigger] indices@[j],
                    ),
                views@.len() == k,
                forall|e: int|
                    0 <= e < k ==> (#[trigger] views@[e]).0 == indices@[e]
                        && self.lockups@[indices@[e] as int].is_viewed_by(views@[e].1, now),
            decreases indices@.len() - k,
        {
            let index = indices[k];
            assert(self.is_live_lockup_of(account_id@, indices@[k as int]));
            assert(self.lockups@[index as int].is_valid());
            let view = self.lockups[index as usize].view_at(now);
            views.push((index, view));
            k += 1;
        }
        proof {
            assert forall|i: LockupIndex| #[trigger]
                self.is_live_lockup_of(account_id@, i) implies exists|e: int|
                0 <= e < views@.len() && views@[e].0 == i by {
                assert(self.index_agrees_at(account_id@, i));
                assert(indices@.to_set().contains(i));
                let j = choose|j: int| 0 <= j < indices@.len() && indices@[j] == i;
                assert(views@[j].0 == i);
            }
        }
        views
    }
}

} // verus!
