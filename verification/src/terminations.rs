//! Early termination of a lockup, and forfeiture of lockups that nobody has
//! claimed from.

use vstd::prelude::*;
use crate::contract::outstanding;
use crate::contract::Contract;
use crate::lockup::reveal_matches;
use crate::lockup::Lockup;
use crate::schedule::Schedule;
use crate::AccountId;
use crate::Balance;
use crate::CryptoHash;
use crate::Error;
use crate::LockupIndex;
use crate::TimestampSec;

verus! {

impl Contract {
    /// Why a termination of the lockup `lockup_index` by `initiator_id` is
    /// refused, if it is. `digest_matches` says whether the digest of the
    /// revealed schedule is the committed one.
    pub open spec fn terminate_error(
        &self,
        initiator_id: Seq<char>,
        lockup_index: LockupIndex,
        revealed: Option<Schedule>,
        digest_matches: bool,
    ) -> Option<Error> {
        if lockup_index >= self.lockups@.len() {
            Some(Error::ValidationError)
        } else if self.has_pending(self.lockups@[lockup_index as int].account_id@) {
            Some(Error::TransferPending)
        } else {
            self.lockups@[lockup_index as int].termination_error(
                initiator_id,
                revealed,
                digest_matches,
            )
        }
    }

    /// Whether `self` is what a successful termination of the lockup
    /// `lockup_index` at `now` makes of `before`: that lockup is terminated,
    /// the locked balance is less by what has not vested, and nothing else
    /// has changed but the index, from which a dead lockup is gone.
    pub open spec fn is_termination_of(
        &self,
        before: Contract,
        lockup_index: LockupIndex,
        revealed: Option<Schedule>,
        now: TimestampSec,
    ) -> bool {
        let i = lockup_index as int;
        &&& self.lockups@ == before.lockups@.update(i, self.lockups@[i])
        &&& self.lockups@[i].is_termination_of(before.lockups@[i], revealed, now)
        &&& self.locked_balance == before.locked_balance - before.lockups@[i].unvested_at(
            revealed,
            now,
        )
        &&& self.pending_claims == before.pending_claims
        &&& self.deposit_whitelist == before.deposit_whitelist
        &&& self.token_account_id == before.token_account_id
    }

    /// A change to lockups whose owners have no pending claim leaves the
    /// pending claims in order.
    pub proof fn lemma_pending_unaffected(&self, after: Contract)
        requires
            self.wf(),
            after.pending_claims == self.pending_claims,
            after.lockups@.len() == self.lockups@.len(),
            forall|i: int|
                0 <= i < self.lockups@.len() && self.has_pending(self.lockups@[i].account_id@) ==> (
                #[trigger] after.lockups@[i]) == self.lockups@[i],
        ensures
            after.pending_wf(),
            forall|now: TimestampSec| self.pending_within(now) ==> #[trigger] after.pending_within(now),
    {
        assert forall|p: int, k: int|
            0 <= p < self.pending_claims@.len() && 0 <= k
                < self.pending_claims@[p].lockup_claims@.len() implies after.lockups@[(
        #[trigger] self.pending_claims@[p].lockup_claims@[k]).index as int]
            == self.lockups@[self.pending_claims@[p].lockup_claims@[k].index as int] by {
            assert(self.reservation_fits(p));
            let claim = self.pending_claims@[p].lockup_claims@[k];
            assert(self.is_pending_at(self.lockups@[claim.index as int].account_id@, p));
        }
        assert forall|p: int| 0 <= p < after.pending_claims@.len() implies #[trigger]
            after.reservation_fits(p) by {
            assert(self.reservation_fits(p));
        }
    }

    /// Terminates the lockup `lockup_index` at `now` on behalf of
    /// `initiator_id`, who discloses `hashed_schedule` where the vesting
    /// schedule was committed to by its digest. Returns the amount that has
    /// not vested, which is to be transferred to the initiator.
    ///
    /// The digest of `hashed_schedule` is computed here; the rest is
    /// `terminate_with_hash`.
    pub fn terminate(
        &mut self,
        initiator_id: &AccountId,
        lockup_index: LockupIndex,
        hashed_schedule: Option<Schedule>,
        now: TimestampSec,
    ) -> (r: Result<Balance, Error>)
        requires
            old(self).wf(),
        ensures
            final(self).wf(),
            match old(self).terminate_error(
                initiator_id@,
                lockup_index,
                hashed_schedule,
                lockup_index < old(self).lockups@.len() && old(
                    self,
                ).lockups@[lockup_index as int].vesting_commitment() is Some && reveal_matches(
                    hashed_schedule,
                    old(self).lockups@[lockup_index as int].vesting_commitment().unwrap(),
                ),
            ) {
                Some(error) => r == Err::<Balance, Error>(error) && *final(self) == *old(self),
                None => {
                    &&& r == Ok::<Balance, Error>(
                        old(self).lockups@[lockup_index as int].unvested_at(hashed_schedule, now) as Balance,
                    )
                    &&& final(self).is_termination_of(*old(self), lockup_index, hashed_schedule, now)
                },
            },
            old(self).invariant_at(now) ==> final(self).invariant_at(now),
    {
        let schedule_hash = match &hashed_schedule {
            Some(schedule) => schedule.try_hash(),
            None => None,
        };
        self.terminate_with_hash(initiator_id, lockup_index, hashed_schedule, schedule_hash, now)
    }

    /// Terminates the lockup `lockup_index` at `now` on behalf of
    /// `initiator_id`, given the disclosed schedule and its digest.
    ///
    /// Refused while a claim of the lockup's owner awaits its outcome. The
    /// termination takes effect at once: what has not vested is forfeited
    /// whatever becomes of its transfer, and a lockup that holds nothing any
    /// more leaves the index.
    pub fn terminate_with_hash(
        &mut self,
        initiator_id: &AccountId,
        lockup_index: LockupIndex,
        hashed_schedule: Option<Schedule>,
        schedule_hash: Option<CryptoHash>,
        now: TimestampSec,
    ) -> (r: Result<Balance, Error>)
        requires
            old(self).wf(),
        ensures
            final(self).wf(),
            match old(self).terminate_error(
                initiator_id@,
                lockup_index,
                hashed_schedule,
                lockup_index < old(self).lockups@.len() && old(
                    self,
                ).lockups@[lockup_index as int].vesting_commitment() is Some && schedule_hash is Some
                    && schedule_hash.unwrap()@ == old(
                    self,
                ).lockups@[lockup_index as int].vesting_commitment().unwrap(),
            ) {
                Some(error) => r == Err::<Balance, Error>(error) && *final(self) == *old(self),
                None => {
                    &&& r == Ok::<Balance, Error>(
                        old(self).lockups@[lockup_index as int].unvested_at(hashed_schedule, now) as Balance,
                    )
                    &&& final(self).is_termination_of(*old(self), lockup_index, hashed_schedule, now)
                },
            },
            old(self).invariant_at(now) ==> final(self).invariant_at(now),
    {
        if lockup_index as usize >= self.lockups.len() {
            return Err(Error::ValidationError);
        }
        if self.pending_position(&self.lockups[lockup_index as usize].account_id).is_some() {
            return Err(Error::TransferPending);
        }
        assert(self.lockups@[lockup_index as int].is_valid());
        match self.lockups[lockup_index as usize].check_termination(
            initiator_id,
            &hashed_schedule,
            &schedule_hash,
        ) {
            Ok(()) => {},
            Err(error) => {
                return Err(error);
            },
        }
        let unvested = match self.lockups[lockup_index as usize].terminate_with_hash(
            initiator_id,
            hashed_schedule,
            schedule_hash,
            now,
        ) {
            Ok(unvested) => unvested,
            Err(error) => {
                return Err(error);
            },
        };
        let ghost changed = *self;
        proof {
            old(self).lemma_ready_to_settle(changed, lockup_index, unvested);
        }
        self.settle(lockup_index, unvested);
        proof {
            assert forall|i: int|
                0 <= i < old(self).lockups@.len() && old(self).has_pending(
                    old(self).lockups@[i].account_id@,
                ) implies (#[trigger] self.lockups@[i]) == old(self).lockups@[i] by {}
            old(self).lemma_pending_unaffected(*self);
            if old(self).invariant_at(now) {
                assert forall|i: int| 0 <= i < self.lockups@.len() implies (
                #[trigger] self.lockups@[i]).invariant_at(now) by {
                    if i != lockup_index {
                        assert(old(self).lockups@[i].invariant_at(now));
                    }
                }
            }
        }
        Ok(unvested)
    }
}

} // verus!
