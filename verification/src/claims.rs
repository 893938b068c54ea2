//! Claims: an account withdraws what its lockups have unlocked.
//!
//! A claim runs in two steps. `claim` reserves the claimable amount of each
//! lockup of the account and returns their sum, which the caller asks the
//! token ledger to transfer. `after_ft_transfer` applies the outcome: on
//! success the reserved amounts count as claimed, on failure the reservation
//! is dropped and nothing has changed. While a claim of an account is
//! pending, no other claim and no termination is accepted for it.

use vstd::prelude::*;
use crate::contract::claims_total;
use crate::contract::lemma_claims_total_prefix;
use crate::contract::lemma_reserved_from_absent;
use crate::contract::lemma_reserved_from_claim;
use crate::contract::reserved_from;
use crate::contract::outstanding;
use crate::contract::Contract;
use crate::contract::PendingClaim;
use crate::lockup::Lockup;
use crate::lockup::LockupClaim;
use crate::schedule::lemma_unlocked_bounds;
use crate::schedule::unlocked_at;
use crate::sums::lemma_sum_at_is_sum_listed;
use crate::sums::lemma_sum_at_prefix;
use crate::sums::sum_at;
use crate::sums::sum_listed;
use crate::AccountId;
use crate::Balance;
use crate::Error;
use crate::LockupIndex;
use crate::TimestampSec;

verus! {

/// What each lockup has unlocked at `now` and not yet claimed.
pub open spec fn claimable_values(lockups: Seq<Lockup>, now: TimestampSec) -> Seq<int> {
    Seq::new(lockups.len(), |i: int| lockups[i].claimable_at(now))
}

/// The claim that is made of the lockup `index` at `now`.
pub open spec fn claim_of(lockups: Seq<Lockup>, index: LockupIndex, now: TimestampSec) -> LockupClaim {
    LockupClaim {
        index,
        unclaimed_balance: lockups[index as int].claimable_at(now) as Balance,
        is_final: unlocked_at(lockups[index as int].schedule@, now as int) == lockups[index as int].total(),
    }
}

impl Contract {
    /// What `account` can claim at `now`: the sum of what its live lockups
    /// have unlocked and not yet claimed.
    pub open spec fn claimable_total(&self, account: Seq<char>, now: TimestampSec) -> int {
        sum_listed(
            claimable_values(self.lockups@, now),
            self.account_lockups.indices_of(account),
            self.lockups@.len(),
        )
    }

    /// Whether some live lockup of `account` has more claimed than unlocked
    /// at `now`.
    pub open spec fn has_overclaimed(&self, account: Seq<char>, now: TimestampSec) -> bool {
        exists|i: LockupIndex| #[trigger]
            self.account_lockups.indices_of(account).contains(i) && self.lockups@[i as int].claimable_at(
                now,
            ) < 0
    }

    /// Why a claim of `account` at `now` is refused, if it is.
    pub open spec fn claim_error(&self, account: Seq<char>, now: TimestampSec) -> Option<Error> {
        if self.has_pending(account) {
            Some(Error::TransferPending)
        } else if self.has_overclaimed(account, now) || self.claimable_total(account, now)
            > u128::MAX {
            Some(Error::InvalidState)
        } else if self.claimable_total(account, now) == 0 {
            Some(Error::NothingToClaim)
        } else {
            None
        }
    }

    /// Whether `claims` is the reservation of a claim of `account` at `now`:
    /// one claim for each live lockup of the account that has anything
    /// claimable, and no other.
    pub open spec fn is_reservation(
        &self,
        claims: Seq<LockupClaim>,
        account: Seq<char>,
        now: TimestampSec,
    ) -> bool {
        &&& forall|k: int|
            0 <= k < claims.len() ==> {
                &&& self.account_lockups.indices_of(account).contains((#[trigger] claims[k]).index)
                &&& 0 < self.lockups@[claims[k].index as int].claimable_at(now) <= u128::MAX
                &&& claims[k] == claim_of(self.lockups@, claims[k].index, now)
            }
        &&& forall|k1: int, k2: int|
            0 <= k1 < k2 < claims.len() ==> claims[k1].index != claims[k2].index
        &&& forall|i: LockupIndex| #[trigger]
            self.account_lockups.indices_of(account).contains(i) && self.lockups@[i as int].claimable_at(
                now,
            ) > 0 ==> exists|k: int| 0 <= k < claims.len() && claims[k].index == i
        &&& claims_total(claims) == self.claimable_total(account, now)
    }

    /// The position of the pending claim of `account_id`, if it has one.
    pub fn pending_position(&self, account_id: &AccountId) -> (found: Option<usize>)
        ensures
            match found {
                Some(p) => self.is_pending_at(account_id@, p as int),
                None => !self.has_pending(account_id@),
            },
    {
        let mut p: usize = 0;
        while p < self.pending_claims.len()
            invariant
                p <= self.pending_claims@.len(),
                forall|q: int| 0 <= q < p ==> !self.is_pending_at(account_id@, q),
            decreases self.pending_claims@.len() - p,
        {
            if self.pending_claims[p].account_id == *account_id {
                return Some(p);
            }
            p += 1;
        }
        None
    }

    /// Where the invariant holds at `now`, no lockup has more claimed than
    /// unlocked.
    pub proof fn lemma_invariant_excludes_overclaim(&self, account: Seq<char>, now: TimestampSec)
        requires
            self.invariant_at(now),
        ensures
            !self.has_overclaimed(account, now),
    {
        if self.has_overclaimed(account, now) {
            let i = choose|i: LockupIndex| #[trigger]
                self.account_lockups.indices_of(account).contains(i) && self.lockups@[i as int].claimable_at(
                    now,
                ) < 0;
            assert(self.index_agrees_at(account, i));
            assert(self.lockups@[i as int].invariant_at(now));
        }
    }

    /// What a claim of `account_id` at `now` reserves, and the sum of it.
    /// Nothing is changed.
    pub fn reserve(
        &self,
        account_id: &AccountId,
        now: TimestampSec,
    ) -> (r: Result<(Vec<LockupClaim>, Balance), Error>)
        requires
            self.wf(),
        ensures
            self.has_overclaimed(account_id@, now) || self.claimable_total(account_id@, now)
                > u128::MAX ==> r == Err::<(Vec<LockupClaim>, Balance), Error>(Error::InvalidState),
            !(self.has_overclaimed(account_id@, now) || self.claimable_total(account_id@, now)
                > u128::MAX) ==> {
                &&& r is Ok
                &&& self.is_reservation(r.unwrap().0@, account_id@, now)
                &&& r.unwrap().1 == self.claimable_total(account_id@, now)
            },
            self.invariant_at(now) ==> !self.has_overclaimed(account_id@, now),
    {
        proof {
            if self.invariant_at(now) {
                self.lemma_invariant_excludes_overclaim(account_id@, now);
            }
        }
        let indices = self.account_lockups.get(account_id);
        let ghost listed = self.account_lockups.indices_of(account_id@);
        let ghost values = claimable_values(self.lockups@, now);
        proof {
            assert forall|j: int| 0 <= j < indices@.len() implies indices@[j] < self.lockups@.len() by {
                assert(listed.contains(indices@[j]));
                assert(self.index_agrees_at(account_id@, indices@[j]));
            }
            lemma_sum_at_is_sum_listed(values, indices@);
            assert forall|j: int| 0 <= j < indices@.len() implies values[indices@[j] as int]
                <= u128::MAX by {
                assert(self.lockups@[indices@[j] as int].is_valid());
                lemma_unlocked_bounds(self.lockups@[indices@[j] as int].schedule@, now as int);
            }
        }
        let mut claims: Vec<LockupClaim> = Vec::new();
        let mut total: Balance = 0;
        let mut k: usize = 0;
        while k < indices.len()
            invariant
                self.wf(),
                k <= indices@.len(),
                indices@.to_set() == listed,
                listed == self.account_lockups.indices_of(account_id@),
                values == claimable_values(self.lockups@, now),
                forall|j: int| 0 <= j < indices@.len() ==> indices@[j] < self.lockups@.len(),
                forall|j: int| 0 <= j < k ==> values[indices@[j] as int] >= 0,
                forall|j: int| 0 <= j < indices@.len() ==> values[indices@[j] as int] <= u128::MAX,
                indices@.no_duplicates(),
                sum_at(values, indices@) == self.claimable_total(account_id@, now),
                claims@ == reservation_of(self.lockups@, indices@.take(k as int), now),
                total == claims_total(claims@),
                total == sum_at(values, indices@.take(k as int)),
            decreases indices@.len() - k,
        {
            let index = indices[k];
            assert(indices@.take(k + 1).drop_last() =~= indices@.take(k as int));
            assert(indices@.take(k + 1).last() == index);
            assert(self.lockups@[index as int].is_valid());
            assert(values[indices@[k as int] as int] <= u128::MAX);
            match self.lockups[index as usize].claim(index, now) {
                Err(_) => {
                    proof {
                        assert(indices@.contains(indices@[k as int]));
                        assert(listed.contains(index));
                    }
                    return Err(Error::InvalidState);
                },
                Ok(lockup_claim) => {
                    if lockup_claim.unclaimed_balance > 0 {
                        if lockup_claim.unclaimed_balance > u128::MAX - total {
                            proof {
                                assert(values[index as int] == lockup_claim.unclaimed_balance);
                                assert(sum_at(values, indices@.take(k + 1)) == total
                                    + lockup_claim.unclaimed_balance);
                                lemma_overflow_is_invalid(values, indices@, k as int);
                                if exists|j: int|
                                    0 <= j < indices@.len() && values[indices@[j] as int] < 0 {
                                    let j = choose|j: int|
                                        0 <= j < indices@.len() && values[indices@[j] as int] < 0;
                                    assert(indices@.contains(indices@[j]));
                                    assert(listed.contains(indices@[j]));
                                }
                            }
                            return Err(Error::InvalidState);
                        }
                        total = total + lockup_claim.unclaimed_balance;
                        let ghost before = claims@;
                        claims.push(lockup_claim);
                        assert(claims@.drop_last() =~= before);
                    }
                },
            }
            k += 1;
        }
        proof {
            assert(indices@.take(k as int) =~= indices@);
            assert(!self.has_overclaimed(account_id@, now)) by {
                if self.has_overclaimed(account_id@, now) {
                    let i = choose|i: LockupIndex| #[trigger]
                        listed.contains(i) && self.lockups@[i as int].claimable_at(now) < 0;
                    let j = choose|j: int| 0 <= j < indices@.len() && indices@[j] == i;
                    assert(values[indices@[j] as int] >= 0);
                }
            }
            assert(self.claimable_total(account_id@, now) == total);
            assert forall|m: int| 0 <= m < claims@.len() implies {
                &&& listed.contains((#[trigger] claims@[m]).index)
                &&& 0 < self.lockups@[claims@[m].index as int].claimable_at(now) <= u128::MAX
                &&& claims@[m] == claim_of(self.lockups@, claims@[m].index, now)
            } by {
                let j = lemma_reservation_claims(self.lockups@, indices@, now, m);
                assert(indices@.contains(indices@[j]));
                assert(values[indices@[j] as int] <= u128::MAX);
            }
            assert forall|m1: int, m2: int| 0 <= m1 < m2 < claims@.len() implies claims@[m1].index
                != claims@[m2].index by {
                lemma_reservation_distinct(self.lockups@, indices@, now, m1, m2);
            }
            assert forall|i: LockupIndex| #[trigger]
                listed.contains(i) && self.lockups@[i as int].claimable_at(now) > 0 implies exists|
                m: int,
            | 0 <= m < claims@.len() && claims@[m].index == i by {
                let j = choose|j: int| 0 <= j < indices@.len() && indices@[j] == i;
                let m = lemma_reservation_complete(self.lockups@, indices@, now, j);
            }
        }
        Ok((claims, total))
    }

    /// Starts a claim of `account_id` at `now`: reserves what each of its
    /// lockups has unlocked and not yet claimed, and returns the sum, which is
    /// to be transferred to the account. No lockup is changed.
    pub fn claim(&mut self, account_id: &AccountId, now: TimestampSec) -> (r: Result<Balance, Error>)
        requires
            old(self).wf(),
        ensures
            final(self).wf(),
            final(self).lockups == old(self).lockups,
            final(self).account_lockups == old(self).account_lockups,
            final(self).deposit_whitelist == old(self).deposit_whitelist,
            final(self).token_account_id == old(self).token_account_id,
            final(self).locked_balance == old(self).locked_balance,
            match old(self).claim_error(account_id@, now) {
                Some(error) => r == Err::<Balance, Error>(error) && *final(self) == *old(self),
                None => {
                    &&& r == Ok::<Balance, Error>(
                        old(self).claimable_total(account_id@, now) as Balance,
                    )
                    &&& final(self).pending_claims@.len() == old(self).pending_claims@.len() + 1
                    &&& final(self).pending_claims@.drop_last() == old(self).pending_claims@
                    &&& final(self).pending_claims@.last().account_id@ == account_id@
                    &&& old(self).is_reservation(
                        final(self).pending_claims@.last().lockup_claims@,
                        account_id@,
                        now,
                    )
                },
            },
            old(self).invariant_at(now) ==> final(self).invariant_at(now),
    {
        if self.pending_position(account_id).is_some() {
            return Err(Error::TransferPending);
        }
        let (claims, total) = match self.reserve(account_id, now) {
            Ok(reserved) => reserved,
            Err(error) => {
                return Err(error);
            },
        };
        if total == 0 {
            return Err(Error::NothingToClaim);
        }
        self.pending_claims.push(PendingClaim { account_id: account_id.clone(), lockup_claims: claims });
        proof {
            assert(self.pending_claims@.drop_last() =~= old(self).pending_claims@);
            old(self).lemma_reservation_keeps_wf(*self, account_id@, now);
        }
        Ok(total)
    }

    /// A ledger stays in order when the reservation of a claim is added to
    /// its pending claims, and the invariant at the time of the claim stays
    /// with it.
    pub proof fn lemma_reservation_keeps_wf(&self, after: Contract, account: Seq<char>, now: TimestampSec)
        requires
            self.wf(),
            !self.has_pending(account),
            after.lockups == self.lockups,
            after.account_lockups == self.account_lockups,
            after.locked_balance == self.locked_balance,
            after.pending_claims@.len() == self.pending_claims@.len() + 1,
            after.pending_claims@.drop_last() == self.pending_claims@,
            after.pending_claims@.last().account_id@ == account,
            self.is_reservation(after.pending_claims@.last().lockup_claims@, account, now),
            0 < self.claimable_total(account, now) <= u128::MAX,
        ensures
            after.wf(),
            self.invariant_at(now) ==> after.invariant_at(now),
    {
        let last = self.pending_claims@.len() as int;
        let claims = after.pending_claims@.last().lockup_claims@;
        assert forall|account: Seq<char>, i: LockupIndex| #[trigger]
            after.index_agrees_at(account, i) by {
            assert(self.index_agrees_at(account, i));
        }
        assert forall|pa: int, pb: int|
            0 <= pa < pb < after.pending_claims@.len() implies after.pending_claims@[pa].account_id@
            != after.pending_claims@[pb].account_id@ by {
            assert(after.pending_claims@[pa] == self.pending_claims@[pa]);
            if pb == last {
                assert(!self.is_pending_at(account, pa));
            } else {
                assert(after.pending_claims@[pb] == self.pending_claims@[pb]);
            }
        }
        assert forall|p: int| 0 <= p < after.pending_claims@.len() implies #[trigger]
            after.reservation_fits(p) by {
            if p < last {
                assert(after.pending_claims@[p] == self.pending_claims@[p]);
                assert(self.reservation_fits(p));
            } else {
                assert forall|m: int| 0 <= m < claims.len() implies {
                    let claim = #[trigger] claims[m];
                    &&& claim.index < after.lockups@.len()
                    &&& after.lockups@[claim.index as int].account_id@ == account
                    &&& claim.unclaimed_balance > 0
                    &&& claim.unclaimed_balance <= outstanding(after.lockups@[claim.index as int])
                } by {
                    let claim = claims[m];
                    assert(self.account_lockups.indices_of(account).contains(claim.index));
                    assert(self.index_agrees_at(account, claim.index));
                    assert(self.lockups@[claim.index as int].is_valid());
                    lemma_unlocked_bounds(self.lockups@[claim.index as int].schedule@, now as int);
                }
            }
        }
        if self.invariant_at(now) {
            assert forall|p: int, m: int|
                0 <= p < after.pending_claims@.len() && 0 <= m
                    < after.pending_claims@[p].lockup_claims@.len() implies (
            #[trigger] after.pending_claims@[p].lockup_claims@[m]).unclaimed_balance
                <= after.lockups@[after.pending_claims@[p].lockup_claims@[m].index as int].claimable_at(
                now,
            ) by {
                if p < last {
                    assert(after.pending_claims@[p] == self.pending_claims@[p]);
                } else {
                    assert(claims[m] == claim_of(self.lockups@, claims[m].index, now));
                }
            }
        }
    }

    /// Whether `self` is what `before` becomes when its pending claim at `p`
    /// is committed: each lockup has claimed what was reserved from it, the
    /// reservation is gone, and the locked balance is less by its sum.
    pub open spec fn is_commit_of(&self, before: Contract, p: int) -> bool {
        let claims = before.pending_claims@[p].lockup_claims@;
        &&& self.lockups@.len() == before.lockups@.len()
        &&& forall|i: int|
            0 <= i < self.lockups@.len() ==> (#[trigger] self.lockups@[i]).is_claimed_from(
                before.lockups@[i],
                reserved_from(claims, i),
            )
        &&& self.pending_claims@ == before.pending_claims@.remove(p)
        &&& self.deposit_whitelist == before.deposit_whitelist
        &&& self.token_account_id == before.token_account_id
        &&& self.locked_balance == before.locked_balance - claims_total(claims)
    }

    /// Whether `self` is what `before` becomes when its pending claim at `p`
    /// is rolled back: the reservation is gone and nothing else has changed.
    pub open spec fn is_rollback_of(&self, before: Contract, p: int) -> bool {
        &&& self.lockups == before.lockups
        &&& self.account_lockups == before.account_lockups
        &&& self.pending_claims@ == before.pending_claims@.remove(p)
        &&& self.deposit_whitelist == before.deposit_whitelist
        &&& self.token_account_id == before.token_account_id
        &&& self.locked_balance == before.locked_balance
    }

    /// Dropping the pending claim at `p` leaves the other pending claims as
    /// they were, as long as each lockup from which they reserve holds what
    /// it held.
    pub proof fn lemma_pending_wf_after_removal(&self, after: Contract, p: int)
        requires
            self.wf(),
            0 <= p < self.pending_claims@.len(),
            after.pending_claims@ == self.pending_claims@.remove(p),
            after.lockups@.len() == self.lockups@.len(),
            forall|i: int|
                0 <= i < self.lockups@.len() && self.lockups@[i].account_id@
                    != self.pending_claims@[p].account_id@ ==> (#[trigger] after.lockups@[i])
                    == self.lockups@[i],
        ensures
            after.pending_wf(),
            forall|now: TimestampSec| self.invariant_at(now) ==> #[trigger] after.pending_within(now),
    {
        let origin = |q: int| if q < p { q } else { q + 1 };
        assert forall|q: int| 0 <= q < after.pending_claims@.len() implies #[trigger]
            after.pending_claims@[q] == self.pending_claims@[origin(q)] by {}
        assert forall|q1: int, q2: int|
            0 <= q1 < q2 < after.pending_claims@.len() implies after.pending_claims@[q1].account_id@
            != after.pending_claims@[q2].account_id@ by {
            assert(after.pending_claims@[q1] == self.pending_claims@[origin(q1)]);
            assert(after.pending_claims@[q2] == self.pending_claims@[origin(q2)]);
        }
        assert forall|q: int| 0 <= q < after.pending_claims@.len() implies #[trigger]
            after.reservation_fits(q) by {
            let o = origin(q);
            assert(after.pending_claims@[q] == self.pending_claims@[o]);
            assert(self.reservation_fits(o));
            assert(self.pending_claims@[o].account_id@ != self.pending_claims@[p].account_id@);
            let claims = self.pending_claims@[o].lockup_claims@;
            assert forall|k: int| 0 <= k < claims.len() implies after.lockups@[(
            #[trigger] claims[k]).index as int] == self.lockups@[claims[k].index as int] by {}
        }
        assert forall|now: TimestampSec| self.invariant_at(now) implies #[trigger]
            after.pending_within(now) by {
            assert forall|q: int, k: int|
                0 <= q < after.pending_claims@.len() && 0 <= k
                    < after.pending_claims@[q].lockup_claims@.len() implies (
            #[trigger] after.pending_claims@[q].lockup_claims@[k]).unclaimed_balance
                <= after.lockups@[after.pending_claims@[q].lockup_claims@[k].index as int].claimable_at(
                now,
            ) by {
                let o = origin(q);
                assert(after.pending_claims@[q] == self.pending_claims@[o]);
                assert(self.reservation_fits(o));
                assert(self.pending_claims@[o].account_id@ != self.pending_claims@[p].account_id@);
                let claim = self.pending_claims@[o].lockup_claims@[k];
                assert(after.lockups@[claim.index as int] == self.lockups@[claim.index as int]);
            }
        }
    }

    /// Drops the pending claim of `account_id`: its transfer has failed. No
    /// lockup has changed, so all that was reserved is claimable again.
    /// Returns the amount that had been reserved.
    pub fn rollback_claim(&mut self, account_id: &AccountId) -> (r: Result<Balance, Error>)
        requires
            old(self).wf(),
        ensures
            final(self).wf(),
            !old(self).has_pending(account_id@) ==> r == Err::<Balance, Error>(Error::InvalidState)
                && *final(self) == *old(self),
            forall|p: int| #[trigger]
                old(self).is_pending_at(account_id@, p) ==> {
                    &&& r == Ok::<Balance, Error>(
                        claims_total(old(self).pending_claims@[p].lockup_claims@) as Balance,
                    )
                    &&& final(self).is_rollback_of(*old(self), p)
                },
            forall|now: TimestampSec|
                old(self).invariant_at(now) ==> #[trigger] final(self).invariant_at(now),
            forall|account: Seq<char>, now: TimestampSec|
                #[trigger] final(self).claimable_total(account, now) == old(self).claimable_total(
                    account,
                    now,
                ),
    {
        let p = match self.pending_position(account_id) {
            Some(p) => p,
            None => {
                return Err(Error::InvalidState);
            },
        };
        assert(self.reservation_fits(p as int));
        let record = self.pending_claims.remove(p);
        let total = sum_claims(&record.lockup_claims);
        proof {
            assert forall|q: int| #[trigger] old(self).is_pending_at(account_id@, q) implies q
                == p by {
                if q != p {
                    assert(old(self).pending_claims@[q].account_id@ != old(
                        self,
                    ).pending_claims@[p as int].account_id@);
                }
            }
            old(self).lemma_pending_wf_after_removal(*self, p as int);
            assert forall|account: Seq<char>, i: LockupIndex| #[trigger]
                self.index_agrees_at(account, i) by {
                assert(old(self).index_agrees_at(account, i));
            }
        }
        Ok(total)
    }

    /// Commits the pending claim of `account_id`: its transfer has succeeded.
    /// Each lockup counts as claimed what was reserved from it, and a lockup
    /// that is thereby exhausted leaves the index. Returns the amount that
    /// was transferred.
    pub fn commit_claim(&mut self, account_id: &AccountId) -> (r: Result<Balance, Error>)
        requires
            old(self).wf(),
        ensures
            final(self).wf(),
            !old(self).has_pending(account_id@) ==> r == Err::<Balance, Error>(Error::InvalidState)
                && *final(self) == *old(self),
            forall|p: int| #[trigger]
                old(self).is_pending_at(account_id@, p) ==> {
                    &&& r == Ok::<Balance, Error>(
                        claims_total(old(self).pending_claims@[p].lockup_claims@) as Balance,
                    )
                    &&& final(self).is_commit_of(*old(self), p)
                },
            forall|now: TimestampSec|
                old(self).invariant_at(now) ==> #[trigger] final(self).invariant_at(now),
    {
        let p = match self.pending_position(account_id) {
            Some(p) => p,
            None => {
                return Err(Error::InvalidState);
            },
        };
        assert(self.reservation_fits(p as int));
        let record = self.pending_claims.remove(p);
        let ghost claims = record.lockup_claims@;
        let ghost owner = record.account_id@;
        let mut total: Balance = 0;
        let mut k: usize = 0;
        proof {
            assert forall|i: int| 0 <= i < self.lockups@.len() implies (
            #[trigger] self.lockups@[i]).is_claimed_from(
                old(self).lockups@[i],
                reserved_from(claims.take(0), i),
            ) by {}
            assert forall|account: Seq<char>, i: LockupIndex| #[trigger]
                self.index_agrees_at(account, i) by {
                assert(old(self).index_agrees_at(account, i));
            }
        }
        while k < record.lockup_claims.len()
            invariant
                k <= claims.len(),
                claims == record.lockup_claims@,
                self.ledger_wf(),
                self.pending_claims@ == old(self).pending_claims@.remove(p as int),
                self.deposit_whitelist == old(self).deposit_whitelist,
                self.token_account_id == old(self).token_account_id,
                self.lockups@.len() == old(self).lockups@.len(),
                forall|i: int|
                    0 <= i < self.lockups@.len() ==> (#[trigger] self.lockups@[i]).is_claimed_from(
                        old(self).lockups@[i],
                        reserved_from(claims.take(k as int), i),
                    ),
                total == claims_total(claims.take(k as int)),
                self.locked_balance == old(self).locked_balance - total,
                claims_total(claims) <= u128::MAX,
                forall|j: int|
                    0 <= j < claims.len() ==> {
                        let claim = #[trigger] claims[j];
                        &&& claim.index < old(self).lockups@.len()
                        &&& old(self).lockups@[claim.index as int].account_id@ == owner
                        &&& claim.unclaimed_balance <= outstanding(
                            old(self).lockups@[claim.index as int],
                        )
                    },
                forall|k1: int, k2: int|
                    0 <= k1 < k2 < claims.len() ==> claims[k1].index != claims[k2].index,
            decreases claims.len() - k,
        {
            let claim = record.lockup_claims[k];
            let ghost before = *self;
            proof {
                assert(claims.take(k + 1).drop_last() =~= claims.take(k as int));
                assert(claims.take(k + 1).last() == claim);
                lemma_claims_total_prefix(claims, k + 1);
                assert forall|j: int| 0 <= j < claims.take(k as int).len() implies (
                #[trigger] claims.take(k as int)[j]).index != claim.index as int by {
                    assert(claims.take(k as int)[j] == claims[j]);
                }
                lemma_reserved_from_absent(claims.take(k as int), claim.index as int);
                assert(self.lockups@[claim.index as int].is_claimed_from(
                    old(self).lockups@[claim.index as int],
                    0,
                ));
                assert(self.lockups@[claim.index as int].is_valid());
            }
            match self.lockups[claim.index as usize].commit_claim(claim.unclaimed_balance) {
                Ok(()) => {},
                Err(error) => {
                    return Err(error);
                },
            }
            proof {
                before.lemma_ready_to_settle(*self, claim.index, claim.unclaimed_balance);
            }
            self.settle(claim.index, claim.unclaimed_balance);
            total = total + claim.unclaimed_balance;
            proof {
                assert forall|i: int| 0 <= i < self.lockups@.len() implies (
                #[trigger] self.lockups@[i]).is_claimed_from(
                    old(self).lockups@[i],
                    reserved_from(claims.take(k + 1), i),
                ) by {
                    assert(before.lockups@[i].is_claimed_from(
                        old(self).lockups@[i],
                        reserved_from(claims.take(k as int), i),
                    ));
                }
            }
            k += 1;
        }
        proof {
            assert(claims.take(k as int) =~= claims);
            assert forall|q: int| #[trigger] old(self).is_pending_at(account_id@, q) implies q
                == p by {
                if q != p {
                    assert(old(self).pending_claims@[q].account_id@ != old(
                        self,
                    ).pending_claims@[p as int].account_id@);
                }
            }
            assert forall|i: int|
                0 <= i < old(self).lockups@.len() && old(self).lockups@[i].account_id@
                    != old(self).pending_claims@[p as int].account_id@ implies (
            #[trigger] self.lockups@[i]) == old(self).lockups@[i] by {
                assert forall|j: int| 0 <= j < claims.len() implies (#[trigger] claims[j]).index
                    != i by {}
                lemma_reserved_from_absent(claims, i);
                assert(self.lockups@[i].is_claimed_from(old(self).lockups@[i], 0));
                lemma_same_lockup(self.lockups@[i], old(self).lockups@[i]);
            }
            old(self).lemma_pending_wf_after_removal(*self, p as int);
            assert forall|now: TimestampSec| old(self).invariant_at(now) implies #[trigger]
                self.invariant_at(now) by {
                assert forall|i: int| 0 <= i < self.lockups@.len() implies (
                #[trigger] self.lockups@[i]).invariant_at(now) by {
                    assert(old(self).lockups@[i].invariant_at(now));
                    assert(self.lockups@[i].is_claimed_from(
                        old(self).lockups@[i],
                        reserved_from(claims, i),
                    ));
                    if exists|j: int| 0 <= j < claims.len() && claims[j].index == i {
                        let j = choose|j: int| 0 <= j < claims.len() && claims[j].index == i;
                        lemma_reserved_from_claim(claims, j);
                        assert(old(self).pending_claims@[p as int].lockup_claims@[j].unclaimed_balance
                            <= old(self).lockups@[i].claimable_at(now));
                    } else {
                        assert forall|j: int| 0 <= j < claims.len() implies (
                        #[trigger] claims[j]).index != i by {}
                        lemma_reserved_from_absent(claims, i);
                    }
                }
            }
        }
        Ok(total)
    }
}

impl Contract {
    /// A claim that is rolled back leaves every lockup as it was, and with
    /// it what each account can claim at any time.
    pub proof fn lemma_rollback_restores(&self, before: Contract, p: int)
        requires
            self.is_rollback_of(before, p),
        ensures
            forall|i: int|
                0 <= i < before.lockups@.len() ==> (#[trigger] self.lockups@[i]).claimed_balance
                    == before.lockups@[i].claimed_balance,
            forall|account: Seq<char>, now: TimestampSec|
                #[trigger] self.claimable_total(account, now) == before.claimable_total(account, now),
    {
    }
}

/// Two lockups that differ in nothing are the same lockup.
pub proof fn lemma_same_lockup(a: Lockup, b: Lockup)
    requires
        a.is_claimed_from(b, 0),
    ensures
        a == b,
{
}

/// The sum of the amounts that the claims reserve.
pub(crate) fn sum_claims(claims: &Vec<LockupClaim>) -> (total: Balance)
    requires
        claims_total(claims@) <= u128::MAX,
    ensures
        total == claims_total(claims@),
{
    let mut total: Balance = 0;
    let mut k: usize = 0;
    while k < claims.len()
        invariant
            k <= claims@.len(),
            total == claims_total(claims@.take(k as int)),
            claims_total(claims@) <= u128::MAX,
        decreases claims@.len() - k,
    {
        proof {
            assert(claims@.take(k + 1).drop_last() =~= claims@.take(k as int));
            lemma_claims_total_prefix(claims@, k + 1);
        }
        total = total + claims[k].unclaimed_balance;
        k += 1;
    }
    assert(claims@.take(k as int) =~= claims@);
    total
}

/// The claims that are made at `now` of the lockups that `indices` names,
/// in that order; a lockup with nothing claimable gives none.
pub open spec fn reservation_of(
    lockups: Seq<Lockup>,
    indices: Seq<LockupIndex>,
    now: TimestampSec,
) -> Seq<LockupClaim>
    decreases indices.len(),
{
    if indices.len() == 0 {
        Seq::empty()
    } else {
        let rest = reservation_of(lockups, indices.drop_last(), now);
        if lockups[indices.last() as int].claimable_at(now) > 0 {
            rest.push(claim_of(lockups, indices.last(), now))
        } else {
            rest
        }
    }
}

/// Each claim of `reservation_of` is the claim of a named lockup that has
/// something claimable.
pub proof fn lemma_reservation_claims(
    lockups: Seq<Lockup>,
    indices: Seq<LockupIndex>,
    now: TimestampSec,
    m: int,
) -> (j: int)
    requires
        0 <= m < reservation_of(lockups, indices, now).len(),
    ensures
        0 <= j < indices.len(),
        indices[j] == reservation_of(lockups, indices, now)[m].index,
        0 < lockups[indices[j] as int].claimable_at(now),
        reservation_of(lockups, indices, now)[m] == claim_of(lockups, indices[j], now),
    decreases indices.len(),
{
    let rest_indices = indices.drop_last();
    let rest = reservation_of(lockups, rest_indices, now);
    if m < rest.len() {
        let j = lemma_reservation_claims(lockups, rest_indices, now, m);
        assert(rest_indices[j] == indices[j]);
        j
    } else {
        indices.len() - 1
    }
}

/// Each named lockup that has something claimable has a claim in
/// `reservation_of`.
pub proof fn lemma_reservation_complete(
    lockups: Seq<Lockup>,
    indices: Seq<LockupIndex>,
    now: TimestampSec,
    j: int,
) -> (m: int)
    requires
        0 <= j < indices.len(),
        lockups[indices[j] as int].claimable_at(now) > 0,
    ensures
        0 <= m < reservation_of(lockups, indices, now).len(),
        reservation_of(lockups, indices, now)[m].index == indices[j],
    decreases indices.len(),
{
    let rest_indices = indices.drop_last();
    let rest = reservation_of(lockups, rest_indices, now);
    if j < indices.len() - 1 {
        assert(rest_indices[j] == indices[j]);
        let m = lemma_reservation_complete(lockups, rest_indices, now, j);
        m
    } else {
        rest.len() as int
    }
}

/// Where the named lockups are distinct, no two claims of `reservation_of`
/// are of the same lockup.
pub proof fn lemma_reservation_distinct(
    lockups: Seq<Lockup>,
    indices: Seq<LockupIndex>,
    now: TimestampSec,
    m1: int,
    m2: int,
)
    requires
        indices.no_duplicates(),
        0 <= m1 < m2 < reservation_of(lockups, indices, now).len(),
    ensures
        reservation_of(lockups, indices, now)[m1].index != reservation_of(
            lockups,
            indices,
            now,
        )[m2].index,
    decreases indices.len(),
{
    let rest_indices = indices.drop_last();
    let rest = reservation_of(lockups, rest_indices, now);
    if m2 < rest.len() {
        assert forall|a: int, b: int|
            0 <= a < rest_indices.len() && 0 <= b < rest_indices.len() && a != b implies rest_indices[a]
            != rest_indices[b] by {
            assert(rest_indices[a] == indices[a] && rest_indices[b] == indices[b]);
        }
        lemma_reservation_distinct(lockups, rest_indices, now, m1, m2);
    } else {
        let j = lemma_reservation_claims(lockups, rest_indices, now, m1);
        assert(rest_indices[j] == indices[j]);
    }
}

/// The claims of `reservation_of` reserve in all the sum of what the named
/// lockups have claimable.
pub proof fn lemma_reservation_total(lockups: Seq<Lockup>, indices: Seq<LockupIndex>, now: TimestampSec)
    requires
        forall|j: int|
            0 <= j < indices.len() ==> (#[trigger] indices[j]) < lockups.len() && 0
                <= lockups[indices[j] as int].claimable_at(now) <= u128::MAX,
    ensures
        claims_total(reservation_of(lockups, indices, now)) == sum_at(
            claimable_values(lockups, now),
            indices,
        ),
    decreases indices.len(),
{
    if indices.len() > 0 {
        let rest_indices = indices.drop_last();
        let rest = reservation_of(lockups, rest_indices, now);
        assert forall|j: int| 0 <= j < rest_indices.len() implies (#[trigger] rest_indices[j])
            < lockups.len() && 0 <= lockups[rest_indices[j] as int].claimable_at(now)
            <= u128::MAX by {
            assert(rest_indices[j] == indices[j]);
        }
        lemma_reservation_total(lockups, rest_indices, now);
        let x = indices[indices.len() - 1];
        assert(0 <= lockups[x as int].claimable_at(now) <= u128::MAX);
        if lockups[x as int].claimable_at(now) > 0 {
            assert(reservation_of(lockups, indices, now).drop_last() =~= rest);
        }
    }
}

/// Where the sum along a prefix with one more item exceeds the largest
/// balance, either some value along the list is negative or the whole sum
/// exceeds it too.
pub proof fn lemma_overflow_is_invalid(values: Seq<int>, indices: Seq<LockupIndex>, k: int)
    requires
        0 <= k < indices.len(),
        forall|j: int| 0 <= j < indices.len() ==> indices[j] < values.len(),
        sum_at(values, indices.take(k + 1)) > u128::MAX,
    ensures
        (exists|j: int| 0 <= j < indices.len() && values[indices[j] as int] < 0) || sum_at(
            values,
            indices,
        ) > u128::MAX,
{
    if !(exists|j: int| 0 <= j < indices.len() && values[indices[j] as int] < 0) {
        lemma_sum_at_prefix(values, indices, k + 1);
    }
}

} // verus!
