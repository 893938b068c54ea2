//! Forfeiture: lockups from which nothing has been claimed are taken back.

use vstd::prelude::*;
use crate::contract::outstanding;
use crate::contract::outstanding_sum;
use crate::contract::Contract;
use crate::lockup::Lockup;
use crate::schedule::Checkpoint;
use crate::AccountId;
use crate::Balance;
use crate::LockupIndex;
use crate::TimestampSec;

verus! {

/// What the chosen lockups grant together.
pub open spec fn total_where(lockups: Seq<Lockup>, chosen: Set<int>) -> int
    decreases lockups.len(),
{
    if lockups.len() == 0 {
        0
    } else {
        total_where(lockups.drop_last(), chosen) + if chosen.contains(lockups.len() - 1) {
            lockups.last().total()
        } else {
            0
        }
    }
}

/// Whether `after` holds what a seizure leaves of `before`: nothing, if the
/// lockup was chosen and had nothing claimed, and what it held, if it was not
/// chosen.
pub open spec fn holds_as_seized(before: Lockup, after: Lockup, chosen: bool) -> bool {
    if chosen {
        before.claimed_balance == 0 && outstanding(after) == 0
    } else {
        outstanding(after) == outstanding(before)
    }
}

/// Where the chosen lockups had nothing claimed and hold nothing any more,
/// and the others hold what they held, all together hold less by what the
/// chosen ones granted.
pub proof fn lemma_seized_total(before: Seq<Lockup>, after: Seq<Lockup>, chosen: Set<int>)
    requires
        before.len() == after.len(),
        forall|i: int|
            0 <= i < before.len() ==> holds_as_seized(
                #[trigger] before[i],
                after[i],
                chosen.contains(i),
            ),
    ensures
        outstanding_sum(before) - outstanding_sum(after) == total_where(before, chosen),
    decreases before.len(),
{
    if before.len() > 0 {
        let n = before.len() as int;
        assert forall|i: int| 0 <= i < n - 1 implies holds_as_seized(
            #[trigger] before.drop_last()[i],
            after.drop_last()[i],
            chosen.contains(i),
        ) by {
            assert(after.drop_last()[i] == after[i]);
            assert(before.drop_last()[i] == before[i]);
            assert(holds_as_seized(before[i], after[i], chosen.contains(i)));
        }
        lemma_seized_total(before.drop_last(), after.drop_last(), chosen);
        assert(after.last() == after[n - 1]);
        assert(before.last() == before[n - 1]);
        assert(holds_as_seized(before[n - 1], after[n - 1], chosen.contains(n - 1)));
    }
}

impl Lockup {
    /// Whether `self` is what is left of `before` once it is seized: a
    /// lockup of the same account that grants nothing.
    pub open spec fn is_seizure_of(&self, before: Lockup) -> bool {
        &&& self.account_id@ == before.account_id@
        &&& self.schedule@ == seq![Checkpoint { timestamp: 0, balance: 0 }]
        &&& self.claimed_balance == 0
        &&& self.termination_config is None
    }
}

impl Contract {
    /// Whether the lockup `i` is seized when the lockups of `account` are:
    /// it is a lockup of that account that still holds tokens, nothing has
    /// been claimed from it, and no claim of the account is pending.
    pub open spec fn is_seizable_for(&self, account: Seq<char>, i: int) -> bool {
        &&& 0 <= i < self.lockups@.len()
        &&& self.lockups@[i].account_id@ == account
        &&& !self.lockups@[i].is_dead()
        &&& self.lockups@[i].claimed_balance == 0
        &&& !self.has_pending(account)
    }

    /// Whether the lockup `i` is seized when the lockups of `accounts` are.
    pub open spec fn is_seizable(&self, accounts: Seq<AccountId>, i: int) -> bool {
        exists|a: int| 0 <= a < accounts.len() && self.is_seizable_for(#[trigger] accounts[a]@, i)
    }

    /// What is seized when the lockups of `accounts` are: the totals of the
    /// lockups that are seized, added up.
    pub open spec fn seizable_total(&self, accounts: Seq<AccountId>) -> int {
        total_where(self.lockups@, Set::new(|i: int| self.is_seizable(accounts, i)))
    }

    /// Seizes the lockups of `account_id` from which nothing has been
    /// claimed: each is replaced by a lockup that grants nothing, and leaves
    /// the index. Lockups with anything claimed are skipped, and so is an
    /// account with a pending claim. Returns the total that was seized.
    pub fn seize_account(&mut self, account_id: &AccountId) -> (seized: Balance)
        requires
            old(self).wf(),
        ensures
            final(self).wf(),
            final(self).lockups@.len() == old(self).lockups@.len(),
            forall|i: int|
                0 <= i < old(self).lockups@.len() ==> if old(self).is_seizable_for(account_id@, i) {
                    (#[trigger] final(self).lockups@[i]).is_seizure_of(old(self).lockups@[i])
                } else {
                    final(self).lockups@[i] == old(self).lockups@[i]
                },
            seized == old(self).locked_balance - final(self).locked_balance,
            final(self).pending_claims == old(self).pending_claims,
            final(self).deposit_whitelist == old(self).deposit_whitelist,
            final(self).token_account_id == old(self).token_account_id,
            forall|now: TimestampSec|
                old(self).invariant_at(now) ==> #[trigger] final(self).invariant_at(now),
    {
        if self.pending_position(account_id).is_some() {
            return 0;
        }
        let indices = self.account_lockups.get(account_id);
        let ghost listed = self.account_lockups.indices_of(account_id@);
        let mut seized: Balance = 0;
        let mut k: usize = 0;
        proof {
            assert(indices@.take(0).to_set() =~= Set::<LockupIndex>::empty());
            assert forall|j: int| 0 <= j < indices@.len() implies old(self).is_live_lockup_of(
                account_id@,
                #[trigger] indices@[j],
            ) by {
                assert(listed.contains(indices@[j]));
                assert(old(self).index_agrees_at(account_id@, indices@[j]));
            }
        }
        while k < indices.len()
            invariant
                k <= indices@.len(),
                indices@.no_duplicates(),
                forall|j: int|
                    0 <= j < indices@.len() ==> old(self).is_live_lockup_of(
                        account_id@,
                        #[trigger] indices@[j],
                    ),
                self.ledger_wf(),
                self.lockups@.len() == old(self).lockups@.len(),
                forall|i: int|
                    0 <= i < old(self).lockups@.len() ==> if indices@.take(k as int).to_set().contains(
                        i as LockupIndex,
                    ) && old(self).lockups@[i].claimed_balance == 0 {
                        (#[trigger] self.lockups@[i]).is_seizure_of(old(self).lockups@[i])
                    } else {
                        self.lockups@[i] == old(self).lockups@[i]
                    },
                seized == old(self).locked_balance - self.locked_balance,
                self.pending_claims == old(self).pending_claims,
                self.deposit_whitelist == old(self).deposit_whitelist,
                self.token_account_id == old(self).token_account_id,
            decreases indices@.len() - k,
        {
            let index = indices[k];
            proof {
                assert(indices@.take(k + 1) =~= indices@.take(k as int).push(index));
                indices@.take(k as int).lemma_push_to_set_commute(index);
                assert(!indices@.take(k as int).to_set().contains(index)) by {
                    if indices@.take(k as int).contains(index) {
                        let j = choose|j: int|
                            0 <= j < indices@.take(k as int).len() && indices@.take(k as int)[j]
                                == index;
                        assert(indices@[j] == indices@[k as int]);
                    }
                }
                assert(old(self).is_live_lockup_of(account_id@, indices@[k as int]));
                assert(self.lockups@[index as int] == old(self).lockups@[index as int]);
                assert(self.lockups@[index as int].is_valid());
            }
            if self.lockups[index as usize].claimed_balance == 0 {
                let amount = self.lockups[index as usize].total_balance();
                let ghost before = *self;
                self.lockups.set(index as usize, Lockup::new_unlocked(account_id.clone(), 0));
                proof {
                    before.lemma_ready_to_settle(*self, index, amount);
                }
                self.settle(index, amount);
                seized = seized + amount;
            }
            k += 1;
        }
        proof {
            assert(indices@.take(k as int) =~= indices@);
            assert forall|i: int| 0 <= i < old(self).lockups@.len() implies if old(
                self,
            ).is_seizable_for(account_id@, i) {
                (#[trigger] self.lockups@[i]).is_seizure_of(old(self).lockups@[i])
            } else {
                self.lockups@[i] == old(self).lockups@[i]
            } by {
                assert(old(self).index_agrees_at(account_id@, i as LockupIndex));
            }
            assert forall|i: int|
                0 <= i < old(self).lockups@.len() && old(self).has_pending(
                    old(self).lockups@[i].account_id@,
                ) implies (#[trigger] self.lockups@[i]) == old(self).lockups@[i] by {
                assert(old(self).index_agrees_at(account_id@, i as LockupIndex));
            }
            old(self).lemma_pending_unaffected(*self);
            assert forall|now: TimestampSec| old(self).invariant_at(now) implies #[trigger]
                self.invariant_at(now) by {
                assert forall|i: int| 0 <= i < self.lockups@.len() implies (
                #[trigger] self.lockups@[i]).invariant_at(now) by {
                    assert(old(self).lockups@[i].invariant_at(now));
                    assert(self.lockups@[i].is_valid());
                }
            }
        }
        seized
    }

    /// Seizes the lockups of each account of `account_ids`, as
    /// `seize_account` does, and returns the total that was seized.
    pub fn seize(&mut self, account_ids: Vec<AccountId>) -> (seized: Balance)
        requires
            old(self).wf(),
        ensures
            final(self).wf(),
            final(self).lockups@.len() == old(self).lockups@.len(),
            forall|i: int|
                0 <= i < old(self).lockups@.len() ==> if old(self).is_seizable(account_ids@, i) {
                    (#[trigger] final(self).lockups@[i]).is_seizure_of(old(self).lockups@[i])
                } else {
                    final(self).lockups@[i] == old(self).lockups@[i]
                },
            seized == old(self).seizable_total(account_ids@),
            seized == old(self).locked_balance - final(self).locked_balance,
            final(self).pending_claims == old(self).pending_claims,
            final(self).deposit_whitelist == old(self).deposit_whitelist,
            final(self).token_account_id == old(self).token_account_id,
            forall|now: TimestampSec|
                old(self).invariant_at(now) ==> #[trigger] final(self).invariant_at(now),
    {
        let mut seized: Balance = 0;
        let mut a: usize = 0;
        while a < account_ids.len()
            invariant
                a <= account_ids@.len(),
                self.wf(),
                self.lockups@.len() == old(self).lockups@.len(),
                forall|i: int|
                    0 <= i < old(self).lockups@.len() ==> if old(self).is_seizable(
                        account_ids@.take(a as int),
                        i,
                    ) {
                        (#[trigger] self.lockups@[i]).is_seizure_of(old(self).lockups@[i])
                    } else {
                        self.lockups@[i] == old(self).lockups@[i]
                    },
                seized == old(self).locked_balance - self.locked_balance,
                self.pending_claims == old(self).pending_claims,
                self.deposit_whitelist == old(self).deposit_whitelist,
                self.token_account_id == old(self).token_account_id,
                forall|now: TimestampSec|
                    old(self).invariant_at(now) ==> #[trigger] self.invariant_at(now),
            decreases account_ids@.len() - a,
        {
            let ghost before = *self;
            let amount = self.seize_account(&account_ids[a]);
            seized = seized + amount;
            proof {
                let account = account_ids@[a as int]@;
                let earlier = account_ids@.take(a as int);
                let now_done = account_ids@.take(a + 1);
                assert forall|i: int| 0 <= i < old(self).lockups@.len() implies if old(
                    self,
                ).is_seizable(now_done, i) {
                    (#[trigger] self.lockups@[i]).is_seizure_of(old(self).lockups@[i])
                } else {
                    self.lockups@[i] == old(self).lockups@[i]
                } by {
                    assert(old(self).has_pending(account) == before.has_pending(account)) by {
                        if old(self).has_pending(account) {
                            let p = choose|p: int| old(self).is_pending_at(account, p);
                            assert(before.is_pending_at(account, p));
                        }
                        if before.has_pending(account) {
                            let p = choose|p: int| before.is_pending_at(account, p);
                            assert(old(self).is_pending_at(account, p));
                        }
                    }
                    if old(self).is_seizable(earlier, i) {
                        let e = choose|e: int|
                            0 <= e < earlier.len() && old(self).is_seizable_for(
                                #[trigger] earlier[e]@,
                                i,
                            );
                        assert(now_done[e] == earlier[e]);
                        assert(before.lockups@[i].is_seizure_of(old(self).lockups@[i]));
                        assert(before.lockups@[i].is_dead());
                    } else {
                        assert(before.lockups@[i] == old(self).lockups@[i]);
                        if old(self).is_seizable_for(account, i) {
                            assert(now_done[a as int]@ == account);
                        }
                        if old(self).is_seizable(now_done, i) {
                            let e = choose|e: int|
                                0 <= e < now_done.len() && old(self).is_seizable_for(
                                    #[trigger] now_done[e]@,
                                    i,
                                );
                            if e < a {
                                assert(earlier[e] == now_done[e]);
                            }
                        }
                    }
                }
            }
            a += 1;
        }
        proof {
            assert(account_ids@.take(a as int) =~= account_ids@);
            let chosen = Set::new(|i: int| old(self).is_seizable(account_ids@, i));
            assert forall|i: int| 0 <= i < old(self).lockups@.len() implies holds_as_seized(
                #[trigger] old(self).lockups@[i],
                self.lockups@[i],
                chosen.contains(i),
            ) by {
                if old(self).is_seizable(account_ids@, i) {
                    assert(self.lockups@[i].is_seizure_of(old(self).lockups@[i]));
                }
            }
            lemma_seized_total(old(self).lockups@, self.lockups@, chosen);
        }
        seized
    }
}

} // verus!
