//! The ledger: all lockups, the index of the accounts that own them, the
//! accounts that may fund new ones, and the claims that await the outcome of
//! their transfer.

use vstd::prelude::*;
use crate::account_index::AccountIndex;
use crate::lockup::Lockup;
use crate::lockup::LockupClaim;
use crate::lockup::lemma_lockup_invariant_persists;
use crate::schedule::lemma_unlocked_bounds;
use crate::schedule::lemma_unlocked_monotone;
use crate::schedule::unlocked_at;
use crate::AccountId;
use crate::Balance;
use crate::Error;
use crate::LockupIndex;
use crate::TimestampSec;
use crate::TokenAccountId;

verus! {

/// A claim whose transfer has been requested and not yet resolved: what was
/// reserved from which lockup of the account.
#[derive(Debug, PartialEq, Eq)]
pub struct PendingClaim {
    pub account_id: AccountId,
    pub lockup_claims: Vec<LockupClaim>,
}

/// The ledger.
#[derive(Debug, PartialEq, Eq)]
pub struct Contract {
    /// The token whose balances are locked here.
    pub token_account_id: TokenAccountId,
    /// Every lockup ever created, at the position that identifies it.
    pub lockups: Vec<Lockup>,
    /// For each account, the lockups that still hold tokens for it.
    pub account_lockups: AccountIndex,
    /// The accounts that may create new lockups.
    pub deposit_whitelist: Vec<AccountId>,
    /// The claims that await the outcome of their transfer, at most one for
    /// an account.
    pub pending_claims: Vec<PendingClaim>,
    /// The tokens held for all lockups together: what was granted and has
    /// not been claimed.
    pub locked_balance: Balance,
}

/// What a lockup still holds: what it grants, less what was claimed.
pub open spec fn outstanding(lockup: Lockup) -> int {
    lockup.total() - lockup.claimed_balance
}

/// What all the lockups hold together.
pub open spec fn outstanding_sum(lockups: Seq<Lockup>) -> int
    decreases lockups.len(),
{
    if lockups.len() == 0 {
        0
    } else {
        outstanding_sum(lockups.drop_last()) + outstanding(lockups.last())
    }
}

/// Whether every lockup is valid.
pub open spec fn all_valid(lockups: Seq<Lockup>) -> bool {
    forall|i: int| 0 <= i < lockups.len() ==> (#[trigger] lockups[i]).is_valid()
}

/// The sum of the amounts that the claims reserve.
pub open spec fn claims_total(claims: Seq<LockupClaim>) -> int
    decreases claims.len(),
{
    if claims.len() == 0 {
        0
    } else {
        claims_total(claims.drop_last()) + claims.last().unclaimed_balance
    }
}

/// The amount that the claims reserve from the lockup `index`.
pub open spec fn reserved_from(claims: Seq<LockupClaim>, index: int) -> int
    decreases claims.len(),
{
    if claims.len() == 0 {
        0
    } else if claims.last().index == index {
        reserved_from(claims.drop_last(), index) + claims.last().unclaimed_balance
    } else {
        reserved_from(claims.drop_last(), index)
    }
}

/// A new lockup adds what it holds to the sum.
pub proof fn lemma_outstanding_push(lockups: Seq<Lockup>, lockup: Lockup)
    ensures
        outstanding_sum(lockups.push(lockup)) == outstanding_sum(lockups) + outstanding(lockup),
{
    assert(lockups.push(lockup).drop_last() =~= lockups);
}

/// A changed lockup changes the sum by the change in what it holds.
pub proof fn lemma_outstanding_update(lockups: Seq<Lockup>, i: int, lockup: Lockup)
    requires
        0 <= i < lockups.len(),
    ensures
        outstanding_sum(lockups.update(i, lockup)) == outstanding_sum(lockups) - outstanding(
            lockups[i],
        ) + outstanding(lockup),
    decreases lockups.len(),
{
    let updated = lockups.update(i, lockup);
    if i == lockups.len() - 1 {
        assert(updated.drop_last() =~= lockups.drop_last());
    } else {
        lemma_outstanding_update(lockups.drop_last(), i, lockup);
        assert(updated.drop_last() =~= lockups.drop_last().update(i, lockup));
    }
}

/// No valid lockup holds a negative amount, nor more than all together.
pub proof fn lemma_outstanding_bounds(lockups: Seq<Lockup>, i: int)
    requires
        all_valid(lockups),
        0 <= i < lockups.len(),
    ensures
        0 <= outstanding(lockups[i]) <= outstanding_sum(lockups),
        0 <= outstanding_sum(lockups),
    decreases lockups.len(),
{
    let rest = lockups.drop_last();
    assert(lockups.last().is_valid());
    assert forall|k: int| 0 <= k < rest.len() implies (#[trigger] rest[k]).is_valid() by {
        assert(rest[k] == lockups[k]);
    }
    let n = lockups.len() as int;
    assert(lockups.last() == lockups[n - 1]);
    assert(0 <= outstanding(lockups[n - 1]));
    if rest.len() > 0 {
        let j = if i < rest.len() { i } else { 0 };
        lemma_outstanding_bounds(rest, j);
        assert(rest[j] == lockups[j]);
    } else {
        assert(outstanding_sum(rest) == 0);
    }
    assert(outstanding_sum(lockups) == outstanding_sum(rest) + outstanding(lockups[n - 1]));
}

/// The lockups of a prefix hold no more together than all do.
pub proof fn lemma_outstanding_prefix(lockups: Seq<Lockup>, k: int)
    requires
        all_valid(lockups),
        0 <= k <= lockups.len(),
    ensures
        0 <= outstanding_sum(lockups.take(k)) <= outstanding_sum(lockups),
    decreases lockups.len() - k,
{
    assert forall|i: int| 0 <= i < lockups.take(k).len() implies (
    #[trigger] lockups.take(k)[i]).is_valid() by {
        assert(lockups.take(k)[i] == lockups[i]);
    }
    if k == lockups.len() {
        assert(lockups.take(k) =~= lockups);
    } else {
        lemma_outstanding_prefix(lockups, k + 1);
        assert(lockups.take(k + 1).drop_last() =~= lockups.take(k));
        assert(lockups[k].is_valid());
    }
    if k > 0 {
        lemma_outstanding_bounds(lockups.take(k), 0);
    }
}

/// Claims that take nothing from the lockup `index` reserve nothing from it.
pub proof fn lemma_reserved_from_absent(claims: Seq<LockupClaim>, index: int)
    requires
        forall|k: int| 0 <= k < claims.len() ==> (#[trigger] claims[k]).index != index,
    ensures
        reserved_from(claims, index) == 0,
    decreases claims.len(),
{
    if claims.len() > 0 {
        let rest = claims.drop_last();
        assert forall|k: int| 0 <= k < rest.len() implies (#[trigger] rest[k]).index != index by {
            assert(rest[k] == claims[k]);
        }
        lemma_reserved_from_absent(rest, index);
        assert(claims.last() == claims[claims.len() - 1]);
    }
}

/// Among claims that take from no lockup twice, what is reserved from the
/// lockup of a claim is the amount of that claim.
pub proof fn lemma_reserved_from_claim(claims: Seq<LockupClaim>, k: int)
    requires
        0 <= k < claims.len(),
        forall|k1: int, k2: int| 0 <= k1 < k2 < claims.len() ==> claims[k1].index != claims[k2].index,
    ensures
        reserved_from(claims, claims[k].index as int) == claims[k].unclaimed_balance,
    decreases claims.len(),
{
    let rest = claims.drop_last();
    let n = claims.len() as int;
    if k == n - 1 {
        assert forall|j: int| 0 <= j < rest.len() implies (#[trigger] rest[j]).index
            != claims[k].index as int by {
            assert(rest[j] == claims[j]);
        }
        lemma_reserved_from_absent(rest, claims[k].index as int);
    } else {
        assert(rest[k] == claims[k]);
        assert forall|k1: int, k2: int| 0 <= k1 < k2 < rest.len() implies rest[k1].index
            != rest[k2].index by {
            assert(rest[k1] == claims[k1] && rest[k2] == claims[k2]);
        }
        lemma_reserved_from_claim(rest, k);
        assert(claims[k].index != claims[n - 1].index);
    }
}

/// The claims of a prefix reserve no more in all than the whole.
pub proof fn lemma_claims_total_prefix(claims: Seq<LockupClaim>, k: int)
    requires
        0 <= k <= claims.len(),
    ensures
        0 <= claims_total(claims.take(k)) <= claims_total(claims),
    decreases claims.len() - k,
{
    if k == claims.len() {
        assert(claims.take(k) =~= claims);
        lemma_claims_total_nonneg(claims);
    } else {
        lemma_claims_total_prefix(claims, k + 1);
        assert(claims.take(k + 1).drop_last() =~= claims.take(k));
        lemma_claims_total_nonneg(claims.take(k));
    }
}

/// Claims reserve no negative amount in all.
pub proof fn lemma_claims_total_nonneg(claims: Seq<LockupClaim>)
    ensures
        0 <= claims_total(claims),
    decreases claims.len(),
{
    if claims.len() > 0 {
        lemma_claims_total_nonneg(claims.drop_last());
    }
}

impl Contract {
    /// Whether `i` is a lockup of `account` that still holds tokens.
    pub open spec fn is_live_lockup_of(&self, account: Seq<char>, i: LockupIndex) -> bool {
        &&& i < self.lockups@.len()
        &&& self.lockups@[i as int].account_id@ == account
        &&& !self.lockups@[i as int].is_dead()
    }

    /// Whether a claim of `account` awaits the outcome of its transfer at
    /// position `p`.
    pub open spec fn is_pending_at(&self, account: Seq<char>, p: int) -> bool {
        0 <= p < self.pending_claims@.len() && self.pending_claims@[p].account_id@ == account
    }

    /// Whether a claim of `account` awaits the outcome of its transfer.
    pub open spec fn has_pending(&self, account: Seq<char>) -> bool {
        exists|p: int| self.is_pending_at(account, p)
    }

    /// Whether `account` may create lockups.
    pub open spec fn is_whitelisted(&self, account: Seq<char>) -> bool {
        exists|k: int| 0 <= k < self.deposit_whitelist@.len() && self.deposit_whitelist@[k]@ == account
    }

    /// The index agrees with the lockups at `i`: `i` is listed for an account
    /// exactly if it is a lockup of that account that still holds tokens.
    pub open spec fn index_agrees_at(&self, account: Seq<char>, i: LockupIndex) -> bool {
        self.account_lockups.indices_of(account).contains(i) <==> self.is_live_lockup_of(account, i)
    }

    /// The lockups and their index are in order: every lockup is valid, the
    /// index lists for each account exactly its lockups that still hold
    /// tokens, and the locked balance is what all lockups hold together.
    pub open spec fn ledger_wf(&self) -> bool {
        &&& self.lockups@.len() <= u32::MAX
        &&& all_valid(self.lockups@)
        &&& self.account_lockups.wf()
        &&& forall|account: Seq<char>, i: LockupIndex| #[trigger] self.index_agrees_at(account, i)
        &&& self.locked_balance == outstanding_sum(self.lockups@)
    }

    /// As `ledger_wf`, but for the lockup `index`, which has just released
    /// `released` tokens: the index may still list it though it has died,
    /// and the locked balance still counts what it released.
    pub open spec fn ledger_wf_before_settling(&self, index: LockupIndex, released: Balance) -> bool {
        &&& index < self.lockups@.len() <= u32::MAX
        &&& all_valid(self.lockups@)
        &&& self.account_lockups.wf()
        &&& forall|account: Seq<char>, i: LockupIndex|
            i != index ==> #[trigger] self.index_agrees_at(account, i)
        &&& forall|account: Seq<char>|
            account != self.lockups@[index as int].account_id@ ==> !(
            #[trigger] self.account_lockups.indices_of(account)).contains(index)
        &&& self.locked_balance == outstanding_sum(self.lockups@) + released
    }

    /// Whether the reservation at `p` fits the lockups: each claim takes a
    /// positive amount from a lockup of the account, no more than that lockup
    /// still holds, and no lockup is taken from twice.
    pub open spec fn reservation_fits(&self, p: int) -> bool {
        let record = self.pending_claims@[p];
        let claims = record.lockup_claims@;
        &&& forall|k: int|
            0 <= k < claims.len() ==> {
                let claim = #[trigger] claims[k];
                &&& claim.index < self.lockups@.len()
                &&& self.lockups@[claim.index as int].account_id@ == record.account_id@
                &&& claim.unclaimed_balance > 0
                &&& claim.unclaimed_balance <= outstanding(self.lockups@[claim.index as int])
            }
        &&& forall|k1: int, k2: int|
            0 <= k1 < k2 < claims.len() ==> claims[k1].index != claims[k2].index
        &&& 0 < claims_total(claims) <= u128::MAX
    }

    /// The pending claims are in order: no account has two, and each fits
    /// the lockups.
    pub open spec fn pending_wf(&self) -> bool {
        &&& forall|pa: int, pb: int|
            0 <= pa < pb < self.pending_claims@.len() ==> self.pending_claims@[pa].account_id@
                != self.pending_claims@[pb].account_id@
        &&& forall|p: int| 0 <= p < self.pending_claims@.len() ==> #[trigger] self.reservation_fits(p)
    }

    /// The ledger is in order.
    pub open spec fn wf(&self) -> bool {
        self.ledger_wf() && self.pending_wf()
    }

    /// Whether no lockup has more claimed than it has unlocked at `now`.
    pub open spec fn lockups_within(&self, now: TimestampSec) -> bool {
        forall|i: int|
            0 <= i < self.lockups@.len() ==> (#[trigger] self.lockups@[i]).invariant_at(now)
    }

    /// Whether no pending claim has reserved more from a lockup than that
    /// lockup has unlocked and not claimed at `now`.
    pub open spec fn pending_within(&self, now: TimestampSec) -> bool {
        forall|p: int, k: int|
            0 <= p < self.pending_claims@.len() && 0 <= k
                < self.pending_claims@[p].lockup_claims@.len() ==> (
            #[trigger] self.pending_claims@[p].lockup_claims@[k]).unclaimed_balance
                <= self.lockups@[self.pending_claims@[p].lockup_claims@[k].index as int].claimable_at(
                now,
            )
    }

    /// What holds of the ledger at every time at which it is observed: it is
    /// in order, no lockup has more claimed than unlocked, and no pending
    /// claim has reserved more than is unlocked and unclaimed.
    pub open spec fn invariant_at(&self, now: TimestampSec) -> bool {
        &&& self.wf()
        &&& self.lockups_within(now)
        &&& self.pending_within(now)
    }

    /// Time does not break the invariant of the ledger: what holds at one
    /// time holds at every later time, and in every lockup the unlocked
    /// amount stays between what is claimed and what is granted.
    pub proof fn lemma_invariant_persists(&self, earlier: TimestampSec, later: TimestampSec)
        requires
            self.invariant_at(earlier),
            earlier <= later,
        ensures
            self.invariant_at(later),
            forall|i: int|
                0 <= i < self.lockups@.len() ==> (#[trigger] self.lockups@[i]).claimed_balance
                    <= unlocked_at(self.lockups@[i].schedule@, later as int)
                    <= self.lockups@[i].total(),
    {
        assert forall|i: int| 0 <= i < self.lockups@.len() implies (
        #[trigger] self.lockups@[i]).invariant_at(later) && self.lockups@[i].claimed_balance
            <= unlocked_at(self.lockups@[i].schedule@, later as int)
            <= self.lockups@[i].total() by {
            assert(self.lockups@[i].invariant_at(earlier));
            lemma_lockup_invariant_persists(self.lockups@[i], earlier, later);
        }
        assert forall|p: int, k: int|
            0 <= p < self.pending_claims@.len() && 0 <= k
                < self.pending_claims@[p].lockup_claims@.len() implies (
        #[trigger] self.pending_claims@[p].lockup_claims@[k]).unclaimed_balance
            <= self.lockups@[self.pending_claims@[p].lockup_claims@[k].index as int].claimable_at(
            later,
        ) by {
            assert(self.reservation_fits(p));
            let claim = self.pending_claims@[p].lockup_claims@[k];
            assert(self.lockups@[claim.index as int].is_valid());
            lemma_unlocked_monotone(
                self.lockups@[claim.index as int].schedule@,
                earlier as int,
                later as int,
            );
        }
    }

    /// An empty ledger for the token `token_account_id`, which the accounts
    /// of `deposit_whitelist` may fund.
    pub fn new(
        token_account_id: TokenAccountId,
        deposit_whitelist: Vec<AccountId>,
    ) -> (contract: Self)
        ensures
            contract.token_account_id == token_account_id,
            contract.deposit_whitelist == deposit_whitelist,
            contract.lockups@.len() == 0,
            contract.pending_claims@.len() == 0,
            contract.locked_balance == 0,
            contract.wf(),
            forall|now: TimestampSec| #[trigger] contract.invariant_at(now),
    {
        let contract = Contract {
            token_account_id,
            lockups: Vec::new(),
            account_lockups: AccountIndex::new(),
            deposit_whitelist,
            pending_claims: Vec::new(),
            locked_balance: 0,
        };
        assert forall|account: Seq<char>, i: LockupIndex| #[trigger]
            contract.index_agrees_at(account, i) by {
            assert(contract.account_lockups.indices_of(account) == Set::<LockupIndex>::empty());
        }
        contract
    }

    /// After a lockup of a ledger in order has released `released` tokens,
    /// the ledger is ready to settle that lockup.
    pub proof fn lemma_ready_to_settle(&self, after: Contract, index: LockupIndex, released: Balance)
        requires
            self.ledger_wf(),
            index < self.lockups@.len(),
            after.lockups@ == self.lockups@.update(index as int, after.lockups@[index as int]),
            after.lockups@[index as int].is_valid(),
            after.lockups@[index as int].account_id@ == self.lockups@[index as int].account_id@,
            outstanding(after.lockups@[index as int]) + released == outstanding(
                self.lockups@[index as int],
            ),
            after.account_lockups == self.account_lockups,
            after.locked_balance == self.locked_balance,
        ensures
            after.ledger_wf_before_settling(index, released),
    {
        lemma_outstanding_update(self.lockups@, index as int, after.lockups@[index as int]);
        assert forall|i: int| 0 <= i < after.lockups@.len() implies (
        #[trigger] after.lockups@[i]).is_valid() by {
            if i != index {
                assert(after.lockups@[i] == self.lockups@[i]);
            }
        }
        assert forall|account: Seq<char>, i: LockupIndex| i != index implies #[trigger]
            after.index_agrees_at(account, i) by {
            assert(self.index_agrees_at(account, i));
            if i < self.lockups@.len() {
                assert(after.lockups@[i as int] == self.lockups@[i as int]);
            }
        }
        assert forall|account: Seq<char>|
            account != after.lockups@[index as int].account_id@ implies !(
        #[trigger] after.account_lockups.indices_of(account)).contains(index) by {
            assert(self.index_agrees_at(account, index));
        }
    }

    /// Brings the index and the locked balance up to date after the lockup
    /// `index` has released `released` tokens.
    pub(crate) fn settle(&mut self, index: LockupIndex, released: Balance)
        requires
            old(self).ledger_wf_before_settling(index, released),
        ensures
            final(self).ledger_wf(),
            final(self).lockups == old(self).lockups,
            final(self).pending_claims == old(self).pending_claims,
            final(self).deposit_whitelist == old(self).deposit_whitelist,
            final(self).token_account_id == old(self).token_account_id,
            final(self).locked_balance == old(self).locked_balance - released,
    {
        proof {
            lemma_outstanding_bounds(self.lockups@, index as int);
        }
        let owner = self.lockups[index as usize].account_id.clone();
        if self.lockups[index as usize].is_exhausted() {
            self.account_lockups.remove(&owner, index);
        } else {
            self.account_lockups.insert(&owner, index);
        }
        self.locked_balance = self.locked_balance - released;
        assert forall|account: Seq<char>, i: LockupIndex| #[trigger]
            self.index_agrees_at(account, i) by {
            assert(old(self).index_agrees_at(account, i) || i == index);
            if account != owner@ {
                assert(self.account_lockups.indices_of(account) == old(
                    self,
                ).account_lockups.indices_of(account));
            }
        }
    }

    /// Adds a lockup and returns the position that identifies it from now
    /// on. Refused, with the ledger unchanged, when the ledger cannot hold
    /// another lockup or more tokens.
    pub fn internal_add_lockup(&mut self, lockup: Lockup) -> (r: Result<LockupIndex, Error>)
        requires
            old(self).wf(),
            lockup.is_valid(),
        ensures
            final(self).wf(),
            old(self).lockups@.len() < u32::MAX && old(self).locked_balance + outstanding(lockup)
                <= u128::MAX ==> {
                &&& r == Ok::<LockupIndex, Error>(old(self).lockups@.len() as LockupIndex)
                &&& final(self).lockups@ == old(self).lockups@.push(lockup)
                &&& final(self).locked_balance == old(self).locked_balance + outstanding(lockup)
            },
            !(old(self).lockups@.len() < u32::MAX && old(self).locked_balance + outstanding(lockup)
                <= u128::MAX) ==> {
                &&& r == Err::<LockupIndex, Error>(Error::InvalidState)
                &&& *final(self) == *old(self)
            },
            final(self).pending_claims == old(self).pending_claims,
            final(self).deposit_whitelist == old(self).deposit_whitelist,
            final(self).token_account_id == old(self).token_account_id,
            forall|now: TimestampSec|
                old(self).invariant_at(now) && lockup.invariant_at(now)
                    ==> #[trigger] final(self).invariant_at(now),
    {
        if self.lockups.len() >= u32::MAX as usize {
            return Err(Error::InvalidState);
        }
        let held = lockup.total_balance() - lockup.claimed_balance;
        if held > u128::MAX - self.locked_balance {
            return Err(Error::InvalidState);
        }
        let index = self.lockups.len() as LockupIndex;
        let owner = lockup.account_id.clone();
        let live = !lockup.is_exhausted();
        self.lockups.push(lockup);
        self.locked_balance = self.locked_balance + held;
        if live {
            self.account_lockups.insert(&owner, index);
        }
        proof {
            lemma_outstanding_push(old(self).lockups@, lockup);
            assert forall|i: int| 0 <= i < self.lockups@.len() implies (
            #[trigger] self.lockups@[i]).is_valid() by {
                if i < index {
                    assert(self.lockups@[i] == old(self).lockups@[i]);
                }
            }
            assert forall|account: Seq<char>, i: LockupIndex| #[trigger]
                self.index_agrees_at(account, i) by {
                assert(old(self).index_agrees_at(account, i));
                if i < index {
                    assert(self.lockups@[i as int] == old(self).lockups@[i as int]);
                }
            }
            assert forall|p: int| 0 <= p < self.pending_claims@.len() implies #[trigger]
                self.reservation_fits(p) by {
                assert(old(self).reservation_fits(p));
                let claims = self.pending_claims@[p].lockup_claims@;
                assert forall|k: int| 0 <= k < claims.len() implies self.lockups@[(
                #[trigger] claims[k]).index as int] == old(self).lockups@[claims[k].index as int] by {}
            }
            assert forall|now: TimestampSec|
                old(self).invariant_at(now) && lockup.invariant_at(now)
                    implies #[trigger] self.invariant_at(now) by {
                assert forall|i: int| 0 <= i < self.lockups@.len() implies (
                #[trigger] self.lockups@[i]).invariant_at(now) by {
                    if i < index {
                        assert(self.lockups@[i] == old(self).lockups@[i]);
                    }
                }
                assert forall|p: int, k: int|
                    0 <= p < self.pending_claims@.len() && 0 <= k
                        < self.pending_claims@[p].lockup_claims@.len() implies (
                #[trigger] self.pending_claims@[p].lockup_claims@[k]).unclaimed_balance
                    <= self.lockups@[self.pending_claims@[p].lockup_claims@[k].index as int].claimable_at(
                    now,
                ) by {
                    assert(old(self).reservation_fits(p));
                    let claim = old(self).pending_claims@[p].lockup_claims@[k];
                    assert(self.lockups@[claim.index as int] == old(self).lockups@[claim.index as int]);
                }
            }
        }
        Ok(index)
    }
}

} // verus!
