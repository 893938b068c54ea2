//! A check of the ledger's invariant on a ledger that was put together
//! from stored parts.

use vstd::prelude::*;
use crate::account_index::distinct;
use crate::contract::all_valid;
use crate::contract::claims_total;
use crate::contract::lemma_claims_total_prefix;
use crate::contract::lemma_outstanding_prefix;
use crate::contract::outstanding;
use crate::contract::outstanding_sum;
use crate::contract::Contract;
use crate::lockup::LockupClaim;
use crate::Balance;
use crate::LockupIndex;

verus! {

/// Whether no two claims take from the same lockup.
pub fn distinct_claims(claims: &Vec<LockupClaim>) -> (r: bool)
    ensures
        r == forall|k1: int, k2: int|
            0 <= k1 < k2 < claims@.len() ==> claims@[k1].index != claims@[k2].index,
{
    let n = claims.len();
    let mut k: usize = 0;
    while k < n
        invariant
            k <= n,
            n == claims@.len(),
            forall|i: int, j: int| 0 <= i < j < k ==> claims@[i].index != claims@[j].index,
        decreases n - k,
    {
        let mut j: usize = 0;
        while j < k
            invariant
                j <= k < n,
                n == claims@.len(),
                forall|i: int| 0 <= i < j ==> claims@[i].index != claims@[k as int].index,
            decreases k - j,
        {
            if claims[j].index == claims[k].index {
                return false;
            }
            j += 1;
        }
        k += 1;
    }
    true
}

impl Contract {
    /// Every lockup that the index lists for an account is a lockup of that
    /// account that still holds tokens.
    pub open spec fn index_is_sound(&self) -> bool {
        forall|e: int, k: int|
            0 <= e < self.account_lockups.entries@.len() && 0 <= k
                < self.account_lockups.entries@[e].indices@.len() ==> self.is_live_lockup_of(
                self.account_lockups.entries@[e].account_id@,
                #[trigger] self.account_lockups.entries@[e].indices@[k],
            )
    }

    /// Every lockup that still holds tokens is listed for its account.
    pub open spec fn index_is_complete(&self) -> bool {
        forall|i: int|
            0 <= i < self.lockups@.len() && !(#[trigger] self.lockups@[i]).is_dead()
                ==> self.account_lockups.indices_of(self.lockups@[i].account_id@).contains(
                i as LockupIndex,
            )
    }

    /// An index that is sound and complete lists for each account exactly
    /// its lockups that still hold tokens, and the other way round.
    pub proof fn lemma_index_agreement(&self)
        requires
            self.account_lockups.wf(),
            self.lockups@.len() <= u32::MAX,
        ensures
            (self.index_is_sound() && self.index_is_complete()) <==> (forall|
                account: Seq<char>,
                i: LockupIndex,
            | #[trigger] self.index_agrees_at(account, i)),
    {
        if self.index_is_sound() && self.index_is_complete() {
            assert forall|account: Seq<char>, i: LockupIndex| #[trigger]
                self.index_agrees_at(account, i) by {
                if self.account_lockups.indices_of(account).contains(i) {
                    let e = choose|e: int| self.account_lockups.has_entry(account, e);
                    let k = choose|k: int|
                        0 <= k < self.account_lockups.entries@[e].indices@.len()
                            && self.account_lockups.entries@[e].indices@[k] == i;
                    assert(self.is_live_lockup_of(
                        self.account_lockups.entries@[e].account_id@,
                        self.account_lockups.entries@[e].indices@[k],
                    ));
                }
                if self.is_live_lockup_of(account, i) {
                    assert(!self.lockups@[i as int].is_dead());
                }
            }
        }
        if forall|account: Seq<char>, i: LockupIndex| #[trigger] self.index_agrees_at(account, i) {
            assert forall|e: int, k: int|
                0 <= e < self.account_lockups.entries@.len() && 0 <= k
                    < self.account_lockups.entries@[e].indices@.len() implies self.is_live_lockup_of(
                self.account_lockups.entries@[e].account_id@,
                #[trigger] self.account_lockups.entries@[e].indices@[k],
            ) by {
                let account = self.account_lockups.entries@[e].account_id@;
                let i = self.account_lockups.entries@[e].indices@[k];
                assert(self.account_lockups.has_entry(account, e));
                self.account_lockups.lemma_indices_of_entry(account, e);
                assert(self.account_lockups.entries@[e].indices@.contains(i));
                assert(self.index_agrees_at(account, i));
            }
            assert forall|i: int|
                0 <= i < self.lockups@.len() && !(#[trigger] self.lockups@[i]).is_dead() implies self.account_lockups.indices_of(
                self.lockups@[i].account_id@,
            ).contains(i as LockupIndex) by {
                assert(self.index_agrees_at(self.lockups@[i].account_id@, i as LockupIndex));
            }
        }
    }

    /// Whether the ledger holds no more lockups than it can number, and
    /// every one of them is valid.
    pub fn check_lockups(&self) -> (r: bool)
        ensures
            r == (self.lockups@.len() <= u32::MAX && all_valid(self.lockups@)),
    {
        if self.lockups.len() > u32::MAX as usize {
            return false;
        }
        let mut i: usize = 0;
        while i < self.lockups.len()
            invariant
                i <= self.lockups@.len(),
                forall|j: int| 0 <= j < i ==> (#[trigger] self.lockups@[j]).is_valid(),
            decreases self.lockups@.len() - i,
        {
            if !self.lockups[i].check_valid() {
                return false;
            }
            i += 1;
        }
        true
    }

    /// Whether every lockup that the index lists for an account is a lockup
    /// of that account that still holds tokens.
    pub fn check_index_sound(&self) -> (r: bool)
        requires
            all_valid(self.lockups@),
        ensures
            r == self.index_is_sound(),
    {
        let mut e: usize = 0;
        while e < self.account_lockups.entries.len()
            invariant
                e <= self.account_lockups.entries@.len(),
                all_valid(self.lockups@),
                forall|d: int, k: int|
                    0 <= d < e && 0 <= k < self.account_lockups.entries@[d].indices@.len()
                        ==> self.is_live_lockup_of(
                        self.account_lockups.entries@[d].account_id@,
                        #[trigger] self.account_lockups.entries@[d].indices@[k],
                    ),
            decreases self.account_lockups.entries@.len() - e,
        {
            let entry = &self.account_lockups.entries[e];
            let mut k: usize = 0;
            while k < entry.indices.len()
                invariant
                    k <= entry.indices@.len(),
                    e < self.account_lockups.entries@.len(),
                    *entry == self.account_lockups.entries@[e as int],
                    all_valid(self.lockups@),
                    forall|j: int|
                        0 <= j < k ==> self.is_live_lockup_of(
                            entry.account_id@,
                            #[trigger] entry.indices@[j],
                        ),
                decreases entry.indices@.len() - k,
            {
                let index = entry.indices[k];
                if index as usize >= self.lockups.len() {
                    assert(!self.is_live_lockup_of(entry.account_id@, entry.indices@[k as int]));
                    return false;
                }
                assert(self.lockups@[index as int].is_valid());
                if self.lockups[index as usize].account_id != entry.account_id
                    || self.lockups[index as usize].is_exhausted() {
                    assert(!self.is_live_lockup_of(entry.account_id@, entry.indices@[k as int]));
                    return false;
                }
                k += 1;
            }
            e += 1;
        }
        true
    }

    /// Whether every lockup that still holds tokens is listed for its
    /// account.
    pub fn check_index_complete(&self) -> (r: bool)
        requires
            self.lockups@.len() <= u32::MAX,
            all_valid(self.lockups@),
            self.account_lockups.wf(),
        ensures
            r == self.index_is_complete(),
    {
        let mut i: usize = 0;
        while i < self.lockups.len()
            invariant
                i <= self.lockups@.len() <= u32::MAX,
                all_valid(self.lockups@),
                self.account_lockups.wf(),
                forall|j: int|
                    0 <= j < i && !(#[trigger] self.lockups@[j]).is_dead()
                        ==> self.account_lockups.indices_of(self.lockups@[j].account_id@).contains(
                        j as LockupIndex,
                    ),
            decreases self.lockups@.len() - i,
        {
            assert(self.lockups@[i as int].is_valid());
            if !self.lockups[i].is_exhausted() && !self.account_lockups.contains(
                &self.lockups[i].account_id,
                i as LockupIndex,
            ) {
                return false;
            }
            i += 1;
        }
        true
    }

    /// Whether the locked balance is what all lockups hold together.
    pub fn check_locked_balance(&self) -> (r: bool)
        requires
            all_valid(self.lockups@),
        ensures
            r == (self.locked_balance == outstanding_sum(self.lockups@)),
    {
        let mut held: Balance = 0;
        let mut i: usize = 0;
        while i < self.lockups.len()
            invariant
                i <= self.lockups@.len(),
                all_valid(self.lockups@),
                held == outstanding_sum(self.lockups@.take(i as int)),
            decreases self.lockups@.len() - i,
        {
            proof {
                assert(self.lockups@.take(i + 1).drop_last() =~= self.lockups@.take(i as int));
                lemma_outstanding_prefix(self.lockups@, i + 1);
                assert(self.lockups@[i as int].is_valid());
            }
            let more = self.lockups[i].total_balance() - self.lockups[i].claimed_balance;
            if more > u128::MAX - held {
                return false;
            }
            held = held + more;
            i += 1;
        }
        assert(self.lockups@.take(i as int) =~= self.lockups@);
        held == self.locked_balance
    }

    /// Whether the pending claim at `p` fits the lockups.
    pub fn check_reservation(&self, p: usize) -> (r: bool)
        requires
            p < self.pending_claims@.len(),
            all_valid(self.lockups@),
        ensures
            r == self.reservation_fits(p as int),
    {
        let record = &self.pending_claims[p];
        let ghost claims = record.lockup_claims@;
        let mut total: Balance = 0;
        let mut k: usize = 0;
        while k < record.lockup_claims.len()
            invariant
                k <= claims.len(),
                claims == record.lockup_claims@,
                *record == self.pending_claims@[p as int],
                all_valid(self.lockups@),
                total == claims_total(claims.take(k as int)),
                forall|j: int|
                    0 <= j < k ==> {
                        let claim = #[trigger] claims[j];
                        &&& claim.index < self.lockups@.len()
                        &&& self.lockups@[claim.index as int].account_id@ == record.account_id@
                        &&& claim.unclaimed_balance > 0
                        &&& claim.unclaimed_balance <= outstanding(
                            self.lockups@[claim.index as int],
                        )
                    },
            decreases claims.len() - k,
        {
            let claim = record.lockup_claims[k];
            proof {
                assert(claims.take(k + 1).drop_last() =~= claims.take(k as int));
                lemma_claims_total_prefix(claims, k + 1);
            }
            if claim.index as usize >= self.lockups.len() {
                assert(!(claims[k as int].index < self.lockups@.len()));
                return false;
            }
            assert(self.lockups@[claim.index as int].is_valid());
            let lockup = &self.lockups[claim.index as usize];
            if lockup.account_id != record.account_id || claim.unclaimed_balance == 0
                || claim.unclaimed_balance > lockup.total_balance() - lockup.claimed_balance {
                assert(claims[k as int] == claim);
                return false;
            }
            if claim.unclaimed_balance > u128::MAX - total {
                return false;
            }
            total = total + claim.unclaimed_balance;
            k += 1;
        }
        assert(claims.take(k as int) =~= claims);
        total > 0 && distinct_claims(&record.lockup_claims)
    }

    /// Whether the pending claims are in order.
    pub fn check_pending(&self) -> (r: bool)
        requires
            all_valid(self.lockups@),
        ensures
            r == self.pending_wf(),
    {
        let n = self.pending_claims.len();
        let mut p: usize = 0;
        while p < n
            invariant
                p <= n,
                n == self.pending_claims@.len(),
                all_valid(self.lockups@),
                forall|pa: int, pb: int|
                    0 <= pa < pb < p ==> self.pending_claims@[pa].account_id@
                        != self.pending_claims@[pb].account_id@,
                forall|q: int| 0 <= q < p ==> #[trigger] self.reservation_fits(q),
            decreases n - p,
        {
            let mut q: usize = 0;
            while q < p
                invariant
                    q <= p < n,
                    n == self.pending_claims@.len(),
                    forall|pa: int|
                        0 <= pa < q ==> self.pending_claims@[pa].account_id@
                            != self.pending_claims@[p as int].account_id@,
                decreases p - q,
            {
                if self.pending_claims[q].account_id == self.pending_claims[p].account_id {
                    return false;
                }
                q += 1;
            }
            if !self.check_reservation(p) {
                return false;
            }
            p += 1;
        }
        true
    }

    /// Whether the ledger is in order. Every operation of the ledger leaves
    /// it so; a ledger that is put together from stored parts is checked
    /// before it is used.
    pub fn check_wf(&self) -> (r: bool)
        ensures
            r == self.wf(),
    {
        if !self.check_lockups() {
            return false;
        }
        if !self.account_lockups.check_wf() {
            return false;
        }
        proof {
            self.lemma_index_agreement();
        }
        self.check_index_sound() && self.check_index_complete() && self.check_locked_balance()
            && self.check_pending()
    }
}

} // verus!
