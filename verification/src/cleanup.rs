//! Compaction: dead lockups at the end of the ledger are dropped.

use vstd::prelude::*;
use crate::contract::outstanding;
use crate::contract::outstanding_sum;
use crate::contract::Contract;
use crate::LockupIndex;
use crate::TimestampSec;

verus! {

impl Contract {
    /// Dropping a dead last lockup leaves the ledger in order.
    pub proof fn lemma_drop_dead_last(&self, after: Contract)
        requires
            self.wf(),
            self.lockups@.len() > 0,
            self.lockups@.last().is_dead(),
            after.lockups@ == self.lockups@.drop_last(),
            after.account_lockups == self.account_lockups,
            after.pending_claims == self.pending_claims,
            after.locked_balance == self.locked_balance,
        ensures
            after.wf(),
            forall|now: TimestampSec| self.invariant_at(now) ==> #[trigger] after.invariant_at(now),
    {
        let n = self.lockups@.len() as int;
        assert(self.lockups@[n - 1].is_valid());
        assert(outstanding(self.lockups@.last()) == 0);
        assert forall|i: int| 0 <= i < after.lockups@.len() implies (
        #[trigger] after.lockups@[i]).is_valid() by {
            assert(after.lockups@[i] == self.lockups@[i]);
        }
        assert forall|account: Seq<char>, i: LockupIndex| #[trigger]
            after.index_agrees_at(account, i) by {
            assert(self.index_agrees_at(account, i));
            if i < n - 1 {
                assert(after.lockups@[i as int] == self.lockups@[i as int]);
            }
        }
        assert forall|p: int| 0 <= p < after.pending_claims@.len() implies #[trigger]
            after.reservation_fits(p) by {
            assert(self.reservation_fits(p));
            let claims = self.pending_claims@[p].lockup_claims@;
            assert forall|k: int| 0 <= k < claims.len() implies (#[trigger] claims[k]).index < n - 1
                && after.lockups@[claims[k].index as int]
                == self.lockups@[claims[k].index as int] by {}
        }
        assert forall|now: TimestampSec| self.invariant_at(now) implies #[trigger]
            after.invariant_at(now) by {
            assert forall|i: int| 0 <= i < after.lockups@.len() implies (
            #[trigger] after.lockups@[i]).invariant_at(now) by {
                assert(after.lockups@[i] == self.lockups@[i]);
            }
            assert forall|p: int, k: int|
                0 <= p < after.pending_claims@.len() && 0 <= k
                    < after.pending_claims@[p].lockup_claims@.len() implies (
            #[trigger] after.pending_claims@[p].lockup_claims@[k]).unclaimed_balance
                <= after.lockups@[after.pending_claims@[p].lockup_claims@[k].index as int].claimable_at(
                now,
            ) by {
                assert(self.reservation_fits(p));
                let claim = self.pending_claims@[p].lockup_claims@[k];
                assert(claim.index < n - 1);
                assert(after.lockups@[claim.index as int] == self.lockups@[claim.index as int]);
            }
        }
    }

    /// Drops dead lockups from the end of the ledger, at most `batch_size`
    /// of them, and stops at the first lockup that still holds tokens.
    /// Returns the number of lockups that remain.
    pub fn clean(&mut self, batch_size: u64) -> (remaining: u64)
        requires
            old(self).wf(),
        ensures
            final(self).wf(),
            remaining == final(self).lockups@.len(),
            remaining <= old(self).lockups@.len(),
            final(self).lockups@ == old(self).lockups@.take(remaining as int),
            old(self).lockups@.len() - remaining <= batch_size,
            forall|i: int|
                remaining <= i < old(self).lockups@.len() ==> (#[trigger] old(self).lockups@[i]).is_dead(),
            remaining == 0 || old(self).lockups@.len() - remaining == batch_size || !old(
                self,
            ).lockups@[remaining - 1].is_dead(),
            final(self).account_lockups == old(self).account_lockups,
            final(self).pending_claims == old(self).pending_claims,
            final(self).deposit_whitelist == old(self).deposit_whitelist,
            final(self).token_account_id == old(self).token_account_id,
            final(self).locked_balance == old(self).locked_balance,
            forall|now: TimestampSec|
                old(self).invariant_at(now) ==> #[trigger] final(self).invariant_at(now),
    {
        let mut removed: u64 = 0;
        assert(self.lockups@.take(self.lockups@.len() as int) =~= self.lockups@);
        while removed < batch_size && self.lockups.len() > 0
            invariant
                self.wf(),
                self.lockups@.len() + removed == old(self).lockups@.len(),
                self.lockups@ == old(self).lockups@.take(self.lockups@.len() as int),
                forall|i: int|
                    self.lockups@.len() <= i < old(self).lockups@.len() ==> (#[trigger] old(
                        self,
                    ).lockups@[i]).is_dead(),
                removed <= batch_size,
                self.account_lockups == old(self).account_lockups,
                self.pending_claims == old(self).pending_claims,
                self.deposit_whitelist == old(self).deposit_whitelist,
                self.token_account_id == old(self).token_account_id,
                self.locked_balance == old(self).locked_balance,
                forall|now: TimestampSec|
                    old(self).invariant_at(now) ==> #[trigger] self.invariant_at(now),
            decreases self.lockups@.len(),
        {
            let last = self.lockups.len() - 1;
            assert(self.lockups@[last as int].is_valid());
            if !self.lockups[last].is_exhausted() {
                return self.lockups.len() as u64;
            }
            let ghost before = *self;
            self.lockups.pop();
            proof {
                before.lemma_drop_dead_last(*self);
                assert(self.lockups@ =~= old(self).lockups@.take(self.lockups@.len() as int));
            }
            removed = removed + 1;
        }
        self.lockups.len() as u64
    }
}

} // verus!
