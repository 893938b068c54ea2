//! Deposits: a transfer of tokens to the ledger creates lockups.

use vstd::prelude::*;
use crate::contract::outstanding;
use crate::contract::Contract;
use crate::lockup::Lockup;
use crate::schedule::lemma_unlocked_bounds;
use crate::schedule::Checkpoint;
use crate::schedule::Schedule;
use crate::AccountId;
use crate::Balance;
use crate::Error;
use crate::TimestampSec;

verus! {

/// When the lockups of a batch start to unlock: 2023-09-13T09:00:00 UTC.
pub const START_UNLOCK_TIMESTAMP: TimestampSec = 1694509200;

/// When the lockups of a batch are fully unlocked: 2025-09-13T09:00:00 UTC.
pub const FULL_UNLOCK_TIMESTAMP: TimestampSec = 1757667600;

/// What a deposit asks for.
#[derive(Clone, Debug, PartialEq, Eq)]
pub enum FtMessage {
    /// Create this lockup, funded by the whole deposit.
    CreateLockup(Lockup),
    /// Create one lockup for each account, with the given total and the
    /// schedule that all such lockups share; the totals add up to the
    /// deposit.
    CreateInitialLockups(Vec<(AccountId, Balance)>),
}

/// The schedule that the lockups of a batch share: nothing until the start,
/// then linear up to the total at full unlock.
pub open spec fn initial_checkpoints(total: Balance) -> Seq<Checkpoint> {
    seq![
        Checkpoint { timestamp: START_UNLOCK_TIMESTAMP, balance: 0 },
        Checkpoint { timestamp: FULL_UNLOCK_TIMESTAMP, balance: total },
    ]
}

/// The sum of the totals of a batch.
pub open spec fn batch_total(batch: Seq<(AccountId, Balance)>) -> int
    decreases batch.len(),
{
    if batch.len() == 0 {
        0
    } else {
        batch_total(batch.drop_last()) + batch.last().1
    }
}

/// The totals of a prefix of a batch add up to no more than those of the
/// whole.
pub proof fn lemma_batch_total_prefix(batch: Seq<(AccountId, Balance)>, k: int)
    requires
        0 <= k <= batch.len(),
    ensures
        0 <= batch_total(batch.take(k)) <= batch_total(batch),
    decreases batch.len() - k,
{
    if k == batch.len() {
        assert(batch.take(k) =~= batch);
        lemma_batch_total_nonneg(batch);
    } else {
        lemma_batch_total_prefix(batch, k + 1);
        assert(batch.take(k + 1).drop_last() =~= batch.take(k));
        lemma_batch_total_nonneg(batch.take(k));
    }
}

/// The totals of a batch add up to no negative amount.
pub proof fn lemma_batch_total_nonneg(batch: Seq<(AccountId, Balance)>)
    ensures
        0 <= batch_total(batch),
    decreases batch.len(),
{
    if batch.len() > 0 {
        lemma_batch_total_nonneg(batch.drop_last());
    }
}

impl Lockup {
    /// Whether `self` is the lockup that a batch creates for `account` with
    /// the total `total`.
    pub open spec fn is_initial_for(&self, account: Seq<char>, total: Balance) -> bool {
        &&& self.account_id@ == account
        &&& self.schedule@ == initial_checkpoints(total)
        &&& self.claimed_balance == 0
        &&& self.termination_config is None
    }

    /// The lockup that a batch creates for `account_id` with the total
    /// `total_balance`.
    pub fn new_initial(account_id: AccountId, total_balance: Balance) -> (lockup: Self)
        ensures
            lockup.account_id == account_id,
            lockup.is_initial_for(account_id@, total_balance),
            lockup.is_new_valid_for(total_balance),
            forall|now: TimestampSec| #[trigger] lockup.invariant_at(now),
    {
        let mut checkpoints: Vec<Checkpoint> = Vec::new();
        checkpoints.push(Checkpoint { timestamp: START_UNLOCK_TIMESTAMP, balance: 0 });
        checkpoints.push(Checkpoint { timestamp: FULL_UNLOCK_TIMESTAMP, balance: total_balance });
        assert(checkpoints@ =~= initial_checkpoints(total_balance));
        let lockup = Lockup {
            account_id,
            schedule: Schedule(checkpoints),
            claimed_balance: 0,
            termination_config: None,
        };
        proof {
            assert forall|now: TimestampSec| #[trigger] lockup.invariant_at(now) by {
                lemma_unlocked_bounds(lockup.schedule@, now as int);
            }
        }
        lockup
    }
}

impl Contract {
    /// Why a deposit of `amount` by `sender` with `message`, announced by
    /// `predecessor`, is refused, if it is.
    pub open spec fn transfer_error(
        &self,
        predecessor: Seq<char>,
        sender: Seq<char>,
        amount: Balance,
        message: FtMessage,
    ) -> Option<Error> {
        if predecessor != self.token_account_id@ || !self.is_whitelisted(sender) {
            Some(Error::Unauthorized)
        } else {
            match message {
                FtMessage::CreateLockup(lockup) => {
                    if !lockup.is_new_valid_for(amount) {
                        Some(Error::ValidationError)
                    } else if self.lockups@.len() + 1 > u32::MAX || self.locked_balance + amount
                        > u128::MAX {
                        Some(Error::InvalidState)
                    } else {
                        None
                    }
                },
                FtMessage::CreateInitialLockups(batch) => {
                    if batch_total(batch@) != amount {
                        Some(Error::ValidationError)
                    } else if self.lockups@.len() + batch@.len() > u32::MAX || self.locked_balance
                        + amount > u128::MAX {
                        Some(Error::InvalidState)
                    } else {
                        None
                    }
                },
            }
        }
    }

    /// Whether `self` is `before` with the lockups that `message` asks for
    /// added at the end.
    pub open spec fn is_deposit_to(&self, before: Contract, amount: Balance, message: FtMessage) -> bool {
        let n = before.lockups@.len() as int;
        &&& self.lockups@.len() >= n
        &&& self.lockups@.take(n) == before.lockups@
        &&& self.locked_balance == before.locked_balance + amount
        &&& self.pending_claims == before.pending_claims
        &&& self.deposit_whitelist == before.deposit_whitelist
        &&& self.token_account_id == before.token_account_id
        &&& match message {
            FtMessage::CreateLockup(lockup) => self.lockups@ == before.lockups@.push(lockup),
            FtMessage::CreateInitialLockups(batch) => {
                &&& self.lockups@.len() == n + batch@.len()
                &&& forall|b: int|
                    0 <= b < batch@.len() ==> (#[trigger] self.lockups@[n + b]).is_initial_for(
                        batch@[b].0@,
                        batch@[b].1,
                    )
            },
        }
    }

    /// Takes a deposit of `amount` tokens from `sender_id`, announced by the
    /// account `predecessor_id`, and creates the lockups that `message` asks
    /// for. Either all of them are created or, on any error, none. Returns
    /// the part of the deposit that is not used, which is nothing.
    pub fn ft_on_transfer(
        &mut self,
        predecessor_id: &AccountId,
        sender_id: &AccountId,
        amount: Balance,
        message: FtMessage,
    ) -> (r: Result<Balance, Error>)
        requires
            old(self).wf(),
        ensures
            final(self).wf(),
            match old(self).transfer_error(predecessor_id@, sender_id@, amount, message) {
                Some(error) => r == Err::<Balance, Error>(error) && *final(self) == *old(self),
                None => r == Ok::<Balance, Error>(0) && final(self).is_deposit_to(
                    *old(self),
                    amount,
                    message,
                ),
            },
            forall|now: TimestampSec|
                old(self).invariant_at(now) ==> #[trigger] final(self).invariant_at(now),
    {
        if *predecessor_id != self.token_account_id {
            return Err(Error::Unauthorized);
        }
        if self.assert_deposit_whitelist(sender_id).is_err() {
            return Err(Error::Unauthorized);
        }
        match message {
            FtMessage::CreateLockup(lockup) => {
                if lockup.assert_new_valid(amount).is_err() {
                    return Err(Error::ValidationError);
                }
                match self.internal_add_lockup(lockup) {
                    Ok(_) => {
                        assert(self.lockups@.take(old(self).lockups@.len() as int) =~= old(
                            self,
                        ).lockups@);
                        Ok(0)
                    },
                    Err(error) => Err(error),
                }
            },
            FtMessage::CreateInitialLockups(batch) => {
                let mut sum: Balance = 0;
                let mut b: usize = 0;
                while b < batch.len()
                    invariant
                        b <= batch@.len(),
                        sum == batch_total(batch@.take(b as int)),
                        *self == *old(self),
                        self.wf(),
                        message == FtMessage::CreateInitialLockups(batch),
                        predecessor_id@ == self.token_account_id@,
                        self.is_whitelisted(sender_id@),
                    decreases batch@.len() - b,
                {
                    proof {
                        assert(batch@.take(b + 1).drop_last() =~= batch@.take(b as int));
                        lemma_batch_total_prefix(batch@, b + 1);
                    }
                    if batch[b].1 > u128::MAX - sum {
                        return Err(Error::ValidationError);
                    }
                    sum = sum + batch[b].1;
                    b += 1;
                }
                assert(batch@.take(b as int) =~= batch@);
                if sum != amount {
                    return Err(Error::ValidationError);
                }
                if batch.len() > u32::MAX as usize - self.lockups.len() || amount > u128::MAX
                    - self.locked_balance {
                    return Err(Error::InvalidState);
                }
                let ghost n = self.lockups@.len() as int;
                let mut b: usize = 0;
                assert(self.lockups@.take(n) =~= old(self).lockups@);
                while b < batch.len()
                    invariant
                        b <= batch@.len(),
                        self.wf(),
                        n == old(self).lockups@.len(),
                        n + batch@.len() <= u32::MAX,
                        old(self).locked_balance + batch_total(batch@) <= u128::MAX,
                        self.lockups@.len() == n + b,
                        self.lockups@.take(n) == old(self).lockups@,
                        forall|j: int|
                            0 <= j < b ==> (#[trigger] self.lockups@[n + j]).is_initial_for(
                                batch@[j].0@,
                                batch@[j].1,
                            ),
                        self.locked_balance == old(self).locked_balance + batch_total(
                            batch@.take(b as int),
                        ),
                        self.pending_claims == old(self).pending_claims,
                        self.deposit_whitelist == old(self).deposit_whitelist,
                        self.token_account_id == old(self).token_account_id,
                        forall|now: TimestampSec|
                            old(self).invariant_at(now) ==> #[trigger] self.invariant_at(now),
                    decreases batch@.len() - b,
                {
                    proof {
                        assert(batch@.take(b + 1).drop_last() =~= batch@.take(b as int));
                        lemma_batch_total_prefix(batch@, b + 1);
                    }
                    let ghost before = self.lockups@;
                    let lockup = Lockup::new_initial(batch[b].0.clone(), batch[b].1);
                    match self.internal_add_lockup(lockup) {
                        Ok(_) => {},
                        Err(error) => {
                            return Err(error);
                        },
                    }
                    proof {
                        assert(self.lockups@.take(n) =~= before.take(n));
                        assert forall|j: int| 0 <= j < b + 1 implies (
                        #[trigger] self.lockups@[n + j]).is_initial_for(
                            batch@[j].0@,
                            batch@[j].1,
                        ) by {
                            if j < b {
                                assert(self.lockups@[n + j] == before[n + j]);
                            }
                        }
                    }
                    b += 1;
                }
                assert(batch@.take(b as int) =~= batch@);
                Ok(0)
            },
        }
    }
}

} // verus!
