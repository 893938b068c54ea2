//! A lockup: one grant of tokens to one account, released along a schedule.

use vstd::prelude::*;
use crate::commitment::encodable;
use crate::commitment::schedule_hash;
use crate::hash::hash_eq;
use crate::schedule::lemma_truncated_valid;
use crate::schedule::lemma_unlocked_bounds;
use crate::schedule::lemma_unlocked_monotone;
use crate::schedule::total_of;
use crate::schedule::truncated_at;
use crate::schedule::unlocked_at;
use crate::schedule::valid_checkpoints;
use crate::schedule::Checkpoint;
use crate::schedule::Schedule;
use crate::termination::HashOrSchedule;
use crate::termination::TerminationConfig;
use crate::AccountId;
use crate::Balance;
use crate::CryptoHash;
use crate::Error;
use crate::LockupIndex;
use crate::TimestampSec;

verus! {

/// What one lockup contributes to a claim: the amount reserved from it, and
/// whether the claim exhausts it.
#[derive(Clone, Copy, Debug, PartialEq, Eq, Structural)]
pub struct LockupClaim {
    pub index: LockupIndex,
    pub unclaimed_balance: Balance,
    pub is_final: bool,
}

/// One vesting grant.
#[derive(Clone, Debug, PartialEq, Eq)]
pub struct Lockup {
    /// The account that the tokens are released to.
    pub account_id: AccountId,
    /// How much is unlocked at which time.
    pub schedule: Schedule,
    /// How much has been withdrawn already.
    pub claimed_balance: Balance,
    /// Who may terminate the lockup; nobody if absent.
    pub termination_config: Option<TerminationConfig>,
}

/// Whether `revealed` is a schedule that can be written down and whose
/// digest is `commitment`.
pub open spec fn reveal_matches(revealed: Option<Schedule>, commitment: Seq<u8>) -> bool {
    match revealed {
        Some(schedule) => encodable(schedule@) && schedule_hash(schedule@) == commitment,
        None => false,
    }
}

impl Lockup {
    /// The total granted.
    pub open spec fn total(&self) -> int {
        total_of(self.schedule@)
    }

    /// The disclosed vesting schedule, if the lockup has one.
    pub open spec fn disclosed_vesting(&self) -> Option<Schedule> {
        match self.termination_config {
            Some(TerminationConfig {
                vesting_schedule: Some(HashOrSchedule::Schedule(schedule)),
                ..
            }) => Some(schedule),
            _ => None,
        }
    }

    /// The committed digest of the vesting schedule, if the lockup has one.
    pub open spec fn vesting_commitment(&self) -> Option<Seq<u8>> {
        match self.termination_config {
            Some(TerminationConfig { vesting_schedule: Some(HashOrSchedule::Hash(hash)), .. }) => Some(
                hash@,
            ),
            _ => None,
        }
    }

    /// A lockup is valid when its schedule is valid, no more is claimed than
    /// is granted, and a disclosed vesting schedule is valid for the same
    /// total.
    pub open spec fn is_valid(&self) -> bool {
        &&& self.schedule.is_valid()
        &&& self.claimed_balance <= self.total()
        &&& match self.disclosed_vesting() {
            Some(vesting) => valid_checkpoints(vesting@) && total_of(vesting@) == self.total(),
            None => true,
        }
    }

    /// Whether the lockup is valid as a new lockup funded with
    /// `total_balance`: nothing is claimed yet, and its schedules grant
    /// exactly what was deposited.
    pub open spec fn is_new_valid_for(&self, total_balance: Balance) -> bool {
        &&& self.claimed_balance == 0
        &&& self.schedule.is_valid_for(total_balance)
        &&& match self.disclosed_vesting() {
            Some(vesting) => vesting.is_valid_for(total_balance),
            None => true,
        }
    }

    /// What holds of a lockup at every time at which it is observed: it is
    /// valid, and no more is claimed than is unlocked.
    pub open spec fn invariant_at(&self, now: TimestampSec) -> bool {
        self.is_valid() && self.claimed_balance <= unlocked_at(self.schedule@, now as int)
    }

    /// A lockup is dead when all that it grants has been claimed: it will
    /// never release anything again.
    pub open spec fn is_dead(&self) -> bool {
        self.claimed_balance >= self.total()
    }

    /// The amount unlocked at `t` and not claimed yet; negative only if the
    /// invariant is broken.
    pub open spec fn claimable_at(&self, t: TimestampSec) -> int {
        unlocked_at(self.schedule@, t as int) - self.claimed_balance
    }

    /// The schedule by which a termination measures what has vested: the
    /// vesting schedule of the termination config where there is one, which
    /// is `revealed` where it was only committed to, and the lockup's own
    /// schedule otherwise.
    pub open spec fn governing_checkpoints(&self, revealed: Option<Schedule>) -> Seq<Checkpoint> {
        match self.termination_config {
            Some(TerminationConfig { vesting_schedule: Some(HashOrSchedule::Hash(_)), .. }) => {
                match revealed {
                    Some(schedule) => schedule@,
                    None => self.schedule@,
                }
            },
            Some(TerminationConfig {
                vesting_schedule: Some(HashOrSchedule::Schedule(schedule)),
                ..
            }) => schedule@,
            _ => self.schedule@,
        }
    }

    /// What has vested at `now`: what the governing schedule has unlocked,
    /// and never less than what was claimed already.
    pub open spec fn vested_at(&self, revealed: Option<Schedule>, now: TimestampSec) -> int {
        let unlocked = unlocked_at(self.governing_checkpoints(revealed), now as int);
        if unlocked < self.claimed_balance {
            self.claimed_balance as int
        } else {
            unlocked
        }
    }

    /// What a termination at `now` gives back to the terminator.
    pub open spec fn unvested_at(&self, revealed: Option<Schedule>, now: TimestampSec) -> int {
        self.total() - self.vested_at(revealed, now)
    }

    /// The schedule that a termination at `now` leaves: the governing
    /// schedule, cut off at `now` unless it was fully unlocked by then.
    pub open spec fn terminated_checkpoints(
        &self,
        revealed: Option<Schedule>,
        now: TimestampSec,
    ) -> Seq<Checkpoint> {
        let governing = self.governing_checkpoints(revealed);
        if unlocked_at(governing, now as int) < total_of(governing) {
            truncated_at(governing, now, self.vested_at(revealed, now) as Balance)
        } else {
            governing
        }
    }

    /// Why a termination by `initiator_id` is refused, if it is.
    /// `digest_matches` says whether the digest of the revealed schedule is
    /// the committed one.
    pub open spec fn termination_error(
        &self,
        initiator_id: Seq<char>,
        revealed: Option<Schedule>,
        digest_matches: bool,
    ) -> Option<Error> {
        match self.termination_config {
            None => Some(Error::Unauthorized),
            Some(config) => {
                if config.terminator_id@ != initiator_id {
                    Some(Error::Unauthorized)
                } else if self.vesting_commitment() is Some && (revealed is None
                    || !digest_matches) {
                    Some(Error::InvalidReveal)
                } else if config.vesting_schedule is Some && !(valid_checkpoints(
                    self.governing_checkpoints(revealed),
                ) && total_of(self.governing_checkpoints(revealed)) == self.total()) {
                    Some(Error::ValidationError)
                } else {
                    None
                }
            },
        }
    }

    /// Whether `self` is what a successful termination at `now` makes of
    /// `before`: the schedule is the terminated one, the vesting schedule is
    /// consumed, and nothing else has changed.
    pub open spec fn is_termination_of(
        &self,
        before: Lockup,
        revealed: Option<Schedule>,
        now: TimestampSec,
    ) -> bool {
        &&& self.account_id == before.account_id
        &&& self.claimed_balance == before.claimed_balance
        &&& self.schedule@ == before.terminated_checkpoints(revealed, now)
        &&& self.termination_config == Some(
            TerminationConfig {
                terminator_id: before.termination_config.unwrap().terminator_id,
                vesting_schedule: None,
            },
        )
    }

    /// Whether `self` is `before` with `amount` more claimed and nothing else
    /// changed.
    pub open spec fn is_claimed_from(&self, before: Lockup, amount: int) -> bool {
        &&& self.account_id == before.account_id
        &&& self.schedule == before.schedule
        &&& self.termination_config == before.termination_config
        &&& self.claimed_balance == before.claimed_balance + amount
    }

    /// A new lockup for `account_id`, funded with `total_balance`: nothing is
    /// claimed from it yet. Refused unless the schedule, and a disclosed
    /// vesting schedule, are valid and grant exactly what was deposited.
    pub fn new(
        account_id: AccountId,
        schedule: Schedule,
        termination_config: Option<TerminationConfig>,
        total_balance: Balance,
    ) -> (r: Result<Lockup, Error>)
        ensures
            match r {
                Ok(lockup) => {
                    &&& lockup == (Lockup {
                        account_id,
                        schedule,
                        claimed_balance: 0,
                        termination_config,
                    })
                    &&& lockup.is_new_valid_for(total_balance)
                    &&& forall|now: TimestampSec| #[trigger] lockup.invariant_at(now)
                },
                Err(error) => {
                    &&& error == Error::ValidationError
                    &&& !(Lockup {
                        account_id,
                        schedule,
                        claimed_balance: 0,
                        termination_config,
                    }).is_new_valid_for(total_balance)
                },
            },
    {
        let lockup = Lockup { account_id, schedule, claimed_balance: 0, termination_config };
        match lockup.assert_new_valid(total_balance) {
            Ok(()) => Ok(lockup),
            Err(error) => Err(error),
        }
    }

    /// A lockup for `account_id` that has `total_balance` unlocked from the
    /// start and cannot be terminated.
    pub fn new_unlocked(account_id: AccountId, total_balance: Balance) -> (lockup: Self)
        ensures
            lockup.account_id == account_id,
            lockup.schedule@ == seq![Checkpoint { timestamp: 0, balance: total_balance }],
            lockup.claimed_balance == 0,
            lockup.termination_config is None,
            lockup.is_new_valid_for(total_balance),
            forall|now: TimestampSec| #[trigger] lockup.invariant_at(now),
            forall|now: TimestampSec| #[trigger] lockup.claimable_at(now) == total_balance,
    {
        Lockup {
            account_id,
            schedule: Schedule::new_unlocked(total_balance),
            claimed_balance: 0,
            termination_config: None,
        }
    }

    /// Checks a lockup that is about to be created for a deposit of
    /// `total_balance`.
    pub fn assert_new_valid(&self, total_balance: Balance) -> (r: Result<(), Error>)
        ensures
            r is Ok <==> self.is_new_valid_for(total_balance),
            r is Err ==> r == Err::<(), Error>(Error::ValidationError),
            r is Ok ==> forall|now: TimestampSec| #[trigger] self.invariant_at(now),
    {
        if self.claimed_balance != 0 {
            return Err(Error::ValidationError);
        }
        if self.schedule.assert_valid(total_balance).is_err() {
            return Err(Error::ValidationError);
        }
        match &self.termination_config {
            Some(TerminationConfig {
                vesting_schedule: Some(HashOrSchedule::Schedule(vesting)),
                ..
            }) => {
                if vesting.assert_valid(total_balance).is_err() {
                    return Err(Error::ValidationError);
                }
            },
            _ => {},
        }
        proof {
            assert forall|now: TimestampSec| #[trigger] self.invariant_at(now) by {
                lemma_unlocked_bounds(self.schedule@, now as int);
            }
        }
        Ok(())
    }

    /// Whether the lockup is valid.
    pub fn check_valid(&self) -> (valid: bool)
        ensures
            valid == self.is_valid(),
    {
        if !self.schedule.check_valid() {
            return false;
        }
        let total_balance = self.schedule.total_balance();
        if self.claimed_balance > total_balance {
            return false;
        }
        match &self.termination_config {
            Some(TerminationConfig {
                vesting_schedule: Some(HashOrSchedule::Schedule(vesting)),
                ..
            }) => vesting.assert_valid(total_balance).is_ok(),
            _ => true,
        }
    }

    /// The total granted by the lockup.
    pub fn total_balance(&self) -> (total: Balance)
        requires
            self.schedule.is_valid(),
        ensures
            total == self.total(),
    {
        self.schedule.total_balance()
    }

    /// Whether all that the lockup grants has been claimed.
    pub fn is_exhausted(&self) -> (dead: bool)
        requires
            self.schedule.is_valid(),
        ensures
            dead == self.is_dead(),
    {
        self.claimed_balance >= self.schedule.total_balance()
    }

    /// The amount that is unlocked at `at_time` and not claimed yet.
    pub fn claimable(&self, at_time: TimestampSec) -> (r: Result<Balance, Error>)
        requires
            self.schedule.is_valid(),
        ensures
            self.claimable_at(at_time) >= 0 ==> r == Ok::<Balance, Error>(
                self.claimable_at(at_time) as Balance,
            ),
            self.claimable_at(at_time) < 0 ==> r == Err::<Balance, Error>(Error::InvalidState),
            self.invariant_at(at_time) ==> r is Ok,
    {
        let unlocked = self.schedule.unlocked_balance(at_time);
        if unlocked < self.claimed_balance {
            Err(Error::InvalidState)
        } else {
            Ok(unlocked - self.claimed_balance)
        }
    }

    /// What a claim at `now` takes from this lockup, which stands at `index`
    /// in the ledger. The lockup itself is not changed: the amount counts as
    /// claimed only when the claim is committed.
    pub fn claim(&self, index: LockupIndex, now: TimestampSec) -> (r: Result<LockupClaim, Error>)
        requires
            self.schedule.is_valid(),
        ensures
            self.claimable_at(now) >= 0 ==> r == Ok::<LockupClaim, Error>(
                LockupClaim {
                    index,
                    unclaimed_balance: self.claimable_at(now) as Balance,
                    is_final: unlocked_at(self.schedule@, now as int) == self.total(),
                },
            ),
            self.claimable_at(now) < 0 ==> r == Err::<LockupClaim, Error>(Error::InvalidState),
    {
        let unlocked = self.schedule.unlocked_balance(now);
        if unlocked < self.claimed_balance {
            return Err(Error::InvalidState);
        }
        Ok(
            LockupClaim {
                index,
                unclaimed_balance: unlocked - self.claimed_balance,
                is_final: unlocked == self.schedule.total_balance(),
            },
        )
    }

    /// Counts `amount` as claimed. Refused, with the lockup unchanged, if
    /// more would then be claimed than is granted.
    pub fn commit_claim(&mut self, amount: Balance) -> (r: Result<(), Error>)
        requires
            old(self).schedule.is_valid(),
        ensures
            old(self).claimed_balance + amount <= old(self).total() ==> r is Ok && *final(self) == (
            Lockup { claimed_balance: (old(self).claimed_balance + amount) as Balance, ..*old(self) }),
            old(self).claimed_balance + amount > old(self).total() ==> r == Err::<(), Error>(
                Error::InvalidState,
            ) && *final(self) == *old(self),
            old(self).is_valid() && r is Ok ==> final(self).is_valid(),
    {
        let total = self.schedule.total_balance();
        if self.claimed_balance > total || amount > total - self.claimed_balance {
            return Err(Error::InvalidState);
        }
        self.claimed_balance = self.claimed_balance + amount;
        Ok(())
    }

    /// Checks whether `initiator_id` may terminate the lockup with the
    /// disclosed schedule and its digest `schedule_hash`. Nothing is changed.
    pub fn check_termination(
        &self,
        initiator_id: &AccountId,
        hashed_schedule: &Option<Schedule>,
        schedule_hash: &Option<CryptoHash>,
    ) -> (r: Result<(), Error>)
        requires
            self.is_valid(),
        ensures
            match self.termination_error(
                initiator_id@,
                *hashed_schedule,
                self.vesting_commitment() is Some && schedule_hash is Some
                    && schedule_hash.unwrap()@ == self.vesting_commitment().unwrap(),
            ) {
                Some(error) => r == Err::<(), Error>(error),
                None => r is Ok,
            },
    {
        let total_balance = self.schedule.total_balance();
        match &self.termination_config {
            None => {
                return Err(Error::Unauthorized);
            },
            Some(config) => {
                if config.terminator_id != *initiator_id {
                    return Err(Error::Unauthorized);
                }
                match &config.vesting_schedule {
                    None => {},
                    Some(HashOrSchedule::Hash(commitment)) => {
                        match (hashed_schedule, schedule_hash) {
                            (Some(schedule), Some(digest)) => {
                                if !hash_eq(digest, commitment) {
                                    return Err(Error::InvalidReveal);
                                }
                                if schedule.assert_valid(total_balance).is_err() {
                                    return Err(Error::ValidationError);
                                }
                            },
                            _ => {
                                return Err(Error::InvalidReveal);
                            },
                        }
                    },
                    Some(HashOrSchedule::Schedule(schedule)) => {
                        if schedule.assert_valid(total_balance).is_err() {
                            return Err(Error::ValidationError);
                        }
                    },
                }
            },
        }
        Ok(())
    }

    /// Terminates the lockup at `now` on behalf of `initiator_id`, who
    /// discloses `hashed_schedule` where the vesting schedule was committed
    /// to by its digest, and returns the amount that has not vested.
    ///
    /// The digest of `hashed_schedule` is computed here; the rest is
    /// `terminate_with_hash`.
    pub fn terminate(
        &mut self,
        initiator_id: &AccountId,
        hashed_schedule: Option<Schedule>,
        now: TimestampSec,
    ) -> (r: Result<Balance, Error>)
        requires
            old(self).is_valid(),
        ensures
            match old(self).termination_error(
                initiator_id@,
                hashed_schedule,
                old(self).vesting_commitment() is Some && reveal_matches(
                    hashed_schedule,
                    old(self).vesting_commitment().unwrap(),
                ),
            ) {
                Some(error) => r == Err::<Balance, Error>(error) && *final(self) == *old(self),
                None => {
                    &&& r == Ok::<Balance, Error>(
                        old(self).unvested_at(hashed_schedule, now) as Balance,
                    )
                    &&& final(self).is_termination_of(*old(self), hashed_schedule, now)
                    &&& final(self).invariant_at(now)
                    &&& final(self).total() == old(self).vested_at(hashed_schedule, now)
                    &&& old(self).claimed_balance <= old(self).vested_at(hashed_schedule, now)
                        <= old(self).total()
                },
            },
    {
        let schedule_hash = match &hashed_schedule {
            Some(schedule) => schedule.try_hash(),
            None => None,
        };
        self.terminate_with_hash(initiator_id, hashed_schedule, schedule_hash, now)
    }

    /// Terminates the lockup at `now` on behalf of `initiator_id`, given the
    /// disclosed schedule and its digest `schedule_hash`.
    ///
    /// Only the terminator named in the termination config may terminate. A
    /// committed vesting schedule must be disclosed, with the committed
    /// digest, and a vesting schedule must grant the lockup's total. The
    /// vesting schedule then takes the place of the lockup's schedule. What
    /// that schedule has unlocked at `now`, and at least what was claimed,
    /// has vested; the schedule is cut off there, and the rest is returned.
    pub fn terminate_with_hash(
        &mut self,
        initiator_id: &AccountId,
        hashed_schedule: Option<Schedule>,
        schedule_hash: Option<CryptoHash>,
        now: TimestampSec,
    ) -> (r: Result<Balance, Error>)
        requires
            old(self).is_valid(),
        ensures
            match old(self).termination_error(
                initiator_id@,
                hashed_schedule,
                old(self).vesting_commitment() is Some && schedule_hash is Some
                    && schedule_hash.unwrap()@ == old(self).vesting_commitment().unwrap(),
            ) {
                Some(error) => r == Err::<Balance, Error>(error) && *final(self) == *old(self),
                None => {
                    &&& r == Ok::<Balance, Error>(
                        old(self).unvested_at(hashed_schedule, now) as Balance,
                    )
                    &&& final(self).is_termination_of(*old(self), hashed_schedule, now)
                    &&& final(self).invariant_at(now)
                    &&& final(self).total() == old(self).vested_at(hashed_schedule, now)
                    &&& old(self).claimed_balance <= old(self).vested_at(hashed_schedule, now)
                        <= old(self).total()
                },
            },
    {
        let total_balance = self.schedule.total_balance();
        match self.check_termination(initiator_id, &hashed_schedule, &schedule_hash) {
            Ok(()) => {},
            Err(error) => {
                return Err(error);
            },
        }
        let config = self.termination_config.take().unwrap();
        let TerminationConfig { terminator_id, vesting_schedule } = config;
        match vesting_schedule {
            None => {},
            Some(HashOrSchedule::Hash(_)) => {
                self.schedule = hashed_schedule.unwrap();
            },
            Some(HashOrSchedule::Schedule(schedule)) => {
                self.schedule = schedule;
            },
        }
        self.termination_config = Some(TerminationConfig { terminator_id, vesting_schedule: None });
        let unlocked = self.schedule.unlocked_balance(now);
        let vested = if unlocked < self.claimed_balance {
            self.claimed_balance
        } else {
            unlocked
        };
        if unlocked < total_balance {
            self.schedule.terminate(now, vested);
        }
        Ok(total_balance - vested)
    }
}

/// Time does not break the invariant of a lockup: what holds at one time
/// holds at every later time, and the unlocked amount stays between what is
/// claimed and what is granted.
pub proof fn lemma_lockup_invariant_persists(lockup: Lockup, earlier: TimestampSec, later: TimestampSec)
    requires
        lockup.invariant_at(earlier),
        earlier <= later,
    ensures
        lockup.invariant_at(later),
        lockup.claimed_balance <= unlocked_at(lockup.schedule@, later as int) <= lockup.total(),
{
    lemma_unlocked_monotone(lockup.schedule@, earlier as int, later as int);
    lemma_unlocked_bounds(lockup.schedule@, later as int);
}

/// A new lockup that is claimed once its schedule has run out releases all
/// that it grants, and is dead when that claim is committed.
pub proof fn lemma_full_claim_exhausts(
    lockup: Lockup,
    total_balance: Balance,
    now: TimestampSec,
    after: Lockup,
)
    requires
        lockup.is_new_valid_for(total_balance),
        now >= lockup.schedule@.last().timestamp,
        after.is_claimed_from(lockup, lockup.claimable_at(now)),
    ensures
        lockup.claimable_at(now) == total_balance,
        after.claimed_balance == total_balance,
        after.is_dead(),
        after.is_valid(),
{
}

/// A lockup that has been terminated can be terminated again, at the same
/// time or later and by the same account, whatever is revealed: nothing is
/// then left to return, and what was claimed is still claimed.
pub proof fn lemma_second_termination(
    before: Lockup,
    after: Lockup,
    initiator_id: Seq<char>,
    revealed: Option<Schedule>,
    digest_matches: bool,
    first: TimestampSec,
    revealed_again: Option<Schedule>,
    digest_matches_again: bool,
    second: TimestampSec,
)
    requires
        before.is_valid(),
        before.termination_error(initiator_id, revealed, digest_matches) is None,
        after.is_termination_of(before, revealed, first),
        first <= second,
    ensures
        after.is_valid(),
        after.termination_error(initiator_id, revealed_again, digest_matches_again) is None,
        after.unvested_at(revealed_again, second) == 0,
        after.terminated_checkpoints(revealed_again, second) == after.schedule@,
        after.claimed_balance == before.claimed_balance,
{
    let governing = before.governing_checkpoints(revealed);
    let vested = before.vested_at(revealed, first);
    lemma_unlocked_bounds(governing, first as int);
    if unlocked_at(governing, first as int) < total_of(governing) {
        lemma_truncated_valid(governing, first, vested as Balance);
    } else {
        lemma_unlocked_monotone(governing, first as int, second as int);
        lemma_unlocked_bounds(governing, second as int);
    }
}

} // verus!
