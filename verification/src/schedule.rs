//! Unlock schedules: piecewise-linear curves of the amount unlocked over time.

use vstd::prelude::*;
use crate::arith::lemma_scale_bounds;
use crate::arith::lemma_scale_monotone;
use crate::arith::mul_div;
use crate::arith::scale;
use crate::Balance;
use crate::Error;
use crate::TimestampSec;

verus! {

/// A vertex of the curve: at `timestamp`, `balance` tokens in all are unlocked.
#[derive(Clone, Copy, Debug, PartialEq, Eq, Structural)]
pub struct Checkpoint {
    pub timestamp: TimestampSec,
    pub balance: Balance,
}

/// The checkpoints of a curve, in order of time.
#[derive(Debug, PartialEq, Eq)]
pub struct Schedule(pub Vec<Checkpoint>);

/// A checkpoint sequence is valid when it is not empty, its timestamps
/// strictly increase and its balances never decrease.
pub open spec fn valid_checkpoints(cs: Seq<Checkpoint>) -> bool {
    &&& cs.len() >= 1
    &&& forall|i: int, j: int| 0 <= i < j < cs.len() ==> cs[i].timestamp < cs[j].timestamp
    &&& forall|i: int, j: int| 0 <= i <= j < cs.len() ==> cs[i].balance <= cs[j].balance
}

/// The total granted by a checkpoint sequence: the balance of its last
/// checkpoint, and nothing for the empty sequence.
pub open spec fn total_of(cs: Seq<Checkpoint>) -> int {
    if cs.len() == 0 {
        0
    } else {
        cs.last().balance as int
    }
}

/// The amount unlocked at time `t` on the line from `from` to `to`.
pub open spec fn interpolate(from: Checkpoint, to: Checkpoint, t: int) -> int {
    from.balance + scale(
        to.balance - from.balance,
        t - from.timestamp,
        to.timestamp - from.timestamp,
    )
}

/// The amount unlocked at time `t`.
///
/// Nothing is unlocked before the first checkpoint and everything from the
/// last one on; between two neighbouring checkpoints the amount follows the
/// line through them, rounded toward zero.
pub open spec fn unlocked_at(cs: Seq<Checkpoint>, t: int) -> int
    decreases cs.len(),
{
    if cs.len() == 0 {
        0
    } else if t >= cs.last().timestamp {
        cs.last().balance as int
    } else if cs.len() == 1 {
        0
    } else if t >= cs[cs.len() - 2].timestamp {
        interpolate(cs[cs.len() - 2], cs.last(), t)
    } else {
        unlocked_at(cs.drop_last(), t)
    }
}

/// A valid sequence stays valid when its last checkpoint is dropped, as long
/// as one remains.
pub proof fn lemma_valid_drop_last(cs: Seq<Checkpoint>)
    requires
        valid_checkpoints(cs),
        cs.len() >= 2,
    ensures
        valid_checkpoints(cs.drop_last()),
{
    let ds = cs.drop_last();
    assert forall|i: int, j: int| 0 <= i < j < ds.len() implies ds[i].timestamp
        < ds[j].timestamp by {
        assert(ds[i] == cs[i] && ds[j] == cs[j]);
    }
    assert forall|i: int, j: int| 0 <= i <= j < ds.len() implies ds[i].balance
        <= ds[j].balance by {
        assert(ds[i] == cs[i] && ds[j] == cs[j]);
    }
}

/// On a line between two ordered checkpoints the unlocked amount lies between
/// their balances and meets them at the ends.
pub proof fn lemma_interpolate_bounds(from: Checkpoint, to: Checkpoint, t: int)
    requires
        from.timestamp < to.timestamp,
        from.balance <= to.balance,
        from.timestamp <= t <= to.timestamp,
    ensures
        from.balance <= interpolate(from, to, t) <= to.balance,
        t == from.timestamp ==> interpolate(from, to, t) == from.balance,
        t == to.timestamp ==> interpolate(from, to, t) == to.balance,
{
    lemma_scale_bounds(
        to.balance - from.balance,
        t - from.timestamp,
        to.timestamp - from.timestamp,
    );
}

/// The unlocked amount is never negative and never exceeds the total.
pub proof fn lemma_unlocked_bounds(cs: Seq<Checkpoint>, t: int)
    requires
        valid_checkpoints(cs),
    ensures
        0 <= unlocked_at(cs, t) <= total_of(cs),
    decreases cs.len(),
{
    if t >= cs.last().timestamp || cs.len() == 1 {
    } else if t >= cs[cs.len() - 2].timestamp {
        lemma_interpolate_bounds(cs[cs.len() - 2], cs.last(), t);
    } else {
        lemma_valid_drop_last(cs);
        lemma_unlocked_bounds(cs.drop_last(), t);
        assert(cs.drop_last().last() == cs[cs.len() - 2]);
    }
}

/// Before the first checkpoint nothing is unlocked.
pub proof fn lemma_unlocked_before_start(cs: Seq<Checkpoint>, t: int)
    requires
        valid_checkpoints(cs),
        t < cs[0].timestamp,
    ensures
        unlocked_at(cs, t) == 0,
    decreases cs.len(),
{
    if cs.len() >= 2 {
        lemma_valid_drop_last(cs);
        lemma_unlocked_before_start(cs.drop_last(), t);
        assert(cs.drop_last()[0] == cs[0]);
    }
}

/// Between the checkpoints `i` and `i + 1` the unlocked amount is the one on
/// the line through them.
pub proof fn lemma_unlocked_in_segment(cs: Seq<Checkpoint>, i: int, t: int)
    requires
        valid_checkpoints(cs),
        0 <= i < cs.len() - 1,
        cs[i].timestamp <= t < cs[i + 1].timestamp,
    ensures
        unlocked_at(cs, t) == interpolate(cs[i], cs[i + 1], t),
    decreases cs.len(),
{
    if i + 2 < cs.len() {
        lemma_valid_drop_last(cs);
        lemma_unlocked_in_segment(cs.drop_last(), i, t);
        assert(cs.drop_last()[i] == cs[i] && cs.drop_last()[i + 1] == cs[i + 1]);
    }
}

/// The unlocked amount never decreases as time passes.
pub proof fn lemma_unlocked_monotone(cs: Seq<Checkpoint>, t1: int, t2: int)
    requires
        valid_checkpoints(cs),
        t1 <= t2,
    ensures
        unlocked_at(cs, t1) <= unlocked_at(cs, t2),
    decreases cs.len(),
{
    let n = cs.len() as int;
    if t2 >= cs.last().timestamp {
        lemma_unlocked_bounds(cs, t1);
    } else if n == 1 {
    } else {
        let from = cs[n - 2];
        let to = cs[n - 1];
        lemma_valid_drop_last(cs);
        assert(cs.drop_last().last() == from);
        if t1 >= from.timestamp {
            lemma_scale_monotone(
                to.balance - from.balance,
                t1 - from.timestamp,
                to.balance - from.balance,
                t2 - from.timestamp,
                to.timestamp - from.timestamp,
            );
        } else if t2 >= from.timestamp {
            lemma_unlocked_bounds(cs.drop_last(), t1);
            lemma_interpolate_bounds(from, to, t2);
        } else {
            lemma_unlocked_monotone(cs.drop_last(), t1, t2);
        }
    }
}

/// The accrual law of a valid schedule: the unlocked amount never decreases
/// with time, is the whole total from the last checkpoint on, and is zero
/// before the first checkpoint.
pub proof fn lemma_accrual_law(cs: Seq<Checkpoint>, t1: int, t2: int)
    requires
        valid_checkpoints(cs),
        t1 <= t2,
    ensures
        unlocked_at(cs, t1) <= unlocked_at(cs, t2),
        t2 >= cs.last().timestamp ==> unlocked_at(cs, t2) == total_of(cs),
        t1 <= cs[0].timestamp - 1 ==> unlocked_at(cs, t1) == 0,
{
    lemma_unlocked_monotone(cs, t1, t2);
    if t1 <= cs[0].timestamp - 1 {
        lemma_unlocked_before_start(cs, t1);
    }
}

/// The checkpoints of a schedule that is cut off at time `now` with
/// `vested` as its new total: every checkpoint at or after `now` is dropped,
/// and the curve ends in a checkpoint at `now` that holds `vested`.
pub open spec fn truncated_at(cs: Seq<Checkpoint>, now: TimestampSec, vested: Balance) -> Seq<
    Checkpoint,
>
    decreases cs.len(),
{
    if cs.len() > 0 && cs.last().timestamp >= now {
        truncated_at(cs.drop_last(), now, vested)
    } else {
        cs.push(Checkpoint { timestamp: now, balance: vested })
    }
}

/// Dropping a last checkpoint that lies at or after `t` does not raise the
/// amount unlocked at `t`.
proof fn lemma_unlocked_drop_last(cs: Seq<Checkpoint>, t: int)
    requires
        valid_checkpoints(cs),
        cs.len() >= 2,
        t <= cs.last().timestamp,
    ensures
        unlocked_at(cs.drop_last(), t) <= unlocked_at(cs, t),
{
    let n = cs.len() as int;
    lemma_valid_drop_last(cs);
    assert(cs.drop_last().last() == cs[n - 2]);
    if t == cs.last().timestamp {
    } else if t >= cs[n - 2].timestamp {
        lemma_interpolate_bounds(cs[n - 2], cs.last(), t);
    }
}

/// A valid schedule cut off at `now` with a total of at least what it had
/// unlocked by then is valid again, grants the new total, and has all of it
/// unlocked from `now` on.
pub proof fn lemma_truncated_valid(cs: Seq<Checkpoint>, now: TimestampSec, vested: Balance)
    requires
        cs.len() == 0 || valid_checkpoints(cs),
        unlocked_at(cs, now as int) <= vested,
    ensures
        valid_checkpoints(truncated_at(cs, now, vested)),
        total_of(truncated_at(cs, now, vested)) == vested,
        forall|t: int| t >= now ==> unlocked_at(truncated_at(cs, now, vested), t) == vested,
    decreases cs.len(),
{
    if cs.len() > 0 && cs.last().timestamp >= now {
        if cs.len() >= 2 {
            lemma_unlocked_drop_last(cs, now as int);
            lemma_valid_drop_last(cs);
        }
        lemma_truncated_valid(cs.drop_last(), now, vested);
    } else {
        let last = Checkpoint { timestamp: now, balance: vested };
        let ts = cs.push(last);
        assert(ts.last() == last);
        assert forall|i: int, j: int| 0 <= i < j < ts.len() implies ts[i].timestamp
            < ts[j].timestamp by {
            assert(ts[i] == cs[i]);
            if j < cs.len() {
                assert(ts[j] == cs[j]);
            } else {
                assert(cs[i].timestamp <= cs.last().timestamp);
            }
        }
        assert forall|i: int, j: int| 0 <= i <= j < ts.len() implies ts[i].balance
            <= ts[j].balance by {
            if j < cs.len() {
                assert(ts[i] == cs[i] && ts[j] == cs[j]);
            } else if i < cs.len() {
                assert(ts[i] == cs[i]);
                assert(cs[i].balance <= cs.last().balance);
            }
        }
    }
}

impl View for Schedule {
    type V = Seq<Checkpoint>;

    open spec fn view(&self) -> Seq<Checkpoint> {
        self.0@
    }
}

impl Clone for Schedule {
    fn clone(&self) -> (copy: Self)
        ensures
            copy@ == self@,
    {
        let mut checkpoints: Vec<Checkpoint> = Vec::new();
        let mut i: usize = 0;
        while i < self.0.len()
            invariant
                i <= self.0.len(),
                checkpoints@ == self.0@.take(i as int),
            decreases self.0.len() - i,
        {
            checkpoints.push(self.0[i]);
            assert(self.0@.take(i + 1) =~= self.0@.take(i as int).push(self.0@[i as int]));
            i += 1;
        }
        assert(self.0@.take(i as int) =~= self.0@);
        Schedule(checkpoints)
    }
}

impl Schedule {
    /// Whether the checkpoints form a valid curve.
    pub open spec fn is_valid(&self) -> bool {
        valid_checkpoints(self@)
    }

    /// Whether the schedule is valid and grants exactly `total_balance`.
    pub open spec fn is_valid_for(&self, total_balance: Balance) -> bool {
        self.is_valid() && total_of(self@) == total_balance
    }

    /// A schedule that has `total_balance` unlocked from the epoch on.
    pub fn new_unlocked(total_balance: Balance) -> (schedule: Self)
        ensures
            schedule@ == seq![Checkpoint { timestamp: 0, balance: total_balance }],
            schedule.is_valid_for(total_balance),
            forall|t: int| 0 <= t ==> unlocked_at(schedule@, t) == total_balance,
    {
        let mut checkpoints: Vec<Checkpoint> = Vec::new();
        checkpoints.push(Checkpoint { timestamp: 0, balance: total_balance });
        assert(checkpoints@ =~= seq![Checkpoint { timestamp: 0, balance: total_balance }]);
        Schedule(checkpoints)
    }

    /// Checks that the schedule is valid and grants exactly `total_balance`,
    /// the amount that was deposited for it.
    pub fn assert_valid(&self, total_balance: Balance) -> (r: Result<(), Error>)
        ensures
            r is Ok <==> self.is_valid_for(total_balance),
            r is Err ==> r == Err::<(), Error>(Error::ValidationError),
    {
        let n = self.0.len();
        if n == 0 {
            return Err(Error::ValidationError);
        }
        let mut i: usize = 1;
        while i < n
            invariant
                1 <= i <= n,
                n == self.0.len(),
                valid_checkpoints(self@.take(i as int)),
            decreases n - i,
        {
            let prev = self.0[i - 1];
            let next = self.0[i];
            if !(prev.timestamp < next.timestamp && prev.balance <= next.balance) {
                assert(!valid_checkpoints(self@)) by {
                    if valid_checkpoints(self@) {
                        assert(self@[i - 1].timestamp < self@[i as int].timestamp);
                        assert(self@[i - 1].balance <= self@[i as int].balance);
                    }
                }
                return Err(Error::ValidationError);
            }
            proof {
                let before = self@.take(i as int);
                let after = self@.take(i + 1);
                assert(before.last() == prev);
                assert forall|a: int, b: int| 0 <= a < b < after.len() implies after[a].timestamp
                    < after[b].timestamp by {
                    if b < i {
                        assert(before[a] == after[a] && before[b] == after[b]);
                    } else {
                        assert(before[a] == after[a]);
                        assert(before[a].timestamp <= before[i - 1].timestamp);
                    }
                }
                assert forall|a: int, b: int| 0 <= a <= b < after.len() implies after[a].balance
                    <= after[b].balance by {
                    if b < i {
                        assert(before[a] == after[a] && before[b] == after[b]);
                    } else if a < i {
                        assert(before[a] == after[a]);
                        assert(before[a].balance <= before[i - 1].balance);
                    }
                }
            }
            i += 1;
        }
        assert(self@.take(n as int) =~= self@);
        if self.0[n - 1].balance == total_balance {
            Ok(())
        } else {
            Err(Error::ValidationError)
        }
    }

    /// Whether the checkpoints form a valid curve.
    pub fn check_valid(&self) -> (valid: bool)
        ensures
            valid == self.is_valid(),
    {
        let n = self.0.len();
        if n == 0 {
            return false;
        }
        self.assert_valid(self.0[n - 1].balance).is_ok()
    }

    /// The total granted: the balance of the last checkpoint.
    pub fn total_balance(&self) -> (total: Balance)
        requires
            self.is_valid(),
        ensures
            total == total_of(self@),
    {
        self.0[self.0.len() - 1].balance
    }

    /// The amount unlocked at `current_timestamp`.
    pub fn unlocked_balance(&self, current_timestamp: TimestampSec) -> (unlocked: Balance)
        requires
            self.is_valid(),
        ensures
            unlocked == unlocked_at(self@, current_timestamp as int),
            unlocked <= total_of(self@),
    {
        let n = self.0.len();
        let mut low: usize = 0;
        let mut high: usize = n;
        while low < high
            invariant
                low <= high <= n,
                n == self.0.len(),
                self.is_valid(),
                forall|k: int| 0 <= k < low ==> self@[k].timestamp <= current_timestamp,
                forall|k: int| high <= k < n ==> self@[k].timestamp > current_timestamp,
            decreases high - low,
        {
            let mid = low + (high - low) / 2;
            if self.0[mid].timestamp <= current_timestamp {
                assert forall|k: int| 0 <= k < mid + 1 implies self@[k].timestamp
                    <= current_timestamp by {
                    if k < mid {
                        assert(self@[k].timestamp < self@[mid as int].timestamp);
                    }
                }
                low = mid + 1;
            } else {
                assert forall|k: int| mid <= k < n implies self@[k].timestamp
                    > current_timestamp by {
                    if mid < k {
                        assert(self@[mid as int].timestamp < self@[k].timestamp);
                    }
                }
                high = mid;
            }
        }
        proof {
            lemma_unlocked_bounds(self@, current_timestamp as int);
        }
        if low == 0 {
            proof {
                lemma_unlocked_before_start(self@, current_timestamp as int);
            }
            return 0;
        }
        let index = low - 1;
        let checkpoint = self.0[index];
        if index + 1 == n {
            return checkpoint.balance;
        }
        let next_checkpoint = self.0[index + 1];
        proof {
            lemma_unlocked_in_segment(self@, index as int, current_timestamp as int);
            lemma_interpolate_bounds(checkpoint, next_checkpoint, current_timestamp as int);
        }
        let total_duration = next_checkpoint.timestamp - checkpoint.timestamp;
        let passed_duration = current_timestamp - checkpoint.timestamp;
        checkpoint.balance + mul_div(
            next_checkpoint.balance - checkpoint.balance,
            passed_duration,
            total_duration,
        )
    }

    /// Ends the schedule at `now` with `new_total_balance` as its total:
    /// what was to unlock later is given up.
    pub fn terminate(&mut self, now: TimestampSec, new_total_balance: Balance)
        ensures
            final(self)@ == truncated_at(old(self)@, now, new_total_balance),
            old(self).is_valid() && unlocked_at(old(self)@, now as int) <= new_total_balance ==> {
                &&& final(self).is_valid_for(new_total_balance)
                &&& forall|t: int|
                    t >= now ==> unlocked_at(final(self)@, t) == new_total_balance
            },
    {
        proof {
            if old(self).is_valid() && unlocked_at(old(self)@, now as int) <= new_total_balance {
                lemma_truncated_valid(old(self)@, now, new_total_balance);
            }
        }
        while self.0.len() > 0 && self.0[self.0.len() - 1].timestamp >= now
            invariant
                truncated_at(self@, now, new_total_balance) == truncated_at(
                    old(self)@,
                    now,
                    new_total_balance,
                ),
            decreases self.0.len(),
        {
            self.0.pop();
        }
        self.0.push(Checkpoint { timestamp: now, balance: new_total_balance });
    }
}

} // verus!
