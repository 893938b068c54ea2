//! The byte form of a schedule and the digest that commits to it.
//!
//! A schedule is written as the number of its checkpoints, a 32-bit integer,
//! followed by each checkpoint: its timestamp as a 32-bit and its balance as
//! a 128-bit integer, all little-endian.

use vstd::prelude::*;
use vstd::bytes::spec_u128_to_le_bytes;
use vstd::bytes::spec_u32_to_le_bytes;
use vstd::bytes::u128_to_le_bytes;
use vstd::bytes::u32_to_le_bytes;
use crate::hash::sha256;
use crate::hash::sha256_digest;
use crate::schedule::Checkpoint;
use crate::schedule::Schedule;
use crate::CryptoHash;

verus! {

/// The bytes of one checkpoint.
pub open spec fn checkpoint_bytes(c: Checkpoint) -> Seq<u8> {
    spec_u32_to_le_bytes(c.timestamp) + spec_u128_to_le_bytes(c.balance)
}

/// The bytes of the checkpoints, one after the other.
pub open spec fn checkpoints_bytes(cs: Seq<Checkpoint>) -> Seq<u8>
    decreases cs.len(),
{
    if cs.len() == 0 {
        Seq::empty()
    } else {
        checkpoints_bytes(cs.drop_last()) + checkpoint_bytes(cs.last())
    }
}

/// The bytes of a schedule of at most `u32::MAX` checkpoints.
pub open spec fn schedule_bytes(cs: Seq<Checkpoint>) -> Seq<u8>
    recommends
        cs.len() <= u32::MAX,
{
    spec_u32_to_le_bytes(cs.len() as u32) + checkpoints_bytes(cs)
}

/// The digest that commits to a schedule.
pub open spec fn schedule_hash(cs: Seq<Checkpoint>) -> Seq<u8> {
    sha256_digest(schedule_bytes(cs))
}

/// Whether a schedule can be written down: its length fits the length field.
pub open spec fn encodable(cs: Seq<Checkpoint>) -> bool {
    cs.len() <= u32::MAX
}

impl Schedule {
    /// Writes the schedule down as bytes.
    pub fn to_bytes(&self) -> (bytes: Vec<u8>)
        requires
            encodable(self@),
        ensures
            bytes@ == schedule_bytes(self@),
    {
        let n = self.0.len();
        let mut bytes = u32_to_le_bytes(n as u32);
        let mut i: usize = 0;
        assert(checkpoints_bytes(self@.take(0)) =~= Seq::<u8>::empty());
        assert(bytes@ =~= spec_u32_to_le_bytes(n as u32) + checkpoints_bytes(self@.take(0)));
        while i < n
            invariant
                i <= n,
                n == self.0.len(),
                bytes@ == spec_u32_to_le_bytes(n as u32) + checkpoints_bytes(self@.take(i as int)),
            decreases n - i,
        {
            let checkpoint = self.0[i];
            let mut timestamp = u32_to_le_bytes(checkpoint.timestamp);
            let mut balance = u128_to_le_bytes(checkpoint.balance);
            bytes.append(&mut timestamp);
            bytes.append(&mut balance);
            proof {
                let next = self@.take(i + 1);
                assert(next.drop_last() =~= self@.take(i as int));
                assert(next.last() == checkpoint);
                assert(bytes@ =~= spec_u32_to_le_bytes(n as u32) + checkpoints_bytes(next));
            }
            i += 1;
        }
        assert(self@.take(n as int) =~= self@);
        bytes
    }

    /// The digest that commits to this schedule.
    pub fn hash(&self) -> (digest: CryptoHash)
        requires
            encodable(self@),
        ensures
            digest@ == schedule_hash(self@),
    {
        let bytes = self.to_bytes();
        sha256(&bytes)
    }

    /// The digest that commits to this schedule, if the schedule can be
    /// written down.
    pub fn try_hash(&self) -> (digest: Option<CryptoHash>)
        ensures
            digest is Some <==> encodable(self@),
            digest is Some ==> digest.unwrap()@ == schedule_hash(self@),
    {
        if self.0.len() <= u32::MAX as usize {
            Some(self.hash())
        } else {
            None
        }
    }
}

} // verus!
