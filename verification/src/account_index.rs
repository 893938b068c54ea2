//! The index from an account to the lockups that still hold tokens for it.
//!
//! The index is a cache over the lockups of the ledger: it is kept in step
//! with them whenever a lockup is created or dies.

use vstd::prelude::*;
use crate::AccountId;
use crate::LockupIndex;

verus! {

/// The lockups of one account.
#[derive(Debug, PartialEq, Eq)]
pub struct AccountLockups {
    pub account_id: AccountId,
    pub indices: Vec<LockupIndex>,
}

/// The lockups of every account that has had any.
#[derive(Debug, PartialEq, Eq)]
pub struct AccountIndex {
    pub entries: Vec<AccountLockups>,
}

/// Taking out the item at `k` of a sequence without duplicates takes its
/// value out of the set of items, and leaves no duplicates.
pub proof fn lemma_remove_to_set(s: Seq<LockupIndex>, k: int)
    requires
        s.no_duplicates(),
        0 <= k < s.len(),
    ensures
        s.remove(k).no_duplicates(),
        s.remove(k).to_set() == s.to_set().remove(s[k]),
{
    let r = s.remove(k);
    assert forall|i: int, j: int| 0 <= i < r.len() && 0 <= j < r.len() && i != j implies r[i]
        != r[j] by {
        let si = if i < k { i } else { i + 1 };
        let sj = if j < k { j } else { j + 1 };
        assert(r[i] == s[si] && r[j] == s[sj]);
    }
    assert forall|x: LockupIndex| r.to_set().contains(x) <==> s.to_set().remove(s[k]).contains(
        x,
    ) by {
        if r.to_set().contains(x) {
            let i = choose|i: int| 0 <= i < r.len() && r[i] == x;
            let si = if i < k { i } else { i + 1 };
            assert(s[si] == x);
        }
        if s.to_set().remove(s[k]).contains(x) {
            let si = choose|si: int| 0 <= si < s.len() && s[si] == x;
            let i = if si < k { si } else { si - 1 };
            assert(r[i] == x);
        }
    }
    assert(r.to_set() =~= s.to_set().remove(s[k]));
}

/// Whether no lockup occurs twice among `indices`.
pub fn distinct(indices: &Vec<LockupIndex>) -> (r: bool)
    ensures
        r == indices@.no_duplicates(),
{
    let n = indices.len();
    let mut k: usize = 0;
    while k < n
        invariant
            k <= n,
            n == indices@.len(),
            forall|i: int, j: int| 0 <= i < j < k ==> indices@[i] != indices@[j],
        decreases n - k,
    {
        let mut j: usize = 0;
        while j < k
            invariant
                j <= k < n,
                n == indices@.len(),
                forall|i: int| 0 <= i < j ==> indices@[i] != indices@[k as int],
            decreases k - j,
        {
            if indices[j] == indices[k] {
                return false;
            }
            j += 1;
        }
        k += 1;
    }
    assert forall|i: int, j: int|
        0 <= i < indices@.len() && 0 <= j < indices@.len() && i != j implies indices@[i]
        != indices@[j] by {
        if i < j {
        } else {
            assert(indices@[j] != indices@[i]);
        }
    }
    true
}

impl AccountIndex {
    /// Whether the entry at `e` is that of `account`.
    pub open spec fn has_entry(&self, account: Seq<char>, e: int) -> bool {
        0 <= e < self.entries@.len() && self.entries@[e].account_id@ == account
    }

    /// No account has two entries, and no entry holds a lockup twice.
    pub open spec fn wf(&self) -> bool {
        &&& forall|e1: int, e2: int|
            0 <= e1 < e2 < self.entries@.len() ==> self.entries@[e1].account_id@
                != self.entries@[e2].account_id@
        &&& forall|e: int|
            0 <= e < self.entries@.len() ==> (#[trigger] self.entries@[e]).indices@.no_duplicates()
    }

    /// The lockups that the index holds for `account`.
    pub open spec fn indices_of(&self, account: Seq<char>) -> Set<LockupIndex> {
        if exists|e: int| self.has_entry(account, e) {
            self.entries@[choose|e: int| self.has_entry(account, e)].indices@.to_set()
        } else {
            Set::empty()
        }
    }

    /// The lockups of an account are those of its one entry.
    pub proof fn lemma_indices_of_entry(&self, account: Seq<char>, e: int)
        requires
            self.wf(),
            self.has_entry(account, e),
        ensures
            self.indices_of(account) == self.entries@[e].indices@.to_set(),
    {
        let chosen = choose|e: int| self.has_entry(account, e);
        assert(self.has_entry(account, chosen));
        assert(chosen == e);
    }

    /// An index without entries.
    pub fn new() -> (index: Self)
        ensures
            index.wf(),
            index.entries@.len() == 0,
            forall|account: Seq<char>| #[trigger] index.indices_of(account) == Set::<LockupIndex>::empty(),
    {
        AccountIndex { entries: Vec::new() }
    }

    /// Whether no account has two entries and no entry holds a lockup twice.
    pub fn check_wf(&self) -> (in_order: bool)
        ensures
            in_order == self.wf(),
    {
        let n = self.entries.len();
        let mut e: usize = 0;
        while e < n
            invariant
                e <= n,
                n == self.entries@.len(),
                forall|e1: int, e2: int|
                    0 <= e1 < e2 < e ==> self.entries@[e1].account_id@
                        != self.entries@[e2].account_id@,
                forall|d: int| 0 <= d < e ==> (#[trigger] self.entries@[d]).indices@.no_duplicates(),
            decreases n - e,
        {
            let mut d: usize = 0;
            while d < e
                invariant
                    d <= e < n,
                    n == self.entries@.len(),
                    forall|e1: int|
                        0 <= e1 < d ==> self.entries@[e1].account_id@
                            != self.entries@[e as int].account_id@,
                decreases e - d,
            {
                if self.entries[d].account_id == self.entries[e].account_id {
                    return false;
                }
                d += 1;
            }
            if !distinct(&self.entries[e].indices) {
                assert(!self.entries@[e as int].indices@.no_duplicates());
                return false;
            }
            e += 1;
        }
        true
    }

    /// The position of the entry of `account_id`, if it has one.
    pub fn position(&self, account_id: &AccountId) -> (found: Option<usize>)
        ensures
            match found {
                Some(e) => self.has_entry(account_id@, e as int),
                None => forall|e: int| !self.has_entry(account_id@, e),
            },
    {
        let mut e: usize = 0;
        while e < self.entries.len()
            invariant
                e <= self.entries@.len(),
                forall|k: int| 0 <= k < e ==> !self.has_entry(account_id@, k),
            decreases self.entries@.len() - e,
        {
            if self.entries[e].account_id == *account_id {
                return Some(e);
            }
            e += 1;
        }
        None
    }

    /// The lockups that the index holds for `account_id`, each once.
    pub fn get(&self, account_id: &AccountId) -> (indices: Vec<LockupIndex>)
        requires
            self.wf(),
        ensures
            indices@.no_duplicates(),
            indices@.to_set() == self.indices_of(account_id@),
    {
        match self.position(account_id) {
            Some(e) => {
                proof {
                    self.lemma_indices_of_entry(account_id@, e as int);
                }
                let entry = &self.entries[e];
                let mut indices: Vec<LockupIndex> = Vec::new();
                let mut k: usize = 0;
                while k < entry.indices.len()
                    invariant
                        k <= entry.indices@.len(),
                        indices@ == entry.indices@.take(k as int),
                    decreases entry.indices@.len() - k,
                {
                    indices.push(entry.indices[k]);
                    assert(entry.indices@.take(k + 1) =~= entry.indices@.take(k as int).push(
                        entry.indices@[k as int],
                    ));
                    k += 1;
                }
                assert(entry.indices@.take(k as int) =~= entry.indices@);
                indices
            },
            None => {
                let indices: Vec<LockupIndex> = Vec::new();
                assert(indices@.to_set() =~= Set::<LockupIndex>::empty());
                indices
            },
        }
    }

    /// Whether the index holds the lockup `index` for `account_id`.
    pub fn contains(&self, account_id: &AccountId, index: LockupIndex) -> (held: bool)
        requires
            self.wf(),
        ensures
            held == self.indices_of(account_id@).contains(index),
    {
        match self.position(account_id) {
            Some(e) => {
                proof {
                    self.lemma_indices_of_entry(account_id@, e as int);
                }
                let entry = &self.entries[e];
                let mut k: usize = 0;
                while k < entry.indices.len()
                    invariant
                        k <= entry.indices@.len(),
                        self.indices_of(account_id@) == entry.indices@.to_set(),
                        forall|j: int| 0 <= j < k ==> entry.indices@[j] != index,
                    decreases entry.indices@.len() - k,
                {
                    if entry.indices[k] == index {
                        assert(entry.indices@[k as int] == index);
                        assert(entry.indices@.contains(index));
                        return true;
                    }
                    k += 1;
                }
                false
            },
            None => false,
        }
    }

    /// Enters the lockup `index` for `account_id`.
    pub fn insert(&mut self, account_id: &AccountId, index: LockupIndex)
        requires
            old(self).wf(),
        ensures
            final(self).wf(),
            final(self).indices_of(account_id@) == old(self).indices_of(account_id@).insert(index),
            forall|other: Seq<char>|
                other != account_id@ ==> #[trigger] final(self).indices_of(other) == old(
                    self,
                ).indices_of(other),
    {
        if self.contains(account_id, index) {
            assert(old(self).indices_of(account_id@).insert(index) =~= old(self).indices_of(
                account_id@,
            ));
            return ;
        }
        match self.position(account_id) {
            Some(e) => {
                proof {
                    self.lemma_indices_of_entry(account_id@, e as int);
                }
                let ghost before = self.entries@[e as int].indices@;
                self.entries[e].indices.push(index);
                proof {
                    before.lemma_push_to_set_commute(index);
                    assert(before.push(index).no_duplicates()) by {
                        assert forall|i: int| 0 <= i < before.len() implies before[i] != index by {
                            assert(before.to_set().contains(before[i]));
                        }
                    }
                    assert(self.has_entry(account_id@, e as int));
                    self.lemma_indices_of_entry(account_id@, e as int);
                    assert forall|other: Seq<char>|
                        other != account_id@ implies #[trigger] self.indices_of(other)
                        == old(self).indices_of(other) by {
                        old(self).lemma_unchanged_entries(*self, other, e as int);
                    }
                }
            },
            None => {
                let mut indices: Vec<LockupIndex> = Vec::new();
                indices.push(index);
                self.entries.push(AccountLockups { account_id: account_id.clone(), indices });
                proof {
                    let e = old(self).entries@.len() as int;
                    assert(self.entries@[e].indices@ =~= seq![index]);
                    assert forall|e1: int, e2: int|
                        0 <= e1 < e2 < self.entries@.len() implies self.entries@[e1].account_id@
                        != self.entries@[e2].account_id@ by {
                        assert(self.entries@[e1] == old(self).entries@[e1]);
                        if e2 < e {
                            assert(self.entries@[e2] == old(self).entries@[e2]);
                        } else {
                            assert(!old(self).has_entry(account_id@, e1));
                        }
                    }
                    assert forall|k: int| 0 <= k < self.entries@.len() implies (
                    #[trigger] self.entries@[k]).indices@.no_duplicates() by {
                        if k < e {
                            assert(self.entries@[k] == old(self).entries@[k]);
                        }
                    }
                    assert(self.has_entry(account_id@, e));
                    self.lemma_indices_of_entry(account_id@, e);
                    Seq::<LockupIndex>::empty().lemma_push_to_set_commute(index);
                    assert(Seq::<LockupIndex>::empty().to_set() =~= Set::<LockupIndex>::empty());
                    assert forall|other: Seq<char>|
                        other != account_id@ implies #[trigger] self.indices_of(other)
                        == old(self).indices_of(other) by {
                        old(self).lemma_unchanged_entries(*self, other, e);
                    }
                }
            },
        }
    }

    /// Takes the lockup `index` out of the entry of `account_id`.
    pub fn remove(&mut self, account_id: &AccountId, index: LockupIndex)
        requires
            old(self).wf(),
        ensures
            final(self).wf(),
            final(self).indices_of(account_id@) == old(self).indices_of(account_id@).remove(index),
            forall|other: Seq<char>|
                other != account_id@ ==> #[trigger] final(self).indices_of(other) == old(
                    self,
                ).indices_of(other),
    {
        match self.position(account_id) {
            Some(e) => {
                proof {
                    self.lemma_indices_of_entry(account_id@, e as int);
                }
                let ghost before = self.entries@[e as int].indices@;
                let mut k: usize = 0;
                while k < self.entries[e].indices.len()
                    invariant
                        *self == *old(self),
                        self.wf(),
                        self.has_entry(account_id@, e as int),
                        e < self.entries@.len(),
                        before == self.entries@[e as int].indices@,
                        k <= before.len(),
                        forall|j: int| 0 <= j < k ==> before[j] != index,
                    decreases before.len() - k,
                {
                    if self.entries[e].indices[k] == index {
                        self.entries[e].indices.remove(k);
                        proof {
                            lemma_remove_to_set(before, k as int);
                            assert(self.has_entry(account_id@, e as int));
                            self.lemma_indices_of_entry(account_id@, e as int);
                            assert forall|other: Seq<char>|
                        other != account_id@ implies #[trigger] self.indices_of(other)
                        == old(self).indices_of(other) by {
                                old(self).lemma_unchanged_entries(*self, other, e as int);
                            }
                        }
                        return ;
                    }
                    k += 1;
                }
                assert(old(self).indices_of(account_id@).remove(index) =~= old(self).indices_of(
                    account_id@,
                ));
            },
            None => {
                assert(old(self).indices_of(account_id@).remove(index) =~= old(self).indices_of(
                    account_id@,
                ));
            },
        }
    }

    /// A change to the entry at `e`, or a new entry at `e`, for another
    /// account leaves the lockups of `account` as they were.
    pub proof fn lemma_unchanged_entries(&self, after: AccountIndex, account: Seq<char>, e: int)
        requires
            self.wf(),
            after.wf(),
            0 <= e < after.entries@.len(),
            after.entries@[e].account_id@ != account,
            self.entries@.len() == after.entries@.len() || (self.entries@.len() == e
                && after.entries@.len() == e + 1),
            forall|k: int|
                0 <= k < self.entries@.len() && k != e ==> self.entries@[k] == after.entries@[k],
            e < self.entries@.len() ==> self.entries@[e].account_id@ == after.entries@[e].account_id@,
        ensures
            after.indices_of(account) == self.indices_of(account),
    {
        if exists|k: int| self.has_entry(account, k) {
            let k = choose|k: int| self.has_entry(account, k);
            assert(after.has_entry(account, k));
            self.lemma_indices_of_entry(account, k);
            after.lemma_indices_of_entry(account, k);
        } else {
            assert forall|k: int| !after.has_entry(account, k) by {
                if after.has_entry(account, k) {
                    assert(self.has_entry(account, k));
                }
            }
        }
    }
}

} // verus!
