//! The accounts that may fund new lockups.

use vstd::prelude::*;
use crate::contract::Contract;
use crate::AccountId;
use crate::Error;

verus! {

impl Contract {
    /// Checks that `account_id` may fund new lockups.
    pub fn assert_deposit_whitelist(&self, account_id: &AccountId) -> (r: Result<(), Error>)
        ensures
            self.is_whitelisted(account_id@) ==> r is Ok,
            !self.is_whitelisted(account_id@) ==> r == Err::<(), Error>(Error::Unauthorized),
    {
        let mut k: usize = 0;
        while k < self.deposit_whitelist.len()
            invariant
                k <= self.deposit_whitelist@.len(),
                forall|j: int| 0 <= j < k ==> self.deposit_whitelist@[j]@ != account_id@,
            decreases self.deposit_whitelist@.len() - k,
        {
            if self.deposit_whitelist[k] == *account_id {
                return Ok(());
            }
            k += 1;
        }
        Err(Error::Unauthorized)
    }

    /// Lets `account_id` fund new lockups. Only an account that may itself
    /// fund lockups can do so.
    pub fn add_to_deposit_whitelist(
        &mut self,
        predecessor_id: &AccountId,
        account_id: AccountId,
    ) -> (r: Result<(), Error>)
        ensures
            !old(self).is_whitelisted(predecessor_id@) ==> r == Err::<(), Error>(Error::Unauthorized)
                && *final(self) == *old(self),
            old(self).is_whitelisted(predecessor_id@) ==> r is Ok && forall|account: Seq<char>|
                #[trigger] final(self).is_whitelisted(account) <==> old(self).is_whitelisted(account)
                    || account == account_id@,
            final(self).token_account_id == old(self).token_account_id,
            final(self).lockups == old(self).lockups,
            final(self).account_lockups == old(self).account_lockups,
            final(self).pending_claims == old(self).pending_claims,
            final(self).locked_balance == old(self).locked_balance,
    {
        if self.assert_deposit_whitelist(predecessor_id).is_err() {
            return Err(Error::Unauthorized);
        }
        if self.assert_deposit_whitelist(&account_id).is_ok() {
            return Ok(());
        }
        self.deposit_whitelist.push(account_id);
        proof {
            let n = old(self).deposit_whitelist@.len() as int;
            assert forall|account: Seq<char>| #[trigger]
                self.is_whitelisted(account) <==> old(self).is_whitelisted(account) || account
                    == account_id@ by {
                if old(self).is_whitelisted(account) {
                    let k = choose|k: int|
                        0 <= k < old(self).deposit_whitelist@.len() && old(
                            self,
                        ).deposit_whitelist@[k]@ == account;
                    assert(self.deposit_whitelist@[k]@ == account);
                }
                if account == account_id@ {
                    assert(self.deposit_whitelist@[n]@ == account);
                }
                if self.is_whitelisted(account) {
                    let k = choose|k: int|
                        0 <= k < self.deposit_whitelist@.len() && self.deposit_whitelist@[k]@
                            == account;
                    if k < n {
                        assert(old(self).deposit_whitelist@[k]@ == account);
                    }
                }
            }
        }
        Ok(())
    }

    /// Stops `account_id` from funding new lockups. Only an account that may
    /// itself fund lockups can do so.
    pub fn remove_from_deposit_whitelist(
        &mut self,
        predecessor_id: &AccountId,
        account_id: &AccountId,
    ) -> (r: Result<(), Error>)
        ensures
            !old(self).is_whitelisted(predecessor_id@) ==> r == Err::<(), Error>(Error::Unauthorized)
                && *final(self) == *old(self),
            old(self).is_whitelisted(predecessor_id@) ==> r is Ok && forall|account: Seq<char>|
                #[trigger] final(self).is_whitelisted(account) <==> old(self).is_whitelisted(account)
                    && account != account_id@,
            final(self).token_account_id == old(self).token_account_id,
            final(self).lockups == old(self).lockups,
            final(self).account_lockups == old(self).account_lockups,
            final(self).pending_claims == old(self).pending_claims,
            final(self).locked_balance == old(self).locked_balance,
    {
        if self.assert_deposit_whitelist(predecessor_id).is_err() {
            return Err(Error::Unauthorized);
        }
        let mut k: usize = 0;
        while k < self.deposit_whitelist.len()
            invariant
                k <= self.deposit_whitelist@.len(),
                forall|j: int| 0 <= j < k ==> self.deposit_whitelist@[j]@ != account_id@,
                forall|account: Seq<char>| #[trigger]
                    self.is_whitelisted(account) ==> old(self).is_whitelisted(account),
                forall|account: Seq<char>|
                    account != account_id@ && old(self).is_whitelisted(account)
                        ==> #[trigger] self.is_whitelisted(account),
                self.token_account_id == old(self).token_account_id,
                self.lockups == old(self).lockups,
                self.account_lockups == old(self).account_lockups,
                self.pending_claims == old(self).pending_claims,
                self.locked_balance == old(self).locked_balance,
            decreases self.deposit_whitelist@.len() - k,
        {
            if self.deposit_whitelist[k] == *account_id {
                let ghost earlier = *self;
                let ghost before = self.deposit_whitelist@;
                self.deposit_whitelist.remove(k);
                proof {
                    let after = self.deposit_whitelist@;
                    assert forall|account: Seq<char>| #[trigger]
                        self.is_whitelisted(account) implies old(self).is_whitelisted(account) by {
                        let j = choose|j: int| 0 <= j < after.len() && after[j]@ == account;
                        let o = if j < k { j } else { j + 1 };
                        assert(before[o]@ == account);
                        assert(earlier.is_whitelisted(account));
                    }
                    assert forall|account: Seq<char>|
                        account != account_id@ && old(self).is_whitelisted(
                            account,
                        ) implies #[trigger] self.is_whitelisted(account) by {
                        assert(earlier.is_whitelisted(account));
                        let o = choose|o: int| 0 <= o < before.len() && before[o]@ == account;
                        let j = if o < k { o } else { o - 1 };
                        assert(after[j]@ == account);
                    }
                }
            } else {
                k += 1;
            }
        }
        Ok(())
    }
}

} // verus!
