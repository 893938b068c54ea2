//! Taking over the state of an earlier version of the ledger.

use vstd::prelude::*;
use crate::account_index::AccountIndex;
use crate::contract::all_valid;
use crate::contract::lemma_outstanding_prefix;
use crate::contract::outstanding_sum;
use crate::contract::Contract;
use crate::lockup::Lockup;
use crate::AccountId;
use crate::Balance;
use crate::Error;
use crate::LockupIndex;
use crate::TokenAccountId;

verus! {

/// The state of the earlier version: it did not record pending claims, nor
/// the balance that all lockups hold together.
#[derive(Debug, PartialEq, Eq)]
pub struct ContractLegacy {
    pub token_account_id: TokenAccountId,
    pub lockups: Vec<Lockup>,
    pub account_lockups: AccountIndex,
    /// Account IDs that can create new lockups.
    pub deposit_whitelist: Vec<AccountId>,
}

impl ContractLegacy {
    /// The earlier state is in order: its lockups are valid and its index
    /// agrees with them.
    pub open spec fn wf(&self) -> bool {
        &&& self.lockups@.len() <= u32::MAX
        &&& all_valid(self.lockups@)
        &&& self.account_lockups.wf()
        &&& forall|account: Seq<char>, i: LockupIndex| #[trigger]
            self.account_lockups.indices_of(account).contains(i) <==> (i < self.lockups@.len()
                && self.lockups@[i as int].account_id@ == account
                && !self.lockups@[i as int].is_dead())
    }
}

impl Contract {
    /// Takes over the state of the earlier version, which is checked first.
    /// No claim is pending, and the locked balance is what the lockups hold
    /// together. Refused when the earlier state is not in order, or when
    /// that balance cannot be held.
    pub fn migrate(old_state: ContractLegacy) -> (r: Result<Contract, Error>)
        ensures
            old_state.wf() && outstanding_sum(old_state.lockups@) <= u128::MAX ==> {
                &&& r is Ok
                &&& r.unwrap().wf()
                &&& r.unwrap().token_account_id == old_state.token_account_id
                &&& r.unwrap().lockups == old_state.lockups
                &&& r.unwrap().account_lockups == old_state.account_lockups
                &&& r.unwrap().deposit_whitelist == old_state.deposit_whitelist
                &&& r.unwrap().pending_claims@.len() == 0
                &&& r.unwrap().locked_balance == outstanding_sum(old_state.lockups@)
            },
            !(old_state.wf() && outstanding_sum(old_state.lockups@) <= u128::MAX) ==> r == Err::<
                Contract,
                Error,
            >(Error::InvalidState),
    {
        let mut contract = Contract {
            token_account_id: old_state.token_account_id,
            lockups: old_state.lockups,
            account_lockups: old_state.account_lockups,
            deposit_whitelist: old_state.deposit_whitelist,
            pending_claims: Vec::new(),
            locked_balance: 0,
        };
        if !contract.check_lockups() {
            return Err(Error::InvalidState);
        }
        let mut locked_balance: Balance = 0;
        let mut i: usize = 0;
        while i < contract.lockups.len()
            invariant
                i <= contract.lockups@.len(),
                contract.lockups == old_state.lockups,
                all_valid(contract.lockups@),
                locked_balance == outstanding_sum(contract.lockups@.take(i as int)),
            decreases contract.lockups@.len() - i,
        {
            proof {
                assert(contract.lockups@.take(i + 1).drop_last() =~= contract.lockups@.take(
                    i as int,
                ));
                lemma_outstanding_prefix(contract.lockups@, i + 1);
                assert(contract.lockups@[i as int].is_valid());
            }
            let held = contract.lockups[i].total_balance() - contract.lockups[i].claimed_balance;
            if held > u128::MAX - locked_balance {
                return Err(Error::InvalidState);
            }
            locked_balance = locked_balance + held;
            i += 1;
        }
        assert(contract.lockups@.take(i as int) =~= contract.lockups@);
        contract.locked_balance = locked_balance;
        if !contract.account_lockups.check_wf() {
            return Err(Error::InvalidState);
        }
        proof {
            contract.lemma_index_agreement();
            assert((forall|account: Seq<char>, i: LockupIndex| #[trigger]
                contract.index_agrees_at(account, i)) <==> (forall|
                account: Seq<char>,
                i: LockupIndex,
            | #[trigger]
                old_state.account_lockups.indices_of(account).contains(i) <==> (i
                    < old_state.lockups@.len() && old_state.lockups@[i as int].account_id@
                    == account && !old_state.lockups@[i as int].is_dead())));
        }
        if !contract.check_index_sound() || !contract.check_index_complete() {
            return Err(Error::InvalidState);
        }
        Ok(contract)
    }
}

} // verus!
