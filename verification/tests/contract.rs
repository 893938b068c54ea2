use ft_lockup::account_index::AccountIndex;
use ft_lockup::contract::PendingClaim;
use ft_lockup::ft_token_receiver::FtMessage;
use ft_lockup::ft_token_receiver::FULL_UNLOCK_TIMESTAMP;
use ft_lockup::ft_token_receiver::START_UNLOCK_TIMESTAMP;
use ft_lockup::lockup::Lockup;
use ft_lockup::lockup::LockupClaim;
use ft_lockup::migration::ContractLegacy;
use ft_lockup::schedule::Checkpoint;
use ft_lockup::schedule::Schedule;
use ft_lockup::termination::HashOrSchedule;
use ft_lockup::termination::TerminationConfig;
use ft_lockup::Contract;
use ft_lockup::Error;
use ft_lockup::SelfCallbacks;

const TOKEN: &str = "token.near";
const OWNER: &str = "owner.near";
const ALICE: &str = "alice.near";
const BOB: &str = "bob.near";
const ISSUER: &str = "issuer.near";

fn id(name: &str) -> String {
    name.to_string()
}

fn schedule(points: &[(u32, u128)]) -> Schedule {
    Schedule(
        points
            .iter()
            .map(|(timestamp, balance)| Checkpoint { timestamp: *timestamp, balance: *balance })
            .collect(),
    )
}

fn lockup(account: &str, points: &[(u32, u128)]) -> Lockup {
    Lockup {
        account_id: id(account),
        schedule: schedule(points),
        claimed_balance: 0,
        termination_config: None,
    }
}

fn terminable(account: &str, points: &[(u32, u128)], vesting_schedule: Option<HashOrSchedule>) -> Lockup {
    Lockup {
        account_id: id(account),
        schedule: schedule(points),
        claimed_balance: 0,
        termination_config: Some(TerminationConfig { terminator_id: id(ISSUER), vesting_schedule }),
    }
}

fn new_contract() -> Contract {
    Contract::new(id(TOKEN), vec![id(OWNER)])
}

fn fund(contract: &mut Contract, lockup: Lockup) -> u32 {
    let amount = lockup.schedule.total_balance();
    let index = contract.get_num_lockups();
    assert_eq!(
        contract.ft_on_transfer(&id(TOKEN), &id(OWNER), amount, FtMessage::CreateLockup(lockup)),
        Ok(0)
    );
    index
}

fn indices(contract: &Contract, account: &str, now: u32) -> Vec<u32> {
    let mut found: Vec<u32> =
        contract.get_account_lockups(&id(account), now).into_iter().map(|(index, _)| index).collect();
    found.sort();
    found
}

#[test]
fn new_contract_is_empty() {
    let contract = new_contract();
    assert_eq!(contract.get_token_account_id(), TOKEN);
    assert_eq!(contract.get_num_lockups(), 0);
    assert_eq!(contract.locked_balance, 0);
    assert!(contract.pending_claims.is_empty());
    assert_eq!(contract.assert_deposit_whitelist(&id(OWNER)), Ok(()));
    assert_eq!(contract.assert_deposit_whitelist(&id(ALICE)), Err(Error::Unauthorized));
    assert!(contract.get_account_lockups(&id(ALICE), 0).is_empty());
    assert_eq!(contract.get_lockup(0, 0), None);
}

#[test]
fn deposit_creates_a_lockup() {
    let mut contract = new_contract();
    let l = lockup(ALICE, &[(100, 0), (200, 1000)]);
    assert_eq!(
        contract.ft_on_transfer(&id(TOKEN), &id(OWNER), 1000, FtMessage::CreateLockup(l.clone())),
        Ok(0)
    );
    assert_eq!(contract.lockups, vec![l]);
    assert_eq!(contract.locked_balance, 1000);
    assert_eq!(indices(&contract, ALICE, 0), vec![0]);
    assert!(indices(&contract, BOB, 0).is_empty());
    let view = contract.get_lockup(0, 150).unwrap();
    assert_eq!(view.total_balance, 1000);
    assert_eq!(view.unclaimed_balance, 500);
}

#[test]
fn deposit_is_refused_from_the_wrong_token_or_sender() {
    let mut contract = new_contract();
    let l = lockup(ALICE, &[(100, 0), (200, 1000)]);
    assert_eq!(
        contract.ft_on_transfer(&id("other.near"), &id(OWNER), 1000, FtMessage::CreateLockup(l.clone())),
        Err(Error::Unauthorized)
    );
    assert_eq!(
        contract.ft_on_transfer(&id(TOKEN), &id(ALICE), 1000, FtMessage::CreateLockup(l)),
        Err(Error::Unauthorized)
    );
    assert_eq!(contract.get_num_lockups(), 0);
}

#[test]
fn deposit_is_refused_when_the_schedule_does_not_match_the_amount() {
    let mut contract = new_contract();
    let l = lockup(ALICE, &[(100, 0), (200, 1000)]);
    assert_eq!(
        contract.ft_on_transfer(&id(TOKEN), &id(OWNER), 999, FtMessage::CreateLockup(l)),
        Err(Error::ValidationError)
    );
    assert_eq!(
        contract.ft_on_transfer(
            &id(TOKEN),
            &id(OWNER),
            5,
            FtMessage::CreateLockup(lockup(ALICE, &[(100, 0), (100, 5)]))
        ),
        Err(Error::ValidationError)
    );
    assert_eq!(contract.get_num_lockups(), 0);
    assert_eq!(contract.locked_balance, 0);
}

#[test]
fn batch_deposit_creates_one_lockup_for_each_account() {
    let mut contract = new_contract();
    let batch = vec![(id(ALICE), 600), (id(BOB), 400)];
    assert_eq!(
        contract.ft_on_transfer(&id(TOKEN), &id(OWNER), 1000, FtMessage::CreateInitialLockups(batch)),
        Ok(0)
    );
    assert_eq!(
        contract.lockups,
        vec![
            lockup(ALICE, &[(START_UNLOCK_TIMESTAMP, 0), (FULL_UNLOCK_TIMESTAMP, 600)]),
            lockup(BOB, &[(START_UNLOCK_TIMESTAMP, 0), (FULL_UNLOCK_TIMESTAMP, 400)]),
        ]
    );
    assert_eq!(START_UNLOCK_TIMESTAMP, 1694509200);
    assert_eq!(FULL_UNLOCK_TIMESTAMP, 1757667600);
    assert_eq!(contract.locked_balance, 1000);
    assert_eq!(indices(&contract, ALICE, 0), vec![0]);
    assert_eq!(indices(&contract, BOB, 0), vec![1]);
    assert_eq!(contract.get_lockup(0, 1726088400).unwrap().unlocked_balance, 300);
}

#[test]
fn batch_deposit_must_add_up_to_the_amount() {
    let mut contract = new_contract();
    let batch = vec![(id(ALICE), 600), (id(BOB), 400)];
    assert_eq!(
        contract.ft_on_transfer(&id(TOKEN), &id(OWNER), 1001, FtMessage::CreateInitialLockups(batch.clone())),
        Err(Error::ValidationError)
    );
    assert_eq!(
        contract.ft_on_transfer(&id(TOKEN), &id(OWNER), 999, FtMessage::CreateInitialLockups(batch)),
        Err(Error::ValidationError)
    );
    let overflowing = vec![(id(ALICE), u128::MAX), (id(BOB), 1)];
    assert_eq!(
        contract.ft_on_transfer(&id(TOKEN), &id(OWNER), 0, FtMessage::CreateInitialLockups(overflowing)),
        Err(Error::ValidationError)
    );
    assert_eq!(contract.get_num_lockups(), 0);
}

#[test]
fn ledger_refuses_more_than_it_can_hold() {
    let mut contract = new_contract();
    fund(&mut contract, lockup(ALICE, &[(100, 0), (200, u128::MAX)]));
    let before = contract.lockups.clone();
    assert_eq!(
        contract.ft_on_transfer(
            &id(TOKEN),
            &id(OWNER),
            1,
            FtMessage::CreateLockup(lockup(BOB, &[(100, 0), (200, 1)]))
        ),
        Err(Error::InvalidState)
    );
    assert_eq!(
        contract.ft_on_transfer(
            &id(TOKEN),
            &id(OWNER),
            1,
            FtMessage::CreateInitialLockups(vec![(id(BOB), 1)])
        ),
        Err(Error::InvalidState)
    );
    assert_eq!(contract.lockups, before);
}

#[test]
fn whitelist_is_managed_by_its_members() {
    let mut contract = new_contract();
    assert_eq!(
        contract.add_to_deposit_whitelist(&id(ALICE), id(ALICE)),
        Err(Error::Unauthorized)
    );
    assert_eq!(contract.add_to_deposit_whitelist(&id(OWNER), id(ALICE)), Ok(()));
    assert_eq!(contract.add_to_deposit_whitelist(&id(ALICE), id(ALICE)), Ok(()));
    assert_eq!(contract.deposit_whitelist, vec![id(OWNER), id(ALICE)]);
    assert_eq!(contract.assert_deposit_whitelist(&id(ALICE)), Ok(()));
    assert_eq!(
        contract.remove_from_deposit_whitelist(&id(BOB), &id(OWNER)),
        Err(Error::Unauthorized)
    );
    assert_eq!(contract.remove_from_deposit_whitelist(&id(ALICE), &id(OWNER)), Ok(()));
    assert_eq!(contract.deposit_whitelist, vec![id(ALICE)]);
    assert_eq!(contract.assert_deposit_whitelist(&id(OWNER)), Err(Error::Unauthorized));
    assert_eq!(contract.remove_from_deposit_whitelist(&id(ALICE), &id(BOB)), Ok(()));
    assert_eq!(contract.deposit_whitelist, vec![id(ALICE)]);
}

#[test]
fn claim_sums_over_the_lockups_of_the_account() {
    let mut contract = new_contract();
    fund(&mut contract, lockup(ALICE, &[(100, 0), (200, 1000)]));
    fund(&mut contract, lockup(BOB, &[(100, 0), (200, 50)]));
    fund(&mut contract, lockup(ALICE, &[(0, 30)]));
    fund(&mut contract, lockup(ALICE, &[(500, 0), (600, 10)]));
    let before = contract.lockups.clone();
    assert_eq!(contract.claim(&id(ALICE), 150), Ok(530));
    assert_eq!(contract.lockups, before);
    assert_eq!(
        contract.pending_claims,
        vec![PendingClaim {
            account_id: id(ALICE),
            lockup_claims: vec![
                LockupClaim { index: 0, unclaimed_balance: 500, is_final: false },
                LockupClaim { index: 2, unclaimed_balance: 30, is_final: true },
            ],
        }]
    );
    assert_eq!(contract.after_ft_transfer(&id(ALICE), true), Ok(530));
    assert!(contract.pending_claims.is_empty());
    assert_eq!(contract.lockups[0].claimed_balance, 500);
    assert_eq!(contract.lockups[1].claimed_balance, 0);
    assert_eq!(contract.lockups[2].claimed_balance, 30);
    assert_eq!(contract.lockups[3].claimed_balance, 0);
    assert_eq!(contract.locked_balance, 1090 - 530);
    assert_eq!(indices(&contract, ALICE, 150), vec![0, 3]);
    assert_eq!(indices(&contract, BOB, 150), vec![1]);
}

#[test]
fn nothing_to_claim() {
    let mut contract = new_contract();
    fund(&mut contract, lockup(ALICE, &[(100, 0), (200, 1000)]));
    assert_eq!(contract.claim(&id(ALICE), 100), Err(Error::NothingToClaim));
    assert_eq!(contract.claim(&id(BOB), 150), Err(Error::NothingToClaim));
    assert!(contract.pending_claims.is_empty());
    assert_eq!(contract.reserve(&id(ALICE), 100), Ok((vec![], 0)));
}

#[test]
fn second_claim_is_refused_while_one_is_pending() {
    let mut contract = new_contract();
    fund(&mut contract, lockup(ALICE, &[(100, 0), (200, 1000)]));
    fund(&mut contract, lockup(BOB, &[(100, 0), (200, 1000)]));
    assert_eq!(contract.claim(&id(ALICE), 150), Ok(500));
    assert_eq!(contract.claim(&id(ALICE), 160), Err(Error::TransferPending));
    assert_eq!(contract.claim(&id(BOB), 160), Ok(600));
    assert_eq!(contract.pending_position(&id(ALICE)), Some(0));
    assert_eq!(contract.pending_position(&id(BOB)), Some(1));
    assert_eq!(contract.after_ft_transfer(&id(ALICE), true), Ok(500));
    assert_eq!(contract.pending_position(&id(ALICE)), None);
    assert_eq!(contract.claim(&id(ALICE), 160), Ok(100));
    assert_eq!(contract.after_ft_transfer(&id(BOB), true), Ok(600));
    assert_eq!(contract.after_ft_transfer(&id(ALICE), true), Ok(100));
    assert_eq!(contract.lockups[0].claimed_balance, 600);
    assert_eq!(contract.lockups[1].claimed_balance, 600);
}

#[test]
fn failed_transfer_rolls_the_claim_back() {
    let mut contract = new_contract();
    fund(&mut contract, lockup(ALICE, &[(100, 0), (200, 1000)]));
    fund(&mut contract, lockup(ALICE, &[(0, 30)]));
    let before = contract.lockups.clone();
    let claimable_before = contract.reserve(&id(ALICE), 150).unwrap().1;
    assert_eq!(contract.claim(&id(ALICE), 150), Ok(530));
    assert_eq!(contract.after_ft_transfer(&id(ALICE), false), Err(Error::ExternalTransferFailed));
    assert_eq!(contract.lockups, before);
    assert!(contract.pending_claims.is_empty());
    assert_eq!(contract.locked_balance, 1030);
    assert_eq!(indices(&contract, ALICE, 150), vec![0, 1]);
    assert_eq!(contract.reserve(&id(ALICE), 150).unwrap().1, claimable_before);
    assert_eq!(contract.claim(&id(ALICE), 150), Ok(530));
    assert_eq!(contract.rollback_claim(&id(ALICE)), Ok(530));
    assert_eq!(contract.lockups, before);
    assert_eq!(contract.claim(&id(ALICE), 150), Ok(530));
    assert_eq!(contract.commit_claim(&id(ALICE)), Ok(530));
    assert_eq!(contract.lockups[0].claimed_balance, 500);
    assert_eq!(contract.lockups[1].claimed_balance, 30);
}

#[test]
fn outcome_without_a_pending_claim_is_refused() {
    let mut contract = new_contract();
    fund(&mut contract, lockup(ALICE, &[(100, 0), (200, 1000)]));
    let before = contract.lockups.clone();
    assert_eq!(contract.after_ft_transfer(&id(ALICE), true), Err(Error::InvalidState));
    assert_eq!(contract.after_ft_transfer(&id(ALICE), false), Err(Error::InvalidState));
    assert_eq!(contract.commit_claim(&id(ALICE)), Err(Error::InvalidState));
    assert_eq!(contract.rollback_claim(&id(ALICE)), Err(Error::InvalidState));
    assert_eq!(contract.lockups, before);
}

#[test]
fn full_claim_takes_the_lockup_out_of_the_index() {
    let mut contract = new_contract();
    fund(&mut contract, lockup(ALICE, &[(100, 0), (200, 1000)]));
    assert_eq!(contract.claim(&id(ALICE), 200), Ok(1000));
    assert_eq!(contract.pending_claims[0].lockup_claims[0].is_final, true);
    assert_eq!(contract.after_ft_transfer(&id(ALICE), true), Ok(1000));
    assert_eq!(contract.lockups[0].claimed_balance, 1000);
    assert!(contract.lockups[0].is_exhausted());
    assert!(indices(&contract, ALICE, 200).is_empty());
    assert_eq!(contract.locked_balance, 0);
    assert_eq!(contract.claim(&id(ALICE), 300), Err(Error::NothingToClaim));
}

#[test]
fn terminate_returns_what_has_not_vested() {
    let mut contract = new_contract();
    fund(&mut contract, terminable(ALICE, &[(100, 0), (200, 1000)], None));
    assert_eq!(contract.terminate(&id(ISSUER), 0, None, 150), Ok(500));
    assert_eq!(contract.lockups[0].schedule, schedule(&[(100, 0), (150, 500)]));
    assert_eq!(contract.locked_balance, 500);
    assert_eq!(indices(&contract, ALICE, 150), vec![0]);
    assert_eq!(contract.after_lockup_termination(&id(ISSUER), 500, true), Ok(500));
    assert_eq!(contract.terminate(&id(ISSUER), 0, None, 150), Ok(0));
    assert_eq!(contract.claim(&id(ALICE), 1000), Ok(500));
}

#[test]
fn failed_termination_transfer_is_reported_and_not_undone() {
    let mut contract = new_contract();
    fund(&mut contract, terminable(ALICE, &[(100, 0), (200, 1000)], None));
    assert_eq!(contract.terminate(&id(ISSUER), 0, None, 150), Ok(500));
    let lockups = contract.lockups.clone();
    assert_eq!(
        contract.after_lockup_termination(&id(ISSUER), 500, false),
        Err(Error::ExternalTransferFailed)
    );
    assert_eq!(contract.lockups, lockups);
    assert_eq!(contract.locked_balance, 500);
}

#[test]
fn terminate_before_the_start_kills_the_lockup() {
    let mut contract = new_contract();
    fund(&mut contract, terminable(ALICE, &[(100, 0), (200, 1000)], None));
    assert_eq!(contract.terminate(&id(ISSUER), 0, None, 50), Ok(1000));
    assert!(indices(&contract, ALICE, 50).is_empty());
    assert_eq!(contract.locked_balance, 0);
}

#[test]
fn terminate_is_refused() {
    let mut contract = new_contract();
    fund(&mut contract, terminable(ALICE, &[(100, 0), (200, 1000)], None));
    fund(&mut contract, lockup(ALICE, &[(100, 0), (200, 1000)]));
    fund(
        &mut contract,
        terminable(BOB, &[(100, 0), (200, 1000)], Some(HashOrSchedule::Hash([3u8; 32]))),
    );
    let before = contract.lockups.clone();
    assert_eq!(contract.terminate(&id(ISSUER), 3, None, 150), Err(Error::ValidationError));
    assert_eq!(contract.terminate(&id(ALICE), 0, None, 150), Err(Error::Unauthorized));
    assert_eq!(contract.terminate(&id(ISSUER), 1, None, 150), Err(Error::Unauthorized));
    assert_eq!(contract.terminate(&id(ISSUER), 2, None, 150), Err(Error::InvalidReveal));
    assert_eq!(
        contract.terminate(&id(ISSUER), 2, Some(schedule(&[(100, 0), (200, 1000)])), 150),
        Err(Error::InvalidReveal)
    );
    assert_eq!(
        contract.terminate_with_hash(
            &id(ISSUER),
            2,
            Some(schedule(&[(100, 0), (200, 999)])),
            Some([3u8; 32]),
            150
        ),
        Err(Error::ValidationError)
    );
    assert_eq!(contract.claim(&id(ALICE), 150), Ok(1000));
    assert_eq!(contract.terminate(&id(ISSUER), 0, None, 150), Err(Error::TransferPending));
    assert_eq!(contract.lockups, before);
    assert_eq!(
        contract.terminate_with_hash(
            &id(ISSUER),
            2,
            Some(schedule(&[(100, 0), (300, 1000)])),
            Some([3u8; 32]),
            150
        ),
        Ok(750)
    );
}

#[test]
fn terminate_with_a_revealed_schedule() {
    let secret = schedule(&[(100, 0), (500, 1000)]);
    let mut contract = new_contract();
    fund(
        &mut contract,
        terminable(ALICE, &[(100, 0), (200, 1000)], Some(HashOrSchedule::Hash(secret.hash()))),
    );
    assert_eq!(contract.terminate(&id(ISSUER), 0, Some(secret), 200), Ok(750));
    assert_eq!(contract.lockups[0].schedule, schedule(&[(100, 0), (200, 250)]));
    assert_eq!(contract.locked_balance, 250);
}

#[test]
fn seize_skips_lockups_that_were_claimed_from() {
    let mut contract = new_contract();
    fund(&mut contract, lockup(ALICE, &[(100, 0), (200, 1000)]));
    fund(&mut contract, lockup(BOB, &[(100, 0), (200, 700)]));
    assert_eq!(contract.claim(&id(ALICE), 110), Ok(100));
    assert_eq!(contract.after_ft_transfer(&id(ALICE), true), Ok(100));
    let touched = contract.lockups[0].clone();
    assert_eq!(contract.seize(vec![id(ALICE)]), 0);
    assert_eq!(contract.lockups[0], touched);
    assert_eq!(indices(&contract, ALICE, 110), vec![0]);
    assert_eq!(contract.seize(vec![id(BOB)]), 700);
    assert_eq!(contract.lockups[1], Lockup::new_unlocked(id(BOB), 0));
    assert_eq!(contract.lockups[1].schedule.total_balance(), 0);
    assert!(indices(&contract, BOB, 110).is_empty());
    assert_eq!(contract.locked_balance, 900);
    assert_eq!(contract.seize(vec![id(BOB)]), 0);
}

#[test]
fn seize_adds_up_over_accounts_and_lockups() {
    let mut contract = new_contract();
    fund(&mut contract, lockup(ALICE, &[(100, 0), (200, 1000)]));
    fund(&mut contract, lockup(BOB, &[(100, 0), (200, 700)]));
    fund(&mut contract, lockup(ALICE, &[(100, 0), (200, 30)]));
    fund(&mut contract, lockup("carol.near", &[(100, 0), (200, 5)]));
    assert_eq!(contract.seize(vec![id(ALICE), id(BOB), id(ALICE), id("nobody.near")]), 1730);
    assert_eq!(contract.lockups[0], Lockup::new_unlocked(id(ALICE), 0));
    assert_eq!(contract.lockups[1], Lockup::new_unlocked(id(BOB), 0));
    assert_eq!(contract.lockups[2], Lockup::new_unlocked(id(ALICE), 0));
    assert_eq!(contract.lockups[3], lockup("carol.near", &[(100, 0), (200, 5)]));
    assert_eq!(contract.locked_balance, 5);
    assert_eq!(contract.seize_account(&id("carol.near")), 5);
    assert_eq!(contract.locked_balance, 0);
}

#[test]
fn seize_skips_an_account_with_a_pending_claim() {
    let mut contract = new_contract();
    fund(&mut contract, lockup(ALICE, &[(100, 0), (200, 1000)]));
    assert_eq!(contract.claim(&id(ALICE), 150), Ok(500));
    assert_eq!(contract.seize(vec![id(ALICE)]), 0);
    assert_eq!(contract.after_ft_transfer(&id(ALICE), true), Ok(500));
    assert_eq!(contract.lockups[0].claimed_balance, 500);
}

#[test]
fn clean_drops_dead_lockups_from_the_end() {
    let mut contract = new_contract();
    fund(&mut contract, lockup(ALICE, &[(100, 0), (200, 1000)]));
    fund(&mut contract, lockup(BOB, &[(100, 0), (200, 700)]));
    fund(&mut contract, lockup(ALICE, &[(100, 0), (200, 30)]));
    fund(&mut contract, lockup(BOB, &[(100, 0), (200, 5)]));
    assert_eq!(contract.clean(10), 4);
    assert_eq!(contract.seize(vec![id(BOB)]), 705);
    assert_eq!(contract.clean(10), 3);
    assert_eq!(contract.seize(vec![id(ALICE)]), 1030);
    assert_eq!(contract.clean(0), 3);
    assert_eq!(contract.clean(2), 1);
    assert_eq!(contract.lockups, vec![Lockup::new_unlocked(id(ALICE), 0)]);
    assert_eq!(contract.clean(900), 0);
    assert_eq!(contract.get_num_lockups(), 0);
}

#[test]
fn internal_add_lockup_gives_the_next_index() {
    let mut contract = new_contract();
    assert_eq!(contract.internal_add_lockup(lockup(ALICE, &[(100, 0), (200, 1000)])), Ok(0));
    assert_eq!(contract.internal_add_lockup(Lockup::new_unlocked(id(BOB), 0)), Ok(1));
    assert_eq!(contract.internal_add_lockup(lockup(BOB, &[(0, 5)])), Ok(2));
    assert_eq!(indices(&contract, ALICE, 0), vec![0]);
    assert_eq!(indices(&contract, BOB, 0), vec![2]);
    assert_eq!(contract.locked_balance, 1005);
    assert_eq!(
        contract.internal_add_lockup(lockup(BOB, &[(0, u128::MAX)])),
        Err(Error::InvalidState)
    );
}

#[test]
fn account_index_holds_sets() {
    let mut index = AccountIndex::new();
    assert!(index.get(&id(ALICE)).is_empty());
    index.insert(&id(ALICE), 4);
    index.insert(&id(ALICE), 2);
    index.insert(&id(ALICE), 4);
    index.insert(&id(BOB), 4);
    assert_eq!(index.get(&id(ALICE)), vec![4, 2]);
    assert_eq!(index.get(&id(BOB)), vec![4]);
    assert!(index.contains(&id(ALICE), 2));
    assert!(!index.contains(&id(BOB), 2));
    assert_eq!(index.position(&id(BOB)), Some(1));
    assert_eq!(index.position(&id("carol.near")), None);
    index.remove(&id(ALICE), 4);
    index.remove(&id(ALICE), 9);
    index.remove(&id("carol.near"), 4);
    assert_eq!(index.get(&id(ALICE)), vec![2]);
    assert_eq!(index.get(&id(BOB)), vec![4]);
}

#[test]
fn migrate_takes_the_earlier_state_over() {
    let mut contract = new_contract();
    fund(&mut contract, lockup(ALICE, &[(100, 0), (200, 1000)]));
    fund(&mut contract, lockup(BOB, &[(100, 0), (200, 700)]));
    assert_eq!(contract.claim(&id(BOB), 150), Ok(350));
    assert_eq!(contract.after_ft_transfer(&id(BOB), true), Ok(350));
    let Contract { token_account_id, lockups, account_lockups, deposit_whitelist, .. } = contract;
    let expected = lockups.clone();
    let migrated = Contract::migrate(ContractLegacy {
        token_account_id,
        lockups,
        account_lockups,
        deposit_whitelist,
    })
    .unwrap();
    assert_eq!(migrated.lockups, expected);
    assert_eq!(migrated.locked_balance, 1350);
    assert!(migrated.pending_claims.is_empty());
    assert_eq!(migrated.get_token_account_id(), TOKEN);
    assert_eq!(indices(&migrated, BOB, 150), vec![1]);
}

#[test]
fn migrate_refuses_what_it_cannot_hold() {
    let mut index = AccountIndex::new();
    index.insert(&id(ALICE), 0);
    index.insert(&id(BOB), 1);
    let legacy = ContractLegacy {
        token_account_id: id(TOKEN),
        lockups: vec![lockup(ALICE, &[(0, u128::MAX)]), lockup(BOB, &[(0, 1)])],
        account_lockups: index,
        deposit_whitelist: vec![],
    };
    assert_eq!(Contract::migrate(legacy), Err(Error::InvalidState));
}

#[test]
fn migrate_refuses_a_state_that_is_not_in_order() {
    let mut index = AccountIndex::new();
    index.insert(&id(ALICE), 0);
    let stale_index = ContractLegacy {
        token_account_id: id(TOKEN),
        lockups: vec![Lockup::new_unlocked(id(ALICE), 0)],
        account_lockups: index,
        deposit_whitelist: vec![],
    };
    assert_eq!(Contract::migrate(stale_index), Err(Error::InvalidState));
    let missing_entry = ContractLegacy {
        token_account_id: id(TOKEN),
        lockups: vec![lockup(ALICE, &[(0, 5)])],
        account_lockups: AccountIndex::new(),
        deposit_whitelist: vec![],
    };
    assert_eq!(Contract::migrate(missing_entry), Err(Error::InvalidState));
    let invalid_schedule = ContractLegacy {
        token_account_id: id(TOKEN),
        lockups: vec![lockup(ALICE, &[(5, 5), (5, 6)])],
        account_lockups: AccountIndex::new(),
        deposit_whitelist: vec![],
    };
    assert_eq!(Contract::migrate(invalid_schedule), Err(Error::InvalidState));
}

fn busy_contract() -> Contract {
    let mut contract = new_contract();
    fund(&mut contract, lockup(ALICE, &[(100, 0), (200, 1000)]));
    fund(&mut contract, terminable(BOB, &[(100, 0), (200, 700)], None));
    fund(&mut contract, lockup(ALICE, &[(0, 30)]));
    assert_eq!(contract.claim(&id(ALICE), 150), Ok(530));
    assert_eq!(contract.terminate(&id(ISSUER), 1, None, 120), Ok(560));
    contract
}

#[test]
fn operations_leave_the_ledger_in_order() {
    let mut contract = new_contract();
    assert!(contract.check_wf());
    fund(&mut contract, lockup(ALICE, &[(100, 0), (200, 1000)]));
    fund(&mut contract, terminable(BOB, &[(100, 0), (200, 700)], None));
    fund(&mut contract, lockup(ALICE, &[(0, 30)]));
    assert!(contract.check_wf());
    assert_eq!(contract.claim(&id(ALICE), 150), Ok(530));
    assert!(contract.check_wf());
    assert_eq!(contract.terminate(&id(ISSUER), 1, None, 120), Ok(560));
    assert!(contract.check_wf());
    assert_eq!(contract.after_ft_transfer(&id(ALICE), true), Ok(530));
    assert!(contract.check_wf());
    assert_eq!(contract.seize(vec![id(BOB), id(ALICE)]), 140);
    assert!(contract.check_wf());
    assert_eq!(contract.clean(10), 1);
    assert!(contract.check_wf());
    assert_eq!(contract.locked_balance, 500);
}

#[test]
fn check_finds_a_ledger_that_is_not_in_order() {
    assert!(busy_contract().check_wf());

    let mut wrong_balance = busy_contract();
    wrong_balance.locked_balance += 1;
    assert!(!wrong_balance.check_wf());
    assert!(!wrong_balance.check_locked_balance());

    let mut overclaimed = busy_contract();
    overclaimed.lockups[0].claimed_balance = 1001;
    assert!(!overclaimed.check_wf());
    assert!(!overclaimed.check_lockups());

    let mut invalid_schedule = busy_contract();
    invalid_schedule.lockups[0].schedule = schedule(&[(100, 1000), (200, 0)]);
    assert!(!invalid_schedule.check_wf());

    let mut stale_index = busy_contract();
    stale_index.lockups[2].claimed_balance = 30;
    stale_index.locked_balance -= 30;
    stale_index.pending_claims.clear();
    assert!(!stale_index.check_wf());
    assert!(!stale_index.check_index_sound());

    let mut missing_index = busy_contract();
    missing_index.account_lockups.remove(&id(BOB), 1);
    assert!(!missing_index.check_wf());
    assert!(!missing_index.check_index_complete());

    let mut foreign_index = busy_contract();
    foreign_index.account_lockups.insert(&id(BOB), 0);
    assert!(!foreign_index.check_wf());

    let mut doubled_entry = busy_contract();
    doubled_entry.account_lockups.entries[0].indices.push(0);
    assert!(!doubled_entry.check_wf());
    assert!(!doubled_entry.account_lockups.check_wf());

    let mut doubled_pending = busy_contract();
    let record = PendingClaim {
        account_id: id(ALICE),
        lockup_claims: doubled_pending.pending_claims[0].lockup_claims.clone(),
    };
    doubled_pending.pending_claims.push(record);
    assert!(!doubled_pending.check_wf());
    assert!(!doubled_pending.check_pending());

    let mut foreign_claim = busy_contract();
    foreign_claim.pending_claims[0].lockup_claims[0].index = 1;
    assert!(!foreign_claim.check_wf());
    assert!(!foreign_claim.check_reservation(0));

    let mut excessive_claim = busy_contract();
    excessive_claim.pending_claims[0].lockup_claims[1].unclaimed_balance = 31;
    assert!(!excessive_claim.check_wf());

    let mut empty_claim = busy_contract();
    empty_claim.pending_claims[0].lockup_claims.clear();
    assert!(!empty_claim.check_wf());

    let mut repeated_claim = busy_contract();
    repeated_claim.pending_claims[0].lockup_claims[1] =
        LockupClaim { index: 0, unclaimed_balance: 1, is_final: false };
    assert!(!repeated_claim.check_wf());
}

#[test]
fn lockup_validity_check() {
    assert!(lockup(ALICE, &[(100, 0), (200, 1000)]).check_valid());
    assert!(!lockup(ALICE, &[]).check_valid());
    assert!(!lockup(ALICE, &[(100, 0), (100, 1000)]).check_valid());
    let good = terminable(
        ALICE,
        &[(100, 0), (200, 1000)],
        Some(HashOrSchedule::Schedule(schedule(&[(1, 0), (2, 1000)]))),
    );
    assert!(good.check_valid());
    let bad = terminable(
        ALICE,
        &[(100, 0), (200, 1000)],
        Some(HashOrSchedule::Schedule(schedule(&[(1, 0), (2, 1001)]))),
    );
    assert!(!bad.check_valid());
    assert!(schedule(&[(1, 1)]).check_valid());
    assert!(!schedule(&[(2, 1), (1, 1)]).check_valid());
}

fn assert_within_schedule(contract: &Contract, now: u32) {
    for lockup in contract.lockups.iter() {
        let unlocked = lockup.schedule.unlocked_balance(now);
        assert!(lockup.claimed_balance <= unlocked);
        assert!(unlocked <= lockup.schedule.total_balance());
    }
}

#[test]
fn claimed_stays_within_unlocked_and_unlocked_within_total() {
    let mut contract = new_contract();
    fund(&mut contract, terminable(ALICE, &[(100, 0), (200, 1000)], None));
    fund(&mut contract, lockup(BOB, &[(100, 0), (150, 10), (300, 700)]));
    fund(
        &mut contract,
        terminable(
            ALICE,
            &[(0, 0), (50, 90)],
            Some(HashOrSchedule::Schedule(schedule(&[(0, 0), (500, 90)]))),
        ),
    );
    let mut now = 0;
    assert_within_schedule(&contract, now);
    for step in 0..40u32 {
        now += 13;
        let account = if step % 2 == 0 { ALICE } else { BOB };
        if contract.claim(&id(account), now).is_ok() {
            assert_within_schedule(&contract, now);
            let _ = contract.after_ft_transfer(&id(account), step % 3 != 0);
        }
        assert_within_schedule(&contract, now);
        if step == 10 {
            assert_eq!(contract.terminate(&id(ISSUER), 2, None, now), Ok(0));
            assert_within_schedule(&contract, now);
        }
        if step == 12 {
            assert_eq!(contract.terminate(&id(ISSUER), 0, None, now), Ok(310));
            assert_within_schedule(&contract, now);
        }
        assert!(contract.check_wf());
    }
    assert_within_schedule(&contract, u32::MAX);
    assert_eq!(contract.lockups[0].claimed_balance, 690);
    assert_eq!(contract.lockups[1].claimed_balance, 700);
    assert_eq!(contract.lockups[2].claimed_balance, 90);
    assert_eq!(contract.locked_balance, 0);
}
