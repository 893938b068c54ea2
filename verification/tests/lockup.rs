use ft_lockup::lockup::Lockup;
use ft_lockup::lockup::LockupClaim;
use ft_lockup::schedule::Checkpoint;
use ft_lockup::schedule::Schedule;
use ft_lockup::termination::HashOrSchedule;
use ft_lockup::termination::TerminationConfig;
use ft_lockup::Error;

fn schedule(points: &[(u32, u128)]) -> Schedule {
    Schedule(
        points
            .iter()
            .map(|(timestamp, balance)| Checkpoint { timestamp: *timestamp, balance: *balance })
            .collect(),
    )
}

fn lockup(points: &[(u32, u128)], termination_config: Option<TerminationConfig>) -> Lockup {
    Lockup {
        account_id: "alice.near".to_string(),
        schedule: schedule(points),
        claimed_balance: 0,
        termination_config,
    }
}

fn terminable(points: &[(u32, u128)], vesting_schedule: Option<HashOrSchedule>) -> Lockup {
    lockup(
        points,
        Some(TerminationConfig { terminator_id: "issuer.near".to_string(), vesting_schedule }),
    )
}

#[test]
fn new_lockup_is_validated_against_the_deposit() {
    let l = lockup(&[(100, 0), (200, 1000)], None);
    assert_eq!(l.assert_new_valid(1000), Ok(()));
    assert_eq!(l.assert_new_valid(999), Err(Error::ValidationError));
    let mut claimed = lockup(&[(100, 0), (200, 1000)], None);
    claimed.claimed_balance = 1;
    assert_eq!(claimed.assert_new_valid(1000), Err(Error::ValidationError));
    assert_eq!(lockup(&[], None).assert_new_valid(0), Err(Error::ValidationError));
}

#[test]
fn disclosed_vesting_schedule_is_validated_too() {
    let good = terminable(
        &[(100, 0), (200, 1000)],
        Some(HashOrSchedule::Schedule(schedule(&[(150, 0), (400, 1000)]))),
    );
    assert_eq!(good.assert_new_valid(1000), Ok(()));
    let wrong_total = terminable(
        &[(100, 0), (200, 1000)],
        Some(HashOrSchedule::Schedule(schedule(&[(150, 0), (400, 900)]))),
    );
    assert_eq!(wrong_total.assert_new_valid(1000), Err(Error::ValidationError));
    let committed = terminable(&[(100, 0), (200, 1000)], Some(HashOrSchedule::Hash([1u8; 32])));
    assert_eq!(committed.assert_new_valid(1000), Ok(()));
}

#[test]
fn claimable_is_unlocked_less_claimed() {
    let mut l = lockup(&[(100, 0), (200, 1000)], None);
    assert_eq!(l.claimable(50), Ok(0));
    assert_eq!(l.claimable(150), Ok(500));
    l.claimed_balance = 200;
    assert_eq!(l.claimable(150), Ok(300));
    assert_eq!(l.claimable(200), Ok(800));
    assert_eq!(l.claimable(120), Ok(0));
}

#[test]
fn claimable_reports_a_broken_invariant() {
    let mut l = lockup(&[(100, 0), (200, 1000)], None);
    l.claimed_balance = 600;
    assert_eq!(l.claimable(150), Err(Error::InvalidState));
    assert_eq!(l.claim(3, 150), Err(Error::InvalidState));
}

#[test]
fn claim_reserves_without_changing_the_lockup() {
    let l = lockup(&[(100, 0), (200, 1000)], None);
    let before = l.clone();
    assert_eq!(
        l.claim(7, 150),
        Ok(LockupClaim { index: 7, unclaimed_balance: 500, is_final: false })
    );
    assert_eq!(
        l.claim(7, 200),
        Ok(LockupClaim { index: 7, unclaimed_balance: 1000, is_final: true })
    );
    assert_eq!(l, before);
}

#[test]
fn commit_claim_adds_to_what_is_claimed() {
    let mut l = lockup(&[(100, 0), (200, 1000)], None);
    assert_eq!(l.commit_claim(400), Ok(()));
    assert_eq!(l.claimed_balance, 400);
    assert!(!l.is_exhausted());
    assert_eq!(l.commit_claim(601), Err(Error::InvalidState));
    assert_eq!(l.claimed_balance, 400);
    assert_eq!(l.commit_claim(600), Ok(()));
    assert_eq!(l.claimed_balance, 1000);
    assert!(l.is_exhausted());
}

#[test]
fn full_claim_after_the_schedule_has_run_out_exhausts_the_lockup() {
    let total = 60000 * 10u128.pow(18);
    let mut l = lockup(&[(100, 0), (200, total)], None);
    assert_eq!(l.assert_new_valid(total), Ok(()));
    let claim = l.claim(0, 200).unwrap();
    assert_eq!(claim.unclaimed_balance, total);
    assert!(claim.is_final);
    assert_eq!(l.commit_claim(claim.unclaimed_balance), Ok(()));
    assert_eq!(l.claimed_balance, total);
    assert!(l.is_exhausted());
    assert_eq!(l.claimable(u32::MAX), Ok(0));
}

#[test]
fn new_unlocked_lockup() {
    let l = Lockup::new_unlocked("bob.near".to_string(), 77);
    assert_eq!(l.account_id, "bob.near");
    assert_eq!(l.schedule, schedule(&[(0, 77)]));
    assert_eq!(l.claimed_balance, 0);
    assert_eq!(l.termination_config, None);
    assert_eq!(l.claimable(0), Ok(77));
    assert_eq!(l.total_balance(), 77);
    let zero = Lockup::new_unlocked("bob.near".to_string(), 0);
    assert!(zero.is_exhausted());
}

#[test]
fn only_the_terminator_may_terminate() {
    let mut without_config = lockup(&[(100, 0), (200, 1000)], None);
    let before = without_config.clone();
    assert_eq!(
        without_config.terminate(&"issuer.near".to_string(), None, 150),
        Err(Error::Unauthorized)
    );
    assert_eq!(without_config, before);
    let mut l = terminable(&[(100, 0), (200, 1000)], None);
    let before = l.clone();
    assert_eq!(l.terminate(&"mallory.near".to_string(), None, 150), Err(Error::Unauthorized));
    assert_eq!(l, before);
    assert_eq!(l.check_termination(&"mallory.near".to_string(), &None, &None), Err(Error::Unauthorized));
    assert_eq!(l.check_termination(&"issuer.near".to_string(), &None, &None), Ok(()));
}

#[test]
fn termination_at_half_time_returns_the_other_half() {
    let x = 1000u128;
    let mut l = terminable(&[(100, 0), (200, x)], None);
    assert_eq!(l.terminate(&"issuer.near".to_string(), None, 150), Ok(x - x / 2));
    assert_eq!(l.schedule.total_balance(), x / 2);
    assert_eq!(l.schedule, schedule(&[(100, 0), (150, 500)]));
    assert_eq!(l.claimed_balance, 0);
    assert_eq!(l.claimable(150), Ok(500));
    assert_eq!(l.claimable(u32::MAX), Ok(500));
}

#[test]
fn termination_with_an_odd_total() {
    let x = 1001u128;
    let mut l = terminable(&[(100, 0), (200, x)], None);
    assert_eq!(l.terminate(&"issuer.near".to_string(), None, 150), Ok(x - x / 2));
    assert_eq!(l.schedule.total_balance(), x / 2);
}

#[test]
fn second_termination_returns_nothing() {
    let mut l = terminable(&[(100, 0), (200, 1000)], None);
    l.claimed_balance = 300;
    assert_eq!(l.terminate(&"issuer.near".to_string(), None, 150), Ok(500));
    let after_first = l.clone();
    assert_eq!(l.terminate(&"issuer.near".to_string(), None, 150), Ok(0));
    assert_eq!(l, after_first);
    assert_eq!(l.terminate(&"issuer.near".to_string(), None, 4000), Ok(0));
    assert_eq!(l, after_first);
    assert_eq!(l.claimed_balance, 300);
}

#[test]
fn termination_before_the_start_forfeits_everything() {
    let mut l = terminable(&[(100, 0), (200, 1000)], None);
    assert_eq!(l.terminate(&"issuer.near".to_string(), None, 10), Ok(1000));
    assert_eq!(l.schedule, schedule(&[(10, 0)]));
    assert!(l.is_exhausted());
}

#[test]
fn termination_after_the_end_forfeits_nothing() {
    let mut l = terminable(&[(100, 0), (200, 1000)], None);
    assert_eq!(l.terminate(&"issuer.near".to_string(), None, 200), Ok(0));
    assert_eq!(l.schedule, schedule(&[(100, 0), (200, 1000)]));
}

#[test]
fn disclosed_vesting_schedule_governs_the_termination() {
    let mut l = terminable(
        &[(100, 0), (200, 1000)],
        Some(HashOrSchedule::Schedule(schedule(&[(100, 0), (500, 1000)]))),
    );
    assert_eq!(l.terminate(&"issuer.near".to_string(), None, 200), Ok(750));
    assert_eq!(l.schedule, schedule(&[(100, 0), (200, 250)]));
    assert_eq!(
        l.termination_config,
        Some(TerminationConfig { terminator_id: "issuer.near".to_string(), vesting_schedule: None })
    );
    assert_eq!(l.terminate(&"issuer.near".to_string(), None, 900), Ok(0));
}

#[test]
fn claimed_funds_are_not_clawed_back() {
    let mut l = terminable(
        &[(100, 0), (200, 1000)],
        Some(HashOrSchedule::Schedule(schedule(&[(100, 0), (500, 1000)]))),
    );
    l.claimed_balance = 600;
    assert_eq!(l.terminate(&"issuer.near".to_string(), None, 200), Ok(400));
    assert_eq!(l.schedule, schedule(&[(100, 0), (200, 600)]));
    assert_eq!(l.claimed_balance, 600);
    assert_eq!(l.claimable(200), Ok(0));
    assert!(l.is_exhausted());
}

#[test]
fn fully_claimed_lockup_under_a_stricter_schedule() {
    let mut l = terminable(
        &[(100, 0), (200, 1000)],
        Some(HashOrSchedule::Schedule(schedule(&[(100, 0), (500, 1000)]))),
    );
    l.claimed_balance = 1000;
    assert_eq!(l.terminate(&"issuer.near".to_string(), None, 300), Ok(0));
    assert_eq!(l.schedule, schedule(&[(100, 0), (300, 1000)]));
    assert_eq!(l.claimable(300), Ok(0));
}

#[test]
fn committed_schedule_must_be_revealed() {
    let secret = schedule(&[(100, 0), (500, 1000)]);
    let commitment = secret.hash();
    let mut l = terminable(&[(100, 0), (200, 1000)], Some(HashOrSchedule::Hash(commitment)));
    let before = l.clone();
    assert_eq!(l.terminate(&"issuer.near".to_string(), None, 200), Err(Error::InvalidReveal));
    assert_eq!(
        l.terminate(&"issuer.near".to_string(), Some(schedule(&[(100, 0), (501, 1000)])), 200),
        Err(Error::InvalidReveal)
    );
    assert_eq!(l, before);
    assert_eq!(l.terminate(&"mallory.near".to_string(), Some(secret.clone()), 200), Err(Error::Unauthorized));
    assert_eq!(l.terminate(&"issuer.near".to_string(), Some(secret), 200), Ok(750));
    assert_eq!(l.schedule, schedule(&[(100, 0), (200, 250)]));
    assert_eq!(
        l.termination_config,
        Some(TerminationConfig { terminator_id: "issuer.near".to_string(), vesting_schedule: None })
    );
    assert_eq!(l.terminate(&"issuer.near".to_string(), None, 200), Ok(0));
}

#[test]
fn revealed_schedule_must_grant_the_same_total() {
    let secret = schedule(&[(100, 0), (500, 900)]);
    let commitment = secret.hash();
    let mut l = terminable(&[(100, 0), (200, 1000)], Some(HashOrSchedule::Hash(commitment)));
    let before = l.clone();
    assert_eq!(l.terminate(&"issuer.near".to_string(), Some(secret), 200), Err(Error::ValidationError));
    assert_eq!(l, before);
}

#[test]
fn termination_with_a_given_digest() {
    let secret = schedule(&[(100, 0), (500, 1000)]);
    let mut l = terminable(&[(100, 0), (200, 1000)], Some(HashOrSchedule::Hash([9u8; 32])));
    assert_eq!(
        l.terminate_with_hash(&"issuer.near".to_string(), Some(secret.clone()), None, 200),
        Err(Error::InvalidReveal)
    );
    assert_eq!(
        l.terminate_with_hash(&"issuer.near".to_string(), Some(secret.clone()), Some([8u8; 32]), 200),
        Err(Error::InvalidReveal)
    );
    assert_eq!(
        l.terminate_with_hash(&"issuer.near".to_string(), None, Some([9u8; 32]), 200),
        Err(Error::InvalidReveal)
    );
    assert_eq!(
        l.terminate_with_hash(&"issuer.near".to_string(), Some(secret), Some([9u8; 32]), 200),
        Ok(750)
    );
}

#[test]
fn view_shows_the_amounts() {
    let mut l = lockup(&[(100, 0), (200, 1000)], None);
    l.claimed_balance = 200;
    let view = l.view_at(150);
    assert_eq!(view.account_id, "alice.near");
    assert_eq!(view.total_balance, 1000);
    assert_eq!(view.claimed_balance, 200);
    assert_eq!(view.unlocked_balance, 500);
    assert_eq!(view.unclaimed_balance, 300);
    assert_eq!(view.unvested_balance, 500);
}

#[test]
fn new_lockup_starts_with_nothing_claimed() {
    let l = Lockup::new("alice.near".to_string(), schedule(&[(100, 0), (200, 1000)]), None, 1000);
    assert_eq!(l, Ok(lockup(&[(100, 0), (200, 1000)], None)));
    assert_eq!(
        Lockup::new("alice.near".to_string(), schedule(&[(100, 0), (200, 1000)]), None, 1001),
        Err(Error::ValidationError)
    );
    assert_eq!(
        Lockup::new("alice.near".to_string(), schedule(&[]), None, 0),
        Err(Error::ValidationError)
    );
}
