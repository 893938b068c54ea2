use ft_lockup::ft_token_receiver::FtMessage;
use ft_lockup::ft_token_receiver::FULL_UNLOCK_TIMESTAMP;
use ft_lockup::lockup::Lockup;
use ft_lockup::schedule::Checkpoint;
use ft_lockup::schedule::Schedule;
use ft_lockup::views::LockupView;
use ft_lockup::Contract;
use ft_lockup::SelfCallbacks;

const TOKEN_ID: &str = "token.near";
const OWNER_ID: &str = "owner.near";
const TOKEN_DECIMALS: u8 = 18;

fn d(value: u128, decimals: u8) -> u128 {
    value * 10u128.pow(decimals as u32)
}

/// The ledger together with the clock and the token balances around it.
struct Env {
    contract: Contract,
    now: u32,
    balances: Vec<(String, u128)>,
}

impl Env {
    fn init() -> Self {
        Env {
            contract: Contract::new(TOKEN_ID.to_string(), vec![OWNER_ID.to_string()]),
            now: 0,
            balances: Vec::new(),
        }
    }

    fn set_time_sec(&mut self, now: u32) {
        self.now = now;
    }

    fn get_account_lockups(&self, account: &str) -> Vec<(u32, LockupView)> {
        self.contract.get_account_lockups(&account.to_string(), self.now)
    }

    fn add_batched_lockup(&mut self, sender: &str, amount: u128, batch: &[(String, u128)]) -> u128 {
        let unused = self
            .contract
            .ft_on_transfer(
                &TOKEN_ID.to_string(),
                &sender.to_string(),
                amount,
                FtMessage::CreateInitialLockups(batch.to_vec()),
            )
            .unwrap();
        amount - unused
    }

    fn claim(&mut self, account: &str) -> u128 {
        let amount = self.contract.claim(&account.to_string(), self.now).unwrap();
        self.balances.push((account.to_string(), amount));
        self.contract.after_ft_transfer(&account.to_string(), true).unwrap()
    }

    fn ft_balance_of(&self, account: &str) -> u128 {
        self.balances.iter().filter(|(owner, _)| owner == account).map(|(_, amount)| amount).sum()
    }
}

#[test]
fn test_tge_user() {
    let mut e = Env::init();
    let alice = "alice.near";
    let bob = "bob.near";
    let charlie = "charlie.near";
    let a = d(60000, TOKEN_DECIMALS);
    let b = d(3000, TOKEN_DECIMALS);
    let c = d(25, TOKEN_DECIMALS);
    let tge_timestamp = 1654549079;
    let tge_plus_6_month = 1670349479;
    e.set_time_sec(tge_timestamp);

    let lockups = e.get_account_lockups(alice);
    assert!(lockups.is_empty());

    let arr = vec![(alice.to_string(), a), (bob.to_string(), b), (charlie.to_string(), c)];
    let balance = e.add_batched_lockup(OWNER_ID, a + b + c, &arr);
    assert_eq!(balance, a + b + c);

    let lockups = e.get_account_lockups(alice);
    assert_eq!(lockups.len(), 1);
    assert_eq!(lockups[0].1.total_balance, a);
    assert_eq!(lockups[0].1.unclaimed_balance, 0);

    let lockups = e.get_account_lockups(bob);
    assert_eq!(lockups.len(), 1);
    assert_eq!(lockups[0].1.total_balance, b);
    assert_eq!(lockups[0].1.unclaimed_balance, 0);

    let lockups = e.get_account_lockups(charlie);
    assert_eq!(lockups.len(), 1);
    assert_eq!(lockups[0].1.total_balance, c);
    assert_eq!(lockups[0].1.unclaimed_balance, 0);

    // The lockups of a batch start to unlock later than this.
    e.set_time_sec(tge_plus_6_month);
    let lockups = e.get_account_lockups(alice);
    assert_eq!(lockups.len(), 1);
    assert_eq!(lockups[0].1.total_balance, a);

    e.set_time_sec(FULL_UNLOCK_TIMESTAMP);

    let lockups = e.get_account_lockups(alice);
    assert_eq!(lockups.len(), 1);
    assert_eq!(lockups[0].1.unclaimed_balance, a);

    let res = e.claim(alice);
    assert_eq!(res, a);
    // User's lockups should be empty, since fully claimed.
    let lockups = e.get_account_lockups(alice);
    assert!(lockups.is_empty());
    let balance = e.ft_balance_of(alice);
    assert_eq!(balance, a);

    let res = e.claim(charlie);
    assert_eq!(res, c);
    // User's lockups should be empty, since fully claimed.
    let lockups = e.get_account_lockups(charlie);
    assert!(lockups.is_empty());
    let balance = e.ft_balance_of(charlie);
    assert_eq!(balance, c);

    let res = e.claim(bob);
    assert_eq!(res, b);
    let lockups = e.get_account_lockups(bob);
    assert!(lockups.is_empty());
    let balance = e.ft_balance_of(bob);
    assert_eq!(balance, b);
}

#[test]
fn three_accounts_claim_at_the_cliff() {
    let mut e = Env::init();
    let a = d(60000, TOKEN_DECIMALS);
    let b = d(3000, TOKEN_DECIMALS);
    let c = d(25, TOKEN_DECIMALS);
    let tge_timestamp = 1654549079;
    let tge_plus_6_month = 1670349479;
    let tge_plus_12_month = tge_plus_6_month + (tge_plus_6_month - tge_timestamp);
    e.set_time_sec(tge_timestamp);

    let grants = [("alice.near", a), ("bob.near", b), ("charlie.near", c)];
    for (account, total) in grants.iter() {
        let lockup = Lockup {
            account_id: account.to_string(),
            schedule: Schedule(vec![
                Checkpoint { timestamp: tge_plus_6_month - 1, balance: 0 },
                Checkpoint { timestamp: tge_plus_6_month, balance: total / 4 },
                Checkpoint { timestamp: tge_plus_12_month, balance: *total },
            ]),
            claimed_balance: 0,
            termination_config: None,
        };
        let unused = e
            .contract
            .ft_on_transfer(
                &TOKEN_ID.to_string(),
                &OWNER_ID.to_string(),
                *total,
                FtMessage::CreateLockup(lockup),
            )
            .unwrap();
        assert_eq!(unused, 0);
    }
    assert_eq!(e.contract.locked_balance, a + b + c);

    for (account, total) in grants.iter() {
        let lockups = e.get_account_lockups(account);
        assert_eq!(lockups.len(), 1);
        assert_eq!(lockups[0].1.total_balance, *total);
        assert_eq!(lockups[0].1.unclaimed_balance, 0);
    }

    e.set_time_sec(tge_plus_6_month);
    for (account, total) in grants.iter() {
        let lockups = e.get_account_lockups(account);
        assert_eq!(lockups[0].1.unclaimed_balance, total / 4);
        assert_eq!(e.claim(account), total / 4);
        assert_eq!(e.get_account_lockups(account).len(), 1);
    }

    e.set_time_sec(tge_plus_12_month);
    for (account, total) in grants.iter() {
        let lockups = e.get_account_lockups(account);
        assert_eq!(lockups[0].1.unclaimed_balance, total - total / 4);
        assert_eq!(e.claim(account), total - total / 4);
        assert!(e.get_account_lockups(account).is_empty());
        assert_eq!(e.ft_balance_of(account), *total);
    }
    assert_eq!(e.contract.locked_balance, 0);
}
