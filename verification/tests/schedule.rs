use ft_lockup::arith::mul_div;
use ft_lockup::hash::hash_eq;
use ft_lockup::schedule::Checkpoint;
use ft_lockup::schedule::Schedule;
use ft_lockup::Error;
use near_sdk::borsh::BorshSerialize;

fn schedule(points: &[(u32, u128)]) -> Schedule {
    Schedule(
        points
            .iter()
            .map(|(timestamp, balance)| Checkpoint { timestamp: *timestamp, balance: *balance })
            .collect(),
    )
}

#[test]
fn linear_schedule_interpolates() {
    let s = schedule(&[(100, 0), (200, 1000)]);
    assert_eq!(s.unlocked_balance(0), 0);
    assert_eq!(s.unlocked_balance(99), 0);
    assert_eq!(s.unlocked_balance(100), 0);
    assert_eq!(s.unlocked_balance(150), 500);
    assert_eq!(s.unlocked_balance(199), 990);
    assert_eq!(s.unlocked_balance(200), 1000);
    assert_eq!(s.unlocked_balance(u32::MAX), 1000);
    assert_eq!(s.total_balance(), 1000);
}

#[test]
fn interpolation_rounds_toward_zero() {
    let s = schedule(&[(0, 0), (3, 10)]);
    assert_eq!(s.unlocked_balance(1), 3);
    assert_eq!(s.unlocked_balance(2), 6);
    assert_eq!(s.unlocked_balance(3), 10);
}

#[test]
fn several_segments() {
    let s = schedule(&[(10, 100), (20, 200), (40, 1000)]);
    assert_eq!(s.unlocked_balance(9), 0);
    assert_eq!(s.unlocked_balance(10), 100);
    assert_eq!(s.unlocked_balance(15), 150);
    assert_eq!(s.unlocked_balance(20), 200);
    assert_eq!(s.unlocked_balance(30), 600);
    assert_eq!(s.unlocked_balance(33), 720);
    assert_eq!(s.unlocked_balance(40), 1000);
    assert_eq!(s.unlocked_balance(41), 1000);
}

#[test]
fn first_checkpoint_at_the_epoch_counts_at_once() {
    let s = schedule(&[(0, 7), (10, 17)]);
    assert_eq!(s.unlocked_balance(0), 7);
    assert_eq!(s.unlocked_balance(5), 12);
}

#[test]
fn products_wider_than_128_bits() {
    let s = schedule(&[(0, 0), (u32::MAX, u128::MAX)]);
    assert_eq!(s.unlocked_balance(1), 79228162532711081671548469249);
    assert_eq!(s.unlocked_balance(u32::MAX - 1), 340282366841710300930663525760219742206);
    assert_eq!(s.unlocked_balance(u32::MAX), u128::MAX);
    let t = schedule(&[(0, 0), (3, u128::MAX)]);
    assert_eq!(t.unlocked_balance(2), 226854911280625642308916404954512140970);
}

#[test]
fn mul_div_is_exact() {
    assert_eq!(mul_div(0, 0, 1), 0);
    assert_eq!(mul_div(10, 1, 3), 3);
    assert_eq!(mul_div(10, 3, 3), 10);
    assert_eq!(mul_div(u128::MAX, 2, 3), 226854911280625642308916404954512140970);
    assert_eq!(mul_div(u128::MAX, u32::MAX, u32::MAX), u128::MAX);
    assert_eq!(mul_div(u128::MAX, u32::MAX - 1, u32::MAX), 340282366841710300930663525760219742206);
    assert_eq!(mul_div(1 << 64, 1, 2), 1 << 63);
}

#[test]
fn unlocked_amount_never_decreases() {
    let s = schedule(&[(10, 100), (20, 200), (40, 1000), (41, 1000), (1000, 123456789)]);
    let mut previous = 0;
    for t in 0..1100u32 {
        let unlocked = s.unlocked_balance(t);
        assert!(unlocked >= previous);
        assert!(unlocked <= s.total_balance());
        previous = unlocked;
    }
    assert_eq!(previous, 123456789);
}

#[test]
fn new_unlocked_is_unlocked_from_the_start() {
    let s = Schedule::new_unlocked(42);
    assert_eq!(s, schedule(&[(0, 42)]));
    assert_eq!(s.unlocked_balance(0), 42);
    assert_eq!(s.unlocked_balance(u32::MAX), 42);
    assert_eq!(s.total_balance(), 42);
    assert_eq!(s.assert_valid(42), Ok(()));
}

#[test]
fn validation_accepts_a_valid_schedule() {
    assert_eq!(schedule(&[(5, 0)]).assert_valid(0), Ok(()));
    assert_eq!(schedule(&[(5, 9)]).assert_valid(9), Ok(()));
    assert_eq!(schedule(&[(1, 0), (2, 0), (3, 5), (9, 5)]).assert_valid(5), Ok(()));
}

#[test]
fn validation_rejects_what_is_malformed() {
    assert_eq!(schedule(&[]).assert_valid(0), Err(Error::ValidationError));
    assert_eq!(schedule(&[(1, 0), (1, 5)]).assert_valid(5), Err(Error::ValidationError));
    assert_eq!(schedule(&[(2, 0), (1, 5)]).assert_valid(5), Err(Error::ValidationError));
    assert_eq!(schedule(&[(1, 6), (2, 5)]).assert_valid(5), Err(Error::ValidationError));
    assert_eq!(schedule(&[(1, 0), (2, 5)]).assert_valid(6), Err(Error::ValidationError));
    assert_eq!(schedule(&[(1, 0), (2, 5)]).assert_valid(4), Err(Error::ValidationError));
    assert_eq!(schedule(&[(1, 0), (2, 5), (3, 4), (4, 5)]).assert_valid(5), Err(Error::ValidationError));
}

#[test]
fn termination_cuts_the_schedule_off() {
    let mut s = schedule(&[(100, 0), (200, 1000), (300, 5000)]);
    let vested = s.unlocked_balance(150);
    assert_eq!(vested, 500);
    s.terminate(150, vested);
    assert_eq!(s, schedule(&[(100, 0), (150, 500)]));
    assert_eq!(s.total_balance(), 500);
    assert_eq!(s.unlocked_balance(150), 500);
    assert_eq!(s.unlocked_balance(200), 500);
    assert_eq!(s.unlocked_balance(u32::MAX), 500);
    assert_eq!(s.assert_valid(500), Ok(()));
}

#[test]
fn termination_at_a_checkpoint_replaces_it() {
    let mut s = schedule(&[(100, 0), (200, 1000), (300, 5000)]);
    s.terminate(200, 1000);
    assert_eq!(s, schedule(&[(100, 0), (200, 1000)]));
    let mut t = schedule(&[(100, 0), (200, 1000)]);
    t.terminate(50, 0);
    assert_eq!(t, schedule(&[(50, 0)]));
    let mut u = schedule(&[(100, 0), (200, 1000)]);
    u.terminate(500, 1000);
    assert_eq!(u, schedule(&[(100, 0), (200, 1000), (500, 1000)]));
}

#[test]
fn clone_copies_the_checkpoints() {
    let s = schedule(&[(100, 0), (200, 1000)]);
    assert_eq!(s.clone(), s);
}

#[test]
fn bytes_are_count_then_checkpoints() {
    assert_eq!(schedule(&[]).to_bytes(), vec![0, 0, 0, 0]);
    assert_eq!(
        schedule(&[(100, 0), (200, 1000)]).to_bytes(),
        vec![
            2, 0, 0, 0, 100, 0, 0, 0, 0, 0, 0, 0, 0, 0, 0, 0, 0, 0, 0, 0, 0, 0, 0, 0, 200, 0, 0, 0,
            232, 3, 0, 0, 0, 0, 0, 0, 0, 0, 0, 0, 0, 0, 0, 0
        ]
    );
}

#[test]
fn bytes_are_the_borsh_encoding() {
    let points: Vec<(u32, u128)> =
        vec![(1694509200, 0), (1757667600, 60000 * 10u128.pow(18)), (u32::MAX, u128::MAX)];
    let expected = points.try_to_vec().unwrap();
    assert_eq!(schedule(&points).to_bytes(), expected);
}

#[test]
fn hash_is_sha256_of_the_bytes() {
    assert_eq!(
        schedule(&[]).hash(),
        [
            223, 63, 97, 152, 4, 169, 47, 219, 64, 87, 25, 45, 196, 61, 215, 72, 234, 119, 138, 220,
            82, 188, 73, 140, 232, 5, 36, 192, 20, 184, 17, 25
        ]
    );
    assert_eq!(
        schedule(&[(100, 0), (200, 1000)]).hash(),
        [
            8, 157, 218, 89, 33, 109, 38, 139, 48, 200, 231, 60, 194, 181, 90, 15, 157, 116, 192,
            254, 56, 163, 121, 150, 103, 7, 98, 100, 137, 166, 97, 30
        ]
    );
    assert_eq!(
        schedule(&[(1694509200, 0), (1757667600, 60000 * 10u128.pow(18))]).try_hash(),
        Some([
            228, 186, 208, 201, 65, 235, 36, 132, 199, 122, 240, 138, 48, 107, 187, 204, 164, 240,
            7, 238, 92, 18, 86, 9, 126, 95, 48, 147, 14, 117, 216, 87
        ])
    );
}

#[test]
fn hash_eq_compares_every_byte() {
    let a = [7u8; 32];
    let mut b = [7u8; 32];
    assert!(hash_eq(&a, &b));
    b[31] = 8;
    assert!(!hash_eq(&a, &b));
    b[31] = 7;
    b[0] = 0;
    assert!(!hash_eq(&a, &b));
}
