//! Exact scaling of a token amount by a ratio of durations.

use vstd::prelude::*;
use vstd::arithmetic::div_mod::lemma_fundamental_div_mod;
use vstd::arithmetic::div_mod::lemma_fundamental_div_mod_converse;

verus! {

/// `amount * part / whole`, rounded toward zero, over the integers.
pub open spec fn scale(amount: int, part: int, whole: int) -> int {
    (amount * part) / whole
}

/// A scaled amount never exceeds the amount itself, and is not negative.
pub proof fn lemma_scale_bounds(amount: int, part: int, whole: int)
    requires
        0 <= amount,
        0 <= part <= whole,
        0 < whole,
    ensures
        0 <= scale(amount, part, whole) <= amount,
        part == whole ==> scale(amount, part, whole) == amount,
        part == 0 ==> scale(amount, part, whole) == 0,
{
    assert(0 <= amount * part <= amount * whole) by (nonlinear_arith)
        requires
            0 <= amount,
            0 <= part <= whole,
    ;
    assert((amount * part) / whole <= amount && 0 <= (amount * part) / whole)
        by (nonlinear_arith)
        requires
            0 <= amount * part <= amount * whole,
            0 < whole,
    ;
    if part == whole {
        assert((amount * whole) / whole == amount) by (nonlinear_arith)
            requires
                0 < whole,
        ;
    }
    if part == 0 {
        assert(amount * 0 == 0) by (nonlinear_arith);
    }
}

/// Scaling is monotone in the amount and in the part taken.
pub proof fn lemma_scale_monotone(a1: int, pa: int, a2: int, pb: int, whole: int)
    requires
        0 <= a1 <= a2,
        0 <= pa <= pb,
        0 < whole,
    ensures
        scale(a1, pa, whole) <= scale(a2, pb, whole),
{
    assert(a1 * pa <= a2 * pb) by (nonlinear_arith)
        requires
            0 <= a1 <= a2,
            0 <= pa <= pb,
    ;
    assert((a1 * pa) / whole <= (a2 * pb) / whole) by (nonlinear_arith)
        requires
            a1 * pa <= a2 * pb,
            0 < whole,
    ;
}

/// The quotient of a two-limb product, assembled from the quotients of its limbs.
proof fn lemma_limb_division(
    amount: int,
    hi: int,
    lo: int,
    part: int,
    whole: int,
    q1: int,
    r1: int,
    q2: int,
    r2: int,
)
    requires
        0 < whole,
        amount == hi * 0x1_0000_0000_0000_0000 + lo,
        hi * part == q1 * whole + r1,
        r1 * 0x1_0000_0000_0000_0000 + lo * part == q2 * whole + r2,
        0 <= r2 < whole,
    ensures
        scale(amount, part, whole) == q1 * 0x1_0000_0000_0000_0000 + q2,
{
    let k = 0x1_0000_0000_0000_0000int;
    assert(amount * part == (q1 * k + q2) * whole + r2) by (nonlinear_arith)
        requires
            amount == hi * k + lo,
            hi * part == q1 * whole + r1,
            r1 * k + lo * part == q2 * whole + r2,
    ;
    lemma_fundamental_div_mod_converse(amount * part, whole, q1 * k + q2, r2);
}

/// Computes `amount * part / whole` without losing the high bits of the
/// product, which may need 160 bits.
pub fn mul_div(amount: u128, part: u32, whole: u32) -> (r: u128)
    requires
        part <= whole,
        0 < whole,
    ensures
        r == scale(amount as int, part as int, whole as int),
{
    let hi: u128 = amount / 0x1_0000_0000_0000_0000;
    let lo: u128 = amount % 0x1_0000_0000_0000_0000;
    let p: u128 = part as u128;
    let w: u128 = whole as u128;
    assert(hi * p <= 0xffff_ffff_ffff_ffff * 0xffff_ffff) by (nonlinear_arith)
        requires
            hi <= 0xffff_ffff_ffff_ffff,
            p <= 0xffff_ffff,
    ;
    assert(lo * p <= 0xffff_ffff_ffff_ffff * 0xffff_ffff) by (nonlinear_arith)
        requires
            lo <= 0xffff_ffff_ffff_ffff,
            p <= 0xffff_ffff,
    ;
    let high_product: u128 = hi * p;
    let q1: u128 = high_product / w;
    let r1: u128 = high_product % w;
    let low_product: u128 = r1 * 0x1_0000_0000_0000_0000 + lo * p;
    let q2: u128 = low_product / w;
    proof {
        let r2 = (low_product % w) as int;
        lemma_fundamental_div_mod(high_product as int, w as int);
        lemma_fundamental_div_mod(low_product as int, w as int);
        assert(w * q1 == q1 * w && w * q2 == q2 * w) by (nonlinear_arith);
        lemma_limb_division(
            amount as int,
            hi as int,
            lo as int,
            p as int,
            w as int,
            q1 as int,
            r1 as int,
            q2 as int,
            r2,
        );
        lemma_scale_bounds(amount as int, p as int, w as int);
    }
    q1 * 0x1_0000_0000_0000_0000 + q2
}

} // verus!
