//! The arithmetic kernel on plain 256-bit integers: checked sums, averages,
//! decimal digits and banker's rounding, and the position of the highest bit.

use vstd::prelude::*;
use vstd::arithmetic::power2::{pow2, lemma_pow2_adds, lemma_pow2_pos, lemma_pow2_unfold, lemma2_to64};
use vstd::arithmetic::div_mod::{
    lemma_div_multiples_vanish, lemma_fundamental_div_mod, lemma_mod_multiples_basic,
    lemma_multiply_divide_lt, lemma_small_mod,
};
use vstd::arithmetic::mul::{lemma_mul_is_associative, lemma_mul_is_commutative};
use vstd::bits::lemma_u32_shl_is_mul;
use crate::bits::{
    lemma_div_pow2_twice, lemma_msb_unique, lemma_pow2_increases, lemma_pow2_values, msb_spec,
};
use crate::error::UD60x18Error;
use crate::primitives::Asm;
use crate::tens::{lemma_pow10_bounds, pow10};
use crate::u256::{two_256, U256};

pub use crate::exp2::exp2;
pub use crate::muldiv::{muldiv, muldiv18, muldiv_fp};
pub use crate::roots::sqrt;
pub use crate::tens::exp10;

verus! {

/// Whether `x` is odd.
pub fn is_odd(x: U256) -> (r: bool)
    ensures
        r == (x@ % 2 == 1),
{
    x.is_odd()
}

/// `x + y`, or `AddOverflow` where the sum does not fit in 256 bits.
pub fn checked_add(x: U256, y: U256) -> (r: Result<U256, UD60x18Error>)
    ensures
        x@ + y@ < two_256() ==> r.is_ok() && r.unwrap()@ == x@ + y@,
        x@ + y@ >= two_256() ==> r == Err::<U256, UD60x18Error>(
            UD60x18Error::AddOverflow(x, y),
        ),
{
    match x.checked_add(y) {
        Some(sum) => Ok(sum),
        None => Err(UD60x18Error::AddOverflow(x, y)),
    }
}

/// `x - y`, or `SubUnderflow` where `y` is larger than `x`.
pub fn checked_sub(x: U256, y: U256) -> (r: Result<U256, UD60x18Error>)
    ensures
        y@ <= x@ ==> r.is_ok() && r.unwrap()@ == x@ - y@,
        y@ > x@ ==> r == Err::<U256, UD60x18Error>(UD60x18Error::SubUnderflow(x, y)),
{
    if y.gt(x) {
        Err(UD60x18Error::SubUnderflow(x, y))
    } else {
        Ok(x.sub(y))
    }
}

/// The arithmetic mean of `x` and `y`, rounded down.
pub fn avg(x: U256, y: U256) -> (r: U256)
    ensures
        r@ == (x@ + y@) / 2,
{
    proof {
        lemma2_to64();
    }
    let mut result = x.shr(1).add(y.shr(1));
    if is_odd(x) && is_odd(y) {
        result = result.add(U256::one());
    }
    result
}

/// The distance between `x` and `y`.
pub fn abs_diff(x: U256, y: U256) -> (r: U256)
    ensures
        r@ == (if x@ > y@ { x@ - y@ } else { y@ - x@ }),
{
    if x.gt(y) {
        x.sub(y)
    } else {
        y.sub(x)
    }
}

/// The decimal digit of `x` at position `digit`, counted from 1 at the
/// lowest digit.
pub open spec fn digit_at(x: nat, digit: nat) -> nat {
    (x / pow10((digit - 1) as nat)) % 10
}

/// Whether banker's rounding at `digit` rounds `x` up: the digit below the
/// rounding point is above 5, or it is 5 and the digit that is kept is odd.
pub open spec fn rounds_up(x: nat, digit: nat) -> bool {
    let n = digit_at(x, digit);
    if n == 5 {
        digit_at(x, digit + 1) % 2 != 0
    } else {
        n > 5
    }
}

/// What banker's rounding at `digit` adds to `x` before it cuts off the
/// lowest `digit` digits.
pub open spec fn rounding_increment(x: nat, digit: nat) -> nat {
    if rounds_up(x, digit) {
        pow10(digit)
    } else {
        0
    }
}

/// `x` rounded half-to-even to a multiple of `10^digit`.
pub open spec fn bankers_round_spec(x: nat, digit: nat) -> nat {
    ((x + rounding_increment(x, digit)) / pow10(digit)) * pow10(digit)
}

/// The decimal digit of `x` at position `digit`, counted from 1 at the
/// lowest digit.
pub fn nth_digit(x: U256, digit: u8) -> (r: u8)
    requires
        1 <= digit <= 78,
    ensures
        r == digit_at(x@, digit as nat),
        r < 10,
{
    proof {
        lemma_pow10_bounds((digit - 1) as nat, (digit - 1) as nat);
    }
    let shifted = x.div(exp10(digit - 1));
    let d = shifted.rem(U256::new(10));
    proof {
        lemma_small_mod(d@, 256);
    }
    d.as_u8()
}

/// Rounds `x` half-to-even to a multiple of `10^digit`.
pub fn bankers_round(x: U256, digit: u8) -> (r: U256)
    requires
        1 <= digit <= 77,
        x@ + rounding_increment(x@, digit as nat) < two_256(),
    ensures
        r@ == bankers_round_spec(x@, digit as nat),
{
    let n = nth_digit(x, digit);
    let round_up = if n == 5 {
        let next_digit = nth_digit(x, digit + 1);
        next_digit % 2 != 0
    } else {
        n > 5
    };
    let precision = exp10(digit);
    proof {
        lemma_pow10_bounds(digit as nat, digit as nat);
    }
    let sum = x.add(
        if round_up {
            precision
        } else {
            U256::zero()
        },
    );
    let q = sum.div(precision);
    proof {
        lemma_fundamental_div_mod(sum@ as int, precision@ as int);
        lemma_mul_is_commutative(q@ as int, precision@ as int);
    }
    q.mul(precision)
}

/// Rounds `x` half-to-even to a multiple of `10^digit`, or returns `None`
/// where `digit` is not between 1 and 77 or the rounded value does not fit
/// in 256 bits.
pub fn checked_bankers_round(x: U256, digit: u8) -> (r: Option<U256>)
    ensures
        match r {
            Some(rounded) => 1 <= digit <= 77 && x@ + rounding_increment(x@, digit as nat)
                < two_256() && rounded@ == bankers_round_spec(x@, digit as nat),
            None => !(1 <= digit <= 77) || x@ + rounding_increment(x@, digit as nat)
                >= two_256(),
        },
{
    if digit < 1 || digit > 77 {
        return None;
    }
    let n = nth_digit(x, digit);
    let round_up = if n == 5 {
        nth_digit(x, digit + 1) % 2 != 0
    } else {
        n > 5
    };
    let increment = if round_up {
        exp10(digit)
    } else {
        U256::zero()
    };
    match x.checked_add(increment) {
        Some(_) => Some(bankers_round(x, digit)),
        None => None,
    }
}

/// Rounding a rounded value again changes nothing.
pub proof fn lemma_bankers_round_idempotent(x: nat, digit: nat)
    requires
        digit >= 1,
    ensures
        bankers_round_spec(bankers_round_spec(x, digit), digit) == bankers_round_spec(x, digit),
{
    let p = pow10(digit);
    let low = pow10((digit - 1) as nat);
    let q = (x + rounding_increment(x, digit)) / p;
    let r = bankers_round_spec(x, digit);
    lemma_pow10_bounds((digit - 1) as nat, digit);
    assert(p == 10 * low);
    assert(r == q * p);
    // `r / low` is `q * 10`, whose last digit is 0
    assert(r == (q * 10) * low) by {
        lemma_mul_is_associative(q as int, 10, low as int);
    }
    lemma_div_multiples_vanish((q * 10) as int, low as int);
    lemma_mul_is_commutative((q * 10) as int, low as int);
    assert(r / low == q * 10);
    lemma_mod_multiples_basic(q as int, 10);
    assert(digit_at(r, digit) == 0);
    assert(rounding_increment(r, digit) == 0);
    lemma_div_multiples_vanish(q as int, p as int);
    lemma_mul_is_commutative(q as int, p as int);
    assert(r / p == q);
}

/// The zero-based index of the highest set bit of `x`, and 0 for 0.
///
/// Halves the range in which the bit is sought eight times, from 128 bits
/// down to 1.
pub fn most_significant_bit(x: U256) -> (r: U256)
    ensures
        r@ == msb_spec(x@),
        r@ < 256,
{
    let mut v = x;
    let mut msb: u32 = 0;
    let mut k: u32 = 8;
    proof {
        lemma_pow2_values();
    }
    while k > 0
        invariant
            k <= 8,
            v@ < pow2(pow2(k as nat)),
            v@ == x@ / pow2(msb as nat),
            msb + pow2(k as nat) <= 256,
            x@ > 0 ==> v@ >= 1,
            x@ == 0 ==> msb == 0,
        decreases k,
    {
        k = k - 1;
        proof {
            lemma_pow2_values();
            lemma_pow2_increases(k as nat, 7);
            lemma2_to64();
            lemma_pow2_unfold((k + 1) as nat);
            lemma_u32_shl_is_mul(1, k);
        }
        let s: u32 = 1u32 << k;
        assert(s == pow2(k as nat));
        proof {
            lemma_pow2_increases(s as nat, 128);
            lemma_pow2_adds(s as nat, s as nat);
            lemma_small_mod(pow2(s as nat), two_256());
        }
        let threshold = U256::one().shl(s);
        if v.ge(threshold) {
            proof {
                lemma_multiply_divide_lt(v@ as int, pow2(s as nat) as int, pow2(s as nat) as int);
                lemma_div_pow2_twice(x@, msb as nat, s as nat);
                let p = pow2(s as nat);
                assert(v@ / p >= 1) by (nonlinear_arith)
                    requires
                        v@ >= p,
                        p > 0,
                ;
            }
            v = v.shr(s);
            msb = msb + s;
        }
    }
    proof {
        lemma2_to64();
        if x@ > 0 {
            lemma_pow2_pos(msb as nat);
            lemma_pow2_unfold((msb + 1) as nat);
            let p = pow2(msb as nat);
            assert(p <= x@ < 2 * p) by (nonlinear_arith)
                requires
                    x@ / p == 1,
                    p > 0,
            ;
            lemma_msb_unique(x@, msb as nat);
        }
    }
    U256::new(msb as u128)
}

/// What one halving step of `msb` records for `x`: `2^k` where `x` has a bit
/// at position `2^k` or above, else 0.
pub open spec fn msb_factor(x: nat, k: nat) -> nat {
    if x >= pow2(pow2(k)) {
        pow2(k)
    } else {
        0
    }
}

/// One halving step of `msb`. Compares `x` with `2^(2^k) - 1`, turns the
/// outcome into a shift of `2^k` or 0, shifts `x` down by it and sets the
/// shift's bit in `result`.
fn msb_step(x: U256, result: U256, k: u32) -> (r: (U256, U256))
    requires
        k < 8,
        x@ < pow2(pow2((k + 1) as nat)),
        result.hi == 0,
        result.lo < 256,
        result.lo & ((2 * pow2(k as nat) - 1) as u128) == 0,
    ensures
        r.0@ == x@ / pow2(msb_factor(x@, k as nat)),
        r.0@ < pow2(pow2(k as nat)),
        r.1@ == result@ + msb_factor(x@, k as nat),
        r.1.hi == 0,
        r.1.lo < 256,
        r.1.lo & ((pow2(k as nat) - 1) as u128) == 0,
{
    proof {
        lemma_pow2_values();
        lemma2_to64();
        lemma_pow2_increases(k as nat, 7);
        lemma_pow2_unfold((k + 1) as nat);
        lemma_u32_shl_is_mul(1, k);
    }
    let s: u32 = 1u32 << k;
    proof {
        lemma_pow2_increases(s as nat, 128);
        lemma_pow2_adds(s as nat, s as nat);
        lemma_small_mod(pow2(s as nat), two_256());
    }
    let threshold = U256::one().shl(s).sub(U256::one());
    let above = Asm::gt(x, threshold);
    proof {
        lemma_small_mod(above@ * pow2(k as nat), two_256());
    }
    let factor = Asm::shl(U256::new(k as u128), above);
    assert(factor@ == msb_factor(x@, k as nat));
    proof {
        lemma_small_mod(factor@, 0x1_0000_0000);
        if factor@ != 0 {
            lemma_multiply_divide_lt(x@ as int, pow2(s as nat) as int, pow2(s as nat) as int);
        }
    }
    let shifted = x.shr(factor.as_u32());
    let merged = Asm::or(result, factor);
    proof {
        let a = result.lo;
        let f = factor.lo;
        let p = pow2(k as nat) as u128;
        assert(p == 1 || p == 2 || p == 4 || p == 8 || p == 16 || p == 32 || p == 64 || p == 128);
        assert((a | f) == a + f && (a | f) < 256 && (a | f) & ((p - 1) as u128) == 0)
            by (bit_vector)
            requires
                p == 1 || p == 2 || p == 4 || p == 8 || p == 16 || p == 32 || p == 64 || p
                    == 128,
                a & ((2 * p - 1) as u128) == 0,
                a < 256,
                f == 0 || f == p,
        ;
        assert(0u128 | 0u128 == 0u128) by (bit_vector);
    }
    (shifted, merged)
}

/// The zero-based index of the highest set bit of `x`, and 0 for 0.
///
/// Works without branches: each of eight comparisons yields 0 or 1, which is
/// shifted into the amount by which `x` moves down and into a bit of the
/// result.
pub fn msb(x: U256) -> (r: U256)
    ensures
        r@ == msb_spec(x@),
        r@ < 256,
{
    let mut v = x;
    let mut result = U256::zero();
    let mut k: u32 = 8;
    proof {
        lemma_pow2_values();
        assert(0u128 & 255u128 == 0) by (bit_vector);
    }
    while k > 0
        invariant
            k <= 8,
            v@ < pow2(pow2(k as nat)),
            v@ == x@ / pow2(result@),
            result@ + pow2(k as nat) <= 256,
            result.hi == 0,
            result.lo < 256,
            k > 0 ==> result.lo & ((pow2(k as nat) - 1) as u128) == 0,
            x@ > 0 ==> v@ >= 1,
            x@ == 0 ==> result@ == 0,
        decreases k,
    {
        k = k - 1;
        proof {
            lemma_pow2_unfold((k + 1) as nat);
            lemma_pow2_pos(k as nat);
            lemma_pow2_pos(pow2(k as nat));
            lemma_div_pow2_twice(x@, result@, msb_factor(v@, k as nat));
            if v@ >= pow2(pow2(k as nat)) {
                let p = pow2(pow2(k as nat));
                assert(v@ / p >= 1) by (nonlinear_arith)
                    requires
                        v@ >= p,
                        p > 0,
                ;
            } else {
                lemma2_to64();
            }
        }
        let (shifted, merged) = msb_step(v, result, k);
        v = shifted;
        result = merged;
    }
    proof {
        lemma2_to64();
        if x@ > 0 {
            lemma_pow2_pos(result@);
            lemma_pow2_unfold(result@ + 1);
            let p = pow2(result@);
            assert(p <= x@ < 2 * p) by (nonlinear_arith)
                requires
                    x@ / p == 1,
                    p > 0,
            ;
            lemma_msb_unique(x@, result@);
        }
    }
    result
}

} // verus!
