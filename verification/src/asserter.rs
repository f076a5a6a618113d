//! Comparisons of values within a tolerance, for checking computed numbers
//! against expected ones.

use vstd::prelude::*;
use vstd::arithmetic::div_mod::{
    lemma_div_is_ordered, lemma_div_multiples_vanish, lemma_mod_multiples_basic,
    lemma_multiply_divide_lt,
};
use crate::common::{abs_diff, bankers_round, bankers_round_spec, rounding_increment};
use crate::error::{agrees, UD60x18Error};
use crate::muldiv::{mul_round, muldiv, muldiv18, muldiv_spec, unit, unit_nat};
use crate::tens::{exp10, lemma_pow10_bounds, pow10};
use crate::u256::{two_256, U256};

verus! {

/// The distance that `close_u128` allows between `a` and `b`: the part of
/// `a` that the relative tolerance `error` stands for, taken above `a`
/// where `a` is the smaller and below it otherwise. The scaled `a` is a
/// fixed-point product, rounded to the nearest.
pub open spec fn close_margin(a: nat, b: nat, error: nat) -> int {
    if a < b {
        mul_round(a, unit_nat() + error) - a
    } else {
        a - mul_round(a, (unit_nat() - error) as nat)
    }
}

/// Scaling `a` up by a factor of at least one gives at least `a`, and the
/// result stays far below 2^256 for a 128-bit `a` and a factor below 2^129.
proof fn lemma_scaled_up(a: nat, factor: nat)
    requires
        a < 0x1_0000_0000_0000_0000_0000_0000_0000_0000int,
        unit_nat() <= factor < 0x2_0000_0000_0000_0000_0000_0000_0000_0000int,
    ensures
        a <= mul_round(a, factor) < two_256(),
{
    let p = a * factor;
    let bound: int = 0x1_0000_0000_0000_0000_0000_0000_0000_0000_0000_0000_0000_0000_0000int;
    assert(a * unit_nat() <= p) by (nonlinear_arith)
        requires
            p == a * factor,
            0 <= a,
            unit_nat() <= factor,
    ;
    assert(p < 0x1_0000_0000_0000_0000_0000_0000_0000_0000int
        * 0x2_0000_0000_0000_0000_0000_0000_0000_0000int) by (nonlinear_arith)
        requires
            p == a * factor,
            0 <= a < 0x1_0000_0000_0000_0000_0000_0000_0000_0000int,
            0 <= factor < 0x2_0000_0000_0000_0000_0000_0000_0000_0000int,
    ;
    assert(p < unit_nat() * bound);
    lemma_div_is_ordered((a * unit_nat()) as int, p as int, unit_nat() as int);
    lemma_div_multiples_vanish(a as int, unit_nat() as int);
    lemma_multiply_divide_lt(p as int, unit_nat() as int, bound);
}

/// Scaling `a` down by a factor of at most one gives at most `a`.
proof fn lemma_scaled_down(a: nat, factor: nat)
    requires
        factor <= unit_nat(),
    ensures
        mul_round(a, factor) <= a,
{
    let p = a * factor;
    if factor == unit_nat() {
        lemma_div_multiples_vanish(a as int, unit_nat() as int);
        lemma_mod_multiples_basic(a as int, unit_nat() as int);
    } else if a == 0 {
        assert(p == 0) by (nonlinear_arith)
            requires
                p == a * factor,
                a == 0,
        ;
    } else {
        assert(0 <= p < unit_nat() * a) by (nonlinear_arith)
            requires
                p == a * factor,
                a >= 1,
                0 <= factor < unit_nat(),
        ;
        lemma_multiply_divide_lt(p as int, unit_nat() as int, a as int);
    }
}

/// The relative deviation of `actual` from `expected` as a fixed-point
/// number, and 0 where `expected` is 0.
pub open spec fn deviation_spec(expected: nat, actual: nat) -> Result<nat, UD60x18Error> {
    if expected == 0 {
        Ok(0)
    } else {
        muldiv_spec(
            (if expected > actual {
                expected - actual
            } else {
                actual - expected
            }) as nat,
            unit_nat(),
            expected,
        )
    }
}

/// The namespace of the comparisons.
pub struct MathAsserter;

impl MathAsserter {
    /// Whether `a` and `b` lie within the relative tolerance `error` of one
    /// another. All three are fixed-point numbers.
    pub fn close_u128(a: u128, b: u128, error: u128) -> (r: bool)
        requires
            a >= b ==> error <= unit_nat(),
        ensures
            r == ((if a > b {
                a - b
            } else {
                b - a
            }) <= close_margin(a as nat, b as nat, error as nat)),
    {
        let wide = U256::new(a);
        let diff = abs_diff(wide, U256::new(b));
        let tolerance = U256::new(error);
        if a < b {
            let factor = unit().add(tolerance);
            proof {
                lemma_scaled_up(a as nat, factor@);
            }
            match muldiv18(wide, factor) {
                Ok(scaled) => diff.le(scaled.sub(wide)),
                Err(_) => false,
            }
        } else {
            let factor = unit().sub(tolerance);
            proof {
                lemma_scaled_down(a as nat, factor@);
            }
            match muldiv18(wide, factor) {
                Ok(scaled) => diff.le(wide.sub(scaled)),
                Err(_) => false,
            }
        }
    }

    /// Whether `actual`, rounded half-to-even at its digit `n`, is
    /// `expected`.
    pub fn close_u256(expected: U256, actual: U256, n: u8) -> (r: bool)
        requires
            1 <= n <= 77,
            actual@ + rounding_increment(actual@, n as nat) < two_256(),
        ensures
            r == (expected@ == bankers_round_spec(actual@, n as nat)),
    {
        let rounded = bankers_round(actual, n);
        proof {
            expected.lemma_view(rounded);
        }
        expected == rounded
    }

    /// Whether `actual` without its lowest `n` digits is `expected`.
    pub fn close_trim_u256(expected: U256, actual: U256, n: u8) -> (r: bool)
        requires
            n <= 77,
        ensures
            r == (expected@ == actual@ / pow10(n as nat)),
    {
        proof {
            lemma_pow10_bounds(n as nat, n as nat);
        }
        let trimmed = actual.div(exp10(n));
        proof {
            expected.lemma_view(trimmed);
        }
        expected == trimmed
    }

    /// Whether the fixed-point number `actual`, cut off after `n` decimals,
    /// is `expected`.
    pub fn close_trim_u256x18(expected: U256, actual: U256, n: u8) -> (r: bool)
        requires
            n <= 18,
        ensures
            r == (expected@ == actual@ / pow10((18 - n) as nat)),
    {
        MathAsserter::close_trim_u256(expected, actual, 18 - n)
    }

    /// Whether `actual`, rounded half-to-even at its lowest digit, is
    /// `expected`.
    pub fn bigint(expected: U256, actual: U256) -> (r: bool)
        requires
            actual@ + rounding_increment(actual@, 1) < two_256(),
        ensures
            r == (expected@ == bankers_round_spec(actual@, 1)),
    {
        MathAsserter::close_u256(expected, actual, 1)
    }

    /// The relative deviation of `actual` from `expected` as a fixed-point
    /// number.
    pub fn get_deviation(expected: U256, actual: U256) -> (r: Result<U256, UD60x18Error>)
        ensures
            agrees(r, deviation_spec(expected@, actual@)),
    {
        if expected.is_zero() {
            return Ok(U256::zero());
        }
        let diff = abs_diff(expected, actual);
        muldiv(diff, unit(), expected)
    }

    /// Whether the relative deviation of `actual` from `expected` is at most
    /// `deviation`, a fixed-point number.
    pub fn within_deviation(expected: U256, actual: U256, deviation: U256) -> (r: Result<
        bool,
        UD60x18Error,
    >)
        ensures
            match (r, deviation_spec(expected@, actual@)) {
                (Ok(within), Ok(d)) => within == (d <= deviation@),
                (Err(e), Err(f)) => e == f,
                _ => false,
            },
    {
        match MathAsserter::get_deviation(expected, actual) {
            Ok(actual_deviation) => Ok(actual_deviation.le(deviation)),
            Err(e) => Err(e),
        }
    }
}

} // verus!
