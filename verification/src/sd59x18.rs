//! The signed 59.18-decimal fixed-point domain: a signed 256-bit integer `v`
//! stands for the number `v / 10^18`.
//!
//! Every operation takes the magnitudes of its operands, computes on them in
//! the unsigned domain, and puts the sign back.

use vstd::prelude::*;
use vstd::arithmetic::div_mod::{
    lemma_div_is_ordered, lemma_div_multiples_vanish, lemma_multiply_divide_lt,
};
use crate::constants::{
    log2_e, unit_squared, EXP2_LIMIT_U128, EXP_LIMIT_U128, LOG2_E_U128,
};
use crate::error::{agrees_signed, SD59x18Error};
use crate::exp2::{exp2_spec, lemma_exp2_spec_bounds};
use crate::i256::{div_toward_zero, magnitude, two_255, I256};
use crate::muldiv::{half_unit, muldiv_fp, muldiv_fp_spec, unit, unit_nat};
use crate::roots::isqrt;
use crate::u256::U256;
use crate::ud60x18::{lemma_log2_bound, log2_value};
use crate::wide::two_64;

verus! {

/// The least exponent for which `exp2` is not zero, negated.
pub const EXP2_ZERO_BELOW_U128: u128 = 59_794_705_707_972_522_261u128;

/// The least exponent for which `exp` is not zero, negated.
pub const EXP_ZERO_BELOW_U128: u128 = 41_446_531_673_892_822_322u128;

/// The largest number that can be multiplied by the unit, as a number.
#[verifier::inline]
pub open spec fn max_scaled_signed() -> nat {
    57896044618658097711785492504343953926634992332820282019728nat
}

/// One as a signed fixed-point number: the unit.
pub fn scale() -> (r: I256)
    ensures
        r@ == unit_nat(),
{
    I256::from_u256(unit())
}

/// The largest signed fixed-point number, 2^255 - 1.
pub fn max_sd59x18() -> (r: I256)
    ensures
        r@ == two_255() - 1,
{
    I256::max_value()
}

/// The smallest signed fixed-point number, -2^255.
pub fn min_sd59x18() -> (r: I256)
    ensures
        r@ == -(two_255() as int),
{
    I256::min_value()
}

/// The largest whole signed fixed-point number.
pub fn max_whole_sd59x18() -> (r: I256)
    ensures
        r@ == 57896044618658097711785492504343953926634992332820282019728000000000000000000int,
{
    I256::from_words(
        170141183460469231731687303715884105727i128,
        340282366920938463462582603475203391488u128,
    )
}

/// The smallest whole signed fixed-point number.
pub fn min_whole_sd59x18() -> (r: I256)
    ensures
        r@ == -57896044618658097711785492504343953926634992332820282019728000000000000000000int,
{
    I256::from_words(-170141183460469231731687303715884105728i128, 792003956564819968u128)
}

/// What `mul` returns: the product of the magnitudes, rounded to the
/// nearest, with the sign of the product. It fails where a factor is the
/// smallest signed number, where the product of the magnitudes fails, and
/// where that product is above the largest signed number.
pub open spec fn mul_spec(x: int, y: int) -> Result<int, SD59x18Error> {
    if x == -(two_255() as int) || y == -(two_255() as int) {
        Err(SD59x18Error::MulInputTooSmall(I256::from_int(x)))
    } else {
        match muldiv_fp_spec(magnitude(x), magnitude(y)) {
            Ok(m) => if m >= two_255() {
                Err(SD59x18Error::MulOverflow(U256::from_nat(m)))
            } else if (x < 0) != (y < 0) {
                Ok(-(m as int))
            } else {
                Ok(m as int)
            },
            Err(e) => Err(SD59x18Error::Magnitude(e)),
        }
    }
}

/// `x * y` on signed fixed-point numbers.
pub fn mul(x: I256, y: I256) -> (r: Result<I256, SD59x18Error>)
    ensures
        agrees_signed(r, mul_spec(x@, y@)),
{
    let min = I256::min_value();
    proof {
        x.lemma_view(min);
        y.lemma_view(min);
        x.lemma_from_view();
    }
    if x == min || y == min {
        return Err(SD59x18Error::MulInputTooSmall(x));
    }
    let ax = x.unsigned_abs();
    let ay = y.unsigned_abs();
    let r_abs = match muldiv_fp(ax, ay) {
        Ok(product) => product,
        Err(e) => {
            return Err(SD59x18Error::Magnitude(e));
        },
    };
    proof {
        r_abs.lemma_from_view();
    }
    if r_abs.gt(I256::max_value().as_u256()) {
        return Err(SD59x18Error::MulOverflow(r_abs));
    }
    Ok(I256::from_sign_magnitude(x.is_negative() != y.is_negative(), r_abs))
}

/// What `exp2` returns. For `x >= 0` it is two to the power of `x`, and
/// `Exp2InputTooBig` from 192 on. For `x < 0` it is the inverse of two to
/// the power of `-x`, and 0 once that inverse is below the smallest
/// positive number.
pub open spec fn exp2_spec_signed(x: int) -> Result<int, SD59x18Error> {
    if x < 0 {
        if x < -(EXP2_ZERO_BELOW_U128 as int) {
            Ok(0)
        } else {
            Ok(
                ((unit_nat() * unit_nat()) / exp2_spec(((-x) as nat * two_64()) / unit_nat()))
                    as int,
            )
        }
    } else if x >= EXP2_LIMIT_U128 {
        Err(SD59x18Error::Exp2InputTooBig(I256::from_int(x)))
    } else {
        Ok(exp2_spec((x as nat * two_64()) / unit_nat()) as int)
    }
}

/// Two to the power of the signed fixed-point number `x`.
pub fn exp2(x: I256) -> (r: Result<I256, SD59x18Error>)
    ensures
        agrees_signed(r, exp2_spec_signed(x@)),
{
    let exponent = x.unsigned_abs();
    proof {
        x.lemma_from_view();
        if exponent@ < EXP2_LIMIT_U128 {
            lemma_multiply_divide_lt(
                (exponent@ * two_64()) as int,
                unit_nat() as int,
                (192 * two_64()) as int,
            );
            lemma_exp2_spec_bounds((exponent@ * two_64()) / unit_nat());
        }
    }
    if x.is_negative() {
        // 2^59.794705707972522262 is the largest power whose inverse is not
        // cut down to zero
        if exponent.gt(U256::new(EXP2_ZERO_BELOW_U128)) {
            return Ok(I256::zero());
        }
        match crate::ud60x18::exp2(exponent) {
            Ok(power) => {
                proof {
                    lemma_div_is_ordered(
                        unit_nat() as int,
                        power@ as int,
                        unit_nat() as int,
                    );
                    vstd::arithmetic::div_mod::lemma_div_is_ordered_by_denominator(
                        (unit_nat() * unit_nat()) as int,
                        unit_nat() as int,
                        power@ as int,
                    );
                }
                Ok(I256::from_sign_magnitude(false, unit_squared().div(power)))
            },
            Err(e) => Err(SD59x18Error::Magnitude(e)),
        }
    } else {
        match crate::ud60x18::exp2(exponent) {
            Ok(power) => Ok(I256::from_sign_magnitude(false, power)),
            Err(_) => Err(SD59x18Error::Exp2InputTooBig(x)),
        }
    }
}

/// What `exp` returns: e to the power of `x`, as two to the power of `x`
/// times log2(e); 0 below -41.45; and `ExpInputTooBig` above 133.08.
pub open spec fn exp_spec_signed(x: int) -> Result<int, SD59x18Error> {
    if x < -(EXP_ZERO_BELOW_U128 as int) {
        Ok(0)
    } else if x >= EXP_LIMIT_U128 {
        Err(SD59x18Error::ExpInputTooBig(I256::from_int(x)))
    } else {
        exp2_spec_signed(
            div_toward_zero(x * (LOG2_E_U128 as int) + unit_nat() / 2, unit_nat() as int),
        )
    }
}

/// e to the power of the signed fixed-point number `x`.
pub fn exp(x: I256) -> (r: Result<I256, SD59x18Error>)
    ensures
        agrees_signed(r, exp_spec_signed(x@)),
{
    let exponent = x.unsigned_abs();
    let negative = x.is_negative();
    proof {
        x.lemma_from_view();
    }
    // below this the exponent handed to exp2 would be below -59.79
    if negative && exponent.gt(U256::new(EXP_ZERO_BELOW_U128)) {
        return Ok(I256::zero());
    }
    // above this the exponent handed to exp2 would be 192 or more
    if !negative && exponent.ge(U256::new(EXP_LIMIT_U128)) {
        return Err(SD59x18Error::ExpInputTooBig(x));
    }
    let product = exponent.mul(log2_e());
    assert(x@ * (LOG2_E_U128 as int) == (if negative {
        -(product@ as int)
    } else {
        product@ as int
    })) by (nonlinear_arith)
        requires
            product@ == exponent@ * (LOG2_E_U128 as nat),
            exponent@ == (if negative {
                -x@
            } else {
                x@
            }),
    ;
    let scaled = if !negative {
        I256::from_sign_magnitude(false, product.add(half_unit()).div(unit()))
    } else if product.le(half_unit()) {
        I256::zero()
    } else {
        I256::from_sign_magnitude(true, product.sub(half_unit()).div(unit()))
    };
    self::exp2(scaled)
}

/// What `log2` returns: the binary logarithm of `x`; for `x` below one the
/// negated logarithm of its inverse; and `LogInputTooSmall` for 0 and below.
pub open spec fn log2_spec_signed(x: int) -> Result<int, SD59x18Error> {
    if x <= 0 {
        Err(SD59x18Error::LogInputTooSmall(I256::from_int(x)))
    } else if x >= unit_nat() {
        Ok(log2_value(x as nat) as int)
    } else {
        Ok(-(log2_value((unit_nat() * unit_nat()) / (x as nat)) as int))
    }
}

/// The binary logarithm of the signed fixed-point number `x`.
pub fn log2(x: I256) -> (r: Result<I256, SD59x18Error>)
    ensures
        agrees_signed(r, log2_spec_signed(x@)),
{
    proof {
        x.lemma_from_view();
    }
    if x.is_negative() || x.is_zero() {
        return Err(SD59x18Error::LogInputTooSmall(x));
    }
    let operand = x.unsigned_abs();
    // log2(x) = -log2(1 / x)
    let inverted = operand.lt(unit());
    let normal = if inverted {
        proof {
            assert(operand@ * unit_nat() <= unit_nat() * unit_nat()) by (nonlinear_arith)
                requires
                    operand@ <= unit_nat(),
            ;
            assert(0 <= operand@ * unit_nat()) by (nonlinear_arith);
            lemma_div_is_ordered(
                (operand@ * unit_nat()) as int,
                (unit_nat() * unit_nat()) as int,
                operand@ as int,
            );
            lemma_div_multiples_vanish(unit_nat() as int, operand@ as int);
            assert(operand@ * unit_nat() == unit_nat() * operand@) by (nonlinear_arith);
        }
        unit_squared().div(operand)
    } else {
        operand
    };
    match crate::ud60x18::log2(normal) {
        Ok(l) => {
            proof {
                lemma_log2_bound(normal@);
            }
            Ok(I256::from_sign_magnitude(inverted, l))
        },
        Err(e) => Err(SD59x18Error::Magnitude(e)),
    }
}

/// What `ln` returns: the binary logarithm of `x` divided by log2(e),
/// rounded toward zero.
pub open spec fn ln_spec_signed(x: int) -> Result<int, SD59x18Error> {
    match log2_spec_signed(x) {
        Ok(l) => Ok(div_toward_zero(l * unit_nat(), LOG2_E_U128 as int)),
        Err(e) => Err(e),
    }
}

/// The natural logarithm of the signed fixed-point number `x`.
pub fn ln(x: I256) -> (r: Result<I256, SD59x18Error>)
    ensures
        agrees_signed(r, ln_spec_signed(x@)),
{
    match self::log2(x) {
        Ok(l) => {
            proof {
                if x@ >= unit_nat() {
                    lemma_log2_bound(x@ as nat);
                } else {
                    let operand = x@ as nat;
                    assert(operand * unit_nat() <= unit_nat() * unit_nat()) by (nonlinear_arith)
                        requires
                            operand <= unit_nat(),
                    ;
                    assert(0 <= operand * unit_nat()) by (nonlinear_arith);
                    lemma_div_is_ordered(
                        (operand * unit_nat()) as int,
                        (unit_nat() * unit_nat()) as int,
                        operand as int,
                    );
                    lemma_div_multiples_vanish(unit_nat() as int, operand as int);
                    assert(operand * unit_nat() == unit_nat() * operand) by (nonlinear_arith);
                    vstd::arithmetic::div_mod::lemma_div_nonincreasing(
                        (unit_nat() * unit_nat()) as int,
                        operand as int,
                    );
                    lemma_log2_bound((unit_nat() * unit_nat()) / operand);
                }
            }
            let size = l.unsigned_abs();
            let negative = l.is_negative();
            assert(size@ * unit_nat() < two_255()) by (nonlinear_arith)
                requires
                    size@ <= 256 * unit_nat(),
            ;
            assert(l@ * unit_nat() == (if negative {
                -((size@ * unit_nat()) as int)
            } else {
                (size@ * unit_nat()) as int
            })) by (nonlinear_arith)
                requires
                    size@ == (if negative {
                        -l@
                    } else {
                        l@
                    }),
            ;
            proof {
                vstd::arithmetic::div_mod::lemma_div_nonincreasing(
                    (size@ * unit_nat()) as int,
                    LOG2_E_U128 as int,
                );
            }
            Ok(I256::from_sign_magnitude(negative, size.mul(unit()).div(log2_e())))
        },
        Err(e) => Err(e),
    }
}

/// What `pow` returns: two to the power of `y` times the binary logarithm
/// of `x`; for `x = 0` it is one where `y` is 0 and 0 otherwise.
pub open spec fn pow_spec_signed(x: int, y: int) -> Result<int, SD59x18Error> {
    if x == 0 {
        if y == 0 {
            Ok(unit_nat() as int)
        } else {
            Ok(0)
        }
    } else {
        match log2_spec_signed(x) {
            Ok(l) => match mul_spec(l, y) {
                Ok(product) => exp2_spec_signed(product),
                Err(e) => Err(e),
            },
            Err(e) => Err(e),
        }
    }
}

/// `x` to the power of `y`, both signed fixed-point numbers.
pub fn pow(x: I256, y: I256) -> (r: Result<I256, SD59x18Error>)
    ensures
        agrees_signed(r, pow_spec_signed(x@, y@)),
{
    if x.is_zero() {
        if y.is_zero() {
            Ok(self::scale())
        } else {
            Ok(I256::zero())
        }
    } else {
        match self::log2(x) {
            Ok(l) => match self::mul(l, y) {
                Ok(product) => self::exp2(product),
                Err(e) => Err(e),
            },
            Err(e) => Err(e),
        }
    }
}

/// What `sqrt` returns: the root of `x` times the unit, rounded down;
/// `SqrtNegativeInput` below 0; and `SqrtOverflow` where `x` times the unit
/// is above the largest signed number.
pub open spec fn sqrt_spec_signed(x: int) -> Result<int, SD59x18Error> {
    if x < 0 {
        Err(SD59x18Error::SqrtNegativeInput(I256::from_int(x)))
    } else if x > max_scaled_signed() {
        Err(SD59x18Error::SqrtOverflow(I256::from_int(x)))
    } else {
        Ok(isqrt(x as nat * unit_nat()) as int)
    }
}

/// The square root of the signed fixed-point number `x`, rounded down.
pub fn sqrt(x: I256) -> (r: Result<I256, SD59x18Error>)
    ensures
        agrees_signed(r, sqrt_spec_signed(x@)),
{
    proof {
        x.lemma_from_view();
    }
    if x.is_negative() {
        return Err(SD59x18Error::SqrtNegativeInput(x));
    }
    let operand = x.unsigned_abs();
    if operand.gt(I256::max_value().unsigned_abs().div(unit())) {
        return Err(SD59x18Error::SqrtOverflow(x));
    }
    // the root of a product of two fixed-point numbers carries one unit
    let root = crate::roots::sqrt(operand.mul(unit()));
    proof {
        let s = root@;
        if s >= two_255() {
            assert(s * s >= two_255()) by (nonlinear_arith)
                requires
                    s >= two_255(),
            ;
        }
    }
    Ok(I256::from_sign_magnitude(false, root))
}

} // verus!
