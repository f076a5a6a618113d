//! The unsigned 60.18-decimal fixed-point domain: a 256-bit integer `v`
//! stands for the number `v / 10^18`.

use vstd::prelude::*;
use vstd::arithmetic::power2::{pow2, lemma_pow2_pos, lemma2_to64};
use vstd::arithmetic::div_mod::{
    lemma_div_is_ordered, lemma_div_multiples_vanish, lemma_fundamental_div_mod, lemma_mod_bound,
    lemma_multiply_divide_lt, lemma_small_mod,
};
use crate::bits::{lemma_pow2_increases, lemma_pow2_values};
use crate::constants::{
    log2_10, log2_e, max_scaled_nat, max_scaled_ud60x18, max_whole_nat, max_whole_ud60x18,
    unit_squared, EXP2_LIMIT_U128, EXP_LIMIT_U128, LOG2_10_U128, LOG2_E_U128, PI_U128,
};
use crate::error::{agrees, UD60x18Error};
use crate::exp2::exp2_spec;
use crate::muldiv::{
    half_unit, muldiv, muldiv_fp, muldiv_fp_spec, muldiv_spec, unit, unit_nat, HALF_UNIT_U128,
    UNIT_U128,
};
use crate::primitives::Asm;
use crate::roots::isqrt;
use crate::u256::{two_256, U256};
use crate::wide::two_64;

verus! {

/// The arithmetic mean of `x` and `y`, rounded down.
///
/// Adds what the operands share to half of what they differ in, which cannot
/// overflow.
pub fn avg(x: U256, y: U256) -> (r: U256)
    ensures
        r@ == (x@ + y@) / 2,
{
    let shared = x.bitand(y);
    let differing = x.bitxor(y);
    proof {
        let (a, b) = (x.hi, y.hi);
        let (c, d) = (x.lo, y.lo);
        assert(a + b == 2 * (a & b) + (a ^ b)) by (bit_vector);
        assert(c + d == 2 * (c & d) + (c ^ d)) by (bit_vector);
        assert(x@ + y@ == 2 * shared@ + differing@);
        lemma2_to64();
    }
    shared.add(differing.shr(1))
}

/// What `ceil` returns: the least whole number at or above `x`, and
/// `CeilOverflow` where `x` lies above the largest whole number.
pub open spec fn ceil_spec(x: nat) -> Result<nat, UD60x18Error> {
    if x > max_whole_nat() {
        Err(UD60x18Error::CeilOverflow(U256::from_nat(x)))
    } else if x % unit_nat() == 0 {
        Ok(x)
    } else {
        Ok((x - x % unit_nat() + unit_nat()) as nat)
    }
}

/// The least whole fixed-point number at or above `x`.
pub fn ceil(x: U256) -> (r: Result<U256, UD60x18Error>)
    ensures
        agrees(r, ceil_spec(x@)),
{
    proof {
        x.lemma_from_view();
    }
    if x.gt(max_whole_ud60x18()) {
        return Err(UD60x18Error::CeilOverflow(x));
    }
    let remainder = x.rem(unit());
    let delta = unit().sub(remainder);
    let factor = Asm::gt(remainder, U256::zero());
    assert(delta@ * factor@ == (if remainder@ > 0 {
        delta@
    } else {
        0
    })) by (nonlinear_arith)
        requires
            factor@ == (if remainder@ > 0 {
                1nat
            } else {
                0nat
            }),
    ;
    Ok(x.add(delta.mul(factor)))
}

/// The greatest whole fixed-point number at or below `x`.
pub fn floor(x: U256) -> (r: U256)
    ensures
        r@ == x@ - x@ % unit_nat(),
{
    let remainder = x.rem(unit());
    let factor = Asm::gt(remainder, U256::zero());
    assert(remainder@ * factor@ == remainder@) by (nonlinear_arith)
        requires
            factor@ == (if remainder@ > 0 {
                1nat
            } else {
                0nat
            }),
    ;
    x.sub(remainder.mul(factor))
}

/// The fractional part of `x`.
pub fn frac(x: U256) -> (r: U256)
    ensures
        r@ == x@ % unit_nat(),
{
    x.rem(unit())
}

/// What `inv` returns: `10^36 / x`, and `DivideByZero` for 0.
pub open spec fn inv_spec(x: nat) -> Result<nat, UD60x18Error> {
    if x == 0 {
        Err(UD60x18Error::DivideByZero)
    } else {
        Ok((unit_nat() * unit_nat()) / x)
    }
}

/// `1 / x`, rounded down.
pub fn inv(x: U256) -> (r: Result<U256, UD60x18Error>)
    ensures
        agrees(r, inv_spec(x@)),
{
    if x.is_zero() {
        return Err(UD60x18Error::DivideByZero);
    }
    Ok(unit_squared().div(x))
}

/// The whole part of the fixed-point number `x` as an integer.
#[allow(non_snake_case)]
pub fn from_UD60x18(x: U256) -> (r: U256)
    ensures
        r@ == x@ / unit_nat(),
{
    x.div(unit())
}

/// What `to_UD60x18` returns: `x` times the unit, and `ToUD60x18Overflow`
/// where that does not fit in 256 bits.
#[allow(non_snake_case)]
pub open spec fn to_UD60x18_spec(x: nat) -> Result<nat, UD60x18Error> {
    if x > max_scaled_nat() {
        Err(UD60x18Error::ToUD60x18Overflow(U256::from_nat(x)))
    } else {
        Ok(x * unit_nat())
    }
}

/// The integer `x` as a fixed-point number.
#[allow(non_snake_case)]
pub fn to_UD60x18(x: U256) -> (r: Result<U256, UD60x18Error>)
    ensures
        agrees(r, to_UD60x18_spec(x@)),
{
    proof {
        x.lemma_from_view();
    }
    if x.gt(max_scaled_ud60x18()) {
        return Err(UD60x18Error::ToUD60x18Overflow(x));
    }
    Ok(x.mul(unit()))
}

/// `x / y` as a fixed-point number, rounded down.
///
/// Fails with `DivideByZero` where `y` is zero and with `MulOverflow` where
/// the quotient does not fit in 256 bits.
pub fn div(x: U256, y: U256) -> (r: Result<U256, UD60x18Error>)
    ensures
        agrees(r, muldiv_spec(x@, unit_nat(), y@)),
{
    muldiv(x, unit(), y)
}

/// `x * y` as a fixed-point number, rounded to the nearest, halves up.
///
/// Fails where the product does not fit in 256 bits.
pub fn mul(x: U256, y: U256) -> (r: Result<U256, UD60x18Error>)
    ensures
        agrees(r, muldiv_fp_spec(x@, y@)),
{
    muldiv_fp(x, y)
}

/// What `mul_ratio` returns: `x` times the quotient of `y` by `z`.
pub open spec fn mul_ratio_spec(x: nat, y: nat, z: nat) -> Result<nat, UD60x18Error> {
    match muldiv_spec(y, unit_nat(), z) {
        Ok(ratio) => muldiv_fp_spec(x, ratio),
        Err(e) => Err(e),
    }
}

/// `x * (y / z)` on fixed-point numbers.
pub fn mul_ratio(x: U256, y: U256, z: U256) -> (r: Result<U256, UD60x18Error>)
    ensures
        agrees(r, mul_ratio_spec(x@, y@, z@)),
{
    match self::div(y, z) {
        Ok(ratio) => self::mul(x, ratio),
        Err(e) => Err(e),
    }
}

/// Pi as a fixed-point number.
pub fn pi() -> (r: U256)
    ensures
        r@ == PI_U128,
{
    U256::new(PI_U128)
}

/// One as a fixed-point number: the unit.
pub fn scale() -> (r: U256)
    ensures
        r@ == unit_nat(),
{
    unit()
}

/// What `sqrt` returns: the root of `x` times the unit, rounded down, and
/// `SqrtOverflow` where `x` times the unit does not fit in 256 bits.
pub open spec fn sqrt_spec(x: nat) -> Result<nat, UD60x18Error> {
    if x > max_scaled_nat() {
        Err(UD60x18Error::SqrtOverflow(U256::from_nat(x)))
    } else {
        Ok(isqrt(x * unit_nat()))
    }
}

/// The square root of the fixed-point number `x`, rounded down.
pub fn sqrt(x: U256) -> (r: Result<U256, UD60x18Error>)
    ensures
        agrees(r, sqrt_spec(x@)),
{
    proof {
        x.lemma_from_view();
    }
    if x.gt(U256::max_value().div(unit())) {
        return Err(UD60x18Error::SqrtOverflow(x));
    }
    // the root of a product of two fixed-point numbers carries one unit
    Ok(crate::roots::sqrt(x.mul(unit())))
}

/// What `gm` returns: the root of the product of `x` and `y`, rounded down,
/// and `GmOverflow` where the product does not fit in 256 bits.
pub open spec fn gm_spec(x: nat, y: nat) -> Result<nat, UD60x18Error> {
    if x * y >= two_256() {
        Err(UD60x18Error::GmOverflow(U256::from_nat(x), U256::from_nat(y)))
    } else {
        Ok(isqrt(x * y))
    }
}

/// The geometric mean of the fixed-point numbers `x` and `y`, rounded down.
pub fn gm(x: U256, y: U256) -> (r: Result<U256, UD60x18Error>)
    ensures
        agrees(r, gm_spec(x@, y@)),
{
    proof {
        x.lemma_from_view();
        y.lemma_from_view();
    }
    if x.is_zero() {
        assert(x@ * y@ == 0) by (nonlinear_arith)
            requires
                x@ == 0,
        ;
        assert(isqrt(0) == 0);
        return Ok(U256::zero());
    }
    // the product has overflowed exactly where dividing it by x does not
    // give y back
    let xy = x.wrapping_mul(y);
    let back = xy.div(x);
    proof {
        let p = x@ * y@;
        back.lemma_view(y);
        if p < two_256() {
            lemma_small_mod(p, two_256());
            lemma_div_multiples_vanish(y@ as int, x@ as int);
            assert(x@ * y@ == y@ * x@) by (nonlinear_arith);
        } else {
            lemma_mod_bound(p as int, two_256() as int);
            lemma_fundamental_div_mod(xy@ as int, x@ as int);
            lemma_mod_bound(xy@ as int, x@ as int);
            if back@ == y@ {
                assert(xy@ >= x@ * y@) by (nonlinear_arith)
                    requires
                        xy@ == x@ * back@ + xy@ % x@,
                        back@ == y@,
                        xy@ % x@ >= 0,
                ;
            }
        }
    }
    if back != y {
        return Err(UD60x18Error::GmOverflow(x, y));
    }
    // the product of two fixed-point numbers carries two units, its root one
    Ok(crate::roots::sqrt(xy))
}

/// What `exp2` returns: two to the power of `x`, and `Exp2InputTooBig`
/// where `x` is 192 or more.
pub open spec fn exp2_ud_spec(x: nat) -> Result<nat, UD60x18Error> {
    if x >= EXP2_LIMIT_U128 {
        Err(UD60x18Error::Exp2InputTooBig(U256::from_nat(x)))
    } else {
        Ok(exp2_spec((x * two_64()) / unit_nat()))
    }
}

/// Two to the power of the fixed-point number `x`.
pub fn exp2(x: U256) -> (r: Result<U256, UD60x18Error>)
    ensures
        agrees(r, exp2_ud_spec(x@)),
{
    proof {
        x.lemma_from_view();
        lemma_pow2_values();
    }
    // two to the power of 192 does not fit in the 192.64-bit format
    if x.ge(U256::new(EXP2_LIMIT_U128)) {
        return Err(UD60x18Error::Exp2InputTooBig(x));
    }
    proof {
        lemma_small_mod(x@ * two_64(), two_256());
        lemma_multiply_divide_lt(
            (x@ * two_64()) as int,
            unit_nat() as int,
            (192 * two_64()) as int,
        );
    }
    let x192x64 = x.shl(64).div(unit());
    Ok(crate::exp2::exp2(x192x64))
}

/// What `exp` returns: e to the power of `x`, as two to the power of `x`
/// times log2(e), and `ExpInputTooBig` where `x` is above 133.08.
pub open spec fn exp_spec(x: nat) -> Result<nat, UD60x18Error> {
    if x >= EXP_LIMIT_U128 {
        Err(UD60x18Error::ExpInputTooBig(U256::from_nat(x)))
    } else {
        exp2_ud_spec((x * LOG2_E_U128 as nat + unit_nat() / 2) / unit_nat())
    }
}

/// e to the power of the fixed-point number `x`.
pub fn exp(x: U256) -> (r: Result<U256, UD60x18Error>)
    ensures
        agrees(r, exp_spec(x@)),
{
    proof {
        x.lemma_from_view();
    }
    if x.ge(U256::new(EXP_LIMIT_U128)) {
        return Err(UD60x18Error::ExpInputTooBig(x));
    }
    let double_scale_product = x.mul(log2_e());
    self::exp2(double_scale_product.add(half_unit()).div(unit()))
}

/// The fractional part of a binary logarithm by iterative approximation.
///
/// `y` lies in `[1, 2)` and `delta` is the weight of the next binary digit.
/// Squaring `y` doubles its logarithm: where the square reaches 2 the digit
/// is set and the square is halved.
pub open spec fn log2_frac(y: nat, delta: nat) -> nat
    decreases delta,
{
    if delta == 0 {
        0
    } else {
        let squared = (y * y) / unit_nat();
        if squared >= 2 * unit_nat() {
            delta + log2_frac(squared / 2, delta / 2)
        } else {
            log2_frac(squared, delta / 2)
        }
    }
}

/// The binary logarithm of `x >= 1`: the index of the highest bit of the
/// whole part, and the fractional part by iterative approximation.
pub open spec fn log2_value(x: nat) -> nat {
    let n = crate::bits::msb_spec(x / unit_nat());
    let y = x / pow2(n);
    n * unit_nat() + (if y == unit_nat() {
        0
    } else {
        log2_frac(y, unit_nat() / 2)
    })
}

/// What `log2` returns: the binary logarithm of `x`, and `LogInputTooSmall`
/// where `x` is below one.
pub open spec fn log2_spec(x: nat) -> Result<nat, UD60x18Error> {
    if x < unit_nat() {
        Err(UD60x18Error::LogInputTooSmall(U256::from_nat(x)))
    } else {
        Ok(log2_value(x))
    }
}

/// The fractional part of a logarithm is below twice the weight of its
/// first digit.
pub proof fn lemma_log2_frac_bound(y: nat, delta: nat)
    ensures
        log2_frac(y, delta) <= 2 * delta,
        delta > 0 ==> log2_frac(y, delta) < 2 * delta,
    decreases delta,
{
    if delta > 0 {
        let squared = (y * y) / unit_nat();
        lemma_log2_frac_bound(squared / 2, delta / 2);
        lemma_log2_frac_bound(squared, delta / 2);
    }
}

/// Dividing `x >= 1` by the power of two at the highest bit of its whole
/// part leaves a number in `[1, 2)`.
pub proof fn lemma_log2_normalized(x: nat)
    requires
        unit_nat() <= x < two_256(),
    ensures
        crate::bits::msb_spec(x / unit_nat()) < 256,
        unit_nat() <= x / pow2(crate::bits::msb_spec(x / unit_nat())) < 2 * unit_nat(),
{
    let w = x / unit_nat();
    let n = crate::bits::msb_spec(w);
    let p = pow2(n);
    lemma_div_is_ordered(unit_nat() as int, x as int, unit_nat() as int);
    lemma_div_is_ordered(x as int, two_256() as int, unit_nat() as int);
    crate::bits::lemma_msb_bracket(w);
    crate::bits::lemma_msb_bound(w);
    vstd::arithmetic::power2::lemma_pow2_unfold(n + 1);
    lemma_pow2_pos(n);
    lemma_fundamental_div_mod(x as int, unit_nat() as int);
    lemma_mod_bound(x as int, unit_nat() as int);
    // p * unit <= x < 2 * p * unit
    assert(p * unit_nat() <= x < (2 * p) * unit_nat()) by (nonlinear_arith)
        requires
            x == unit_nat() * w + x % unit_nat(),
            0 <= x % unit_nat() < unit_nat(),
            p <= w < 2 * p,
    ;
    lemma_div_is_ordered((p * unit_nat()) as int, x as int, p as int);
    lemma_div_multiples_vanish(unit_nat() as int, p as int);
    assert(p * unit_nat() == unit_nat() * p) by (nonlinear_arith);
    assert((2 * p) * unit_nat() == p * (2 * unit_nat())) by (nonlinear_arith);
    lemma_multiply_divide_lt(x as int, p as int, (2 * unit_nat()) as int);
}

/// The whole part of the binary logarithm is the index of the highest bit
/// of the whole part of `x`, so that `floor(log2(x)) <= log2(x) <
/// floor(log2(x)) + 1`; and the logarithm is below 256.
pub proof fn lemma_log2_bound(x: nat)
    requires
        unit_nat() <= x < two_256(),
    ensures
        log2_value(x) <= 256 * unit_nat(),
        crate::bits::msb_spec(x / unit_nat()) * unit_nat() <= log2_value(x) < (
        crate::bits::msb_spec(x / unit_nat()) + 1) * unit_nat(),
{
    lemma_log2_normalized(x);
    let n = crate::bits::msb_spec(x / unit_nat());
    lemma_log2_frac_bound(x / pow2(n), unit_nat() / 2);
    assert(n * unit_nat() <= 255 * unit_nat()) by (nonlinear_arith)
        requires
            n <= 255,
    ;
}

/// The binary logarithm of a power of two is exact: `log2(2^n) = n`.
pub proof fn lemma_log2_power_of_two(n: nat)
    requires
        pow2(n) * unit_nat() < two_256(),
    ensures
        log2_spec(pow2(n) * unit_nat()) == Ok::<nat, UD60x18Error>(n * unit_nat()),
{
    let p = pow2(n);
    let x = p * unit_nat();
    lemma_pow2_pos(n);
    vstd::arithmetic::power2::lemma_pow2_unfold(n + 1);
    assert(x >= unit_nat()) by (nonlinear_arith)
        requires
            x == p * unit_nat(),
            p >= 1,
    ;
    lemma_div_multiples_vanish(p as int, unit_nat() as int);
    assert(p * unit_nat() == unit_nat() * p) by (nonlinear_arith);
    assert(x / unit_nat() == p);
    crate::bits::lemma_msb_unique(p, n);
    lemma_div_multiples_vanish(unit_nat() as int, p as int);
    assert(x / p == unit_nat());
}

/// With no bit set in the fractional part, the product stays where it
/// starts.
proof fn lemma_exp2_frac_of_zero(i: nat)
    requires
        i <= 64,
    ensures
        crate::exp2::exp2_frac(0, i) == crate::exp2::exp2_start(),
    decreases 64 - i,
{
    if i < 64 {
        lemma_exp2_frac_of_zero(i + 1);
        lemma_pow2_pos(i);
        assert(0nat / pow2(i) == 0) by (nonlinear_arith)
            requires
                pow2(i) > 0,
        ;
    }
}

/// For a whole exponent `n` below 192, `exp2` is exact and `log2` takes its
/// result back to the exponent.
pub proof fn lemma_exp2_log2_round_trip(n: nat)
    requires
        n < 192,
    ensures
        exp2_ud_spec(n * unit_nat()) == Ok::<nat, UD60x18Error>(pow2(n) * unit_nat()),
        log2_spec(pow2(n) * unit_nat()) == Ok::<nat, UD60x18Error>(n * unit_nat()),
{
    let x = n * unit_nat();
    let p = pow2(n);
    let q = pow2((191 - n) as nat);
    lemma_pow2_values();
    lemma_pow2_pos(n);
    lemma_pow2_pos((191 - n) as nat);
    vstd::arithmetic::power2::lemma_pow2_adds(n, (191 - n) as nat);
    lemma_pow2_increases(n, 191);
    // the exponent in the 192.64-bit format is n * 2^64
    assert(x * two_64() == (n * two_64()) * unit_nat()) by (nonlinear_arith)
        requires
            x == n * unit_nat(),
    ;
    lemma_div_multiples_vanish((n * two_64()) as int, unit_nat() as int);
    assert((n * two_64()) * unit_nat() == unit_nat() * (n * two_64())) by (nonlinear_arith);
    let v = n * two_64();
    assert((x * two_64()) / unit_nat() == v);
    lemma_div_multiples_vanish(n as int, two_64() as int);
    vstd::arithmetic::div_mod::lemma_mod_multiples_basic(n as int, two_64() as int);
    assert(v / two_64() == n && v % two_64() == 0);
    lemma_exp2_frac_of_zero(0);
    // 2^191 * unit / 2^(191 - n) is 2^n * unit
    assert(crate::exp2::exp2_start() * unit_nat() == (p * unit_nat()) * q) by (nonlinear_arith)
        requires
            crate::exp2::exp2_start() == p * q,
    ;
    lemma_div_multiples_vanish((p * unit_nat()) as int, q as int);
    assert((p * unit_nat()) * q == q * (p * unit_nat())) by (nonlinear_arith);
    assert(exp2_spec(v) == p * unit_nat());
    assert(p * unit_nat() < two_256()) by (nonlinear_arith)
        requires
            p <= 0x8000_0000_0000_0000_0000_0000_0000_0000_0000_0000_0000_0000,
    ;
    assert(x < EXP2_LIMIT_U128) by (nonlinear_arith)
        requires
            x == n * unit_nat(),
            n < 192,
    ;
    lemma_log2_power_of_two(n);
}

/// For every exponent below 192, `log2` takes the result of `exp2` back to
/// a number with the whole part of the exponent: the round trip is off by
/// less than one.
pub proof fn lemma_exp2_log2_whole_part(x: nat)
    requires
        x < EXP2_LIMIT_U128,
    ensures
        exp2_ud_spec(x) is Ok,
        log2_spec(exp2_ud_spec(x)->Ok_0) is Ok,
        (x / unit_nat()) * unit_nat() <= log2_spec(exp2_ud_spec(x)->Ok_0)->Ok_0 < (x
            / unit_nat() + 1) * unit_nat(),
{
    let scaled = x * two_64();
    let t = scaled / unit_nat();
    let whole = x / unit_nat();
    let r = exp2_spec(t);
    let p = pow2(whole);
    lemma_multiply_divide_lt(scaled as int, unit_nat() as int, (192 * two_64()) as int);
    // the whole part of the exponent in the 192.64-bit format is that of x
    vstd::arithmetic::div_mod::lemma_div_denominator(
        scaled as int,
        unit_nat() as int,
        two_64() as int,
    );
    vstd::arithmetic::div_mod::lemma_div_denominator(
        scaled as int,
        two_64() as int,
        unit_nat() as int,
    );
    lemma_div_multiples_vanish(x as int, two_64() as int);
    assert(t / two_64() == whole);
    crate::exp2::lemma_exp2_spec_bracket(t);
    crate::exp2::lemma_exp2_spec_bounds(t);
    lemma_pow2_pos(whole);
    vstd::arithmetic::power2::lemma_pow2_unfold(whole + 1);
    // so the whole part of the power has its highest bit at that position
    lemma_div_is_ordered((p * unit_nat()) as int, r as int, unit_nat() as int);
    lemma_div_multiples_vanish(p as int, unit_nat() as int);
    assert(p * unit_nat() == unit_nat() * p) by (nonlinear_arith);
    assert(2 * p * unit_nat() == unit_nat() * (2 * p)) by (nonlinear_arith);
    lemma_multiply_divide_lt(r as int, unit_nat() as int, (2 * p) as int);
    crate::bits::lemma_msb_unique(r / unit_nat(), whole);
    lemma_log2_bound(r);
}

/// The binary logarithm of the fixed-point number `x`.
pub fn log2(x: U256) -> (r: Result<U256, UD60x18Error>)
    ensures
        agrees(r, log2_spec(x@)),
{
    proof {
        x.lemma_from_view();
    }
    if x.lt(unit()) {
        return Err(UD60x18Error::LogInputTooSmall(x));
    }
    proof {
        lemma_log2_normalized(x@);
    }
    // the whole part of the logarithm, and y = x * 2^(-n)
    let n = crate::common::most_significant_bit(x.div(unit()));
    let whole = n.mul(unit());
    proof {
        lemma_small_mod(n@, 0x1_0000_0000);
    }
    let normalized = x.shr(n.as_u32());
    let mut y: u128 = normalized.as_u128();
    // if y = 1, the fractional part is zero
    if y == UNIT_U128 {
        return Ok(whole);
    }
    let mut fraction: u128 = 0;
    let mut delta: u128 = HALF_UNIT_U128;
    while delta > 0
        invariant
            UNIT_U128 <= y < 2 * UNIT_U128,
            delta <= HALF_UNIT_U128,
            fraction + 2 * delta <= UNIT_U128,
            fraction + log2_frac(y as nat, delta as nat) == log2_frac(
                normalized@,
                unit_nat() / 2,
            ),
        decreases delta,
    {
        proof {
            assert(UNIT_U128 * UNIT_U128 <= y * y < 4 * (UNIT_U128 * UNIT_U128))
                by (nonlinear_arith)
                requires
                    UNIT_U128 <= y < 2 * UNIT_U128,
            ;
            lemma_div_is_ordered(
                (UNIT_U128 * UNIT_U128) as int,
                (y * y) as int,
                UNIT_U128 as int,
            );
            lemma_multiply_divide_lt((y * y) as int, UNIT_U128 as int, (4 * UNIT_U128) as int);
        }
        y = (y * y) / UNIT_U128;
        // is y^2 in [2, 4)?
        if y >= 2 * UNIT_U128 {
            fraction = fraction + delta;
            y = y / 2;
        }
        delta = delta / 2;
    }
    Ok(whole.add(U256::new(fraction)))
}

/// What `ln` returns: the binary logarithm of `x` divided by log2(e).
pub open spec fn ln_spec(x: nat) -> Result<nat, UD60x18Error> {
    match log2_spec(x) {
        Ok(l) => Ok((l * unit_nat()) / (LOG2_E_U128 as nat)),
        Err(e) => Err(e),
    }
}

/// The natural logarithm of the fixed-point number `x`.
pub fn ln(x: U256) -> (r: Result<U256, UD60x18Error>)
    ensures
        agrees(r, ln_spec(x@)),
{
    match log2(x) {
        Ok(l) => {
            proof {
                lemma_log2_bound(x@);
                assert(l@ * unit_nat() < two_256()) by (nonlinear_arith)
                    requires
                        l@ <= 256 * unit_nat(),
                ;
            }
            Ok(l.mul(unit()).div(log2_e()))
        },
        Err(e) => Err(e),
    }
}

/// The exponent `k` in `[from, 77]` with `x == 10^k`, if there is one.
pub open spec fn power_of_ten_exponent(x: nat, from: nat) -> Option<nat>
    decreases 78 - from,
{
    if from > 77 {
        None
    } else if crate::tens::pow10(from) == x {
        Some(from)
    } else {
        power_of_ten_exponent(x, from + 1)
    }
}

/// What `log10` returns. For a power of ten `10^k / 10^18` it is `k - 18`
/// exactly; for any other `x >= 1` it is the binary logarithm of `x`
/// divided by log2(10); below one it is `LogInputTooSmall`.
pub open spec fn log10_spec(x: nat) -> Result<nat, UD60x18Error> {
    if x < unit_nat() {
        Err(UD60x18Error::LogInputTooSmall(U256::from_nat(x)))
    } else {
        match power_of_ten_exponent(x, 18) {
            Some(k) => Ok(((k - 18) * unit_nat()) as nat),
            None => Ok((log2_value(x) * unit_nat()) / (LOG2_10_U128 as nat)),
        }
    }
}

/// The common logarithm of the fixed-point number `x`.
///
/// Looks `x` up among the powers of ten first, so that their logarithms are
/// exact.
pub fn log10(x: U256) -> (r: Result<U256, UD60x18Error>)
    ensures
        agrees(r, log10_spec(x@)),
{
    proof {
        x.lemma_from_view();
        crate::tens::lemma_pow10_values();
    }
    if x.lt(unit()) {
        return Err(UD60x18Error::LogInputTooSmall(x));
    }
    let ten = U256::new(10);
    let mut power = unit();
    let mut k: u8 = 18;
    loop
        invariant
            18 <= k <= 77,
            ten@ == 10,
            x@ >= unit_nat(),
            power@ == crate::tens::pow10(k as nat),
            power_of_ten_exponent(x@, 18) == power_of_ten_exponent(x@, k as nat),
        ensures
            k == 77,
            power@ != x@,
        decreases 77 - k,
    {
        if power == x {
            proof {
                power.lemma_view(x);
                assert(power_of_ten_exponent(x@, k as nat) == Some(k as nat));
                assert((k - 18) * unit_nat() <= 59 * unit_nat()) by (nonlinear_arith)
                    requires
                        18 <= k <= 77,
                ;
            }
            return Ok(U256::new((k - 18) as u128).mul(unit()));
        }
        proof {
            power.lemma_view(x);
            assert(power_of_ten_exponent(x@, k as nat) == power_of_ten_exponent(
                x@,
                (k + 1) as nat,
            ));
        }
        if k == 77 {
            break ;
        }
        proof {
            crate::tens::lemma_pow10_bounds(k as nat, (k + 1) as nat);
            crate::tens::lemma_pow10_bounds((k + 1) as nat, (k + 1) as nat);
        }
        power = power.mul(ten);
        k = k + 1;
    }
    assert(power_of_ten_exponent(x@, 18) == None::<nat>) by {
        assert(power_of_ten_exponent(x@, 77) == power_of_ten_exponent(x@, 78));
        assert(power_of_ten_exponent(x@, 78) == None::<nat>);
    }
    match log2(x) {
        Ok(l) => {
            proof {
                lemma_log2_bound(x@);
                assert(l@ * unit_nat() < two_256()) by (nonlinear_arith)
                    requires
                        l@ <= 256 * unit_nat(),
                ;
            }
            Ok(l.mul(unit()).div(log2_10()))
        },
        Err(e) => Err(e),
    }
}

/// What `pow` returns: two to the power of `y` times the binary logarithm
/// of `x`; for `x = 0` it is one where `y` is 0 and 0 otherwise.
pub open spec fn pow_spec(x: nat, y: nat) -> Result<nat, UD60x18Error> {
    if x == 0 {
        if y == 0 {
            Ok(unit_nat())
        } else {
            Ok(0)
        }
    } else {
        match log2_spec(x) {
            Ok(l) => match muldiv_fp_spec(l, y) {
                Ok(product) => exp2_ud_spec(product),
                Err(e) => Err(e),
            },
            Err(e) => Err(e),
        }
    }
}

/// `x` to the power of `y`, both fixed-point numbers.
pub fn pow(x: U256, y: U256) -> (r: Result<U256, UD60x18Error>)
    ensures
        agrees(r, pow_spec(x@, y@)),
{
    if x.is_zero() {
        if y.is_zero() {
            Ok(unit())
        } else {
            Ok(U256::zero())
        }
    } else {
        match log2(x) {
            Ok(l) => match self::mul(l, y) {
                Ok(product) => self::exp2(product),
                Err(e) => Err(e),
            },
            Err(e) => Err(e),
        }
    }
}

/// Exponentiation by squaring from the second bit of the exponent on: `x`
/// is squared for every bit of `y`, and multiplied into `result` for every
/// bit that is set.
pub open spec fn powu_loop(x: nat, y: nat, result: nat) -> Result<nat, UD60x18Error>
    decreases y,
{
    if y == 0 {
        Ok(result)
    } else {
        match muldiv_fp_spec(x, x) {
            Ok(squared) => if y % 2 == 1 {
                match muldiv_fp_spec(result, squared) {
                    Ok(product) => powu_loop(squared, y / 2, product),
                    Err(e) => Err(e),
                }
            } else {
                powu_loop(squared, y / 2, result)
            },
            Err(e) => Err(e),
        }
    }
}

/// What `powu` returns: the fixed-point number `x` to the power of the
/// integer `y`, by squaring, with every product rounded to the nearest.
pub open spec fn powu_spec(x: nat, y: nat) -> Result<nat, UD60x18Error> {
    powu_loop(x, y / 2, if y % 2 == 1 {
        x
    } else {
        unit_nat()
    })
}

/// Any number to the power of 0 is one.
pub proof fn lemma_powu_exponent_zero(x: nat)
    ensures
        powu_spec(x, 0) == Ok::<nat, UD60x18Error>(unit_nat()),
{
}

/// Once the base is 0, every further product is 0.
proof fn lemma_powu_loop_zero(y: nat, result: nat)
    requires
        y > 0,
        result < two_256(),
    ensures
        powu_loop(0, y, result) == Ok::<nat, UD60x18Error>(0),
    decreases y,
{
    assert(0 * 0 == 0) by (nonlinear_arith);
    assert(result * 0 == 0) by (nonlinear_arith);
    assert(muldiv_fp_spec(0, 0) == Ok::<nat, UD60x18Error>(0));
    assert(muldiv_fp_spec(result, 0) == Ok::<nat, UD60x18Error>(0));
    if y / 2 > 0 {
        lemma_powu_loop_zero(y / 2, result);
        lemma_powu_loop_zero(y / 2, 0);
    } else {
        assert(y == 1);
        assert(powu_loop(0, 0, 0) == Ok::<nat, UD60x18Error>(0));
    }
}

/// 0 to any power above 0 is 0.
pub proof fn lemma_powu_base_zero(y: nat)
    requires
        y > 0,
    ensures
        powu_spec(0, y) == Ok::<nat, UD60x18Error>(0),
{
    if y / 2 > 0 {
        lemma_powu_loop_zero(y / 2, 0);
        lemma_powu_loop_zero(y / 2, unit_nat());
    }
}

/// The fixed-point number `x` to the power of the integer `y`.
pub fn powu(x: U256, y: U256) -> (r: Result<U256, UD60x18Error>)
    ensures
        agrees(r, powu_spec(x@, y@)),
{
    proof {
        lemma2_to64();
    }
    // the first bit of the exponent is taken in advance
    let mut result = if y.is_odd() {
        x
    } else {
        unit()
    };
    let mut base = x;
    let mut rest = y.shr(1);
    while !rest.is_zero()
        invariant
            powu_loop(base@, rest@, result@) == powu_spec(x@, y@),
        decreases rest@,
    {
        proof {
            lemma2_to64();
        }
        base =
        match muldiv_fp(base, base) {
            Ok(squared) => squared,
            Err(e) => {
                return Err(e);
            },
        };
        if rest.is_odd() {
            result =
            match muldiv_fp(result, base) {
                Ok(product) => product,
                Err(e) => {
                    return Err(e);
                },
            };
        }
        rest = rest.shr(1);
    }
    Ok(result)
}

} // verus!
