//! Full-precision multiply-divide: `floor(x * y / d)` on 256-bit operands,
//! exact even where the product needs 512 bits.
//!
//! The product is held as two 256-bit words. Where the high word is zero the
//! quotient is an ordinary division. Otherwise the remainder is taken off,
//! the largest power of two is factored out of the divisor, and the quotient
//! is the product of what is left with the inverse of the odd divisor modulo
//! 2^256.

use vstd::prelude::*;
use vstd::arithmetic::power2::{pow2, lemma_pow2_adds, lemma_pow2_pos};
use vstd::arithmetic::div_mod::{
    lemma_fundamental_div_mod, lemma_mod_mod, lemma_mod_multiples_vanish, lemma_mul_mod_noop_general,
    lemma_small_mod,
};
use crate::bits::{
    lemma_lowbit, lemma_lowbit_divides_pow2, lemma_lowbit_low_part, lemma_lowbit_shifted,
    lemma_pow2_values, lemma_u128_lowbit, lowbit,
};
use crate::error::{agrees, UD60x18Error};
use crate::modular::{
    lemma_cong_add, lemma_cong_mod, lemma_cong_mul, lemma_divide_by_inverse, lemma_high_word,
    lemma_newton_step, lemma_quotient_fits,
};
use crate::primitives::Asm;
use crate::u256::{two_128, two_256, U256};

verus! {

/// 10^18, the unit of the fixed-point domains.
pub const UNIT_U128: u128 = 1_000_000_000_000_000_000u128;

/// Half of the unit.
pub const HALF_UNIT_U128: u128 = 500_000_000_000_000_000u128;

/// 2^18, the largest power of two that divides the unit.
pub const UNIT_LPOTD_U128: u128 = 262144u128;

/// 10^18 as a number.
#[verifier::inline]
pub open spec fn unit_nat() -> nat {
    1_000_000_000_000_000_000nat
}

/// The unit, 10^18.
pub fn unit() -> (r: U256)
    ensures
        r@ == unit_nat(),
{
    U256::new(UNIT_U128)
}

/// Half of the unit.
pub fn half_unit() -> (r: U256)
    ensures
        r@ == unit_nat() / 2,
{
    U256::new(HALF_UNIT_U128)
}

/// The largest power of two that divides the unit, 2^18.
pub fn unit_lpotd() -> (r: U256)
    ensures
        r@ == 262144,
{
    U256::new(UNIT_LPOTD_U128)
}

/// The inverse modulo 2^256 of the unit divided by 2^18, which is 5^18.
pub fn unit_inverse() -> (r: U256)
    ensures
        r@
            == 78156646155174841979727994598816262306175212592076161876661508869554232690281nat,
        (3814697265625 * r@) % two_256() == 1,
{
    U256::from_words(
        229681740086561209518615317264092320238,
        298919117238935307856972083127780443753,
    )
}

/// The exact product of `x` and `y`, as its high and its low 256-bit word.
///
/// The low word is the wrapping product. The high word comes from the
/// remainder of the product modulo 2^256 - 1, by the Chinese remainder
/// theorem.
pub fn full_mul(x: U256, y: U256) -> (r: (U256, U256))
    ensures
        r.0@ == (x@ * y@) / two_256(),
        r.1@ == (x@ * y@) % two_256(),
{
    let mm = Asm::mulmod(x, y, U256::zero().not());
    let prod0 = Asm::mul(x, y);
    let prod1 = Asm::u_sub(Asm::u_sub(mm, prod0), Asm::lt(mm, prod0));
    proof {
        lemma_high_word(x@, y@, mm@, prod0@);
    }
    (prod1, prod0)
}

/// The largest power of two that divides `d`, as the conjunction of `d`
/// with its two's complement.
pub fn largest_power_of_two_divisor(d: U256) -> (r: U256)
    requires
        d@ != 0,
    ensures
        r@ == lowbit(d@),
{
    let flipped = d.not();
    let neg = flipped.wrapping_add(U256::one());
    let r = d.bitand(neg);
    proof {
        let hi = d.hi;
        let lo = d.lo;
        lemma_pow2_values();
        lemma_small_mod((two_256() - d@) as nat, two_256());
        assert(neg@ == two_256() - d@);
        assert(neg@ == neg.hi * two_128() + neg.lo);
        if lo > 0 {
            assert(neg.lo == two_128() - lo && neg.hi == two_128() - 1 - hi);
            let nh = neg.hi;
            assert(hi & nh == 0) by (bit_vector)
                requires
                    nh == 0xffff_ffff_ffff_ffff_ffff_ffff_ffff_ffffu128 - hi,
            ;
            lemma_u128_lowbit(lo, neg.lo);
            lemma_lowbit_low_part(hi as nat, 128, lo as nat);
        } else {
            assert(neg.lo == 0 && neg.hi == two_128() - hi);
            assert(0u128 & 0u128 == 0) by (bit_vector);
            lemma_u128_lowbit(hi, neg.hi);
            lemma_lowbit_shifted(hi as nat, 128);
        }
    }
    r
}

/// The seed of the inversion: for an odd `d`, three times `d` with its
/// second bit flipped inverts `d` modulo 16.
proof fn lemma_inverse_seed(d: U256, tripled: U256, seed: U256)
    requires
        d@ % 2 == 1,
        tripled@ == (3 * d@) % two_256(),
        seed.lo == tripled.lo ^ 2,
    ensures
        (d@ * seed@) % 16 == 1,
{
    let lo = d.lo;
    let w = tripled.lo;
    let v = seed.lo;
    // the low word of the tripled value is the tripled low word
    assert(w == (3 * lo) % (two_128() as int)) by {
        lemma_mod_mod((3 * d@) as int, two_128() as int, two_128() as int);
        lemma_mod_multiples_vanish(3 * d.hi, 3 * lo, two_128() as int);
        assert(tripled@ % two_128() == w);
    }
    let k: u128 = ((3 * lo) / (two_128() as int)) as u128;
    let pr: u128 = ((lo * v) % (two_128() as int)) as u128;
    let kk: u128 = ((lo * v) / (two_128() as int)) as u128;
    assert(3 * lo == w + two_128() * k) by {
        lemma_fundamental_div_mod(3 * lo, two_128() as int);
    }
    assert(0 <= lo * v <= 0xffff_ffff_ffff_ffff_ffff_ffff_ffff_ffff
        * 0xffff_ffff_ffff_ffff_ffff_ffff_ffff_ffff) by (nonlinear_arith)
        requires
            0 <= lo <= 0xffff_ffff_ffff_ffff_ffff_ffff_ffff_ffff,
            0 <= v <= 0xffff_ffff_ffff_ffff_ffff_ffff_ffff_ffff,
    ;
    assert(lo * v == pr + two_128() * kk) by {
        lemma_fundamental_div_mod(lo * v, two_128() as int);
    }
    assert(lo % 2 == 1) by {
        lemma_mod_multiples_vanish(
            d.hi * 0x8000_0000_0000_0000_0000_0000_0000_0000,
            lo as int,
            2,
        );
    }
    assert(pr % 16 == 1) by (bit_vector)
        requires
            lo % 2 == 1,
            3 * lo == w + 0x1_0000_0000_0000_0000_0000_0000_0000_0000 * k,
            v == w ^ 2,
            lo * v == pr + 0x1_0000_0000_0000_0000_0000_0000_0000_0000 * kk,
    ;
    assert((lo * v) % 16 == 1) by {
        lemma_mod_multiples_vanish(
            kk * 0x1000_0000_0000_0000_0000_0000_0000_0000,
            pr as int,
            16,
        );
    }
    // modulo 16 only the low words count
    assert(d@ % 16 == lo % 16) by {
        lemma_mod_multiples_vanish(
            d.hi * 0x1000_0000_0000_0000_0000_0000_0000_0000,
            lo as int,
            16,
        );
    }
    assert(seed@ % 16 == v % 16) by {
        lemma_mod_multiples_vanish(
            seed.hi * 0x1000_0000_0000_0000_0000_0000_0000_0000,
            v as int,
            16,
        );
    }
    lemma_mul_mod_noop_general(d@ as int, seed@ as int, 16);
    lemma_mul_mod_noop_general(lo as int, v as int, 16);
}

/// One step of the inversion takes an inverse modulo `2^bits` to an inverse
/// modulo `2^(2 * bits)`.
proof fn lemma_inverse_step(d: nat, inverse: nat, next: nat, bits: nat)
    requires
        4 <= bits <= 128,
        (d * inverse) % pow2(bits) == 1,
        next == (inverse * ((2 - (d * inverse) % two_256()) % (two_256() as int))) % (
        two_256() as int),
    ensures
        (d * next) % pow2(2 * bits) == 1,
{
    let m = pow2(bits);
    let c = pow2((256 - 2 * bits) as nat);
    lemma_pow2_values();
    lemma_pow2_pos((256 - 2 * bits) as nat);
    lemma_pow2_adds(bits, bits);
    lemma_pow2_adds(2 * bits, (256 - 2 * bits) as nat);
    crate::bits::lemma_pow2_increases(4, bits);
    lemma_newton_step(d as int, inverse as int, m as int, c as int);
    assert((m * m) * c == two_256());
}

/// The inverse of an odd `d` modulo 2^256.
///
/// Starts from a seed that is right in its lowest four bits and doubles the
/// number of right bits six times by Newton-Raphson steps.
pub fn invert_odd(d: U256) -> (r: U256)
    requires
        d@ % 2 == 1,
    ensures
        (d@ * r@) % two_256() == 1,
{
    let two = U256::new(2);
    let tripled = U256::new(3).wrapping_mul(d);
    let mut inverse = tripled.bitxor(two);
    proof {
        lemma_inverse_seed(d, tripled, inverse);
        lemma_pow2_values();
    }
    let mut bits: u32 = 4;
    while bits < 256
        invariant
            bits == 4 || bits == 8 || bits == 16 || bits == 32 || bits == 64 || bits == 128
                || bits == 256,
            (d@ * inverse@) % pow2(bits as nat) == 1,
            two@ == 2,
        decreases 256 - bits,
    {
        let ghost before = inverse@;
        inverse = inverse.wrapping_mul(two.wrapping_sub(d.wrapping_mul(inverse)));
        proof {
            lemma_inverse_step(d@, before, inverse@, bits as nat);
        }
        bits = bits * 2;
    }
    proof {
        lemma_pow2_values();
    }
    inverse
}

/// The quotient of the 512-bit number `prod1 * 2^256 + prod0` by
/// `denominator`, where the quotient fits in 256 bits.
///
/// `remainder` is the remainder of that division, `twos` a power of two that
/// divides the denominator, and `inverse` the inverse modulo 2^256 of the
/// denominator divided by `twos`.
pub fn div_by_inverse(
    prod1: U256,
    prod0: U256,
    remainder: U256,
    denominator: U256,
    twos: U256,
    inverse: U256,
) -> (r: U256)
    requires
        prod1@ < denominator@,
        twos@ > 0,
        denominator@ % twos@ == 0,
        two_256() % twos@ == 0,
        ((denominator@ / twos@) * inverse@) % two_256() == 1,
        remainder@ == (prod1@ * two_256() + prod0@) % denominator@,
    ensures
        r@ == (prod1@ * two_256() + prod0@) / denominator@,
{
    // take the remainder off the two words
    let p1 = Asm::u_sub(prod1, Asm::gt(remainder, prod0));
    let p0 = Asm::u_sub(prod0, remainder);
    // 2^256 / twos, which is 0 modulo 2^256 where twos is 1
    let flip = Asm::add(Asm::div(Asm::u_sub(U256::zero(), twos), twos), U256::one());
    // divide the low word by twos and move the bits of the high word in
    let low = Asm::add(Asm::div(p0, twos), Asm::mul(p1, flip));
    let result = Asm::mul(low, inverse);
    proof {
        lemma_divide_by_inverse(
            prod1@ as int,
            prod0@ as int,
            remainder@ as int,
            denominator@ as int,
            twos@ as int,
            inverse@ as int,
            p1@ as int,
            p0@ as int,
            flip@ as int,
            low@ as int,
            result@ as int,
        );
    }
    result
}

/// The quotient of the 512-bit number `hi * 2^256 + lo` by `denominator`,
/// where `hi` is below the denominator, so that the quotient fits in 256
/// bits.
pub fn div_wide(hi: U256, lo: U256, denominator: U256) -> (r: U256)
    requires
        hi@ < denominator@,
    ensures
        r@ == (hi@ * two_256() + lo@) / denominator@,
{
    // 2^256 modulo the denominator
    let wrap = Asm::addmod(U256::max_value(), U256::one(), denominator);
    let high_part = Asm::mulmod(hi, wrap, denominator);
    let remainder = Asm::addmod(high_part, lo, denominator);
    proof {
        let d = denominator@ as int;
        let big = two_256() as int;
        lemma_cong_mod(big, d);
        lemma_cong_mul(hi@ as int, hi@ as int, wrap@ as int, big, d);
        lemma_cong_mod((hi@ * wrap@) as int, d);
        lemma_cong_add(high_part@ as int, hi@ * big, lo@ as int, lo@ as int, d);
    }
    div_with_remainder(hi, lo, remainder, denominator)
}

/// The quotient of the 512-bit number `prod1 * 2^256 + prod0` by
/// `denominator`, where `prod1` is below the denominator and `remainder` is
/// the remainder of the division.
///
/// Factors the largest power of two out of the denominator, inverts what is
/// left modulo 2^256 and multiplies.
fn div_with_remainder(prod1: U256, prod0: U256, remainder: U256, denominator: U256) -> (r: U256)
    requires
        prod1@ < denominator@,
        remainder@ == (prod1@ * two_256() + prod0@) % denominator@,
    ensures
        r@ == (prod1@ * two_256() + prod0@) / denominator@,
{
    let twos = largest_power_of_two_divisor(denominator);
    proof {
        lemma_lowbit(denominator@);
        lemma_pow2_values();
        lemma_lowbit_divides_pow2(denominator@, 256);
    }
    let odd = Asm::div(denominator, twos);
    let inverse = invert_odd(odd);
    div_by_inverse(prod1, prod0, remainder, denominator, twos, inverse)
}

/// What `muldiv` returns: `floor(x * y / d)`, `DivideByZero` where `d` is
/// zero, and `MulOverflow` with the high word of the product and `d` where
/// the quotient does not fit in 256 bits.
pub open spec fn muldiv_spec(x: nat, y: nat, d: nat) -> Result<nat, UD60x18Error> {
    if d == 0 {
        Err(UD60x18Error::DivideByZero)
    } else if (x * y) / d >= two_256() {
        Err(UD60x18Error::MulOverflow(U256::from_nat((x * y) / two_256()), U256::from_nat(d)))
    } else {
        Ok((x * y) / d)
    }
}

/// `floor(x * y / denominator)`, with the product taken exactly.
///
/// Fails with `DivideByZero` where the denominator is zero, and with
/// `MulOverflow` where the quotient does not fit in 256 bits.
pub fn muldiv(x: U256, y: U256, denominator: U256) -> (r: Result<U256, UD60x18Error>)
    ensures
        agrees(r, muldiv_spec(x@, y@, denominator@)),
{
    if denominator.is_zero() {
        return Err(UD60x18Error::DivideByZero);
    }
    let (prod1, prod0) = full_mul(x, y);
    proof {
        lemma_fundamental_div_mod((x@ * y@) as int, two_256() as int);
        lemma_quotient_fits(prod1@, prod0@, denominator@);
        assert(x@ * y@ == prod1@ * two_256() + prod0@) by (nonlinear_arith)
            requires
                x@ * y@ == two_256() * prod1@ + prod0@,
        ;
        prod1.lemma_from_view();
        denominator.lemma_from_view();
    }
    if prod1.is_zero() {
        return Ok(prod0.div(denominator));
    }
    if prod1.ge(denominator) {
        return Err(UD60x18Error::MulOverflow(prod1, denominator));
    }
    let remainder = Asm::mulmod(x, y, denominator);
    Ok(div_with_remainder(prod1, prod0, remainder, denominator))
}

/// The quotient and the remainder of `x * y` by the unit and the high word
/// of the product, with the product taken exactly, or `MulDiv18Overflow`
/// where the quotient does not fit in 256 bits.
fn divide_product_by_unit(x: U256, y: U256) -> (r: Result<(U256, U256, U256), UD60x18Error>)
    ensures
        (x@ * y@) / unit_nat() < two_256() ==> r.is_ok() && r.unwrap().0@ == (x@ * y@)
            / unit_nat() && r.unwrap().1@ == (x@ * y@) % unit_nat() && r.unwrap().2
            == U256::from_nat((x@ * y@) / two_256()),
        (x@ * y@) / unit_nat() >= two_256() ==> r == Err::<(U256, U256, U256), UD60x18Error>(
            UD60x18Error::MulDiv18Overflow(U256::from_nat((x@ * y@) / two_256())),
        ),
{
    let (prod1, prod0) = full_mul(x, y);
    proof {
        lemma_fundamental_div_mod((x@ * y@) as int, two_256() as int);
        lemma_quotient_fits(prod1@, prod0@, unit_nat());
        assert(x@ * y@ == prod1@ * two_256() + prod0@) by (nonlinear_arith)
            requires
                x@ * y@ == two_256() * prod1@ + prod0@,
        ;
    }
    proof {
        prod1.lemma_from_view();
    }
    if prod1.ge(unit()) {
        return Err(UD60x18Error::MulDiv18Overflow(prod1));
    }
    let remainder = Asm::mulmod(x, y, unit());
    if prod1.is_zero() {
        return Ok((prod0.div(unit()), remainder, prod1));
    }
    let quotient = div_by_inverse(prod1, prod0, remainder, unit(), unit_lpotd(), unit_inverse());
    Ok((quotient, remainder, prod1))
}

/// `x * y / 10^18` rounded to the nearest integer, halves up.
pub open spec fn mul_round(x: nat, y: nat) -> nat {
    (x * y) / unit_nat() + (if (x * y) % unit_nat() >= unit_nat() / 2 {
        1nat
    } else {
        0nat
    })
}

/// What `muldiv_fp` returns: `x * y / 10^18` rounded to the nearest integer,
/// halves up, and `MulDiv18Overflow` with the high word of the product where
/// the rounded quotient does not fit in 256 bits.
pub open spec fn muldiv_fp_spec(x: nat, y: nat) -> Result<nat, UD60x18Error> {
    if mul_round(x, y) >= two_256() {
        Err(UD60x18Error::MulDiv18Overflow(U256::from_nat((x * y) / two_256())))
    } else {
        Ok(mul_round(x, y))
    }
}

/// `x * y / 10^18` rounded to the nearest integer, halves up, with the
/// product taken exactly.
///
/// Fails with `MulDiv18Overflow` where the rounded quotient does not fit in
/// 256 bits.
pub fn muldiv_fp(x: U256, y: U256) -> (r: Result<U256, UD60x18Error>)
    ensures
        agrees(r, muldiv_fp_spec(x@, y@)),
{
    match divide_product_by_unit(x, y) {
        Ok((quotient, remainder, high)) => {
            let round_up_unit = Asm::gt(remainder, U256::new(HALF_UNIT_U128 - 1));
            match quotient.checked_add(round_up_unit) {
                Some(rounded) => Ok(rounded),
                None => Err(UD60x18Error::MulDiv18Overflow(high)),
            }
        },
        Err(e) => Err(e),
    }
}

/// `x * y / 10^18` rounded to the nearest integer, halves up, with the
/// product taken exactly: the multiply-divide with the denominator fixed at
/// the unit, under its other name.
///
/// Fails with `MulDiv18Overflow` where the rounded quotient does not fit in
/// 256 bits.
pub fn muldiv18(x: U256, y: U256) -> (r: Result<U256, UD60x18Error>)
    ensures
        agrees(r, muldiv_fp_spec(x@, y@)),
{
    muldiv_fp(x, y)
}

/// The product of the largest 256-bit number with any `y > 1`, divided by 1,
/// does not fit: `muldiv` fails with `MulOverflow`.
pub proof fn lemma_muldiv_max_overflows(y: nat)
    requires
        1 < y < two_256(),
    ensures
        muldiv_spec((two_256() - 1) as nat, y, 1) is Err,
        muldiv_spec((two_256() - 1) as nat, y, 1)->Err_0 == UD60x18Error::MulOverflow(
            U256::from_nat((y - 1) as nat),
            U256::from_nat(1),
        ),
{
    let big = two_256() as int;
    let p = (big - 1) * y;
    assert(p >= 2 * (big - 1)) by (nonlinear_arith)
        requires
            p == (big - 1) * y,
            y >= 2,
            big > 1,
    ;
    assert(p == big * (y - 1) + (big - y)) by (nonlinear_arith)
        requires
            p == (big - 1) * y,
    ;
    vstd::arithmetic::div_mod::lemma_fundamental_div_mod_converse(p, big, y - 1, big - y);
    assert(p / 1 == p);
}

/// Where the product of `x` and `y` fits in 256 bits and `d` is not zero,
/// `muldiv` returns the quotient of the product by `d`.
pub proof fn lemma_muldiv_exact(x: nat, y: nat, d: nat)
    requires
        d != 0,
        x * y < two_256(),
    ensures
        muldiv_spec(x, y, d) == Ok::<nat, UD60x18Error>((x * y) / d),
{
    vstd::arithmetic::div_mod::lemma_div_nonincreasing((x * y) as int, d as int);
}

} // verus!
