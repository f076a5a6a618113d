//! The constants of the unsigned 60.18-decimal fixed-point domain.

use vstd::prelude::*;
use crate::muldiv::unit_nat;
use crate::u256::{two_128, two_256, U256};

verus! {

/// log2(e) as a fixed-point number.
pub const LOG2_E_U128: u128 = 1_442_695_040_888_963_407u128;

/// log2(10) as a fixed-point number.
pub const LOG2_10_U128: u128 = 3_321_928_094_887_362_347u128;

/// Euler's number as a fixed-point number.
pub const E_U128: u128 = 2_718_281_828_459_045_235u128;

/// Pi as a fixed-point number.
pub const PI_U128: u128 = 3_141_592_653_589_793_238u128;

/// The first exponent that `exp` does not take.
pub const EXP_LIMIT_U128: u128 = 133_084_258_667_509_499_441u128;

/// The first exponent that `exp2` does not take: 192 units.
pub const EXP2_LIMIT_U128: u128 = 192_000_000_000_000_000_000u128;

/// The largest whole fixed-point number as a number.
#[verifier::inline]
pub open spec fn max_whole_nat() -> nat {
    115792089237316195423570985008687907853269984665640564039457000000000000000000nat
}

/// The largest number that can be multiplied by the unit, as a number.
#[verifier::inline]
pub open spec fn max_scaled_nat() -> nat {
    115792089237316195423570985008687907853269984665640564039457nat
}

/// The square of the unit, 10^36.
pub fn unit_squared() -> (r: U256)
    ensures
        r@ == unit_nat() * unit_nat(),
{
    U256::new(1_000_000_000_000_000_000_000_000_000_000_000_000u128)
}

/// log2(e) as a fixed-point number.
pub fn log2_e() -> (r: U256)
    ensures
        r@ == LOG2_E_U128,
{
    U256::new(LOG2_E_U128)
}

/// log2(10) as a fixed-point number.
pub fn log2_10() -> (r: U256)
    ensures
        r@ == LOG2_10_U128,
{
    U256::new(LOG2_10_U128)
}

/// Euler's number as a fixed-point number.
pub fn e() -> (r: U256)
    ensures
        r@ == E_U128,
{
    U256::new(E_U128)
}

/// 2^128.
pub fn two_to_128() -> (r: U256)
    ensures
        r@ == two_128(),
{
    U256::from_words(1, 0)
}

/// 2^255.
pub fn two_to_255() -> (r: U256)
    ensures
        r@ == two_256() / 2,
{
    U256::from_words(0x8000_0000_0000_0000_0000_0000_0000_0000u128, 0)
}

/// The largest fixed-point number, 2^256 - 1.
pub fn max_ud60x18() -> (r: U256)
    ensures
        r@ == two_256() - 1,
{
    U256::max_value()
}

/// The largest whole fixed-point number: the largest multiple of the unit
/// below 2^256.
pub fn max_whole_ud60x18() -> (r: U256)
    ensures
        r@ == max_whole_nat(),
        r@ == (two_256() - 1) - (two_256() - 1) % (unit_nat() as int),
{
    U256::from_words(
        0xFFFF_FFFF_FFFF_FFFF_FFFF_FFFF_FFFF_FFFFu128,
        0xFFFF_FFFF_FFFF_FFFF_F7E5_2FE5_AFE4_0000u128,
    )
}

/// The largest number that can be multiplied by the unit: `(2^256 - 1) /
/// 10^18`.
pub fn max_scaled_ud60x18() -> (r: U256)
    ensures
        r@ == max_scaled_nat(),
        r@ == (two_256() - 1) / (unit_nat() as int),
{
    U256::from_words(0x12_725D_D1D2_43AB_A0E7u128, 0x5FE6_45CC_4873_F9E6_5AFE_688C_928E_1F21u128)
}

/// The largest fixed-point number whose square fits in 256 bits.
pub fn sqrt_max_ud60x18() -> (r: U256)
    ensures
        r@ == 340282366920938463463374607431768211455999999999nat,
{
    U256::from_words(0x3B9A_C9FFu128, 0xFFFF_FFFF_FFFF_FFFF_FFFF_FFFF_FFFF_FFFFu128)
}

} // verus!
