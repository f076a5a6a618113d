//! The errors that the arithmetic reports.

use vstd::prelude::*;
use crate::i256::I256;
use crate::u256::U256;

verus! {

/// Why an operation has no result. Each variant carries the operands that
/// caused it.
#[derive(Clone, Copy, Debug, PartialEq, Eq, Structural)]
pub enum UD60x18Error {
    /// The sum of the two operands does not fit in 256 bits.
    AddOverflow(U256, U256),
    /// The second operand is larger than the first.
    SubUnderflow(U256, U256),
    /// The quotient of a multiply-divide does not fit in 256 bits: the high
    /// half of the product, and the denominator it is not below.
    MulOverflow(U256, U256),
    /// The product of two fixed-point numbers does not fit in 256 bits: the
    /// high half of the product of the two integers.
    MulDiv18Overflow(U256),
    /// The divisor is zero.
    DivideByZero,
    /// The operand lies above the largest whole fixed-point number.
    CeilOverflow(U256),
    /// The operand times the unit does not fit in 256 bits.
    SqrtOverflow(U256),
    /// The product of the two operands does not fit in 256 bits.
    GmOverflow(U256, U256),
    /// The exponent of `exp` is too large.
    ExpInputTooBig(U256),
    /// The exponent of `exp2` is 192 or more.
    Exp2InputTooBig(U256),
    /// The operand of a logarithm is below one.
    LogInputTooSmall(U256),
    /// The integer is too large to be written as a fixed-point number.
    ToUD60x18Overflow(U256),
    /// A token has more decimals than the normalized precision: the token's
    /// decimals, and the precision.
    TokenDecimalsTooLarge(u8, u8),
}

/// Why an operation of the signed domain has no result.
#[derive(Clone, Copy, Debug, PartialEq, Eq, Structural)]
pub enum SD59x18Error {
    /// A factor is the smallest signed number, which has no magnitude in
    /// the signed range: the first factor.
    MulInputTooSmall(I256),
    /// The magnitude of the product is above the largest signed number.
    MulOverflow(U256),
    /// The exponent of `exp` is too large.
    ExpInputTooBig(I256),
    /// The exponent of `exp2` is 192 or more.
    Exp2InputTooBig(I256),
    /// The operand of a logarithm is zero or negative.
    LogInputTooSmall(I256),
    /// The operand of a square root is negative.
    SqrtNegativeInput(I256),
    /// The operand times the unit is above the largest signed number.
    SqrtOverflow(I256),
    /// The arithmetic on the magnitudes failed.
    Magnitude(UD60x18Error),
}

/// A computed signed result agrees with the result that a spec function
/// gives over integers.
pub open spec fn agrees_signed(r: Result<I256, SD59x18Error>, s: Result<int, SD59x18Error>) -> bool {
    match (r, s) {
        (Ok(a), Ok(b)) => a@ == b,
        (Err(e), Err(f)) => e == f,
        _ => false,
    }
}

/// A computed result agrees with the result that a spec function gives
/// over numbers: both succeed with the same number, or both fail with the
/// same error.
pub open spec fn agrees(r: Result<U256, UD60x18Error>, s: Result<nat, UD60x18Error>) -> bool {
    match (r, s) {
        (Ok(a), Ok(b)) => a@ == b,
        (Err(e), Err(f)) => e == f,
        _ => false,
    }
}

} // verus!
