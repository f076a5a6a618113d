//! The signed 256-bit integer of the signed fixed-point domain.
//!
//! A value is held in two's complement as a signed high word and an unsigned
//! low word. Its view is an integer in `[-2^255, 2^255)`.

use vstd::prelude::*;
use crate::u256::{two_128, two_256, U256};

verus! {

/// 2^255, the first value that does not fit.
#[verifier::inline]
pub open spec fn two_255() -> nat {
    0x8000_0000_0000_0000_0000_0000_0000_0000_0000_0000_0000_0000_0000_0000_0000_0000nat
}

/// The integer in `[-2^255, 2^255)` that is congruent to `n` modulo 2^256.
pub open spec fn signed_of(n: int) -> int {
    let m = n % (two_256() as int);
    if m < two_255() {
        m
    } else {
        m - two_256()
    }
}

/// The distance of `v` from zero.
pub open spec fn magnitude(v: int) -> nat {
    if v < 0 {
        (-v) as nat
    } else {
        v as nat
    }
}

/// `a / b` rounded toward zero, for a positive `b`.
pub open spec fn div_toward_zero(a: int, b: int) -> int {
    if a >= 0 {
        a / b
    } else {
        -((-a) / b)
    }
}

/// A signed 256-bit integer in two's complement.
#[derive(Clone, Copy, Debug, PartialEq, Eq, Structural)]
pub struct I256 {
    pub hi: i128,
    pub lo: u128,
}

impl View for I256 {
    type V = int;

    open spec fn view(&self) -> int {
        self.hi as int * two_128() + self.lo as int
    }
}

impl Default for I256 {
    /// Zero.
    fn default() -> (r: I256)
        ensures
            r@ == 0,
    {
        I256 { hi: 0, lo: 0 }
    }
}

impl I256 {
    /// The value `hi * 2^128 + lo`.
    pub fn from_words(hi: i128, lo: u128) -> (r: I256)
        ensures
            r@ == hi * two_128() + lo,
            r == (I256 { hi, lo }),
    {
        I256 { hi, lo }
    }

    /// The value `v`.
    pub fn new(v: i128) -> (r: I256)
        ensures
            r@ == v,
    {
        if v >= 0 {
            I256 { hi: 0, lo: v as u128 }
        } else {
            // the low word of a negative value is 2^128 + v
            let lo = ((v - i128::MIN) as u128) + 0x8000_0000_0000_0000_0000_0000_0000_0000u128;
            I256 { hi: -1, lo }
        }
    }

    /// The value with the given view.
    pub open spec fn from_int(v: int) -> I256 {
        I256 { hi: (v / (two_128() as int)) as i128, lo: (v % (two_128() as int)) as u128 }
    }

    /// `from_int` inverts the view on every number in `[-2^255, 2^255)`.
    pub proof fn lemma_from_int(v: int)
        requires
            -(two_255() as int) <= v < two_255(),
        ensures
            Self::from_int(v)@ == v,
    {
    }

    /// Zero.
    pub fn zero() -> (r: I256)
        ensures
            r@ == 0,
    {
        I256 { hi: 0, lo: 0 }
    }

    /// One.
    pub fn one() -> (r: I256)
        ensures
            r@ == 1,
    {
        I256 { hi: 0, lo: 1 }
    }

    /// The smallest value, -2^255.
    pub fn min_value() -> (r: I256)
        ensures
            r@ == -(two_255() as int),
    {
        I256 { hi: i128::MIN, lo: 0 }
    }

    /// The largest value, 2^255 - 1.
    pub fn max_value() -> (r: I256)
        ensures
            r@ == two_255() - 1,
    {
        I256 { hi: i128::MAX, lo: u128::MAX }
    }

    /// Every view lies in `[-2^255, 2^255)`, and two values with the same
    /// view are the same value.
    pub proof fn lemma_view(self, other: I256)
        ensures
            -(two_255() as int) <= self@ < two_255(),
            self@ == other@ <==> self == other,
    {
    }

    /// The value that `from_int` gives for the view of a value is that value.
    pub proof fn lemma_from_view(self)
        ensures
            Self::from_int(self@) == self,
    {
        self.lemma_view(self);
        Self::lemma_from_int(self@);
        self.lemma_view(Self::from_int(self@));
    }

    /// Whether the value is below 0.
    pub fn is_negative(self) -> (r: bool)
        ensures
            r == (self@ < 0),
    {
        self.hi < 0
    }

    /// Whether the value is 0.
    pub fn is_zero(self) -> (r: bool)
        ensures
            r == (self@ == 0),
    {
        self.hi == 0 && self.lo == 0
    }

    /// Whether `self < other`.
    pub fn lt(self, other: I256) -> (r: bool)
        ensures
            r == (self@ < other@),
    {
        self.hi < other.hi || (self.hi == other.hi && self.lo < other.lo)
    }

    /// Whether `self <= other`.
    pub fn le(self, other: I256) -> (r: bool)
        ensures
            r == (self@ <= other@),
    {
        self.hi < other.hi || (self.hi == other.hi && self.lo <= other.lo)
    }

    /// Whether `self > other`.
    pub fn gt(self, other: I256) -> (r: bool)
        ensures
            r == (self@ > other@),
    {
        other.lt(self)
    }

    /// Whether `self >= other`.
    pub fn ge(self, other: I256) -> (r: bool)
        ensures
            r == (self@ >= other@),
    {
        other.le(self)
    }

    /// The distance of the value from zero.
    pub fn unsigned_abs(self) -> (r: U256)
        ensures
            r@ == (if self@ < 0 {
                -self@
            } else {
                self@
            }),
    {
        if self.hi >= 0 {
            self.as_u256()
        } else {
            proof {
                self.lemma_view(self);
                vstd::arithmetic::div_mod::lemma_mod_multiples_vanish(
                    1,
                    0 - (self@ + two_256()),
                    two_256() as int,
                );
                vstd::arithmetic::div_mod::lemma_small_mod((-self@) as nat, two_256());
            }
            U256::zero().wrapping_sub(self.as_u256())
        }
    }

    /// The value with the given sign and distance from zero.
    pub fn from_sign_magnitude(negative: bool, magnitude: U256) -> (r: I256)
        requires
            magnitude@ < two_255() || (negative && magnitude@ == two_255()),
        ensures
            r@ == (if negative {
                -(magnitude@ as int)
            } else {
                magnitude@ as int
            }),
    {
        if negative {
            proof {
                if magnitude@ > 0 {
                    vstd::arithmetic::div_mod::lemma_mod_multiples_vanish(
                        1,
                        0 - magnitude@,
                        two_256() as int,
                    );
                    vstd::arithmetic::div_mod::lemma_small_mod(
                        (two_256() - magnitude@) as nat,
                        two_256(),
                    );
                }
            }
            I256::from_u256(U256::zero().wrapping_sub(magnitude))
        } else {
            I256::from_u256(magnitude)
        }
    }

    /// The same 256 bits read as an unsigned number: the view modulo 2^256.
    pub fn as_u256(self) -> (r: U256)
        ensures
            r@ == self@ % (two_256() as int),
            self@ >= 0 ==> r@ == self@,
            self@ < 0 ==> r@ == self@ + two_256(),
    {
        let hi: u128 = if self.hi >= 0 {
            self.hi as u128
        } else {
            ((self.hi - i128::MIN) as u128) + 0x8000_0000_0000_0000_0000_0000_0000_0000u128
        };
        U256 { hi, lo: self.lo }
    }

    /// The 256 bits of `u` read in two's complement.
    pub fn from_u256(u: U256) -> (r: I256)
        ensures
            r@ == signed_of(u@ as int),
            u@ < two_255() ==> r@ == u@,
            u@ >= two_255() ==> r@ == u@ - two_256(),
    {
        let hi: i128 = if u.hi < 0x8000_0000_0000_0000_0000_0000_0000_0000u128 {
            u.hi as i128
        } else {
            ((u.hi - 0x8000_0000_0000_0000_0000_0000_0000_0000u128) as i128) + i128::MIN
        };
        I256 { hi, lo: u.lo }
    }
}

} // verus!
