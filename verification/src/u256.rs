//! The unsigned 256-bit integer that all arithmetic in this crate works on.
//!
//! A value is held as two 128-bit words. Its mathematical meaning is its view,
//! a natural number below 2^256. Comparisons and bitwise operations are
//! computed on the words; arithmetic and shifts are performed by `ethnum`.

use vstd::prelude::*;
use vstd::arithmetic::power2::pow2;
use vstd::arithmetic::div_mod::lemma_mod_multiples_vanish;

verus! {

/// 2^128, the weight of the high word.
#[verifier::inline]
pub open spec fn two_128() -> nat {
    0x1_0000_0000_0000_0000_0000_0000_0000_0000nat
}

/// 2^256, the modulus of wrapping arithmetic.
#[verifier::inline]
pub open spec fn two_256() -> nat {
    0x1_0000_0000_0000_0000_0000_0000_0000_0000_0000_0000_0000_0000_0000_0000_0000_0000nat
}

/// An unsigned 256-bit integer, as a high and a low 128-bit word.
#[derive(Clone, Copy, Debug, PartialEq, Eq, Structural)]
pub struct U256 {
    pub hi: u128,
    pub lo: u128,
}

impl View for U256 {
    type V = nat;

    open spec fn view(&self) -> nat {
        self.hi as nat * two_128() + self.lo as nat
    }
}

impl Default for U256 {
    /// Zero.
    fn default() -> (r: U256)
        ensures
            r@ == 0,
    {
        U256 { hi: 0, lo: 0 }
    }
}

impl U256 {
    /// The value `lo`.
    pub fn new(lo: u128) -> (r: U256)
        ensures
            r@ == lo,
            r == (U256 { hi: 0, lo }),
    {
        U256 { hi: 0, lo }
    }

    /// The value `hi * 2^128 + lo`.
    pub fn from_words(hi: u128, lo: u128) -> (r: U256)
        ensures
            r@ == hi * two_128() + lo,
            r == (U256 { hi, lo }),
    {
        U256 { hi, lo }
    }

    /// The high and the low word.
    pub fn into_words(self) -> (r: (u128, u128))
        ensures
            r.0 == self.hi,
            r.1 == self.lo,
    {
        (self.hi, self.lo)
    }

    /// Zero.
    pub fn zero() -> (r: U256)
        ensures
            r@ == 0,
    {
        U256 { hi: 0, lo: 0 }
    }

    /// One.
    pub fn one() -> (r: U256)
        ensures
            r@ == 1,
    {
        U256 { hi: 0, lo: 1 }
    }

    /// The largest value, 2^256 - 1.
    pub fn max_value() -> (r: U256)
        ensures
            r@ == two_256() - 1,
    {
        U256 { hi: u128::MAX, lo: u128::MAX }
    }

    /// Every view is below 2^256, and two values with the same view are the
    /// same value.
    pub proof fn lemma_view(self, other: U256)
        ensures
            self@ < two_256(),
            self@ == other@ <==> self == other,
    {
    }

    /// The value with the given view.
    pub open spec fn from_nat(n: nat) -> U256 {
        U256 { hi: (n / two_128()) as u128, lo: (n % two_128()) as u128 }
    }

    /// `from_nat` inverts the view on every number below 2^256.
    pub proof fn lemma_from_nat(n: nat)
        requires
            n < two_256(),
        ensures
            Self::from_nat(n)@ == n,
    {
    }

    /// The value that `from_nat` gives for the view of a value is that value.
    pub proof fn lemma_from_view(self)
        ensures
            Self::from_nat(self@) == self,
    {
        Self::lemma_from_nat(self@);
        self.lemma_view(Self::from_nat(self@));
    }

    /// Whether the value is 0.
    pub fn is_zero(self) -> (r: bool)
        ensures
            r == (self@ == 0),
    {
        self.hi == 0 && self.lo == 0
    }

    /// Whether `self < other`.
    pub fn lt(self, other: U256) -> (r: bool)
        ensures
            r == (self@ < other@),
    {
        self.hi < other.hi || (self.hi == other.hi && self.lo < other.lo)
    }

    /// Whether `self <= other`.
    pub fn le(self, other: U256) -> (r: bool)
        ensures
            r == (self@ <= other@),
    {
        self.hi < other.hi || (self.hi == other.hi && self.lo <= other.lo)
    }

    /// Whether `self > other`.
    pub fn gt(self, other: U256) -> (r: bool)
        ensures
            r == (self@ > other@),
    {
        other.lt(self)
    }

    /// Whether `self >= other`.
    pub fn ge(self, other: U256) -> (r: bool)
        ensures
            r == (self@ >= other@),
    {
        other.le(self)
    }

    /// Whether the lowest bit is set.
    pub fn is_odd(self) -> (r: bool)
        ensures
            r == (self@ % 2 == 1),
    {
        proof {
            lemma_mod_multiples_vanish(
                self.hi as int * 0x8000_0000_0000_0000_0000_0000_0000_0000,
                self.lo as int,
                2,
            );
        }
        self.lo % 2 == 1
    }

    /// The lowest 8 bits.
    pub fn as_u8(self) -> (r: u8)
        ensures
            r == self@ % 256,
    {
        proof {
            lemma_mod_multiples_vanish(
                self.hi as int * 0x100_0000_0000_0000_0000_0000_0000_0000,
                self.lo as int,
                256,
            );
        }
        (self.lo % 256) as u8
    }

    /// The lowest 32 bits.
    pub fn as_u32(self) -> (r: u32)
        ensures
            r == self@ % 0x1_0000_0000,
    {
        proof {
            lemma_mod_multiples_vanish(
                self.hi as int * 0x1_0000_0000_0000_0000_0000_0000,
                self.lo as int,
                0x1_0000_0000,
            );
        }
        (self.lo % 0x1_0000_0000) as u32
    }

    /// The lowest 128 bits.
    pub fn as_u128(self) -> (r: u128)
        ensures
            r == self@ % two_128(),
    {
        self.lo
    }

    /// The bitwise conjunction, word by word.
    pub fn bitand(self, rhs: U256) -> (r: U256)
        ensures
            r.hi == self.hi & rhs.hi,
            r.lo == self.lo & rhs.lo,
    {
        U256 { hi: self.hi & rhs.hi, lo: self.lo & rhs.lo }
    }

    /// The bitwise disjunction, word by word.
    pub fn bitor(self, rhs: U256) -> (r: U256)
        ensures
            r.hi == self.hi | rhs.hi,
            r.lo == self.lo | rhs.lo,
    {
        U256 { hi: self.hi | rhs.hi, lo: self.lo | rhs.lo }
    }

    /// The bitwise exclusive disjunction, word by word.
    pub fn bitxor(self, rhs: U256) -> (r: U256)
        ensures
            r.hi == self.hi ^ rhs.hi,
            r.lo == self.lo ^ rhs.lo,
    {
        U256 { hi: self.hi ^ rhs.hi, lo: self.lo ^ rhs.lo }
    }

    /// The bitwise complement, which is `2^256 - 1 - self`.
    pub fn not(self) -> (r: U256)
        ensures
            r.hi == !self.hi,
            r.lo == !self.lo,
            r@ == two_256() - 1 - self@,
    {
        let hi = self.hi;
        let lo = self.lo;
        assert(!hi == 0xffff_ffff_ffff_ffff_ffff_ffff_ffff_ffffu128 - hi) by (bit_vector);
        assert(!lo == 0xffff_ffff_ffff_ffff_ffff_ffff_ffff_ffffu128 - lo) by (bit_vector);
        U256 { hi: !hi, lo: !lo }
    }

    /// Calls `ethnum::U256::overflowing_add`: the sum modulo 2^256, and
    /// whether the exact sum is 2^256 or more.
    #[verifier::external_body]
    pub(crate) fn ext_overflowing_add(self, rhs: U256) -> (r: (U256, bool))
        ensures
            r.0@ == (self@ + rhs@) % two_256(),
            r.1 == (self@ + rhs@ >= two_256()),
    {
        let (sum, carry) = ethnum::U256::from_words(self.hi, self.lo)
            .overflowing_add(ethnum::U256::from_words(rhs.hi, rhs.lo));
        let (hi, lo) = sum.into_words();
        (U256 { hi, lo }, carry)
    }

    /// Calls `ethnum::U256::overflowing_sub`: the difference modulo 2^256,
    /// and whether `rhs` is larger than `self`.
    #[verifier::external_body]
    pub(crate) fn ext_overflowing_sub(self, rhs: U256) -> (r: (U256, bool))
        ensures
            r.0@ == (self@ - rhs@) % (two_256() as int),
            r.1 == (self@ < rhs@),
    {
        let (diff, borrow) = ethnum::U256::from_words(self.hi, self.lo)
            .overflowing_sub(ethnum::U256::from_words(rhs.hi, rhs.lo));
        let (hi, lo) = diff.into_words();
        (U256 { hi, lo }, borrow)
    }

    /// Calls `ethnum::U256::overflowing_mul`: the product modulo 2^256, and
    /// whether the exact product is 2^256 or more.
    #[verifier::external_body]
    pub(crate) fn ext_overflowing_mul(self, rhs: U256) -> (r: (U256, bool))
        ensures
            r.0@ == (self@ * rhs@) % two_256(),
            r.1 == (self@ * rhs@ >= two_256()),
    {
        let (prod, over) = ethnum::U256::from_words(self.hi, self.lo)
            .overflowing_mul(ethnum::U256::from_words(rhs.hi, rhs.lo));
        let (hi, lo) = prod.into_words();
        (U256 { hi, lo }, over)
    }

    /// Calls the `/` of `ethnum::U256`, which panics on a zero divisor and
    /// otherwise returns the quotient rounded down.
    #[verifier::external_body]
    pub(crate) fn div(self, rhs: U256) -> (r: U256)
        requires
            rhs@ != 0,
        ensures
            r@ == self@ / rhs@,
    {
        let q = ethnum::U256::from_words(self.hi, self.lo)
            / ethnum::U256::from_words(rhs.hi, rhs.lo);
        let (hi, lo) = q.into_words();
        U256 { hi, lo }
    }

    /// Calls the `%` of `ethnum::U256`, which panics on a zero divisor and
    /// otherwise returns the remainder.
    #[verifier::external_body]
    pub(crate) fn rem(self, rhs: U256) -> (r: U256)
        requires
            rhs@ != 0,
        ensures
            r@ == self@ % rhs@,
    {
        let m = ethnum::U256::from_words(self.hi, self.lo)
            % ethnum::U256::from_words(rhs.hi, rhs.lo);
        let (hi, lo) = m.into_words();
        U256 { hi, lo }
    }

    /// Calls the `<<` of `ethnum::U256` with a shift below 256: the bits
    /// move up by `n` places and those that pass bit 255 are dropped.
    #[verifier::external_body]
    pub(crate) fn shl(self, n: u32) -> (r: U256)
        requires
            n < 256,
        ensures
            r@ == (self@ * pow2(n as nat)) % two_256(),
    {
        let (hi, lo) = (ethnum::U256::from_words(self.hi, self.lo) << n).into_words();
        U256 { hi, lo }
    }

    /// Calls the `>>` of `ethnum::U256` with a shift below 256: the bits
    /// move down by `n` places and the lowest `n` are dropped.
    #[verifier::external_body]
    pub(crate) fn shr(self, n: u32) -> (r: U256)
        requires
            n < 256,
        ensures
            r@ == self@ / pow2(n as nat),
    {
        let (hi, lo) = (ethnum::U256::from_words(self.hi, self.lo) >> n).into_words();
        U256 { hi, lo }
    }

    /// `self + rhs` modulo 2^256.
    pub fn wrapping_add(self, rhs: U256) -> (r: U256)
        ensures
            r@ == (self@ + rhs@) % two_256(),
    {
        self.ext_overflowing_add(rhs).0
    }

    /// `self - rhs` modulo 2^256.
    pub fn wrapping_sub(self, rhs: U256) -> (r: U256)
        ensures
            r@ == (self@ - rhs@) % (two_256() as int),
    {
        self.ext_overflowing_sub(rhs).0
    }

    /// `self * rhs` modulo 2^256.
    pub fn wrapping_mul(self, rhs: U256) -> (r: U256)
        ensures
            r@ == (self@ * rhs@) % two_256(),
    {
        self.ext_overflowing_mul(rhs).0
    }

    /// `self + rhs`, or `None` where the sum does not fit.
    pub fn checked_add(self, rhs: U256) -> (r: Option<U256>)
        ensures
            self@ + rhs@ < two_256() ==> r.is_some() && r.unwrap()@ == self@ + rhs@,
            self@ + rhs@ >= two_256() ==> r.is_none(),
    {
        let (sum, carry) = self.ext_overflowing_add(rhs);
        if carry {
            None
        } else {
            proof {
                vstd::arithmetic::div_mod::lemma_small_mod(self@ + rhs@, two_256());
            }
            Some(sum)
        }
    }

    /// `self - rhs`, or `None` where `rhs` is the larger.
    pub fn checked_sub(self, rhs: U256) -> (r: Option<U256>)
        ensures
            self@ >= rhs@ ==> r.is_some() && r.unwrap()@ == self@ - rhs@,
            self@ < rhs@ ==> r.is_none(),
    {
        let (diff, borrow) = self.ext_overflowing_sub(rhs);
        if borrow {
            None
        } else {
            proof {
                vstd::arithmetic::div_mod::lemma_small_mod((self@ - rhs@) as nat, two_256());
            }
            Some(diff)
        }
    }

    /// `self * rhs`, or `None` where the product does not fit.
    pub fn checked_mul(self, rhs: U256) -> (r: Option<U256>)
        ensures
            self@ * rhs@ < two_256() ==> r.is_some() && r.unwrap()@ == self@ * rhs@,
            self@ * rhs@ >= two_256() ==> r.is_none(),
    {
        let (prod, over) = self.ext_overflowing_mul(rhs);
        if over {
            None
        } else {
            proof {
                vstd::arithmetic::div_mod::lemma_small_mod(self@ * rhs@, two_256());
            }
            Some(prod)
        }
    }

    /// `self + rhs`, where the sum fits.
    pub fn add(self, rhs: U256) -> (r: U256)
        requires
            self@ + rhs@ < two_256(),
        ensures
            r@ == self@ + rhs@,
    {
        proof {
            vstd::arithmetic::div_mod::lemma_small_mod(self@ + rhs@, two_256());
        }
        self.ext_overflowing_add(rhs).0
    }

    /// `self - rhs`, where `rhs` is not the larger.
    pub fn sub(self, rhs: U256) -> (r: U256)
        requires
            self@ >= rhs@,
        ensures
            r@ == self@ - rhs@,
    {
        proof {
            vstd::arithmetic::div_mod::lemma_small_mod((self@ - rhs@) as nat, two_256());
        }
        self.ext_overflowing_sub(rhs).0
    }

    /// `self * rhs`, where the product fits.
    pub fn mul(self, rhs: U256) -> (r: U256)
        requires
            self@ * rhs@ < two_256(),
        ensures
            r@ == self@ * rhs@,
    {
        proof {
            vstd::arithmetic::div_mod::lemma_small_mod(self@ * rhs@, two_256());
        }
        self.ext_overflowing_mul(rhs).0
    }
}

} // verus!
