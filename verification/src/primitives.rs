//! The primitive operations of the arithmetic kernel: modular sums and
//! products that never lose precision, comparisons that yield 0 or 1, and
//! arithmetic that wraps at 2^256.

use vstd::prelude::*;
use vstd::arithmetic::power2::pow2;
use vstd::arithmetic::mul::lemma_mul_strict_upper_bound;
use vstd::arithmetic::div_mod::{lemma_mod_twice, lemma_mod_bound};
use crate::i256::{signed_of, I256};
use crate::u256::{two_256, U256};
use crate::wide::{u256_to_u512, u512_to_u256};

verus! {

/// The namespace of the primitive operations.
pub struct Asm;

impl Asm {
    /// `(x + y) % k` with the sum taken exactly, and 0 where `k` is 0.
    pub fn addmod(x: U256, y: U256, k: U256) -> (r: U256)
        ensures
            k@ == 0 ==> r@ == 0,
            k@ != 0 ==> r@ == (x@ + y@) % k@,
    {
        if k.is_zero() {
            return U256::zero();
        }
        if let Some(z) = x.checked_add(y) {
            return z.rem(k);
        }
        let xw = u256_to_u512(&x);
        let yw = u256_to_u512(&y);
        let kw = u256_to_u512(&k);
        let z = xw.add(yw).rem(kw);
        proof {
            lemma_mod_bound((x@ + y@) as int, k@ as int);
        }
        u512_to_u256(z)
    }

    /// `(x * y) % k` with the product taken exactly, and 0 where `k` is 0.
    pub fn mulmod(x: U256, y: U256, k: U256) -> (r: U256)
        ensures
            k@ == 0 ==> r@ == 0,
            k@ != 0 ==> r@ == (x@ * y@) % k@,
    {
        if k.is_zero() {
            return U256::zero();
        }
        if let Some(z) = x.checked_mul(y) {
            return z.rem(k);
        }
        let xw = u256_to_u512(&x);
        let yw = u256_to_u512(&y);
        let kw = u256_to_u512(&k);
        proof {
            lemma_mul_strict_upper_bound(x@ as int, two_256() as int, y@ as int, two_256() as int);
        }
        let z = xw.mul(yw).rem(kw);
        proof {
            lemma_mod_bound((x@ * y@) as int, k@ as int);
        }
        u512_to_u256(z)
    }

    /// 1 where `x > y`, else 0.
    pub fn gt(x: U256, y: U256) -> (r: U256)
        ensures
            r@ == (if x@ > y@ { 1nat } else { 0nat }),
    {
        if x.gt(y) {
            U256::one()
        } else {
            U256::zero()
        }
    }

    /// 1 where `x < y`, else 0.
    pub fn lt(x: U256, y: U256) -> (r: U256)
        ensures
            r@ == (if x@ < y@ { 1nat } else { 0nat }),
    {
        if x.lt(y) {
            U256::one()
        } else {
            U256::zero()
        }
    }

    /// `x - y` modulo 2^256.
    pub fn u_sub(x: U256, y: U256) -> (r: U256)
        ensures
            r@ == (x@ - y@) % (two_256() as int),
    {
        x.wrapping_sub(y)
    }

    /// `x - y` with both read in two's complement, wrapping at the signed
    /// range.
    pub fn sub(x: U256, y: U256) -> (r: I256)
        ensures
            r@ == signed_of(x@ - y@),
    {
        proof {
            lemma_mod_twice(x@ - y@, two_256() as int);
        }
        I256::from_u256(x.wrapping_sub(y))
    }

    /// 1 where `x > y`, else 0.
    pub fn sgt(x: I256, y: I256) -> (r: I256)
        ensures
            r@ == (if x@ > y@ { 1int } else { 0int }),
    {
        if x.gt(y) {
            I256::one()
        } else {
            I256::zero()
        }
    }

    /// `y` shifted left by `x` bits; the bits that pass bit 255 are dropped.
    pub fn shl(x: U256, y: U256) -> (r: U256)
        requires
            x@ < 256,
        ensures
            r@ == (y@ * pow2(x@)) % two_256(),
    {
        y.shl(x.as_u32())
    }

    /// The bitwise disjunction, word by word.
    pub fn or(x: U256, y: U256) -> (r: U256)
        ensures
            r.hi == x.hi | y.hi,
            r.lo == x.lo | y.lo,
    {
        x.bitor(y)
    }

    /// `x * y` modulo 2^256.
    pub fn mul(x: U256, y: U256) -> (r: U256)
        ensures
            r@ == (x@ * y@) % two_256(),
    {
        x.wrapping_mul(y)
    }

    /// `x + y` modulo 2^256.
    pub fn add(x: U256, y: U256) -> (r: U256)
        ensures
            r@ == (x@ + y@) % two_256(),
    {
        x.wrapping_add(y)
    }

    /// `x / y` rounded down, for a divisor that is not zero.
    pub fn div(x: U256, y: U256) -> (r: U256)
        requires
            y@ != 0,
        ensures
            r@ == x@ / y@,
    {
        x.div(y)
    }
}

} // verus!
