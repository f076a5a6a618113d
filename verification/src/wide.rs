//! The 512-bit intermediate of multiply-then-reduce.
//!
//! A value is held as eight 64-bit limbs, lowest first, which is how
//! `primitive_types::U512` holds it. Products, sums and remainders are
//! computed by that type; the conversions from and to 256 bits are computed
//! here.

use vstd::prelude::*;
use crate::u256::{two_128, two_256, U256};

verus! {

broadcast use vstd::array::group_array_axioms;

/// 2^64, the weight of a limb.
#[verifier::inline]
pub open spec fn two_64() -> nat {
    0x1_0000_0000_0000_0000nat
}

/// The number that a low and a high limb make.
pub open spec fn limb_pair(lo: u64, hi: u64) -> nat {
    lo as nat + hi as nat * two_64()
}

/// An unsigned 512-bit integer, as eight 64-bit limbs, lowest first.
#[derive(Clone, Copy, Debug)]
pub struct U512 {
    pub limbs: [u64; 8],
}

impl View for U512 {
    type V = nat;

    open spec fn view(&self) -> nat {
        limb_pair(self.limbs[0], self.limbs[1]) + limb_pair(self.limbs[2], self.limbs[3])
            * two_128() + (limb_pair(self.limbs[4], self.limbs[5]) + limb_pair(
            self.limbs[6],
            self.limbs[7],
        ) * two_128()) * two_256()
    }
}

impl U512 {
    /// Calls the `*` of `primitive_types::U512`, which panics where the
    /// product does not fit in 512 bits and otherwise returns it.
    #[verifier::external_body]
    pub(crate) fn mul(self, rhs: U512) -> (r: U512)
        requires
            self@ * rhs@ < two_256() * two_256(),
        ensures
            r@ == self@ * rhs@,
    {
        U512 { limbs: (primitive_types::U512(self.limbs) * primitive_types::U512(rhs.limbs)).0 }
    }

    /// Calls the `+` of `primitive_types::U512`, which panics where the sum
    /// does not fit in 512 bits and otherwise returns it.
    #[verifier::external_body]
    pub(crate) fn add(self, rhs: U512) -> (r: U512)
        requires
            self@ + rhs@ < two_256() * two_256(),
        ensures
            r@ == self@ + rhs@,
    {
        U512 { limbs: (primitive_types::U512(self.limbs) + primitive_types::U512(rhs.limbs)).0 }
    }

    /// Calls the `%` of `primitive_types::U512`, which panics on a zero
    /// divisor and otherwise returns the remainder.
    #[verifier::external_body]
    pub(crate) fn rem(self, rhs: U512) -> (r: U512)
        requires
            rhs@ != 0,
        ensures
            r@ == self@ % rhs@,
    {
        U512 { limbs: (primitive_types::U512(self.limbs) % primitive_types::U512(rhs.limbs)).0 }
    }
}

/// Widens a 256-bit value to 512 bits.
pub fn u256_to_u512(u: &U256) -> (r: U512)
    ensures
        r@ == u@,
{
    let l0 = (u.lo % 0x1_0000_0000_0000_0000u128) as u64;
    let l1 = (u.lo / 0x1_0000_0000_0000_0000u128) as u64;
    let l2 = (u.hi % 0x1_0000_0000_0000_0000u128) as u64;
    let l3 = (u.hi / 0x1_0000_0000_0000_0000u128) as u64;
    U512 { limbs: [l0, l1, l2, l3, 0, 0, 0, 0] }
}

/// Narrows a 512-bit value to 256 bits, saturating at the largest value.
pub fn u512_to_u256(r: U512) -> (u: U256)
    ensures
        r@ < two_256() ==> u@ == r@,
        r@ >= two_256() ==> u@ == two_256() - 1,
{
    if r.limbs[4] != 0 || r.limbs[5] != 0 || r.limbs[6] != 0 || r.limbs[7] != 0 {
        assert(r@ >= two_256()) by {
            assert(limb_pair(r.limbs[4], r.limbs[5]) + limb_pair(r.limbs[6], r.limbs[7])
                * two_128() >= 1);
        }
        U256::max_value()
    } else {
        let lo = (r.limbs[1] as u128) * 0x1_0000_0000_0000_0000u128 + (r.limbs[0] as u128);
        let hi = (r.limbs[3] as u128) * 0x1_0000_0000_0000_0000u128 + (r.limbs[2] as u128);
        assert(r@ == lo + hi * two_128() && r@ < two_256()) by {
            assert(limb_pair(r.limbs[4], r.limbs[5]) == 0);
            assert(limb_pair(r.limbs[6], r.limbs[7]) == 0);
            assert(limb_pair(r.limbs[0], r.limbs[1]) == lo);
            assert(limb_pair(r.limbs[2], r.limbs[3]) == hi);
            assert(hi * two_128() <= (two_128() - 1) * two_128()) by (nonlinear_arith)
                requires
                    hi <= two_128() - 1,
            ;
        }
        U256::from_words(hi, lo)
    }
}

} // verus!
