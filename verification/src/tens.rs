//! Powers of ten.

use vstd::prelude::*;
use vstd::arithmetic::power::{pow, lemma_pow0, lemma_pow1, lemma_pow_adds, lemma_pow_increases, lemma_pow_positive};
use crate::u256::{two_256, U256};

verus! {

/// `10^n`.
pub open spec fn pow10(n: nat) -> nat {
    pow(10, n) as nat
}

/// The largest exponent whose power of ten fits in 256 bits.
pub const MAX_EXP10: u8 = 77;

/// The powers of ten that the fixed-point domains are built on, and the
/// largest one that fits in 256 bits.
pub proof fn lemma_pow10_values()
    ensures
        pow10(0) == 1,
        pow10(1) == 10,
        pow10(2) == 100,
        pow10(18) == 1_000_000_000_000_000_000nat,
        pow10(36) == 1_000_000_000_000_000_000_000_000_000_000_000_000nat,
        pow10(77)
            == 100_000_000_000_000_000_000_000_000_000_000_000_000_000_000_000_000_000_000_000_000_000_000_000_000_000nat,
        pow10(77) < two_256(),
{
    lemma_pow0(10);
    lemma_pow1(10);
    let p1 = pow(10, 1);
    let p2 = pow(10, 2);
    let p4 = pow(10, 4);
    let p8 = pow(10, 8);
    let p16 = pow(10, 16);
    let p18 = pow(10, 18);
    let p36 = pow(10, 36);
    let p72 = pow(10, 72);
    let p76 = pow(10, 76);
    lemma_pow_adds(10, 1, 1);
    assert(p2 == 100) by (nonlinear_arith)
        requires
            p2 == p1 * p1,
            p1 == 10,
    ;
    lemma_pow_adds(10, 2, 2);
    assert(p4 == 10_000) by (nonlinear_arith)
        requires
            p4 == p2 * p2,
            p2 == 100,
    ;
    lemma_pow_adds(10, 4, 4);
    assert(p8 == 100_000_000) by (nonlinear_arith)
        requires
            p8 == p4 * p4,
            p4 == 10_000,
    ;
    lemma_pow_adds(10, 8, 8);
    assert(p16 == 10_000_000_000_000_000) by (nonlinear_arith)
        requires
            p16 == p8 * p8,
            p8 == 100_000_000,
    ;
    lemma_pow_adds(10, 16, 2);
    assert(p18 == 1_000_000_000_000_000_000) by (nonlinear_arith)
        requires
            p18 == p16 * p2,
            p16 == 10_000_000_000_000_000,
            p2 == 100,
    ;
    lemma_pow_adds(10, 18, 18);
    assert(p36 == 1_000_000_000_000_000_000_000_000_000_000_000_000) by (nonlinear_arith)
        requires
            p36 == p18 * p18,
            p18 == 1_000_000_000_000_000_000,
    ;
    lemma_pow_adds(10, 36, 36);
    assert(p72
        == 1_000_000_000_000_000_000_000_000_000_000_000_000_000_000_000_000_000_000_000_000_000_000_000_000)
        by (nonlinear_arith)
        requires
            p72 == p36 * p36,
            p36 == 1_000_000_000_000_000_000_000_000_000_000_000_000,
    ;
    lemma_pow_adds(10, 72, 4);
    assert(p76
        == 10_000_000_000_000_000_000_000_000_000_000_000_000_000_000_000_000_000_000_000_000_000_000_000_000_000)
        by (nonlinear_arith)
        requires
            p76 == p72 * p4,
            p72
                == 1_000_000_000_000_000_000_000_000_000_000_000_000_000_000_000_000_000_000_000_000_000_000_000_000,
            p4 == 10_000,
    ;
    lemma_pow_adds(10, 76, 1);
    assert(pow(10, 77)
        == 100_000_000_000_000_000_000_000_000_000_000_000_000_000_000_000_000_000_000_000_000_000_000_000_000_000)
        by (nonlinear_arith)
        requires
            pow(10, 77) == p76 * p1,
            p76
                == 10_000_000_000_000_000_000_000_000_000_000_000_000_000_000_000_000_000_000_000_000_000_000_000_000_000,
            p1 == 10,
    ;
}

/// A power of ten is positive, grows with its exponent, and fits in 256 bits
/// up to the exponent 77.
pub proof fn lemma_pow10_bounds(n: nat, m: nat)
    requires
        n <= m,
    ensures
        0 < pow10(n) <= pow10(m),
        pow10(n + 1) == 10 * pow10(n),
        m <= 77 ==> pow10(m) < two_256(),
{
    lemma_pow_positive(10, n);
    lemma_pow_positive(10, m);
    lemma_pow_increases(10, n, m);
    lemma_pow_adds(10, 1, n);
    lemma_pow1(10);
    if m <= 77 {
        lemma_pow_increases(10, m, 77);
        lemma_pow10_values();
    }
}

/// `10^n` as a 256-bit integer.
pub fn exp10(n: u8) -> (r: U256)
    requires
        n <= MAX_EXP10,
    ensures
        r@ == pow10(n as nat),
{
    let ten = U256::new(10);
    let mut r = U256::one();
    let mut i: u8 = 0;
    proof {
        lemma_pow0(10);
    }
    while i < n
        invariant
            i <= n <= 77,
            ten@ == 10,
            r@ == pow10(i as nat),
        decreases n - i,
    {
        proof {
            lemma_pow10_bounds(i as nat, (i + 1) as nat);
            lemma_pow10_bounds((i + 1) as nat, (i + 1) as nat);
        }
        r = r.mul(ten);
        i = i + 1;
    }
    r
}

} // verus!
