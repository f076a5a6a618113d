//! Powers of two and positions of bits.

use vstd::prelude::*;
use vstd::arithmetic::power2::{pow2, lemma2_to64, lemma2_to64_rest, lemma_pow2_adds, lemma_pow2_pos, lemma_pow2_unfold, lemma_pow2_strictly_increases};
use vstd::arithmetic::div_mod::{
    lemma_div_denominator, lemma_div_multiples_vanish, lemma_fundamental_div_mod,
    lemma_mod_multiples_basic,
};
use crate::u256::{two_128, two_256};
use crate::wide::two_64;

verus! {

/// The powers of two at the word boundaries of a 256-bit integer.
pub proof fn lemma_pow2_values()
    ensures
        pow2(0) == 1,
        pow2(1) == 2,
        pow2(2) == 4,
        pow2(4) == 16,
        pow2(8) == 256,
        pow2(16) == 0x1_0000,
        pow2(32) == 0x1_0000_0000,
        pow2(64) == two_64(),
        pow2(128) == two_128(),
        pow2(191) == 0x8000_0000_0000_0000_0000_0000_0000_0000_0000_0000_0000_0000nat,
        pow2(192) == 0x1_0000_0000_0000_0000_0000_0000_0000_0000_0000_0000_0000_0000nat,
        pow2(255) == 0x8000_0000_0000_0000_0000_0000_0000_0000_0000_0000_0000_0000_0000_0000_0000_0000nat,
        pow2(256) == two_256(),
{
    lemma2_to64();
    lemma2_to64_rest();
    let a = pow2(64);
    let b = pow2(63);
    let c = pow2(128);
    lemma_pow2_adds(64, 64);
    assert(pow2(128) == two_128()) by (nonlinear_arith)
        requires
            pow2(128) == a * a,
            a == 0x1_0000_0000_0000_0000,
    ;
    lemma_pow2_adds(128, 63);
    assert(pow2(191) == 0x8000_0000_0000_0000_0000_0000_0000_0000_0000_0000_0000_0000nat)
        by (nonlinear_arith)
        requires
            pow2(191) == c * b,
            c == 0x1_0000_0000_0000_0000_0000_0000_0000_0000,
            b == 0x8000_0000_0000_0000,
    ;
    lemma_pow2_unfold(192);
    lemma_pow2_adds(128, 127);
    lemma_pow2_adds(64, 63);
    let d = pow2(127);
    assert(d == 0x8000_0000_0000_0000_0000_0000_0000_0000) by (nonlinear_arith)
        requires
            d == a * b,
            a == 0x1_0000_0000_0000_0000,
            b == 0x8000_0000_0000_0000,
    ;
    assert(pow2(255)
        == 0x8000_0000_0000_0000_0000_0000_0000_0000_0000_0000_0000_0000_0000_0000_0000_0000nat)
        by (nonlinear_arith)
        requires
            pow2(255) == c * d,
            c == 0x1_0000_0000_0000_0000_0000_0000_0000_0000,
            d == 0x8000_0000_0000_0000_0000_0000_0000_0000,
    ;
    lemma_pow2_unfold(256);
}

/// `2^a <= 2^b` where `a <= b`, and every power of two is positive.
pub proof fn lemma_pow2_increases(a: nat, b: nat)
    requires
        a <= b,
    ensures
        0 < pow2(a) <= pow2(b),
{
    lemma_pow2_pos(a);
    if a < b {
        lemma_pow2_strictly_increases(a, b);
    }
}

/// Dividing by `2^a` and then by `2^b` divides by `2^(a + b)`.
pub proof fn lemma_div_pow2_twice(x: nat, a: nat, b: nat)
    ensures
        (x / pow2(a)) / pow2(b) == x / pow2(a + b),
{
    lemma_pow2_pos(a);
    lemma_pow2_pos(b);
    lemma_pow2_adds(a, b);
    lemma_div_denominator(x as int, pow2(a) as int, pow2(b) as int);
}

/// The zero-based index of the highest set bit of `x`, and 0 for 0.
pub open spec fn msb_spec(x: nat) -> nat
    decreases x,
{
    if x <= 1 {
        0
    } else {
        1 + msb_spec(x / 2)
    }
}

/// A positive number lies between the power of two at its highest bit and
/// the next one.
pub proof fn lemma_msb_bracket(x: nat)
    requires
        x > 0,
    ensures
        pow2(msb_spec(x)) <= x < pow2(msb_spec(x) + 1),
    decreases x,
{
    lemma2_to64();
    if x > 1 {
        lemma_msb_bracket(x / 2);
        lemma_pow2_unfold(msb_spec(x / 2) + 1);
        lemma_pow2_unfold(msb_spec(x / 2) + 2);
    }
}

/// The only exponent whose power of two brackets `x` is the index of its
/// highest bit.
pub proof fn lemma_msb_unique(x: nat, r: nat)
    requires
        pow2(r) <= x < pow2(r + 1),
    ensures
        msb_spec(x) == r,
    decreases r,
{
    lemma2_to64();
    if r == 0 {
    } else {
        lemma_pow2_unfold(r);
        lemma_pow2_unfold(r + 1);
        lemma_pow2_pos((r - 1) as nat);
        lemma_msb_unique(x / 2, (r - 1) as nat);
    }
}

/// A number below 2^256 has its highest bit below position 256.
pub proof fn lemma_msb_bound(x: nat)
    requires
        x < two_256(),
    ensures
        msb_spec(x) < 256,
{
    if x > 0 {
        lemma_msb_bracket(x);
        lemma_pow2_values();
        if msb_spec(x) >= 256 {
            lemma_pow2_increases(256, msb_spec(x));
        }
    }
}

/// The largest power of two that divides `v`, and 0 for 0.
pub open spec fn lowbit(v: nat) -> nat
    decreases v,
{
    if v == 0 {
        0
    } else if v % 2 == 1 {
        1
    } else {
        2 * lowbit(v / 2)
    }
}

/// The largest power of two that divides a positive `v` is positive and not
/// above `v`, divides `v`, and leaves an odd quotient.
pub proof fn lemma_lowbit(v: nat)
    requires
        v > 0,
    ensures
        0 < lowbit(v) <= v,
        v % lowbit(v) == 0,
        (v / lowbit(v)) % 2 == 1,
    decreases v,
{
    if v % 2 == 0 {
        let h = v / 2;
        let b = lowbit(h);
        lemma_lowbit(h);
        let q = h / b;
        assert(h == b * q) by {
            lemma_fundamental_div_mod(h as int, b as int);
        }
        assert(v == (2 * b) * q) by (nonlinear_arith)
            requires
                v == 2 * h,
                h == b * q,
        ;
        lemma_div_multiples_vanish(q as int, (2 * b) as int);
        lemma_mod_multiples_basic(q as int, (2 * b) as int);
        assert((2 * b) * q == q * (2 * b)) by (nonlinear_arith);
    } else {
    }
}

/// The largest power of two that divides a positive number below `2^n`
/// divides `2^n`.
pub proof fn lemma_lowbit_divides_pow2(v: nat, n: nat)
    requires
        0 < v < pow2(n),
    ensures
        pow2(n) % lowbit(v) == 0,
    decreases v,
{
    lemma2_to64();
    if v % 2 == 0 {
        assert(n >= 1);
        lemma_pow2_unfold(n);
        let h = v / 2;
        let b = lowbit(h);
        let half = pow2((n - 1) as nat);
        lemma_lowbit_divides_pow2(h, (n - 1) as nat);
        lemma_lowbit(h);
        let q = half / b;
        assert(half == b * q) by {
            lemma_fundamental_div_mod(half as int, b as int);
        }
        assert(pow2(n) == q * (2 * b)) by (nonlinear_arith)
            requires
                pow2(n) == 2 * half,
                half == b * q,
        ;
        lemma_mod_multiples_basic(q as int, (2 * b) as int);
    } else {
    }
}

/// Below a multiple of `2^k`, the low part alone decides the largest power of
/// two that divides the sum.
pub proof fn lemma_lowbit_low_part(a: nat, k: nat, lo: nat)
    requires
        0 < lo < pow2(k),
    ensures
        lowbit(a * pow2(k) + lo) == lowbit(lo),
    decreases k,
{
    lemma2_to64();
    if k == 0 {
    } else {
        lemma_pow2_unfold(k);
        let half = pow2((k - 1) as nat);
        let v = a * pow2(k) + lo;
        assert(v == 2 * (a * half) + lo) by (nonlinear_arith)
            requires
                v == a * pow2(k) + lo,
                pow2(k) == 2 * half,
        ;
        if lo % 2 == 0 {
            lemma_lowbit_low_part(a, (k - 1) as nat, lo / 2);
            assert(v / 2 == a * half + lo / 2);
        } else {
            assert(v % 2 == 1);
        }
    }
}

/// Multiplying by `2^k` multiplies the largest dividing power of two by
/// `2^k`.
pub proof fn lemma_lowbit_shifted(v: nat, k: nat)
    requires
        v > 0,
    ensures
        lowbit(v * pow2(k)) == lowbit(v) * pow2(k),
    decreases k,
{
    lemma2_to64();
    if k == 0 {
        assert(v * 1 == v) by (nonlinear_arith);
        assert(lowbit(v) * 1 == lowbit(v)) by (nonlinear_arith);
    } else {
        lemma_pow2_unfold(k);
        let half = pow2((k - 1) as nat);
        lemma_pow2_pos((k - 1) as nat);
        lemma_lowbit_shifted(v, (k - 1) as nat);
        let w = v * pow2(k);
        assert(w == 2 * (v * half) && v * half > 0) by (nonlinear_arith)
            requires
                w == v * pow2(k),
                pow2(k) == 2 * half,
                v > 0,
                half > 0,
        ;
        assert(w / 2 == v * half);
        assert(lowbit(v) * pow2(k) == 2 * (lowbit(v) * half)) by (nonlinear_arith)
            requires
                pow2(k) == 2 * half,
        ;
    }
}

/// On a 128-bit word `v` that is not zero, the conjunction of `v` with its
/// two's complement `w` is the largest power of two that divides `v`.
pub proof fn lemma_u128_lowbit(v: u128, w: u128)
    requires
        v > 0,
        w == two_128() - v,
    ensures
        (v & w) == lowbit(v as nat),
    decreases v,
{
    if v % 2 == 1 {
        assert((v & w) == 1) by (bit_vector)
            requires
                v % 2 == 1,
                w == 0x1_0000_0000_0000_0000_0000_0000_0000_0000 - v,
        ;
    } else {
        let h: u128 = v / 2;
        let wh: u128 = (two_128() - h) as u128;
        lemma_u128_lowbit(h, wh);
        assert((v & w) == 2 * (h & wh)) by (bit_vector)
            requires
                v % 2 == 0,
                v > 0,
                h == v / 2,
                w == 0x1_0000_0000_0000_0000_0000_0000_0000_0000 - v,
                wh == 0x1_0000_0000_0000_0000_0000_0000_0000_0000 - h,
        ;
    }
}

} // verus!
