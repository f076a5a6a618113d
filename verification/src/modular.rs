//! Arithmetic modulo 2^256: what the steps of the full-precision
//! multiply-divide rest on.

use vstd::prelude::*;
use vstd::arithmetic::div_mod::{
    lemma_add_mod_noop, lemma_div_is_ordered, lemma_div_multiples_vanish,
    lemma_fundamental_div_mod, lemma_hoist_over_denominator, lemma_mod_bound, lemma_mod_mod,
    lemma_mod_multiples_vanish, lemma_mod_twice, lemma_mul_mod_noop_general,
    lemma_multiply_divide_lt, lemma_small_mod, lemma_sub_mod_noop,
};
use vstd::arithmetic::mul::{lemma_mul_is_commutative, lemma_mul_upper_bound};
use crate::u256::two_256;

verus! {

/// `a` and `b` leave the same remainder modulo `m`.
pub open spec fn cong(a: int, b: int, m: int) -> bool {
    a % m == b % m
}

/// Congruent factors give congruent products.
pub proof fn lemma_cong_mul(a: int, a2: int, b: int, b2: int, m: int)
    requires
        m > 0,
        cong(a, a2, m),
        cong(b, b2, m),
    ensures
        cong(a * b, a2 * b2, m),
{
    lemma_mul_mod_noop_general(a, b, m);
    lemma_mul_mod_noop_general(a2, b2, m);
}

/// Congruent terms give congruent sums.
pub proof fn lemma_cong_add(a: int, a2: int, b: int, b2: int, m: int)
    requires
        m > 0,
        cong(a, a2, m),
        cong(b, b2, m),
    ensures
        cong(a + b, a2 + b2, m),
{
    lemma_add_mod_noop(a, b, m);
    lemma_add_mod_noop(a2, b2, m);
}

/// Congruent terms give congruent differences.
pub proof fn lemma_cong_sub(a: int, a2: int, b: int, b2: int, m: int)
    requires
        m > 0,
        cong(a, a2, m),
        cong(b, b2, m),
    ensures
        cong(a - b, a2 - b2, m),
{
    lemma_sub_mod_noop(a, b, m);
    lemma_sub_mod_noop(a2, b2, m);
}

/// What is congruent modulo a multiple of `m` is congruent modulo `m`.
pub proof fn lemma_cong_shrink(a: int, b: int, m: int, c: int)
    requires
        m > 0,
        c > 0,
        cong(a, b, m * c),
    ensures
        cong(a, b, m),
{
    lemma_mod_mod(a, m, c);
    lemma_mod_mod(b, m, c);
}

/// A remainder is congruent to what it is the remainder of.
pub proof fn lemma_cong_mod(a: int, m: int)
    requires
        m > 0,
    ensures
        cong(a % m, a, m),
{
    lemma_mod_twice(a, m);
}

/// One Newton-Raphson step doubles the precision of a modular inverse: where
/// `inv` inverts `d` modulo `m`, the next iterate `inv * (2 - d * inv)`,
/// computed modulo a multiple of `m * m`, inverts `d` modulo `m * m`.
pub proof fn lemma_newton_step(d: int, inv: int, m: int, c: int)
    requires
        m > 1,
        c > 0,
        (d * inv) % m == 1,
    ensures
        ({
            let big = (m * m) * c;
            let e = (d * inv) % big;
            let t = (2 - e) % big;
            let next = (inv * t) % big;
            (d * next) % (m * m) == 1
        }),
{
    let m2 = m * m;
    let big = m2 * c;
    let z = d * inv;
    let e = z % big;
    let t = (2 - e) % big;
    let next = (inv * t) % big;
    assert(m2 > 1 && big > 0) by (nonlinear_arith)
        requires
            m > 1,
            c > 0,
            m2 == m * m,
            big == m2 * c,
    ;
    // every reduction modulo `big` is a reduction modulo `m2`
    lemma_cong_mod(z, big);
    lemma_cong_shrink(e, z, m2, c);
    lemma_cong_mod(2 - e, big);
    lemma_cong_shrink(t, 2 - e, m2, c);
    lemma_cong_mod(inv * t, big);
    lemma_cong_shrink(next, inv * t, m2, c);
    lemma_cong_sub(2, 2, e, z, m2);
    assert(cong(t, 2 - z, m2));
    lemma_cong_mul(inv, inv, t, 2 - z, m2);
    assert(cong(next, inv * (2 - z), m2));
    lemma_cong_mul(d, d, next, inv * (2 - z), m2);
    assert(d * (inv * (2 - z)) == z * (2 - z)) by (nonlinear_arith)
        requires
            z == d * inv,
    ;
    // z = 1 + a * m, so z * (2 - z) = 1 - a^2 * m^2
    let a = z / m;
    lemma_fundamental_div_mod(z, m);
    assert(z * (2 - z) == m2 * (-(a * a)) + 1) by (nonlinear_arith)
        requires
            z == m * a + 1,
            m2 == m * m,
    ;
    lemma_mod_multiples_vanish(-(a * a), 1, m2);
    lemma_small_mod(1, m2 as nat);
}

/// The high word of a product of two 256-bit numbers, recovered from its
/// remainders modulo 2^256 and modulo 2^256 - 1: the difference of the two
/// remainders, less one where the first is the smaller, taken modulo 2^256.
pub proof fn lemma_high_word(x: nat, y: nat, mm: nat, prod0: nat)
    requires
        x < two_256(),
        y < two_256(),
        mm == (x * y) % ((two_256() - 1) as nat),
        prod0 == (x * y) % two_256(),
    ensures
        ({
            let borrow: int = if mm < prod0 {
                1
            } else {
                0
            };
            (((mm - prod0) % (two_256() as int)) - borrow) % (two_256() as int) == (x * y)
                / two_256()
        }),
{
    let big = two_256() as int;
    let p = (x * y) as int;
    let h = p / big;
    let l = p % big;
    lemma_fundamental_div_mod(p, big);
    lemma_mul_upper_bound(x as int, big - 1, y as int, big - 1);
    assert(0 <= p) by (nonlinear_arith)
        requires
            p == x * y,
    ;
    assert(h <= big - 2) by {
        lemma_div_is_ordered(p, (big - 1) * (big - 1), big);
    }
    assert(0 <= h) by {
        lemma_div_is_ordered(0, p, big);
    }
    // p = h * (2^256 - 1) + (h + l)
    lemma_mod_multiples_vanish(h, h + l, big - 1);
    assert(p == (big - 1) * h + (h + l));
    assert(mm == (h + l) % (big - 1));
    if h + l < big - 1 {
        lemma_small_mod((h + l) as nat, (big - 1) as nat);
        lemma_small_mod(h as nat, big as nat);
    } else {
        lemma_mod_multiples_vanish(-1, h + l, big - 1);
        lemma_small_mod((h + l - (big - 1)) as nat, (big - 1) as nat);
        assert(mm == h + l - (big - 1));
        lemma_mod_multiples_vanish(1, mm - prod0, big);
        lemma_small_mod((h + 1) as nat, big as nat);
        lemma_small_mod(h as nat, big as nat);
    }
}

/// The quotient of a 512-bit number by `d` fits in 256 bits exactly where
/// the high word is below `d`.
pub proof fn lemma_quotient_fits(hi: nat, lo: nat, d: nat)
    requires
        d > 0,
        lo < two_256(),
    ensures
        hi < d <==> (hi * two_256() + lo) / d < two_256(),
{
    let big = two_256() as int;
    let n = (hi * two_256() + lo) as int;
    if hi < d {
        assert(n < d * big) by (nonlinear_arith)
            requires
                n == hi * big + lo,
                lo < big,
                hi + 1 <= d,
        ;
        lemma_multiply_divide_lt(n, d as int, big);
    } else {
        assert(n >= big * d) by (nonlinear_arith)
            requires
                n == hi * big + lo,
                lo >= 0,
                hi >= d,
                big > 0,
        ;
        lemma_div_is_ordered(big * d, n, d as int);
        lemma_div_multiples_vanish(big, d as int);
        lemma_mul_is_commutative(big, d as int);
    }
}

/// Division of a 512-bit number by multiplication with a modular inverse.
///
/// The number is `hi * 2^256 + lo` and `d` the divisor, with `hi < d` so
/// that the quotient fits. `twos` is a power of two that divides `d`, and
/// `inverse` inverts `d / twos` modulo 2^256. The steps: subtract the
/// remainder from the number, which leaves the words `p1` and `p0`; divide
/// the low word by `twos` and shift the bits of the high word in, which
/// leaves the low word `low` of the number divided by `twos`; multiply by
/// the inverse.
pub proof fn lemma_divide_by_inverse(
    hi: int,
    lo: int,
    rem: int,
    d: int,
    twos: int,
    inverse: int,
    p1: int,
    p0: int,
    flip: int,
    low: int,
    result: int,
)
    requires
        0 <= lo < two_256(),
        0 <= hi < d < two_256(),
        0 < twos,
        d % twos == 0,
        (two_256() as int) % twos == 0,
        ((d / twos) * inverse) % (two_256() as int) == 1,
        rem == (hi * two_256() + lo) % d,
        p1 == (hi - (if rem > lo {
            1int
        } else {
            0int
        })) % (two_256() as int),
        p0 == (lo - rem) % (two_256() as int),
        flip == ((((0 - twos) % (two_256() as int)) / twos) + 1) % (two_256() as int),
        low == (p0 / twos + (p1 * flip) % (two_256() as int)) % (two_256() as int),
        result == (low * inverse) % (two_256() as int),
    ensures
        result == (hi * two_256() + lo) / d,
{
    let big = two_256() as int;
    let n = hi * big + lo;
    let q = n / d;
    let dodd = d / twos;
    let c = big / twos;
    let t = twos;
    assert(0 <= n) by (nonlinear_arith)
        requires
            n == hi * big + lo,
            hi >= 0,
            lo >= 0,
            big > 0,
    ;
    lemma_fundamental_div_mod(n, d);
    lemma_mod_bound(n, d);
    lemma_quotient_fits(hi as nat, lo as nat, d as nat);
    assert(0 <= q) by {
        lemma_div_is_ordered(0, n, d);
    }
    lemma_fundamental_div_mod(d, t);
    lemma_fundamental_div_mod(big, t);
    assert(d == t * dodd);
    assert(big == t * c);
    assert(t <= d && dodd >= 1) by (nonlinear_arith)
        requires
            d == t * dodd,
            d > 0,
            t > 0,
    ;
    assert(c >= 1) by (nonlinear_arith)
        requires
            big == t * c,
            big > 0,
            t > 0,
    ;
    // the two words after the remainder is taken off hold n - rem
    assert(rem > lo ==> hi >= 1) by (nonlinear_arith)
        requires
            rem <= n,
            n == hi * big + lo,
            hi >= 0,
            big > 0,
    ;
    if rem > lo {
        lemma_small_mod((hi - 1) as nat, big as nat);
        lemma_mod_multiples_vanish(1, lo - rem, big);
        lemma_small_mod((lo - rem + big) as nat, big as nat);
    } else {
        lemma_small_mod(hi as nat, big as nat);
        lemma_small_mod((lo - rem) as nat, big as nat);
    }
    assert(p1 * big + p0 == n - rem) by (nonlinear_arith)
        requires
            n == hi * big + lo,
            rem > lo ==> p1 == hi - 1 && p0 == lo - rem + big,
            rem <= lo ==> p1 == hi && p0 == lo - rem,
    ;
    // (n - rem) / twos, once as the shifted words, once as q * (d / twos)
    assert(n - rem == p0 + (p1 * c) * t) by (nonlinear_arith)
        requires
            p1 * big + p0 == n - rem,
            big == t * c,
    ;
    lemma_hoist_over_denominator(p0, p1 * c, t as nat);
    assert((n - rem) / t == p0 / t + p1 * c);
    assert(n - rem == t * (q * dodd)) by (nonlinear_arith)
        requires
            n == d * q + rem,
            d == t * dodd,
    ;
    lemma_div_multiples_vanish(q * dodd, t);
    assert((n - rem) / t == q * dodd);
    // flip is 2^256 / twos modulo 2^256
    lemma_mod_multiples_vanish(1, 0 - t, big);
    lemma_small_mod((big - t) as nat, big as nat);
    assert(big - t == t * (c - 1)) by (nonlinear_arith)
        requires
            big == t * c,
    ;
    lemma_div_multiples_vanish(c - 1, t);
    assert(flip == c % big);
    lemma_cong_mod(c, big);
    // low is congruent to q * (d / twos)
    lemma_cong_mul(p1, p1, flip, c, big);
    lemma_cong_mod(p1 * flip, big);
    lemma_cong_add(p0 / t, p0 / t, (p1 * flip) % big, p1 * c, big);
    lemma_cong_mod(p0 / t + (p1 * flip) % big, big);
    assert(cong(low, q * dodd, big));
    // so low * inverse is congruent to q
    lemma_cong_mul(low, q * dodd, inverse, inverse, big);
    assert((q * dodd) * inverse == q * (dodd * inverse)) by (nonlinear_arith);
    lemma_cong_mod(dodd * inverse, big);
    lemma_small_mod(1, big as nat);
    lemma_cong_mul(q, q, dodd * inverse, 1, big);
    lemma_cong_mod(low * inverse, big);
    assert(q * 1 == q) by (nonlinear_arith);
    lemma_small_mod(q as nat, big as nat);
}

} // verus!
