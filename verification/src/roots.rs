//! The integer square root by the Babylonian method.

use vstd::prelude::*;
use vstd::arithmetic::power2::{pow2, lemma_pow2_adds, lemma_pow2_pos, lemma_pow2_unfold, lemma2_to64};
use vstd::arithmetic::div_mod::{lemma_fundamental_div_mod, lemma_mod_bound, lemma_small_mod, lemma_multiply_divide_lt};
use vstd::bits::lemma_u32_shl_is_mul;
use crate::bits::{lemma_div_pow2_twice, lemma_pow2_increases, lemma_pow2_values};
use crate::u256::{two_128, two_256, U256};

verus! {

/// `s` is the square root of `x` rounded down.
pub open spec fn is_sqrt(x: nat, s: nat) -> bool {
    s * s <= x < (s + 1) * (s + 1)
}

/// The square root of `x` rounded down.
pub open spec fn isqrt(x: nat) -> nat
    decreases x,
{
    if x == 0 {
        0
    } else {
        let s = isqrt((x - 1) as nat);
        if (s + 1) * (s + 1) <= x {
            s + 1
        } else {
            s
        }
    }
}

/// `isqrt(x)` is the square root of `x` rounded down.
pub proof fn lemma_isqrt(x: nat)
    ensures
        is_sqrt(x, isqrt(x)),
    decreases x,
{
    if x > 0 {
        lemma_isqrt((x - 1) as nat);
        let s = isqrt((x - 1) as nat);
        let t = s + 1;
        assert((t + 1) * (t + 1) > t * t) by (nonlinear_arith);
        if t * t <= x {
            assert(isqrt(x) == t);
        } else {
            assert(isqrt(x) == s);
        }
    } else {
        assert(0 * 0 == 0 && (0 + 1) * (0 + 1) == 1) by (nonlinear_arith);
    }
}

/// Two numbers whose squares bracket `x` in the same way are equal.
pub proof fn lemma_sqrt_unique(x: nat, s: nat, t: nat)
    requires
        is_sqrt(x, s),
        is_sqrt(x, t),
    ensures
        s == t,
{
    if s < t {
        assert((s + 1) * (s + 1) <= t * t) by (nonlinear_arith)
            requires
                s + 1 <= t,
        ;
    } else if t < s {
        assert((t + 1) * (t + 1) <= s * s) by (nonlinear_arith)
            requires
                t + 1 <= s,
        ;
    }
}

/// One Babylonian step from any positive `r` lands at or above the root `s`,
/// and its distance from the root is bounded through the square of the
/// distance before.
pub proof fn lemma_babylonian_step(x: int, s: int, r: int)
    requires
        r >= 1,
        s >= 0,
        s * s <= x < (s + 1) * (s + 1),
    ensures
        ({
            let next = (r + x / r) / 2;
            &&& next >= s
            &&& 2 * r * (next - s) <= (r - s) * (r - s) + 2 * s
            &&& 0 <= x / r
            &&& (x / r) * r <= x
            &&& r + x / r >= 2 * next
        }),
{
    let q = x / r;
    let next = (r + q) / 2;
    lemma_fundamental_div_mod(x, r);
    lemma_mod_bound(x, r);
    lemma_fundamental_div_mod(r + q, 2);
    assert(0 <= x) by (nonlinear_arith)
        requires
            s * s <= x,
    ;
    assert(q * r <= x < (q + 1) * r) by (nonlinear_arith)
        requires
            x == r * q + x % r,
            0 <= x % r < r,
    ;
    assert(q >= 0) by (nonlinear_arith)
        requires
            x < (q + 1) * r,
            r >= 1,
            x >= 0,
    ;
    if next < s {
        assert(q + 1 <= 2 * s - r);
        assert((q + 1) * r <= (2 * s - r) * r) by (nonlinear_arith)
            requires
                q + 1 <= 2 * s - r,
                r >= 0,
        ;
        assert((2 * s - r) * r <= s * s) by (nonlinear_arith);
        assert(false);
    }
    assert(2 * r * next <= r * r + q * r) by (nonlinear_arith)
        requires
            2 * next <= r + q,
            r >= 0,
    ;
    assert(x <= s * s + 2 * s) by (nonlinear_arith)
        requires
            x < (s + 1) * (s + 1),
    ;
    assert(2 * r * (next - s) <= (r - s) * (r - s) + 2 * s) by (nonlinear_arith)
        requires
            2 * r * next <= r * r + q * r,
            q * r <= x,
            x <= s * s + 2 * s,
    ;
}

/// The first step, from a power of two `r` with `r <= s < 2 * r`: the next
/// iterate exceeds the root by at most a quarter of the root plus 2.
pub proof fn lemma_first_step(x: int, s: int, r: int)
    requires
        r >= 1,
        r <= s < 2 * r,
        s * s <= x < (s + 1) * (s + 1),
    ensures
        ({
            let next = (r + x / r) / 2;
            &&& next >= s
            &&& 4 * (next - s - 2) <= s
        }),
{
    let next = (r + x / r) / 2;
    lemma_babylonian_step(x, s, r);
    let u = s - r;
    let e = next - s;
    assert((r - s) * (r - s) == u * u) by (nonlinear_arith)
        requires
            u == s - r,
    ;
    if e > 2 {
        // 2 r (e - 2) <= u^2 + 2 s - 4 r < u^2 <= u r
        assert(2 * r * (e - 2) < u * r) by (nonlinear_arith)
            requires
                2 * r * e <= u * u + 2 * s,
                u == s - r,
                0 <= u < r,
                s < 2 * r,
        ;
        assert(2 * (e - 2) < u) by (nonlinear_arith)
            requires
                2 * r * (e - 2) < u * r,
                r >= 1,
        ;
    }
}

/// A later step: where the iterate exceeds the root by at most `s / p + 2`,
/// the next one exceeds it by at most `s / (2 p^2) + 2`.
pub proof fn lemma_later_step(x: int, s: int, r: int, p: int)
    requires
        s >= 1,
        r >= s,
        p >= 1,
        s * s <= x < (s + 1) * (s + 1),
        p * (r - s - 2) <= s,
    ensures
        ({
            let next = (r + x / r) / 2;
            &&& next >= s
            &&& (2 * p * p) * (next - s - 2) <= s
        }),
{
    let next = (r + x / r) / 2;
    lemma_babylonian_step(x, s, r);
    let d = r - s;
    let a = d - 2;
    let e = next - s;
    assert(p * p >= 1) by (nonlinear_arith)
        requires
            p >= 1,
    ;
    if e > 2 {
        // 2 (s + d) (e - 2) <= a^2 - 4 - 2 s
        assert(2 * (s + d) * (e - 2) <= a * a - 4 - 2 * s) by (nonlinear_arith)
            requires
                2 * (s + d) * e <= d * d + 2 * s,
                a == d - 2,
        ;
        assert(2 * s * (e - 2) <= 2 * (s + d) * (e - 2)) by (nonlinear_arith)
            requires
                d >= 0,
                e > 2,
        ;
        if a <= 0 {
            assert(a * a <= 4) by (nonlinear_arith)
                requires
                    -2 <= a <= 0,
            ;
            assert(2 * s * (e - 2) >= 0) by (nonlinear_arith)
                requires
                    s >= 1,
                    e > 2,
            ;
            assert(false);
        }
        let pa = p * a;
        assert(pa * pa <= s * s) by (nonlinear_arith)
            requires
                0 <= pa <= s,
        ;
        assert(0 <= pa) by (nonlinear_arith)
            requires
                pa == p * a,
                p >= 1,
                a >= 1,
        ;
        assert(pa * pa == (p * p) * (a * a)) by (nonlinear_arith)
            requires
                pa == p * a,
        ;
        let w = 2 * s * (e - 2);
        assert(w < a * a);
        assert((p * p) * w < (p * p) * (a * a)) by (nonlinear_arith)
            requires
                w < a * a,
                p * p >= 1,
        ;
        let g = (2 * p * p) * (e - 2);
        assert((p * p) * w == g * s) by (nonlinear_arith)
            requires
                w == 2 * s * (e - 2),
                g == (2 * p * p) * (e - 2),
        ;
        assert(g < s) by (nonlinear_arith)
            requires
                g * s < s * s,
                s >= 1,
        ;
    } else {
        assert((2 * p * p) * (e - 2) <= 0) by (nonlinear_arith)
            requires
                e <= 2,
                p * p >= 1,
        ;
    }
}

/// The last step: where the iterate exceeds the root `s < 2^128` by at most
/// `s / 2^95 + 2`, the next one is the root, or it is the root plus one and
/// `x` divided by it is the root.
pub proof fn lemma_last_step(x: int, s: int, r: int)
    requires
        1 <= s < two_128(),
        r >= s,
        s * s <= x < (s + 1) * (s + 1),
        0x8000_0000_0000_0000_0000_0000 * (r - s - 2) <= s,
    ensures
        ({
            let next = (r + x / r) / 2;
            next == s || (next == s + 1 && x / (s + 1) == s)
        }),
{
    let p: int = 0x8000_0000_0000_0000_0000_0000;
    let next = (r + x / r) / 2;
    let q = x / r;
    lemma_babylonian_step(x, s, r);
    let d = r - s;
    let a = d - 2;
    let e = next - s;
    assert(a < 0x2_0000_0000);
    if a >= 1 {
        assert(a * (a + 2) <= s) by (nonlinear_arith)
            requires
                1 <= a,
                a + 2 <= p,
                p * a <= s,
        ;
    }
    if e >= 2 {
        assert(4 * (s + d) <= d * d + 2 * s) by (nonlinear_arith)
            requires
                2 * (s + d) * e <= d * d + 2 * s,
                e >= 2,
                s + d >= 1,
        ;
        assert(a * a >= 2 * s + 4) by (nonlinear_arith)
            requires
                4 * (s + d) <= d * d + 2 * s,
                a == d - 2,
        ;
        if a <= 0 {
            assert(a * a <= 4) by (nonlinear_arith)
                requires
                    -2 <= a <= 0,
            ;
        } else {
            assert(a * a <= a * (a + 2)) by (nonlinear_arith)
                requires
                    a >= 1,
            ;
        }
        assert(false);
    }
    if e == 1 {
        // q >= s + 2 - d, so x >= q r >= (s + 2 - d)(s + d) >= s (s + 1)
        assert(q >= s + 2 - d);
        assert(q * r >= (s + 2 - d) * (s + d)) by (nonlinear_arith)
            requires
                q >= s + 2 - d,
                r == s + d,
                r >= 1,
        ;
        assert((s + 2 - d) * (s + d) == s * s + 2 * s + 2 * d - d * d) by (nonlinear_arith);
        assert(d * d - 2 * d <= s) by (nonlinear_arith)
            requires
                a == d - 2,
                a >= 1 ==> a * (a + 2) <= s,
                a >= -2,
                s >= 1,
        ;
        assert(x >= s * (s + 1)) by (nonlinear_arith)
            requires
                x >= q * r,
                q * r >= s * s + 2 * s + 2 * d - d * d,
                d * d - 2 * d <= s,
        ;
        lemma_fundamental_div_mod(x, s + 1);
        lemma_mod_bound(x, s + 1);
        let t = x / (s + 1);
        assert(t == s) by (nonlinear_arith)
            requires
                x == (s + 1) * t + x % (s + 1),
                0 <= x % (s + 1) < s + 1,
                s * (s + 1) <= x < (s + 1) * (s + 1),
                s >= 1,
        ;
    }
}

/// A power of two `r` whose square divides `x` to a quotient between 1 and
/// 3 lies within a factor of two below the root of `x`, and the root is
/// below 2^128 where `x` is below 2^256.
pub proof fn lemma_seed_brackets(x: int, s: int, r: int)
    requires
        r >= 1,
        0 <= s,
        1 <= x / (r * r) <= 3,
        s * s <= x < (s + 1) * (s + 1),
        x < two_256(),
    ensures
        r <= s < 2 * r,
        1 <= s < two_128(),
{
    let rr = r * r;
    assert(rr >= 1) by (nonlinear_arith)
        requires
            rr == r * r,
            r >= 1,
    ;
    lemma_fundamental_div_mod(x, rr);
    lemma_mod_bound(x, rr);
    let t = x / rr;
    assert(rr <= x < 4 * rr) by (nonlinear_arith)
        requires
            x == rr * t + x % rr,
            0 <= x % rr < rr,
            1 <= t <= 3,
    ;
    if s < r {
        assert((s + 1) * (s + 1) <= r * r) by (nonlinear_arith)
            requires
                0 <= s + 1 <= r,
        ;
    }
    if s >= 2 * r {
        assert(s * s >= 4 * (r * r)) by (nonlinear_arith)
            requires
                s >= 2 * r,
                r >= 1,
        ;
    }
    if s >= two_128() {
        assert(s * s >= two_256()) by (nonlinear_arith)
            requires
                s >= 0x1_0000_0000_0000_0000_0000_0000_0000_0000,
        ;
    }
}

/// For an iterate `r` at or above the root `s >= 1`, the quotient `x / r`
/// is at most `s + 2`.
pub proof fn lemma_quotient_bound(x: int, s: int, r: int)
    requires
        s >= 1,
        r >= s,
        s * s <= x < (s + 1) * (s + 1),
    ensures
        0 <= x / r <= s + 2,
{
    let q = x / r;
    lemma_babylonian_step(x, s, r);
    if q >= s + 3 {
        assert(q * r >= (s + 1) * (s + 1)) by (nonlinear_arith)
            requires
                q >= s + 3,
                r >= s,
                s >= 1,
        ;
    }
}

/// The square root of `x` rounded down.
///
/// Seeds the Babylonian method with the power of two at half the bit length
/// of `x`, which lies within a factor of two below the root, makes seven
/// steps, and returns the smaller of the last iterate and `x` divided by it.
pub fn sqrt(x: U256) -> (r: U256)
    ensures
        is_sqrt(x@, r@),
        r@ == isqrt(x@),
{
    proof {
        lemma_isqrt(x@);
        lemma_pow2_values();
    }
    if x.is_zero() {
        proof {
            lemma_sqrt_unique(x@, 0, isqrt(x@));
        }
        return U256::zero();
    }
    let ghost s = isqrt(x@) as int;
    let mut x_aux = x;
    let mut result = U256::one();
    let mut k: u32 = 7;
    let ghost mut e: nat = 0;
    proof {
        lemma2_to64();
        assert(pow2(2 * e) == 1);
    }
    while k > 0
        invariant
            k <= 7,
            x_aux@ == x@ / pow2(2 * e),
            result@ == pow2(e),
            x_aux@ < pow2(pow2((k + 1) as nat)),
            x_aux@ >= 1,
            2 * e + pow2((k + 1) as nat) <= 256,
        decreases k,
    {
        proof {
            lemma_pow2_values();
            lemma2_to64();
            lemma_pow2_increases(k as nat, 7);
            lemma_pow2_unfold((k + 1) as nat);
            lemma_pow2_unfold(k as nat);
            lemma_u32_shl_is_mul(1, k);
            lemma_u32_shl_is_mul(1, (k - 1) as u32);
            lemma_pow2_increases((k - 1) as nat, 7);
        }
        let shift: u32 = 1u32 << k;
        let half: u32 = 1u32 << (k - 1);
        proof {
            lemma_pow2_increases(shift as nat, 128);
            lemma_pow2_adds(shift as nat, shift as nat);
            lemma_small_mod(pow2(shift as nat), two_256());
        }
        let threshold = U256::one().shl(shift);
        if x_aux.ge(threshold) {
            proof {
                let p = pow2(shift as nat);
                lemma_multiply_divide_lt(x_aux@ as int, p as int, p as int);
                assert(x_aux@ / p >= 1) by (nonlinear_arith)
                    requires
                        x_aux@ >= p,
                        p > 0,
                ;
                lemma_div_pow2_twice(x@, 2 * e, shift as nat);
                lemma_pow2_adds(e, half as nat);
                lemma_pow2_increases(e + half as nat, 128);
                lemma_small_mod(pow2(e + half as nat), two_256());
            }
            x_aux = x_aux.shr(shift);
            result = result.shl(half);
            proof {
                e = e + half as nat;
            }
        }
        k = k - 1;
    }
    proof {
        lemma2_to64();
        lemma_pow2_adds(e, e);
        lemma_pow2_pos(e);
        lemma_seed_brackets(x@ as int, s, result@ as int);
    }
    let mut i: u32 = 0;
    while i < 7
        invariant
            i <= 7,
            x@ > 0,
            s == isqrt(x@),
            1 <= s < two_128(),
            s * s <= x@ < (s + 1) * (s + 1),
            i == 0 ==> 1 <= result@ <= s < 2 * result@,
            i == 1 ==> result@ >= s && 4 * (result@ - s - 2) <= s,
            i == 2 ==> result@ >= s && 32 * (result@ - s - 2) <= s,
            i == 3 ==> result@ >= s && 2048 * (result@ - s - 2) <= s,
            i == 4 ==> result@ >= s && 8388608 * (result@ - s - 2) <= s,
            i == 5 ==> result@ >= s && 0x8000_0000_0000 * (result@ - s - 2) <= s,
            i == 6 ==> result@ >= s && 0x8000_0000_0000_0000_0000_0000 * (result@ - s - 2) <= s,
            i == 7 ==> result@ == s || (result@ == s + 1 && x@ / ((s + 1) as nat) == s),
        decreases 7 - i,
    {
        proof {
            let r = result@ as int;
            lemma2_to64();
            if i == 0 {
                lemma_first_step(x@ as int, s, r);
                assert(x@ < 4 * (r * r)) by (nonlinear_arith)
                    requires
                        x@ < (s + 1) * (s + 1),
                        s + 1 <= 2 * r,
                        s >= 0,
                ;
                assert(4 * (r * r) == r * (4 * r)) by (nonlinear_arith);
                lemma_multiply_divide_lt(x@ as int, r, 4 * r);
            } else {
                lemma_quotient_bound(x@ as int, s, r);
                if i == 1 {
                    lemma_later_step(x@ as int, s, r, 4);
                } else if i == 2 {
                    lemma_later_step(x@ as int, s, r, 32);
                } else if i == 3 {
                    lemma_later_step(x@ as int, s, r, 2048);
                } else if i == 4 {
                    lemma_later_step(x@ as int, s, r, 8388608);
                } else if i == 5 {
                    lemma_later_step(x@ as int, s, r, 0x8000_0000_0000);
                } else {
                    lemma_last_step(x@ as int, s, r);
                }
            }
        }
        let q = x.div(result);
        result = result.add(q).shr(1);
        i = i + 1;
    }
    let rounded_down_result = x.div(result);
    proof {
        let r = result@ as int;
        if r == s {
            lemma_fundamental_div_mod(x@ as int, s);
            lemma_mod_bound(x@ as int, s);
            let t = x@ as int / s;
            assert(t >= s) by (nonlinear_arith)
                requires
                    x@ == s * t + x@ as int % s,
                    0 <= x@ as int % s < s,
                    s * s <= x@,
                    s >= 1,
            ;
        }
    }
    if result.ge(rounded_down_result) {
        rounded_down_result
    } else {
        result
    }
}

} // verus!
