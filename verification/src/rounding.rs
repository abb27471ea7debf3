//! What holds of rounding to binary32.

use crate::binary32::{
    bit_length, half_even, lemma_bit_length_exact, lemma_pow2_monotone, rounded, scale,
    ulp_exponent, ulp_fits, Real,
};
use vstd::arithmetic::power2::{
    lemma2_to64, lemma_pow2_adds, lemma_pow2_pos, lemma_pow2_unfold, pow2,
};
use vstd::prelude::*;

verus! {

/// `half_even(n, d)` is a whole number nearest to `n / d`: it is off by at
/// most one half, and by exactly one half only if it is even.
pub proof fn law_half_even_is_nearest(n: nat, d: nat)
    requires
        d > 0,
    ensures
        2 * (half_even(n, d) * d - n) <= d,
        2 * (n - half_even(n, d) * d) <= d,
        2 * (half_even(n, d) * d - n) == d || 2 * (n - half_even(n, d) * d) == d ==> half_even(
            n,
            d,
        ) % 2 == 0,
{
    let q = n / d;
    let r = n % d;
    vstd::arithmetic::div_mod::lemma_fundamental_div_mod(n as int, d as int);
    assert(n == d * q + r);
    assert(d * q == q * d) by (nonlinear_arith);
    assert((q + 1) * d == q * d + d) by (nonlinear_arith);
}

/// A positive number lies between the powers of two that its number of
/// binary digits gives.
pub proof fn lemma_bit_length_bounds(n: nat)
    requires
        n > 0,
    ensures
        bit_length(n) >= 1,
        pow2((bit_length(n) - 1) as nat) <= n < pow2(bit_length(n)),
    decreases n,
{
    lemma2_to64();
    if n == 1 {
        assert(bit_length(1) == 1 + bit_length(0));
    } else {
        lemma_bit_length_bounds(n / 2);
        lemma_pow2_unfold(bit_length(n));
        lemma_pow2_unfold((bit_length(n) - 1) as nat);
    }
}

/// What fits in 24 bits at one exponent of the last place fits at the next.
proof fn lemma_fits_next(num: nat, den: nat, exp: int, u: int)
    requires
        den > 0,
        ulp_fits(num, den, exp, u),
    ensures
        ulp_fits(num, den, exp, u + 1),
{
    lemma2_to64();
    if exp - u > 0 {
        let k = (exp - u) as nat;
        let n = scale(num, exp - u);
        let m = scale(num, exp - u - 1);
        assert(n == 2 * m) by {
            lemma_pow2_unfold(k);
            if k > 1 {
                assert(num * pow2(k) == 2 * (num * pow2((k - 1) as nat))) by (nonlinear_arith)
                    requires
                        pow2(k) == 2 * pow2((k - 1) as nat),
                ;
            } else {
                assert(num * pow2(1) == 2 * num) by (nonlinear_arith)
                    requires
                        pow2(1) == 2,
                ;
            }
        }
        assert(scale(den, u - exp) == den);
        assert(scale(den, u + 1 - exp) == den);
    } else {
        let k = (u + 1 - exp) as nat;
        let d = scale(den, u - exp);
        let c = scale(den, u + 1 - exp);
        assert(c == 2 * d) by {
            lemma_pow2_unfold(k);
            if k > 1 {
                assert(den * pow2(k) == 2 * (den * pow2((k - 1) as nat))) by (nonlinear_arith)
                    requires
                        pow2(k) == 2 * pow2((k - 1) as nat),
                ;
            } else {
                assert(den * pow2(1) == 2 * den) by (nonlinear_arith)
                    requires
                        pow2(1) == 2,
                ;
            }
        }
        assert(scale(num, exp - u) == num);
        assert(scale(num, exp - u - 1) == num);
    }
}

/// What fits in 24 bits at one exponent of the last place fits at every
/// larger one.
proof fn lemma_fits_above(num: nat, den: nat, exp: int, u: int, v: int)
    requires
        den > 0,
        u <= v,
        ulp_fits(num, den, exp, u),
    ensures
        ulp_fits(num, den, exp, v),
    decreases v - u,
{
    if u < v {
        lemma_fits_next(num, den, exp, u);
        lemma_fits_above(num, den, exp, u + 1, v);
    }
}

/// `scale(n, k)` as a product, for a `k` that is not negative.
proof fn lemma_scale(n: nat, k: int)
    requires
        k >= 0,
    ensures
        scale(n, k) == n * pow2(k as nat),
{
    lemma2_to64();
    if k == 0 {
        assert(n * pow2(0) == n);
    }
}

/// With `b` binary digits in the numerator and `c` in the denominator, the
/// value fits at the exponent `b - c + exp - 23` and not at `b - c + exp - 25`.
proof fn lemma_fits_by_length(num: nat, den: nat, exp: int)
    requires
        num > 0,
        den > 0,
    ensures
        ulp_fits(num, den, exp, bit_length(num) - bit_length(den) + exp - 23),
        !ulp_fits(num, den, exp, bit_length(num) - bit_length(den) + exp - 25),
{
    let b = bit_length(num);
    let c = bit_length(den);
    lemma_bit_length_bounds(num);
    lemma_bit_length_bounds(den);
    lemma2_to64();
    let cm = (c - 1) as nat;
    let bm = (b - 1) as nat;
    // fits at b - c + exp - 23
    let k = 23 - b + c;
    if k > 0 {
        // num * 2^k < 2^b * 2^k = 2^(23 + c) = 2^24 * 2^(c - 1) <= 2^24 * den
        lemma_pow2_adds(b, k as nat);
        lemma_pow2_adds(24, cm);
        lemma_pow2_pos(k as nat);
        assert(num * pow2(k as nat) < pow2(b) * pow2(k as nat)) by (nonlinear_arith)
            requires
                num < pow2(b),
                pow2(k as nat) > 0,
        ;
        assert(pow2(24) * pow2(cm) <= den * 0x100_0000) by (nonlinear_arith)
            requires
                pow2(cm) <= den,
                pow2(24) == 0x100_0000,
        ;
    } else {
        // num < 2^b = 2^(c - 1) * 2^(-k) * 2^24 <= den * 2^(-k) * 2^24
        lemma_scale(den, -k);
        lemma_pow2_adds(cm, (-k) as nat);
        lemma_pow2_adds((cm + (-k)) as nat, 24);
        assert(pow2(cm) * pow2((-k) as nat) * 0x100_0000 <= den * pow2((-k) as nat) * 0x100_0000)
            by (nonlinear_arith)
            requires
                pow2(cm) <= den,
        ;
    }
    // does not fit at b - c + exp - 25
    let j = 25 - b + c;
    if j > 0 {
        // num * 2^j >= 2^(b - 1) * 2^j = 2^(24 + c) = 2^24 * 2^c > 2^24 * den
        lemma_pow2_adds(bm, j as nat);
        lemma_pow2_adds(24, c);
        assert(num * pow2(j as nat) >= pow2(bm) * pow2(j as nat)) by (nonlinear_arith)
            requires
                num >= pow2(bm),
        ;
        assert(pow2(24) * pow2(c) > den * 0x100_0000) by (nonlinear_arith)
            requires
                pow2(c) > den,
                pow2(24) == 0x100_0000,
        ;
    } else {
        // num >= 2^(b - 1) = 2^c * 2^(-j) * 2^24 > den * 2^(-j) * 2^24
        lemma_scale(den, -j);
        lemma_pow2_adds(c, (-j) as nat);
        lemma_pow2_adds((c + (-j)) as nat, 24);
        lemma_pow2_pos((-j) as nat);
        assert(pow2(c) * pow2((-j) as nat) * 0x100_0000 > den * pow2((-j) as nat) * 0x100_0000)
            by (nonlinear_arith)
            requires
                pow2(c) > den,
                pow2((-j) as nat) > 0,
        ;
    }
}

/// The exponent of the last place is the least one, from -149 on, at which
/// the value fits in 24 bits.
pub proof fn law_ulp_exponent_is_least(num: nat, den: nat, exp: int)
    requires
        num > 0,
        den > 0,
    ensures
        ulp_exponent(num, den, exp) >= -149,
        ulp_fits(num, den, exp, ulp_exponent(num, den, exp)),
        ulp_exponent(num, den, exp) > -149 ==> !ulp_fits(
            num,
            den,
            exp,
            ulp_exponent(num, den, exp) - 1,
        ),
{
    let low = bit_length(num) - bit_length(den) + exp - 24;
    let first = if low < -149 {
        -149
    } else {
        low
    };
    lemma_fits_by_length(num, den, exp);
    lemma_fits_above(num, den, exp, low + 1, first + 1);
    if ulp_fits(num, den, exp, first) {
        if first > -149 && ulp_fits(num, den, exp, first - 1) {
            lemma_fits_above(num, den, exp, low - 1, first - 1);
        }
    }
}

/// Rounding keeps what is a binary32 number: the value of a finite number
/// rounds to that number.
pub proof fn law_rounding_keeps_numbers(x: Real)
    requires
        x.is_finite(),
    ensures
        rounded(x.is_negative(), x.significand(), 1, x.exponent()) == x,
{
    let s = x.significand();
    let e = x.exponent();
    lemma2_to64();
    assert(bit_length(1) == 1) by {
        assert(bit_length(1) == 1 + bit_length(0));
    }
    if s > 0 {
        lemma_bit_length_bounds(s);
        if s >= 0x80_0000 {
            lemma_bit_length_exact(s, 24);
            if e > -149 {
                assert(scale(s, 1) == s * 2);
                assert(!ulp_fits(s, 1, e, e - 1));
            }
        } else {
            if bit_length(s) > 23 {
                lemma_pow2_monotone(23, (bit_length(s) - 1) as nat);
            }
        }
        assert(ulp_fits(s, 1, e, e));
        assert(ulp_exponent(s, 1, e) == e);
        assert(half_even(s, 1) == s);
    }
}

} // verus!
