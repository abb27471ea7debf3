//! Binary32 real numbers, held as their bit patterns.
//!
//! Arithmetic rounds to the nearest representable number, ties to the even
//! significand. A result that is not a number is always the one pattern
//! [`NAN_BITS`].

use vstd::arithmetic::power2::{lemma2_to64, lemma_pow2_pos, lemma_pow2_unfold, pow2};
use vstd::prelude::*;

verus! {

/// Mask of the sign in a bit pattern; also the number of magnitudes.
pub const SIGN_BIT: u32 = 0x8000_0000;

/// Magnitude of infinity; every larger magnitude is not a number.
pub const INFINITY_BITS: u32 = 0x7f80_0000;

/// The bit pattern of every result that is not a number.
pub const NAN_BITS: u32 = 0x7fc0_0000;

/// Weight of the hidden bit of a normal number; the number of fractions.
pub const HIDDEN_BIT: u32 = 0x80_0000;

/// The bit pattern of one.
pub const ONE_BITS: u32 = 0x3f80_0000;

/// A binary32 number, given by its bit pattern.
#[derive(Clone, Copy, Debug)]
pub struct Real {
    pub bits: u32,
}

/// Number of binary digits of `n`: the least `k` with `n < 2^k`.
pub open spec fn bit_length(n: nat) -> nat
    decreases n,
{
    if n == 0 {
        0
    } else {
        1 + bit_length(n / 2)
    }
}

/// `n * 2^k` for a positive `k`, and `n` itself otherwise.
pub open spec fn scale(n: nat, k: int) -> nat {
    if k > 0 {
        n * pow2(k as nat)
    } else {
        n
    }
}

/// The integer nearest to `n / d`; a tie goes to the even one.
pub open spec fn half_even(n: nat, d: nat) -> nat
    recommends
        d > 0,
{
    let q = n / d;
    let r = n % d;
    if 2 * r > d || (2 * r == d && q % 2 == 1) {
        q + 1
    } else {
        q
    }
}

/// Whether `(num / den) * 2^exp`, counted in units of `2^u`, is below `2^24`.
pub open spec fn ulp_fits(num: nat, den: nat, exp: int, u: int) -> bool {
    scale(num, exp - u) < scale(den, u - exp) * 0x100_0000
}

/// The exponent of the unit in the last place for `(num / den) * 2^exp`:
/// the least `u >= -149` for which the value is below `2^24` units of `2^u`.
pub open spec fn ulp_exponent(num: nat, den: nat, exp: int) -> int {
    let low = bit_length(num) - bit_length(den) + exp - 24;
    let u = if low < -149 {
        -149
    } else {
        low
    };
    if ulp_fits(num, den, exp, u) {
        u
    } else {
        u + 1
    }
}

/// The magnitude of the binary32 number nearest to `(num / den) * 2^exp`.
///
/// With `u` the exponent of the unit in the last place, the value is rounded
/// to a whole number `q` of units. A normal result has exponent field
/// `u + 150` and fraction `q - 2^23`, a subnormal one has `u == -149` and
/// fraction `q`; both are `(u + 149) * 2^23 + q`. What reaches the magnitude
/// of infinity is infinity.
pub open spec fn rounded_magnitude(num: nat, den: nat, exp: int) -> nat
    recommends
        den > 0,
{
    if num == 0 {
        0
    } else {
        let u = ulp_exponent(num, den, exp);
        let m = (u + 149) * 0x80_0000 + half_even(scale(num, exp - u), scale(den, u - exp));
        if m >= 0x7f80_0000 {
            0x7f80_0000
        } else {
            m as nat
        }
    }
}

/// The binary32 number nearest to `(num / den) * 2^exp`, negated if `negative`.
pub open spec fn rounded(negative: bool, num: nat, den: nat, exp: int) -> Real
    recommends
        den > 0,
{
    Real::with_sign(negative, rounded_magnitude(num, den, exp))
}

impl Real {
    /// The number with the given magnitude, negated if `negative`.
    pub open spec fn with_sign(negative: bool, magnitude: nat) -> Real {
        Real {
            bits: if negative {
                (magnitude + 0x8000_0000) as u32
            } else {
                magnitude as u32
            },
        }
    }

    /// Whether the sign is set; it is for the negative zero too.
    pub open spec fn spec_is_negative(self) -> bool {
        self.bits >= 0x8000_0000
    }

    /// The bit pattern without its sign.
    pub open spec fn magnitude(self) -> nat {
        (self.bits % 0x8000_0000) as nat
    }

    /// Whether this is not a number.
    pub open spec fn spec_is_nan(self) -> bool {
        self.magnitude() > 0x7f80_0000
    }

    /// Whether this is an infinity.
    pub open spec fn spec_is_infinite(self) -> bool {
        self.magnitude() == 0x7f80_0000
    }

    /// Whether this is a number and not an infinity.
    pub open spec fn spec_is_finite(self) -> bool {
        self.magnitude() < 0x7f80_0000
    }

    /// Whether this is zero, of either sign.
    pub open spec fn spec_is_zero(self) -> bool {
        self.magnitude() == 0
    }

    fn magnitude_bits(self) -> (m: u32)
        ensures
            m == self.magnitude(),
            m < 0x8000_0000,
    {
        self.bits % SIGN_BIT
    }

    /// Whether the sign is set; it is for the negative zero too.
    #[verifier::when_used_as_spec(spec_is_negative)]
    pub fn is_negative(self) -> (r: bool)
        ensures
            r == self.spec_is_negative(),
    {
        self.bits >= SIGN_BIT
    }

    /// Whether this is not a number.
    #[verifier::when_used_as_spec(spec_is_nan)]
    pub fn is_nan(self) -> (r: bool)
        ensures
            r == self.spec_is_nan(),
    {
        self.magnitude_bits() > INFINITY_BITS
    }

    /// Whether this is an infinity.
    #[verifier::when_used_as_spec(spec_is_infinite)]
    pub fn is_infinite(self) -> (r: bool)
        ensures
            r == self.spec_is_infinite(),
    {
        self.magnitude_bits() == INFINITY_BITS
    }

    /// Whether this is a number and not an infinity.
    #[verifier::when_used_as_spec(spec_is_finite)]
    pub fn is_finite(self) -> (r: bool)
        ensures
            r == self.spec_is_finite(),
    {
        self.magnitude_bits() < INFINITY_BITS
    }

    /// Whether this is zero, of either sign.
    #[verifier::when_used_as_spec(spec_is_zero)]
    pub fn is_zero(self) -> (r: bool)
        ensures
            r == self.spec_is_zero(),
    {
        self.magnitude_bits() == 0
    }

    /// The significand of a finite number, as a whole number.
    pub open spec fn significand(self) -> nat {
        let m = self.magnitude();
        if m < 0x80_0000 {
            m
        } else {
            (m % 0x80_0000 + 0x80_0000) as nat
        }
    }

    /// The exponent of a finite number: its value is
    /// `significand() * 2^exponent()`, negated if `is_negative()`.
    pub open spec fn exponent(self) -> int {
        let m = self.magnitude();
        if m < 0x80_0000 {
            -149
        } else {
            m / 0x80_0000 - 150
        }
    }

    /// What every operation without a numeric result gives.
    pub open spec fn nan() -> Real {
        Real { bits: 0x7fc0_0000 }
    }

    /// The infinity of the given sign.
    pub open spec fn infinity(negative: bool) -> Real {
        Real::with_sign(negative, 0x7f80_0000)
    }

    /// The zero of the given sign.
    pub open spec fn zero(negative: bool) -> Real {
        Real::with_sign(negative, 0)
    }
}

/// A positive number has a binary digit.
pub proof fn lemma_bit_length_positive(n: nat)
    requires
        n > 0,
    ensures
        bit_length(n) >= 1,
{
}

fn bit_length_u64(n: u64) -> (r: u32)
    ensures
        r == bit_length(n as nat),
        r <= 64,
{
    let mut rest: u64 = n;
    let mut count: u32 = 0;
    let ghost mut bound: nat = 0x1_0000_0000_0000_0000;
    proof {
        lemma2_to64();
    }
    while rest > 0
        invariant
            bit_length(n as nat) == count + bit_length(rest as nat),
            count <= 64,
            bound == pow2((64 - count) as nat),
            rest < bound,
        decreases rest,
    {
        proof {
            if count == 64 {
                assert(pow2(0) == 1) by { lemma2_to64(); }
            }
            lemma_pow2_unfold((64 - count) as nat);
            bound = bound / 2;
        }
        rest = rest / 2;
        count = count + 1;
    }
    count
}

fn pow2_u128(k: u32) -> (r: u128)
    requires
        k <= 120,
    ensures
        r == pow2(k as nat),
        r >= 1,
{
    let mut r: u128 = 1;
    let mut i: u32 = 0;
    proof {
        lemma2_to64();
        lemma_pow2_120();
    }
    while i < k
        invariant
            i <= k <= 120,
            r == pow2(i as nat),
            r >= 1,
            r <= pow2(120),
        decreases k - i,
    {
        proof {
            lemma_pow2_unfold((i + 1) as nat);
            lemma_pow2_120();
            if i + 1 < 120 {
                vstd::arithmetic::power2::lemma_pow2_strictly_increases((i + 1) as nat, 120);
            }
        }
        r = r * 2;
        i = i + 1;
    }
    r
}

proof fn lemma_pow2_120()
    ensures
        pow2(120) == 0x100_0000_0000_0000_0000_0000_0000_0000,
        pow2(60) == 0x1000_0000_0000_0000,
{
    lemma2_to64();
    vstd::arithmetic::power2::lemma_pow2_adds(30, 30);
    vstd::arithmetic::power2::lemma_pow2_adds(60, 60);
    assert(pow2(30) == 0x4000_0000);
    assert(pow2(60) == 0x4000_0000 * 0x4000_0000);
    assert(pow2(120) == 0x1000_0000_0000_0000 * 0x1000_0000_0000_0000);
}

/// Powers of two grow with the exponent.
pub proof fn lemma_pow2_monotone(a: nat, b: nat)
    requires
        a <= b,
    ensures
        pow2(a) <= pow2(b),
{
    if a < b {
        vstd::arithmetic::power2::lemma_pow2_strictly_increases(a, b);
    }
}

/// A number below `2^k` has at most `k` binary digits.
pub proof fn lemma_bit_length_at_most(n: nat, k: nat)
    requires
        n < pow2(k),
    ensures
        bit_length(n) <= k,
    decreases k,
{
    if n > 0 {
        if k == 0 {
            lemma2_to64();
        } else {
            lemma_pow2_unfold(k);
            lemma_bit_length_at_most(n / 2, (k - 1) as nat);
        }
    }
}

/// A number from `2^(k-1)` up to `2^k` has exactly `k` binary digits.
pub proof fn lemma_bit_length_exact(n: nat, k: nat)
    requires
        k >= 1,
        pow2((k - 1) as nat) <= n < pow2(k),
    ensures
        bit_length(n) == k,
    decreases k,
{
    lemma_pow2_pos((k - 1) as nat);
    lemma_pow2_unfold(k);
    if k == 1 {
        lemma2_to64();
        assert(n == 1);
        assert(bit_length(1) == 1 + bit_length(0));
    } else {
        lemma_pow2_unfold((k - 1) as nat);
        lemma_bit_length_exact(n / 2, (k - 1) as nat);
    }
}

fn scale_u128(n: u64, k: i64) -> (r: u128)
    requires
        k <= 48 || (k <= 66 && n <= 0x100_0000),
    ensures
        r == scale(n as nat, k as int),
        r <= 0x1_0000_0000_0000_0000_0000_0000_0000,
        n <= 0x100_0000 ==> r <= 0x400_0000_0000_0000_0000_0000,
        n > 0 ==> r > 0,
{
    if k > 0 {
        let p = pow2_u128(k as u32);
        proof {
            lemma_pow2_120();
            lemma2_to64();
            vstd::arithmetic::power2::lemma_pow2_adds(24, 24);
            vstd::arithmetic::power2::lemma_pow2_adds(60, 6);
            lemma_pow2_monotone(k as nat, 66);
            if n <= 0x100_0000 {
                assert(n * p <= 0x100_0000 * 0x4_0000_0000_0000_0000) by (nonlinear_arith)
                    requires
                        n <= 0x100_0000,
                        p <= 0x4_0000_0000_0000_0000,
                ;
            }
            if k <= 48 {
                lemma_pow2_monotone(k as nat, 48);
                assert(n * p <= 0xffff_ffff_ffff_ffff * 0x1_0000_0000_0000) by (nonlinear_arith)
                    requires
                        n <= 0xffff_ffff_ffff_ffff,
                        p <= 0x1_0000_0000_0000,
                ;
            }
            assert(n > 0 ==> n * p > 0) by (nonlinear_arith)
                requires
                    p >= 1,
            ;
        }
        (n as u128) * p
    } else {
        n as u128
    }
}

impl Real {
    fn signed(negative: bool, magnitude: u32) -> (r: Real)
        requires
            magnitude < 0x8000_0000,
        ensures
            r == Real::with_sign(negative, magnitude as nat),
    {
        if negative {
            Real { bits: magnitude + SIGN_BIT }
        } else {
            Real { bits: magnitude }
        }
    }

    /// The number nearest to `(num / den) * 2^exp`, negated if `negative`.
    pub fn from_ratio(negative: bool, num: u64, den: u64, exp: i32) -> (r: Real)
        requires
            0 < den <= 0x100_0000,
            -1000 <= exp <= 1000,
        ensures
            r == rounded(negative, num as nat, den as nat, exp as int),
    {
        if num == 0 {
            return Real::signed(negative, 0);
        }
        let bn: i64 = bit_length_u64(num) as i64;
        let bd: i64 = bit_length_u64(den) as i64;
        proof {
            lemma2_to64();
            lemma_bit_length_positive(num as nat);
            lemma_bit_length_positive(den as nat);
            lemma_bit_length_at_most(den as nat, 25);
        }
        let low: i64 = bn - bd + (exp as i64) - 24;
        let u0: i64 = if low < -149 {
            -149
        } else {
            low
        };
        let k0: i64 = (exp as i64) - u0;
        if k0 < -64 {
            proof {
                let d = scale(den as nat, -k0 as int);
                lemma_pow2_monotone(65, (-k0) as nat);
                vstd::arithmetic::power2::lemma_pow2_adds(64, 1);
                assert(d >= pow2((-k0) as nat)) by (nonlinear_arith)
                    requires
                        d == den * pow2((-k0) as nat),
                        den >= 1,
                ;
                assert(d * 0x100_0000 >= d) by (nonlinear_arith);
                assert(ulp_fits(num as nat, den as nat, exp as int, u0 as int));
                vstd::arithmetic::div_mod::lemma_small_mod(num as nat, d);
                vstd::arithmetic::div_mod::lemma_basic_div(num as int, d as int);
                assert(half_even(num as nat, d) == 0);
            }
            return Real::signed(negative, 0);
        }
        let n0: u128 = scale_u128(num, k0);
        let d0: u128 = scale_u128(den, -k0);
        let fits: bool = n0 < d0 * 0x100_0000;
        let u: i64;
        let n: u128;
        let d: u128;
        if fits {
            u = u0;
            n = n0;
            d = d0;
        } else {
            u = u0 + 1;
            n = scale_u128(num, k0 - 1);
            d = scale_u128(den, 1 - k0);
        }
        let q: u128 = n / d;
        let rem: u128 = n % d;
        let nearest: u128 = if 2 * rem > d || (2 * rem == d && q % 2 == 1) {
            q + 1
        } else {
            q
        };
        let m: u128 = ((u + 149) as u128) * 0x80_0000 + nearest;
        if m >= 0x7f80_0000 {
            Real::signed(negative, INFINITY_BITS)
        } else {
            Real::signed(negative, m as u32)
        }
    }
}

impl Real {
    /// The number with the given bit pattern.
    pub fn from_bits(bits: u32) -> (r: Real)
        ensures
            r.bits == bits,
    {
        Real { bits }
    }

    /// The bit pattern of the number.
    pub fn to_bits(self) -> (bits: u32)
        ensures
            bits == self.bits,
    {
        self.bits
    }

    fn significand_bits(self) -> (s: u64)
        ensures
            s == self.significand(),
            s < 0x100_0000,
    {
        let m = self.magnitude_bits();
        if m < HIDDEN_BIT {
            m as u64
        } else {
            (m % HIDDEN_BIT + HIDDEN_BIT) as u64
        }
    }

    fn exponent_value(self) -> (e: i32)
        ensures
            e == self.exponent(),
            -149 <= e <= 105,
    {
        let m = self.magnitude_bits();
        if m < HIDDEN_BIT {
            -149
        } else {
            (m / HIDDEN_BIT) as i32 - 150
        }
    }

    /// The real nearest to the integer `i`.
    pub open spec fn spec_from_i32(i: i32) -> Real {
        rounded(i < 0, vstd::math::abs(i as int) as nat, 1, 0)
    }

    /// Converts an integer, rounding where it has more than 24 significant bits.
    pub fn from_i32(i: i32) -> (r: Real)
        ensures
            r == Real::spec_from_i32(i),
    {
        let wide: i64 = i as i64;
        let size: u64 = if wide < 0 {
            (-wide) as u64
        } else {
            wide as u64
        };
        Real::from_ratio(i < 0, size, 1, 0)
    }

    /// One for `true` and zero for `false`.
    pub open spec fn spec_from_bool(b: bool) -> Real {
        Real { bits: if b { 0x3f80_0000 } else { 0 } }
    }

    /// One for `true` and zero for `false`.
    pub fn from_bool(b: bool) -> (r: Real)
        ensures
            r == Real::spec_from_bool(b),
    {
        if b {
            Real { bits: ONE_BITS }
        } else {
            Real { bits: 0 }
        }
    }

    /// The product: not a number if an operand is, or for infinity times
    /// zero; otherwise the exact product of the two values, rounded.
    pub open spec fn spec_times(self, rhs: Real) -> Real {
        let negative = self.is_negative() != rhs.is_negative();
        if self.is_nan() || rhs.is_nan() {
            Real::nan()
        } else if self.is_infinite() || rhs.is_infinite() {
            if self.is_zero() || rhs.is_zero() {
                Real::nan()
            } else {
                Real::infinity(negative)
            }
        } else {
            rounded(
                negative,
                self.significand() * rhs.significand(),
                1,
                self.exponent() + rhs.exponent(),
            )
        }
    }

    /// The product, rounded to the nearest number.
    pub fn times(self, rhs: Real) -> (r: Real)
        ensures
            r == self.spec_times(rhs),
    {
        let negative = self.is_negative() != rhs.is_negative();
        if self.is_nan() || rhs.is_nan() {
            Real { bits: NAN_BITS }
        } else if self.is_infinite() || rhs.is_infinite() {
            if self.is_zero() || rhs.is_zero() {
                Real { bits: NAN_BITS }
            } else {
                Real::signed(negative, INFINITY_BITS)
            }
        } else {
            let a = self.significand_bits();
            let b = rhs.significand_bits();
            assert(a * b <= 0x100_0000 * 0x100_0000) by (nonlinear_arith)
                requires
                    a <= 0x100_0000,
                    b <= 0x100_0000,
            ;
            Real::from_ratio(negative, a * b, 1, self.exponent_value() + rhs.exponent_value())
        }
    }

    /// The quotient: not a number if an operand is, or for zero by zero or
    /// infinity by infinity; infinity for a division by zero; otherwise the
    /// exact quotient of the two values, rounded.
    pub open spec fn spec_divided_by(self, rhs: Real) -> Real {
        let negative = self.is_negative() != rhs.is_negative();
        if self.is_nan() || rhs.is_nan() {
            Real::nan()
        } else if self.is_infinite() {
            if rhs.is_infinite() {
                Real::nan()
            } else {
                Real::infinity(negative)
            }
        } else if rhs.is_infinite() {
            Real::zero(negative)
        } else if rhs.is_zero() {
            if self.is_zero() {
                Real::nan()
            } else {
                Real::infinity(negative)
            }
        } else {
            rounded(
                negative,
                self.significand(),
                rhs.significand(),
                self.exponent() - rhs.exponent(),
            )
        }
    }

    /// The quotient, rounded to the nearest number.
    pub fn divided_by(self, rhs: Real) -> (r: Real)
        ensures
            r == self.spec_divided_by(rhs),
    {
        let negative = self.is_negative() != rhs.is_negative();
        if self.is_nan() || rhs.is_nan() {
            Real { bits: NAN_BITS }
        } else if self.is_infinite() {
            if rhs.is_infinite() {
                Real { bits: NAN_BITS }
            } else {
                Real::signed(negative, INFINITY_BITS)
            }
        } else if rhs.is_infinite() {
            Real::signed(negative, 0)
        } else if rhs.is_zero() {
            if self.is_zero() {
                Real { bits: NAN_BITS }
            } else {
                Real::signed(negative, INFINITY_BITS)
            }
        } else {
            Real::from_ratio(
                negative,
                self.significand_bits(),
                rhs.significand_bits(),
                self.exponent_value() - rhs.exponent_value(),
            )
        }
    }
}

/// Rounding absorbs what is less than a quarter of the last place: a value
/// within `2^d / 4` of `s * 2^d`, where `s` has 24 bits and `d >= 2`, rounds
/// to significand `s` at exponent `e + d`.
proof fn lemma_round_near(x: nat, s: nat, d: nat, e: int)
    requires
        0x80_0000 <= s < 0x100_0000,
        d >= 2,
        -147 <= e + d <= 104,
        4 * (x - s * pow2(d)) < pow2(d),
        4 * (s * pow2(d) - x) < pow2(d),
    ensures
        rounded_magnitude(x, 1, e) == (e + d + 149) * 0x80_0000 + s,
{
    let t = pow2(d);
    let h = pow2((d - 1) as nat);
    let g = pow2((d - 2) as nat);
    let p = s * t;
    lemma_pow2_unfold(d);
    lemma_pow2_unfold((d - 1) as nat);
    lemma_pow2_pos((d - 2) as nat);
    lemma2_to64();
    vstd::arithmetic::power2::lemma_pow2_adds(22, d);
    vstd::arithmetic::power2::lemma_pow2_adds(23, d);
    vstd::arithmetic::power2::lemma_pow2_adds(24, d);
    assert(0x80_0000 * t <= p && p + t <= 0x100_0000 * t) by (nonlinear_arith)
        requires
            p == s * t,
            0x80_0000 <= s < 0x100_0000,
            t > 0,
    ;
    assert(bit_length(1) == 1) by {
        assert(bit_length(1) == 1 + bit_length(0));
    }
    assert(x > 0);
    if x >= p || s > 0x80_0000 {
        if s > 0x80_0000 {
            assert(p - t >= 0x80_0000 * t) by (nonlinear_arith)
                requires
                    p == s * t,
                    s >= 0x80_0001,
                    t > 0,
            ;
        }
        lemma_bit_length_exact(x, 24 + d);
        let u = e + d;
        assert(scale(1, d - 1) == h);
        assert(h * 0x100_0000 == 0x80_0000 * t);
        assert(!ulp_fits(x, 1, e, u - 1));
        assert(ulp_exponent(x, 1, e) == u);
        assert(scale(x, e - u) == x);
        assert(scale(1, u - e) == t);
        if x >= p {
            vstd::arithmetic::div_mod::lemma_fundamental_div_mod_converse(
                x as int,
                t as int,
                s as int,
                x - p,
            );
            assert(half_even(x, t) == s);
        } else {
            assert((s - 1) * t == p - t) by (nonlinear_arith)
                requires
                    p == s * t,
            ;
            vstd::arithmetic::div_mod::lemma_fundamental_div_mod_converse(
                x as int,
                t as int,
                s - 1,
                x - (p - t),
            );
            assert(half_even(x, t) == s);
        }
    } else {
        assert(p == 0x80_0000 * t);
        lemma_bit_length_exact(x, 23 + d);
        let u = e + d - 1;
        assert(scale(1, d - 2) == g);
        assert(g * 0x100_0000 == 0x40_0000 * t);
        assert(!ulp_fits(x, 1, e, u - 1));
        assert(ulp_exponent(x, 1, e) == u);
        assert(scale(x, e - u) == x);
        assert(scale(1, u - e) == h);
        assert(0xff_ffff * h == p - h) by (nonlinear_arith)
            requires
                p == 0x80_0000 * t,
                t == 2 * h,
        ;
        vstd::arithmetic::div_mod::lemma_fundamental_div_mod_converse(
            x as int,
            h as int,
            0xff_ffff,
            x - (p - h),
        );
        assert(half_even(x, h) == 0x100_0000);
    }
}

impl Real {
    /// The value of a finite number in units of `2^e`, for `e <= exponent()`.
    pub open spec fn units(self, e: int) -> int {
        let m = scale(self.significand(), self.exponent() - e);
        if self.is_negative() {
            -m
        } else {
            m as int
        }
    }

    /// The sum: not a number if an operand is, or for two infinities of
    /// opposite sign; an infinite operand otherwise; else the exact sum of the
    /// two values, rounded. An exact zero is negative only if both operands are.
    pub open spec fn spec_plus(self, rhs: Real) -> Real {
        if self.is_nan() || rhs.is_nan() {
            Real::nan()
        } else if self.is_infinite() {
            if rhs.is_infinite() && self.is_negative() != rhs.is_negative() {
                Real::nan()
            } else {
                self
            }
        } else if rhs.is_infinite() {
            rhs
        } else {
            let e = if self.exponent() <= rhs.exponent() {
                self.exponent()
            } else {
                rhs.exponent()
            };
            let total = self.units(e) + rhs.units(e);
            if total == 0 {
                Real::zero(self.is_negative() && rhs.is_negative())
            } else {
                rounded(total < 0, vstd::math::abs(total) as nat, 1, e)
            }
        }
    }

    /// The number with the opposite sign.
    pub open spec fn spec_negated(self) -> Real {
        Real {
            bits: if self.bits >= 0x8000_0000 {
                (self.bits - 0x8000_0000) as u32
            } else {
                (self.bits + 0x8000_0000) as u32
            },
        }
    }

    /// The difference: the sum of `self` and the negated `rhs`.
    pub open spec fn spec_minus(self, rhs: Real) -> Real {
        self.spec_plus(rhs.spec_negated())
    }

    /// An operand whose exponent is 26 or more above the other's is the sum.
    proof fn lemma_plus_far(self, rhs: Real)
        requires
            self.is_finite(),
            rhs.is_finite(),
            self.exponent() - rhs.exponent() >= 26,
        ensures
            self.spec_plus(rhs) == self,
            rhs.spec_plus(self) == self,
    {
        let e = rhs.exponent();
        let d = (self.exponent() - e) as nat;
        let s = self.significand();
        let t = pow2(d);
        lemma_pow2_monotone(26, d);
        lemma2_to64();
        let total = self.units(e) + rhs.units(e);
        assert(rhs.units(e) == if rhs.is_negative() {
            -(rhs.significand() as int)
        } else {
            rhs.significand() as int
        });
        assert(scale(s, self.exponent() - e) == s * t);
        assert(s * t >= 0x80_0000 * t) by (nonlinear_arith)
            requires
                s >= 0x80_0000,
                t > 0,
        ;
        let x = vstd::math::abs(total) as nat;
        lemma_round_near(x, s, d, e);
        assert(rhs.units(e) + self.units(e) == total);
    }

    fn units_value(self, e: i32) -> (r: i64)
        requires
            self.is_finite(),
            e <= self.exponent() <= e + 25,
        ensures
            r == self.units(e as int),
            -0x2_0000_0000_0000 <= r <= 0x2_0000_0000_0000,
    {
        let s = self.significand_bits();
        let k = self.exponent_value() - e;
        let m = scale_u128(s, k as i64);
        proof {
            lemma2_to64();
            vstd::arithmetic::power2::lemma_pow2_adds(24, 25);
            if k > 0 {
                lemma_pow2_monotone(k as nat, 25);
                assert(s * pow2(k as nat) <= 0x100_0000 * 0x200_0000) by (nonlinear_arith)
                    requires
                        s <= 0x100_0000,
                        pow2(k as nat) <= 0x200_0000,
                ;
            }
        }
        if self.is_negative() {
            -(m as i64)
        } else {
            m as i64
        }
    }

    /// The sum, rounded to the nearest number.
    pub fn plus(self, rhs: Real) -> (r: Real)
        ensures
            r == self.spec_plus(rhs),
    {
        if self.is_nan() || rhs.is_nan() {
            Real { bits: NAN_BITS }
        } else if self.is_infinite() {
            if rhs.is_infinite() && self.is_negative() != rhs.is_negative() {
                Real { bits: NAN_BITS }
            } else {
                self
            }
        } else if rhs.is_infinite() {
            rhs
        } else {
            let ea = self.exponent_value();
            let eb = rhs.exponent_value();
            if ea - eb >= 26 {
                proof {
                    self.lemma_plus_far(rhs);
                }
                self
            } else if eb - ea >= 26 {
                proof {
                    rhs.lemma_plus_far(self);
                }
                rhs
            } else {
                let e = if ea <= eb {
                    ea
                } else {
                    eb
                };
                let total = self.units_value(e) + rhs.units_value(e);
                if total == 0 {
                    Real::signed(self.is_negative() && rhs.is_negative(), 0)
                } else if total < 0 {
                    Real::from_ratio(true, (-total) as u64, 1, e)
                } else {
                    Real::from_ratio(false, total as u64, 1, e)
                }
            }
        }
    }

    /// The number with the opposite sign.
    pub fn negated(self) -> (r: Real)
        ensures
            r == self.spec_negated(),
    {
        if self.bits >= SIGN_BIT {
            Real { bits: self.bits - SIGN_BIT }
        } else {
            Real { bits: self.bits + SIGN_BIT }
        }
    }

    /// The difference, rounded to the nearest number.
    pub fn minus(self, rhs: Real) -> (r: Real)
        ensures
            r == self.spec_minus(rhs),
    {
        self.plus(rhs.negated())
    }
}

impl PartialEq for Real {
    /// Equality of the values: zero equals its negative, and what is not a
    /// number equals nothing.
    fn eq(&self, other: &Real) -> (r: bool) {
        !self.is_nan() && !other.is_nan() && (self.bits == other.bits || (self.is_zero()
            && other.is_zero()))
    }
}

impl vstd::std_specs::cmp::PartialEqSpecImpl for Real {
    open spec fn obeys_eq_spec() -> bool {
        true
    }

    open spec fn eq_spec(&self, other: &Real) -> bool {
        !self.is_nan() && !other.is_nan() && (self.bits == other.bits || (self.is_zero()
            && other.is_zero()))
    }
}

} // verus!
