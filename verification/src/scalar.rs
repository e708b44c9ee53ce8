//! Scalars as IEEE 754 binary32 bit patterns.
//!
//! The pipeline carries scalars (depths, elevations, noise samples, screen
//! coordinates, weights) and decides by comparing them, by rounding or casting them to
//! integers or by snapping them to a grid. All of that can be read off the
//! bit pattern exactly, so a scalar is kept here as its 32 bits, and this
//! module says what those bits mean. It also says how a number is rounded
//! to binary32, for the one place where the library multiplies by a scalar:
//! the scaling of colour channels.

use vstd::prelude::*;
use vstd::arithmetic::power2::{pow2, lemma2_to64, lemma_pow2_pos, lemma_pow2_strictly_increases};
use vstd::bits::{lemma_u64_shl_is_mul, lemma_u64_shr_is_div};

verus! {

/// The bit pattern of zero.
pub const ZERO_BITS: u32 = 0;

/// The bit pattern of one.
pub const ONE_BITS: u32 = 0x3f80_0000;

/// The bit pattern of positive infinity.
pub const INFINITY_BITS: u32 = 0x7f80_0000;

/// The bit that holds the sign.
pub const SIGN_BIT: u32 = 0x8000_0000;

/// The weight of the hidden leading bit of a normal number's significand.
pub const HIDDEN_BIT: u32 = 0x80_0000;

/// A binary32 number, held by its bit pattern.
///
/// The derived `==` compares bit patterns. It is finer than the order of the
/// numbers: it tells `-0` from `+0`, and a NaN equals itself.
#[derive(Debug, Clone, Copy, PartialEq, Eq, Structural)]
pub struct Scalar {
    pub bits: u32,
}

impl Scalar {
    /// Whether the sign bit is set. It may be set on zero and on NaN.
    pub open spec fn sign_negative(self) -> bool {
        self.bits >= SIGN_BIT
    }

    /// The bits without the sign.
    pub open spec fn magnitude(self) -> int {
        if self.bits >= SIGN_BIT {
            self.bits - SIGN_BIT
        } else {
            self.bits as int
        }
    }

    pub open spec fn is_nan_spec(self) -> bool {
        self.magnitude() > INFINITY_BITS
    }

    pub open spec fn is_infinite_spec(self) -> bool {
        self.magnitude() == INFINITY_BITS
    }

    /// Zero, subnormal or normal: neither infinite nor NaN.
    pub open spec fn is_finite_spec(self) -> bool {
        self.magnitude() < INFINITY_BITS
    }

    /// An integer that orders the numbers as the numbers themselves are
    /// ordered. It is meant for scalars that are not NaN; both zeros get 0.
    pub open spec fn rank(self) -> int {
        if self.sign_negative() {
            -self.magnitude()
        } else {
            self.magnitude()
        }
    }

    /// `self < other` as IEEE 754 has it: false as soon as either is NaN.
    pub open spec fn less_than(self, other: Scalar) -> bool {
        !self.is_nan_spec() && !other.is_nan_spec() && self.rank() < other.rank()
    }

    /// `self <= other` as IEEE 754 has it: false as soon as either is NaN.
    pub open spec fn at_most(self, other: Scalar) -> bool {
        !self.is_nan_spec() && !other.is_nan_spec() && self.rank() <= other.rank()
    }

    /// The eight-bit exponent field.
    pub open spec fn exponent_field(self) -> int {
        self.magnitude() / (HIDDEN_BIT as int)
    }

    /// The integer significand of a finite scalar: the 23 fraction bits, with
    /// the hidden bit in front unless the number is subnormal.
    pub open spec fn significand(self) -> int {
        if self.exponent_field() == 0 {
            self.magnitude() % (HIDDEN_BIT as int)
        } else {
            self.magnitude() % (HIDDEN_BIT as int) + HIDDEN_BIT
        }
    }

    /// The power of two by which the significand is scaled: a finite scalar
    /// is, up to its sign, `significand() * 2^exponent()`.
    pub open spec fn exponent(self) -> int {
        if self.exponent_field() == 0 {
            -149
        } else {
            self.exponent_field() - 150
        }
    }

    /// The significand with the sign of the scalar.
    pub open spec fn signed_significand(self) -> int {
        if self.sign_negative() {
            -self.significand()
        } else {
            self.significand()
        }
    }

    /// For a finite scalar of value `v`: the greatest integer that is at most
    /// `|v| * 2^shift`.
    pub open spec fn magnitude_scaled(self, shift: int) -> int {
        let e = self.exponent() + shift;
        if e >= 0 {
            self.significand() * pow2(e as nat)
        } else {
            self.significand() / (pow2((-e) as nat) as int)
        }
    }

    /// For a finite scalar of value `v`: whether `v * 2^shift` is an integer.
    pub open spec fn scales_exactly(self, shift: int) -> bool {
        let e = self.exponent() + shift;
        e >= 0 || self.significand() % (pow2((-e) as nat) as int) == 0
    }

    /// For a finite scalar of value `v`: the greatest integer that is at most
    /// `v * 2^shift`.
    pub open spec fn floor_scaled(self, shift: int) -> int {
        let e = self.exponent() + shift;
        if e >= 0 {
            self.signed_significand() * pow2(e as nat)
        } else {
            self.signed_significand() / (pow2((-e) as nat) as int)
        }
    }

    /// Whether the number can be a coordinate on the screen: it is finite and
    /// less than `2^31` pixels from the origin.
    pub open spec fn in_pixel_range(self) -> bool {
        self.is_finite_spec() && self.magnitude_scaled(0) < 0x8000_0000
    }

    /// For a finite scalar of value `v`: `|v|` rounded to the nearest
    /// integer, a tie going up: `floor(|v| + 1/2)`. It is read off
    /// `floor(2 * |v|)`, which holds the integer part of `|v|` and, as its
    /// last bit, whether the fraction is a half or more.
    pub open spec fn magnitude_rounded(self) -> int {
        (self.magnitude_scaled(1) + 1) / 2
    }

    /// For a finite scalar of value `v`: `v` rounded to the nearest integer,
    /// a tie going away from zero.
    pub open spec fn rounded(self) -> int {
        if self.sign_negative() {
            -self.magnitude_rounded()
        } else {
            self.magnitude_rounded()
        }
    }

    /// The 32-bit integer nearest to the number: NaN becomes 0, and
    /// everything else is rounded to the nearest integer, a tie going away
    /// from zero, and then held within the range of `i32`.
    pub open spec fn round_i32(self) -> int {
        if self.is_nan_spec() {
            0
        } else if self.is_infinite_spec() || self.magnitude_rounded() >= 0x8000_0000 {
            if self.sign_negative() {
                i32::MIN as int
            } else {
                i32::MAX as int
            }
        } else {
            self.rounded()
        }
    }

    /// The unsigned 32-bit integer that a cast of the number gives: NaN and
    /// everything negative become 0, and everything else is rounded toward
    /// zero and then held at the greatest `u32`.
    pub open spec fn cast_u32(self) -> int {
        if self.is_nan_spec() || self.sign_negative() {
            0
        } else if self.is_infinite_spec() || self.magnitude_scaled(0) > u32::MAX {
            u32::MAX as int
        } else {
            self.magnitude_scaled(0)
        }
    }

    /// The unsigned 64-bit integer that a cast of the absolute value of the
    /// number gives: NaN becomes 0, and everything else loses its sign, is
    /// rounded toward zero and then held at the greatest `u64`.
    pub open spec fn magnitude_cast_u64(self) -> int {
        if self.is_nan_spec() {
            0
        } else if self.is_infinite_spec() || self.magnitude_scaled(0) > u64::MAX {
            u64::MAX as int
        } else {
            self.magnitude_scaled(0)
        }
    }

    pub fn from_bits(bits: u32) -> (s: Scalar)
        ensures
            s.bits == bits,
    {
        Scalar { bits }
    }

    pub fn to_bits(&self) -> (bits: u32)
        ensures
            bits == self.bits,
    {
        self.bits
    }

    /// Positive infinity: what a depth cell holds before anything is drawn.
    pub fn infinity() -> (s: Scalar)
        ensures
            s.bits == INFINITY_BITS,
    {
        Scalar { bits: INFINITY_BITS }
    }

    fn magnitude_bits(&self) -> (m: u32)
        ensures
            m == self.magnitude(),
            m < SIGN_BIT,
    {
        if self.bits >= SIGN_BIT {
            self.bits - SIGN_BIT
        } else {
            self.bits
        }
    }

    pub fn is_nan(&self) -> (nan: bool)
        ensures
            nan == self.is_nan_spec(),
    {
        self.magnitude_bits() > INFINITY_BITS
    }

    pub fn is_finite(&self) -> (finite: bool)
        ensures
            finite == self.is_finite_spec(),
    {
        self.magnitude_bits() < INFINITY_BITS
    }

    fn rank_of(&self) -> (k: i64)
        ensures
            k == self.rank(),
    {
        let m: u32 = self.magnitude_bits();
        if self.bits >= SIGN_BIT {
            -(m as i64)
        } else {
            m as i64
        }
    }

    /// The significand and the exponent that the bits spell. For a finite
    /// scalar they give its value, up to its sign.
    pub fn parts(&self) -> (r: (u32, i32))
        ensures
            r.0 == self.significand(),
            r.1 == self.exponent(),
            r.0 < 0x100_0000,
            -149 <= r.1 <= 105,
            self.is_finite_spec() ==> r.1 <= 104,
            r.1 > -149 ==> r.0 >= HIDDEN_BIT,
    {
        let mag: u32 = self.magnitude_bits();
        let field: u32 = mag / HIDDEN_BIT;
        let fraction: u32 = mag % HIDDEN_BIT;
        if field == 0 {
            (fraction, -149)
        } else {
            (fraction + HIDDEN_BIT, field as i32 - 150)
        }
    }

    /// Whether `self` is less than `other`. A NaN is neither less nor greater
    /// than anything.
    pub fn lt(&self, other: &Scalar) -> (less: bool)
        ensures
            less == self.less_than(*other),
    {
        if self.is_nan() || other.is_nan() {
            false
        } else {
            self.rank_of() < other.rank_of()
        }
    }

    /// Whether `self` is less than or equal to `other`.
    pub fn le(&self, other: &Scalar) -> (at_most: bool)
        ensures
            at_most == self.at_most(*other),
    {
        if self.is_nan() || other.is_nan() {
            false
        } else {
            self.rank_of() <= other.rank_of()
        }
    }

    /// Whether `self` is greater than `other`.
    pub fn gt(&self, other: &Scalar) -> (greater: bool)
        ensures
            greater == other.less_than(*self),
    {
        other.lt(self)
    }

    /// `floor(|v| * 2^shift)` for the value `v` of a finite scalar, and whether
    /// nothing was cut off; `None` where the result is `2^64` or more.
    fn scale_magnitude(&self, shift: u8) -> (r: Option<(u64, bool)>)
        requires
            self.is_finite_spec(),
            shift <= 32,
        ensures
            match r {
                Some((q, exact)) => {
                    &&& q == self.magnitude_scaled(shift as int)
                    &&& exact == self.scales_exactly(shift as int)
                },
                None => self.magnitude_scaled(shift as int) > u64::MAX,
            },
    {
        let mag: u32 = self.magnitude_bits();
        let field: u32 = mag / HIDDEN_BIT;
        let fraction: u32 = mag % HIDDEN_BIT;
        let m: u64 = if field == 0 {
            fraction as u64
        } else {
            (fraction + HIDDEN_BIT) as u64
        };
        let e: i32 = if field == 0 {
            shift as i32 - 149
        } else {
            field as i32 - 150 + shift as i32
        };
        assert(m == self.significand());
        assert(e == self.exponent() + shift);
        proof {
            lemma2_to64();
        }
        if e >= 41 {
            proof {
                lemma_pow2_at_most(41, e as nat);
                lemma_pow2_double(32, 9, 41);
                lemma_product_at_least(m as int, pow2(e as nat) as int, 0x80_0000, 0x200_0000_0000);
            }
            None
        } else if e >= 0 {
            let by: u64 = e as u64;
            proof {
                lemma_pow2_at_most(e as nat, 40);
                lemma_pow2_double(32, 8, 40);
                lemma_product_below(m as int, pow2(e as nat) as int, 0x100_0000, 0x100_0000_0000);
                lemma_u64_shl_is_mul(m, by);
            }
            Some((m << by, true))
        } else if e <= -24 {
            proof {
                lemma_pow2_at_most(24, (-e) as nat);
                lemma_small_quotient(m as int, pow2((-e) as nat) as int);
            }
            Some((0, m == 0))
        } else {
            let by: u64 = (-e) as u64;
            let q: u64 = m >> by;
            proof {
                lemma_pow2_pos(by as nat);
                lemma_pow2_at_most(by as nat, 24);
                lemma_u64_shr_is_div(m, by);
                let d = pow2(by as nat) as int;
                assert(q == m as int / d);
                vstd::arithmetic::div_mod::lemma_fundamental_div_mod(m as int, d);
                vstd::arithmetic::div_mod::lemma_mod_bound(m as int, d);
                assert(q * d == d * q) by (nonlinear_arith);
                assert(q * d <= m);
                lemma_u64_shl_is_mul(q, by);
            }
            let exact: bool = (q << by) == m;
            Some((q, exact))
        }
    }

    /// Rounds to the nearest `i32`, a tie going away from zero: NaN gives 0,
    /// and a number beyond the range gives the nearest bound.
    pub fn round_to_i32(&self) -> (n: i32)
        ensures
            n == self.round_i32(),
    {
        if self.is_nan() {
            return 0;
        }
        let negative: bool = self.bits >= SIGN_BIT;
        let bound: i32 = if negative {
            i32::MIN
        } else {
            i32::MAX
        };
        if !self.is_finite() {
            return bound;
        }
        match self.scale_magnitude(1) {
            Some((twice, _)) => {
                let nearest: u64 = twice / 2 + twice % 2;
                if nearest >= 0x8000_0000 {
                    bound
                } else if negative {
                    -(nearest as i64) as i32
                } else {
                    nearest as i32
                }
            },
            None => bound,
        }
    }

    /// Casts to `u32` as the language casts a binary32.
    pub fn to_u32(&self) -> (n: u32)
        ensures
            n == self.cast_u32(),
    {
        if self.is_nan() || self.bits >= SIGN_BIT {
            return 0;
        }
        if !self.is_finite() {
            return u32::MAX;
        }
        match self.scale_magnitude(0) {
            Some((q, _)) => {
                if q > 0xFFFF_FFFF {
                    u32::MAX
                } else {
                    q as u32
                }
            },
            None => u32::MAX,
        }
    }

    /// Casts the absolute value to `u64` as the language casts a binary32.
    pub fn magnitude_to_u64(&self) -> (n: u64)
        ensures
            n == self.magnitude_cast_u64(),
    {
        if self.is_nan() {
            return 0;
        }
        if !self.is_finite() {
            return u64::MAX;
        }
        match self.scale_magnitude(0) {
            Some((q, _)) => q,
            None => u64::MAX,
        }
    }

    /// Whether the number can be a coordinate on the screen.
    pub fn is_in_pixel_range(&self) -> (within: bool)
        ensures
            within == self.in_pixel_range(),
    {
        if !self.is_finite() {
            return false;
        }
        match self.scale_magnitude(0) {
            Some((whole, _)) => whole < 0x8000_0000,
            None => false,
        }
    }

    /// Snaps the number down to the grid of multiples of `2^-shift`, and gives
    /// its place on that grid: `floor(v * 2^shift)`. `None` for a number that
    /// cannot be a coordinate on the screen.
    pub fn to_fixed(&self, shift: u8) -> (r: Option<i64>)
        requires
            shift <= 30,
        ensures
            r.is_some() <==> self.in_pixel_range(),
            r matches Some(q) ==> q == self.floor_scaled(shift as int),
    {
        if !self.is_finite() {
            return None;
        }
        let whole: Option<(u64, bool)> = self.scale_magnitude(0);
        match whole {
            Some((w, _)) => {
                if w >= 0x8000_0000 {
                    return None;
                }
            },
            None => {
                return None;
            },
        }
        let negative: bool = self.bits >= SIGN_BIT;
        proof {
            lemma2_to64();
            self.lemma_scaling_is_monotonic(shift as int);
            lemma_pow2_at_most(shift as nat, 30);
            lemma_product_below(
                self.magnitude_scaled(0) + 1,
                pow2(shift as nat) as int,
                0x8000_0001,
                0x4000_0000,
            );
        }
        match self.scale_magnitude(shift) {
            Some((q, exact)) => {
                proof {
                    self.lemma_floor_by_sign(shift as int);
                    assert(q < 0x4000_0000_0000_0000);
                }
                if !negative {
                    Some(q as i64)
                } else if exact {
                    Some(-(q as i64))
                } else {
                    Some(-(q as i64) - 1)
                }
            },
            None => {
                None
            },
        }
    }

    /// What a scalar is rounded to is the integer nearest to it: the
    /// magnitude `|v|` lies in `r - 1/2 <= |v| < r + 1/2` for the rounded
    /// magnitude `r`, stated here on `floor(2 * |v|)`. So a tie, where `|v|`
    /// is `r - 1/2`, goes up to `r`. Rounding moves the magnitude from its
    /// integer part by one at most.
    pub proof fn lemma_rounded_is_nearest(self)
        requires
            self.is_finite_spec(),
        ensures
            2 * self.magnitude_rounded() - 1 <= self.magnitude_scaled(1) < 2
                * self.magnitude_rounded() + 1,
            self.magnitude_scaled(0) <= self.magnitude_rounded() <= self.magnitude_scaled(0) + 1,
    {
        lemma2_to64();
        self.lemma_scaling_is_monotonic(1);
        self.lemma_magnitude_is_not_negative(0);
        self.lemma_magnitude_is_not_negative(1);
        let whole = self.magnitude_scaled(0);
        let two = pow2(1) as int;
        assert((whole + 1) * two == 2 * whole + 2 && whole * two == 2 * whole)
            by (nonlinear_arith)
            requires
                two == 2,
        ;
    }

    /// A coordinate on the screen is rounded to a pixel without being held:
    /// the nearest integer fits in an `i32`.
    pub proof fn lemma_rounded_in_pixel_range(self)
        requires
            self.in_pixel_range(),
        ensures
            self.round_i32() == self.rounded(),
            -0x8000_0000 < self.rounded() < 0x8000_0000,
    {
        lemma2_to64();
        self.lemma_rounded_is_nearest();
        self.lemma_magnitude_is_not_negative(0);
        let m = self.significand();
        let e = self.exponent();
        if e >= 0 {
            // An integer: twice it is even, and rounding leaves it.
            vstd::arithmetic::power2::lemma_pow2_unfold((e + 1) as nat);
            assert(m * pow2((e + 1) as nat) == 2 * (m * pow2(e as nat))) by (nonlinear_arith)
                requires
                    pow2((e + 1) as nat) == 2 * pow2(e as nat),
            ;
        } else {
            // Below 2^24 in magnitude, and so is what it is rounded to.
            assert(self.magnitude_scaled(0) <= m) by {
                lemma_pow2_pos((-e) as nat);
                vstd::arithmetic::div_mod::lemma_div_basics_5(m, pow2((-e) as nat) as int);
            }
        }
    }

    /// A magnitude is not negative, however it is scaled.
    pub proof fn lemma_magnitude_is_not_negative(self, shift: int)
        ensures
            self.magnitude_scaled(shift) >= 0,
            self.significand() >= 0,
    {
        let m = self.significand();
        let e = self.exponent() + shift;
        if e >= 0 {
            lemma_product_at_least(m, pow2(e as nat) as int, 0, 0);
        } else {
            lemma_pow2_pos((-e) as nat);
            vstd::arithmetic::div_mod::lemma_div_basics_4(m, pow2((-e) as nat) as int);
        }
    }

    /// Scaling by `2^shift` with `shift >= 0` multiplies what the scalar is
    /// scaled to by at most `2^shift`, up to the part that rounding drops:
    /// `floor(|v| * 2^shift) < (floor(|v|) + 1) * 2^shift`.
    pub proof fn lemma_scaling_is_monotonic(self, shift: int)
        requires
            self.is_finite_spec(),
            0 <= shift,
        ensures
            self.magnitude_scaled(shift) < (self.magnitude_scaled(0) + 1) * pow2(shift as nat),
            self.magnitude_scaled(shift) >= self.magnitude_scaled(0) * pow2(shift as nat),
    {
        let m = self.significand();
        let e0 = self.exponent();
        let e = e0 + shift;
        let p = pow2(shift as nat) as int;
        lemma_pow2_pos(shift as nat);
        if e0 >= 0 {
            vstd::arithmetic::power2::lemma_pow2_adds(e0 as nat, shift as nat);
            let a = pow2(e0 as nat) as int;
            assert(m * (a * p) == (m * a) * p) by (nonlinear_arith);
            assert((m * a + 1) * p > (m * a) * p) by (nonlinear_arith)
                requires
                    p > 0,
            ;
        } else if e >= 0 {
            // |v| * 2^shift = m * 2^e, and 2^shift = 2^e * 2^(-e0).
            let d = pow2((-e0) as nat) as int;
            let a = pow2(e as nat) as int;
            lemma_pow2_pos((-e0) as nat);
            lemma_pow2_pos(e as nat);
            vstd::arithmetic::power2::lemma_pow2_adds(e as nat, (-e0) as nat);
            assert(p == a * d);
            let q = m / d;
            vstd::arithmetic::div_mod::lemma_fundamental_div_mod(m, d);
            vstd::arithmetic::div_mod::lemma_mod_bound(m, d);
            assert(m == d * q + m % d);
            assert(m * a < (q + 1) * (a * d) && m * a >= q * (a * d)) by (nonlinear_arith)
                requires
                    m == d * q + m % d,
                    0 <= m % d < d,
                    a > 0,
            ;
        } else {
            // Both round: m / 2^(-e) against (m / 2^(-e0)) * 2^shift.
            let d = pow2((-e0) as nat) as int;
            let c = pow2((-e) as nat) as int;
            lemma_pow2_pos((-e0) as nat);
            lemma_pow2_pos((-e) as nat);
            vstd::arithmetic::power2::lemma_pow2_adds((-e) as nat, shift as nat);
            assert(d == c * p);
            let q = m / d;
            let r = m / c;
            vstd::arithmetic::div_mod::lemma_fundamental_div_mod(m, d);
            vstd::arithmetic::div_mod::lemma_mod_bound(m, d);
            vstd::arithmetic::div_mod::lemma_fundamental_div_mod(m, c);
            vstd::arithmetic::div_mod::lemma_mod_bound(m, c);
            assert(r < (q + 1) * p && r >= q * p) by (nonlinear_arith)
                requires
                    m == (c * p) * q + m % d,
                    0 <= m % d < c * p,
                    m == c * r + m % c,
                    0 <= m % c < c,
                    c > 0,
                    p > 0,
            ;
        }
    }

    /// The floor of a scaled scalar, from the floor of its scaled magnitude:
    /// for a number that is not negative they agree; for a negative one the
    /// floor is the negated magnitude, less one where rounding cut
    /// something off.
    pub proof fn lemma_floor_by_sign(self, shift: int)
        requires
            self.is_finite_spec(),
        ensures
            self.floor_scaled(shift) == if !self.sign_negative() {
                self.magnitude_scaled(shift)
            } else if self.scales_exactly(shift) {
                -self.magnitude_scaled(shift)
            } else {
                -self.magnitude_scaled(shift) - 1
            },
    {
        let m = self.significand();
        let e = self.exponent() + shift;
        if e >= 0 {
            assert((-m) * pow2(e as nat) == -(m * pow2(e as nat))) by (nonlinear_arith);
        } else {
            let d = pow2((-e) as nat) as int;
            lemma_pow2_pos((-e) as nat);
            lemma_floor_of_negated(m, d);
        }
    }
}

/// By how many bits `n` is longer than the 24 bits of a binary32
/// significand.
pub open spec fn excess_bits(n: int) -> nat
    decreases n,
{
    if n < 0x100_0000 {
        0
    } else {
        1 + excess_bits(n / 2)
    }
}

/// `n / unit`, rounded to the nearest integer, a tie going to the even one.
pub open spec fn round_half_even(n: int, unit: int) -> int {
    let q = n / unit;
    let r = n % unit;
    if 2 * r > unit || (2 * r == unit && q % 2 == 1) {
        q + 1
    } else {
        q
    }
}

/// The binary32 number nearest to `n * 2^e`, for `n >= 0` and `e >= -149`,
/// as a significand and an exponent: the bits of `n` beyond 24 are rounded
/// away, a tie going to the even significand. This is the rounding that
/// binary32 arithmetic applies to every result. The significand may come
/// out as `2^24`; the number is then `2^(e + 24)` and has a place in
/// binary32 all the same.
pub open spec fn nearest_binary32(n: int, e: int) -> (int, int) {
    let lost = excess_bits(n);
    (round_half_even(n, pow2(lost) as int), e + lost)
}

/// The greatest integer that is at most `q * 2^x`.
pub open spec fn floor_of(q: int, x: int) -> int {
    if x >= 0 {
        q * pow2(x as nat)
    } else {
        q / (pow2((-x) as nat) as int)
    }
}

/// Rounds `n * 2^e` to binary32, and gives the significand and the exponent
/// of the result.
pub fn round_to_binary32(n: u128, e: i32) -> (r: (u32, i64))
    ensures
        (r.0 as int, r.1 as int) == nearest_binary32(n as int, e as int),
        r.0 <= 0x100_0000,
        e <= r.1 <= e + 104,
        n < 0x100_0000 ==> r.0 == n && r.1 == e,
{
    let mut top: u128 = n;
    let mut unit: u128 = 1;
    let mut lost: u32 = 0;
    proof {
        lemma2_to64();
    }
    while top >= 0x100_0000
        invariant
            unit == pow2(lost as nat),
            unit > 0,
            top == n as int / unit as int,
            top * unit <= n,
            lost + excess_bits(top as int) == excess_bits(n as int),
            lost <= 104,
        decreases top,
    {
        proof {
            vstd::arithmetic::div_mod::lemma_div_denominator(n as int, unit as int, 2);
            vstd::arithmetic::power2::lemma_pow2_unfold((lost + 1) as nat);
            assert(unit * 0x100_0000 <= n) by (nonlinear_arith)
                requires
                    top * unit <= n,
                    top >= 0x100_0000,
                    unit > 0,
            ;
            assert((top / 2) * (unit * 2) <= top * unit) by (nonlinear_arith)
                requires
                    top >= 0,
                    unit > 0,
            ;
            if lost >= 104 {
                lemma2_to64();
                lemma_pow2_at_most(104, lost as nat);
                lemma_pow2_double(32, 8, 40);
                lemma_pow2_double(64, 40, 104);
                assert(pow2(104) == 0x1_0000_0000_0000_0000 * 0x100_0000_0000);
                assert(false);
            }
        }
        top = top / 2;
        unit = unit * 2;
        lost = lost + 1;
    }
    let rest: u128 = n - top * unit;
    proof {
        vstd::arithmetic::div_mod::lemma_fundamental_div_mod(n as int, unit as int);
        vstd::arithmetic::div_mod::lemma_mod_bound(n as int, unit as int);
        assert(top * unit == unit * top) by (nonlinear_arith);
        assert(rest == n as int % unit as int);
    }
    let up: bool = rest > unit - rest || (rest == unit - rest && top % 2 == 1);
    if up {
        ((top + 1) as u32, e as i64 + lost as i64)
    } else {
        (top as u32, e as i64 + lost as i64)
    }
}

/// Rounds `q * 2^x` down to an integer and holds it at 255.
pub fn floor_to_byte(q: u32, x: i64) -> (r: u8)
    ensures
        r == (if floor_of(q as int, x as int) > 255 {
            255
        } else {
            floor_of(q as int, x as int)
        }),
{
    proof {
        lemma2_to64();
    }
    if q == 0 {
        proof {
            if x >= 0 {
                assert(0 * pow2(x as nat) == 0) by (nonlinear_arith);
            } else {
                lemma_pow2_pos((-x) as nat);
                lemma_small_quotient(0, pow2((-x) as nat) as int);
            }
        }
        return 0;
    }
    if x >= 8 {
        proof {
            lemma_pow2_at_most(8, x as nat);
            lemma_product_at_least(q as int, pow2(x as nat) as int, 1, 0x100);
        }
        return 255;
    }
    if x >= 0 {
        proof {
            lemma_pow2_at_most(x as nat, 8);
            lemma_product_below(q as int, pow2(x as nat) as int, 0x1_0000_0000, 0x100);
            lemma_u64_shl_is_mul(q as u64, x as u64);
        }
        let v: u64 = (q as u64) << (x as u64);
        return if v > 255 {
            255
        } else {
            v as u8
        };
    }
    if x <= -32 {
        proof {
            lemma_pow2_at_most(32, (-x) as nat);
            lemma_small_quotient(q as int, pow2((-x) as nat) as int);
        }
        return 0;
    }
    let by: u64 = (-x) as u64;
    proof {
        lemma_u64_shr_is_div(q as u64, by);
    }
    let v: u64 = (q as u64) >> by;
    if v > 255 {
        255
    } else {
        v as u8
    }
}

/// A number below `2^(24 + j)` is at most `j` bits too long.
pub proof fn lemma_excess_at_most(n: int, j: nat)
    requires
        0 <= n < 0x100_0000 * pow2(j),
    ensures
        excess_bits(n) <= j,
    decreases j,
{
    if n >= 0x100_0000 {
        if j == 0 {
            lemma2_to64();
        } else {
            vstd::arithmetic::power2::lemma_pow2_unfold(j);
            lemma_excess_at_most(n / 2, (j - 1) as nat);
        }
    }
}

/// A number from `2^(23 + j)` on is at least `j` bits too long.
pub proof fn lemma_excess_at_least(n: int, j: nat)
    requires
        n >= 0x80_0000 * pow2(j),
    ensures
        excess_bits(n) >= j,
    decreases j,
{
    if j > 0 {
        vstd::arithmetic::power2::lemma_pow2_unfold(j);
        lemma_pow2_pos((j - 1) as nat);
        lemma_excess_at_least(n / 2, (j - 1) as nat);
    }
}

/// Rounding to a multiple of `unit` finds the multiple that is less than
/// half a unit away.
pub proof fn lemma_round_near_multiple(n: int, unit: int, q: int)
    requires
        unit > 0,
        2 * (n - q * unit) < unit,
        2 * (q * unit - n) < unit,
    ensures
        round_half_even(n, unit) == q,
{
    if n >= q * unit {
        vstd::arithmetic::div_mod::lemma_fundamental_div_mod_converse(n, unit, q, n - q * unit);
    } else {
        assert((q - 1) * unit == q * unit - unit) by (nonlinear_arith);
        vstd::arithmetic::div_mod::lemma_fundamental_div_mod_converse(
            n,
            unit,
            q - 1,
            n - (q - 1) * unit,
        );
    }
}

/// `2^a * 2^b == 2^c` for `a + b == c`.
proof fn lemma_pow2_double(a: nat, b: nat, c: nat)
    requires
        a + b == c,
    ensures
        pow2(c) == pow2(a) * pow2(b),
{
    vstd::arithmetic::power2::lemma_pow2_adds(a, b);
}

/// `2^a <= 2^b` for `a <= b`.
proof fn lemma_pow2_at_most(a: nat, b: nat)
    requires
        a <= b,
    ensures
        pow2(a) <= pow2(b),
{
    if a < b {
        lemma_pow2_strictly_increases(a, b);
    }
}

proof fn lemma_product_at_least(x: int, y: int, a: int, b: int)
    by (nonlinear_arith)
    requires
        0 <= a <= x,
        0 <= b <= y,
    ensures
        x * y >= a * b,
{
}

proof fn lemma_product_below(x: int, y: int, a: int, b: int)
    by (nonlinear_arith)
    requires
        0 <= x < a,
        0 <= y <= b,
        0 < b,
    ensures
        0 <= x * y < a * b,
{
}

/// A quotient is zero where the divisor is the greater, and the remainder is
/// then the dividend.
proof fn lemma_small_quotient(x: int, d: int)
    requires
        0 <= x < d,
    ensures
        x / d == 0,
        x % d == x,
{
    vstd::arithmetic::div_mod::lemma_small_mod(x as nat, d as nat);
    vstd::arithmetic::div_mod::lemma_fundamental_div_mod(x, d);
    assert(d * (x / d) == 0);
    assert(x / d == 0) by (nonlinear_arith)
        requires
            d * (x / d) == 0,
            d > 0,
    ;
}

/// Rounding down a negated quotient: `floor(-x / d)` is `-floor(x / d)` where
/// `d` divides `x`, and one less where it does not.
proof fn lemma_floor_of_negated(x: int, d: int)
    requires
        0 <= x,
        0 < d,
    ensures
        (-x) / d == if x % d == 0 {
            -(x / d)
        } else {
            -(x / d) - 1
        },
{
    let q = x / d;
    let r = x % d;
    vstd::arithmetic::div_mod::lemma_fundamental_div_mod(x, d);
    vstd::arithmetic::div_mod::lemma_mod_bound(x, d);
    if r == 0 {
        assert(-x == (-q) * d + 0) by (nonlinear_arith)
            requires
                x == d * q + r,
                r == 0,
        ;
        vstd::arithmetic::div_mod::lemma_fundamental_div_mod_converse(-x, d, -q, 0);
    } else {
        assert(-x == (-q - 1) * d + (d - r)) by (nonlinear_arith)
            requires
                x == d * q + r,
        ;
        vstd::arithmetic::div_mod::lemma_fundamental_div_mod_converse(-x, d, -q - 1, d - r);
    }
}

} // verus!
