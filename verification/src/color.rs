//! Colours with eight bits per channel, and the ways of combining two of them.

use vstd::prelude::*;
use vstd::arithmetic::power2::{pow2, lemma2_to64, lemma_pow2_pos, lemma_pow2_strictly_increases};
use vstd::bits::lemma_u64_shl_is_mul;
use crate::scalar::{
    excess_bits, floor_of, floor_to_byte, lemma_excess_at_least, lemma_excess_at_most,
    lemma_round_near_multiple, nearest_binary32, round_half_even, round_to_binary32, Scalar,
    ONE_BITS, ZERO_BITS,
};

verus! {

/// An RGB colour. Every operation keeps each channel within `0..=255` by
/// saturating; none wraps around.
#[derive(Debug, Clone, Copy, PartialEq, Eq, Structural)]
pub struct Color {
    pub r: u8,
    pub g: u8,
    pub b: u8,
}

/// The channel nearest to `v`: `v` itself where it fits, else the bound it
/// went past.
pub open spec fn saturate(v: int) -> u8 {
    if v < 0 {
        0u8
    } else if v > 255 {
        255u8
    } else {
        v as u8
    }
}

/// The channel `c` scaled by the number `s`, as binary32 arithmetic scales
/// it: the product is rounded to binary32, then rounded down to an integer
/// and held within `0..=255`. A negative product gives 0, and so does a NaN:
/// that of a NaN factor, and that of zero times infinity.
pub open spec fn scaled_channel(c: u8, s: Scalar) -> u8 {
    if s.is_nan_spec() || s.sign_negative() || c == 0 {
        0
    } else if s.is_infinite_spec() {
        255
    } else {
        let (q, x) = nearest_binary32(c * s.significand(), s.exponent());
        saturate(floor_of(q, x))
    }
}

/// `q * 2^x` rounded to the nearest integer, a tie going up, for `q >= 0`.
pub open spec fn nearest_integer(q: int, x: int) -> int {
    if x >= 0 {
        q * pow2(x as nat)
    } else {
        (2 * q + pow2((-x) as nat)) / (2 * pow2((-x) as nat) as int)
    }
}

/// For a number `t` strictly between 0 and 1: the channel that binary32
/// arithmetic finds on the way from `a` to `b`. It takes the product
/// `(b - a) * t` and rounds it to binary32, adds `a` and rounds again, and
/// takes the nearest integer.
pub open spec fn mix(a: u8, b: u8, t: Scalar) -> u8 {
    let span = if b >= a {
        b - a
    } else {
        a - b
    };
    let (q1, x1) = nearest_binary32(span * t.significand(), t.exponent());
    let unit = pow2((-x1) as nat) as int;
    let sum = if b >= a {
        a * unit + q1
    } else {
        a * unit - q1
    };
    let (q2, x2) = nearest_binary32(sum, x1);
    saturate(nearest_integer(q2, x2))
}

/// The channel on the way from `a` to `b` at the fraction `t`, where `t` is
/// first held within `0..=1`. A NaN for `t` gives 0.
pub open spec fn lerp_channel(a: u8, b: u8, t: Scalar) -> u8 {
    if t.is_nan_spec() {
        0
    } else if !(Scalar { bits: ZERO_BITS }).less_than(t) {
        a
    } else if !t.less_than(Scalar { bits: ONE_BITS }) {
        b
    } else {
        mix(a, b, t)
    }
}

impl Color {
    /// The packed form `0xRRGGBB`.
    pub open spec fn packed(self) -> int {
        self.r * 0x1_0000 + self.g * 0x100 + self.b
    }

    /// The colour that the low 24 bits of `hex` spell as `0xRRGGBB`.
    pub open spec fn unpacked(hex: int) -> Color {
        Color {
            r: ((hex / 0x1_0000) % 0x100) as u8,
            g: ((hex / 0x100) % 0x100) as u8,
            b: (hex % 0x100) as u8,
        }
    }

    /// Whether all three channels are zero.
    pub open spec fn is_black_spec(self) -> bool {
        self.r == 0 && self.g == 0 && self.b == 0
    }

    /// Channel-wise sum, saturating at 255.
    pub open spec fn plus(self, other: Color) -> Color {
        Color {
            r: saturate(self.r + other.r),
            g: saturate(self.g + other.g),
            b: saturate(self.b + other.b),
        }
    }

    /// Channel-wise difference, saturating at 0.
    pub open spec fn minus(self, other: Color) -> Color {
        Color {
            r: saturate(self.r - other.r),
            g: saturate(self.g - other.g),
            b: saturate(self.b - other.b),
        }
    }

    /// Channel-wise product on the scale where 255 stands for one, rounded
    /// down.
    pub open spec fn times(self, other: Color) -> Color {
        Color {
            r: ((self.r * other.r) / 255) as u8,
            g: ((self.g * other.g) / 255) as u8,
            b: ((self.b * other.b) / 255) as u8,
        }
    }

    /// Every channel scaled by `s`.
    pub open spec fn scaled(self, s: Scalar) -> Color {
        Color {
            r: scaled_channel(self.r, s),
            g: scaled_channel(self.g, s),
            b: scaled_channel(self.b, s),
        }
    }

    /// The colour on the way from `self` to `other` at the fraction `t`.
    pub open spec fn lerped(self, other: Color, t: Scalar) -> Color {
        Color {
            r: lerp_channel(self.r, other.r, t),
            g: lerp_channel(self.g, other.g, t),
            b: lerp_channel(self.b, other.b, t),
        }
    }

    /// `overlay` laid over `self`: pure black counts as no overlay at all,
    /// any other colour replaces what is below.
    pub open spec fn overlaid(self, overlay: Color) -> Color {
        if overlay.is_black_spec() {
            self
        } else {
            overlay
        }
    }

    pub fn new(r: u8, g: u8, b: u8) -> (c: Color)
        ensures
            c == (Color { r, g, b }),
    {
        Color { r, g, b }
    }

    /// Reads a colour from `0xRRGGBB`; bits above the low 24 are ignored.
    pub fn from_hex(hex: u32) -> (c: Color)
        ensures
            c == Color::unpacked(hex as int),
    {
        let r: u8 = ((hex / 0x1_0000) % 0x100) as u8;
        let g: u8 = ((hex / 0x100) % 0x100) as u8;
        let b: u8 = (hex % 0x100) as u8;
        Color { r, g, b }
    }

    pub fn black() -> (c: Color)
        ensures
            c == (Color { r: 0, g: 0, b: 0 }),
    {
        Color { r: 0, g: 0, b: 0 }
    }

    /// Packs the colour as `0xRRGGBB`.
    pub fn to_hex(&self) -> (hex: u32)
        ensures
            hex == self.packed(),
            hex <= 0xFF_FFFF,
    {
        (self.r as u32) * 0x1_0000 + (self.g as u32) * 0x100 + (self.b as u32)
    }

    /// Interpolates linearly from `self` (at `t <= 0`) to `other` (at
    /// `t >= 1`), each channel rounded to the nearest integer.
    pub fn lerp(&self, other: &Color, t: Scalar) -> (c: Color)
        ensures
            c == self.lerped(*other, t),
    {
        Color {
            r: lerp_one(self.r, other.r, t),
            g: lerp_one(self.g, other.g, t),
            b: lerp_one(self.b, other.b, t),
        }
    }

    pub fn is_black(&self) -> (black: bool)
        ensures
            black == self.is_black_spec(),
    {
        self.r == 0 && self.g == 0 && self.b == 0
    }

    /// Normal blending. This is replacement, not alpha compositing: a black
    /// `blend` leaves `self`, anything else takes its place.
    pub fn blend_normal(&self, blend: &Color) -> (c: Color)
        ensures
            c == self.overlaid(*blend),
    {
        if blend.is_black() {
            *self
        } else {
            *blend
        }
    }

    /// Multiply blending: each channel is the product of the two, divided by
    /// 255 and rounded down.
    pub fn blend_multiply(&self, blend: &Color) -> (c: Color)
        ensures
            c == self.times(*blend),
    {
        Color {
            r: multiply_channels(self.r, blend.r),
            g: multiply_channels(self.g, blend.g),
            b: multiply_channels(self.b, blend.b),
        }
    }

    /// Additive blending: each channel is the sum of the two, held at 255.
    pub fn blend_add(&self, blend: &Color) -> (c: Color)
        ensures
            c == self.plus(*blend),
    {
        Color {
            r: self.r.saturating_add(blend.r),
            g: self.g.saturating_add(blend.g),
            b: self.b.saturating_add(blend.b),
        }
    }

    /// Subtractive blending: each channel is the difference of the two, held
    /// at 0.
    pub fn blend_subtract(&self, blend: &Color) -> (c: Color)
        ensures
            c == self.minus(*blend),
    {
        Color {
            r: self.r.saturating_sub(blend.r),
            g: self.g.saturating_sub(blend.g),
            b: self.b.saturating_sub(blend.b),
        }
    }
}

fn scale_by(c: u8, s: Scalar) -> (r: u8)
    ensures
        r == scaled_channel(c, s),
{
    if s.is_nan() || s.bits >= 0x8000_0000 || c == 0 {
        0
    } else if !s.is_finite() {
        255
    } else {
        let (m, e) = s.parts();
        assert(c * m < 0x100 * 0x100_0000) by (nonlinear_arith)
            requires
                c < 0x100,
                m < 0x100_0000,
        ;
        let (q, x) = round_to_binary32((c as u128) * (m as u128), e);
        floor_to_byte(q, x)
    }
}

/// `q * 2^x` rounded to the nearest integer and held at 255.
fn nearest_byte(q: u32, x: i64) -> (r: u8)
    requires
        q <= 0x100_0000,
        -63 <= x,
    ensures
        r == saturate(nearest_integer(q as int, x as int)),
{
    proof {
        lemma2_to64();
    }
    if x >= 0 {
        if q == 0 {
            assert(0 * pow2(x as nat) == 0) by (nonlinear_arith);
            return 0;
        }
        if x >= 8 {
            proof {
                lemma_pow2_pos(x as nat);
                if x > 8 {
                    lemma_pow2_strictly_increases(8, x as nat);
                }
                assert(q * pow2(x as nat) >= 0x100) by (nonlinear_arith)
                    requires
                        q >= 1,
                        pow2(x as nat) >= 0x100,
                ;
            }
            return 255;
        }
        proof {
            if x < 8 {
                lemma_pow2_strictly_increases(x as nat, 8);
            }
            assert(q * pow2(x as nat) <= 0x100_0000 * 0x100) by (nonlinear_arith)
                requires
                    q <= 0x100_0000,
                    pow2(x as nat) <= 0x100,
            ;
            lemma_u64_shl_is_mul(q as u64, x as u64);
        }
        let v: u64 = (q as u64) << (x as u64);
        return if v > 255 {
            255
        } else {
            v as u8
        };
    }
    let k: u64 = (-x) as u64;
    proof {
        lemma_pow2_pos(k as nat);
        if k < 63 {
            lemma_pow2_strictly_increases(k as nat, 63);
        }
        vstd::arithmetic::power2::lemma_pow2_adds(32, 31);
        lemma_u64_shl_is_mul(1, k);
    }
    let unit: u128 = (1u64 << k) as u128;
    let v: u128 = (2 * (q as u128) + unit) / (2 * unit);
    if v > 255 {
        255
    } else {
        v as u8
    }
}

fn lerp_one(a: u8, b: u8, t: Scalar) -> (r: u8)
    ensures
        r == lerp_channel(a, b, t),
{
    if t.is_nan() {
        return 0;
    }
    if !Scalar::from_bits(ZERO_BITS).lt(&t) {
        return a;
    }
    if !t.lt(&Scalar::from_bits(ONE_BITS)) {
        return b;
    }
    // 0 < t < 1
    let (m, e) = t.parts();
    assert(e <= -24);
    let span: u8 = if b >= a {
        b - a
    } else {
        a - b
    };
    proof {
        lemma2_to64();
        assert(span * m < 0x100 * 0x100_0000) by (nonlinear_arith)
            requires
                span < 0x100,
                m < 0x100_0000,
        ;
        lemma_excess_at_most(span * m, 8);
    }
    let (q1, x1) = round_to_binary32((span as u128) * (m as u128), e);
    assert(x1 <= -16);
    if x1 <= -64 {
        proof {
            lemma_mix_of_small_product(a, b >= a, q1 as int, (-x1) as nat);
        }
        return a;
    }
    let k: u64 = (-x1) as u64;
    proof {
        lemma_pow2_pos(k as nat);
        lemma_pow2_strictly_increases(k as nat, 64);
        lemma_u64_shl_is_mul(1, k);
    }
    let unit: u128 = (1u64 << k) as u128;
    assert(a * unit <= 0xFF * 0x1_0000_0000_0000_0000) by (nonlinear_arith)
        requires
            a <= 0xFF,
            unit <= 0x1_0000_0000_0000_0000,
    ;
    let whole: u128 = (a as u128) * unit;
    proof {
        lemma2_to64();
        if -e > 24 {
            lemma_pow2_strictly_increases(24, (-e) as nat);
        }
        lemma_rounded_product_is_within(span as int, m as int, (-e) as nat);
        if b < a {
            assert(span * unit <= a * unit) by (nonlinear_arith)
                requires
                    span <= a,
                    unit >= 0,
            ;
        }
    }
    let sum: u128 = if b >= a {
        whole + q1 as u128
    } else {
        whole - q1 as u128
    };
    let (q2, x2) = round_to_binary32(sum, x1 as i32);
    nearest_byte(q2, x2)
}

/// The product of a whole number and a fraction below one is, after
/// rounding to binary32, still at most the whole number.
proof fn lemma_rounded_product_is_within(span: int, m: int, k: nat)
    requires
        0 <= span,
        0 <= m < pow2(k),
        excess_bits(span * m) <= k,
    ensures
        ({
            let lost = excess_bits(span * m);
            round_half_even(span * m, pow2(lost) as int) <= span * pow2((k - lost) as nat)
        }),
{
    let product = span * m;
    let lost = excess_bits(product);
    let fine = pow2(lost) as int;
    let coarse = pow2((k - lost) as nat) as int;
    lemma_pow2_pos(lost);
    lemma_pow2_pos((k - lost) as nat);
    vstd::arithmetic::power2::lemma_pow2_adds((k - lost) as nat, lost);
    let bound = span * coarse;
    if span == 0 {
        assert(product == 0 && bound == 0) by (nonlinear_arith)
            requires
                span == 0,
                product == span * m,
                bound == span * coarse,
        ;
        vstd::arithmetic::div_mod::lemma_fundamental_div_mod_converse(0, fine, 0, 0);
    } else {
        assert(product < bound * fine) by (nonlinear_arith)
            requires
                product == span * m,
                bound == span * coarse,
                0 <= m < coarse * fine,
                span > 0,
        ;
        let q = product / fine;
        vstd::arithmetic::div_mod::lemma_fundamental_div_mod(product, fine);
        vstd::arithmetic::div_mod::lemma_mod_bound(product, fine);
        assert(q < bound) by (nonlinear_arith)
            requires
                product == fine * q + product % fine,
                0 <= product % fine,
                product < bound * fine,
                fine > 0,
        ;
    }
}

/// Where the product `(b - a) * t` is below `2^-39`, it is lost when `a` is
/// added: the mix is `a`.
proof fn lemma_mix_of_small_product(a: u8, up: bool, q1: int, k: nat)
    requires
        0 <= q1 <= 0x100_0000,
        k >= 64,
        a == 0 ==> up,
    ensures
        ({
            let unit = pow2(k) as int;
            let sum = if up {
                a * unit + q1
            } else {
                a * unit - q1
            };
            let (q2, x2) = nearest_binary32(sum, -(k as int));
            sum >= 0 && saturate(nearest_integer(q2, x2)) == a
        }),
{
    lemma2_to64();
    let unit = pow2(k) as int;
    if k > 64 {
        lemma_pow2_strictly_increases(64, k);
    }
    vstd::arithmetic::power2::lemma_pow2_adds(32, 31);
    assert(unit >= 0x1_0000_0000_0000_0000);
    let sum = if up {
        a * unit + q1
    } else {
        a * unit - q1
    };
    if a == 0 {
        assert(a * unit == 0) by (nonlinear_arith)
            requires
                a == 0,
        ;
        assert(sum == q1);
        if q1 < 0x100_0000 {
            assert(excess_bits(q1) == 0);
            assert(pow2(0) == 1);
            vstd::arithmetic::div_mod::lemma_fundamental_div_mod_converse(q1, 1, q1, 0);
            assert(round_half_even(q1, 1) == q1);
            vstd::arithmetic::div_mod::lemma_fundamental_div_mod_converse(
                2 * q1 + unit,
                2 * unit,
                0,
                2 * q1 + unit,
            );
        } else {
            assert(excess_bits(q1) == 1) by {
                assert(q1 / 2 == 0x80_0000);
                assert(excess_bits(q1 / 2) == 0);
            }
            assert(pow2(1) == 2);
            assert(round_half_even(q1, 2) == 0x80_0000);
            let half = pow2((k - 1) as nat) as int;
            vstd::arithmetic::power2::lemma_pow2_unfold(k);
            vstd::arithmetic::div_mod::lemma_fundamental_div_mod_converse(
                2 * 0x80_0000 + half,
                2 * half,
                0,
                2 * 0x80_0000 + half,
            );
        }
    } else {
        assert(a * unit >= unit && a * unit <= 255 * unit) by (nonlinear_arith)
            requires
                1 <= a <= 255,
                unit > 0,
        ;
        // The sum is between 2^63 and 2^(k + 8).
        vstd::arithmetic::power2::lemma_pow2_adds(40, 23);
        lemma_pow2_strictly_increases(40, 63);
        assert(pow2(40) * 0x80_0000 == pow2(63));
        assert(sum >= 0x80_0000 * pow2(40)) by (nonlinear_arith)
            requires
                sum >= unit - 0x100_0000,
                unit >= 0x1_0000_0000_0000_0000,
                pow2(40) * 0x80_0000 == 0x8000_0000_0000_0000,
        ;
        lemma_excess_at_least(sum, 40);
        vstd::arithmetic::power2::lemma_pow2_adds((k - 16) as nat, 16);
        assert(sum < 0x100_0000 * pow2((k - 16) as nat)) by (nonlinear_arith)
            requires
                sum <= 255 * unit + 0x100_0000,
                unit == pow2((k - 16) as nat) * 0x1_0000,
                unit >= 0x1_0000_0000_0000_0000,
        ;
        lemma_excess_at_most(sum, (k - 16) as nat);
        let lost = excess_bits(sum);
        let fine = pow2(lost) as int;
        let coarse = pow2((k - lost) as nat) as int;
        vstd::arithmetic::power2::lemma_pow2_adds((k - lost) as nat, lost);
        assert(coarse * fine == unit);
        lemma_pow2_pos((k - lost) as nat);
        if lost > 40 {
            lemma_pow2_strictly_increases(40, lost);
        }
        vstd::arithmetic::power2::lemma_pow2_adds(32, 8);
        assert(fine >= 0x100_0000_0000);
        assert((a * coarse) * fine == a * unit) by (nonlinear_arith)
            requires
                coarse * fine == unit,
        ;
        lemma_round_near_multiple(sum, fine, a * coarse);
        // The rounded sum is `a`, exactly.
        let x2 = lost - k;
        assert(nearest_binary32(sum, -(k as int)) == (a * coarse, x2));
        assert(2 * (a * coarse) + coarse == a * (2 * coarse) + coarse) by (nonlinear_arith);
        vstd::arithmetic::div_mod::lemma_fundamental_div_mod_converse(
            2 * (a * coarse) + coarse,
            2 * coarse,
            a as int,
            coarse,
        );
    }
}

fn multiply_channels(a: u8, b: u8) -> (c: u8)
    ensures
        c == (a * b) / 255,
{
    assert(a * b <= 255 * 255) by (nonlinear_arith)
        requires
            a <= 255,
            b <= 255,
    ;
    let product: u32 = (a as u32) * (b as u32);
    (product / 255) as u8
}

impl std::ops::Add for Color {
    type Output = Color;

    /// `a + b` adds channel by channel and saturates at 255.
    fn add(self, other: Color) -> (sum: Color)
        ensures
            sum == self.plus(other),
    {
        Color {
            r: self.r.saturating_add(other.r),
            g: self.g.saturating_add(other.g),
            b: self.b.saturating_add(other.b),
        }
    }
}

impl vstd::std_specs::ops::AddSpecImpl for Color {
    open spec fn obeys_add_spec() -> bool {
        true
    }

    open spec fn add_req(self, other: Color) -> bool {
        true
    }

    open spec fn add_spec(self, other: Color) -> Color {
        self.plus(other)
    }
}

impl std::ops::Mul<Scalar> for Color {
    type Output = Color;

    /// `c * s` scales channel by channel. The factor may be any number:
    /// what goes below 0 or above 255 is held there after the
    /// multiplication, not before.
    fn mul(self, s: Scalar) -> (product: Color)
        ensures
            product == self.scaled(s),
    {
        Color { r: scale_by(self.r, s), g: scale_by(self.g, s), b: scale_by(self.b, s) }
    }
}

impl vstd::std_specs::ops::MulSpecImpl<Scalar> for Color {
    open spec fn obeys_mul_spec() -> bool {
        true
    }

    open spec fn mul_req(self, s: Scalar) -> bool {
        true
    }

    open spec fn mul_spec(self, s: Scalar) -> Color {
        self.scaled(s)
    }
}

/// A saturating sum never wraps around: no channel of `a + b` is below the
/// same channel of `a` or of `b`, and it is below their true sum only where
/// that sum is more than 255.
pub proof fn lemma_sum_never_wraps(a: Color, b: Color)
    ensures
        a.plus(b).r >= a.r && a.plus(b).r >= b.r,
        a.plus(b).g >= a.g && a.plus(b).g >= b.g,
        a.plus(b).b >= a.b && a.plus(b).b >= b.b,
        a.plus(b).r == a.r + b.r || (a.plus(b).r == 255 && a.r + b.r > 255),
        a.plus(b).g == a.g + b.g || (a.plus(b).g == 255 && a.g + b.g > 255),
        a.plus(b).b == a.b + b.b || (a.plus(b).b == 255 && a.b + b.b > 255),
{
}

/// Scaling a channel by one leaves it as it is, and scaling it by zero
/// gives zero.
pub proof fn lemma_scaled_channel_by_one_and_zero(c: u8)
    ensures
        scaled_channel(c, Scalar { bits: ONE_BITS }) == c,
        scaled_channel(c, Scalar { bits: ZERO_BITS }) == 0,
{
    lemma2_to64();
    let one = Scalar { bits: ONE_BITS };
    let zero = Scalar { bits: ZERO_BITS };
    assert(one.significand() == 0x80_0000 && one.exponent() == -23);
    assert(zero.significand() == 0 && zero.exponent() == -149);
    if c > 0 {
        // Zero: nothing to round, and nothing left after rounding down.
        assert(c * zero.significand() == 0) by (nonlinear_arith)
            requires
                zero.significand() == 0,
        ;
        assert(excess_bits(0) == 0);
        vstd::arithmetic::div_mod::lemma_fundamental_div_mod_converse(0, 1, 0, 0);
        lemma_pow2_pos(149);
        vstd::arithmetic::div_mod::lemma_fundamental_div_mod_converse(0, pow2(149) as int, 0, 0);
        // One: the product is `c * 2^23`, which is `j` bits too long where
        // `c` has `j + 1` bits, and loses only zeros when it is rounded.
        let j: nat = if c < 2 {
            0
        } else if c < 4 {
            1
        } else if c < 8 {
            2
        } else if c < 16 {
            3
        } else if c < 32 {
            4
        } else if c < 64 {
            5
        } else if c < 128 {
            6
        } else {
            7
        };
        let n = c * 0x80_0000;
        lemma_excess_at_most(n, j);
        lemma_excess_at_least(n, j);
        let fine = pow2(j) as int;
        let coarse = pow2((23 - j) as nat) as int;
        vstd::arithmetic::power2::lemma_pow2_adds(j, (23 - j) as nat);
        assert(fine * coarse == 0x80_0000);
        assert(n == (c * coarse) * fine) by (nonlinear_arith)
            requires
                n == c * 0x80_0000,
                fine * coarse == 0x80_0000,
        ;
        vstd::arithmetic::div_mod::lemma_fundamental_div_mod_converse(n, fine, c * coarse, 0);
        assert(nearest_binary32(n, -23) == (c * coarse, j - 23));
        vstd::arithmetic::div_mod::lemma_fundamental_div_mod_converse(
            c * coarse,
            coarse,
            c as int,
            0,
        );
    }
}

/// Scaling a colour by one leaves it as it is, and scaling it by zero gives
/// black.
pub proof fn lemma_scaled_by_one_and_zero(c: Color)
    ensures
        c.scaled(Scalar { bits: ONE_BITS }) == c,
        c.scaled(Scalar { bits: ZERO_BITS }) == (Color { r: 0, g: 0, b: 0 }),
{
    lemma_scaled_channel_by_one_and_zero(c.r);
    lemma_scaled_channel_by_one_and_zero(c.g);
    lemma_scaled_channel_by_one_and_zero(c.b);
}

/// Interpolation starts at the one colour and ends at the other, exactly:
/// at `t = 0` it gives `a`, at `t = 1` it gives `b`.
pub proof fn lemma_lerp_ends(a: Color, b: Color)
    ensures
        a.lerped(b, Scalar { bits: ZERO_BITS }) == a,
        a.lerped(b, Scalar { bits: ONE_BITS }) == b,
{
}

/// Packing a colour and reading it back gives the same colour.
pub proof fn lemma_unpack_packed(c: Color)
    ensures
        Color::unpacked(c.packed()) == c,
{
}

/// Reading a packed value and packing it again keeps its low 24 bits.
pub proof fn lemma_pack_unpacked(hex: u32)
    ensures
        Color::unpacked(hex as int).packed() == hex % 0x100_0000,
{
}

} // verus!
