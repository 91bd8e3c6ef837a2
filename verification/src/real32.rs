//! Single-precision numbers as settings: compared, clamped and turned into
//! frame counts on their IEEE 754 bit patterns.

use vstd::arithmetic::power2;
use vstd::prelude::*;

verus! {

/// A single-precision number, kept as its IEEE 754 bit pattern.
#[derive(Debug, Clone, Copy, PartialEq, Eq, Structural)]
pub struct Real32 {
    pub bits: u32,
}

/// The pattern of 2.
pub const TWO: u32 = 0x4000_0000;

/// The pattern of 24.
pub const TWENTY_FOUR: u32 = 0x41c0_0000;

/// The pattern of -24.
pub const MINUS_TWENTY_FOUR: u32 = 0xc1c0_0000;

/// The pattern of 30.
pub const THIRTY: u32 = 0x41f0_0000;

/// The pattern of 0.
pub const ZERO: u32 = 0;

/// The place of a pattern among all others: numbers compare as the places of
/// their patterns do, and both zeros have the place 0.
pub open spec fn place_of(bits: u32) -> int {
    if bits >= 0x8000_0000 {
        0x8000_0000 - bits
    } else {
        bits as int
    }
}

fn place_number(bits: u32) -> (r: i64)
    ensures
        r == place_of(bits),
{
    if bits >= 0x8000_0000 {
        0x8000_0000i64 - bits as i64
    } else {
        bits as i64
    }
}

impl Real32 {
    /// The pattern without its sign.
    pub open spec fn magnitude(self) -> int {
        self.bits as int % 0x8000_0000
    }

    /// Whether the number is not a number.
    pub open spec fn nan(self) -> bool {
        self.magnitude() > 0x7f80_0000
    }

    /// The place of the number among all others.
    pub open spec fn place(self) -> int {
        place_of(self.bits)
    }

    /// Whether the number lies between those of two patterns or is one of them.
    pub open spec fn within(self, lo: u32, hi: u32) -> bool {
        !self.nan() && place_of(lo) <= self.place() <= place_of(hi)
    }

    /// Whether the number is not a number.
    pub fn is_nan(self) -> (r: bool)
        ensures
            r == self.nan(),
    {
        self.bits % 0x8000_0000 > 0x7f80_0000
    }

    /// Whether the number lies between those of two patterns or is one of them.
    pub fn is_within(self, lo: u32, hi: u32) -> (r: bool)
        ensures
            r == self.within(lo, hi),
    {
        !self.is_nan() && place_number(lo) <= place_number(self.bits) && place_number(self.bits) <= place_number(hi)
    }

    /// Whether the number is above zero.
    pub fn is_positive(self) -> (r: bool)
        ensures
            r == (!self.nan() && self.place() > 0),
    {
        !self.is_nan() && place_number(self.bits) > 0
    }

    /// Whether the number is a zero.
    pub fn is_zero(self) -> (r: bool)
        ensures
            r == (self.place() == 0),
    {
        place_number(self.bits) == 0
    }

    /// The number, or the nearer bound where it lies outside of them.
    pub fn clamp_to(self, lo: u32, hi: u32) -> (r: Real32)
        requires
            !self.nan(),
            place_of(lo) <= place_of(hi),
        ensures
            r == (if self.place() < place_of(lo) {
                (Real32 { bits: lo })
            } else if self.place() > place_of(hi) {
                (Real32 { bits: hi })
            } else {
                self
            }),
    {
        if place_number(self.bits) < place_number(lo) {
            Real32 { bits: lo }
        } else if place_number(self.bits) > place_number(hi) {
            Real32 { bits: hi }
        } else {
            self
        }
    }
}

/// The quotient rounded to the nearest number, a tie to the even one.
pub open spec fn half_even(n: nat, unit: nat) -> nat {
    let q = n / unit;
    let r = n % unit;
    if 2 * r > unit || (2 * r == unit && q % 2 == 1) {
        q + 1
    } else {
        q
    }
}

fn round_half_even(n: u64, unit: u64) -> (r: u64)
    requires
        0 < unit <= 0x4000_0000_0000_0000,
        n < 0x8000_0000_0000_0000,
    ensures
        r == half_even(n as nat, unit as nat),
{
    let q: u64 = n / unit;
    let r: u64 = n % unit;
    if 2 * r > unit || (2 * r == unit && q % 2 == 1) {
        assert(q < 0x8000_0000_0000_0000) by (nonlinear_arith)
            requires
                q == n / unit,
                unit > 0,
                n < 0x8000_0000_0000_0000,
        ;
        q + 1
    } else {
        q
    }
}

fn round_wide_half_even(n: u128, unit: u128) -> (r: u128)
    requires
        0 < unit <= 0x1_0000_0000_0000_0000,
        n <= 0x1_0000_0000_0000_0000,
    ensures
        r == half_even(n as nat, unit as nat),
        r <= n / unit + 1,
{
    let q: u128 = n / unit;
    let r: u128 = n % unit;
    assert(q <= n) by (nonlinear_arith)
        requires
            q == n / unit,
            unit > 0,
    ;
    if 2 * r > unit || (2 * r == unit && q % 2 == 1) {
        q + 1
    } else {
        q
    }
}

fn power_of_two(e: u32) -> (r: u64)
    requires
        e <= 62,
    ensures
        r == power2::pow2(e as nat),
        1 <= r <= 0x4000_0000_0000_0000,
{
    proof {
        power2::lemma2_to64();
        power2::lemma2_to64_rest();
    }
    let mut r: u64 = 1;
    let mut i: u32 = 0;
    while i < e
        invariant
            i <= e <= 62,
            r == power2::pow2(i as nat),
            power2::pow2(62) == 0x4000_0000_0000_0000,
        decreases e - i,
    {
        proof {
            power2::lemma_pow2_unfold((i + 1) as nat);
            if i + 1 < 62 {
                power2::lemma_pow2_strictly_increases((i + 1) as nat, 62);
            }
        }
        r = r * 2;
        i = i + 1;
    }
    proof {
        power2::lemma_pow2_pos(e as nat);
        if e < 62 {
            power2::lemma_pow2_strictly_increases(e as nat, 62);
        }
    }
    r
}

impl Real32 {
    /// The exponent field.
    pub open spec fn exponent(self) -> nat {
        (self.magnitude() / 0x80_0000) as nat
    }

    /// The significand of a number that is not subnormal, as a whole number: the
    /// number is this times 2 to the power of its exponent field minus 150.
    pub open spec fn significand(self) -> nat {
        (self.magnitude() % 0x80_0000 + 0x80_0000) as nat
    }

    /// The single-precision product of the number and 44100, as a whole number
    /// of units of 2 to the power of the exponent field minus 150: rounded to 24
    /// significant bits.
    pub open spec fn frames_product(self) -> nat {
        let product = self.significand() * 44100;
        let unit = if product < 0x80_0000_0000 {
            0x8000nat
        } else {
            0x1_0000nat
        };
        half_even(product, unit) * unit
    }

    /// The number of seconds as whole frames at 44100 Hz, cut off.
    pub open spec fn frames_cut(self) -> nat {
        if self.exponent() == 0 {
            0
        } else {
            self.frames_product() / power2::pow2((150 - self.exponent()) as nat)
        }
    }

    /// The number of seconds as whole frames at 44100 Hz, rounded to the nearest,
    /// and a tie up.
    pub open spec fn frames_rounded(self) -> nat {
        let unit = power2::pow2((150 - self.exponent()) as nat);
        (2 * self.frames_product() + unit) / (2 * unit)
    }

    /// The number rounded up to a whole one.
    pub open spec fn rounded_up(self) -> nat {
        let unit = power2::pow2((150 - self.exponent()) as nat);
        ((self.significand() + unit - 1) as nat) / unit
    }

    fn product(self) -> (r: u64)
        ensures
            r == self.frames_product(),
            r <= 0x200_0000_0000,
    {
        let magnitude: u32 = self.bits % 0x8000_0000;
        let significand: u64 = (magnitude % 0x80_0000 + 0x80_0000) as u64;
        let product: u64 = significand * 44100;
        let unit: u64 = if product < 0x80_0000_0000 {
            0x8000
        } else {
            0x1_0000
        };
        let q: u64 = round_half_even(product, unit);
        q * unit
    }

    /// The number of seconds as whole frames at 44100 Hz, cut off: what the
    /// single-precision product with 44100 is cut to.
    pub fn to_frames_cut(self) -> (r: u64)
        requires
            self.within(ZERO, THIRTY),
        ensures
            r == self.frames_cut(),
    {
        let exponent: u32 = self.bits % 0x8000_0000 / 0x80_0000;
        if exponent == 0 {
            return 0;
        }
        let product: u64 = self.product();
        let shift: u32 = 150 - exponent;
        if shift > 62 {
            proof {
                power2::lemma2_to64();
                power2::lemma2_to64_rest();
                power2::lemma_pow2_strictly_increases(62, shift as nat);
                vstd::arithmetic::div_mod::lemma_basic_div(
                    product as int,
                    power2::pow2(shift as nat) as int,
                );
            }
            return 0;
        }
        product / power_of_two(shift)
    }

    /// The number of seconds as whole frames at 44100 Hz, rounded: what the
    /// single-precision product with 44100 is rounded to.
    pub fn to_frames_rounded(self) -> (r: u64)
        requires
            self.within(TWO, THIRTY),
        ensures
            r == self.frames_rounded(),
            r >= 1,
    {
        let exponent: u32 = self.bits % 0x8000_0000 / 0x80_0000;
        let product: u64 = self.product();
        let unit: u64 = power_of_two(150 - exponent);
        proof {
            power2::lemma2_to64();
            power2::lemma2_to64_rest();
            assert(128 <= exponent <= 131);
            let p = self.significand() * 44100;
            assert(p >= 0x80_0000 * 44100);
            assert(product >= unit);
            assert((2 * product + unit) / (2 * unit as int) >= 1) by (nonlinear_arith)
                requires
                    product >= unit,
                    unit >= 1,
            ;
        }
        (2 * product + unit) / (2 * unit)
    }

    /// The number rounded up to a whole one.
    pub fn to_ceiling(self) -> (r: u32)
        requires
            self.within(TWO, THIRTY),
        ensures
            r == self.rounded_up(),
            2 <= r <= 30,
    {
        let magnitude: u32 = self.bits % 0x8000_0000;
        let exponent: u32 = magnitude / 0x80_0000;
        let significand: u64 = (magnitude % 0x80_0000 + 0x80_0000) as u64;
        let unit: u64 = power_of_two(150 - exponent);
        proof {
            power2::lemma2_to64();
            power2::lemma2_to64_rest();
            assert(128 <= exponent <= 131);
            let top = significand + unit - 1;
            if exponent == 128 {
                assert(unit == 0x40_0000);
                assert(top / (unit as int) == top / 0x40_0000);
            } else if exponent == 129 {
                assert(unit == 0x20_0000);
                assert(top / (unit as int) == top / 0x20_0000);
            } else if exponent == 130 {
                assert(unit == 0x10_0000);
                assert(top / (unit as int) == top / 0x10_0000);
            } else {
                assert(unit == 0x8_0000);
                assert(top / (unit as int) == top / 0x8_0000);
            }
        }
        ((significand + unit - 1) / unit) as u32
    }
}

/// How many bits a count has beyond those that a single-precision number keeps.
pub open spec fn excess_bits(frames: nat, bits: nat) -> nat
    decreases 40 - bits,
{
    if bits >= 40 || frames < 0x100_0000 * power2::pow2(bits) {
        bits
    } else {
        excess_bits(frames, bits + 1)
    }
}

/// A count rounded to single precision.
pub open spec fn as_single(frames: nat) -> nat {
    let unit = power2::pow2(excess_bits(frames, 0));
    half_even(frames, unit) * unit
}

/// The power of two by which a count of frames is scaled so that its quotient
/// by 44100 has 24 significant bits.
pub open spec fn quotient_scale(frames: nat, scale: nat) -> nat
    decreases 64 - scale,
{
    if scale >= 64 || frames * power2::pow2(scale) >= 0x80_0000 * 44100 {
        scale
    } else {
        quotient_scale(frames, scale + 1)
    }
}

/// The power of two by which the quotient of a large count of frames by 44100
/// is shrunk so that it has 24 significant bits.
pub open spec fn quotient_shrink(frames: nat, shrink: nat) -> nat
    decreases 40 - shrink,
{
    if shrink >= 40 || frames < 0x100_0000 * (44100 * power2::pow2(shrink)) {
        shrink
    } else {
        quotient_shrink(frames, shrink + 1)
    }
}

/// The length of a segment in thousandths of a second: the single-precision
/// quotient of its frames by 44100, rounded to three decimals.
pub open spec fn segment_millis(frames: nat) -> nat {
    let single = as_single(frames);
    if single < 0x100_0000 * 44100 {
        let scale = quotient_scale(single, 0);
        half_even(half_even(single * power2::pow2(scale), 44100) * 1000, power2::pow2(scale))
    } else {
        let unit = power2::pow2(quotient_shrink(single, 0));
        half_even(single, 44100 * unit) * unit * 1000
    }
}

fn to_single(frames: u64) -> (r: u128)
    ensures
        r == as_single(frames as nat),
        r <= 0x1_0000_0000_0000_0000,
{
    let mut bits: u32 = 0;
    let mut unit: u128 = 1;
    proof {
        power2::lemma2_to64();
        power2::lemma2_to64_rest();
    }
    while frames as u128 >= 0x100_0000 * unit
        invariant
            bits <= 40,
            unit == power2::pow2(bits as nat),
            1 <= unit <= 0x100_0000_0000,
            bits == 40 ==> unit == 0x100_0000_0000,
            excess_bits(frames as nat, bits as nat) == excess_bits(frames as nat, 0),
            power2::pow2(40) == 0x100_0000_0000,
        decreases 40 - bits,
    {
        proof {
            power2::lemma_pow2_unfold((bits + 1) as nat);
            if bits + 1 < 40 {
                power2::lemma_pow2_strictly_increases((bits + 1) as nat, 40);
            }
        }
        unit = unit * 2;
        bits = bits + 1;
    }
    let rounded: u128 = round_wide_half_even(frames as u128, unit);
    proof {
        assert(frames as nat / unit as nat <= 0xff_ffff) by (nonlinear_arith)
            requires
                frames < 0x100_0000 * unit,
                unit >= 1,
        ;
        assert(rounded * unit <= 0x100_0000 * 0x100_0000_0000) by (nonlinear_arith)
            requires
                rounded <= 0x100_0000,
                unit <= 0x100_0000_0000,
        ;
    }
    rounded * unit
}

fn millis_of_few(frames: u64) -> (r: u64)
    requires
        0 < frames < 0x100_0000 * 44100,
    ensures
        ({
            let scale = quotient_scale(frames as nat, 0);
            r == half_even(
                half_even(frames as nat * power2::pow2(scale), 44100) * 1000,
                power2::pow2(scale),
            )
        }),
{
    let mut scale: u32 = 0;
    let mut unit: u64 = 1;
    proof {
        power2::lemma2_to64();
        power2::lemma2_to64_rest();
        assert(frames * unit == frames) by (nonlinear_arith)
            requires
                unit == 1,
        ;
    }
    while frames * unit < 0x80_0000 * 44100
        invariant
            0 < frames < 0x100_0000 * 44100,
            scale <= 40,
            unit == power2::pow2(scale as nat),
            1 <= unit <= 0x100_0000_0000,
            frames * unit < 0x100_0000 * 44100,
            quotient_scale(frames as nat, scale as nat) == quotient_scale(frames as nat, 0),
            power2::pow2(40) == 0x100_0000_0000,
        decreases 41 - scale,
    {
        proof {
            power2::lemma_pow2_unfold((scale + 1) as nat);
            if scale == 40 {
                assert(frames * unit >= 0x100_0000_0000) by (nonlinear_arith)
                    requires
                        frames >= 1,
                        unit == 0x100_0000_0000,
                ;
            }
            if scale + 1 < 40 {
                power2::lemma_pow2_strictly_increases((scale + 1) as nat, 40);
            }
            assert(frames * (unit * 2) == 2 * (frames * unit)) by (nonlinear_arith);
        }
        unit = unit * 2;
        scale = scale + 1;
    }
    let scaled: u64 = frames * unit;
    let quotient: u64 = round_half_even(scaled, 44100);
    round_half_even(quotient * 1000, unit)
}

fn millis_of_many(frames: u128) -> (r: u64)
    requires
        0x100_0000 * 44100 <= frames <= 0x1_0000_0000_0000_0000,
    ensures
        ({
            let unit = power2::pow2(quotient_shrink(frames as nat, 0));
            r == half_even(frames as nat, 44100 * unit) * unit * 1000
        }),
{
    let mut shrink: u32 = 0;
    let mut unit: u128 = 1;
    proof {
        power2::lemma2_to64();
        power2::lemma2_to64_rest();
    }
    while frames >= 0x100_0000 * (44100 * unit)
        invariant
            frames <= 0x1_0000_0000_0000_0000,
            shrink <= 26,
            unit == power2::pow2(shrink as nat),
            1 <= unit <= 0x400_0000,
            shrink == 26 ==> unit == 0x400_0000,
            quotient_shrink(frames as nat, shrink as nat) == quotient_shrink(frames as nat, 0),
            power2::pow2(26) == 0x400_0000,
        decreases 26 - shrink,
    {
        proof {
            power2::lemma_pow2_unfold((shrink + 1) as nat);
            if shrink + 1 < 26 {
                power2::lemma_pow2_strictly_increases((shrink + 1) as nat, 26);
            }
        }
        unit = unit * 2;
        shrink = shrink + 1;
    }
    let divisor: u128 = 44100 * unit;
    let quotient: u128 = round_wide_half_even(frames, divisor);
    proof {
        assert(frames as nat / divisor as nat <= 0xff_ffff) by (nonlinear_arith)
            requires
                frames < 0x100_0000 * divisor,
                divisor >= 1,
        ;
        assert(quotient * unit <= 0x100_0000 * 0x400_0000) by (nonlinear_arith)
            requires
                quotient <= 0x100_0000,
                unit <= 0x400_0000,
        ;
    }
    (quotient * unit * 1000) as u64
}

/// The length of a segment in thousandths of a second.
pub fn millis_of_frames(frames: u64) -> (r: u64)
    ensures
        r == segment_millis(frames as nat),
{
    let single: u128 = to_single(frames);
    if single == 0 {
        proof {
            lemma_no_frames();
        }
        return 0;
    }
    if single < 0x100_0000 * 44100 {
        millis_of_few(single as u64)
    } else {
        millis_of_many(single)
    }
}

proof fn lemma_no_frames()
    ensures
        ({
            let scale = quotient_scale(0, 0);
            half_even(half_even(0 * power2::pow2(scale), 44100) * 1000, power2::pow2(scale)) == 0
        }),
{
    let unit = power2::pow2(quotient_scale(0, 0));
    power2::lemma_pow2_pos(quotient_scale(0, 0));
    assert(0 * unit == 0);
    assert(half_even(0, 44100) == 0);
    assert(0nat / unit == 0 && 0nat % unit == 0) by (nonlinear_arith)
        requires
            unit > 0,
    ;
}

/// Rounding goes to the nearest multiple of the unit, so it is off by half a unit
/// at most, and a tie goes to the even multiple. A multiple stays as it is.
pub proof fn rounding_goes_to_the_nearest(n: nat, unit: nat, k: nat)
    requires
        unit > 0,
    ensures
        2 * n <= 2 * (half_even(n, unit) * unit) + unit,
        2 * (half_even(n, unit) * unit) <= 2 * n + unit,
        2 * n == 2 * (k * unit) + unit ==> half_even(n, unit) % 2 == 0,
        half_even(k * unit, unit) == k,
{
    let q = n / unit;
    let r = n % unit;
    assert(n == q * unit + r && r < unit) by (nonlinear_arith)
        requires
            unit > 0,
            q == n / unit,
            r == n % unit,
    ;
    assert((q + 1) * unit == q * unit + unit) by (nonlinear_arith);
    assert((k * unit) / unit == k && (k * unit) % unit == 0) by (nonlinear_arith)
        requires
            unit > 0,
    ;
    if 2 * n == 2 * (k * unit) + unit {
        assert(q == k && 2 * r == unit) by (nonlinear_arith)
            requires
                unit > 0,
                n == q * unit + r,
                r < unit,
                2 * n == 2 * (k * unit) + unit,
        ;
    }
}

/// Numbers are ordered as their patterns are: above zero upwards, below zero
/// downwards, every negative one before every positive one, and both zeros are
/// the same.
pub proof fn patterns_order_numbers(a: u32, b: u32)
    ensures
        a < b < 0x8000_0000 ==> place_of(a) < place_of(b),
        0x8000_0000 <= a < b ==> place_of(a) > place_of(b),
        a > 0x8000_0000 && b < 0x8000_0000 ==> place_of(a) < place_of(b),
        place_of(0) == 0 && place_of(0x8000_0000) == 0,
{
}

/// Seconds become frames at 44100 Hz: the number of frames is the product, but
/// for half a frame and what single precision rounds away. The number of seconds
/// is the significand by the unit.
pub proof fn frames_follow_the_seconds(seconds: Real32, unit: nat)
    requires
        unit == power2::pow2((150 - seconds.exponent()) as nat),
    ensures
        2 * (seconds.frames_rounded() * unit) <= 2 * (44100 * seconds.significand()) + unit
            + 0x1_0000,
        2 * (44100 * seconds.significand()) <= 2 * (seconds.frames_rounded() * unit) + unit
            + 0x1_0000,
        seconds.exponent() > 0 ==> 2 * (seconds.frames_cut() * unit) <= 2 * (44100
            * seconds.significand()) + 0x1_0000,
        seconds.exponent() > 0 ==> 2 * (44100 * seconds.significand()) < 2 * (
        seconds.frames_cut() * unit) + 2 * unit + 0x1_0000,
{
    power2::lemma_pow2_pos((150 - seconds.exponent()) as nat);
    let product = seconds.significand() * 44100;
    let step = if product < 0x80_0000_0000 {
        0x8000nat
    } else {
        0x1_0000nat
    };
    rounding_goes_to_the_nearest(product, step, 0);
    let p = seconds.frames_product();
    let n = 2 * p + unit;
    let q = seconds.frames_rounded();
    assert(q == n / (2 * unit));
    assert(q * (2 * unit) <= n < q * (2 * unit) + 2 * unit) by (nonlinear_arith)
        requires
            unit > 0,
            q == n / (2 * unit),
    ;
    assert(q * (2 * unit) == 2 * (q * unit)) by (nonlinear_arith);
    let c = p / unit;
    assert(c * unit <= p < c * unit + unit) by (nonlinear_arith)
        requires
            unit > 0,
            c == p / unit,
    ;
}

/// A number is rounded up to the next whole one, and a whole one stays.
pub proof fn rounding_up_reaches_the_number(seconds: Real32, unit: nat)
    requires
        unit == power2::pow2((150 - seconds.exponent()) as nat),
    ensures
        seconds.significand() <= seconds.rounded_up() * unit < seconds.significand() + unit,
{
    power2::lemma_pow2_pos((150 - seconds.exponent()) as nat);
    let n = (seconds.significand() + unit - 1) as nat;
    let q = n / unit;
    assert(q * unit <= n < q * unit + unit) by (nonlinear_arith)
        requires
            unit > 0,
            q == n / unit,
    ;
}

proof fn lemma_scale(frames: nat, scale: nat)
    requires
        frames > 0,
        scale <= 40,
    ensures
        scale <= quotient_scale(frames, scale) <= 40,
        frames * power2::pow2(quotient_scale(frames, scale)) >= 0x80_0000 * 44100,
    decreases 40 - scale,
{
    power2::lemma2_to64();
    power2::lemma2_to64_rest();
    let unit = power2::pow2(scale);
    if frames * unit < 0x80_0000 * 44100 {
        if scale == 40 {
            assert(frames * unit >= 0x100_0000_0000) by (nonlinear_arith)
                requires
                    frames >= 1,
                    unit == 0x100_0000_0000,
            ;
        }
        lemma_scale(frames, scale + 1);
    }
}

/// The length of a segment is right to a thousandth of a second: what is listed
/// and the frames at 44100 Hz differ by less than one, for every segment up to
/// the largest count that single precision holds exactly.
pub proof fn listed_lengths_are_right_to_a_thousandth(frames: nat)
    requires
        frames < 0x100_0000,
    ensures
        44100 * segment_millis(frames) < 1000 * frames + 44100,
        1000 * frames < 44100 * segment_millis(frames) + 44100,
        segment_millis(0) == 0,
{
    power2::lemma2_to64();
    lemma_few_frames_stay(0);
    lemma_no_frames();
    lemma_few_frames_stay(frames);
    if frames > 0 {
        lemma_scale(frames, 0);
        let unit = power2::pow2(quotient_scale(frames, 0));
        power2::lemma_pow2_pos(quotient_scale(frames, 0));
        let scaled = frames * unit;
        let q = half_even(scaled, 44100);
        let m = half_even(q * 1000, unit);
        rounding_goes_to_the_nearest(scaled, 44100, 0);
        rounding_goes_to_the_nearest(q * 1000, unit, 0);
        assert(unit >= 22050) by (nonlinear_arith)
            requires
                frames * unit >= 0x80_0000 * 44100,
                frames < 0x100_0000,
        ;
        assert(44100 * m < 1000 * frames + 44100 && 1000 * frames < 44100 * m + 44100)
            by (nonlinear_arith)
            requires
                unit >= 22050,
                2 * (frames * unit) <= 2 * (q * 44100) + 44100,
                2 * (q * 44100) <= 2 * (frames * unit) + 44100,
                2 * (q * 1000) <= 2 * (m * unit) + unit,
                2 * (m * unit) <= 2 * (q * 1000) + unit,
        ;
    }
}

proof fn lemma_few_frames_stay(frames: nat)
    requires
        frames < 0x100_0000,
    ensures
        as_single(frames) == frames,
{
    power2::lemma2_to64();
    assert(0x100_0000 * power2::pow2(0) == 0x100_0000);
    assert(excess_bits(frames, 0) == 0);
    rounding_goes_to_the_nearest(frames, 1, frames);
    assert(frames * 1 == frames);
}

/// What is not a number lies within no bounds, and a number does exactly where it
/// lies between them.
pub proof fn only_numbers_lie_within_bounds(number: Real32, lo: u32, hi: u32)
    ensures
        0x7f80_0000 < number.bits < 0x8000_0000 || number.bits > 0xff80_0000 ==> !number.within(
            lo,
            hi,
        ),
        number.bits <= 0x7f80_0000 && lo <= hi <= 0x7f80_0000 ==> (number.within(lo, hi) <==> lo
            <= number.bits <= hi),
        0x8000_0000 < number.bits <= 0xff80_0000 && lo <= 0x7f80_0000 ==> !number.within(lo, hi),
{
}

} // verus!
