//! How long frames are, and how many samples that takes.
use crate::audio::AudioError;
use crate::codec::CodecProfile;
use crate::rounding::{
    ceil_digits, round_quotient, saturate_digits, DOUBLE_LIMIT, SINGLE_LIMIT,
};
use crate::time::Nanos;
use vstd::arithmetic::power2::{
    lemma2_to64, lemma2_to64_rest, lemma_pow2_adds, lemma_pow2_pos, lemma_pow2_strictly_increases,
    pow2,
};
use vstd::prelude::*;

verus! {

/// A length in milliseconds, given by the bits of a single precision number.
#[derive(Debug, Clone, Copy)]
pub struct FrameMs {
    pub bits: u32,
}

impl PartialEq for FrameMs {
    fn eq(&self, other: &Self) -> (same: bool) {
        crate::float_bits::same_number(self.bits, other.bits)
    }
}

impl vstd::std_specs::cmp::PartialEqSpecImpl for FrameMs {
    open spec fn obeys_eq_spec() -> bool {
        true
    }

    open spec fn eq_spec(&self, other: &Self) -> bool {
        crate::float_bits::are_equal(self.bits, other.bits)
    }
}

/// How long a frame is and how many samples it takes.
#[derive(Debug, Clone, Copy, PartialEq)]
pub struct AudioFramePlan {
    pub requested_frame_ms: FrameMs,
    pub target_frame_ms: FrameMs,
    pub samplerate: u32,
    pub channels: u8,
    pub frame_count: usize,
    pub sample_count: usize,
}

/// The plan of frames from a line in.
pub type LineSourceFramePlan = AudioFramePlan;

/// The plan of frames from a mixer.
pub type MixerFramePlan = AudioFramePlan;

impl FrameMs {
    /// The length, in the units in which single precision numbers are counted. What is
    /// negative or no number counts as nothing.
    pub open spec fn length(self) -> int {
        if self.bits > 0x7f80_0000 {
            0
        } else {
            crate::float_bits::units(self.bits as nat, 23) as int
        }
    }

    /// Whole milliseconds.
    pub fn from_millis(millis: u16) -> (length: Self)
        ensures
            length.bits <= 0x7f80_0000,
            length.length() == millis_length(millis),
    {
        if millis == 0 {
            proof {
                lemma2_to64();
                assert(0 * crate::rounding::single_one() == 0);
            }
            return FrameMs { bits: 0 };
        }
        let mut digits: u64 = millis as u64;
        let mut power: u32 = 149;
        while digits < 0x80_0000
            invariant
                0 < digits < 0x100_0000,
                126 <= power <= 149,
                digits * pow2(power as nat) == millis * crate::rounding::single_one(),
                digits * pow2((power - 126) as nat) == millis * pow2(23),
                millis > 0,
            decreases power,
        {
            proof {
                lemma2_to64();
                if power == 126 {
                    assert(digits * pow2(0) == digits);
                    assert(millis * pow2(23) >= 0x80_0000) by (nonlinear_arith)
                        requires
                            pow2(23) == 0x80_0000,
                            millis >= 1,
                    ;
                }
                lemma_pow2_adds(1, (power - 1) as nat);
                lemma_pow2_adds(1, (power - 127) as nat);
                let high = pow2((power - 1) as nat) as int;
                let low = pow2((power - 127) as nat) as int;
                assert(digits * (2 * high) == (2 * digits) * high) by (nonlinear_arith);
                assert(digits * (2 * low) == (2 * digits) * low) by (nonlinear_arith);
            }
            digits = 2 * digits;
            power = power - 1;
        }
        let bits = bits_of_digits(digits, power);
        proof {
            lemma_finite(digits, power);
        }
        FrameMs { bits }
    }
}

/// Whole milliseconds.
pub open spec fn millis_length(count: u16) -> int {
    count * crate::rounding::single_one()
}

/// A length, but at least a millisecond.
pub open spec fn at_least_one(length: int) -> int {
    if length < crate::rounding::single_one() {
        crate::rounding::single_one()
    } else {
        length
    }
}

/// Some half milliseconds.
pub open spec fn half_millis(count: int) -> int {
    count * pow2(148)
}

/// The frame lengths that Opus takes.
pub open spec fn opus_frame_lengths() -> Seq<int> {
    seq![
        half_millis(5),
        half_millis(10),
        half_millis(20),
        half_millis(40),
        half_millis(80),
        half_millis(120),
    ]
}

/// The length itself where it is a multiple of a step of so many half milliseconds; else the
/// quotient, the next whole number of steps, and their length, each in single precision.
pub open spec fn stepped(length: int, step: int) -> int {
    if length >= crate::rounding::single_infinity() || (2 * length) % (step
        * crate::rounding::single_one()) == 0 {
        length
    } else {
        let limit = SINGLE_LIMIT as int;
        let count = crate::rounding::ceiling(
            crate::rounding::rounded(2 * length, step, limit),
            crate::rounding::single_one(),
        );
        let target = crate::rounding::rounded(count * crate::rounding::single_one() * step, 2, limit);
        if target > crate::rounding::single_infinity() {
            crate::rounding::single_infinity()
        } else {
            target
        }
    }
}

/// How far two lengths are apart.
pub open spec fn distance(left: int, right: int) -> int {
    if left < right {
        right - left
    } else {
        left - right
    }
}

/// The one of the lengths that is nearest, the first of them where several are.
pub open spec fn nearest_length(lengths: Seq<int>, length: int) -> int
    decreases lengths.len(),
{
    if lengths.len() <= 1 {
        lengths[0]
    } else {
        let before = nearest_length(lengths.drop_last(), length);
        if distance(lengths.last(), length) < distance(before, length) {
            lengths.last()
        } else {
            before
        }
    }
}

/// The length that frames of a codec have where a length was asked for: for Opus the nearest
/// that it takes once it is brought up to its step and no longer than its longest, for Codec2
/// brought up to whole codec frames, otherwise the length itself; at least a millisecond.
pub open spec fn target_length(requested: int, profile: Option<CodecProfile>) -> int {
    let least = at_least_one(requested);
    match profile {
        Some(profile) => if profile.is_opus() {
            let whole = stepped(least, 5);
            let capped = if whole > half_millis(120) {
                half_millis(120)
            } else {
                whole
            };
            nearest_length(opus_frame_lengths(), capped)
        } else if profile.is_codec2() {
            stepped(least, 80)
        } else {
            least
        },
        None => least,
    }
}

/// The samples per channel that a length takes: what the sample rate and the length make in
/// single precision, a started one counted in full.
pub open spec fn samples_for(length: int, samplerate: int) -> usize {
    let limit = SINGLE_LIMIT as int;
    let rate = crate::rounding::rounded(samplerate * crate::rounding::single_one(), 1, limit);
    let product = crate::rounding::rounded(rate * length, crate::rounding::single_one(), limit);
    crate::rounding::saturated(
        crate::rounding::ceiling(
            crate::rounding::rounded(product, 1_000, limit),
            crate::rounding::single_one(),
        ),
    )
}

/// The nearest Opus frame length, case by case, by quarters of a millisecond.
proof fn lemma_nearest_opus(length: int)
    ensures
        nearest_length(opus_frame_lengths(), length) == (if length <= 15 * pow2(147) {
            half_millis(5)
        } else if length <= 30 * pow2(147) {
            half_millis(10)
        } else if length <= 60 * pow2(147) {
            half_millis(20)
        } else if length <= 120 * pow2(147) {
            half_millis(40)
        } else if length <= 200 * pow2(147) {
            half_millis(80)
        } else {
            half_millis(120)
        }),
        pow2(148) == 2 * pow2(147),
        pow2(147) > 0,
{
    lemma2_to64();
    lemma_pow2_adds(1, 147);
    lemma_pow2_pos(147);
    let all = opus_frame_lengths();
    let l5 = all.drop_last();
    let l4 = l5.drop_last();
    let l3 = l4.drop_last();
    let l2 = l3.drop_last();
    let l1 = l2.drop_last();
    assert(l1.len() == 1 && l1[0] == half_millis(5));
    assert(l2.last() == half_millis(10));
    assert(l3.last() == half_millis(20));
    assert(l4.last() == half_millis(40));
    assert(l5.last() == half_millis(80));
    assert(all.last() == half_millis(120));
    reveal_with_fuel(nearest_length, 6);
}

/// Frames of an Opus profile have a length that Opus takes.
pub proof fn law_opus_lengths_are_valid(requested: int, profile: CodecProfile)
    requires
        profile.is_opus(),
    ensures
        opus_frame_lengths().contains(target_length(requested, Some(profile))),
{
    let whole = stepped(at_least_one(requested), 5);
    let capped = if whole > half_millis(120) {
        half_millis(120)
    } else {
        whole
    };
    lemma_nearest_opus(capped);
    let all = opus_frame_lengths();
    assert(all[0] == half_millis(5) && all[1] == half_millis(10) && all[2] == half_millis(20)
        && all[3] == half_millis(40) && all[4] == half_millis(80) && all[5] == half_millis(120));
}

/// A length that Opus takes is kept.
pub proof fn law_valid_opus_length_is_kept(length: int, profile: CodecProfile)
    requires
        profile.is_opus(),
        opus_frame_lengths().contains(length),
    ensures
        target_length(length, Some(profile)) == length,
{
    let i = choose|i: int| 0 <= i < 6 && opus_frame_lengths()[i] == length;
    lemma_nearest_opus(length);
    lemma2_to64();
    lemma_pow2_adds(1, 148);
    lemma_pow2_adds(148, 129);
    lemma_pow2_pos(148);
    lemma_pow2_strictly_increases(10, 129);
    assert(pow2(148) * 120 < pow2(277)) by (nonlinear_arith)
        requires
            pow2(277) == pow2(148) * pow2(129),
            pow2(129) > 1024,
            pow2(148) > 0,
    ;
    let halves: int = if i == 0 {
        5
    } else if i == 1 {
        10
    } else if i == 2 {
        20
    } else if i == 3 {
        40
    } else if i == 4 {
        80
    } else {
        120
    };
    assert(length == half_millis(halves));
    let one = crate::rounding::single_one();
    let times = halves / 5;
    assert(one == 2 * pow2(148));
    assert(2 * length == halves * one) by (nonlinear_arith)
        requires
            length == halves * pow2(148),
            one == 2 * pow2(148),
    ;
    assert(halves * one == times * (5 * one)) by (nonlinear_arith)
        requires
            halves == 5 * times,
    ;
    vstd::arithmetic::div_mod::lemma_mod_multiples_basic(times, 5 * one);
}

/// Frames of a Codec2 profile for which whole milliseconds are asked for hold whole codec
/// frames of forty milliseconds, and the smallest number of them that is long enough.
pub proof fn law_codec2_lengths_are_whole(millis: u16, profile: CodecProfile)
    requires
        profile.is_codec2(),
    ensures
        target_length(millis_length(millis), Some(profile)) == crate::rounding::ceiling(
            if millis < 1 {
                1
            } else {
                millis as int
            },
            40,
        ) * (40 * crate::rounding::single_one()),
{
    let one = crate::rounding::single_one();
    let asked: int = if millis < 1 {
        1
    } else {
        millis as int
    };
    let count = crate::rounding::ceiling(asked, 40);
    let limit = SINGLE_LIMIT as int;
    lemma2_to64();
    lemma_pow2_pos(149);
    lemma_pow2_adds(149, 128);
    lemma_pow2_strictly_increases(17, 128);
    assert(at_least_one(millis_length(millis)) == asked * one) by (nonlinear_arith)
        requires
            one > 0,
            asked == (if millis < 1 {
                1
            } else {
                millis as int
            }),
            at_least_one(millis_length(millis)) == (if millis * one < one {
                one
            } else {
                millis * one
            }),
    ;
    assert(asked * one < pow2(277)) by (nonlinear_arith)
        requires
            pow2(277) == one * pow2(128),
            asked < pow2(128),
            one > 0,
    ;
    assert(2 * (asked * one) == asked * (2 * one)) by (nonlinear_arith);
    if asked % 40 == 0 {
        assert(asked * one == count * (40 * one)) by (nonlinear_arith)
            requires
                asked == 40 * count,
        ;
        assert(2 * (asked * one) == count * (80 * one)) by (nonlinear_arith)
            requires
                asked == 40 * count,
        ;
        vstd::arithmetic::div_mod::lemma_mod_multiples_basic(count, 80 * one);
    } else {
        let number = 2 * (asked * one);
        let steps = asked / 40;
        assert(count == steps + 1);
        let rest = asked % 40;
        assert(number == steps * (80 * one) + 2 * (rest * one)) by (nonlinear_arith)
            requires
                asked == 40 * steps + rest,
                number == 2 * (asked * one),
        ;
        assert(0 < 2 * (rest * one) < 80 * one) by (nonlinear_arith)
            requires
                0 < rest < 40,
                one > 0,
        ;
        vstd::arithmetic::div_mod::lemma_fundamental_div_mod_converse(
            number,
            80 * one,
            steps,
            2 * (rest * one),
        );
        let quotient = crate::rounding::rounded(number, 80, limit);
        let space = crate::rounding::spacing(number, 80, limit);
        assert(number >= 0);
        crate::rounding::lemma_rounded_near(number, 80, limit);
        let _ = crate::rounding::lemma_spacing(number, 80, limit);
        lemma_pow2_strictly_increases(60, 149);
        lemma2_to64_rest();
        // The spacing is far smaller than a fortieth of a millisecond.
        assert(4_000 * space <= one) by (nonlinear_arith)
            requires
                space > 1 ==> 2 * number >= limit * (80 * space),
                space >= 1,
                limit == 0x100_0000,
                number == 2 * (asked * one),
                asked <= 0xffff,
                one >= pow2(60),
                pow2(60) == 0x1000_0000_0000_0000,
        ;
        assert(steps * one < quotient <= (steps + 1) * one) by (nonlinear_arith)
            requires
                2 * (quotient * 80 - number) <= 80 * space,
                2 * (number - quotient * 80) <= 80 * space,
                number == steps * (80 * one) + 2 * (rest * one),
                1 <= rest <= 39,
                4_000 * space <= one,
                space >= 1,
        ;
        let left = quotient - steps * one - 1;
        assert(quotient + one - 1 == (steps + 1) * one + left) by (nonlinear_arith)
            requires
                left == quotient - steps * one - 1,
        ;
        assert(0 <= left < one) by (nonlinear_arith)
            requires
                left == quotient - steps * one - 1,
                steps * one < quotient <= (steps + 1) * one,
        ;
        vstd::arithmetic::div_mod::lemma_fundamental_div_mod_converse(
            quotient + one - 1,
            one,
            steps + 1,
            left,
        );
        assert(crate::rounding::ceiling(quotient, one) == count);
        let tall = count * 40;
        assert(count * one * 80 == (tall * one) * 2) by (nonlinear_arith)
            requires
                tall == count * 40,
        ;
        assert(pow2(1) == 2);
        crate::rounding::lemma_rounded_common(tall * one, 1, limit, 1);
        crate::rounding::lemma_rounded_exact(tall, limit, 149);
        assert(tall * one == count * (40 * one)) by (nonlinear_arith)
            requires
                tall == count * 40,
        ;
        assert(tall * one < pow2(277)) by (nonlinear_arith)
            requires
                pow2(277) == one * pow2(128),
                tall < 131_072,
                pow2(128) > 131_072,
                one > 0,
        ;
    }
}

/// The bits of digits with a power of two, those of infinity where it is no less.
fn bits_of_digits(digits: u64, power: u32) -> (bits: u32)
    requires
        0x80_0000 <= digits <= 0x100_0000,
    ensures
        bits <= 0x7f80_0000,
        crate::float_bits::units(bits as nat, 23) == (if digits * pow2(power as nat)
            > crate::rounding::single_infinity() {
            crate::rounding::single_infinity()
        } else {
            digits * pow2(power as nat)
        }),
{
    proof {
        lemma2_to64();
        lemma_pow2_adds(23, 254);
        lemma_pow2_pos(power as nat);
        assert(pow2(23) == 0x80_0000);
    }
    if power >= 254 {
        proof {
            if power > 254 {
                lemma_pow2_strictly_increases(254, power as nat);
            }
            assert(digits * pow2(power as nat) >= pow2(277)) by (nonlinear_arith)
                requires
                    digits >= 0x80_0000,
                    pow2(power as nat) >= pow2(254),
                    pow2(277) == 0x80_0000 * pow2(254),
            ;
            assert(0x7f80_0000nat / 0x80_0000nat == 255);
            assert(0x7f80_0000nat % 0x80_0000nat == 0);
            assert((0x80_0000 + 0) * pow2(254) == pow2(277));
        }
        return 0x7f80_0000;
    }
    let bits: u32 = power * 0x80_0000 + digits as u32;
    proof {
        let value = digits * pow2(power as nat);
        assert(value <= pow2(277)) by {
            lemma_pow2_adds(24, 253);
            if power < 253 {
                lemma_pow2_strictly_increases(power as nat, 253);
            }
            assert(digits * pow2(power as nat) <= 0x100_0000 * pow2(253)) by (nonlinear_arith)
                requires
                    digits <= 0x100_0000,
                    pow2(power as nat) <= pow2(253),
            ;
        }
        if digits < 0x100_0000 {
            assert(bits as nat / 0x80_0000 == power + 1);
            assert(bits as nat % 0x80_0000 == digits - 0x80_0000);
        } else {
            assert(bits as nat / 0x80_0000 == power + 2);
            assert(bits as nat % 0x80_0000 == 0);
            lemma_pow2_adds(1, power as nat);
            let low = pow2(power as nat) as int;
            assert(0x80_0000 * (2 * low) == 0x100_0000 * low);
        }
    }
    bits
}

proof fn lemma_finite(digits: u64, power: u32)
    requires
        digits <= 0x100_0000,
        power <= 253,
    ensures
        digits * pow2(power as nat) <= crate::rounding::single_infinity(),
{
    lemma2_to64();
    lemma_pow2_adds(24, 253);
    if power < 253 {
        lemma_pow2_strictly_increases(power as nat, 253);
    }
    assert(digits * pow2(power as nat) <= 0x100_0000 * pow2(253)) by (nonlinear_arith)
        requires
            digits <= 0x100_0000,
            pow2(power as nat) <= pow2(253),
    ;
}

/// A length as digits and a power of two, at least a millisecond.
fn length_digits(length: FrameMs) -> (digits: (u64, u32))
    ensures
        digits.0 * pow2(digits.1 as nat) == at_least_one(length.length()),
        0x80_0000 <= digits.0 < 0x100_0000,
        126 <= digits.1 <= 254,
        digits.1 == 254 ==> digits.0 == 0x80_0000,
{
    proof {
        lemma2_to64();
        lemma_pow2_adds(23, 126);
        let one: nat = 0x3f80_0000;
        assert(one / 0x80_0000 == 127 && one % 0x80_0000 == 0);
        assert((0x80_0000 + 0) * pow2(126) == pow2(149));
        assert(crate::float_bits::units(one, 23) == crate::rounding::single_one());
        crate::float_bits::law_units_are_distinct(length.bits as nat, one, 23);
        crate::float_bits::law_units_are_distinct(one, length.bits as nat, 23);
    }
    if length.bits > 0x7f80_0000 || length.bits < 0x3f80_0000 {
        return (0x80_0000, 126);
    }
    let digits: u64 = 0x80_0000 + (length.bits % 0x80_0000) as u64;
    let power: u32 = length.bits / 0x80_0000 - 1;
    (digits, power)
}

/// Whether a length is a multiple of a step of so many half milliseconds.
fn is_multiple(digits: u64, power: u32, step: u64) -> (multiple: bool)
    requires
        0x80_0000 <= digits < 0x100_0000,
        126 <= power <= 254,
        0 < step <= 80,
    ensures
        multiple == ((2 * (digits * pow2(power as nat))) % (step * crate::rounding::single_one()) == 0),
{
    let ghost one = crate::rounding::single_one();
    let ghost number = 2 * (digits * pow2(power as nat));
    proof {
        lemma2_to64();
        lemma_pow2_adds(1, power as nat);
        lemma_pow2_pos(149);
        let base = pow2(power as nat) as int;
        assert(number == digits * (2 * base)) by (nonlinear_arith)
            requires
                number == 2 * (digits * base),
        ;
    }
    if power >= 148 {
        let count: u32 = power - 148;
        let mut rest: u64 = digits % step;
        let mut i: u32 = 0;
        proof {
            assert(digits * pow2(0) == digits);
        }
        while i < count
            invariant
                i <= count,
                0 < step <= 80,
                rest < step,
                rest == (digits * pow2(i as nat)) % (step as int),
            decreases count - i,
        {
            proof {
                lemma2_to64();
                lemma_pow2_adds(1, i as nat);
                let low = pow2(i as nat) as int;
                assert(digits * (2 * low) == 2 * (digits * low)) by (nonlinear_arith);
                vstd::arithmetic::div_mod::lemma_mul_mod_noop_right(
                    2,
                    digits * low,
                    step as int,
                );
            }
            rest = (2 * rest) % step;
            i += 1;
        }
        proof {
            lemma_pow2_adds(count as nat, 149);
            let low = pow2(count as nat) as int;
            assert(number == (digits * low) * one) by (nonlinear_arith)
                requires
                    number == digits * (low * one),
            ;
            lemma_common_remainder(digits * low, step as int, one);
        }
        rest == 0
    } else {
        let missing: u32 = 148 - power;
        let factor = crate::float_bits::power_of_two(missing);
        proof {
            lemma_pow2_adds(missing as nat, (power + 1) as nat);
            lemma_pow2_pos((power + 1) as nat);
            if missing < 22 {
                lemma_pow2_strictly_increases(missing as nat, 22);
            }
            assert(step * factor <= 80 * 0x40_0000) by (nonlinear_arith)
                requires
                    step <= 80,
                    factor <= 0x40_0000,
            ;
            assert(step * factor > 0) by (nonlinear_arith)
                requires
                    step > 0,
                    factor > 0,
            ;
            let high = pow2((power + 1) as nat) as int;
            assert(step * one == (step * factor) * high) by (nonlinear_arith)
                requires
                    one == factor * high,
            ;
            lemma_common_remainder(digits as int, step * factor, high);
        }
        digits % (step * factor) == 0
    }
}

proof fn lemma_common_remainder(number: int, divisor: int, factor: int)
    requires
        divisor > 0,
        factor > 0,
    ensures
        ((number * factor) % (divisor * factor) == 0) == (number % divisor == 0),
{
    let whole = number / divisor;
    let rest = number % divisor;
    vstd::arithmetic::div_mod::lemma_fundamental_div_mod(number, divisor);
    assert(number * factor == whole * (divisor * factor) + rest * factor) by (nonlinear_arith)
        requires
            number == divisor * whole + rest,
    ;
    assert(0 <= rest * factor < divisor * factor && (rest * factor == 0 <==> rest == 0))
        by (nonlinear_arith)
        requires
            0 <= rest < divisor,
            factor > 0,
    ;
    vstd::arithmetic::div_mod::lemma_fundamental_div_mod_converse(
        number * factor,
        divisor * factor,
        whole,
        rest * factor,
    );
}

/// A length brought up to a step of so many half milliseconds.
fn step_up(digits: u64, power: u32, step: u64) -> (length: (u64, u32))
    requires
        0x80_0000 <= digits < 0x100_0000,
        126 <= power <= 254,
        power == 254 ==> digits == 0x80_0000,
        0 < step <= 80,
    ensures
        length.0 * pow2(length.1 as nat) == stepped(digits * pow2(power as nat), step as int),
        0x80_0000 <= length.0 <= 0x100_0000,
        124 <= length.1 <= 254,
        length.1 == 254 ==> length.0 == 0x80_0000,
{
    let ghost one = crate::rounding::single_one();
    let ghost limit = SINGLE_LIMIT as int;
    let ghost value = digits * pow2(power as nat);
    proof {
        lemma2_to64();
        lemma_pow2_adds(23, 254);
        if power < 254 {
            lemma_below_infinity(digits, power);
        }
    }
    if power >= 254 || is_multiple(digits, power, step) {
        return (digits, power);
    }
    let number: u128 = digits as u128 * 0x100;
    let (quotient, more) = round_quotient(number, step as u128, SINGLE_LIMIT);
    let (count, extra) = ceil_digits(quotient, power - 7 + more, 149);
    assert(1 <= count * step <= 80 * 0x100_0000) by (nonlinear_arith)
        requires
            1 <= count <= 0x100_0000,
            1 <= step <= 80,
    ;
    let tall: u128 = count as u128 * step as u128 * 0x100_0000;
    let (target, last) = round_quotient(tall, 1, SINGLE_LIMIT);
    let high: u32 = extra + 124 + last;
    proof {
        let near = crate::rounding::rounded(2 * value, step as int, limit);
        lemma_pow2_adds(8, (power - 7) as nat);
        lemma_pow2_adds(1, power as nat);
        let low = pow2((power - 7) as nat) as int;
        let base = pow2(power as nat) as int;
        assert(2 * value == number * low) by (nonlinear_arith)
            requires
                value == digits * base,
                2 * base == 0x100 * low,
                number == digits * 0x100,
        ;
        crate::rounding::lemma_rounded_scaled(number as int, step as int, limit, (power - 7) as nat);
        lemma_pow2_adds((power - 7) as nat, more as nat);
        let part = pow2(more as nat) as int;
        assert((quotient * part) * low == quotient * (low * part)) by (nonlinear_arith);
        assert(near == quotient * pow2((power - 7 + more) as nat));
        let whole = crate::rounding::ceiling(near, one);
        let tip = pow2(extra as nat) as int;
        assert(whole == count * tip);
        // The product, less the factor that it has in common with the divisor.
        lemma_pow2_adds(1, 148);
        lemma_pow2_adds(24, 124);
        lemma_pow2_adds(extra as nat, 124);
        let mid = pow2((extra + 124) as nat) as int;
        assert(whole * one * step == (tall * mid) * 2) by (nonlinear_arith)
            requires
                whole == count * tip,
                one == 2 * (0x100_0000 * pow2(124)),
                mid == tip * pow2(124),
                tall == count * step * 0x100_0000,
        ;
        assert(pow2(1) == 2);
        crate::rounding::lemma_rounded_common(tall * mid, 1, limit, 1);
        crate::rounding::lemma_rounded_scaled(tall as int, 1, limit, (extra + 124) as nat);
        lemma_pow2_adds((extra + 124) as nat, last as nat);
        let end = pow2(last as nat) as int;
        assert((target * end) * mid == target * (mid * end)) by (nonlinear_arith);
    }
    if high >= 254 {
        proof {
            if high > 254 {
                lemma_pow2_strictly_increases(254, high as nat);
            }
            assert(target * pow2(high as nat) >= 0x80_0000 * pow2(254)) by (nonlinear_arith)
                requires
                    target >= 0x80_0000,
                    pow2(high as nat) >= pow2(254),
            ;
        }
        return (0x80_0000, 254);
    }
    proof {
        lemma_finite(target, high);
    }
    (target, high)
}

proof fn lemma_below_infinity(digits: u64, power: u32)
    requires
        digits < 0x100_0000,
        power <= 253,
    ensures
        digits * pow2(power as nat) < crate::rounding::single_infinity(),
{
    lemma2_to64();
    lemma_pow2_adds(24, 253);
    lemma_pow2_pos(power as nat);
    if power < 253 {
        lemma_pow2_strictly_increases(power as nat, 253);
    }
    assert(digits * pow2(power as nat) < 0x100_0000 * pow2(253)) by (nonlinear_arith)
        requires
            digits < 0x100_0000,
            0 < pow2(power as nat) <= pow2(253),
    ;
}

/// Whether a length is no longer than so many quarters of a millisecond.
fn within_quarters(digits: u64, power: u32, quarters: u64) -> (within: bool)
    requires
        0x80_0000 <= digits <= 0x100_0000,
        124 <= power,
        quarters <= 200,
    ensures
        within == (digits * pow2(power as nat) <= quarters * pow2(147)),
{
    proof {
        lemma2_to64();
        lemma_pow2_pos(power as nat);
        lemma_pow2_pos(147);
    }
    if power >= 147 {
        proof {
            if power > 147 {
                lemma_pow2_strictly_increases(147, power as nat);
            }
            assert(digits * pow2(power as nat) > quarters * pow2(147)) by (nonlinear_arith)
                requires
                    digits > quarters,
                    pow2(power as nat) >= pow2(147),
                    pow2(147) > 0,
            ;
        }
        false
    } else {
        let missing: u32 = 147 - power;
        let factor = crate::float_bits::power_of_two(missing);
        proof {
            lemma_pow2_adds(missing as nat, power as nat);
            if missing < 23 {
                lemma_pow2_strictly_increases(missing as nat, 23);
            }
            let low = pow2(power as nat) as int;
            assert((digits <= quarters * factor) == (digits * low <= (quarters * factor) * low))
                by (nonlinear_arith)
                requires
                    low > 0,
            ;
            assert((quarters * factor) * low == quarters * (factor * low)) by (nonlinear_arith);
            assert(quarters * factor <= 200 * 0x80_0000) by (nonlinear_arith)
                requires
                    quarters <= 200,
                    factor <= 0x80_0000,
            ;
        }
        digits <= quarters * factor
    }
}

/// The Opus frame length that is nearest to a length.
fn nearest_opus_digits(digits: u64, power: u32) -> (length: (u64, u32))
    requires
        0x80_0000 <= digits <= 0x100_0000,
        124 <= power,
    ensures
        length.0 * pow2(length.1 as nat) == ({
            let whole = digits * pow2(power as nat);
            nearest_length(
                opus_frame_lengths(),
                if whole > half_millis(120) {
                    half_millis(120)
                } else {
                    whole
                },
            )
        }),
        0x80_0000 <= length.0 <= 0x100_0000,
        126 <= length.1 < 254,
{
    proof {
        let whole = digits * pow2(power as nat);
        lemma_nearest_opus(whole);
        lemma_nearest_opus(half_millis(120));
        lemma2_to64();
        lemma_pow2_adds(21, 127);
        lemma_pow2_adds(20, 128);
        lemma_pow2_adds(19, 129);
        lemma_pow2_adds(18, 130);
        lemma_pow2_adds(17, 131);
        assert(pow2(148) == 0x20_0000 * pow2(127));
        assert(pow2(148) == 0x10_0000 * pow2(128));
        assert(pow2(148) == 0x8_0000 * pow2(129));
        assert(pow2(148) == 0x4_0000 * pow2(130));
        assert(pow2(148) == 0x2_0000 * pow2(131));
        assert(half_millis(120) > 200 * pow2(147));
    }
    let length: (u64, u32) = if within_quarters(digits, power, 15) {
        (0xa0_0000, 127)
    } else if within_quarters(digits, power, 30) {
        (0xa0_0000, 128)
    } else if within_quarters(digits, power, 60) {
        (0xa0_0000, 129)
    } else if within_quarters(digits, power, 120) {
        (0xa0_0000, 130)
    } else if within_quarters(digits, power, 200) {
        (0xa0_0000, 131)
    } else {
        (0xf0_0000, 131)
    };
    proof {
        let whole = digits * pow2(power as nat);
        let all = opus_frame_lengths();
        let found = length.0 * pow2(length.1 as nat);
        if whole <= 15 * pow2(147) {
            assert(found == half_millis(5));
        } else if whole <= 30 * pow2(147) {
            assert(found == half_millis(10));
        } else if whole <= 60 * pow2(147) {
            assert(found == half_millis(20));
        } else if whole <= 120 * pow2(147) {
            assert(found == half_millis(40));
        } else if whole <= 200 * pow2(147) {
            assert(found == half_millis(80));
        } else {
            assert(found == half_millis(120));
        }
        assert(found == nearest_length(all, whole));
        assert(nearest_length(all, half_millis(120)) == half_millis(120));
    }
    length
}

fn target_digits(requested: FrameMs, codec_profile: Option<CodecProfile>) -> (target: (u64, u32))
    ensures
        target.0 * pow2(target.1 as nat) == target_length(requested.length(), codec_profile),
        0x80_0000 <= target.0 <= 0x100_0000,
        124 <= target.1 <= 254,
        target.1 == 254 ==> target.0 == 0x80_0000,
{
    let (digits, power) = length_digits(requested);
    match codec_profile {
        Some(profile) => match profile {
            CodecProfile::OpusVoiceLow | CodecProfile::OpusVoiceMedium
            | CodecProfile::OpusVoiceHigh | CodecProfile::OpusVoiceMax
            | CodecProfile::OpusAudioMin | CodecProfile::OpusAudioLow
            | CodecProfile::OpusAudioMedium | CodecProfile::OpusAudioHigh
            | CodecProfile::OpusAudioMax => {
                let (whole, high) = step_up(digits, power, 5);
                nearest_opus_digits(whole, high)
            },
            CodecProfile::Codec2_700C | CodecProfile::Codec2_1200 | CodecProfile::Codec2_1300
            | CodecProfile::Codec2_1400 | CodecProfile::Codec2_1600 | CodecProfile::Codec2_2400
            | CodecProfile::Codec2_3200 => step_up(digits, power, 80),
            CodecProfile::Raw => (digits, power),
        },
        None => (digits, power),
    }
}

/// Whether `plan` is the plan of frames for which a length was asked for.
pub open spec fn plans(
    plan: AudioFramePlan,
    requested: int,
    profile: Option<CodecProfile>,
    samplerate: u32,
    channels: u8,
) -> bool {
    let target = target_length(requested, profile);
    &&& plan.requested_frame_ms.length() == requested
    &&& plan.target_frame_ms.length() == target
    &&& plan.target_frame_ms.bits <= 0x7f80_0000
    &&& plan.samplerate == samplerate
    &&& plan.channels == channels
    &&& plan.frame_count == samples_for(target, samplerate as int)
    &&& plan.sample_count == plan.frame_count * channels
}

/// The plan of frames from a line in, for the codec that they are for.
pub fn plan_line_source_frame(
    requested_frame_ms: FrameMs,
    codec_profile: Option<CodecProfile>,
    samplerate: u32,
    channels: u8,
) -> (plan: Result<AudioFramePlan, AudioError>)
    requires
        samples_for(
            target_length(requested_frame_ms.length(), codec_profile),
            samplerate as int,
        ) * channels <= usize::MAX,
    ensures
        match plan {
            Ok(plan) => {
                &&& samplerate > 0 && channels > 0
                &&& plan.requested_frame_ms.bits == requested_frame_ms.bits
                &&& plans(plan, requested_frame_ms.length(), codec_profile, samplerate, channels)
            },
            Err(error) => crate::audio::frame_error(samplerate, channels, 0) == Some(error),
        },
{
    if samplerate == 0 {
        return Err(AudioError::InvalidSamplerate(samplerate));
    }
    if channels == 0 {
        return Err(AudioError::InvalidChannels(channels));
    }
    let (digits, power) = target_digits(requested_frame_ms, codec_profile);
    let bits = bits_of_digits(digits, power);
    let frame_count = sample_count_for(digits, power, samplerate);
    proof {
        if power <= 253 {
            lemma_finite(digits, power);
        } else {
            lemma2_to64();
            lemma_pow2_adds(23, 254);
        }
    }
    Ok(
        AudioFramePlan {
            requested_frame_ms,
            target_frame_ms: FrameMs { bits },
            samplerate,
            channels,
            frame_count,
            sample_count: frame_count * channels as usize,
        },
    )
}

fn sample_count_for(digits: u64, power: u32, samplerate: u32) -> (count: usize)
    requires
        0x80_0000 <= digits <= 0x100_0000,
        124 <= power <= 254,
        samplerate > 0,
    ensures
        count == samples_for(digits * pow2(power as nat), samplerate as int),
{
    let wide: u128 = samplerate as u128 * 0x100_0000;
    let (rate, more) = round_quotient(wide, 1, SINGLE_LIMIT);
    assert(0x80_0000 * 0x80_0000 <= rate * digits <= 0x100_0000 * 0x100_0000) by (nonlinear_arith)
        requires
            0x80_0000 <= rate <= 0x100_0000,
            0x80_0000 <= digits <= 0x100_0000,
    ;
    let product: u128 = rate as u128 * digits as u128;
    let (total, extra) = round_quotient(product, 1, SINGLE_LIMIT);
    let sum: u32 = more + power + extra - 24;
    let tall: u128 = total as u128 * 0x400;
    let (seconds, last) = round_quotient(tall, 1_000, SINGLE_LIMIT);
    let (whole, left) = ceil_digits(seconds, sum - 10 + last, 149);
    proof {
        let limit = SINGLE_LIMIT as int;
        let one = crate::rounding::single_one();
        lemma2_to64();
        // The sample rate.
        lemma_pow2_adds(24, 125);
        crate::rounding::lemma_rounded_scaled(wide as int, 1, limit, 125);
        let part = pow2(more as nat) as int;
        let rate_power = pow2(125) as int;
        let rate_value = crate::rounding::rounded(samplerate * one, 1, limit);
        assert(samplerate * one == wide * rate_power) by (nonlinear_arith)
            requires
                one == 0x100_0000 * rate_power,
                wide == samplerate * 0x100_0000,
        ;
        assert(rate_value == (rate * part) * rate_power);
        // The product: 125 and the powers of both, less the 149 of one.
        let base = pow2(power as nat) as int;
        lemma_pow2_adds(more as nat, power as nat);
        lemma_pow2_adds((more + power) as nat, 125);
        lemma_pow2_adds((more + power - 24) as nat, 149);
        let joined = pow2((more + power - 24) as nat) as int;
        assert(rate_value * (digits * base) == (product * joined) * one) by (nonlinear_arith)
            requires
                rate_value == (rate * part) * rate_power,
                product == rate * digits,
                (part * base) * rate_power == joined * one,
        ;
        crate::rounding::lemma_rounded_common(product * joined, 1, limit, 149);
        assert(1 * pow2(149) == one);
        crate::rounding::lemma_rounded_scaled(product as int, 1, limit, (more + power - 24) as nat);
        let tip = pow2(extra as nat) as int;
        lemma_pow2_adds((more + power - 24) as nat, extra as nat);
        let product_value = crate::rounding::rounded(rate_value * (digits * base), one, limit);
        assert((total * tip) * joined == total * (joined * tip)) by (nonlinear_arith);
        assert(product_value == total * pow2(sum as nat));
        // The quotient.
        lemma_pow2_adds(10, (sum - 10) as nat);
        let low = pow2((sum - 10) as nat) as int;
        assert(product_value == tall * low) by (nonlinear_arith)
            requires
                product_value == total * pow2(sum as nat),
                pow2(sum as nat) == 0x400 * low,
                tall == total * 0x400,
        ;
        crate::rounding::lemma_rounded_scaled(tall as int, 1_000, limit, (sum - 10) as nat);
        let end = pow2(last as nat) as int;
        lemma_pow2_adds((sum - 10) as nat, last as nat);
        assert((seconds * end) * low == seconds * (low * end)) by (nonlinear_arith);
    }
    saturate_digits(whole, left)
}

/// The plan of frames from a mixer, for the codec that they are for.
pub fn plan_mixer_frame(
    requested_frame_ms: FrameMs,
    codec_profile: Option<CodecProfile>,
    samplerate: u32,
    channels: u8,
) -> (plan: Result<MixerFramePlan, AudioError>)
    requires
        samples_for(
            target_length(requested_frame_ms.length(), codec_profile),
            samplerate as int,
        ) * channels <= usize::MAX,
    ensures
        match plan {
            Ok(plan) => {
                &&& samplerate > 0 && channels > 0
                &&& plan.requested_frame_ms.bits == requested_frame_ms.bits
                &&& plans(plan, requested_frame_ms.length(), codec_profile, samplerate, channels)
            },
            Err(error) => crate::audio::frame_error(samplerate, channels, 0) == Some(error),
        },
{
    plan_line_source_frame(requested_frame_ms, codec_profile, samplerate, channels)
}

/// A span in seconds, in double precision: the part of a second is rounded, and so is its
/// sum with the whole seconds.
pub open spec fn span_seconds(span: int) -> int {
    let limit = DOUBLE_LIMIT as int;
    let one = crate::rounding::double_one();
    let part = crate::rounding::rounded((span % 1_000_000_000) * one, 1_000_000_000, limit);
    crate::rounding::rounded((span / 1_000_000_000) * one + part, 1, limit)
}

/// The samples of all channels that a span takes: what the seconds and the sample rate make
/// in double precision, a started one counted in full.
pub open spec fn span_samples(span: int, samplerate: int, channels: int) -> int {
    let count = crate::rounding::rounded(span_seconds(span) * samplerate, 1, DOUBLE_LIMIT as int);
    crate::rounding::saturated(crate::rounding::ceiling(count, crate::rounding::double_one()))
        * channels
}

/// One in the units in which seconds are counted here: a power of two.
const SECOND_POWER: u32 = 83;

/// A second in the units in which seconds are counted here.
const SECOND_UNITS: u128 = 0x8_0000_0000_0000_0000_0000;

proof fn lemma_second_units()
    ensures
        SECOND_UNITS == pow2(SECOND_POWER as nat),
        crate::rounding::double_one() == SECOND_UNITS * pow2(991),
{
    lemma2_to64();
    lemma2_to64_rest();
    lemma_pow2_adds(64, 19);
    lemma_pow2_adds(83, 991);
}

/// The part of a second that nanoseconds make.
fn second_part(nanos: u128) -> (part: u128)
    requires
        nanos < 1_000_000_000,
    ensures
        part * pow2(991) == crate::rounding::rounded(
            nanos * crate::rounding::double_one(),
            1_000_000_000,
            DOUBLE_LIMIT as int,
        ),
        nanos > 0 ==> part >= 0x10_0000_0000_0000,
        part <= 0x10_0000_0000_0000_0000_0000,
{
    proof {
        lemma_second_units();
        crate::rounding::lemma_rounded_zero(1_000_000_000, DOUBLE_LIMIT as int);
        lemma_pow2_pos(991);
    }
    if nanos == 0 {
        assert(0 * pow2(991) == 0);
        return 0;
    }
    let number: u128 = nanos * SECOND_UNITS;
    let (digits, power) = round_quotient(number, 1_000_000_000, DOUBLE_LIMIT);
    proof {
        let scale = pow2(991) as int;
        crate::rounding::lemma_rounded_scaled(number as int, 1_000_000_000, DOUBLE_LIMIT as int, 991);
        assert(nanos * crate::rounding::double_one() == number * pow2(991)) by (nonlinear_arith)
            requires
                crate::rounding::double_one() == SECOND_UNITS * pow2(991),
                number == nanos * SECOND_UNITS,
        ;
        if power >= 32 {
            lemma2_to64();
            if power > 32 {
                lemma_pow2_strictly_increases(32, power as nat);
            }
        }
    }
    let factor = crate::float_bits::power_of_two(power);
    proof {
        lemma2_to64();
        if power < 31 {
            lemma_pow2_strictly_increases(power as nat, 31);
        }
        assert(0x10_0000_0000_0000 <= digits * factor <= 0x10_0000_0000_0000_0000_0000)
            by (nonlinear_arith)
            requires
                0x10_0000_0000_0000 <= digits <= 0x20_0000_0000_0000,
                1 <= factor <= 0x8000_0000,
        ;
    }
    digits as u128 * factor as u128
}

/// A span in seconds, as digits and a power of two.
fn seconds_digits(span: Nanos) -> (digits: (u64, u32))
    requires
        span > 0,
    ensures
        digits.0 * pow2(digits.1 as nat) * pow2(991) == span_seconds(span as int),
        0x10_0000_0000_0000 <= digits.0 <= DOUBLE_LIMIT,
        digits.1 < 128,
{
    let seconds: u128 = span as u128 / 1_000_000_000;
    let part = second_part(span as u128 % 1_000_000_000);
    let total: u128 = seconds * SECOND_UNITS + part;
    let digits = round_quotient(total, 1, DOUBLE_LIMIT);
    proof {
        lemma_second_units();
        crate::rounding::lemma_rounded_scaled(total as int, 1, DOUBLE_LIMIT as int, 991);
        assert(total * pow2(991) == seconds * crate::rounding::double_one() + part * pow2(991))
            by (nonlinear_arith)
            requires
                crate::rounding::double_one() == SECOND_UNITS * pow2(991),
                total == seconds * SECOND_UNITS + part,
        ;
    }
    digits
}

/// The samples of all channels that a span takes.
pub fn duration_samples(span: Nanos, samplerate: u32, channels: u8) -> (samples: usize)
    requires
        span_samples(span as int, samplerate as int, channels as int) <= usize::MAX,
    ensures
        samples == span_samples(span as int, samplerate as int, channels as int),
{
    let ghost limit = DOUBLE_LIMIT as int;
    proof {
        lemma_second_units();
        lemma_pow2_pos(991);
        lemma_pow2_pos(1074);
        crate::rounding::lemma_rounded_zero(1, limit);
        crate::rounding::lemma_rounded_zero(1_000_000_000, limit);
    }
    if span == 0 || samplerate == 0 {
        proof {
            assert(0 * crate::rounding::double_one() == 0);
            assert(span_seconds(span as int) * samplerate == 0) by (nonlinear_arith)
                requires
                    span_seconds(span as int) == 0 || samplerate == 0,
            ;
            assert((crate::rounding::double_one() - 1) / crate::rounding::double_one() == 0)
                by (nonlinear_arith)
                requires
                    crate::rounding::double_one() > 0,
            ;
            assert(0 * channels == 0);
        }
        return 0;
    }
    let (digits, power) = seconds_digits(span);
    assert(digits as u128 * samplerate as u128 <= 0x20_0000_0000_0000 * 0xffff_ffff)
        by (nonlinear_arith)
        requires
            digits <= 0x20_0000_0000_0000,
            samplerate <= 0xffff_ffff,
    ;
    assert(digits * samplerate >= digits) by (nonlinear_arith)
        requires
            samplerate >= 1,
            digits >= 0,
    ;
    let product: u128 = digits as u128 * samplerate as u128;
    let (count, more) = round_quotient(product, 1, DOUBLE_LIMIT);
    let (whole, left) = ceil_digits(count, power + more, SECOND_POWER);
    let per_channel = saturate_digits(whole, left);
    proof {
        let base = pow2(power as nat) as int;
        let high = pow2(991) as int;
        let extra = pow2(more as nat) as int;
        let one = pow2(SECOND_POWER as nat) as int;
        lemma_pow2_adds(power as nat, 991);
        crate::rounding::lemma_rounded_scaled(product as int, 1, limit, (power + 991) as nat);
        assert((digits * base * high) * samplerate == product * (base * high)) by (nonlinear_arith)
            requires
                product == digits * samplerate,
        ;
        lemma_pow2_adds(power as nat, more as nat);
        assert((count * extra) * (base * high) == (count * (base * extra)) * high)
            by (nonlinear_arith);
        lemma_pow2_pos(SECOND_POWER as nat);
        crate::rounding::lemma_ceiling_common(count * (base * extra), one, high);
    }
    per_channel * channels as usize
}

/// The format of a tone that a codec is to take: the codec's sample rate and channels where
/// it fixes them.
pub open spec fn tone_format(profile: CodecProfile, channels: u8) -> (u32, u8) {
    (
        if profile.limits().1 == 0 {
            48_000
        } else {
            profile.limits().1
        },
        if profile.limits().0 == 0 {
            channels
        } else {
            profile.limits().0
        },
    )
}

/// The plan of the frames of a tone that a codec is to take.
pub fn plan_tone_frame(
    requested_frame_ms: u16,
    codec_profile: CodecProfile,
    channels: u8,
) -> (plan: Result<AudioFramePlan, AudioError>)
    requires
        samples_for(
            target_length(millis_length(requested_frame_ms), Some(codec_profile)),
            tone_format(codec_profile, channels).0 as int,
        ) * tone_format(codec_profile, channels).1 <= usize::MAX,
    ensures
        match plan {
            Ok(plan) => {
                &&& tone_format(codec_profile, channels).1 > 0
                &&& plans(
                    plan,
                    millis_length(requested_frame_ms),
                    Some(codec_profile),
                    tone_format(codec_profile, channels).0,
                    tone_format(codec_profile, channels).1,
                )
            },
            Err(error) => {
                &&& codec_profile is Raw && channels == 0
                &&& error == AudioError::InvalidChannels(0)
            },
        },
{
    let info = codec_profile.info();
    let samplerate: u32 = if info.samplerate == 0 {
        48_000
    } else {
        info.samplerate
    };
    let channels: u8 = if info.channels == 0 {
        channels
    } else {
        info.channels
    };
    let requested = FrameMs::from_millis(requested_frame_ms);
    plan_line_source_frame(requested, Some(codec_profile), samplerate, channels)
}

/// The samples per channel of a tone's frame: at least a millisecond, a started sample
/// counted in full.
pub fn tone_frame_samples(samplerate: u32, frame_ms: u16) -> (samples: u64)
    ensures
        samples == (samplerate * (if frame_ms < 1 {
            1
        } else {
            frame_ms as int
        }) + 999) / 1_000,
{
    let millis: u64 = if frame_ms < 1 {
        1
    } else {
        frame_ms as u64
    };
    assert(samplerate as u64 * millis <= 0xffff_ffff * 0xffff) by (nonlinear_arith)
        requires
            samplerate <= 0xffff_ffff,
            millis <= 0xffff,
    ;
    (samplerate as u64 * millis + 999) / 1_000
}

/// How far a line in is on: the samples that are left out at the beginning, and those over
/// which the volume grows.
#[derive(Debug, Clone, Copy, PartialEq, Eq, Structural)]
pub struct LineSourceProcessor {
    ease_samples: usize,
    skip_samples: usize,
    skipped_samples: usize,
    processed_samples: usize,
}

impl LineSourceProcessor {
    /// Over how many samples the volume grows.
    pub closed spec fn ease(&self) -> usize {
        self.ease_samples
    }

    /// How many samples are to be left out.
    pub closed spec fn skip(&self) -> usize {
        self.skip_samples
    }

    /// How many samples were left out.
    pub closed spec fn skipped(&self) -> usize {
        self.skipped_samples
    }

    /// How many samples were let through.
    pub closed spec fn processed(&self) -> usize {
        self.processed_samples
    }

    /// A line in that leaves out the sound of `skip` and then grows over `ease_in`.
    pub fn new(ease_in: Nanos, skip: Nanos, samplerate: u32, channels: u8) -> (processor: Self)
        requires
            span_samples(ease_in as int, samplerate as int, channels as int) <= usize::MAX,
            span_samples(skip as int, samplerate as int, channels as int) <= usize::MAX,
        ensures
            processor.ease() == span_samples(ease_in as int, samplerate as int, channels as int),
            processor.skip() == span_samples(skip as int, samplerate as int, channels as int),
            processor.skipped() == 0,
            processor.processed() == 0,
    {
        LineSourceProcessor {
            ease_samples: duration_samples(ease_in, samplerate, channels),
            skip_samples: duration_samples(skip, samplerate, channels),
            skipped_samples: 0,
            processed_samples: 0,
        }
    }

    /// How many samples were left out.
    pub fn skipped_samples(&self) -> (samples: usize)
        ensures
            samples == self.skipped(),
    {
        self.skipped_samples
    }

    /// How many samples were let through.
    pub fn processed_samples(&self) -> (samples: usize)
        ensures
            samples == self.processed(),
    {
        self.processed_samples
    }

    /// Over how many samples the volume grows.
    pub fn ease_samples(&self) -> (samples: usize)
        ensures
            samples == self.ease(),
    {
        self.ease_samples
    }

    /// Whether a frame of `samples` samples is let through. Whole frames are left out until
    /// enough samples were.
    pub fn admit_frame(&mut self, samples: usize) -> (admitted: bool)
        requires
            old(self).skipped() < old(self).skip() ==> old(self).skipped() + samples <= usize::MAX,
        ensures
            admitted == (old(self).skipped() >= old(self).skip()),
            final(self).skipped() == (if admitted {
                old(self).skipped() as int
            } else {
                old(self).skipped() + samples
            }),
            final(self).ease() == old(self).ease(),
            final(self).skip() == old(self).skip(),
            final(self).processed() == old(self).processed(),
    {
        if self.skipped_samples < self.skip_samples {
            self.skipped_samples = self.skipped_samples + samples;
            return false;
        }
        true
    }

    /// Notes that a frame of `samples` samples was let through, and says which part of the
    /// growth is done: so many samples of so many. Nothing where the volume does not grow.
    pub fn frame_done(&mut self, samples: usize) -> (progress: Option<(usize, usize)>)
        requires
            old(self).processed() + samples <= usize::MAX,
        ensures
            final(self).processed() == old(self).processed() + samples,
            final(self).skipped() == old(self).skipped(),
            final(self).ease() == old(self).ease(),
            final(self).skip() == old(self).skip(),
            progress == (if old(self).ease() == 0 {
                None
            } else if final(self).processed() < old(self).ease() {
                Some((final(self).processed(), old(self).ease()))
            } else {
                Some((old(self).ease(), old(self).ease()))
            }),
    {
        self.processed_samples = self.processed_samples + samples;
        if self.ease_samples == 0 {
            None
        } else if self.processed_samples < self.ease_samples {
            Some((self.processed_samples, self.ease_samples))
        } else {
            Some((self.ease_samples, self.ease_samples))
        }
    }
}

/// Without a codec that asks for some length, the length that was asked for is kept, where it
/// is at least a millisecond.
pub proof fn law_other_lengths_are_kept(requested: int, profile: Option<CodecProfile>)
    requires
        profile is None || profile == Some(CodecProfile::Raw),
    ensures
        requested >= millis_length(1) ==> target_length(requested, profile) == requested,
        requested < millis_length(1) ==> target_length(requested, profile) == millis_length(1),
{
    assert(1 * crate::rounding::single_one() == crate::rounding::single_one());
}

/// Of some lengths, none lies nearer to the one that was asked for than the one that is taken.
pub proof fn law_nearest_length_is_taken(lengths: Seq<int>, length: int, other: int)
    requires
        lengths.contains(other),
    ensures
        lengths.contains(nearest_length(lengths, length)),
        ({
            let taken = nearest_length(lengths, length);
            let off = if taken < length {
                length - taken
            } else {
                taken - length
            };
            off <= other - length || off <= length - other
        }),
    decreases lengths.len(),
{
    let place = choose|place: int| 0 <= place < lengths.len() && lengths[place] == other;
    if lengths.len() <= 1 {
        assert(lengths[0] == other);
    } else {
        let rest = lengths.drop_last();
        let before = nearest_length(rest, length);
        assert(rest[0] == lengths[0]);
        law_nearest_length_is_taken(rest, length, rest[0]);
        let at = choose|at: int| 0 <= at < rest.len() && rest[at] == before;
        assert(lengths[at] == before);
        assert(lengths[lengths.len() - 1] == lengths.last());
        if place < rest.len() {
            assert(rest[place] == other);
            law_nearest_length_is_taken(rest, length, other);
        }
    }
}

proof fn lemma_stepped_millis(asked: int)
    requires
        1 <= asked <= 0xffff,
    ensures
        stepped(asked * crate::rounding::single_one(), 5) == half_millis(
            5 * ((2 * asked + 4) / 5),
        ),
{
    let one = crate::rounding::single_one();
    let half = pow2(148) as int;
    let number = 2 * (asked * one);
    let limit = SINGLE_LIMIT as int;
    let steps = (2 * asked) / 5;
    let rest = (2 * asked) % 5;
    let count = (2 * asked + 4) / 5;
    lemma2_to64();
    lemma2_to64_rest();
    lemma_pow2_pos(148);
    lemma_pow2_adds(1, 148);
    lemma_pow2_adds(149, 128);
    lemma_pow2_strictly_increases(60, 149);
    lemma_pow2_strictly_increases(20, 128);
    assert(one == 2 * half);
    assert(asked * one < pow2(277)) by (nonlinear_arith)
        requires
            pow2(277) == one * pow2(128),
            asked < pow2(128),
            one > 0,
    ;
    assert(number == steps * (5 * one) + rest * one) by (nonlinear_arith)
        requires
            2 * asked == 5 * steps + rest,
            number == 2 * (asked * one),
    ;
    assert(0 <= rest * one < 5 * one) by (nonlinear_arith)
        requires
            0 <= rest < 5,
            one > 0,
    ;
    vstd::arithmetic::div_mod::lemma_fundamental_div_mod_converse(
        number,
        5 * one,
        steps,
        rest * one,
    );
    if rest == 0 {
        assert(count == steps);
        assert(rest * one == 0) by (nonlinear_arith)
            requires
                rest == 0,
        ;
        assert(asked * one == (5 * count) * half) by (nonlinear_arith)
            requires
                2 * asked == 5 * count,
                one == 2 * half,
        ;
    } else {
        assert(count == steps + 1);
        assert(rest * one > 0) by (nonlinear_arith)
            requires
                rest > 0,
                one > 0,
        ;
        let quotient = crate::rounding::rounded(number, 5, limit);
        let space = crate::rounding::spacing(number, 5, limit);
        crate::rounding::lemma_rounded_near(number, 5, limit);
        let _ = crate::rounding::lemma_spacing(number, 5, limit);
        assert(50 * space <= one) by (nonlinear_arith)
            requires
                space > 1 ==> 2 * number >= limit * (5 * space),
                space >= 1,
                limit == 0x100_0000,
                number == 2 * (asked * one),
                asked <= 0xffff,
                one >= pow2(60),
                pow2(60) == 0x1000_0000_0000_0000,
        ;
        assert(steps * one < quotient <= (steps + 1) * one) by (nonlinear_arith)
            requires
                2 * (quotient * 5 - number) <= 5 * space,
                2 * (number - quotient * 5) <= 5 * space,
                number == steps * (5 * one) + rest * one,
                1 <= rest <= 4,
                50 * space <= one,
                space >= 1,
        ;
        let left = quotient - steps * one - 1;
        assert(quotient + one - 1 == (steps + 1) * one + left) by (nonlinear_arith)
            requires
                left == quotient - steps * one - 1,
        ;
        assert(0 <= left < one) by (nonlinear_arith)
            requires
                left == quotient - steps * one - 1,
                steps * one < quotient <= (steps + 1) * one,
        ;
        vstd::arithmetic::div_mod::lemma_fundamental_div_mod_converse(
            quotient + one - 1,
            one,
            steps + 1,
            left,
        );
        assert(crate::rounding::ceiling(quotient, one) == count);
        let tall = 5 * count;
        assert(count * one * 5 == (tall * half) * 2) by (nonlinear_arith)
            requires
                tall == 5 * count,
                one == 2 * half,
        ;
        assert(pow2(1) == 2);
        crate::rounding::lemma_rounded_common(tall * half, 1, limit, 1);
        crate::rounding::lemma_rounded_exact(tall, limit, 148);
        assert(tall * half < pow2(277)) by (nonlinear_arith)
            requires
                pow2(277) == one * pow2(128),
                one == 2 * half,
                tall < 0x10_0000,
                pow2(128) > 0x10_0000,
                half > 0,
        ;
    }
}

/// The frames of an Opus profile for which whole milliseconds are asked for: those are rounded
/// up to steps of two and a half milliseconds, and the nearest length that Opus takes is used,
/// the shorter of two that are as near.
pub proof fn law_opus_length_of_whole_millis(millis: u16, profile: CodecProfile)
    requires
        profile.is_opus(),
    ensures
        2 * target_length(millis_length(millis), Some(profile)) == (if millis <= 2 {
            5int
        } else if millis <= 7 {
            10
        } else if millis <= 15 {
            20
        } else if millis <= 30 {
            40
        } else if millis <= 50 {
            80
        } else {
            120
        }) * crate::rounding::single_one(),
{
    let one = crate::rounding::single_one();
    let asked: int = if millis < 1 {
        1
    } else {
        millis as int
    };
    lemma2_to64();
    lemma_pow2_pos(148);
    lemma_pow2_adds(1, 148);
    assert(at_least_one(millis_length(millis)) == asked * one) by (nonlinear_arith)
        requires
            one > 0,
            asked == (if millis < 1 {
                1
            } else {
                millis as int
            }),
            at_least_one(millis_length(millis)) == (if millis * one < one {
                one
            } else {
                millis * one
            }),
    ;
    lemma_stepped_millis(asked);
    let whole = half_millis(5 * ((2 * asked + 4) / 5));
    let capped = if whole > half_millis(120) {
        half_millis(120)
    } else {
        whole
    };
    lemma_nearest_opus(capped);
    let quarter = pow2(147) as int;
    let count = 5 * ((2 * asked + 4) / 5);
    assert(whole == (2 * count) * quarter) by (nonlinear_arith)
        requires
            whole == count * pow2(148),
            pow2(148) == 2 * quarter,
    ;
    assert(half_millis(120) == 240 * quarter);
    let units = if count > 120 {
        240
    } else {
        2 * count
    };
    assert(capped == units * quarter) by (nonlinear_arith)
        requires
            whole == (2 * count) * quarter,
            quarter > 0,
            units == (if count > 120 {
                240
            } else {
                2 * count
            }),
            capped == (if whole > 240 * quarter {
                240 * quarter
            } else {
                whole
            }),
    ;
    assert(units <= 15 <==> units * quarter <= 15 * quarter) by (nonlinear_arith)
        requires
            quarter > 0,
    ;
    assert(units <= 30 <==> units * quarter <= 30 * quarter) by (nonlinear_arith)
        requires
            quarter > 0,
    ;
    assert(units <= 60 <==> units * quarter <= 60 * quarter) by (nonlinear_arith)
        requires
            quarter > 0,
    ;
    assert(units <= 120 <==> units * quarter <= 120 * quarter) by (nonlinear_arith)
        requires
            quarter > 0,
    ;
    assert(units <= 200 <==> units * quarter <= 200 * quarter) by (nonlinear_arith)
        requires
            quarter > 0,
    ;
}

/// A plan keeps what was asked for and the format, and counts the samples of all channels.
pub proof fn law_plan_counts_all_channels(
    plan: AudioFramePlan,
    requested: int,
    profile: Option<CodecProfile>,
    samplerate: u32,
    channels: u8,
)
    requires
        plans(plan, requested, profile, samplerate, channels),
    ensures
        plan.requested_frame_ms.length() == requested,
        plan.target_frame_ms.length() == target_length(requested, profile),
        plan.samplerate == samplerate,
        plan.channels == channels,
        plan.frame_count == samples_for(plan.target_frame_ms.length(), samplerate as int),
        plan.sample_count == plan.frame_count * channels,
{
}

/// A tone is made in the format that the codec fixes; where it fixes none, at 48 kHz and with
/// the channels of the line.
pub proof fn law_tones_fit_their_codec(profile: CodecProfile, channels: u8)
    ensures
        !(profile is Raw) ==> tone_format(profile, channels) == (
            profile.limits().1,
            profile.limits().0,
        ),
        profile is Raw ==> tone_format(profile, channels) == (48_000u32, channels),
{
}

} // verus!
