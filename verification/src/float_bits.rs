//! Floating point numbers as bits: exact widening, and narrowing to the nearest.
//!
//! Without its sign bit, the bits of a floating point number are an exponent above a
//! fraction. They are counted here in whole units of the smallest number above zero.
use vstd::arithmetic::div_mod::{lemma_fundamental_div_mod, lemma_fundamental_div_mod_converse};
use vstd::arithmetic::power2::{
    lemma2_to64, lemma2_to64_rest, lemma_pow2_adds, lemma_pow2_pos, lemma_pow2_strictly_increases, pow2,
};
use vstd::prelude::*;

verus! {

/// The number behind the bits `pattern` (without the sign) of a format with `fraction` bits
/// of fraction, in units of the format's smallest number above zero.
pub open spec fn units(pattern: nat, fraction: nat) -> nat {
    let exponent = pattern / pow2(fraction);
    let rest = pattern % pow2(fraction);
    if exponent == 0 {
        rest
    } else {
        (pow2(fraction) + rest) * pow2((exponent - 1) as nat)
    }
}

/// Whether `pattern` is the bits of the number nearest to `value`, the one with even bits
/// where two are as near. The format has `fraction` bits of fraction; one of its units is
/// `pow2(scale)` of the units in which `value` is counted. From halfway between the largest
/// number and the bits of infinity on, infinity is nearest.
pub open spec fn nearest(
    value: nat,
    pattern: nat,
    fraction: nat,
    scale: nat,
    infinity: nat,
) -> bool {
    &&& pattern <= infinity
    &&& pattern > 0 ==> {
        let edge = (units((pattern - 1) as nat, fraction) + units(pattern, fraction)) * pow2(scale);
        2 * value > edge || (2 * value == edge && pattern % 2 == 0)
    }
    &&& pattern < infinity ==> {
        let edge = (units(pattern, fraction) + units(pattern + 1, fraction)) * pow2(scale);
        2 * value < edge || (2 * value == edge && pattern % 2 == 0)
    }
}

/// The step from one number to the next.
pub open spec fn step(pattern: nat, fraction: nat) -> nat {
    let exponent = pattern / pow2(fraction);
    if exponent == 0 {
        1
    } else {
        pow2((exponent - 1) as nat)
    }
}

proof fn lemma_step(pattern: nat, fraction: nat)
    ensures
        units(pattern + 1, fraction) == units(pattern, fraction) + step(pattern, fraction),
        step(pattern, fraction) > 0,
{
    let base = pow2(fraction) as int;
    lemma_pow2_pos(fraction);
    let exponent = pattern as int / base;
    let rest = pattern as int % base;
    lemma_fundamental_div_mod(pattern as int, base);
    if exponent > 0 {
        lemma_pow2_pos((exponent - 1) as nat);
    }
    assert(base * exponent == exponent * base) by (nonlinear_arith);
    if rest + 1 < base {
        lemma_fundamental_div_mod_converse(pattern as int + 1, base, exponent, rest + 1);
        assert((pattern + 1) as nat / pow2(fraction) == exponent);
        assert((pattern + 1) as nat % pow2(fraction) == rest + 1);
        if exponent > 0 {
            let unit = pow2((exponent - 1) as nat) as int;
            assert((base + (rest + 1)) * unit == (base + rest) * unit + unit) by (nonlinear_arith);
            assert(units(pattern + 1, fraction) == (base + (rest + 1)) * unit);
            assert(units(pattern, fraction) == (base + rest) * unit);
        }
    } else {
        assert((exponent + 1) * base == exponent * base + base) by (nonlinear_arith);
        lemma_fundamental_div_mod_converse(pattern as int + 1, base, exponent + 1, 0);
        assert((pattern + 1) as nat / pow2(fraction) == exponent + 1);
        assert((pattern + 1) as nat % pow2(fraction) == 0);
        if exponent > 0 {
            let unit = pow2((exponent - 1) as nat) as int;
            lemma_pow2_adds(1, (exponent - 1) as nat);
            lemma2_to64();
            assert(pow2(exponent as nat) == 2 * unit);
            assert(base * (2 * unit) == (base + (base - 1)) * unit + unit) by (nonlinear_arith);
            assert(units(pattern + 1, fraction) == (base + 0) * (2 * unit));
            assert(units(pattern, fraction) == (base + (base - 1)) * unit);
        } else {
            lemma2_to64();
            assert(pow2(0) == 1);
            assert(units(pattern + 1, fraction) == (base + 0) * 1);
            assert(units(pattern, fraction) == base - 1);
        }
    }
}

proof fn lemma_units_increase(low: nat, high: nat, fraction: nat)
    requires
        low < high,
    ensures
        units(low, fraction) < units(high, fraction),
    decreases high - low,
{
    lemma_step((high - 1) as nat, fraction);
    if low < high - 1 {
        lemma_units_increase(low, (high - 1) as nat, fraction);
    }
}

/// Different bits are different numbers.
pub proof fn law_units_are_distinct(left: nat, right: nat, fraction: nat)
    ensures
        units(left, fraction) == units(right, fraction) ==> left == right,
        left < right ==> units(left, fraction) < units(right, fraction),
{
    if left < right {
        lemma_units_increase(left, right, fraction);
    } else if right < left {
        lemma_units_increase(right, left, fraction);
    }
}

/// A number that a format holds exactly is nearest to itself alone.
pub proof fn law_exact_number_is_nearest(
    exact: nat,
    pattern: nat,
    fraction: nat,
    scale: nat,
    infinity: nat,
)
    requires
        exact <= infinity,
        nearest(units(exact, fraction) * pow2(scale), pattern, fraction, scale, infinity),
    ensures
        pattern == exact,
{
    let factor = pow2(scale) as int;
    lemma_pow2_pos(scale);
    let value = units(exact, fraction) as int;
    if pattern > exact {
        let below = units((pattern - 1) as nat, fraction) as int;
        let here = units(pattern, fraction) as int;
        law_units_are_distinct(exact, pattern, fraction);
        law_units_are_distinct(exact, (pattern - 1) as nat, fraction);
        assert(value <= below && value < here);
        assert(2 * (value * factor) < (below + here) * factor) by (nonlinear_arith)
            requires
                value <= below,
                value < here,
                factor > 0,
        ;
    }
    if pattern < exact {
        let here = units(pattern, fraction) as int;
        let above = units(pattern + 1, fraction) as int;
        law_units_are_distinct(pattern, exact, fraction);
        law_units_are_distinct((pattern + 1) as nat, exact, fraction);
        assert(value > here && value >= above);
        assert(2 * (value * factor) > (here + above) * factor) by (nonlinear_arith)
            requires
                value > here,
                value >= above,
                factor > 0,
        ;
    }
}

/// Once the number lies `rest` parts of `whole` above the bits `low`, where `whole` parts
/// lead to the next bits, rounding is a matter of comparing twice `rest` with `whole`.
proof fn lemma_rounding(
    value: nat,
    low: nat,
    rest: nat,
    whole: nat,
    part: nat,
    fraction: nat,
    scale: nat,
    infinity: nat,
)
    requires
        part > 0,
        rest < whole,
        value == units(low, fraction) * pow2(scale) + rest * part,
        step(low, fraction) * pow2(scale) == whole * part,
    ensures
        ({
            let up = 2 * rest > whole || (2 * rest == whole && low % 2 == 1);
            let rounded = if up {
                low + 1
            } else {
                low
            };
            nearest(
                value,
                if rounded > infinity {
                    infinity
                } else {
                    rounded
                },
                fraction,
                scale,
                infinity,
            )
        }),
{
    let up = 2 * rest > whole || (2 * rest == whole && low % 2 == 1);
    let rounded: nat = if up {
        low + 1
    } else {
        low
    };
    let factor = pow2(scale) as int;
    lemma_pow2_pos(scale);
    lemma_step(low, fraction);
    let here = units(low, fraction) as int;
    let above = units(low + 1, fraction) as int;
    assert(above * factor == here * factor + whole * part) by (nonlinear_arith)
        requires
            above == here + step(low, fraction),
            step(low, fraction) * factor == whole * part,
    ;
    assert((here + above) * factor == 2 * (here * factor) + whole * part) by (nonlinear_arith)
        requires
            above * factor == here * factor + whole * part,
    ;
    assert(2 * value == 2 * (here * factor) + (2 * rest) * part) by (nonlinear_arith)
        requires
            value == here * factor + rest * part,
    ;
    assert(value < above * factor) by (nonlinear_arith)
        requires
            value == here * factor + rest * part,
            above * factor == here * factor + whole * part,
            rest < whole,
            part > 0,
    ;
    assert(value >= here * factor) by (nonlinear_arith)
        requires
            value == here * factor + rest * part,
            rest >= 0,
            part > 0,
    ;
    assert(2 * rest > whole ==> (2 * rest) * part > whole * part) by (nonlinear_arith)
        requires
            part > 0,
    ;
    assert(2 * rest < whole ==> (2 * rest) * part < whole * part) by (nonlinear_arith)
        requires
            part > 0,
    ;
    if rounded >= infinity {
        // Infinity: the number is at least halfway there.
        if infinity > 0 {
            let last = units((infinity - 1) as nat, fraction) as int;
            let inf = units(infinity, fraction) as int;
            if infinity <= low {
                law_units_are_distinct(infinity, low, fraction);
                law_units_are_distinct((infinity - 1) as nat, infinity, fraction);
                assert(inf <= here && last < inf);
                assert(2 * value > (last + inf) * factor) by (nonlinear_arith)
                    requires
                        value >= here * factor,
                        inf <= here,
                        last < inf,
                        factor > 0,
                ;
            } else {
                assert(infinity == low + 1 && up);
            }
        }
    } else {
        if up {
            let next = units(low + 2, fraction) as int;
            lemma_step(low + 1, fraction);
            assert(2 * value < (above + next) * factor) by (nonlinear_arith)
                requires
                    value < above * factor,
                    above < next,
                    factor > 0,
            ;
        } else if low > 0 {
            let below = units((low - 1) as nat, fraction) as int;
            lemma_step((low - 1) as nat, fraction);
            assert(2 * value > (below + here) * factor) by (nonlinear_arith)
                requires
                    value >= here * factor,
                    below < here,
                    factor > 0,
            ;
        }
    }
}

/// A power of two.
pub(crate) fn power_of_two(exponent: u32) -> (power: u64)
    requires
        exponent < 64,
    ensures
        power == pow2(exponent as nat),
        power > 0,
{
    let mut power: u64 = 1;
    let mut i: u32 = 0;
    proof {
        lemma2_to64();
    }
    while i < exponent
        invariant
            i <= exponent < 64,
            power == pow2(i as nat),
        decreases exponent - i,
    {
        proof {
            lemma_pow2_adds(1, i as nat);
            lemma2_to64();
            lemma2_to64_rest();
            if i + 1 < 63 {
                lemma_pow2_strictly_increases((i + 1) as nat, 63);
            }
        }
        power = power * 2;
        i += 1;
    }
    proof {
        lemma_pow2_pos(exponent as nat);
    }
    power
}

/// The bits of the number in a format with `to` bits of fraction that is nearest to the
/// number behind `pattern`, of a format with `from` bits of fraction. `gap` is the difference
/// of the exponent biases.
fn narrow(pattern: u64, from: u32, to: u32, gap: u64, infinity: u64) -> (result: u64)
    requires
        0 < to < from <= 52,
        1 <= gap <= 1000,
        pattern < 0x7fff_ffff_ffff_ffff,
    ensures
        nearest(
            units(pattern as nat, from as nat),
            result as nat,
            to as nat,
            gap as nat + (from - to) as nat,
            infinity as nat,
        ),
{
    let shift: u32 = from - to;
    let from_base = power_of_two(from);
    let to_base = power_of_two(to);
    let shift_base = power_of_two(shift);
    let ghost scale = gap as nat + shift as nat;
    proof {
        lemma_pow2_adds(to as nat, shift as nat);
        lemma2_to64();
        lemma2_to64_rest();
        lemma_pow2_strictly_increases(from as nat, 53);
        lemma_pow2_strictly_increases(to as nat, 53);
        lemma_pow2_strictly_increases(shift as nat, 53);
        lemma_fundamental_div_mod(pattern as int, from_base as int);
    }
    let exponent: u64 = pattern / from_base;
    let rest_bits: u64 = pattern % from_base;
    let ghost value = units(pattern as nat, from as nat);
    if exponent > gap {
        let whole: u64 = pattern / shift_base;
        let rest: u64 = pattern % shift_base;
        proof {
            lemma_narrow_normal(pattern as int, from as nat, to as nat, gap as int);
        }
        let low: u64 = whole - gap * to_base;
        proof {
            lemma_pow2_pos((exponent - 1) as nat);
            lemma_rounding(
                value,
                low as nat,
                rest as nat,
                shift_base as nat,
                pow2((exponent - 1) as nat),
                to as nat,
                scale,
                infinity as nat,
            );
        }
        round_pattern(low, rest, shift_base, infinity)
    } else {
        let level: u64 = if exponent == 0 {
            1
        } else {
            exponent
        };
        let mantissa: u64 = if exponent == 0 {
            rest_bits
        } else {
            from_base + rest_bits
        };
        let total_shift: u64 = shift as u64 + (gap + 1 - level);
        let ghost part = pow2((level - 1) as nat);
        let ghost whole = pow2(total_shift as nat);
        proof {
            lemma_pow2_pos((level - 1) as nat);
            lemma_pow2_pos(total_shift as nat);
            lemma_pow2_adds(total_shift as nat, (level - 1) as nat);
            lemma_pow2_pos(0);
            lemma2_to64();
            assert(value == mantissa * part) by {
                if exponent == 0 {
                    assert(part == 1);
                }
            }
            assert(step(0, to as nat) == 1) by {
                assert(0nat / pow2(to as nat) == 0) by (nonlinear_arith)
                    requires
                        pow2(to as nat) > 0,
                ;
            }
            assert(units(0, to as nat) == 0) by {
                assert(0nat / pow2(to as nat) == 0 && 0nat % pow2(to as nat) == 0)
                    by (nonlinear_arith)
                    requires
                        pow2(to as nat) > 0,
                ;
            }
        }
        if total_shift > (from + 1) as u64 {
            proof {
                lemma_pow2_strictly_increases((from + 1) as nat, total_shift as nat);
                lemma_pow2_adds(1, from as nat);
                lemma_pow2_adds(1, (from + 1) as nat);
                if total_shift > from + 2 {
                    lemma_pow2_strictly_increases((from + 2) as nat, total_shift as nat);
                }
                assert(2 * mantissa < whole);
                assert(0nat * pow2(scale) == 0);
                lemma_rounding(
                    value,
                    0,
                    mantissa as nat,
                    whole,
                    part,
                    to as nat,
                    scale,
                    infinity as nat,
                );
            }
            0
        } else {
            proof {
                lemma2_to64_rest();
                lemma_pow2_strictly_increases(total_shift as nat, 60);
            }
            let whole_base = power_of_two(total_shift as u32);
            let low: u64 = mantissa / whole_base;
            let rest: u64 = mantissa % whole_base;
            proof {
                lemma_fundamental_div_mod(mantissa as int, whole_base as int);
                lemma_pow2_adds(1, shift as nat);
                lemma_pow2_adds((shift + 1) as nat, to as nat);
                lemma_pow2_adds(1, from as nat);
                if total_shift > shift + 1 {
                    lemma_pow2_strictly_increases((shift + 1) as nat, total_shift as nat);
                }
                assert(low < to_base) by (nonlinear_arith)
                    requires
                        mantissa == whole_base * low + rest,
                        rest >= 0,
                        whole_base >= 2 * shift_base,
                        mantissa < 2 * (to_base * shift_base),
                        shift_base > 0,
                ;
                lemma_small_pattern(low as nat, to as nat);
                assert(value == low as nat * pow2(scale) + rest as nat * part) by (nonlinear_arith)
                    requires
                        value == mantissa * part,
                        mantissa == whole_base * low + rest,
                        pow2(scale) == whole_base * part,
                ;
                lemma_rounding(
                    value,
                    low as nat,
                    rest as nat,
                    whole,
                    part,
                    to as nat,
                    scale,
                    infinity as nat,
                );
            }
            round_pattern(low, rest, whole_base, infinity)
        }
    }
}

fn round_pattern(low: u64, rest: u64, whole: u64, infinity: u64) -> (result: u64)
    requires
        low < u64::MAX,
        rest < whole <= 0x4000_0000_0000_0000,
    ensures
        result == ({
            let up = 2 * rest > whole || (2 * rest == whole && low % 2 == 1);
            let rounded = if up {
                low + 1
            } else {
                low as int
            };
            if rounded > infinity {
                infinity as int
            } else {
                rounded
            }
        }),
{
    let up = 2 * rest > whole || (2 * rest == whole && low % 2 == 1);
    let rounded: u64 = if up {
        low + 1
    } else {
        low
    };
    if rounded > infinity {
        infinity
    } else {
        rounded
    }
}

proof fn lemma_small_pattern(low: nat, fraction: nat)
    requires
        low < pow2(fraction),
    ensures
        units(low, fraction) == low,
        step(low, fraction) == 1,
{
    lemma_fundamental_div_mod_converse(low as int, pow2(fraction) as int, 0, low as int);
}

/// Cutting off the lowest bits of the fraction.
proof fn lemma_narrow_normal(pattern: int, from: nat, to: nat, gap: int)
    requires
        0 < to < from,
        0 < gap,
        pattern >= 0,
        pattern / (pow2(from) as int) > gap,
    ensures
        ({
            let cut = pow2((from - to) as nat) as int;
            let exponent = pattern / (pow2(from) as int);
            let low = pattern / cut - gap * pow2(to);
            let rest = pattern % cut;
            let part = pow2((exponent - 1) as nat);
            let scale = gap as nat + (from - to) as nat;
            &&& low >= 0
            &&& 0 <= rest < cut
            &&& units(pattern as nat, from) == units(low as nat, to) * pow2(scale) + rest * part
            &&& step(low as nat, to) * pow2(scale) == cut * part
        }),
{
    let cut = pow2((from - to) as nat) as int;
    let from_base = pow2(from) as int;
    let to_base = pow2(to) as int;
    let exponent = pattern / from_base;
    let rest_bits = pattern % from_base;
    let rest = pattern % cut;
    let low = pattern / cut - gap * to_base;
    let part = pow2((exponent - 1) as nat) as int;
    let scale = gap as nat + (from - to) as nat;
    lemma_pow2_pos(from);
    lemma_pow2_pos(to);
    lemma_pow2_pos((from - to) as nat);
    lemma_pow2_adds(to, (from - to) as nat);
    lemma_fundamental_div_mod(pattern, from_base);
    lemma_fundamental_div_mod(pattern, cut);
    lemma_fundamental_div_mod(rest_bits, cut);
    let high = rest_bits / cut;
    // The upper bits are the exponent and the upper bits of the fraction.
    assert(pattern == cut * (exponent * to_base + high) + rest_bits % cut) by (nonlinear_arith)
        requires
            pattern == from_base * exponent + rest_bits,
            from_base == to_base * cut,
            rest_bits == cut * high + rest_bits % cut,
    ;
    assert(pattern == (exponent * to_base + high) * cut + rest_bits % cut) by (nonlinear_arith)
        requires
            pattern == cut * (exponent * to_base + high) + rest_bits % cut,
    ;
    lemma_fundamental_div_mod_converse(
        pattern,
        cut,
        exponent * to_base + high,
        rest_bits % cut,
    );
    assert(0 <= high < to_base) by (nonlinear_arith)
        requires
            rest_bits == cut * high + rest_bits % cut,
            0 <= rest_bits % cut < cut,
            0 <= rest_bits < to_base * cut,
            cut > 0,
            to_base > 0,
    ;
    assert(low == (exponent - gap) * to_base + high) by (nonlinear_arith)
        requires
            low == exponent * to_base + high - gap * to_base,
    ;
    assert(low >= 0) by (nonlinear_arith)
        requires
            low == (exponent - gap) * to_base + high,
            exponent > gap,
            to_base > 0,
            high >= 0,
    ;
    lemma_fundamental_div_mod_converse(low, to_base, exponent - gap, high);
    let low_part = pow2((exponent - gap - 1) as nat) as int;
    lemma_pow2_adds((exponent - gap - 1) as nat, gap as nat);
    lemma_pow2_adds((exponent - 1) as nat, (from - to) as nat);
    lemma_pow2_adds((exponent - gap - 1) as nat, scale);
    assert((exponent - gap - 1) as nat + scale == (exponent - 1) as nat + (from - to) as nat);
    assert(low_part * pow2(scale) == part * cut);
    assert(units(low as nat, to) == (to_base + high) * low_part);
    assert(units(pattern as nat, from) == (from_base + rest_bits) * part);
    assert((from_base + rest_bits) * part == ((to_base + high) * low_part) * pow2(scale) + rest
        * part) by (nonlinear_arith)
        requires
            from_base == to_base * cut,
            rest_bits == cut * high + rest,
            low_part * pow2(scale) == part * cut,
    ;
    assert(cut * part == part * cut) by (nonlinear_arith);
}

/// The bits, in a format with `to` bits of fraction, of the number behind `pattern`, of a
/// format with `from` bits of fraction. `gap` is the difference of the exponent biases.
fn widen(pattern: u64, from: u32, to: u32, gap: u64) -> (result: u64)
    requires
        0 < from < to <= 52,
        from < gap <= 1000,
        pattern < 256 * pow2(from as nat),
        pattern < 0x1_0000_0000,
    ensures
        units(result as nat, to as nat) == units(pattern as nat, from as nat) * pow2(
            gap as nat + (to - from) as nat,
        ),
        result < (gap + pattern as nat / pow2(from as nat) + 2) * pow2(to as nat),
{
    let shift: u32 = to - from;
    let from_base = power_of_two(from);
    let to_base = power_of_two(to);
    let shift_base = power_of_two(shift);
    let ghost scale = gap as nat + shift as nat;
    let exponent: u64 = pattern / from_base;
    let rest_bits: u64 = pattern % from_base;
    proof {
        lemma_pow2_adds(from as nat, shift as nat);
        lemma2_to64();
        lemma2_to64_rest();
        lemma_pow2_strictly_increases(from as nat, 53);
        lemma_pow2_strictly_increases(to as nat, 53);
        lemma_pow2_strictly_increases(shift as nat, 53);
        lemma_fundamental_div_mod(pattern as int, from_base as int);
        assert(1300 * to_base <= 1300 * 0x20_0000_0000_0000) by (nonlinear_arith)
            requires
                to_base <= 0x20_0000_0000_0000,
        ;
        assert(exponent < 256) by (nonlinear_arith)
            requires
                pattern == from_base * exponent + rest_bits,
                rest_bits >= 0,
                pattern < 256 * from_base,
                from_base > 0,
        ;
        assert((gap + to - from) as nat == scale);
    }
    if exponent > 0 {
        proof {
            lemma_widen_normal(exponent as int, rest_bits as int, from as nat, to as nat, gap as int);
            assert(rest_bits * shift_base < to_base && rest_bits * shift_base >= 0)
                by (nonlinear_arith)
                requires
                    0 <= rest_bits < from_base,
                    to_base == from_base * shift_base,
                    shift_base > 0,
            ;
            assert((exponent + gap) * to_base + to_base <= 1300 * to_base && (exponent + gap)
                * to_base + to_base <= (gap + exponent + 2) * to_base) by (nonlinear_arith)
                requires
                    exponent < 256,
                    gap <= 1000,
                    to_base > 0,
            ;
            assert(0 <= (exponent + gap) * to_base) by (nonlinear_arith)
                requires
                    exponent >= 0,
                    gap >= 0,
                    to_base > 0,
            ;
        }
        (exponent + gap) * to_base + rest_bits * shift_base
    } else if rest_bits == 0 {
        proof {
            lemma_small_pattern(0, to as nat);
            lemma_small_pattern(0, from as nat);
            assert(0nat * pow2(scale) == 0) by (nonlinear_arith);
            assert((gap + exponent + 2) * to_base > 0) by (nonlinear_arith)
                requires
                    to_base > 0,
            ;
        }
        0
    } else {
        // Double the fraction until it reaches the place of the leading one.
        let mut mantissa: u64 = rest_bits;
        let mut doubled: u32 = 0;
        proof {
            assert(pow2(0) == 1);
        }
        while mantissa < from_base
            invariant
                0 < from < to <= 52,
                from_base == pow2(from as nat),
                from_base <= 0x20_0000_0000_0000,
                0 < rest_bits <= mantissa < 2 * from_base,
                mantissa == rest_bits * pow2(doubled as nat),
                pow2(doubled as nat) <= mantissa,
                doubled <= from,
            decreases from - doubled,
        {
            proof {
                lemma_pow2_adds(1, doubled as nat);
                lemma2_to64();
                assert(rest_bits * (2 * pow2(doubled as nat)) == 2 * (rest_bits * pow2(
                    doubled as nat,
                ))) by (nonlinear_arith);
                if doubled >= from {
                    if doubled > from {
                        lemma_pow2_strictly_increases(from as nat, doubled as nat);
                    }
                    assert(false);
                }
            }
            mantissa = mantissa * 2;
            doubled += 1;
        }
        let level: u64 = gap + 1 - doubled as u64;
        proof {
            lemma_widen_small(
                rest_bits as int,
                mantissa as int,
                doubled as int,
                from as nat,
                to as nat,
                gap as int,
            );
            lemma_small_pattern(rest_bits as nat, from as nat);
            let high = mantissa - from_base;
            assert(high * shift_base < to_base && high * shift_base >= 0) by (nonlinear_arith)
                requires
                    0 <= high < from_base,
                    to_base == from_base * shift_base,
                    shift_base > 0,
            ;
            assert(level * to_base + to_base <= 1300 * to_base && level * to_base + to_base <= (gap
                + exponent + 2) * to_base) by (nonlinear_arith)
                requires
                    level <= 1001,
                    level <= gap + 1,
                    exponent >= 0,
                    to_base > 0,
            ;
            assert(0 <= level * to_base) by (nonlinear_arith)
                requires
                    level >= 0,
                    to_base > 0,
            ;
        }
        level * to_base + (mantissa - from_base) * shift_base
    }
}

proof fn lemma_widen_normal(exponent: int, rest_bits: int, from: nat, to: nat, gap: int)
    requires
        0 < from < to,
        0 < gap,
        0 < exponent,
        0 <= rest_bits < pow2(from),
    ensures
        units(
            ((exponent + gap) * pow2(to) + rest_bits * pow2((to - from) as nat)) as nat,
            to,
        ) == ((pow2(from) + rest_bits) * pow2((exponent - 1) as nat)) * pow2(
            (gap + to - from) as nat,
        ),
{
    let shift_base = pow2((to - from) as nat) as int;
    let from_base = pow2(from) as int;
    let to_base = pow2(to) as int;
    lemma_pow2_pos((to - from) as nat);
    lemma_pow2_adds(from, (to - from) as nat);
    assert(0 <= rest_bits * shift_base < to_base) by (nonlinear_arith)
        requires
            0 <= rest_bits < from_base,
            to_base == from_base * shift_base,
            shift_base > 0,
    ;
    let pattern = (exponent + gap) * to_base + rest_bits * shift_base;
    assert(pattern >= 0) by (nonlinear_arith)
        requires
            pattern == (exponent + gap) * to_base + rest_bits * shift_base,
            exponent + gap > 0,
            to_base >= 0,
            rest_bits * shift_base >= 0,
    ;
    lemma_fundamental_div_mod_converse(
        pattern,
        to_base,
        exponent + gap,
        rest_bits * shift_base,
    );
    let part = pow2((exponent - 1) as nat) as int;
    lemma_pow2_adds((exponent - 1) as nat, gap as nat);
    lemma_pow2_adds(gap as nat, (to - from) as nat);
    let gap_base = pow2(gap as nat) as int;
    assert((to_base + rest_bits * shift_base) * (part * gap_base) == ((from_base + rest_bits)
        * part) * (gap_base * shift_base)) by (nonlinear_arith)
        requires
            to_base == from_base * shift_base,
    ;
    assert((exponent + gap - 1) as nat == (exponent - 1) as nat + gap as nat);
    assert((gap + to - from) as nat == gap as nat + (to - from) as nat);
}

proof fn lemma_widen_small(
    rest_bits: int,
    mantissa: int,
    doubled: int,
    from: nat,
    to: nat,
    gap: int,
)
    requires
        0 < from < to,
        0 <= doubled <= from < gap,
        mantissa == rest_bits * pow2(doubled as nat),
        pow2(from) <= mantissa < 2 * pow2(from),
    ensures
        units(
            ((gap + 1 - doubled) * pow2(to) + (mantissa - pow2(from)) * pow2(
                (to - from) as nat,
            )) as nat,
            to,
        ) == rest_bits * pow2((gap + to - from) as nat),
{
    let shift_base = pow2((to - from) as nat) as int;
    let from_base = pow2(from) as int;
    let to_base = pow2(to) as int;
    let high = mantissa - from_base;
    let level = gap + 1 - doubled;
    lemma_pow2_pos((to - from) as nat);
    lemma_pow2_adds(from, (to - from) as nat);
    assert(0 <= high * shift_base < to_base) by (nonlinear_arith)
        requires
            0 <= high < from_base,
            to_base == from_base * shift_base,
            shift_base > 0,
    ;
    let pattern = level * to_base + high * shift_base;
    assert(pattern >= 0) by (nonlinear_arith)
        requires
            pattern == level * to_base + high * shift_base,
            level > 0,
            to_base >= 0,
            high * shift_base >= 0,
    ;
    lemma_fundamental_div_mod_converse(pattern, to_base, level, high * shift_base);
    lemma_pow2_adds((gap - doubled) as nat, doubled as nat);
    lemma_pow2_adds(gap as nat, (to - from) as nat);
    let part = pow2((gap - doubled) as nat) as int;
    let double_base = pow2(doubled as nat) as int;
    let gap_base = pow2(gap as nat) as int;
    assert((to_base + high * shift_base) * part == rest_bits * (gap_base * shift_base))
        by (nonlinear_arith)
        requires
            to_base == from_base * shift_base,
            high == mantissa - from_base,
            mantissa == rest_bits * double_base,
            gap_base == part * double_base,
    ;
    assert((level - 1) as nat == (gap - doubled) as nat);
    assert((gap + to - from) as nat == gap as nat + (to - from) as nat);
}

/// The bits of a sample without the sign.
pub open spec fn sample_size(sample: u32) -> nat {
    (sample as nat) % 0x8000_0000
}

/// The bits of a half-precision number without the sign.
pub open spec fn half_size(half: u16) -> nat {
    (half as nat) % 0x8000
}

/// The bits of a double-precision number without the sign.
pub open spec fn double_size(double: u64) -> nat {
    (double as nat) % 0x8000_0000_0000_0000
}

/// Whether `half` is the half-precision number nearest to a sample. What is no number stays
/// none.
pub open spec fn half_for(sample: u32, half: u16) -> bool {
    &&& (sample >= 0x8000_0000) == (half >= 0x8000)
    &&& if sample_size(sample) > 0x7f80_0000 {
        half_size(half) > 0x7c00
    } else if sample_size(sample) == 0x7f80_0000 {
        half_size(half) == 0x7c00
    } else {
        nearest(units(sample_size(sample), 23), half_size(half), 10, 125, 0x7c00)
    }
}

/// Whether a sample is the number that `half` is. What is no number stays none.
pub open spec fn sample_for_half(half: u16, sample: u32) -> bool {
    &&& (sample >= 0x8000_0000) == (half >= 0x8000)
    &&& if half_size(half) > 0x7c00 {
        sample_size(sample) > 0x7f80_0000
    } else if half_size(half) == 0x7c00 {
        sample_size(sample) == 0x7f80_0000
    } else {
        &&& sample_size(sample) < 0x7f80_0000
        &&& units(sample_size(sample), 23) == units(half_size(half), 10) * pow2(125)
    }
}

/// Whether `double` is the number that a sample is. What is no number stays none.
pub open spec fn double_for(sample: u32, double: u64) -> bool {
    &&& (sample >= 0x8000_0000) == (double >= 0x8000_0000_0000_0000)
    &&& if sample_size(sample) > 0x7f80_0000 {
        double_size(double) > 0x7ff0_0000_0000_0000
    } else if sample_size(sample) == 0x7f80_0000 {
        double_size(double) == 0x7ff0_0000_0000_0000
    } else {
        &&& double_size(double) < 0x7ff0_0000_0000_0000
        &&& units(double_size(double), 52) == units(sample_size(sample), 23) * pow2(925)
    }
}

/// Whether a sample is the number nearest to `double`. What is no number stays none.
pub open spec fn sample_for_double(double: u64, sample: u32) -> bool {
    &&& (sample >= 0x8000_0000) == (double >= 0x8000_0000_0000_0000)
    &&& if double_size(double) > 0x7ff0_0000_0000_0000 {
        sample_size(sample) > 0x7f80_0000
    } else if double_size(double) == 0x7ff0_0000_0000_0000 {
        sample_size(sample) == 0x7f80_0000
    } else {
        nearest(units(double_size(double), 52), sample_size(sample), 23, 925, 0x7f80_0000)
    }
}

/// A half-precision number that is widened and narrowed again is the same.
pub proof fn law_half_round_trip(half: u16, sample: u32, back: u16)
    requires
        half_size(half) <= 0x7c00,
        sample_for_half(half, sample),
        half_for(sample, back),
    ensures
        back == half,
{
    if half_size(half) < 0x7c00 {
        law_exact_number_is_nearest(half_size(half), half_size(back), 10, 125, 0x7c00);
    }
}

/// A sample that is widened and narrowed again is the same.
pub proof fn law_double_round_trip(sample: u32, double: u64, back: u32)
    requires
        sample_size(sample) <= 0x7f80_0000,
        double_for(sample, double),
        sample_for_double(double, back),
    ensures
        back == sample,
{
    if sample_size(sample) < 0x7f80_0000 {
        law_exact_number_is_nearest(
            sample_size(sample),
            sample_size(back),
            23,
            925,
            0x7f80_0000,
        );
    }
}

/// The half-precision number nearest to a sample.
pub fn narrow_to_half(sample: u32) -> (half: u16)
    ensures
        half_for(sample, half),
{
    let size: u32 = sample % 0x8000_0000;
    let half_bits: u16 = if size > 0x7f80_0000 {
        0x7e00
    } else if size == 0x7f80_0000 {
        0x7c00
    } else {
        narrow(size as u64, 23, 10, 112, 0x7c00) as u16
    };
    if sample >= 0x8000_0000 {
        0x8000 + half_bits
    } else {
        half_bits
    }
}

/// The sample that a half-precision number is.
pub fn widen_half(half: u16) -> (sample: u32)
    ensures
        sample_for_half(half, sample),
{
    let size: u16 = half % 0x8000;
    proof {
        lemma2_to64();
    }
    let sample_bits: u32 = if size > 0x7c00 {
        0x7fc0_0000
    } else if size == 0x7c00 {
        0x7f80_0000
    } else {
        let wide = widen(size as u64, 10, 23, 112);
        assert(wide < 0x7f80_0000) by {
            assert(size as nat / 1024 <= 30);
            assert((112 + size as nat / 1024 + 2) * 0x80_0000 <= 144 * 0x80_0000)
                by (nonlinear_arith)
                requires
                    size as nat / 1024 <= 30,
            ;
        }
        wide as u32
    };
    if half >= 0x8000 {
        0x8000_0000 + sample_bits
    } else {
        sample_bits
    }
}

/// The double-precision number that a sample is.
pub fn widen_to_double(sample: u32) -> (double: u64)
    ensures
        double_for(sample, double),
{
    let size: u32 = sample % 0x8000_0000;
    proof {
        lemma2_to64();
        lemma2_to64_rest();
    }
    let double_bits: u64 = if size > 0x7f80_0000 {
        0x7ff8_0000_0000_0000
    } else if size == 0x7f80_0000 {
        0x7ff0_0000_0000_0000
    } else {
        let wide = widen(size as u64, 23, 52, 896);
        assert(wide < 0x7ff0_0000_0000_0000) by {
            assert(size as nat / 0x80_0000 <= 254);
            assert((896 + size as nat / 0x80_0000 + 2) * 0x10_0000_0000_0000 <= 1152
                * 0x10_0000_0000_0000) by (nonlinear_arith)
                requires
                    size as nat / 0x80_0000 <= 254,
            ;
        }
        wide
    };
    if sample >= 0x8000_0000 {
        0x8000_0000_0000_0000 + double_bits
    } else {
        double_bits
    }
}

/// The sample nearest to a double-precision number.
pub fn narrow_double(double: u64) -> (sample: u32)
    ensures
        sample_for_double(double, sample),
{
    let size: u64 = double % 0x8000_0000_0000_0000;
    let sample_bits: u32 = if size > 0x7ff0_0000_0000_0000 {
        0x7fc0_0000
    } else if size == 0x7ff0_0000_0000_0000 {
        0x7f80_0000
    } else {
        narrow(size, 52, 23, 896, 0x7f80_0000) as u32
    };
    if double >= 0x8000_0000_0000_0000 {
        0x8000_0000 + sample_bits
    } else {
        sample_bits
    }
}

/// Whether two single precision numbers are equal: the two zeros are, and what is no number
/// equals nothing.
pub open spec fn are_equal(left: u32, right: u32) -> bool {
    &&& left % 0x8000_0000 <= 0x7f80_0000
    &&& right % 0x8000_0000 <= 0x7f80_0000
    &&& left == right || (left % 0x8000_0000 == 0 && right % 0x8000_0000 == 0)
}

/// Whether two single precision numbers are equal.
pub fn same_number(left: u32, right: u32) -> (same: bool)
    ensures
        same == are_equal(left, right),
{
    if left % 0x8000_0000 > 0x7f80_0000 || right % 0x8000_0000 > 0x7f80_0000 {
        return false;
    }
    left == right || (left % 0x8000_0000 == 0 && right % 0x8000_0000 == 0)
}

} // verus!
