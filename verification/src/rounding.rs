//! Quotients rounded as floating point arithmetic rounds them.
//!
//! Numbers are counted in whole units of the smallest number above zero of a format, so that
//! every number of the format is a whole number here.
use crate::float_bits::power_of_two;
use vstd::arithmetic::div_mod::{lemma_fundamental_div_mod, lemma_fundamental_div_mod_converse};
use vstd::arithmetic::power2::{
    lemma2_to64, lemma2_to64_rest, lemma_pow2_adds, lemma_pow2_pos,
    lemma_pow2_strictly_increases, pow2,
};
use vstd::prelude::*;

verus! {

/// The first whole number with more digits than single precision has.
pub const SINGLE_LIMIT: u64 = 0x100_0000;

/// The first whole number with more digits than double precision has.
pub const DOUBLE_LIMIT: u64 = 0x20_0000_0000_0000;

/// The number one in single precision.
pub open spec fn single_one() -> int {
    pow2(149) as int
}

/// What stands for infinity in single precision: the power of two behind the largest number.
pub open spec fn single_infinity() -> int {
    pow2(277) as int
}

/// The number one in double precision.
pub open spec fn double_one() -> int {
    pow2(1074) as int
}

/// The whole number nearest to a quotient, the even one of two that are as near.
pub open spec fn half_even(number: int, divisor: int) -> int {
    let whole = number / divisor;
    let rest = number % divisor;
    if 2 * rest > divisor || (2 * rest == divisor && whole % 2 == 1) {
        whole + 1
    } else {
        whole
    }
}

/// How far apart the numbers of a format are around a quotient: the smallest power of two of
/// which there are fewer than `limit` in it.
pub open spec fn spacing(number: int, divisor: int, limit: int) -> int
    decreases number - divisor,
{
    if divisor <= 0 || limit < 2 || number < limit * divisor {
        1
    } else {
        proof {
            assert(limit * divisor >= 2 * divisor) by (nonlinear_arith)
                requires
                    limit >= 2,
                    divisor > 0,
            ;
        }
        2 * spacing(number, 2 * divisor, limit)
    }
}

/// The number of a format that is nearest to a quotient, the even one of two that are as near.
pub open spec fn rounded(number: int, divisor: int, limit: int) -> int {
    let space = spacing(number, divisor, limit);
    half_even(number, divisor * space) * space
}

/// The smallest whole number not below a quotient.
pub open spec fn ceiling(number: int, divisor: int) -> int {
    (number + divisor - 1) / divisor
}

/// A whole number as an index: the largest one where it is larger.
pub open spec fn saturated(number: int) -> usize {
    if number > usize::MAX {
        usize::MAX
    } else {
        number as usize
    }
}

pub proof fn lemma_half_even_most(number: int, divisor: int, most: int)
    requires
        divisor > 0,
        number <= most * divisor,
    ensures
        half_even(number, divisor) <= most,
{
    let whole = number / divisor;
    lemma_fundamental_div_mod(number, divisor);
    assert(whole < most || (whole == most && number % divisor == 0)) by (nonlinear_arith)
        requires
            number == divisor * whole + number % divisor,
            0 <= number % divisor < divisor,
            number <= most * divisor,
    ;
}

pub proof fn lemma_half_even_least(number: int, divisor: int, least: int)
    requires
        divisor > 0,
        number >= least * divisor,
    ensures
        half_even(number, divisor) >= least,
{
    let whole = number / divisor;
    lemma_fundamental_div_mod(number, divisor);
    assert(whole >= least) by (nonlinear_arith)
        requires
            number == divisor * whole + number % divisor,
            0 <= number % divisor < divisor,
            number >= least * divisor,
            divisor > 0,
    ;
}

/// A rounded quotient is no more than half away.
pub proof fn lemma_half_even_near(number: int, divisor: int)
    requires
        divisor > 0,
    ensures
        2 * (half_even(number, divisor) * divisor - number) <= divisor,
        2 * (number - half_even(number, divisor) * divisor) <= divisor,
{
    let whole = number / divisor;
    lemma_fundamental_div_mod(number, divisor);
    assert((whole + 1) * divisor == divisor * whole + divisor) by (nonlinear_arith);
    assert(whole * divisor == divisor * whole) by (nonlinear_arith);
}

pub proof fn lemma_half_even_common(number: int, divisor: int, factor: int)
    requires
        divisor > 0,
        factor > 0,
    ensures
        half_even(number * factor, divisor * factor) == half_even(number, divisor),
{
    let whole = number / divisor;
    let rest = number % divisor;
    lemma_fundamental_div_mod(number, divisor);
    assert(number * factor == whole * (divisor * factor) + rest * factor) by (nonlinear_arith)
        requires
            number == divisor * whole + rest,
    ;
    assert(0 <= rest * factor < divisor * factor) by (nonlinear_arith)
        requires
            0 <= rest < divisor,
            factor > 0,
    ;
    lemma_fundamental_div_mod_converse(
        number * factor,
        divisor * factor,
        whole,
        rest * factor,
    );
    assert((2 * (rest * factor) > divisor * factor) == (2 * rest > divisor)) by (nonlinear_arith)
        requires
            factor > 0,
    ;
    assert((2 * (rest * factor) == divisor * factor) == (2 * rest == divisor)) by (nonlinear_arith)
        requires
            factor > 0,
    ;
}

/// The spacing is a power of two, and no larger than it has to be.
pub proof fn lemma_spacing(number: int, divisor: int, limit: int) -> (power: nat)
    requires
        divisor > 0,
        limit >= 2,
    ensures
        spacing(number, divisor, limit) == pow2(power),
        spacing(number, divisor, limit) >= 1,
        number < limit * (divisor * spacing(number, divisor, limit)),
        spacing(number, divisor, limit) > 1 ==> 2 * number >= limit * (divisor * spacing(
            number,
            divisor,
            limit,
        )),
    decreases number - divisor,
{
    lemma2_to64();
    if number < limit * divisor {
        assert(pow2(0) == 1);
        0
    } else {
        assert(limit * divisor >= 2 * divisor) by (nonlinear_arith)
            requires
                limit >= 2,
                divisor > 0,
        ;
        let rest = lemma_spacing(number, 2 * divisor, limit);
        let inner = spacing(number, 2 * divisor, limit);
        lemma_pow2_adds(1, rest);
        assert(divisor * (2 * inner) == (2 * divisor) * inner) by (nonlinear_arith);
        if inner == 1 {
            assert(limit * (divisor * 2) == 2 * (limit * divisor)) by (nonlinear_arith);
        }
        rest + 1
    }
}

proof fn lemma_spacing_common(number: int, divisor: int, limit: int)
    requires
        divisor > 0,
        limit >= 2,
    ensures
        spacing(2 * number, 2 * divisor, limit) == spacing(number, divisor, limit),
    decreases number - divisor,
{
    assert(limit * (2 * divisor) == 2 * (limit * divisor)) by (nonlinear_arith);
    if number >= limit * divisor {
        assert(limit * divisor >= 2 * divisor) by (nonlinear_arith)
            requires
                limit >= 2,
                divisor > 0,
        ;
        lemma_spacing_common(number, 2 * divisor, limit);
    }
}

/// A factor that number and divisor have in common does not matter.
pub proof fn lemma_rounded_common(number: int, divisor: int, limit: int, power: nat)
    requires
        divisor > 0,
        limit >= 2,
    ensures
        rounded(number * pow2(power), divisor * pow2(power), limit) == rounded(
            number,
            divisor,
            limit,
        ),
    decreases power,
{
    lemma2_to64();
    if power == 0 {
        assert(pow2(0) == 1);
    } else {
        let less = (power - 1) as nat;
        lemma_pow2_pos(less);
        lemma_pow2_adds(1, less);
        lemma_rounded_common(number, divisor, limit, less);
        let smaller = number * pow2(less);
        let below = divisor * pow2(less);
        assert(number * pow2(power) == 2 * smaller && divisor * pow2(power) == 2 * below)
            by (nonlinear_arith)
            requires
                pow2(power) == 2 * pow2(less),
                smaller == number * pow2(less),
                below == divisor * pow2(less),
        ;
        assert(below > 0) by (nonlinear_arith)
            requires
                below == divisor * pow2(less),
                divisor > 0,
                pow2(less) > 0,
        ;
        lemma_spacing_common(smaller, below, limit);
        let space = spacing(smaller, below, limit);
        let _ = lemma_spacing(smaller, below, limit);
        assert(below * space > 0) by (nonlinear_arith)
            requires
                below > 0,
                space >= 1,
        ;
        lemma_half_even_common(smaller, below * space, 2);
        assert((2 * below) * space == (below * space) * 2) by (nonlinear_arith);
    }
}

/// Rounding a quotient with all the digits of the format scales with it.
pub proof fn lemma_rounded_scaled(number: int, divisor: int, limit: int, power: nat)
    requires
        divisor > 0,
        limit >= 2,
        2 * number >= limit * divisor,
    ensures
        rounded(number * pow2(power), divisor, limit) == rounded(number, divisor, limit) * pow2(
            power,
        ),
    decreases power,
{
    lemma2_to64();
    if power == 0 {
        assert(pow2(0) == 1);
    } else {
        let less = (power - 1) as nat;
        lemma_pow2_pos(less);
        lemma_pow2_adds(1, less);
        lemma_rounded_scaled(number, divisor, limit, less);
        let smaller = number * pow2(less);
        assert(number > 0) by (nonlinear_arith)
            requires
                2 * number >= limit * divisor,
                limit >= 2,
                divisor > 0,
        ;
        assert(number * pow2(power) == 2 * smaller && smaller >= number) by (nonlinear_arith)
            requires
                pow2(power) == 2 * pow2(less),
                smaller == number * pow2(less),
                number > 0,
                pow2(less) > 0,
        ;
        lemma_spacing_common(smaller, divisor, limit);
        let space = spacing(smaller, divisor, limit);
        assert(spacing(2 * smaller, divisor, limit) == 2 * space);
        let _ = lemma_spacing(smaller, divisor, limit);
        assert(divisor * space > 0) by (nonlinear_arith)
            requires
                divisor > 0,
                space >= 1,
        ;
        lemma_half_even_common(smaller, divisor * space, 2);
        assert(divisor * (2 * space) == (divisor * space) * 2) by (nonlinear_arith);
        let near = half_even(smaller, divisor * space);
        let whole = rounded(number, divisor, limit);
        assert(near * (2 * space) == whole * pow2(power)) by (nonlinear_arith)
            requires
                near * space == whole * pow2(less),
                pow2(power) == 2 * pow2(less),
        ;
    }
}

/// What is rounded is not negative, and does not pass a whole number of spaces.
pub proof fn lemma_rounded_near(number: int, divisor: int, limit: int)
    requires
        number >= 0,
        divisor > 0,
        limit >= 2,
    ensures
        rounded(number, divisor, limit) >= 0,
        ({
            let space = spacing(number, divisor, limit);
            let result = rounded(number, divisor, limit);
            &&& 2 * (result * divisor - number) <= divisor * space
            &&& 2 * (number - result * divisor) <= divisor * space
        }),
{
    let space = spacing(number, divisor, limit);
    let _ = lemma_spacing(number, divisor, limit);
    assert(divisor * space > 0) by (nonlinear_arith)
        requires
            divisor > 0,
            space >= 1,
    ;
    lemma_half_even_least(number, divisor * space, 0);
    lemma_half_even_near(number, divisor * space);
    let near = half_even(number, divisor * space);
    assert(near * (divisor * space) == (near * space) * divisor) by (nonlinear_arith);
    assert(near * space >= 0) by (nonlinear_arith)
        requires
            near >= 0,
            space >= 1,
    ;
}

/// A number of the format is rounded to itself.
pub proof fn lemma_rounded_exact(digits: int, limit: int, power: nat)
    requires
        0 <= digits < limit,
        limit >= 2,
    ensures
        rounded(digits * pow2(power), 1, limit) == digits * pow2(power),
{
    let number = digits * pow2(power);
    let space = spacing(number, 1, limit);
    let size = lemma_spacing(number, 1, limit);
    lemma_pow2_pos(power);
    lemma2_to64();
    assert(pow2(0) == 1);
    if space > 1 {
        assert(space < 2 * pow2(power)) by (nonlinear_arith)
            requires
                2 * number >= limit * (1 * space),
                number == digits * pow2(power),
                digits < limit,
                limit >= 2,
                pow2(power) > 0,
        ;
        lemma_pow2_adds(1, power);
        if size > power {
            if size > power + 1 {
                lemma_pow2_strictly_increases(power + 1, size);
            }
            assert(false);
        }
    } else {
        if size > 0 {
            lemma_pow2_strictly_increases(0, size);
        }
    }
    lemma_pow2_adds((power - size) as nat, size);
    let count = digits * pow2((power - size) as nat);
    assert(number == count * space) by (nonlinear_arith)
        requires
            number == digits * pow2(power),
            pow2(power) == pow2((power - size) as nat) * space,
            count == digits * pow2((power - size) as nat),
    ;
    lemma_fundamental_div_mod_converse(number, space, count, 0);
}

/// What is rounded from a quotient with all the digits of the format has them.
pub proof fn lemma_rounded_digits(number: int, divisor: int, limit: int)
    requires
        divisor > 0,
        limit >= 2,
        limit % 2 == 0,
        number == 0 || 2 * number >= limit * divisor,
    ensures
        number > 0 ==> 2 * rounded(number, divisor, limit) >= limit,
        number == 0 ==> rounded(number, divisor, limit) == 0,
{
    if number == 0 {
        lemma_rounded_zero(divisor, limit);
    } else {
        let space = spacing(number, divisor, limit);
        let _ = lemma_spacing(number, divisor, limit);
        assert(2 * number >= limit * (divisor * space)) by (nonlinear_arith)
            requires
                space == 1 ==> 2 * number >= limit * divisor,
                space > 1 ==> 2 * number >= limit * (divisor * space),
                space >= 1,
        ;
        let half = limit / 2;
        assert(number >= half * (divisor * space)) by (nonlinear_arith)
            requires
                2 * number >= limit * (divisor * space),
                limit == 2 * half,
        ;
        assert(divisor * space > 0) by (nonlinear_arith)
            requires
                divisor > 0,
                space >= 1,
        ;
        lemma_half_even_least(number, divisor * space, half);
        let near = half_even(number, divisor * space);
        assert(near * space >= half) by (nonlinear_arith)
            requires
                near >= half,
                space >= 1,
                half >= 0,
        ;
    }
}

/// What is rounded from a whole number of powers of two is one at least.
pub proof fn lemma_rounded_least(number: int, limit: int, power: nat)
    requires
        number == 0 || number >= pow2(power),
        limit >= 2,
    ensures
        number == 0 ==> rounded(number, 1, limit) == 0,
        number > 0 ==> rounded(number, 1, limit) >= pow2(power),
{
    if number == 0 {
        lemma_rounded_zero(1, limit);
    } else {
        let space = spacing(number, 1, limit);
        let size = lemma_spacing(number, 1, limit);
        lemma2_to64();
        if size <= power {
            lemma_pow2_adds((power - size) as nat, size);
            let times = pow2((power - size) as nat) as int;
            assert(number >= times * (1 * space));
            lemma_half_even_least(number, 1 * space, times);
            let near = half_even(number, 1 * space);
            assert(near * space >= times * space) by (nonlinear_arith)
                requires
                    near >= times,
                    space >= 1,
            ;
        } else {
            lemma_pow2_strictly_increases(power, size);
            lemma_pow2_pos(power);
            assert(number >= 1 * (1 * space)) by (nonlinear_arith)
                requires
                    2 * number >= limit * (1 * space),
                    limit >= 2,
                    space >= 1,
            ;
            lemma_half_even_least(number, 1 * space, 1);
            let near = half_even(number, 1 * space);
            assert(near * space >= space) by (nonlinear_arith)
                requires
                    near >= 1,
                    space >= 1,
            ;
        }
    }
}

/// Zero stays zero.
pub proof fn lemma_rounded_zero(divisor: int, limit: int)
    requires
        divisor > 0,
        limit >= 2,
    ensures
        rounded(0, divisor, limit) == 0,
{
    assert(limit * divisor > 0) by (nonlinear_arith)
        requires
            limit >= 2,
            divisor > 0,
    ;
    assert(spacing(0, divisor, limit) == 1);
}

/// Rounding scales where nothing is rounded below the digits of the format.
pub proof fn lemma_rounded_shifted(number: int, divisor: int, limit: int, power: nat)
    requires
        divisor > 0,
        limit >= 2,
        number == 0 || 2 * number >= limit * divisor,
    ensures
        rounded(number * pow2(power), divisor, limit) == rounded(number, divisor, limit) * pow2(
            power,
        ),
{
    if number == 0 {
        lemma_rounded_zero(divisor, limit);
        assert(0 * pow2(power) == 0);
    } else {
        lemma_rounded_scaled(number, divisor, limit, power);
    }
}

/// The whole number nearest to a quotient, the even one of two that are as near.
pub fn nearest_even(number: u128, divisor: u128) -> (nearest: u128)
    requires
        divisor > 0,
        number < u128::MAX,
    ensures
        nearest == half_even(number as int, divisor as int),
{
    let whole: u128 = number / divisor;
    let rest: u128 = number % divisor;
    let missing: u128 = divisor - rest;
    if rest > missing || (rest == missing && whole % 2 == 1) {
        proof {
            lemma_fundamental_div_mod(number as int, divisor as int);
            assert(whole <= number) by (nonlinear_arith)
                requires
                    number == divisor * whole + rest,
                    divisor >= 1,
                    rest >= 0,
                    whole >= 0,
            ;
        }
        whole + 1
    } else {
        whole
    }
}

/// A quotient rounded to the digits of a format, as digits and a power of two.
pub fn round_quotient(number: u128, divisor: u128, limit: u64) -> (digits: (u64, u32))
    requires
        0 < divisor,
        2 <= limit <= DOUBLE_LIMIT,
        limit % 2 == 0,
        2 * number >= limit * divisor,
        number < u128::MAX,
    ensures
        digits.0 * pow2(digits.1 as nat) == rounded(number as int, divisor as int, limit as int),
        limit / 2 <= digits.0 <= limit,
        2 * number >= limit * (divisor * pow2(digits.1 as nat)),
        digits.1 < 128,
{
    let wide: u128 = limit as u128;
    let most: u128 = number / wide;
    let mut below: u128 = divisor;
    let mut power: u32 = 0;
    proof {
        lemma2_to64();
        assert(pow2(0) == 1);
        lemma_fundamental_div_mod(number as int, wide as int);
    }
    while most >= below
        invariant
            wide == limit,
            2 <= limit <= DOUBLE_LIMIT,
            limit % 2 == 0,
            most == number / wide,
            number as int == wide as int * most as int + number as int % wide as int,
            0 <= number as int % wide as int,
            (number as int % wide as int) < wide,
            0 < divisor,
            0 < below,
            below == divisor * pow2(power as nat),
            pow2(power as nat) > 0,
            power <= 127,
            2 * number >= limit * below,
            number < u128::MAX,
            spacing(number as int, divisor as int, limit as int) == pow2(power as nat) * spacing(
                number as int,
                below as int,
                limit as int,
            ),
        decreases number - below,
    {
        proof {
            assert(number >= limit * below) by (nonlinear_arith)
                requires
                    number >= wide * most,
                    most >= below,
                    wide == limit,
                    limit >= 2,
            ;
            assert(limit * below >= 2 * below) by (nonlinear_arith)
                requires
                    limit >= 2,
                    below > 0,
            ;
            lemma2_to64();
            lemma_pow2_adds(1, power as nat);
            lemma_pow2_pos((power + 1) as nat);
            assert(2 * below == divisor * pow2((power + 1) as nat)) by (nonlinear_arith)
                requires
                    below == divisor * pow2(power as nat),
                    pow2((power + 1) as nat) == 2 * pow2(power as nat),
            ;
            assert(pow2(power as nat) <= below) by (nonlinear_arith)
                requires
                    below == divisor * pow2(power as nat),
                    divisor >= 1,
                    pow2(power as nat) > 0,
            ;
            if power == 127 {
                lemma2_to64_rest();
                lemma_pow2_adds(64, 63);
                assert(false) by (nonlinear_arith)
                    requires
                        pow2(127) == pow2(64) * pow2(63),
                        pow2(64) == 0x10000000000000000,
                        pow2(63) == 0x8000000000000000,
                        pow2(127) <= below,
                        2 * below <= number,
                        number < u128::MAX,
                ;
            }
            let inner = spacing(number as int, 2 * below as int, limit as int);
            let scale = pow2(power as nat) as int;
            assert(spacing(number as int, below as int, limit as int) == 2 * inner);
            assert(scale * (2 * inner) == (2 * scale) * inner) by (nonlinear_arith);
            assert(limit * (2 * below) == 2 * (limit * below)) by (nonlinear_arith);
        }
        below = 2 * below;
        power = power + 1;
    }
    proof {
        assert(number < limit * below) by (nonlinear_arith)
            requires
                number as int == wide as int * most as int + number as int % wide as int,
                (number as int % wide as int) < wide,
                most < below,
                wide == limit,
                limit >= 2,
        ;
        assert(spacing(number as int, below as int, limit as int) == 1);
        let scale = pow2(power as nat) as int;
        assert(scale * 1 == scale);
        lemma_half_even_most(number as int, below as int, limit as int);
        let half = limit as int / 2;
        assert(number >= half * below) by (nonlinear_arith)
            requires
                2 * number >= limit * below,
                limit == 2 * half,
        ;
        lemma_half_even_least(number as int, below as int, half);
    }
    let nearest: u128 = nearest_even(number, below);
    (nearest as u64, power)
}

/// A quotient rounded to the digits of a format.
pub(crate) fn round_value(number: u128, divisor: u128, limit: u64) -> (value: u128)
    requires
        0 < divisor,
        2 <= limit <= DOUBLE_LIMIT,
        limit % 2 == 0,
        number == 0 || 2 * number >= limit * divisor,
        number < 0x4000_0000_0000_0000_0000_0000_0000_0000,
    ensures
        value == rounded(number as int, divisor as int, limit as int),
        value * divisor <= 2 * number,
{
    if number == 0 {
        proof {
            lemma_rounded_zero(divisor as int, limit as int);
            assert(0 * divisor == 0);
        }
        return 0;
    }
    let (digits, power) = round_quotient(number, divisor, limit);
    let ghost value = digits * pow2(power as nat);
    proof {
        lemma_pow2_pos(power as nat);
        assert(value * divisor <= 2 * number) by (nonlinear_arith)
            requires
                2 * number >= limit * (divisor * pow2(power as nat)),
                value == digits * pow2(power as nat),
                digits <= limit,
                divisor > 0,
                pow2(power as nat) > 0,
        ;
        assert(value <= value * divisor) by (nonlinear_arith)
            requires
                divisor >= 1,
                value >= 0,
        ;
        lemma2_to64();
        lemma2_to64_rest();
    }
    if power < 64 {
        digits as u128 * power_of_two(power) as u128
    } else {
        proof {
            lemma_pow2_adds(63, (power - 63) as nat);
            lemma_pow2_pos((power - 63) as nat);
            if power >= 127 {
                lemma_pow2_adds(64, 63);
                if power > 127 {
                    lemma_pow2_strictly_increases(127, power as nat);
                }
                assert(value >= pow2(power as nat)) by (nonlinear_arith)
                    requires
                        value == digits * pow2(power as nat),
                        digits >= 1,
                        pow2(power as nat) > 0,
                ;
            }
        }
        let high: u64 = power_of_two(power - 63);
        let low: u64 = power_of_two(63);
        proof {
            assert(value == (digits * low) * high) by (nonlinear_arith)
                requires
                    value == digits * pow2(power as nat),
                    pow2(power as nat) == low * high,
            ;
            assert(digits * low <= value) by (nonlinear_arith)
                requires
                    value == (digits * low) * high,
                    high >= 1,
                    digits * low >= 0,
            ;
        }
        digits as u128 * low as u128 * high as u128
    }
}

/// A factor that number and divisor have in common does not matter.
pub proof fn lemma_ceiling_common(number: int, divisor: int, factor: int)
    requires
        divisor > 0,
        factor > 0,
    ensures
        ceiling(number * factor, divisor * factor) == ceiling(number, divisor),
{
    let top = number + divisor - 1;
    let whole = top / divisor;
    let rest = top % divisor;
    lemma_fundamental_div_mod(top, divisor);
    let wide = number * factor + divisor * factor - 1;
    let left = rest * factor + factor - 1;
    assert(wide == whole * (divisor * factor) + left) by (nonlinear_arith)
        requires
            top == divisor * whole + rest,
            top == number + divisor - 1,
            wide == number * factor + divisor * factor - 1,
            left == rest * factor + factor - 1,
    ;
    assert(0 <= left < divisor * factor) by (nonlinear_arith)
        requires
            0 <= rest < divisor,
            factor > 0,
            left == rest * factor + factor - 1,
    ;
    lemma_fundamental_div_mod_converse(wide, divisor * factor, whole, left);
}

/// The smallest whole number not below digits with a power of two, where one is counted as
/// a power of two, as digits and a power of two.
pub fn ceil_digits(digits: u64, power: u32, one: u32) -> (whole: (u64, u32))
    requires
        0 < digits <= DOUBLE_LIMIT,
    ensures
        whole.0 * pow2(whole.1 as nat) == ceiling(
            digits * pow2(power as nat),
            pow2(one as nat) as int,
        ),
        0 < whole.0 <= digits,
        whole.1 == (if power >= one {
            (power - one) as u32
        } else {
            0
        }),
{
    proof {
        lemma2_to64();
        lemma_pow2_pos(power as nat);
        lemma_pow2_pos(one as nat);
    }
    if power >= one {
        let rest: u32 = power - one;
        proof {
            lemma_pow2_adds(rest as nat, one as nat);
            let number = digits * pow2(rest as nat);
            assert(digits * pow2(power as nat) == number * pow2(one as nat)) by (nonlinear_arith)
                requires
                    pow2(power as nat) == pow2(rest as nat) * pow2(one as nat),
                    number == digits * pow2(rest as nat),
            ;
            lemma_ceiling_common(number, 1, pow2(one as nat) as int);
            assert(1 * pow2(one as nat) == pow2(one as nat));
            assert(ceiling(number, 1) == number);
        }
        (digits, rest)
    } else {
        let missing: u32 = one - power;
        proof {
            lemma_pow2_adds(missing as nat, power as nat);
            lemma_pow2_pos(missing as nat);
            lemma_ceiling_common(
                digits as int,
                pow2(missing as nat) as int,
                pow2(power as nat) as int,
            );
            assert(pow2(missing as nat) * pow2(power as nat) == pow2(one as nat));
            assert(pow2(0) == 1);
        }
        if missing >= 63 {
            proof {
                lemma2_to64_rest();
                if missing > 63 {
                    lemma_pow2_strictly_increases(63, missing as nat);
                }
                lemma_fundamental_div_mod_converse(
                    digits + pow2(missing as nat) - 1,
                    pow2(missing as nat) as int,
                    1,
                    digits - 1,
                );
            }
            assert(ceiling(digits as int, pow2(missing as nat) as int) == 1);
            assert(1 * pow2(0) == 1);
            (1, 0)
        } else {
            let divisor = power_of_two(missing);
            let whole: u64 = (digits - 1) / divisor + 1;
            proof {
                let rest = (digits - 1) as int % divisor as int;
                lemma_fundamental_div_mod((digits - 1) as int, divisor as int);
                assert(digits + divisor - 1 == whole * divisor + rest) by (nonlinear_arith)
                    requires
                        digits - 1 == divisor * (whole - 1) + rest,
                ;
                lemma_fundamental_div_mod_converse(
                    digits + divisor - 1,
                    divisor as int,
                    whole as int,
                    rest,
                );
                assert(whole <= digits) by (nonlinear_arith)
                    requires
                        digits - 1 == divisor * (whole - 1) + rest,
                        rest >= 0,
                        divisor >= 1,
                        whole >= 1,
                ;
            }
            assert(ceiling(digits as int, divisor as int) == whole);
            assert(whole * pow2(0) == whole);
            (whole, 0)
        }
    }
}

/// Digits with a power of two as an index: the largest one where they are larger.
pub fn saturate_digits(digits: u64, power: u32) -> (number: usize)
    requires
        digits > 0,
    ensures
        number == saturated(digits * pow2(power as nat)),
{
    if power >= 64 {
        proof {
            lemma2_to64_rest();
            if power > 64 {
                lemma_pow2_strictly_increases(64, power as nat);
            }
            assert(digits * pow2(power as nat) >= pow2(64)) by (nonlinear_arith)
                requires
                    digits >= 1,
                    pow2(power as nat) >= pow2(64),
            ;
        }
        return usize::MAX;
    }
    let factor = power_of_two(power);
    assert(digits as u128 * factor as u128 <= 0xffff_ffff_ffff_ffff * 0xffff_ffff_ffff_ffff)
        by (nonlinear_arith)
        requires
            digits <= 0xffff_ffff_ffff_ffff,
            factor <= 0xffff_ffff_ffff_ffff,
    ;
    let number: u128 = digits as u128 * factor as u128;
    if number > usize::MAX as u128 {
        usize::MAX
    } else {
        number as usize
    }
}

proof fn lemma_floor_common(number: int, divisor: int, factor: int)
    requires
        divisor > 0,
        factor > 0,
    ensures
        (number * factor) / (divisor * factor) == number / divisor,
{
    let whole = number / divisor;
    let rest = number % divisor;
    lemma_fundamental_div_mod(number, divisor);
    assert(number * factor == whole * (divisor * factor) + rest * factor) by (nonlinear_arith)
        requires
            number == divisor * whole + rest,
    ;
    assert(0 <= rest * factor < divisor * factor) by (nonlinear_arith)
        requires
            0 <= rest < divisor,
            factor > 0,
    ;
    lemma_fundamental_div_mod_converse(
        number * factor,
        divisor * factor,
        whole,
        rest * factor,
    );
}

/// The whole part of digits with a power of two, where one is counted as a power of two, as
/// an index: the largest one where it is larger. `common` powers were left out of both.
pub(crate) fn floor_digits(digits: u64, power: u32, one: u32, Ghost(common): Ghost<nat>) -> (number: usize)
    requires
        0 < digits <= DOUBLE_LIMIT,
    ensures
        number == saturated(
            (digits * pow2(power as nat) * pow2(common)) / (pow2(one as nat) * pow2(common)) as int,
        ),
{
    proof {
        lemma2_to64();
        lemma_pow2_pos(power as nat);
        lemma_pow2_pos(one as nat);
        lemma_pow2_pos(common);
        lemma_floor_common(
            digits * pow2(power as nat),
            pow2(one as nat) as int,
            pow2(common) as int,
        );
    }
    if power >= one {
        let rest: u32 = power - one;
        proof {
            lemma_pow2_adds(rest as nat, one as nat);
            let number = digits * pow2(rest as nat);
            assert(digits * pow2(power as nat) == number * pow2(one as nat)) by (nonlinear_arith)
                requires
                    pow2(power as nat) == pow2(rest as nat) * pow2(one as nat),
                    number == digits * pow2(rest as nat),
            ;
            lemma_fundamental_div_mod_converse(
                number * pow2(one as nat),
                pow2(one as nat) as int,
                number,
                0,
            );
        }
        saturate_digits(digits, rest)
    } else {
        let missing: u32 = one - power;
        proof {
            lemma_pow2_adds(missing as nat, power as nat);
            lemma_pow2_pos(missing as nat);
            lemma_floor_common(
                digits as int,
                pow2(missing as nat) as int,
                pow2(power as nat) as int,
            );
            assert(pow2(missing as nat) * pow2(power as nat) == pow2(one as nat));
        }
        if missing >= 63 {
            proof {
                lemma2_to64_rest();
                if missing > 63 {
                    lemma_pow2_strictly_increases(63, missing as nat);
                }
                lemma_fundamental_div_mod_converse(
                    digits as int,
                    pow2(missing as nat) as int,
                    0,
                    digits as int,
                );
            }
            0
        } else {
            let whole: u64 = digits / power_of_two(missing);
            if whole > usize::MAX as u64 {
                usize::MAX
            } else {
                whole as usize
            }
        }
    }
}

/// As long as all its digits fit, the whole part of a quotient is not changed by double
/// precision.
pub proof fn lemma_double_floor(number: int, divisor: int)
    requires
        0 <= number < DOUBLE_LIMIT,
        0 < divisor <= 0xffff_ffff,
    ensures
        rounded(number * double_one(), divisor, DOUBLE_LIMIT as int) / double_one() == number
            / divisor,
{
    let one = double_one();
    let limit = DOUBLE_LIMIT as int;
    let wide = number * one;
    let space = spacing(wide, divisor, limit);
    let size = lemma_spacing(wide, divisor, limit);
    let whole = number / divisor;
    lemma2_to64();
    lemma2_to64_rest();
    lemma_pow2_strictly_increases(64, 1074);
    lemma_fundamental_div_mod(number, divisor);
    assert(wide >= 0) by (nonlinear_arith)
        requires
            number >= 0,
            one > 0,
            wide == number * one,
    ;
    lemma_rounded_near(wide, divisor, limit);
    assert(divisor * space < 2 * one) by (nonlinear_arith)
        requires
            space > 1 ==> 2 * wide >= limit * (divisor * space),
            space >= 1,
            wide == number * one,
            number < limit,
            limit >= 2,
            one > 0x1_0000_0000_0000_0000,
            0 < divisor <= 0xffff_ffff,
    ;
    assert(space < 2 * one) by (nonlinear_arith)
        requires
            divisor * space < 2 * one,
            divisor >= 1,
            space >= 1,
    ;
    lemma_pow2_adds(1, 1074);
    if size > 1074 {
        if size > 1075 {
            lemma_pow2_strictly_increases(1075, size);
        }
        assert(false);
    }
    lemma_pow2_adds((1074 - size) as nat, size);
    let times = pow2((1074 - size) as nat) as int;
    let near = half_even(wide, divisor * space);
    let result = near * space;
    assert(wide >= (whole * times) * (divisor * space)) by (nonlinear_arith)
        requires
            wide == number * one,
            one == times * space,
            number >= divisor * whole,
            one > 0,
    ;
    assert(divisor * space > 0) by (nonlinear_arith)
        requires
            divisor > 0,
            space >= 1,
    ;
    lemma_half_even_least(wide, divisor * space, whole * times);
    assert(result >= whole * one) by (nonlinear_arith)
        requires
            near >= whole * times,
            result == near * space,
            one == times * space,
            space >= 1,
    ;
    assert(result < (whole + 1) * one) by (nonlinear_arith)
        requires
            2 * (result * divisor - wide) <= divisor * space,
            divisor * space < 2 * one,
            wide == number * one,
            number <= divisor * whole + divisor - 1,
            divisor >= 1,
            one > 0,
    ;
    assert((whole + 1) * one == whole * one + one) by (nonlinear_arith);
    lemma_fundamental_div_mod_converse(result, one, whole, result - whole * one);
}

/// Rounding a quotient depends on the quotient alone: a factor of both numbers is no matter.
pub proof fn law_common_factors_do_not_matter(number: int, divisor: int, limit: int, factor: int)
    requires
        divisor > 0,
        limit >= 2,
        factor > 0,
    ensures
        spacing(number * factor, divisor * factor, limit) == spacing(number, divisor, limit),
        rounded(number * factor, divisor * factor, limit) == rounded(number, divisor, limit),
    decreases number - divisor,
{
    assert(divisor * factor > 0) by (nonlinear_arith)
        requires
            divisor > 0,
            factor > 0,
    ;
    assert((number * factor < limit * (divisor * factor)) == (number < limit * divisor))
        by (nonlinear_arith)
        requires
            factor > 0,
    ;
    if number >= limit * divisor {
        assert(number >= 2 * divisor) by (nonlinear_arith)
            requires
                number >= limit * divisor,
                limit >= 2,
                divisor > 0,
        ;
        law_common_factors_do_not_matter(number, 2 * divisor, limit, factor);
        assert((2 * divisor) * factor == 2 * (divisor * factor)) by (nonlinear_arith);
    }
    let space = spacing(number, divisor, limit);
    let _ = lemma_spacing(number, divisor, limit);
    assert(divisor * space > 0) by (nonlinear_arith)
        requires
            divisor > 0,
            space >= 1,
    ;
    lemma_half_even_common(number, divisor * space, factor);
    assert((divisor * space) * factor == (divisor * factor) * space) by (nonlinear_arith);
}

} // verus!
