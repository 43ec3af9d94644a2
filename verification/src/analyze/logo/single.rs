//! Reading and writing single-precision coefficients.
//!
//! A logo's coefficients are kept as the thirty-two bits a logo file holds for
//! each: a sign, eight bits of exponent and twenty-three of fraction. Here they
//! are turned into millionths, which is what the arithmetic is done in. A fit is
//! finer than that, and is written as the nearest of these values.

use vstd::prelude::*;
use vstd::arithmetic::power2::lemma_pow2_pos;
use vstd::arithmetic::power2::lemma_pow2_unfold;
use vstd::arithmetic::power2::pow2;
use crate::arith::nearest;
use crate::arith::nearest_bounds;
use crate::arith::nearest_even;
use crate::arith::nearest_even_bounds;
use crate::arith::nearest_even_is;
use crate::arith::nearest_even_reaches;
use crate::arith::nearest_is_monotonic;
use crate::arith::nearest_of_multiple;
use crate::arith::nearest_is;
use crate::arith::power_is_small;
use crate::arith::power_of_two;
use crate::arith::round_even;

verus! {

/// The bits of one.
pub const ONE: u32 = 0x3f80_0000;

/// The bits of zero.
pub const ZERO: u32 = 0;

/// The largest size a coefficient is read as, in millionths: anything of two to
/// the twenty-ninth and more is read as this. It is as far as the detector's
/// sums reach in a hundred and twenty-eight bits.
pub const COEFFICIENT_LIMIT: i64 = 536_870_912_000_000;

/// One, in the units a coefficient is fitted in: two to the forty-fourth.
pub const FINE: i128 = 0x1000_0000_0000;

/// The largest size that is written, in the units a coefficient is fitted in.
pub const WRITTEN_LIMIT: i128 = 0x4000_0000_0000_0000_0000_0000_0000_0000;

/// Whether the sign bit is set.
pub open spec fn negative(bits: u32) -> bool {
    bits >= 0x8000_0000
}

/// The exponent field.
pub open spec fn exponent(bits: u32) -> int {
    (bits as int / 0x80_0000) % 256
}

/// The fraction field.
pub open spec fn fraction(bits: u32) -> int {
    bits as int % 0x80_0000
}

/// Neither infinite nor not a number.
pub open spec fn finite(bits: u32) -> bool {
    exponent(bits) != 255
}

/// The whole number the value is a power of two away from.
pub open spec fn significand(bits: u32) -> int {
    if exponent(bits) == 0 {
        fraction(bits)
    } else {
        0x80_0000 + fraction(bits)
    }
}

/// How far the significand is shifted right to give the value; to the left
/// where it is negative.
pub open spec fn shift(bits: u32) -> int {
    if exponent(bits) == 0 {
        149
    } else {
        150 - exponent(bits)
    }
}

/// What a value is scaled up by to make its significand whole.
pub open spec fn scale_up(bits: u32) -> int {
    if shift(bits) > 0 {
        pow2(shift(bits) as nat) as int
    } else {
        1
    }
}

/// How many millionths one step of the significand is worth, once the value has
/// been scaled up.
pub open spec fn step(bits: u32) -> int {
    if shift(bits) < 0 {
        1_000_000 * pow2((-shift(bits)) as nat) as int
    } else {
        1_000_000
    }
}

/// The size of a value, in millionths, to the nearest.
pub open spec fn size_in_millionths(bits: u32) -> int {
    if exponent(bits) >= 156 {
        COEFFICIENT_LIMIT as int
    } else {
        nearest(significand(bits) * step(bits), scale_up(bits))
    }
}

/// A value in millionths, to the nearest.
pub open spec fn in_millionths(bits: u32) -> int {
    if negative(bits) {
        -size_in_millionths(bits)
    } else {
        size_in_millionths(bits)
    }
}

/// A finite value below one.
pub open spec fn below_one(bits: u32) -> bool {
    negative(bits) || bits < ONE
}

/// Whether a value is neither infinite nor not a number.
pub fn is_finite(bits: u32) -> (yes: bool)
    ensures
        yes == finite(bits),
{
    (bits / 0x80_0000) % 256 != 255
}

/// Whether a finite value is below one.
pub fn is_below_one(bits: u32) -> (yes: bool)
    ensures
        yes == below_one(bits),
{
    bits >= 0x8000_0000 || bits < ONE
}

/// Powers of two ascend.
proof fn pow2_ascends(low: nat, high: nat)
    requires
        low <= high,
    ensures
        1 <= pow2(low) <= pow2(high),
{
    lemma_pow2_pos(low);
    if low < high {
        vstd::arithmetic::power2::lemma_pow2_strictly_increases(low, high);
    }
}

/// Read a value as millionths.
pub fn millionths(bits: u32) -> (value: i64)
    ensures
        value == in_millionths(bits),
        -COEFFICIENT_LIMIT <= value <= COEFFICIENT_LIMIT,
{
    let field: u32 = (bits / 0x80_0000) % 256;
    let whole: u64 = (bits % 0x80_0000) as u64 + if field == 0 { 0 } else { 0x80_0000 };
    let size: i64 = if field >= 156 {
        COEFFICIENT_LIMIT
    } else if field >= 150 {
        let doubled: u32 = field - 150;
        proof {
            pow2_ascends(doubled as nat, 5);
            vstd::arithmetic::power2::lemma2_to64();
            assert(pow2(5) == 32);
            assert(step(bits) == 1_000_000 * pow2(doubled as nat));
            nearest_of_multiple(significand(bits) * step(bits), 1);
        }
        let power: u64 = power_of_two(doubled);
        assert(0 <= whole * (1_000_000 * power) <= 536_870_912_000_000) by (nonlinear_arith)
            requires
                0 <= whole <= 0xff_ffff,
                1 <= power <= 32,
        ;
        (whole * (1_000_000 * power)) as i64
    } else {
        let places: u32 = if field == 0 { 149 } else { 150 - field };
        let scaled: u64 = whole * 1_000_000;
        if places >= 46 {
            proof {
                // The value is under half a millionth.
                pow2_ascends(46, places as nat);
                vstd::arithmetic::power2::lemma2_to64_rest();
                assert(pow2(46) == 0x4000_0000_0000);
                nearest_is(scaled as int, pow2(places as nat) as int, 0);
            }
            0
        } else {
            proof {
                power_is_small(places as nat);
                pow2_ascends(places as nat, 46);
                vstd::arithmetic::power2::lemma2_to64_rest();
                assert(pow2(46) == 0x4000_0000_0000);
            }
            let divisor: u64 = power_of_two(places);
            let quotient: u64 = (2 * scaled + divisor) / (2 * divisor);
            assert(quotient <= 536_870_912_000_000) by (nonlinear_arith)
                requires
                    quotient == (2 * scaled + divisor) as int / (2 * divisor) as int,
                    divisor >= 1,
                    scaled <= 16_777_215_000_000,
            ;
            quotient as i64
        }
    };
    if bits >= 0x8000_0000 {
        -size
    } else {
        size
    }
}

/// How many fitted units one step of the significand is worth, once the value
/// has been scaled up.
pub open spec fn grain(bits: u32) -> int {
    if shift(bits) < 0 {
        FINE * pow2((-shift(bits)) as nat)
    } else {
        FINE as int
    }
}

/// `bits` is the single-precision value nearest a number of fitted units, the
/// even one of two equally near. Its significand is the nearest whole number to
/// the size, scaled until it has twenty-four bits; a size that rounds up to
/// twenty-five bits is written with the next exponent.
pub open spec fn encodes(bits: u32, value: int) -> bool {
    let size = if value < 0 { -value } else { value };
    let scaled = size * scale_up(bits);
    if value == 0 {
        bits == ZERO
    } else {
        &&& negative(bits) == (value < 0)
        &&& 83 <= exponent(bits) <= 254
        &&& significand(bits) == nearest_even(scaled, grain(bits))
        &&& scaled >= 8_388_608 * grain(bits) || (fraction(bits) == 0 && 4 * scaled >= 33_554_431
            * grain(bits))
    }
}

/// The single-precision value nearest a number of fitted units.
pub open spec fn single_of(value: int) -> u32 {
    choose|bits: u32| encodes(bits, value)
}

/// Only one value is nearest.
pub proof fn encoding_is_unique(left: u32, right: u32, value: int)
    requires
        encodes(left, value),
        encodes(right, value),
    ensures
        left == right,
{
    if value != 0 {
        let size = if value < 0 { -value } else { value };
        if exponent(left) < exponent(right) {
            finer_encoding_is_too_small(left, right, size);
        } else if exponent(right) < exponent(left) {
            finer_encoding_is_too_small(right, left, size);
        }
        assert(left as int / 0x80_0000 == exponent(left) + if negative(left) { 256int } else { 0 });
        assert(right as int / 0x80_0000 == exponent(right) + if negative(right) {
            256int
        } else {
            0
        });
    }
}

proof fn finer_encoding_is_too_small(fine: u32, coarse: u32, size: int)
    requires
        exponent(fine) < exponent(coarse),
        83 <= exponent(fine),
        exponent(coarse) <= 254,
        size > 0,
        4 * (size * scale_up(coarse)) >= 33_554_431 * grain(coarse),
    ensures
        significand(fine) < nearest_even(size * scale_up(fine), grain(fine)),
{
    let (u1, g1) = (scale_up(fine), grain(fine));
    let (u2, g2) = (scale_up(coarse), grain(coarse));
    grains_double(fine, coarse);
    assert(2 * (size * u1) >= 33_554_431 * g1) by (nonlinear_arith)
        requires
            u1 * g2 >= 2 * (u2 * g1),
            4 * (size * u2) >= 33_554_431 * g2,
            size > 0,
            g1 > 0,
            g2 > 0,
            u2 > 0,
    {
        assert(size * (u1 * g2) >= size * (2 * (u2 * g1)));
        assert(2 * (size * u1) * g2 >= (4 * (size * u2)) * g1);
        assert((4 * (size * u2)) * g1 >= (33_554_431 * g2) * g1);
        assert((2 * (size * u1) - 33_554_431 * g1) * g2 >= 0);
    }
    nearest_even_reaches(size * u1, g1, 16_777_216);
}

/// A larger exponent makes for a grain that is twice as large or more.
proof fn grains_double(fine: u32, coarse: u32)
    requires
        exponent(fine) < exponent(coarse),
        83 <= exponent(fine),
    ensures
        scale_up(fine) * grain(coarse) >= 2 * (scale_up(coarse) * grain(fine)),
        scale_up(fine) > 0,
        scale_up(coarse) > 0,
        grain(fine) > 0,
        grain(coarse) > 0,
{
    let (u1, g1) = (scale_up(fine), grain(fine));
    let (u2, g2) = (scale_up(coarse), grain(coarse));
    vstd::arithmetic::power2::lemma2_to64();
    if shift(coarse) >= 0 {
        lemma_pow2_unfold((shift(coarse) + 1) as nat);
        pow2_ascends((shift(coarse) + 1) as nat, shift(fine) as nat);
        lemma_pow2_pos(shift(coarse) as nat);
        assert(u2 == pow2(shift(coarse) as nat));
    } else if shift(fine) >= 0 {
        pow2_ascends(1, (-shift(coarse)) as nat);
        lemma_pow2_pos(shift(fine) as nat);
    } else {
        lemma_pow2_unfold((-shift(fine) + 1) as nat);
        pow2_ascends((-shift(fine) + 1) as nat, (-shift(coarse)) as nat);
        lemma_pow2_pos((-shift(fine)) as nat);
    }
    assert(u1 * g2 >= 2 * (u2 * g1)) by (nonlinear_arith)
        requires
            (u1 >= 2 * u2 && g1 == g2) || (u1 >= u2 && g2 >= 2 * g1),
            u2 > 0,
            g1 > 0,
    ;
}

/// Rounding up to twenty-five bits is rounding to the next exponent.
proof fn carrying_over(scaled: int, unit: int, next_scaled: int, next_unit: int)
    requires
        unit > 0,
        8_388_608 * unit <= scaled < 16_777_216 * unit,
        nearest_even(scaled, unit) == 16_777_216,
        (scaled == 2 * next_scaled && next_unit == unit) || (scaled == next_scaled && next_unit
            == 2 * unit),
    ensures
        nearest_even(next_scaled, next_unit) == 8_388_608,
        4 * next_scaled >= 33_554_431 * next_unit,
{
    nearest_even_bounds(scaled, unit);
    nearest_even_is(next_scaled, next_unit, 8_388_608);
}

/// The bits put together from a sign, an exponent and a significand.
proof fn parts_of_bits(bits: u32, minus: bool, field: u32, low: u32)
    requires
        field <= 254,
        low < 0x80_0000,
        bits == (if minus { 0x8000_0000int } else { 0 }) + field * 0x80_0000 + low,
    ensures
        negative(bits) == minus,
        exponent(bits) == field,
        fraction(bits) == low,
{
}

/// Write a fitted coefficient as the nearest single-precision value.
pub fn from_fine(value: i128) -> (bits: u32)
    requires
        -WRITTEN_LIMIT <= value <= WRITTEN_LIMIT,
    ensures
        bits == single_of(value as int),
        encodes(bits, value as int),
        finite(bits),
{
    if value == 0 {
        assert(encodes(ZERO, 0));
        return ZERO;
    }
    let size: u128 = if value < 0 { (-value) as u128 } else { value as u128 };
    let mut scaled: u128 = size;
    let mut unit: u128 = 0x1000_0000_0000;
    let mut field: u32 = 150;
    proof {
        no_scaling(size as int);
    }
    // Double the value, or the step, until there are twenty-four significant
    // bits.
    while scaled < 0x8_0000_0000_0000_0000
        invariant
            1 <= size <= WRITTEN_LIMIT,
            83 <= field <= 150,
            scaled == size * pow2((150 - field) as nat),
            unit == 0x1000_0000_0000,
            scaled < 0x10_0000_0000_0000_0000 || field == 150,
            scaled >= pow2((150 - field) as nat),
        decreases field,
    {
        let ghost places = (150 - field) as nat;
        proof {
            lemma_pow2_unfold(places + 1);
            lemma_pow2_pos(places);
            assert(size * pow2(places + 1) == 2 * (size * pow2(places))) by (nonlinear_arith)
                requires
                    pow2(places + 1) == 2 * pow2(places),
            ;
            if field == 83 {
                large_powers();
            }
        }
        scaled = scaled * 2;
        field = field - 1;
    }
    proof {
        no_scaling(size as int);
    }
    while scaled >= 16_777_216 * unit
        invariant
            1 <= size <= WRITTEN_LIMIT,
            83 <= field <= 250,
            field < 150 ==> unit == FINE && scaled < 0x10_0000_0000_0000_0000,
            field < 150 ==> scaled == size * pow2((150 - field) as nat),
            field >= 150 ==> scaled == size && unit == FINE * pow2((field - 150) as nat),
            FINE <= unit,
            unit <= 0x100_0000_0000_0000_0000_0000_0000,
            scaled >= 8_388_608 * unit,
        decreases 250 - field,
    {
        proof {
            assert(field >= 150);
            let places = (field - 150) as nat;
            lemma_pow2_unfold(places + 1);
            lemma_pow2_pos(places);
            if field == 250 {
                large_powers();
                assert(places == 100);
            }
        }
        unit = unit * 2;
        field = field + 1;
    }
    let mut whole: u128 = round_even(scaled, unit);
    proof {
        nearest_even_bounds(scaled as int, unit as int);
        assert(8_388_608 <= whole <= 16_777_216) by (nonlinear_arith)
            requires
                -unit <= 2 * (whole * unit - scaled) <= unit,
                8_388_608 * unit <= scaled < 16_777_216 * unit,
                unit > 0,
        ;
    }
    let ghost exact = field;
    if whole == 16_777_216 {
        whole = 8_388_608;
        field = field + 1;
    }
    let sign: u32 = if value < 0 { 0x8000_0000 } else { 0 };
    let low: u32 = (whole - 8_388_608) as u32;
    let bits: u32 = sign + field * 0x80_0000 + low;
    proof {
        parts_of_bits(bits, value < 0, field, low);
        let up = scale_up(bits);
        if field <= 150 {
            assert(grain(bits) == FINE);
            vstd::arithmetic::power2::lemma2_to64();
            assert(up == pow2((150 - field) as nat));
        } else {
            assert(up == 1 && size * up == size);
        }
        if field != exact {
            if field <= 150 {
                let places = (150 - exact) as nat;
                lemma_pow2_unfold(places);
                assert(scaled == 2 * (size * up)) by (nonlinear_arith)
                    requires
                        scaled == size * pow2(places),
                        pow2(places) == 2 * up,
                ;
            } else {
                lemma_pow2_unfold((field - 150) as nat);
            }
            carrying_over(scaled as int, unit as int, size * up, grain(bits));
        }
        assert(encodes(bits, value as int));
        encoding_is_unique(bits, single_of(value as int), value as int);
    }
    bits
}

proof fn no_scaling(size: int)
    ensures
        pow2(0) == 1,
        size * pow2(0) == size,
{
    vstd::arithmetic::power2::lemma2_to64();
    assert(size * pow2(0) == size) by (nonlinear_arith)
        requires
            pow2(0) == 1,
    ;
}

proof fn large_powers()
    ensures
        pow2(67) == 0x8_0000_0000_0000_0000,
        pow2(100) >= 0x8_0000_0000_0000_0000_0000_0000,
{
    vstd::arithmetic::power2::lemma2_to64();
    vstd::arithmetic::power2::lemma2_to64_rest();
    vstd::arithmetic::power2::lemma_pow2_adds(50, 50);
    vstd::arithmetic::power2::lemma_pow2_adds(50, 17);
    assert(pow2(50) == 0x4_0000_0000_0000);
    assert(pow2(17) == 0x2_0000);
}

/// Writing a coefficient and reading it back loses less than a millionth, for
/// sizes below sixteen: an opacity of up to fifteen sixteenths.
pub proof fn coefficients_survive_encoding(bits: u32, value: int)
    requires
        encodes(bits, value),
        -16 * FINE < value < 16 * FINE,
    ensures
        -FINE <= in_millionths(bits) * FINE - value * 1_000_000 <= FINE,
{
    if value == 0 {
        lemma_pow2_pos(149);
        nearest_is(0, pow2(149) as int, 0);
    } else {
        let size = if value < 0 { -value } else { value };
        let up = scale_up(bits);
        vstd::arithmetic::power2::lemma2_to64();
        vstd::arithmetic::power2::lemma2_to64_rest();
        if shift(bits) < 19 {
            if shift(bits) > 0 {
                pow2_ascends(shift(bits) as nat, 18);
            } else if shift(bits) < 0 {
                pow2_ascends(1, (-shift(bits)) as nat);
            }
            assert(size * up <= size * 262_144) by (nonlinear_arith)
                requires
                    up <= 262_144,
                    size >= 0,
            ;
            assert(false);
        }
        if shift(bits) == 19 {
            // Rounded up to sixteen itself.
            assert(up == 524_288);
            assert(size * up == size * 524_288) by (nonlinear_arith)
                requires
                    up == 524_288,
            ;
            assert(fraction(bits) == 0);
            nearest_of_multiple(16_000_000, up);
            assert(size_in_millionths(bits) == 16_000_000);
        } else {
            pow2_ascends(20, shift(bits) as nat);
            let (whole, read) = (significand(bits), size_in_millionths(bits));
            nearest_even_bounds(size * up, FINE as int);
            nearest_bounds(whole * 1_000_000, up);
            roundings_stay_close(read, whole, size, up, FINE as int);
        }
    }
}

proof fn roundings_stay_close(read: int, whole: int, size: int, up: int, fine: int)
    requires
        up >= 1_048_576,
        fine > 0,
        -fine <= 2 * (whole * fine - size * up) <= fine,
        2 * (read * up) <= 2 * (whole * 1_000_000) + up,
        2 * (whole * 1_000_000) + up < 2 * (read * up) + 2 * up,
    ensures
        -fine <= read * fine - size * 1_000_000 <= fine,
{
    let gap = read * fine - size * 1_000_000;
    let left = read * up - whole * 1_000_000;
    let right = whole * fine - size * up;
    assert(gap * up == left * fine + 1_000_000 * right) by (nonlinear_arith)
        requires
            gap == read * fine - size * 1_000_000,
            left == read * up - whole * 1_000_000,
            right == whole * fine - size * up,
    ;
    assert(-fine <= gap <= fine) by (nonlinear_arith)
        requires
            gap * up == left * fine + 1_000_000 * right,
            -up <= 2 * left <= up,
            -fine <= 2 * right <= fine,
            up >= 1_048_576,
            fine > 0,
    {
        assert(-(up * fine) <= 2 * (left * fine) <= up * fine);
        assert(1_000_000 * fine <= up * fine);
        assert(-2 * (up * fine) <= 2 * (gap * up) <= 2 * (up * fine));
        assert((fine - gap) * up >= 0);
        assert((gap + fine) * up >= 0);
    }
}

/// A finite value that is not below one reads as at least a million
/// millionths.
pub(crate) proof fn at_least_one(bits: u32)
    requires
        finite(bits),
        !below_one(bits),
    ensures
        in_millionths(bits) >= 1_000_000,
{
    assert(exponent(bits) >= 127);
    if exponent(bits) < 156 {
        let power = scale_up(bits);
        vstd::arithmetic::power2::lemma2_to64();
        if shift(bits) > 0 {
            pow2_ascends(shift(bits) as nat, 23);
            assert(pow2(23) == 0x80_0000);
        } else {
            lemma_pow2_pos((-shift(bits)) as nat);
        }
        assert(1_000_000 * power <= significand(bits) * step(bits)) by (nonlinear_arith)
            requires
                power <= 0x80_0000 <= significand(bits),
                step(bits) >= 1_000_000,
        ;
        nearest_is_monotonic(1_000_000 * power, significand(bits) * step(bits), power);
        nearest_of_multiple(1_000_000, power);
    }
}

/// No coefficient reads as more than the limit.
pub(crate) proof fn coefficients_are_limited(bits: u32)
    ensures
        -COEFFICIENT_LIMIT <= in_millionths(bits) <= COEFFICIENT_LIMIT,
{
    if exponent(bits) < 156 {
        let power = scale_up(bits);
        vstd::arithmetic::power2::lemma2_to64();
        if shift(bits) > 0 {
            lemma_pow2_pos(shift(bits) as nat);
        } else {
            pow2_ascends((-shift(bits)) as nat, 5);
            assert(pow2(5) == 32);
        }
        let top = significand(bits) * step(bits);
        assert(0 <= top <= 536_870_912_000_000 * power) by (nonlinear_arith)
            requires
                top == significand(bits) * step(bits),
                0 <= significand(bits) <= 0xff_ffff,
                1_000_000 <= step(bits) <= 32_000_000,
                power >= 1,
        ;
        nearest_is_monotonic(0, top, power);
        nearest_is_monotonic(top, 536_870_912_000_000 * power, power);
        nearest_of_multiple(0, power);
        nearest_of_multiple(536_870_912_000_000, power);
    }
}

/// What one and zero read as.
pub(crate) proof fn plain_values()
    ensures
        in_millionths(ONE) == 1_000_000,
        in_millionths(ZERO) == 0,
{
    vstd::arithmetic::power2::lemma2_to64();
    assert(exponent(ONE) == 127 && fraction(ONE) == 0);
    assert(pow2(23) == 0x80_0000);
    nearest_is(0x80_0000 * 1_000_000int, 0x80_0000, 1_000_000);
    lemma_pow2_pos(149);
    nearest_is(0, pow2(149) as int, 0);
}

} // verus!
