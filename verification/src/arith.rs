//! Whole-number arithmetic shared by everything that would otherwise round.

use vstd::prelude::*;
use vstd::arithmetic::div_mod::lemma_fundamental_div_mod;
use vstd::arithmetic::div_mod::lemma_fundamental_div_mod_converse;
use vstd::arithmetic::power2::lemma_pow2_unfold;
use vstd::arithmetic::power2::pow2;

verus! {

/// The whole number nearest a quotient, halves rounding up.
pub open spec fn nearest(numerator: int, denominator: int) -> int {
    (2 * numerator + denominator) / (2 * denominator)
}

/// A whole number is the nearest when the quotient is no further off than a
/// half.
pub proof fn nearest_is(numerator: int, denominator: int, whole: int)
    requires
        denominator > 0,
        2 * (whole * denominator) <= 2 * numerator + denominator,
        2 * numerator + denominator < 2 * (whole * denominator) + 2 * denominator,
    ensures
        nearest(numerator, denominator) == whole,
{
    let rest = 2 * numerator + denominator - 2 * (whole * denominator);
    assert(2 * (whole * denominator) == whole * (2 * denominator)) by (nonlinear_arith);
    vstd::arithmetic::div_mod::lemma_fundamental_div_mod_converse(
        2 * numerator + denominator,
        2 * denominator,
        whole,
        rest,
    );
}

/// The largest operand the helpers below accept.
pub const WIDE: i128 = 0x1fff_ffff_ffff_ffff_ffff_ffff_ffff_ffff;

/// A quotient rounded down, whatever the sign.
pub fn floor_quotient(numerator: i128, denominator: i128) -> (quotient: i128)
    requires
        -3 * WIDE <= numerator <= 3 * WIDE,
        0 < denominator <= 2 * WIDE,
    ensures
        quotient == numerator as int / denominator as int,
        numerator >= 0 ==> quotient >= 0,
        -3 * WIDE <= quotient <= 3 * WIDE,
{
    if numerator >= 0 {
        let quotient: i128 = numerator / denominator;
        assert(quotient <= numerator) by (nonlinear_arith)
            requires
                quotient == numerator as int / denominator as int,
                numerator >= 0,
                denominator >= 1,
        ;
        quotient
    } else {
        let size: i128 = -numerator;
        let whole: i128 = size / denominator;
        let rest: i128 = size % denominator;
        proof {
            lemma_fundamental_div_mod(size as int, denominator as int);
            assert(0 <= whole <= size) by (nonlinear_arith)
                requires
                    whole == size as int / denominator as int,
                    size >= 0,
                    denominator >= 1,
            ;
            let product = denominator as int * whole as int;
            if rest == 0 {
                assert(numerator == (-whole) * denominator) by (nonlinear_arith)
                    requires
                        product == denominator as int * whole as int,
                        numerator == -product,
                ;
                lemma_fundamental_div_mod_converse(
                    numerator as int,
                    denominator as int,
                    -whole as int,
                    0,
                );
            } else {
                assert(numerator == (-whole - 1) * denominator + (denominator - rest))
                    by (nonlinear_arith)
                    requires
                        product == denominator as int * whole as int,
                        numerator == -product - rest,
                ;
                lemma_fundamental_div_mod_converse(
                    numerator as int,
                    denominator as int,
                    -whole - 1,
                    denominator - rest,
                );
                assert(whole + 1 <= 3 * WIDE) by (nonlinear_arith)
                    requires
                        product == denominator as int * whole as int,
                        product + rest <= 3 * WIDE,
                        rest >= 1,
                        denominator >= 1,
                        whole >= 0,
                ;
            }
        }
        if rest == 0 {
            -whole
        } else {
            -whole - 1
        }
    }
}

/// The whole number nearest a quotient.
pub fn nearest_quotient(numerator: i128, denominator: i128) -> (quotient: i128)
    requires
        -WIDE <= numerator <= WIDE,
        0 < denominator <= WIDE,
    ensures
        quotient == nearest(numerator as int, denominator as int),
        numerator >= 0 ==> quotient >= 0,
{
    floor_quotient(2 * numerator + denominator, 2 * denominator)
}

/// The largest whole that a share is taken of.
pub const WHOLE_LIMIT: u128 = 0x1900_0000_0000_0000_0000_0000_0000_0000;

/// A share of a whole in millionths, to the nearest, by long division: the
/// part itself may be too large to be multiplied by a million.
pub fn share_of(part: u128, whole: u128) -> (share: u128)
    requires
        part < whole <= WHOLE_LIMIT,
    ensures
        share == nearest(1_000_000 * part, whole as int),
        share <= 1_000_000,
{
    let mut digits: u128 = 0;
    let mut rest: u128 = part;
    let mut power: u128 = 1;
    assert(0 * whole as int == 0) by (nonlinear_arith);
    for place in 0..6u32
        invariant
            rest < whole <= WHOLE_LIMIT,
            digits < power,
            power <= 1_000_000,
            place == 0 ==> power == 1,
            place == 1 ==> power == 10,
            place == 2 ==> power == 100,
            place == 3 ==> power == 1_000,
            place == 4 ==> power == 10_000,
            place == 5 ==> power == 100_000,
            place == 6 ==> power == 1_000_000,
            power * part == digits * whole + rest,
    {
        let ten: u128 = 10 * rest;
        let digit: u128 = ten / whole;
        proof {
            lemma_fundamental_div_mod(ten as int, whole as int);
            assert(digit < 10) by (nonlinear_arith)
                requires
                    ten == whole * digit + ten as int % whole as int,
                    ten as int % whole as int >= 0,
                    ten < 10 * whole,
                    digit >= 0,
            ;
            assert((10 * digits + digit) * whole == 10 * (digits * whole) + whole * digit)
                by (nonlinear_arith);
            assert((10 * power) * part == 10 * (power * part)) by (nonlinear_arith);
        }
        rest = ten % whole;
        digits = 10 * digits + digit;
        power = 10 * power;
    }
    let share: u128 = if 2 * rest >= whole { digits + 1 } else { digits };
    proof {
        assert((digits + 1) * whole == digits * whole + whole) by (nonlinear_arith);
        nearest_is(1_000_000 * part, whole as int, share as int);
    }
    share
}

/// The whole number nearest a quotient, halves rounding to the even one, which
/// is how a number is rounded to be written out.
pub open spec fn nearest_even(numerator: int, denominator: int) -> int {
    let whole = numerator / denominator;
    let rest = numerator % denominator;
    if 2 * rest > denominator || (2 * rest == denominator && whole % 2 == 1) {
        whole + 1
    } else {
        whole
    }
}

/// Divide, rounding to the nearest and halves to the even.
pub fn round_even(numerator: u128, denominator: u128) -> (quotient: u128)
    requires
        0 < denominator <= 0x4000_0000_0000_0000_0000_0000_0000_0000,
    ensures
        quotient == nearest_even(numerator as int, denominator as int),
        quotient <= numerator / denominator + 1,
{
    let whole: u128 = numerator / denominator;
    let rest: u128 = numerator % denominator;
    if 2 * rest > denominator || (2 * rest == denominator && whole % 2 == 1) {
        assert(whole < u128::MAX) by {
            lemma_fundamental_div_mod(numerator as int, denominator as int);
            assert(denominator * whole + rest == numerator);
            assert(denominator * whole >= whole) by (nonlinear_arith)
                requires
                    denominator >= 1,
                    whole >= 0,
            ;
        }
        whole + 1
    } else {
        whole
    }
}

/// How close the nearest whole number is, halves rounding to the even one.
pub proof fn nearest_even_bounds(numerator: int, denominator: int)
    requires
        denominator > 0,
    ensures
        ({
            let whole = nearest_even(numerator, denominator);
            -denominator <= 2 * (whole * denominator - numerator) <= denominator
        }),
        numerator / denominator <= nearest_even(numerator, denominator) <= numerator / denominator
            + 1,
{
    let quotient = numerator / denominator;
    lemma_fundamental_div_mod(numerator, denominator);
    assert(denominator * quotient == quotient * denominator) by (nonlinear_arith);
    assert((quotient + 1) * denominator == quotient * denominator + denominator)
        by (nonlinear_arith);
}

/// A whole number is the nearest when the quotient is less than a half off.
pub proof fn nearest_even_is(numerator: int, denominator: int, whole: int)
    requires
        denominator > 0,
        -denominator < 2 * (whole * denominator - numerator) < denominator,
    ensures
        nearest_even(numerator, denominator) == whole,
{
    let found = nearest_even(numerator, denominator);
    nearest_even_bounds(numerator, denominator);
    assert(found == whole) by (nonlinear_arith)
        requires
            denominator > 0,
            -denominator < 2 * (whole * denominator - numerator) < denominator,
            -denominator <= 2 * (found * denominator - numerator) <= denominator,
    {
        assert(-2 * denominator < 2 * ((found - whole) * denominator) < 2 * denominator);
        assert(-1 < found - whole < 1);
    }
}

/// A quotient within a half of an even number rounds to that number or more.
pub proof fn nearest_even_reaches(numerator: int, denominator: int, whole: int)
    requires
        denominator > 0,
        whole % 2 == 0,
        2 * numerator >= 2 * (whole * denominator) - denominator,
    ensures
        nearest_even(numerator, denominator) >= whole,
{
    let quotient = numerator / denominator;
    let rest = numerator % denominator;
    lemma_fundamental_div_mod(numerator, denominator);
    assert(quotient >= whole - 1) by (nonlinear_arith)
        requires
            numerator == denominator * quotient + rest,
            0 <= rest < denominator,
            2 * numerator >= 2 * (whole * denominator) - denominator,
    ;
    if quotient == whole - 1 {
        assert(2 * rest >= denominator) by (nonlinear_arith)
            requires
                numerator == denominator * quotient + rest,
                quotient == whole - 1,
                2 * numerator >= 2 * (whole * denominator) - denominator,
        ;
    }
}

/// How close the nearest whole number is.
pub proof fn nearest_bounds(numerator: int, denominator: int)
    requires
        denominator > 0,
    ensures
        ({
            let whole = nearest(numerator, denominator);
            2 * (whole * denominator) <= 2 * numerator + denominator < 2 * (whole * denominator)
                + 2 * denominator
        }),
{
    let whole = nearest(numerator, denominator);
    lemma_fundamental_div_mod(2 * numerator + denominator, 2 * denominator);
    assert((2 * denominator) * whole == 2 * (whole * denominator)) by (nonlinear_arith);
}

/// A larger quotient never rounds to a smaller number.
pub proof fn nearest_is_monotonic(low: int, high: int, denominator: int)
    requires
        denominator > 0,
        low <= high,
    ensures
        nearest(low, denominator) <= nearest(high, denominator),
{
    vstd::arithmetic::div_mod::lemma_div_is_ordered(
        2 * low + denominator,
        2 * high + denominator,
        2 * denominator,
    );
}

/// A whole multiple rounds to itself.
pub proof fn nearest_of_multiple(whole: int, denominator: int)
    requires
        denominator > 0,
    ensures
        nearest(whole * denominator, denominator) == whole,
{
    nearest_is(whole * denominator, denominator, whole);
}

/// The whole square root of a number.
pub open spec fn is_root(root: int, square: int) -> bool {
    root >= 0 && root * root <= square < (root + 1) * (root + 1)
}

/// The whole square root of a number.
pub open spec fn root_of(square: int) -> int {
    choose|root: int| is_root(root, square)
}

/// A number has only one whole square root.
pub proof fn root_is_unique(left: int, right: int, square: int)
    requires
        is_root(left, square),
        is_root(right, square),
    ensures
        left == right,
{
    assert(left == right) by (nonlinear_arith)
        requires
            left >= 0,
            right >= 0,
            left * left <= square < (left + 1) * (left + 1),
            right * right <= square < (right + 1) * (right + 1),
    ;
}

/// The whole square root of a number.
pub fn square_root(square: u128) -> (root: u128)
    requires
        square < 0x1_0000_0000_0000_0000_0000_0000_0000,
    ensures
        root == root_of(square as int),
        is_root(root as int, square as int),
        root <= 0x200_0000_0000_0000,
{
    // Double until the root is bracketed, then halve the bracket.
    let mut high: u128 = 1;
    while high * high <= square
        invariant
            square < 0x1_0000_0000_0000_0000_0000_0000_0000,
            1 <= high <= 0x200_0000_0000_0000,
            high * high <= 0x4_0000_0000_0000_0000_0000_0000_0000,
        decreases 0x200_0000_0000_0000 - high,
    {
        assert(high < 0x100_0000_0000_0000) by (nonlinear_arith)
            requires
                0 <= high,
                high * high < 0x1_0000_0000_0000_0000_0000_0000_0000,
        ;
        high = high * 2;
        assert(high * high <= 0x4_0000_0000_0000_0000_0000_0000_0000) by (nonlinear_arith)
            requires
                0 <= high <= 0x200_0000_0000_0000,
        ;
    }
    let mut low: u128 = 0;
    while high - low > 1
        invariant
            low < high <= 0x200_0000_0000_0000,
            low * low <= square < high * high,
        decreases high - low,
    {
        let middle: u128 = low + (high - low) / 2;
        assert(middle * middle <= 0x4_0000_0000_0000_0000_0000_0000_0000) by (nonlinear_arith)
            requires
                0 <= middle <= 0x200_0000_0000_0000,
        ;
        if middle * middle <= square {
            low = middle;
        } else {
            high = middle;
        }
    }
    proof {
        assert(is_root(low as int, square as int));
        root_is_unique(low as int, root_of(square as int), square as int);
    }
    low
}

/// Two to the power of a small exponent.
pub fn power_of_two(exponent: u32) -> (power: u64)
    requires
        exponent < 64,
    ensures
        power == pow2(exponent as nat),
        power >= 1,
{
    let mut power: u64 = 1;
    proof {
        vstd::arithmetic::power2::lemma2_to64();
        vstd::arithmetic::power2::lemma2_to64_rest();
    }
    for i in 0..exponent
        invariant
            exponent < 64,
            power == pow2(i as nat),
            power >= 1,
    {
        proof {
            lemma_pow2_unfold((i + 1) as nat);
            power_is_small((i + 1) as nat);
        }
        power = power * 2;
    }
    power
}

/// Powers below the sixty-fourth fit in sixty-four bits.
pub proof fn power_is_small(exponent: nat)
    requires
        exponent < 64,
    ensures
        1 <= pow2(exponent) <= 0x8000_0000_0000_0000,
{
    vstd::arithmetic::power2::lemma2_to64();
    vstd::arithmetic::power2::lemma2_to64_rest();
    if exponent < 63 {
        vstd::arithmetic::power2::lemma_pow2_strictly_increases(exponent, 63);
    }
    vstd::arithmetic::power2::lemma_pow2_pos(exponent);
}

} // verus!
