//! Learning a logo from a recording.
//!
//! # Why flat frames
//!
//! Fitting `background = a * observed + b` per pixel needs, for each pixel,
//! pairs of (what was observed, what the background actually was). The
//! background is exactly what a recording does not tell us, except in frames
//! where the area around the logo happens to be a single flat colour. A fade
//! to black, a title card, a shot of clear sky: in those, the background under
//! the logo is confidently the same colour as the border around it.
//!
//! So the scanner samples the border of the logo rectangle, rejects the frame
//! unless that border is uniform, and otherwise takes the border's colour as
//! the background for every pixel inside. Over a half-hour programme there are
//! usually thousands of such frames, at a spread of brightnesses, and a
//! spread is essential, because two points on a line are what make the slope
//! and the intercept separately identifiable.

use vstd::prelude::*;
use vstd::arithmetic::div_mod::lemma_fundamental_div_mod;
use crate::analyze::logo::model::LogoData;
use crate::analyze::logo::model::LogoView;
use crate::analyze::logo::model::Rect;
use crate::analyze::logo::single::from_fine;
use crate::analyze::logo::single::single_of;
use crate::analyze::logo::single::FINE;
use crate::analyze::logo::single::WRITTEN_LIMIT;
use crate::arith::floor_quotient;
use crate::arith::nearest;
use crate::arith::nearest_is;
use crate::media::frames::luma_at;
use crate::media::frames::offset_of;
use crate::media::frames::offsets_fit;
use crate::media::frames::pixel_offset;
use crate::media::frames::Frame;
use crate::order::sort;
use crate::order::sorted;
use crate::text::text_of;

verus! {

/// How much the border of the logo rectangle may vary and still count as flat.
///
/// In 8-bit luma. Broadcast is compressed, so a genuinely flat area still
/// shows a few levels of ringing and mosquito noise; demanding true uniformity
/// would reject every real frame.
pub const DEFAULT_FLATNESS_THRESHOLD: u8 = 12;

/// Fewest accepted frames before a fit is attempted.
pub const MINIMUM_FRAMES: u32 = 50;

/// Fewest distinct background levels before a fit is attempted.
///
/// Every accepted frame having the same background (a programme that only
/// ever fades to black) leaves the slope and intercept indistinguishable, and
/// the regression degenerates. Requiring a spread catches that.
pub const MINIMUM_BACKGROUND_SPREAD: u8 = 24;

/// Running per-pixel regression accumulators.
///
/// `f` is the foreground, i.e. what was observed with the logo on it; `b` is
/// the background the flat border implied. These are the five running sums a
/// least-squares fit consumes, in levels of brightness.
#[derive(Debug, Clone, Copy, PartialEq, Eq, Structural)]
pub struct PixelStats {
    /// Sum of the foregrounds.
    pub sum_f: u64,
    /// Sum of the backgrounds.
    pub sum_b: u64,
    /// Sum of the squared foregrounds.
    pub sum_f2: u64,
    /// Sum of the squared backgrounds.
    pub sum_b2: u64,
    /// Sum of the products.
    pub sum_fb: u64,
}

impl PixelStats {
    /// No observations.
    pub open spec fn none() -> PixelStats {
        PixelStats { sum_f: 0, sum_b: 0, sum_f2: 0, sum_b2: 0, sum_fb: 0 }
    }

    /// One more observation.
    pub open spec fn plus(self, foreground: u8, background: u8) -> PixelStats {
        PixelStats {
            sum_f: (self.sum_f + foreground) as u64,
            sum_b: (self.sum_b + background) as u64,
            sum_f2: (self.sum_f2 + foreground * foreground) as u64,
            sum_b2: (self.sum_b2 + background * background) as u64,
            sum_fb: (self.sum_fb + foreground * background) as u64,
        }
    }

    /// The sums are those of at most this many observations.
    pub open spec fn at_most(self, count: int) -> bool {
        &&& self.sum_f <= count * 255
        &&& self.sum_b <= count * 255
        &&& self.sum_f2 <= count * 65_025
        &&& self.sum_b2 <= count * 65_025
        &&& self.sum_fb <= count * 65_025
    }

    fn add(&mut self, foreground: u8, background: u8, Ghost(count): Ghost<int>)
        requires
            old(self).at_most(count),
            0 <= count < u32::MAX,
        ensures
            *final(self) == old(self).plus(foreground, background),
            final(self).at_most(count + 1),
    {
        let (f, b): (u64, u64) = (foreground as u64, background as u64);
        proof {
            product_of_levels(foreground, foreground);
            product_of_levels(background, background);
            product_of_levels(foreground, background);
        }
        self.sum_f = self.sum_f + f;
        self.sum_b = self.sum_b + b;
        self.sum_f2 = self.sum_f2 + f * f;
        self.sum_b2 = self.sum_b2 + b * b;
        self.sum_fb = self.sum_fb + f * b;
    }
}

proof fn product_of_levels(x: u8, y: u8)
    ensures
        0 <= x * y <= 65_025,
{
    assert(0 <= x * y <= 65_025) by (nonlinear_arith)
        requires
            0 <= x <= 255,
            0 <= y <= 255,
    ;
}

/// A line through points, as exact ratios: slope `rise / run`, intercept
/// `offset / run`.
#[derive(Debug, Clone, Copy, PartialEq, Eq, Structural)]
pub struct Line {
    /// Numerator of the slope.
    pub rise: i128,
    /// Numerator of the intercept.
    pub offset: i128,
    /// Denominator of both, never zero.
    pub run: i128,
}

/// The most points a fit accepts.
pub const COUNT_LIMIT: i128 = 0x1_0000_0000;

/// The largest sum of levels a fit accepts.
pub const SUM_LIMIT: i128 = 0x100_0000_0000;

/// The largest sum of products of levels a fit accepts.
pub const PRODUCT_LIMIT: i128 = 0x1_0000_0000_0000;

/// The least-squares line through `n` points, from the usual sums; none when
/// every `x` is the same.
pub open spec fn least_squares(
    n: int,
    sum_x: int,
    sum_y: int,
    sum_squares: int,
    sum_products: int,
) -> Option<Line> {
    let run = n * sum_squares - sum_x * sum_x;
    if run == 0 {
        None
    } else {
        Some(
            Line {
                rise: (n * sum_products - sum_x * sum_y) as i128,
                offset: (sum_squares * sum_y - sum_x * sum_products) as i128,
                run: run as i128,
            },
        )
    }
}

/// No slope's numerator or denominator lies further from zero than this.
pub const LINE_LIMIT: i128 = 0x1_0000_0000_0000_0000_0000;

/// No intercept's numerator lies further from zero than this.
pub const OFFSET_LIMIT: i128 = 0x100_0000_0000_0000_0000_0000;

impl Line {
    /// Every part is within the limit, and there is something to divide by.
    pub open spec fn wf(self) -> bool {
        &&& -LINE_LIMIT <= self.rise <= LINE_LIMIT
        &&& -OFFSET_LIMIT <= self.offset <= OFFSET_LIMIT
        &&& -LINE_LIMIT <= self.run <= LINE_LIMIT
        &&& self.run != 0
    }
}

/// Least-squares line through `n` points, given the usual sums.
///
/// Returns the line `y = slope * x + intercept`, or `None` when the points are
/// degenerate: all identical `x`, in practice.
pub fn fit_line(
    n: i128,
    sum_x: i128,
    sum_y: i128,
    sum_squares: i128,
    sum_products: i128,
) -> (line: Option<Line>)
    requires
        0 <= n <= COUNT_LIMIT,
        0 <= sum_x <= SUM_LIMIT,
        0 <= sum_y <= SUM_LIMIT,
        0 <= sum_squares <= PRODUCT_LIMIT,
        0 <= sum_products <= PRODUCT_LIMIT,
    ensures
        line == least_squares(
            n as int,
            sum_x as int,
            sum_y as int,
            sum_squares as int,
            sum_products as int,
        ),
        line matches Some(line) ==> line.wf(),
{
    proof {
        product_is_limited(n, COUNT_LIMIT, sum_squares, PRODUCT_LIMIT);
        product_is_limited(sum_x, SUM_LIMIT, sum_x, SUM_LIMIT);
        product_is_limited(n, COUNT_LIMIT, sum_products, PRODUCT_LIMIT);
        product_is_limited(sum_x, SUM_LIMIT, sum_y, SUM_LIMIT);
        product_is_limited(sum_squares, PRODUCT_LIMIT, sum_y, SUM_LIMIT);
        product_is_limited(sum_x, SUM_LIMIT, sum_products, PRODUCT_LIMIT);
    }
    let run: i128 = n * sum_squares - sum_x * sum_x;
    if run == 0 {
        return None;
    }
    Some(
        Line {
            rise: n * sum_products - sum_x * sum_y,
            offset: sum_squares * sum_y - sum_x * sum_products,
            run,
        },
    )
}

pub(crate) proof fn product_is_limited(x: i128, x_limit: i128, y: i128, y_limit: i128)
    requires
        0 <= x <= x_limit,
        0 <= y <= y_limit,
    ensures
        0 <= x * y <= x_limit * y_limit,
{
    assert(0 <= x * y <= x_limit * y_limit) by (nonlinear_arith)
        requires
            0 <= x <= x_limit,
            0 <= y <= y_limit,
    ;
}

/// A ratio in the units a coefficient is fitted in, to the nearest, whichever
/// way its sign is written.
pub open spec fn ratio(numerator: int, denominator: int) -> int {
    if denominator > 0 {
        nearest(FINE * numerator, denominator)
    } else {
        nearest(-FINE * numerator, -denominator)
    }
}

/// No ratio is larger than this.
pub const RATIO_LIMIT: i128 = 0x1_0200_0000_0000_0000_0000;

/// A ratio, by long division: the numerator itself may be too large to be
/// scaled up at once.
fn ratio_of(numerator: i128, denominator: i128) -> (value: i128)
    requires
        -RATIO_LIMIT * 255 <= numerator <= RATIO_LIMIT * 255,
        -255 * LINE_LIMIT <= denominator <= 255 * LINE_LIMIT,
        denominator != 0,
        -RATIO_LIMIT <= numerator <= RATIO_LIMIT || denominator >= 255 || denominator <= -255,
    ensures
        value == ratio(numerator as int, denominator as int),
        -WRITTEN_LIMIT <= 2 * value <= WRITTEN_LIMIT,
{
    let (top, bottom): (i128, i128) = if denominator > 0 {
        (numerator, denominator)
    } else {
        (-numerator, -denominator)
    };
    let whole: i128 = floor_quotient(top, bottom);
    proof {
        lemma_fundamental_div_mod(top as int, bottom as int);
        assert(bottom * whole == whole * bottom) by (nonlinear_arith);
        assert(-RATIO_LIMIT - 1 <= whole <= RATIO_LIMIT && whole * bottom <= top) by (nonlinear_arith)
            requires
                bottom >= 1,
                -RATIO_LIMIT * 255 <= top <= RATIO_LIMIT * 255,
                -RATIO_LIMIT <= top <= RATIO_LIMIT || bottom >= 255,
                whole * bottom <= top < whole * bottom + bottom,
        ;
    }
    let rest: i128 = top - whole * bottom;
    let first: i128 = rest * 0x40_0000 / bottom;
    let middle: i128 = rest * 0x40_0000 % bottom;
    let second: i128 = middle * 0x40_0000 / bottom;
    let last: i128 = middle * 0x40_0000 % bottom;
    proof {
        digits_are_small(rest as int, bottom as int);
        digits_are_small(middle as int, bottom as int);
    }
    let value: i128 = whole * 0x1000_0000_0000 + first * 0x40_0000 + second + if 2 * last
        >= bottom {
        1
    } else {
        0
    };
    proof {
        lemma_fundamental_div_mod(rest * 0x40_0000, bottom as int);
        lemma_fundamental_div_mod(middle * 0x40_0000, bottom as int);
        long_division(
            top as int,
            bottom as int,
            whole as int,
            first as int,
            middle as int,
            second as int,
            last as int,
            value as int,
        );
    }
    value
}

proof fn digits_are_small(rest: int, bottom: int)
    requires
        0 <= rest < bottom,
    ensures
        0 <= rest * 0x40_0000 / bottom < 0x40_0000,
        0 <= rest * 0x40_0000 % bottom < bottom,
{
    lemma_fundamental_div_mod(rest * 0x40_0000, bottom);
    let digit = rest * 0x40_0000 / bottom;
    assert(0 <= digit < 0x40_0000) by (nonlinear_arith)
        requires
            rest * 0x40_0000 == bottom * digit + rest * 0x40_0000 % bottom,
            0 <= rest * 0x40_0000 % bottom < bottom,
            0 <= rest < bottom,
    ;
}

/// Two digits of twenty-two bits each, and the rounding of the last.
proof fn long_division(
    top: int,
    bottom: int,
    whole: int,
    first: int,
    middle: int,
    second: int,
    last: int,
    value: int,
)
    requires
        bottom > 0,
        (top - whole * bottom) * 0x40_0000 == bottom * first + middle,
        middle * 0x40_0000 == bottom * second + last,
        0 <= last < bottom,
        value == whole * 0x1000_0000_0000 + first * 0x40_0000 + second + if 2 * last >= bottom {
            1int
        } else {
            0
        },
    ensures
        value == nearest(FINE * top, bottom),
{
    let down = whole * 0x1000_0000_0000 + first * 0x40_0000 + second;
    assert(FINE * top == down * bottom + last) by (nonlinear_arith)
        requires
            FINE == 0x40_0000 * 0x40_0000,
            (top - whole * bottom) * 0x40_0000 == bottom * first + middle,
            middle * 0x40_0000 == bottom * second + last,
            down == whole * 0x1000_0000_0000 + first * 0x40_0000 + second,
    ;
    assert((down + 1) * bottom == down * bottom + bottom) by (nonlinear_arith);
    nearest_is(FINE * top, bottom, value);
}

/// The slope and intercept of a pixel, in fitted units, from the fits in both
/// directions.
///
/// Averaging the two is far steadier than either alone when the noise is
/// comparable on both axes, as it is here, since both values come from the
/// same compressed frame. One direction failing is normal for a pixel the
/// logo does not cover; the other still describes it. With neither there is
/// no logo here.
pub open spec fn blended(forward: Option<Line>, reverse: Option<Line>) -> (int, int) {
    match (forward, reverse) {
        (Some(one), Some(two)) if two.steep() => (
            (ratio(one.rise as int, one.run as int) + ratio(two.run as int, two.rise as int)) / 2,
            (ratio(one.offset as int, 255 * one.run) + ratio(
                -(two.offset as int),
                255 * two.rise,
            )) / 2,
        ),
        (Some(only), _) | (None, Some(only)) => (
            ratio(only.rise as int, only.run as int),
            ratio(only.offset as int, 255 * only.run),
        ),
        (None, None) => (FINE as int, 0),
    }
}

impl Line {
    /// The slope is not vanishingly small: over a billionth.
    pub open spec fn steep(self) -> bool {
        let rise = if self.rise < 0 { -self.rise } else { self.rise as int };
        let run = if self.run < 0 { -self.run } else { self.run as int };
        rise * 1_000_000_000 > run
    }

    fn is_steep(&self) -> (steep: bool)
        requires
            self.wf(),
        ensures
            steep == self.steep(),
            steep ==> self.rise != 0,
    {
        let rise: i128 = if self.rise < 0 { -self.rise } else { self.rise };
        let run: i128 = if self.run < 0 { -self.run } else { self.run };
        rise * 1_000_000_000 > run
    }
}

impl PixelStats {
    /// The line from foreground to background.
    pub open spec fn forward(self, n: int) -> Option<Line> {
        least_squares(
            n,
            self.sum_f as int,
            self.sum_b as int,
            self.sum_f2 as int,
            self.sum_fb as int,
        )
    }

    /// The line from background to foreground.
    pub open spec fn reverse(self, n: int) -> Option<Line> {
        least_squares(
            n,
            self.sum_b as int,
            self.sum_f as int,
            self.sum_b2 as int,
            self.sum_fb as int,
        )
    }

    /// The coefficients of this pixel, in fitted units.
    pub open spec fn fitted(self, n: int) -> (int, int) {
        blended(self.forward(n), self.reverse(n))
    }

    /// Solve one pixel.
    fn solve(&self, n: u32) -> (coefficients: (i128, i128))
        requires
            self.at_most(n as int),
        ensures
            coefficients.0 == self.fitted(n as int).0,
            coefficients.1 == self.fitted(n as int).1,
            -WRITTEN_LIMIT <= coefficients.0 <= WRITTEN_LIMIT,
            -WRITTEN_LIMIT <= coefficients.1 <= WRITTEN_LIMIT,
    {
        let count: i128 = n as i128;
        let forward = fit_line(
            count,
            self.sum_f as i128,
            self.sum_b as i128,
            self.sum_f2 as i128,
            self.sum_fb as i128,
        );
        let reverse = fit_line(
            count,
            self.sum_b as i128,
            self.sum_f as i128,
            self.sum_b2 as i128,
            self.sum_fb as i128,
        );
        match (forward, reverse) {
            (Some(one), Some(two)) => {
                if two.is_steep() {
                    let slopes: i128 = ratio_of(one.rise, one.run) + ratio_of(two.run, two.rise);
                    let intercepts: i128 = ratio_of(one.offset, 255 * one.run) + ratio_of(
                        -two.offset,
                        255 * two.rise,
                    );
                    (
                        floor_quotient(slopes, 2),
                        floor_quotient(intercepts, 2),
                    )
                } else {
                    (ratio_of(one.rise, one.run), ratio_of(one.offset, 255 * one.run))
                }
            },
            (Some(only), None) => (
                ratio_of(only.rise, only.run),
                ratio_of(only.offset, 255 * only.run),
            ),
            (None, Some(only)) => (
                ratio_of(only.rise, only.run),
                ratio_of(only.offset, 255 * only.run),
            ),
            (None, None) => (FINE, 0),
        }
    }
}

/// The pixels along the border of a rectangle: the top and bottom edges
/// column by column, then the left and right edges between them row by row.
pub open spec fn border_pixels(frame: Frame, rect: Rect) -> Seq<Option<u8>> {
    let right = rect.x + rect.width - 1;
    let bottom = rect.y + rect.height - 1;
    Seq::new(
        (2 * rect.width) as nat,
        |i: int|
            frame.spec_pixel(
                rect.x + i / 2,
                if i % 2 == 0 {
                    rect.y as int
                } else {
                    bottom
                },
            ),
    ) + Seq::new(
        (if rect.height > 2 { 2 * (rect.height - 2) } else { 0 }) as nat,
        |i: int|
            frame.spec_pixel(
                if i % 2 == 0 {
                    rect.x as int
                } else {
                    right
                },
                rect.y + 1 + i / 2,
            ),
    )
}

/// Every pixel of the border is there.
pub open spec fn all_there(pixels: Seq<Option<u8>>) -> bool {
    forall|i: int| 0 <= i < pixels.len() ==> (#[trigger] pixels[i]) is Some
}

/// The brightnesses along a border.
pub open spec fn brightnesses(pixels: Seq<Option<u8>>) -> Seq<i128> {
    pixels.map_values(|pixel: Option<u8>| pixel->Some_0 as i128)
}

/// Where in a sorted list of this length a percentage of the way through
/// lies, to the nearest.
pub open spec fn percentile_index(len: int, percent: int) -> int {
    ((len - 1) * percent + 50) / 100
}

/// The sum of part of a list.
pub open spec fn sum_of(values: Seq<u8>, from: int, to: int) -> int
    decreases to - from,
{
    if to <= from {
        0
    } else {
        sum_of(values, from, to - 1) + values[to - 1]
    }
}

/// The mean of the middle half of a sorted list, to the nearest.
pub open spec fn middle_mean(ascending: Seq<u8>) -> int {
    let skip = ascending.len() as int / 4;
    let count = ascending.len() - 2 * skip;
    if ascending.len() == 0 {
        0
    } else {
        (sum_of(ascending, skip, ascending.len() - skip) + count / 2) / count
    }
}

/// Value at a percentage of the way through a sorted slice.
fn percentile(ascending: &[u8], percent: usize) -> (value: u8)
    requires
        0 < ascending@.len(),
        percent <= 100,
    ensures
        value == ascending@[percentile_index(ascending@.len() as int, percent as int)],
        0 <= percentile_index(ascending@.len() as int, percent as int) < ascending@.len(),
{
    let last: u128 = (ascending.len() - 1) as u128;
    assert(0 <= last * percent <= last * 100) by (nonlinear_arith)
        requires
            0 <= percent <= 100,
            0 <= last,
    ;
    let index: u128 = (last * percent as u128 + 50) / 100;
    assert(index <= last);
    ascending[index as usize]
}

/// Mean of the middle half of a sorted slice of brightnesses.
///
/// Trimming the quartiles discards the ringing at the extremes of a
/// compressed flat area without the instability of a bare median.
#[must_use]
pub fn interquartile_mean(ascending: &[u8]) -> (mean: u8)
    ensures
        mean == middle_mean(ascending@),
{
    let n: usize = ascending.len();
    if n == 0 {
        return 0;
    }
    let skip: usize = n / 4;
    let mut total: u128 = 0;
    for i in skip..n - skip
        invariant
            n == ascending@.len(),
            skip == n / 4,
            total == sum_of(ascending@, skip as int, i as int),
            total <= (i - skip) * 255,
    {
        total += ascending[i] as u128;
    }
    let count: u128 = (n - 2 * skip) as u128;
    // Round to nearest rather than flooring: a consistent half-level bias in
    // the background estimate shifts the fitted intercept for every pixel.
    assert((total + count / 2) / count as int <= 255) by (nonlinear_arith)
        requires
            0 <= total <= count * 255,
            count > 0,
    ;
    ((total + count / 2) / count) as u8
}

/// The background colour implied by a rectangle's border, if the border is
/// flat enough to imply one.
///
/// A border judged strictly must run end to end within the threshold. One
/// judged tolerantly is measured between its tenth and ninetieth percentiles:
/// a rectangle found automatically crosses a lot of picture, and one bright
/// intruder must not reject an otherwise flat frame.
pub open spec fn background_of(
    frame: Frame,
    rect: Rect,
    threshold: u8,
    strict: bool,
) -> Option<u8> {
    let pixels = border_pixels(frame, rect);
    if !rect.valid() || !rect.fits(frame.width as int, frame.height as int) || !all_there(pixels) {
        None
    } else {
        let ascending = sorted(brightnesses(pixels)).map_values(|value: i128| value as u8);
        let (low, high) = if strict {
            (ascending[0], ascending.last())
        } else {
            (
                ascending[percentile_index(ascending.len() as int, 10)],
                ascending[percentile_index(ascending.len() as int, 90)],
            )
        };
        if high - low > threshold {
            None
        } else {
            Some(middle_mean(ascending) as u8)
        }
    }
}

/// Sort a list of brightnesses.
fn sort_levels(levels: &[i128]) -> (ascending: Vec<u8>)
    requires
        forall|i: int| 0 <= i < levels@.len() ==> 0 <= #[trigger] levels@[i] <= 255,
    ensures
        ascending@ == sorted(levels@).map_values(|value: i128| value as u8),
        ascending@.len() == levels@.len(),
        forall|i: int, j: int|
            0 <= i <= j < ascending@.len() ==> #[trigger] ascending@[i] <= #[trigger] ascending@[j],
{
    let wide = sort(levels);
    let mut ascending: Vec<u8> = Vec::new();
    for i in 0..wide.len()
        invariant
            ascending@ =~= wide@.map_values(|value: i128| value as u8).take(i as int),
    {
        ascending.push(wide[i] as u8);
    }
    assert(ascending@ =~= wide@.map_values(|value: i128| value as u8));
    assert forall|i: int| 0 <= i < wide@.len() implies 0 <= #[trigger] wide@[i] <= 255 by {
        assert(levels@.contains(wide@[i]));
    }
    assert forall|i: int, j: int| 0 <= i <= j < ascending@.len() implies #[trigger] ascending@[i]
        <= #[trigger] ascending@[j] by {
        assert(wide@[i] <= wide@[j]);
        assert(0 <= wide@[i] && wide@[j] <= 255);
    }
    ascending
}

/// The background colour implied by a rectangle's border, or `None` when the
/// border is not flat enough to imply one.
pub fn flat_background(
    frame: &Frame<'_>,
    rect: Rect,
    threshold: u8,
    strict: bool,
) -> (background: Option<u8>)
    ensures
        background == background_of(*frame, rect, threshold, strict),
{
    // A degenerate rectangle has no border to walk, and it can reach here
    // from a hand-written configuration.
    if !rect.is_valid() || !rect.fits_within(frame.width, frame.height) {
        return None;
    }
    let ghost pixels = border_pixels(*frame, rect);
    let (left, top): (u32, u32) = (rect.x, rect.y);
    let right: u32 = rect.x + (rect.width - 1);
    let bottom: u32 = rect.y + (rect.height - 1);
    let mut border: Vec<i128> = Vec::new();
    for step in 0..rect.width
        invariant
            rect.valid(),
            left == rect.x,
            top == rect.y,
            bottom == rect.y + rect.height - 1,
            pixels == border_pixels(*frame, rect),
            rect.valid() && rect.fits(frame.width as int, frame.height as int),
            border@ =~= brightnesses(pixels).take(2 * step),
            all_there(pixels.take(2 * step)),
            forall|i: int| 0 <= i < border@.len() ==> 0 <= #[trigger] border@[i] <= 255,
    {
        let x: u32 = left + step;
        assert(pixels[2 * step] == frame.spec_pixel(x as int, top as int));
        assert(pixels[2 * step + 1] == frame.spec_pixel(x as int, bottom as int));
        match (frame.pixel(x, top), frame.pixel(x, bottom)) {
            (Some(above), Some(below)) => {
                border.push(above as i128);
                border.push(below as i128);
            },
            _ => {
                assert(!all_there(pixels));
                return None;
            },
        }
        assert forall|i: int| 0 <= i < 2 * (step + 1) implies (#[trigger] pixels.take(
            2 * (step + 1),
        )[i]) is Some by {
            if i < 2 * step {
                assert(pixels.take(2 * step)[i] is Some);
            }
        }
    }
    // The corners are already covered by the horizontal runs.
    let ghost across = 2 * rect.width as int;
    let inner: u32 = if rect.height > 2 { rect.height - 2 } else { 0 };
    for step in 0..inner
        invariant
            rect.valid(),
            left == rect.x,
            top == rect.y,
            right == rect.x + rect.width - 1,
            across == 2 * rect.width,
            inner == (if rect.height > 2 { rect.height - 2 } else { 0 }),
            pixels == border_pixels(*frame, rect),
            rect.valid() && rect.fits(frame.width as int, frame.height as int),
            border@ =~= brightnesses(pixels).take(across + 2 * step),
            all_there(pixels.take(across + 2 * step)),
            forall|i: int| 0 <= i < border@.len() ==> 0 <= #[trigger] border@[i] <= 255,
    {
        let y: u32 = top + 1 + step;
        assert(pixels[across + 2 * step] == frame.spec_pixel(left as int, y as int));
        assert(pixels[across + 2 * step + 1] == frame.spec_pixel(right as int, y as int));
        match (frame.pixel(left, y), frame.pixel(right, y)) {
            (Some(before), Some(after)) => {
                border.push(before as i128);
                border.push(after as i128);
            },
            _ => {
                assert(!all_there(pixels));
                return None;
            },
        }
        assert forall|i: int| 0 <= i < across + 2 * (step + 1) implies (#[trigger] pixels.take(
            across + 2 * (step + 1),
        )[i]) is Some by {
            if i < across + 2 * step {
                assert(pixels.take(across + 2 * step)[i] is Some);
            }
        }
    }
    assert(pixels.take(across + 2 * inner) =~= pixels);
    assert(border@ =~= brightnesses(pixels));
    let ascending = sort_levels(&border);
    let (low, high): (u8, u8) = if strict {
        (ascending[0], ascending[ascending.len() - 1])
    } else {
        (percentile(&ascending, 10), percentile(&ascending, 90))
    };
    if high > low && high - low > threshold {
        return None;
    }
    Some(interquartile_mean(&ascending))
}

/// What a frame shows at one pixel of a rectangle, counting its pixels row by
/// row.
pub open spec fn seen_in(frame: Frame, rect: Rect, index: int) -> Option<u8> {
    luma_at(
        frame.luma@,
        offset_of(
            rect.x + index % (rect.width as int),
            rect.y + index / (rect.width as int),
            frame.width as int,
        ),
    )
}

/// Accumulates the statistics a logo fit needs.
#[derive(Debug)]
pub struct LogoScanner {
    rect: Rect,
    flatness_threshold: u8,
    stats: Vec<PixelStats>,
    frames: u32,
    /// Range of background levels seen, to check the fit is identifiable.
    darkest_background: u8,
    brightest_background: u8,
    /// Whether the border must be flat end to end, or merely mostly flat.
    strict: bool,
}

/// What a scanner has gathered.
#[verifier::ext_equal]
pub ghost struct Gathered {
    /// The rectangle being scanned.
    pub rect: Rect,
    /// How flat a border must be.
    pub threshold: u8,
    /// Whether it is judged end to end.
    pub strict: bool,
    /// The sums for each pixel, row-major.
    pub stats: Seq<PixelStats>,
    /// How many frames were accepted.
    pub frames: u32,
    /// The darkest background among them.
    pub darkest: u8,
    /// The brightest background among them.
    pub brightest: u8,
}

impl Gathered {
    /// One entry per pixel, none with more observations than frames.
    pub open spec fn wf(self) -> bool {
        &&& self.stats.len() == self.rect.spec_area()
        &&& forall|i: int|
            0 <= i < self.stats.len() ==> (#[trigger] self.stats[i]).at_most(self.frames as int)
    }

    /// What is gathered once a frame has been accepted with this background.
    pub open spec fn with(self, frame: Frame, background: u8) -> Gathered {
        Gathered {
            stats: Seq::new(
                self.stats.len(),
                |i: int|
                    match seen_in(frame, self.rect, i) {
                        Some(observed) => self.stats[i].plus(observed, background),
                        None => self.stats[i],
                    },
            ),
            frames: (self.frames + 1) as u32,
            darkest: if background < self.darkest { background } else { self.darkest },
            brightest: if background > self.brightest { background } else { self.brightest },
            ..self
        }
    }

    /// The range of backgrounds seen.
    pub open spec fn spread(self) -> int {
        if self.brightest > self.darkest {
            self.brightest - self.darkest
        } else {
            0
        }
    }

    /// The fit, with anything unphysical scrubbed.
    pub open spec fn fitted(
        self,
        name: Seq<char>,
        channel_id: Option<Seq<char>>,
        frame_size: (u32, u32),
    ) -> LogoView {
        LogoView {
            name,
            channel_id,
            source_width: frame_size.0,
            source_height: frame_size.1,
            rect: self.rect,
            a: Seq::new(
                self.stats.len(),
                |i: int| single_of(self.stats[i].fitted(self.frames as int).0),
            ),
            b: Seq::new(
                self.stats.len(),
                |i: int| single_of(self.stats[i].fitted(self.frames as int).1),
            ),
            frames_used: self.frames,
        }.canonical()
    }

    /// The logo learned: none from too few frames, from backgrounds too alike
    /// to identify a line, or, where it matters, from a fit that does not look
    /// like a logo.
    pub open spec fn learned(
        self,
        name: Seq<char>,
        channel_id: Option<Seq<char>>,
        frame_size: (u32, u32),
        require_plausible: bool,
    ) -> Option<LogoView> {
        let logo = self.fitted(name, channel_id, frame_size);
        if self.frames < MINIMUM_FRAMES || self.spread() < MINIMUM_BACKGROUND_SPREAD || (
        require_plausible && !logo.plausible()) {
            None
        } else {
            Some(logo)
        }
    }
}

/// A logo that may be missing, read as what it is.
pub open spec fn logo_view(logo: Option<LogoData>) -> Option<LogoView> {
    match logo {
        Some(logo) => Some(logo@),
        None => None,
    }
}

impl View for LogoScanner {
    type V = Gathered;

    closed spec fn view(&self) -> Gathered {
        Gathered {
            rect: self.rect,
            threshold: self.flatness_threshold,
            strict: self.strict,
            stats: self.stats@,
            frames: self.frames,
            darkest: self.darkest_background,
            brightest: self.brightest_background,
        }
    }
}

impl LogoScanner {
    /// Nothing gathered yet.
    pub open spec fn fresh(rect: Rect, threshold: u8, strict: bool) -> Gathered {
        Gathered {
            rect,
            threshold,
            strict,
            stats: Seq::new(rect.spec_area() as nat, |i: int| PixelStats::none()),
            frames: 0,
            darkest: 255,
            brightest: 0,
        }
    }

    /// Start scanning for a logo in `rect`.
    #[must_use]
    pub fn new(rect: Rect, flatness_threshold: u8) -> (scanner: LogoScanner)
        requires
            rect.spec_area() <= usize::MAX,
        ensures
            scanner@ == LogoScanner::fresh(rect, flatness_threshold, false),
            scanner@.wf(),
    {
        let area: usize = rect.area() as usize;
        let none = PixelStats { sum_f: 0, sum_b: 0, sum_f2: 0, sum_b2: 0, sum_fb: 0 };
        let mut stats: Vec<PixelStats> = Vec::new();
        for i in 0..area
            invariant
                none == PixelStats::none(),
                stats@ =~= Seq::new(i as nat, |i: int| PixelStats::none()),
        {
            stats.push(none);
        }
        LogoScanner {
            rect,
            flatness_threshold,
            stats,
            frames: 0,
            darkest_background: 255,
            brightest_background: 0,
            strict: false,
        }
    }

    /// Start scanning a rectangle somebody drew, judging the border end to end.
    ///
    /// For a box drawn round a logo that is right: the border is a thin ring of
    /// genuine background, and a single stray bright pixel means something has
    /// moved into it.
    ///
    /// The tolerant test exists for the automatic locator, whose rectangle is
    /// the bounding box of everything steady near the logo and can be hundreds
    /// of pixels a side. Applying that tolerance to a hand-drawn box lets
    /// through frames where a fifth of the border is a different colour
    /// entirely, and the background it then infers is a mixture rather than a
    /// colour.
    #[must_use]
    pub fn strict(rect: Rect, flatness_threshold: u8) -> (scanner: LogoScanner)
        requires
            rect.spec_area() <= usize::MAX,
        ensures
            scanner@ == LogoScanner::fresh(rect, flatness_threshold, true),
            scanner@.wf(),
    {
        let mut scanner = LogoScanner::new(rect, flatness_threshold);
        scanner.strict = true;
        scanner
    }

    /// The rectangle being scanned.
    #[must_use]
    pub fn rect(&self) -> (rect: Rect)
        ensures
            rect == self@.rect,
    {
        self.rect
    }

    /// How many frames have been accepted.
    #[must_use]
    pub fn frames_accepted(&self) -> (frames: u32)
        ensures
            frames == self@.frames,
    {
        self.frames
    }

    /// The range of background brightnesses the accepted frames covered.
    ///
    /// The single most useful number when a fit fails. Separating a
    /// translucent logo from what is behind it means watching the background
    /// change underneath it; if every usable frame had the same background,
    /// there is one point and no line, and no amount of extra frames helps.
    #[must_use]
    pub fn background_spread(&self) -> (spread: u8)
        ensures
            spread == self@.spread(),
    {
        if self.brightest_background > self.darkest_background {
            self.brightest_background - self.darkest_background
        } else {
            0
        }
    }

    /// Offer a frame; returns whether its background was flat enough to use.
    pub fn add_frame(&mut self, frame: &Frame<'_>) -> (accepted: bool)
        requires
            old(self)@.wf(),
            old(self)@.frames < u32::MAX,
        ensures
            match background_of(
                *frame,
                old(self)@.rect,
                old(self)@.threshold,
                old(self)@.strict,
            ) {
                Some(background) => accepted && final(self)@ == old(self)@.with(
                    *frame,
                    background,
                ),
                None => !accepted && final(self)@ == old(self)@,
            },
            final(self)@.wf(),
    {
        let background: u8 = match flat_background(
            frame,
            self.rect,
            self.flatness_threshold,
            self.strict,
        ) {
            Some(background) => background,
            None => {
                return false;
            },
        };
        let ghost before = self@;
        let ghost wanted = before.with(*frame, background);
        let (rect, frames): (Rect, u32) = (self.rect, self.frames);
        assert(0 * rect.width as int == 0) by (nonlinear_arith);
        for row in 0..rect.height
            invariant
                rect == before.rect,
                rect.valid(),
                frames == before.frames,
                frames < u32::MAX,
                before.wf(),
                wanted == before.with(*frame, background),
                self@ == (Gathered { stats: self.stats@, ..before }),
                self.stats@.len() == before.stats.len(),
                forall|i: int|
                    0 <= i < before.stats.len() ==> #[trigger] self.stats@[i] == if i < row
                        * rect.width {
                        wanted.stats[i]
                    } else {
                        before.stats[i]
                    },
                forall|i: int|
                    0 <= i < before.stats.len() ==> (#[trigger] wanted.stats[i]).at_most(
                        frames + 1,
                    ) || i >= row * rect.width,
        {
            for column in 0..rect.width
                invariant
                    row < rect.height,
                    rect == before.rect,
                    rect.valid(),
                    frames == before.frames,
                    frames < u32::MAX,
                    before.wf(),
                    wanted == before.with(*frame, background),
                    self@ == (Gathered { stats: self.stats@, ..before }),
                    self.stats@.len() == before.stats.len(),
                    forall|i: int|
                        0 <= i < before.stats.len() ==> #[trigger] self.stats@[i] == if i < row
                            * rect.width + column {
                            wanted.stats[i]
                        } else {
                            before.stats[i]
                        },
                    forall|i: int|
                        0 <= i < before.stats.len() ==> (#[trigger] wanted.stats[i]).at_most(
                            frames + 1,
                        ) || i >= row * rect.width + column,
            {
                let source: u64 = pixel_offset(rect.x + column, rect.y + row, frame.width);
                let target: u64 = pixel_offset(column, row, rect.width);
                proof {
                    offsets_fit(column as int, row as int, rect.width as int, rect.height as int);
                    vstd::arithmetic::div_mod::lemma_fundamental_div_mod_converse(
                        target as int,
                        rect.width as int,
                        row as int,
                        column as int,
                    );
                    assert(before.stats[target as int].at_most(frames as int));
                }
                assert(target < self.stats.len());
                let slot: usize = target as usize;
                if source < frame.luma.len() as u64 {
                    let mut entry = self.stats[slot];
                    entry.add(frame.luma[source as usize], background, Ghost(frames as int));
                    self.stats.set(slot, entry);
                    assert(seen_in(*frame, rect, target as int) == Some(
                        frame.luma@[source as int],
                    ));
                    assert(wanted.stats[target as int] == entry);
                }
            }
            assert((row + 1) * rect.width == row * rect.width + rect.width) by (nonlinear_arith);
        }
        assert(rect.height * rect.width == rect.width * rect.height) by (nonlinear_arith);
        self.frames = frames + 1;
        if background < self.darkest_background {
            self.darkest_background = background;
        }
        if background > self.brightest_background {
            self.brightest_background = background;
        }
        assert(self@.stats =~= wanted.stats);
        assert(self@ =~= wanted);
        true
    }

    /// Solve the accumulated statistics into a logo.
    ///
    /// Returns `None` when too few frames were accepted, when the backgrounds
    /// they carried were too alike to identify a line, or when the resulting
    /// fit does not look like a logo.
    #[must_use]
    pub fn finish(
        &self,
        name: String,
        channel_id: Option<String>,
        frame_size: (u32, u32),
    ) -> (logo: Option<LogoData>)
        requires
            self@.wf(),
        ensures
            logo_view(logo) == self@.learned(name@, text_of(channel_id), frame_size, true),
    {
        self.fit(name, channel_id, frame_size, true)
    }

    /// Solve without insisting the result looks like a real logo.
    ///
    /// A fit taken from every flat frame is diluted by the ones that carried
    /// no logo (the fades inside the commercials) and on a recording with
    /// many of those it can fall below the plausibility bar entirely. It is
    /// still good enough to tell which frames had the logo, which is all the
    /// refinement pass needs it for. The refined fit is held to the full bar.
    #[must_use]
    pub fn finish_bootstrap(
        &self,
        name: String,
        channel_id: Option<String>,
        frame_size: (u32, u32),
    ) -> (logo: Option<LogoData>)
        requires
            self@.wf(),
        ensures
            logo_view(logo) == self@.learned(name@, text_of(channel_id), frame_size, false),
    {
        self.fit(name, channel_id, frame_size, false)
    }

    fn fit(
        &self,
        name: String,
        channel_id: Option<String>,
        frame_size: (u32, u32),
        require_plausible: bool,
    ) -> (logo: Option<LogoData>)
        requires
            self@.wf(),
        ensures
            logo_view(logo) == self@.learned(
                name@,
                text_of(channel_id),
                frame_size,
                require_plausible,
            ),
    {
        if self.frames < MINIMUM_FRAMES || self.background_spread() < MINIMUM_BACKGROUND_SPREAD {
            return None;
        }
        let ghost wanted = self@.fitted(name@, text_of(channel_id), frame_size);
        let mut a: Vec<u32> = Vec::new();
        let mut b: Vec<u32> = Vec::new();
        for i in 0..self.stats.len()
            invariant
                self@.wf(),
                a@ =~= Seq::new(
                    i as nat,
                    |i: int| single_of(self@.stats[i].fitted(self@.frames as int).0),
                ),
                b@ =~= Seq::new(
                    i as nat,
                    |i: int| single_of(self@.stats[i].fitted(self@.frames as int).1),
                ),
        {
            assert(self@.stats[i as int].at_most(self@.frames as int));
            let (slope, intercept): (i128, i128) = self.stats[i].solve(self.frames);
            a.push(from_fine(slope));
            b.push(from_fine(intercept));
        }
        let mut logo = LogoData {
            name,
            channel_id,
            source_width: frame_size.0,
            source_height: frame_size.1,
            rect: self.rect,
            a,
            b,
            frames_used: self.frames,
        };
        // Noise can fit a slope the compositing model cannot produce. Those
        // pixels must be neutralised here rather than at each use, or a
        // negative slope would invert the picture in `remove` and manufacture
        // an edge for the detector to lock onto.
        logo.canonicalise();
        assert(logo@ =~= wanted);
        if require_plausible && !logo.is_plausible() {
            return None;
        }
        Some(logo)
    }
}

/// A learned logo is physical, and consistent wherever its rectangle lies
/// within the frames it was learned from.
pub proof fn learned_logos_are_sound(
    gathered: Gathered,
    name: Seq<char>,
    channel_id: Option<Seq<char>>,
    frame_size: (u32, u32),
)
    requires
        gathered.wf(),
        gathered.rect.valid(),
        gathered.rect.fits(frame_size.0 as int, frame_size.1 as int),
    ensures
        gathered.fitted(name, channel_id, frame_size).consistent(),
        gathered.fitted(name, channel_id, frame_size).physical(),
{
    let raw = LogoView {
        name,
        channel_id,
        source_width: frame_size.0,
        source_height: frame_size.1,
        rect: gathered.rect,
        a: Seq::new(
            gathered.stats.len(),
            |i: int| single_of(gathered.stats[i].fitted(gathered.frames as int).0),
        ),
        b: Seq::new(
            gathered.stats.len(),
            |i: int| single_of(gathered.stats[i].fitted(gathered.frames as int).1),
        ),
        frames_used: gathered.frames,
    };
    assert(gathered.fitted(name, channel_id, frame_size) == raw.canonical());
    crate::analyze::logo::model::canonical_logos_are_physical(raw);
}

/// A least-squares fit recovers a line exactly: when every point satisfies
/// `y = slope * x + intercept`, the sums are those of such points, and the
/// fit's two ratios are the slope and the intercept.
pub proof fn fits_recover_a_line(
    n: int,
    sum_x: int,
    sum_y: int,
    sum_squares: int,
    sum_products: int,
    slope: int,
    intercept: int,
)
    requires
        sum_y == slope * sum_x + intercept * n,
        sum_products == slope * sum_squares + intercept * sum_x,
    ensures
        ({
            let run = n * sum_squares - sum_x * sum_x;
            &&& n * sum_products - sum_x * sum_y == slope * run
            &&& sum_squares * sum_y - sum_x * sum_products == intercept * run
        }),
{
    let run = n * sum_squares - sum_x * sum_x;
    assert(n * sum_products - sum_x * sum_y == slope * run) by (nonlinear_arith)
        requires
            sum_y == slope * sum_x + intercept * n,
            sum_products == slope * sum_squares + intercept * sum_x,
            run == n * sum_squares - sum_x * sum_x,
    ;
    assert(sum_squares * sum_y - sum_x * sum_products == intercept * run) by (nonlinear_arith)
        requires
            sum_y == slope * sum_x + intercept * n,
            sum_products == slope * sum_squares + intercept * sum_x,
            run == n * sum_squares - sum_x * sum_x,
    ;
}

/// A pixel that always showed the background fits as no logo at all: a slope
/// of one and an intercept of nothing.
pub proof fn bare_background_fits_as_no_logo(stats: PixelStats, n: int)
    requires
        stats.sum_f == stats.sum_b,
        stats.sum_f2 == stats.sum_b2,
        stats.sum_f2 == stats.sum_fb,
        stats.at_most(n),
        0 <= n <= u32::MAX,
    ensures
        stats.fitted(n) == (FINE as int, 0int),
{
    let (f, f2) = (stats.sum_f as int, stats.sum_f2 as int);
    let run = n * f2 - f * f;
    assert(0 <= n * f2 <= LINE_LIMIT && 0 <= f * f <= LINE_LIMIT && 0 <= f2 * f <= OFFSET_LIMIT) by {
        product_is_limited(n as i128, COUNT_LIMIT, f2 as i128, PRODUCT_LIMIT);
        product_is_limited(f as i128, SUM_LIMIT, f as i128, SUM_LIMIT);
        product_is_limited(f2 as i128, PRODUCT_LIMIT, f as i128, SUM_LIMIT);
    }
    assert(f2 * f - f * f2 == 0) by (nonlinear_arith);
    if run != 0 {
        let line = Line { rise: run as i128, offset: 0, run: run as i128 };
        assert(stats.forward(n) == Some(line));
        assert(stats.reverse(n) == Some(line));
        assert(line.steep());
        if run > 0 {
            crate::arith::nearest_of_multiple(FINE as int, run);
            crate::arith::nearest_of_multiple(0, 255 * run);
        } else {
            crate::arith::nearest_of_multiple(FINE as int, -run);
            crate::arith::nearest_of_multiple(0, -(255 * run));
        }
    }
}

} // verus!
