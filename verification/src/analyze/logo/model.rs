//! The learned logo itself: what it is, and how it is stored.
//!
//! # The model
//!
//! A station logo is not an opaque stamp. It composites over the picture with
//! a per-pixel opacity, so an observed pixel is
//!
//! ```text
//! observed = (1 - alpha) * background + alpha * colour
//! ```
//!
//! What is stored is the *inverse* of that relation, because removing a logo
//! and scoring a frame against one both need to go from observed back to
//! background:
//!
//! ```text
//! background = a * observed + b
//! ```
//!
//! with `a = 1 / (1 - alpha)` and `b = -alpha * colour / (1 - alpha)`. Storing
//! `(a, b)` rather than `(alpha, colour)` keeps the hot loop to one multiply
//! and one add per pixel, and makes the fit a plain linear regression.
//!
//! Opacities and colours are millionths; pixel values are millionths of one of
//! the 255 levels of brightness.

use vstd::prelude::*;
use vstd::arithmetic::div_mod::lemma_fundamental_div_mod;
use crate::analyze::logo::single::below_one;
use crate::analyze::logo::single::finite;
use crate::analyze::logo::single::in_millionths;
use crate::analyze::logo::single::is_below_one;
use crate::analyze::logo::single::is_finite;
use crate::analyze::logo::single::millionths;
use crate::analyze::logo::single::ONE;
use crate::analyze::logo::single::ZERO;
use crate::arith::nearest;
use crate::arith::nearest_bounds;
use crate::arith::nearest_is;
use crate::arith::nearest_is_monotonic;
use crate::arith::nearest_of_multiple;
use crate::arith::nearest_quotient;

verus! {

/// Opacity at which a pixel counts as part of the logo rather than noise, in
/// millionths.
pub const STRONG_ALPHA: i64 = 200_000;

/// How many such pixels a real logo has.
///
/// A logo is a few hundred solid pixels in a mostly empty rectangle, so this
/// sits far below what one produces and far above what noise does.
pub const MINIMUM_STRONG_PIXELS: u64 = 20;

/// Frames below which a fit is not trusted.
const MINIMUM_FRAMES: u32 = 50;

/// A rectangle within a frame, in pixels.
#[derive(Debug, Clone, Copy, PartialEq, Eq, Structural)]
pub struct Rect {
    /// Left edge.
    pub x: u32,
    /// Top edge.
    pub y: u32,
    /// Width in pixels.
    pub width: u32,
    /// Height in pixels.
    pub height: u32,
}

impl Rect {
    /// Number of pixels the rectangle covers.
    pub open spec fn spec_area(self) -> int {
        self.width * self.height
    }

    /// The rectangle lies entirely inside a frame of this size.
    pub open spec fn fits(self, width: int, height: int) -> bool {
        self.x + self.width <= width && self.y + self.height <= height
    }

    /// The rectangle covers something, and its far edges can be named.
    pub open spec fn valid(self) -> bool {
        &&& self.width > 0
        &&& self.height > 0
        &&& self.x + self.width <= u32::MAX
        &&& self.y + self.height <= u32::MAX
    }

    /// Number of pixels the rectangle covers.
    #[must_use]
    pub fn area(&self) -> (area: u64)
        ensures
            area == self.spec_area(),
    {
        assert(0 <= self.width * self.height <= 0xffff_ffff * 0xffff_ffff) by (nonlinear_arith)
            requires
                0 <= self.width <= 0xffff_ffff,
                0 <= self.height <= 0xffff_ffff,
        ;
        self.width as u64 * self.height as u64
    }

    /// Whether the rectangle fits entirely inside a frame of this size.
    ///
    /// The addition is checked: a logo file is untrusted input, and an `x`
    /// near `u32::MAX` would otherwise wrap and report a rectangle far outside
    /// the frame as fitting inside it.
    #[must_use]
    pub fn fits_within(&self, width: u32, height: u32) -> (fits: bool)
        ensures
            fits == self.fits(width as int, height as int),
    {
        match (self.x.checked_add(self.width), self.y.checked_add(self.height)) {
            (Some(right), Some(bottom)) => right <= width && bottom <= height,
            _ => false,
        }
    }

    /// Whether the rectangle has a non-zero area and does not overflow.
    #[must_use]
    pub fn is_valid(&self) -> (valid: bool)
        ensures
            valid == self.valid(),
    {
        self.width > 0 && self.height > 0 && self.x.checked_add(self.width).is_some()
            && self.y.checked_add(self.height).is_some()
    }

    /// The rectangle grown by a margin on every side, clamped to the frame.
    pub open spec fn grown(self, margin: int, width: int, height: int) -> Rect {
        let left = if self.x > margin { self.x - margin } else { 0 };
        let top = if self.y > margin { self.y - margin } else { 0 };
        let right = if self.x + self.width + margin < width {
            self.x + self.width + margin
        } else {
            width
        };
        let bottom = if self.y + self.height + margin < height {
            self.y + self.height + margin
        } else {
            height
        };
        Rect {
            x: left as u32,
            y: top as u32,
            width: (if right > left { right - left } else { 0 }) as u32,
            height: (if bottom > top { bottom - top } else { 0 }) as u32,
        }
    }

    /// Grow by `margin` on every side, clamped to the frame.
    #[must_use]
    pub fn expanded(&self, margin: u32, width: u32, height: u32) -> (rect: Rect)
        ensures
            rect == self.grown(margin as int, width as int, height as int),
            self.x <= width && self.y <= height ==> rect.fits(width as int, height as int),
    {
        let x: u32 = if self.x > margin { self.x - margin } else { 0 };
        let y: u32 = if self.y > margin { self.y - margin } else { 0 };
        let far_x: u64 = self.x as u64 + self.width as u64 + margin as u64;
        let far_y: u64 = self.y as u64 + self.height as u64 + margin as u64;
        let right: u32 = if far_x < width as u64 { far_x as u32 } else { width };
        let bottom: u32 = if far_y < height as u64 { far_y as u32 } else { height };
        Rect {
            x,
            y,
            width: if right > x { right - x } else { 0 },
            height: if bottom > y { bottom - y } else { 0 },
        }
    }
}

/// What can go wrong with a stored logo.
#[derive(Debug, Clone, Copy, PartialEq, Eq, Structural)]
pub enum LogoError {
    /// A logo file did not start with the expected magic bytes.
    LogoFormat,
    /// A logo's coefficient arrays did not match its rectangle.
    LogoGeometry,
    /// A logo could not be serialised.
    LogoEncode,
    /// A logo could not be deserialised.
    LogoDecode,
}

impl LogoError {
    /// What to tell somebody reading a log.
    pub open spec fn spec_message(self) -> Seq<char> {
        match self {
            LogoError::LogoFormat => "not an Asaborake logo file"@,
            LogoError::LogoGeometry => "logo dimensions are inconsistent"@,
            LogoError::LogoEncode => "failed to encode logo"@,
            LogoError::LogoDecode => "failed to decode logo"@,
        }
    }

    /// What to tell somebody reading a log.
    #[must_use]
    pub fn message(&self) -> (text: &'static str)
        ensures
            text@ == self.spec_message(),
    {
        match self {
            LogoError::LogoFormat => "not an Asaborake logo file",
            LogoError::LogoGeometry => "logo dimensions are inconsistent",
            LogoError::LogoEncode => "failed to encode logo",
            LogoError::LogoDecode => "failed to decode logo",
        }
    }
}

/// A learned logo: per-pixel removal coefficients over a rectangle.
#[derive(Debug, Clone, PartialEq, Eq)]
pub struct LogoData {
    /// Human-readable name, usually the channel name.
    pub name: String,
    /// Channel this logo belongs to, as `EPGStation` reports it.
    pub channel_id: Option<String>,
    /// Width of the frames it was learned from.
    pub source_width: u32,
    /// Height of the frames it was learned from.
    pub source_height: u32,
    /// Where in the frame the logo sits.
    pub rect: Rect,
    /// Slope of the per-pixel regression, row-major over `rect`, each as the
    /// bits of a single-precision value.
    pub a: Vec<u32>,
    /// Intercept of the per-pixel regression, likewise.
    pub b: Vec<u32>,
    /// How many frames contributed to the fit.
    pub frames_used: u32,
}

/// What a logo is, text and coefficients read as sequences.
#[verifier::ext_equal]
pub ghost struct LogoView {
    /// Human-readable name.
    pub name: Seq<char>,
    /// Channel this logo belongs to.
    pub channel_id: Option<Seq<char>>,
    /// Width of the frames it was learned from.
    pub source_width: u32,
    /// Height of the frames it was learned from.
    pub source_height: u32,
    /// Where in the frame the logo sits.
    pub rect: Rect,
    /// Slopes.
    pub a: Seq<u32>,
    /// Intercepts.
    pub b: Seq<u32>,
    /// How many frames contributed to the fit.
    pub frames_used: u32,
}

impl View for LogoData {
    type V = LogoView;

    open spec fn view(&self) -> LogoView {
        LogoView {
            name: self.name@,
            channel_id: match self.channel_id {
                Some(channel) => Some(channel@),
                None => None,
            },
            source_width: self.source_width,
            source_height: self.source_height,
            rect: self.rect,
            a: self.a@,
            b: self.b@,
            frames_used: self.frames_used,
        }
    }
}

/// Coefficients the compositing model cannot produce: not finite, or a slope
/// below one, which would mean a negative opacity.
pub open spec fn unphysical(a: u32, b: u32) -> bool {
    !finite(a) || !finite(b) || below_one(a)
}

/// The opacity a slope implies, in millionths: `1 - 1/a`, and nothing for a
/// slope of one or less. Rounded down, so that it reaches a threshold exactly
/// when the opacity itself does.
pub open spec fn alpha_of(a: u32) -> int {
    if !finite(a) || below_one(a) {
        0
    } else {
        1_000_000 * (in_millionths(a) - 1_000_000) / in_millionths(a)
    }
}

/// The colour a pair of coefficients implies, in millionths: `-b / (a - 1)`
/// within its range, and nothing where there is no logo to have one.
pub open spec fn colour_of(a: u32, b: u32) -> int {
    let slope = in_millionths(a);
    let size = -in_millionths(b);
    if !finite(a) || !finite(b) || below_one(a) || slope <= 1_000_010 || size <= 0 {
        0
    } else if size >= slope - 1_000_000 {
        1_000_000
    } else {
        nearest(1_000_000 * size, slope - 1_000_000)
    }
}

/// The opacities of the first `count` pixels, added up.
pub open spec fn total_alpha(a: Seq<u32>, count: int) -> int
    decreases count,
{
    if count <= 0 {
        0
    } else {
        total_alpha(a, count - 1) + alpha_of(a[count - 1])
    }
}

/// How many of the first `count` pixels are opaque enough to match against.
pub open spec fn strong_count(a: Seq<u32>, count: int) -> int
    decreases count,
{
    if count <= 0 {
        0
    } else {
        strong_count(a, count - 1) + if alpha_of(a[count - 1]) >= STRONG_ALPHA {
            1int
        } else {
            0
        }
    }
}

impl LogoView {
    /// The coefficients cover the rectangle, and the rectangle lies within
    /// the frames the logo was learned from.
    pub open spec fn consistent(self) -> bool {
        &&& self.rect.valid()
        &&& self.rect.fits(self.source_width as int, self.source_height as int)
        &&& self.a.len() == self.rect.spec_area()
        &&& self.b.len() == self.rect.spec_area()
    }

    /// Every coefficient describes a physically possible logo.
    pub open spec fn physical(self) -> bool {
        forall|i: int|
            0 <= i < self.a.len() && i < self.b.len() ==> !unphysical(
                #[trigger] self.a[i],
                self.b[i],
            )
    }

    /// The same logo with anything unphysical rewritten as "no logo here".
    pub open spec fn canonical(self) -> LogoView {
        LogoView {
            a: Seq::new(
                self.a.len(),
                |i: int|
                    if i < self.b.len() && unphysical(self.a[i], self.b[i]) {
                        ONE
                    } else {
                        self.a[i]
                    },
            ),
            b: Seq::new(
                self.b.len(),
                |i: int|
                    if i < self.a.len() && unphysical(self.a[i], self.b[i]) {
                        ZERO
                    } else {
                        self.b[i]
                    },
            ),
            ..self
        }
    }

    /// The fit looks like a real logo: enough frames, and enough pixels
    /// opaque enough to match against.
    pub open spec fn plausible(self) -> bool {
        &&& self.frames_used >= 50
        &&& self.a.len() > 0
        &&& strong_count(self.a, self.a.len() as int) >= MINIMUM_STRONG_PIXELS
    }

    /// The preview image: for each pixel its colour three times, then its
    /// opacity, each on a scale to 255.
    pub open spec fn preview(self) -> Seq<u8> {
        Seq::new(
            (4 * self.rect.spec_area()) as nat,
            |i: int|
                {
                    let pixel = i / 4;
                    let a = if pixel < self.a.len() { self.a[pixel] } else { ONE };
                    let b = if pixel < self.b.len() { self.b[pixel] } else { ZERO };
                    if i % 4 == 3 {
                        nearest(alpha_of(a) * 255, 1_000_000) as u8
                    } else {
                        nearest(colour_of(a, b) * 255, 1_000_000) as u8
                    }
                },
        )
    }
}

/// One level of brightness.
pub const LEVEL: i64 = 1_000_000;

/// The furthest from zero a pixel value may lie.
pub const PIXEL_LIMIT: i64 = 1_000_000_000_000;

/// An observed value with the logo removed.
pub open spec fn removed(a: u32, b: u32, observed: int) -> int {
    nearest(in_millionths(a) * observed, 1_000_000) + 255 * in_millionths(b)
}

/// A background value with the logo composited on: removal undone. A slope
/// too small to divide by leaves the background alone.
pub open spec fn composited(a: u32, b: u32, background: int) -> int {
    let slope = in_millionths(a);
    let top = (background - 255 * in_millionths(b)) * 1_000_000;
    if !finite(a) || slope == 0 {
        background
    } else if slope > 0 {
        nearest(top, slope)
    } else {
        nearest(-top, -slope)
    }
}

proof fn opacity_in_range(a: u32)
    ensures
        0 <= alpha_of(a) <= 1_000_000,
        finite(a) && !below_one(a) ==> in_millionths(a) >= 1_000_000,
{
    if finite(a) && !below_one(a) {
        slope_is_at_least_one(a);
        let slope = in_millionths(a);
        let opacity = alpha_of(a);
        lemma_fundamental_div_mod(1_000_000 * (slope - 1_000_000), slope);
        assert(0 <= opacity <= 1_000_000) by (nonlinear_arith)
            requires
                slope >= 1_000_000,
                1_000_000 * (slope - 1_000_000) == slope * opacity + 1_000_000 * (slope - 1_000_000)
                    % slope,
                0 <= 1_000_000 * (slope - 1_000_000) % slope < slope,
        ;
    }
}

/// A finite slope that is not below one reads as at least a million
/// millionths.
pub proof fn slope_is_at_least_one(a: u32)
    requires
        finite(a),
        !below_one(a),
    ensures
        in_millionths(a) >= 1_000_000,
{
    crate::analyze::logo::single::at_least_one(a);
}

impl LogoData {
    /// A copy of the logo.
    #[must_use]
    pub fn duplicate(&self) -> (copy: LogoData)
        ensures
            copy@ == self@,
    {
        LogoData {
            name: self.name.clone(),
            channel_id: self.channel_id.clone(),
            source_width: self.source_width,
            source_height: self.source_height,
            rect: self.rect,
            a: self.a.clone(),
            b: self.b.clone(),
            frames_used: self.frames_used,
        }
    }

    /// The opacity at a pixel, in millionths; nothing beyond the last.
    pub open spec fn spec_alpha_at(self, index: int) -> int {
        if 0 <= index < self.a@.len() {
            alpha_of(self.a@[index])
        } else {
            0
        }
    }

    /// Recover the opacity at a pixel, in millionths.
    ///
    /// A slope below one would mean a negative opacity, which the fit can
    /// produce from noise; those pixels are reported as fully transparent.
    #[must_use]
    pub fn alpha_at(&self, index: usize) -> (alpha: i64)
        ensures
            alpha == self.spec_alpha_at(index as int),
            0 <= alpha <= 1_000_000,
    {
        if index >= self.a.len() {
            return 0;
        }
        let a: u32 = self.a[index];
        proof {
            opacity_in_range(a);
        }
        if !is_finite(a) || is_below_one(a) {
            return 0;
        }
        let slope: i128 = millionths(a) as i128;
        (1_000_000 * (slope - 1_000_000) / slope) as i64
    }

    /// Recover the logo's own colour at a pixel, in millionths.
    #[must_use]
    pub fn colour_at(&self, index: usize) -> (colour: i64)
        ensures
            colour == (if index < self.a@.len() && index < self.b@.len() {
                colour_of(self.a@[index as int], self.b@[index as int])
            } else {
                0
            }),
            0 <= colour <= 1_000_000,
    {
        if index >= self.a.len() || index >= self.b.len() {
            return 0;
        }
        let (a, b): (u32, u32) = (self.a[index], self.b[index]);
        let slope: i64 = millionths(a);
        let size: i64 = -millionths(b);
        if !is_finite(a) || !is_finite(b) || is_below_one(a) || slope <= 1_000_010 || size <= 0 {
            return 0;
        }
        if size >= slope - 1_000_000 {
            return 1_000_000;
        }
        proof {
            let range = slope - 1_000_000;
            nearest_is_monotonic(0, 1_000_000 * size, range);
            nearest_is_monotonic(1_000_000 * size, 1_000_000 * range, range);
            nearest_of_multiple(0, range);
            nearest_of_multiple(1_000_000, range);
        }
        nearest_quotient(1_000_000 * size as i128, (slope - 1_000_000) as i128) as i64
    }

    /// Whether this logo was learned from frames of the given size.
    ///
    /// A logo is only meaningful at the resolution it was learned at: the
    /// rectangle is in pixels, so reusing a 1920x1080 logo on 1440x1080
    /// broadcast samples the wrong part of the picture entirely and reports
    /// the logo absent for the whole recording.
    #[must_use]
    pub fn matches_frame_size(&self, width: u32, height: u32) -> (matches: bool)
        ensures
            matches == (self.source_width == width && self.source_height == height),
    {
        self.source_width == width && self.source_height == height
    }

    /// Remove the logo from an observed value, recovering the background.
    #[must_use]
    pub fn remove(&self, index: usize, observed: i64) -> (background: i128)
        requires
            -PIXEL_LIMIT <= observed <= PIXEL_LIMIT,
        ensures
            background == (if index < self.a@.len() && index < self.b@.len() {
                removed(self.a@[index as int], self.b@[index as int], observed as int)
            } else {
                observed as int
            }),
    {
        if index >= self.a.len() || index >= self.b.len() {
            return observed as i128;
        }
        let slope: i128 = millionths(self.a[index]) as i128;
        let intercept: i128 = millionths(self.b[index]) as i128;
        let ghost product = slope * observed;
        proof {
            assert(-536_870_912_000_000_000_000_000_000 <= product
                <= 536_870_912_000_000_000_000_000_000) by (nonlinear_arith)
                requires
                    product == slope * observed,
                    -536_870_912_000_000 <= slope <= 536_870_912_000_000,
                    -1_000_000_000_000 <= observed <= 1_000_000_000_000,
            ;
            nearest_bounds(product, 1_000_000);
        }
        nearest_quotient(slope * observed as i128, 1_000_000) + 255 * intercept
    }

    /// Composite the logo onto a background value.
    ///
    /// This is `remove` inverted, and it is how the synthetic reference images
    /// the detector correlates against are built.
    #[must_use]
    pub fn apply(&self, index: usize, background: i64) -> (observed: i128)
        requires
            -PIXEL_LIMIT <= background <= PIXEL_LIMIT,
        ensures
            observed == (if index < self.a@.len() && index < self.b@.len() {
                composited(self.a@[index as int], self.b@[index as int], background as int)
            } else {
                background as int
            }),
    {
        if index >= self.a.len() || index >= self.b.len() {
            return background as i128;
        }
        let a: u32 = self.a[index];
        let slope: i128 = millionths(a) as i128;
        let intercept: i128 = millionths(self.b[index]) as i128;
        if !is_finite(a) || slope == 0 {
            return background as i128;
        }
        let top: i128 = (background as i128 - 255 * intercept) * 1_000_000;
        if slope > 0 {
            nearest_quotient(top, slope)
        } else {
            nearest_quotient(-top, -slope)
        }
    }

    /// Force every coefficient to describe a physically possible logo.
    ///
    /// Noise in the fit can produce slopes below one, and even negative ones;
    /// left alone they still transform pixels in `remove` and `apply`, where a
    /// negative slope inverts the picture and manufactures a strong synthetic
    /// edge that then dominates feature selection.
    ///
    /// Anything outside the physical range is rewritten as "no logo here".
    pub fn canonicalise(&mut self)
        ensures
            final(self)@ == old(self)@.canonical(),
    {
        let count: usize = if self.a.len() < self.b.len() { self.a.len() } else { self.b.len() };
        let ghost before = self@;
        for i in 0..count
            invariant
                before == old(self)@,
                count <= before.a.len(),
                count <= before.b.len(),
                self.a@.len() == before.a.len(),
                self.b@.len() == before.b.len(),
                self@ == (LogoView { a: self.a@, b: self.b@, ..before }),
                forall|k: int|
                    0 <= k < before.a.len() ==> #[trigger] self.a@[k] == if k < i {
                        before.canonical().a[k]
                    } else {
                        before.a[k]
                    },
                forall|k: int|
                    0 <= k < before.b.len() ==> #[trigger] self.b@[k] == if k < i {
                        before.canonical().b[k]
                    } else {
                        before.b[k]
                    },
        {
            if !is_finite(self.a[i]) || !is_finite(self.b[i]) || is_below_one(self.a[i]) {
                self.a.set(i, ONE);
                self.b.set(i, ZERO);
            }
        }
        assert(count == before.a.len() || count == before.b.len());
        assert(self.a@ =~= before.canonical().a);
        assert(self.b@ =~= before.canonical().b);
    }

    /// Mean opacity across the rectangle, in millionths: a rough measure of
    /// how much logo there is to find.
    #[must_use]
    pub fn mean_alpha(&self) -> (mean: i64)
        ensures
            mean == (if self.a@.len() == 0 {
                0
            } else {
                nearest(total_alpha(self.a@, self.a@.len() as int), self.a@.len() as int)
            }),
            0 <= mean <= 1_000_000,
    {
        let count: usize = self.a.len();
        if count == 0 {
            return 0;
        }
        let mut total: i128 = 0;
        for i in 0..count
            invariant
                count == self.a@.len(),
                total == total_alpha(self.a@, i as int),
                0 <= total <= i * 1_000_000,
        {
            total += self.alpha_at(i) as i128;
        }
        proof {
            nearest_is_monotonic(0, total as int, count as int);
            nearest_is_monotonic(total as int, 1_000_000 * count as int, count as int);
            nearest_of_multiple(0, count as int);
            nearest_of_multiple(1_000_000, count as int);
        }
        nearest_quotient(total, count as i128) as i64
    }

    /// How many pixels came out opaque enough to match against.
    ///
    /// A logo is a few hundred solid pixels in a mostly empty rectangle. A fit
    /// spread thinly over the whole box, with none of it strong, is noise that
    /// happens to have a slope.
    #[must_use]
    pub fn strong_pixels(&self) -> (count: u64)
        ensures
            count == strong_count(self.a@, self.a@.len() as int),
    {
        let mut count: u64 = 0;
        for i in 0..self.a.len()
            invariant
                count == strong_count(self.a@, i as int),
                count <= i,
        {
            if self.alpha_at(i) >= STRONG_ALPHA {
                count += 1;
            }
        }
        count
    }

    /// Whether the fit produced something that looks like a real logo.
    ///
    /// A fit over frames that happened to be flat but carried no logo yields
    /// near-zero opacity everywhere; encoding that as a logo would make the
    /// detector report noise for the whole recording.
    #[must_use]
    pub fn is_plausible(&self) -> (plausible: bool)
        ensures
            plausible == self@.plausible(),
    {
        if self.frames_used < MINIMUM_FRAMES || self.a.len() == 0 {
            return false;
        }
        self.strong_pixels() >= MINIMUM_STRONG_PIXELS
    }

    /// Render the logo as an RGBA image for the web UI.
    ///
    /// The alpha channel is the learned opacity and the colour channel the
    /// learned colour, so what somebody sees is exactly what the detector
    /// matches against.
    #[must_use]
    pub fn to_rgba(&self) -> (rgba: Vec<u8>)
        requires
            4 * self.rect.spec_area() <= usize::MAX,
        ensures
            rgba@ == self@.preview(),
    {
        let mut out: Vec<u8> = Vec::new();
        let area: usize = self.rect.area() as usize;
        proof {
            no_logo_is_invisible();
        }
        for index in 0..area
            invariant
                area == self.rect.spec_area(),
                4 * area <= usize::MAX,
                alpha_of(ONE) == 0,
                forall|b: u32| colour_of(ONE, b) == 0,
                forall|a: u32| colour_of(a, ZERO) == 0,
                out@ =~= self@.preview().take(4 * index),
        {
            let luma: u8 = on_255(self.colour_at(index));
            let alpha: u8 = on_255(self.alpha_at(index));
            out.push(luma);
            out.push(luma);
            out.push(luma);
            out.push(alpha);
        }
        assert(out@ =~= self@.preview());
        out
    }
}

/// A share of one, on a scale to 255.
fn on_255(share: i64) -> (value: u8)
    requires
        0 <= share <= 1_000_000,
    ensures
        value == nearest(share * 255, 1_000_000),
{
    ((share * 510 + 1_000_000) / 2_000_000) as u8
}

/// A slope of one or an intercept of zero shows nothing.
proof fn no_logo_is_invisible()
    ensures
        alpha_of(ONE) == 0,
        forall|b: u32| colour_of(ONE, b) == 0,
        forall|a: u32| colour_of(a, ZERO) == 0,
{
    crate::analyze::logo::single::plain_values();
    nearest_of_multiple(0, 1_000_000);
}

/// Scrubbing leaves nothing unphysical, and leaves a physical logo alone.
pub proof fn canonical_logos_are_physical(logo: LogoView)
    ensures
        logo.canonical().physical(),
        logo.physical() ==> logo.canonical() == logo,
        logo.canonical().canonical() == logo.canonical(),
        logo.consistent() ==> logo.canonical().consistent(),
{
    assert(finite(ONE) && finite(ZERO) && !below_one(ONE));
    let scrubbed = logo.canonical();
    assert(scrubbed.physical());
    if logo.physical() {
        assert(scrubbed.a =~= logo.a);
        assert(scrubbed.b =~= logo.b);
    }
    assert(scrubbed.canonical().a =~= scrubbed.a);
    assert(scrubbed.canonical().b =~= scrubbed.b);
}

/// Compositing is the exact inverse of removal, for every physical pixel:
/// putting back what was taken away gives what was observed.
pub proof fn compositing_undoes_removal(a: u32, b: u32, observed: int)
    requires
        !unphysical(a, b),
    ensures
        composited(a, b, removed(a, b, observed)) == observed,
{
    slope_is_at_least_one(a);
    let slope = in_millionths(a);
    let scaled = nearest(slope * observed, 1_000_000);
    nearest_bounds(slope * observed, 1_000_000);
    let top = scaled * 1_000_000;
    assert(2 * (observed * slope) <= 2 * top + slope) by (nonlinear_arith)
        requires
            2 * (slope * observed) + 1_000_000 < 2 * top + 2_000_000,
            slope >= 1_000_000,
    ;
    assert(2 * top + slope < 2 * (observed * slope) + 2 * slope || slope == 1_000_000)
        by (nonlinear_arith)
        requires
            2 * top <= 2 * (slope * observed) + 1_000_000,
            slope >= 1_000_000,
    ;
    if slope == 1_000_000 {
        nearest_of_multiple(observed, 1_000_000);
        assert(slope * observed == observed * 1_000_000) by (nonlinear_arith)
            requires
                slope == 1_000_000,
        ;
        nearest_of_multiple(observed, slope);
    } else {
        nearest_is(top, slope, observed);
    }
}

} // verus!
