//! Scoring frames against a learned logo.
//!
//! # Why not just subtract
//!
//! The obvious test, removing the logo and seeing whether the picture got
//! simpler, fails, because how much a pixel changes depends on what was behind
//! it. A logo over black barely moves the numbers; the same logo over white
//! moves them a lot. Thresholding raw differences therefore tracks the
//! brightness of the programme rather than the presence of the logo.
//!
//! # What is done instead
//!
//! Correlation against the logo's *shape*, measured locally and normalised:
//!
//! 1. Composite the logo onto a ladder of uniform grey backgrounds, giving a
//!    reference image of the logo at every brightness it might appear over.
//! 2. Pick the pixels whose 5x5 neighbourhood varies most: the logo's edges.
//!    Flat interior pixels carry no shape information.
//! 3. For each such pixel, keep the zero-mean 5x5 patch as a kernel. Zero-mean
//!    is what makes the match indifferent to the background's brightness.
//! 4. Precompute, per pixel and per background level, the correlation the
//!    reference image itself produces, and normalise by it, so a perfect
//!    match scores 1 regardless of where on the ladder it lands.
//!
//! At detection time each frame is scored twice: once as it is, and once with
//! the logo removed. A frame carrying the logo correlates strongly as-is and
//! near zero once removed. A frame without it correlates near zero as-is and
//! *negatively* once removed, because removing an absent logo stamps its
//! photographic negative into the picture. Combining the two is far sharper
//! than either alone.
//!
//! # Units
//!
//! Images are in millionths of a level of brightness. A patch less its mean is
//! kept twenty-five times over, which makes it whole. Its cells cancel out, so
//! taking the mean off what it is held against would change nothing, and a
//! correlation is a sum of products of whole numbers. Normalised correlations,
//! weights and scores are millionths.

use vstd::prelude::*;
use vstd::arithmetic::div_mod::lemma_fundamental_div_mod;
use vstd::arithmetic::div_mod::lemma_fundamental_div_mod_converse;
use crate::analyze::logo::model::composited;
use crate::analyze::logo::model::removed;
use crate::analyze::logo::model::slope_is_at_least_one;
use crate::analyze::logo::model::unphysical;
use crate::analyze::logo::model::LogoData;
use crate::analyze::logo::model::LogoView;
use crate::analyze::logo::model::Rect;
use crate::analyze::logo::scan::seen_in;
use crate::analyze::logo::single::coefficients_are_limited;
use crate::analyze::logo::single::in_millionths;
use crate::arith::floor_quotient;
use crate::arith::nearest;
use crate::arith::nearest_bounds;
use crate::arith::nearest_is;
use crate::arith::nearest_is_monotonic;
use crate::arith::nearest_of_multiple;
use crate::arith::share_of;
use crate::media::frames::offset_of;
use crate::media::frames::offsets_fit;
use crate::media::frames::pixel_offset;
use crate::media::frames::Frame;
use crate::order::is_stable_order;
use crate::order::ranking;
use crate::order::stable_order;

verus! {

/// Side of the correlation kernel.
pub const KERNEL: u32 = 5;

/// Half-width of the kernel, i.e. the border it cannot reach into.
pub const KERNEL_RADIUS: u32 = 2;

/// Number of background brightness levels the logo is referenced against.
pub const LEVELS: usize = 32;

/// Ceiling on correlation points, to bound the per-frame cost.
///
/// A large rectangle would otherwise make scoring quadratic in logo size for
/// no gain: the edges carry the signal, and there are only so many of them.
pub const MAX_MASK_POINTS: u64 = 1500;

/// A mean correlation no larger than this, in the units correlations are kept
/// in, carries no shape at all: it is below what single precision resolves.
pub const FAINT: i128 = 193_789_601_325;

/// A reference score no larger than this, in millionths of millionths, cannot
/// be divided by, for the same reason.
pub const FAINT_SCORE: i128 = 119_209;

/// No image value lies further from zero than this.
pub const IMAGE_LIMIT: i64 = 280_000_000_000_000_000;

/// No value of a reference image lies further from zero than this.
pub const REFERENCE_LIMIT: i64 = 140_000_000_000_000_000;

/// Every value of an image is within a limit.
pub open spec fn within(image: Seq<i64>, limit: i64) -> bool {
    forall|i: int| 0 <= i < image.len() ==> -limit <= #[trigger] image[i] <= limit
}

/// Every value of an image is within the limit of any image.
pub open spec fn moderate(image: Seq<i64>) -> bool {
    within(image, IMAGE_LIMIT)
}

/// Every value of an image is within the limit of a reference.
pub open spec fn modest(image: Seq<i64>) -> bool {
    within(image, REFERENCE_LIMIT)
}

/// A coordinate moved back by the radius, and no further than the edge.
pub open spec fn pulled_back(at: int, step: int) -> int {
    if at + step > 2 { at + step - 2 } else { 0 }
}

/// Cell `k` of the neighbourhood centred on a pixel, row by row; black where
/// the image does not reach.
pub open spec fn cell(image: Seq<i64>, width: int, x: int, y: int, k: int) -> int {
    let offset = offset_of(pulled_back(x, k % 5), pulled_back(y, k / 5), width);
    if 0 <= offset < image.len() { image[offset] as int } else { 0 }
}

/// The sum of the first `count` cells.
pub open spec fn cell_sum(image: Seq<i64>, width: int, x: int, y: int, count: int) -> int
    decreases count,
{
    if count <= 0 {
        0
    } else {
        cell_sum(image, width, x, y, count - 1) + cell(image, width, x, y, count - 1)
    }
}

/// Cell `k` less the mean of the neighbourhood, twenty-five times over.
pub open spec fn centred(image: Seq<i64>, width: int, x: int, y: int, k: int) -> int {
    25 * cell(image, width, x, y, k) - cell_sum(image, width, x, y, 25)
}

/// The neighbourhood with its mean removed.
pub open spec fn patch(image: Seq<i64>, width: int, x: int, y: int) -> Seq<i64> {
    Seq::new(25, |k: int| centred(image, width, x, y, k) as i64)
}

/// The first `count` cells of a kernel against those of a neighbourhood.
pub open spec fn correlation(
    kernel: Seq<i64>,
    image: Seq<i64>,
    width: int,
    x: int,
    y: int,
    count: int,
) -> int
    decreases count,
{
    if count <= 0 {
        0
    } else {
        correlation(kernel, image, width, x, y, count - 1) + kernel[count - 1] * cell(
            image,
            width,
            x,
            y,
            count - 1,
        )
    }
}

/// The first `count` cells of a kernel, added up.
pub open spec fn kernel_sum(kernel: Seq<i64>, count: int) -> int
    decreases count,
{
    if count <= 0 {
        0
    } else {
        kernel_sum(kernel, count - 1) + kernel[count - 1]
    }
}

/// How much a neighbourhood varies: its correlation with itself.
pub open spec fn energy(image: Seq<i64>, width: int, x: int, y: int) -> int {
    correlation(patch(image, width, x, y), image, width, x, y, 25)
}

/// The logo composited onto one rung of the ladder of grey backgrounds.
pub open spec fn reference(logo: LogoView, level: int) -> Seq<i64> {
    Seq::new(
        logo.a.len(),
        |i: int| composited(logo.a[i], logo.b[i], level * 8_000_000) as i64,
    )
}

/// The pixels whose neighbourhoods vary at all, among the first `count` the
/// kernel can be centred on, row by row.
pub open spec fn varied(
    image: Seq<i64>,
    width: int,
    height: int,
    count: int,
) -> Seq<(u32, u32)>
    decreases count,
{
    let across = width - 4;
    if count <= 0 {
        Seq::empty()
    } else {
        let before = varied(image, width, height, count - 1);
        let x = 2 + (count - 1) % across;
        let y = 2 + (count - 1) / across;
        if energy(image, width, x, y) > 0 {
            before.push((x as u32, y as u32))
        } else {
            before
        }
    }
}

/// Keys that put the most varied first.
pub open spec fn by_energy(image: Seq<i64>, width: int, pixels: Seq<(u32, u32)>) -> Seq<i128> {
    pixels.map_values(
        |p: (u32, u32)| (-energy(image, width, p.0 as int, p.1 as int)) as i128,
    )
}

/// How many correlation points a logo gets: one for every four pixels, at
/// least one, no more than the ceiling, and no more than there are.
pub open spec fn wanted_points(area: int, available: int) -> int {
    let share = area / 4;
    let least = if share < 1 { 1 } else { share };
    let most = if least > MAX_MASK_POINTS { MAX_MASK_POINTS as int } else { least };
    if most < available { most } else { available }
}

/// The pixels whose neighbourhoods carry the most shape. The middle of the
/// ladder is the least biased view: the logo is neither washed out against
/// white nor lost against black.
pub open spec fn points_of(logo: LogoView) -> Seq<(u32, u32)> {
    let (width, height) = (logo.rect.width as int, logo.rect.height as int);
    let middle = reference(logo, 16);
    let pixels = varied(middle, width, height, (width - 4) * (height - 4));
    let order = ranking(by_energy(middle, width, pixels));
    order.take(wanted_points(logo.rect.spec_area(), pixels.len() as int)).map_values(
        |i: usize| pixels[i as int],
    )
}

/// The size of a number.
pub open spec fn size_of_number(n: int) -> int {
    if n < 0 { -n } else { n }
}

/// The kernel at a point: the darkest background gives the cleanest view of
/// the logo's own shape, with the least of the background bleeding into it.
pub open spec fn kernel_at(logo: LogoView, point: (u32, u32)) -> Seq<i64> {
    patch(reference(logo, 0), logo.rect.width as int, point.0 as int, point.1 as int)
}

/// The size of the correlation a reference image itself produces; entry `n`
/// is for point `n / 32` against rung `n % 32`.
pub open spec fn magnitude(logo: LogoView, n: int) -> int {
    let point = points_of(logo)[n / 32];
    size_of_number(
        correlation(
            kernel_at(logo, point),
            reference(logo, n % 32),
            logo.rect.width as int,
            point.0 as int,
            point.1 as int,
            25,
        ),
    )
}

/// The first `count` magnitudes, added up.
pub open spec fn total_magnitude(logo: LogoView, count: int) -> int
    decreases count,
{
    if count <= 0 {
        0
    } else {
        total_magnitude(logo, count - 1) + magnitude(logo, count - 1)
    }
}

/// How many magnitudes there are.
pub open spec fn magnitude_count(logo: LogoView) -> int {
    32 * (points_of(logo).len() as int)
}

/// A fifth of the mean magnitude. Correlations below it are treated as
/// carrying no logo information, and are faded out rather than amplified by
/// normalisation.
pub open spec fn floor_of(logo: LogoView) -> int {
    total_magnitude(logo, magnitude_count(logo)) / (5 * magnitude_count(logo))
}

/// Confidence in an entry whose reference correlation was weak.
pub open spec fn weight_of(magnitude: int, floor: int) -> int {
    let share = nearest(magnitude * 1_000_000, floor);
    if share > 1_000_000 { 1_000_000 } else { share }
}

/// A correlation as a share of what the logo alone would produce. Anything
/// beyond came from the picture, not the logo.
pub open spec fn normalised(correlation: int, magnitude: int) -> int {
    let share = nearest(correlation * 1_000_000, magnitude);
    if magnitude <= 0 {
        0
    } else if share > 1_000_000 {
        1_000_000
    } else if share < -1_000_000 {
        -1_000_000
    } else {
        share
    }
}

/// Which rung of the ladder a neighbourhood of this sum sits on.
pub open spec fn rung(sum: int) -> int {
    let level = sum / 25_000_000;
    if sum < 0 {
        0
    } else if level > 255 {
        31
    } else {
        level / 8
    }
}

/// What one point contributes to an image's score.
pub open spec fn contribution(logo: LogoView, image: Seq<i64>, index: int) -> int {
    let width = logo.rect.width as int;
    let point = points_of(logo)[index];
    let (x, y) = (point.0 as int, point.1 as int);
    let n = index * 32 + rung(cell_sum(image, width, x, y, 25));
    normalised(
        correlation(kernel_at(logo, point), image, width, x, y, 25),
        magnitude(logo, n),
    ) * weight_of(magnitude(logo, n), floor_of(logo))
}

/// Total normalised correlation of an image against the first `count` of the
/// logo's kernels.
pub open spec fn image_score(logo: LogoView, image: Seq<i64>, count: int) -> int
    decreases count,
{
    if count <= 0 {
        0
    } else {
        image_score(logo, image, count - 1) + contribution(logo, image, count - 1)
    }
}

/// The score the reference logo achieves. A near-black background is the
/// canonical "logo clearly present" case, and its score sets the scale
/// everything else is read against.
pub open spec fn reference_score(logo: LogoView) -> int {
    image_score(logo, reference(logo, 2), points_of(logo).len() as int)
}

/// A logo with correlatable shape: large enough to hold a kernel, varied
/// somewhere, and with a correlation that can be told from nothing.
pub open spec fn detectable(logo: LogoView) -> bool {
    &&& logo.rect.width >= 5
    &&& logo.rect.height >= 5
    &&& points_of(logo).len() > 0
    &&& total_magnitude(logo, magnitude_count(logo)) > FAINT * magnitude_count(logo)
    &&& size_of_number(reference_score(logo)) > FAINT_SCORE
}

/// The frame under the logo, as it was observed.
pub open spec fn observed_in(logo: LogoView, frame: Frame) -> Seq<i64> {
    Seq::new(
        logo.a.len(),
        |i: int|
            match seen_in(frame, logo.rect, i) {
                Some(value) => (value * 1_000_000) as i64,
                None => 0,
            },
    )
}

/// The frame under the logo, with the logo removed.
pub open spec fn cleaned_in(logo: LogoView, frame: Frame) -> Seq<i64> {
    Seq::new(
        logo.a.len(),
        |i: int| removed(logo.a[i], logo.b[i], observed_in(logo, frame)[i] as int) as i64,
    )
}

/// A score, counted in the direction of the reference score.
pub open spec fn towards(score: int, reference: int) -> int {
    if reference > 0 {
        score
    } else {
        -score
    }
}

/// The score of one frame. Present: the score as observed is strongly
/// positive and the score with the logo removed collapses to zero. Absent: the
/// first is noise around zero and the second goes negative. Taking the
/// positive part of one and the negative part of the other suppresses the
/// noise in each. What is left is a share of the reference score, rounded down
/// so that it reaches a threshold exactly when the share itself does. A frame
/// the rectangle does not fit says nothing.
pub open spec fn frame_score(logo: LogoView, frame: Frame) -> int {
    let count = points_of(logo).len() as int;
    let reference = reference_score(logo);
    let present = towards(image_score(logo, observed_in(logo, frame), count), reference);
    let absent = towards(image_score(logo, cleaned_in(logo, frame), count), reference);
    let evidence = (if present > 0 { present } else { 0 }) + (if absent < 0 { absent } else { 0 });
    if !logo.rect.fits(frame.width as int, frame.height as int) {
        0
    } else {
        evidence * 1_000_000 / size_of_number(reference)
    }
}

proof fn cells_are_within(image: Seq<i64>, limit: i64, width: int, x: int, y: int, count: int)
    requires
        within(image, limit),
        0 <= limit,
        0 <= count <= 25,
    ensures
        -count * limit <= cell_sum(image, width, x, y, count) <= count * limit,
    decreases count,
{
    if count > 0 {
        cells_are_within(image, limit, width, x, y, count - 1);
        cell_is_within(image, limit, width, x, y, count - 1);
        assert(count * limit == (count - 1) * limit + limit) by (nonlinear_arith);
        assert(-count * limit == -(count - 1) * limit - limit) by (nonlinear_arith);
    } else {
        assert(-0 * limit == 0 && 0 * limit == 0) by (nonlinear_arith);
    }
}

proof fn cell_is_within(image: Seq<i64>, limit: i64, width: int, x: int, y: int, k: int)
    requires
        within(image, limit),
        0 <= limit,
    ensures
        -limit <= cell(image, width, x, y, k) <= limit,
{
}

/// The furthest from zero a cell of a kernel lies.
pub const KERNEL_LIMIT: i64 = 7_000_000_000_000_000_000;

proof fn centred_is_moderate(image: Seq<i64>, width: int, x: int, y: int, k: int)
    requires
        modest(image),
    ensures
        -KERNEL_LIMIT <= centred(image, width, x, y, k) <= KERNEL_LIMIT,
{
    cell_is_within(image, REFERENCE_LIMIT, width, x, y, k);
    cells_are_within(image, REFERENCE_LIMIT, width, x, y, 25);
}

proof fn modest_is_moderate(image: Seq<i64>)
    requires
        modest(image),
    ensures
        moderate(image),
{
}

/// One cell of a neighbourhood.
fn cell_of(image: &[i64], width: u32, x: u32, y: u32, k: u32) -> (value: i64)
    requires
        k < 25,
        x <= 0xffff_fffd,
        y <= 0xffff_fffd,
    ensures
        value == cell(image@, width as int, x as int, y as int, k as int),
{
    let (right, below): (u64, u64) = (x as u64 + k as u64 % 5, y as u64 + k as u64 / 5);
    let sx: u32 = if right > 2 { (right - 2) as u32 } else { 0 };
    let sy: u32 = if below > 2 { (below - 2) as u32 } else { 0 };
    let offset: u64 = pixel_offset(sx, sy, width);
    if offset < image.len() as u64 {
        image[offset as usize]
    } else {
        0
    }
}

/// The sum of a neighbourhood.
fn sum_cells(image: &[i64], width: u32, x: u32, y: u32) -> (sum: i64)
    requires
        moderate(image@),
        x <= 0xffff_fffd,
        y <= 0xffff_fffd,
    ensures
        sum == cell_sum(image@, width as int, x as int, y as int, 25),
        -25 * IMAGE_LIMIT <= sum <= 25 * IMAGE_LIMIT,
{
    let mut sum: i64 = 0;
    for k in 0..25u32
        invariant
            moderate(image@),
            x <= 0xffff_fffd,
            y <= 0xffff_fffd,
            sum == cell_sum(image@, width as int, x as int, y as int, k as int),
            -k * 280_000_000_000_000_000 <= sum <= k * 280_000_000_000_000_000,
    {
        proof {
            cell_is_within(image@, IMAGE_LIMIT, width as int, x as int, y as int, k as int);
        }
        sum += cell_of(image, width, x, y, k);
    }
    sum
}

/// The 5x5 neighbourhood at a pixel with its mean removed, twenty-five times
/// over.
#[must_use]
pub fn zero_mean_patch(image: &[i64], width: u32, x: u32, y: u32) -> (kernel: Vec<i64>)
    requires
        modest(image@),
        x <= 0xffff_fffd,
        y <= 0xffff_fffd,
    ensures
        kernel@ == patch(image@, width as int, x as int, y as int),
{
    proof {
        modest_is_moderate(image@);
        cells_are_within(image@, REFERENCE_LIMIT, width as int, x as int, y as int, 25);
    }
    let sum: i64 = sum_cells(image, width, x, y);
    let mut kernel: Vec<i64> = Vec::new();
    for k in 0..25u32
        invariant
            modest(image@),
            x <= 0xffff_fffd,
            y <= 0xffff_fffd,
            sum == cell_sum(image@, width as int, x as int, y as int, 25),
            -25 * REFERENCE_LIMIT <= sum <= 25 * REFERENCE_LIMIT,
            kernel@ =~= patch(image@, width as int, x as int, y as int).take(k as int),
    {
        proof {
            cell_is_within(image@, REFERENCE_LIMIT, width as int, x as int, y as int, k as int);
        }
        kernel.push(25 * cell_of(image, width, x, y, k) - sum);
    }
    assert(kernel@ =~= patch(image@, width as int, x as int, y as int));
    kernel
}

/// A kernel to correlate with: small enough, and with cells that cancel out.
pub open spec fn moderate_kernel(kernel: Seq<i64>) -> bool {
    &&& kernel.len() == 25
    &&& forall|k: int| 0 <= k < 25 ==> -KERNEL_LIMIT <= #[trigger] kernel[k] <= KERNEL_LIMIT
    &&& kernel_sum(kernel, 25) == 0
}

pub(crate) proof fn patches_are_moderate(image: Seq<i64>, width: int, x: int, y: int)
    requires
        modest(image),
    ensures
        moderate_kernel(patch(image, width, x, y)),
{
    let kernel = patch(image, width, x, y);
    assert forall|k: int| 0 <= k < 25 implies -KERNEL_LIMIT <= #[trigger] kernel[k]
        <= KERNEL_LIMIT by {
        centred_is_moderate(image, width, x, y, k);
    }
    patches_sum_to_zero(image, width, x, y, 25);
}

/// The furthest from zero a correlation lies.
pub const CORRELATION_LIMIT: i128 = 49_000_000_000_000_000_000_000_000_000_000_000_000;

/// The furthest from zero the correlation of a reference lies.
pub const MAGNITUDE_LIMIT: i128 = 24_500_000_000_000_000_000_000_000_000_000_000_000;

pub(crate) proof fn correlations_are_limited(
    kernel: Seq<i64>,
    image: Seq<i64>,
    limit: i64,
    width: int,
    x: int,
    y: int,
    count: int,
)
    requires
        moderate_kernel(kernel),
        within(image, limit),
        0 <= limit,
        0 <= count <= 25,
    ensures
        -count * (7_000_000_000_000_000_000 * limit) <= correlation(
            kernel,
            image,
            width,
            x,
            y,
            count,
        ) <= count * (7_000_000_000_000_000_000 * limit),
    decreases count,
{
    let most = 7_000_000_000_000_000_000 * limit;
    if count > 0 {
        correlations_are_limited(kernel, image, limit, width, x, y, count - 1);
        cell_is_within(image, limit, width, x, y, count - 1);
        let (weight, value) = (kernel[count - 1] as int, cell(image, width, x, y, count - 1));
        assert(-7_000_000_000_000_000_000 <= weight <= 7_000_000_000_000_000_000);
        assert(-most <= weight * value <= most) by (nonlinear_arith)
            requires
                -7_000_000_000_000_000_000 <= weight <= 7_000_000_000_000_000_000,
                -limit <= value <= limit,
                most == 7_000_000_000_000_000_000 * limit,
        ;
        assert(count * most == (count - 1) * most + most) by (nonlinear_arith);
        assert(-count * most == -(count - 1) * most - most) by (nonlinear_arith);
    } else {
        assert(-0 * most == 0 && 0 * most == 0) by (nonlinear_arith);
    }
}

/// Correlate a zero-mean kernel with an image neighbourhood.
///
/// Returns the correlation and the neighbourhood's sum, the latter being what
/// selects the reference rung to normalise against.
#[must_use]
pub fn correlate(kernel: &[i64], image: &[i64], width: u32, x: u32, y: u32) -> (result: (i128, i64))
    requires
        moderate_kernel(kernel@),
        moderate(image@),
        x <= 0xffff_fffd,
        y <= 0xffff_fffd,
    ensures
        result.0 == correlation(kernel@, image@, width as int, x as int, y as int, 25),
        result.1 == cell_sum(image@, width as int, x as int, y as int, 25),
        -CORRELATION_LIMIT <= result.0 <= CORRELATION_LIMIT,
        modest(image@) ==> -MAGNITUDE_LIMIT <= result.0 <= MAGNITUDE_LIMIT,
{
    let sum: i64 = sum_cells(image, width, x, y);
    let mut total: i128 = 0;
    for k in 0..25u32
        invariant
            moderate_kernel(kernel@),
            moderate(image@),
            x <= 0xffff_fffd,
            y <= 0xffff_fffd,
            total == correlation(kernel@, image@, width as int, x as int, y as int, k as int),
    {
        let weight: i128 = kernel[k as usize] as i128;
        let value: i128 = cell_of(image, width, x, y, k) as i128;
        proof {
            let (w, h, v) = (width as int, x as int, y as int);
            correlations_are_limited(kernel@, image@, IMAGE_LIMIT, w, h, v, k as int);
            correlations_are_limited(kernel@, image@, IMAGE_LIMIT, w, h, v, k + 1);
        }
        assert(-4_000_000_000_000_000_000_000_000_000_000_000_000 <= weight * value
            <= 4_000_000_000_000_000_000_000_000_000_000_000_000) by {
            cell_is_within(image@, IMAGE_LIMIT, width as int, x as int, y as int, k as int);
            assert(-KERNEL_LIMIT <= kernel@[k as int] <= KERNEL_LIMIT);
            assert(-4_000_000_000_000_000_000_000_000_000_000_000_000 <= weight * value
                <= 4_000_000_000_000_000_000_000_000_000_000_000_000) by (nonlinear_arith)
                requires
                    -7_000_000_000_000_000_000 <= weight <= 7_000_000_000_000_000_000,
                    -280_000_000_000_000_000 <= value <= 280_000_000_000_000_000,
            ;
        }
        total += weight * value;
    }
    proof {
        let (w, h, v) = (width as int, x as int, y as int);
        correlations_are_limited(kernel@, image@, IMAGE_LIMIT, w, h, v, 25);
        if modest(image@) {
            correlations_are_limited(kernel@, image@, REFERENCE_LIMIT, w, h, v, 25);
        }
    }
    (total, sum)
}

/// The centred cells of a neighbourhood cancel out.
pub proof fn patches_sum_to_zero(image: Seq<i64>, width: int, x: int, y: int, count: int)
    requires
        modest(image),
        0 <= count <= 25,
    ensures
        kernel_sum(patch(image, width, x, y), count) == 25 * cell_sum(image, width, x, y, count)
            - count * cell_sum(image, width, x, y, 25),
        count == 25 ==> kernel_sum(patch(image, width, x, y), count) == 0,
    decreases count,
{
    if count > 0 {
        patches_sum_to_zero(image, width, x, y, count - 1);
        centred_is_moderate(image, width, x, y, count - 1);
        let sum = cell_sum(image, width, x, y, 25);
        assert(count * sum == (count - 1) * sum + sum) by (nonlinear_arith);
    } else {
        assert(0 * cell_sum(image, width, x, y, 25) == 0) by (nonlinear_arith);
    }
}

/// The first `count` cells of a kernel against those of a neighbourhood less its
/// mean, twenty-five times over.
pub open spec fn centred_correlation(
    kernel: Seq<i64>,
    image: Seq<i64>,
    width: int,
    x: int,
    y: int,
    count: int,
) -> int
    decreases count,
{
    if count <= 0 {
        0
    } else {
        centred_correlation(kernel, image, width, x, y, count - 1) + kernel[count - 1] * centred(
            image,
            width,
            x,
            y,
            count - 1,
        )
    }
}

/// The mean of a neighbourhood has no part in a correlation: taking it off
/// first changes nothing, whatever the neighbourhood.
pub proof fn the_mean_cancels_out(
    kernel: Seq<i64>,
    image: Seq<i64>,
    width: int,
    x: int,
    y: int,
)
    requires
        kernel_sum(kernel, 25) == 0,
    ensures
        centred_correlation(kernel, image, width, x, y, 25) == 25 * correlation(
            kernel,
            image,
            width,
            x,
            y,
            25,
        ),
{
    means_are_weighed(kernel, image, width, x, y, 25);
    assert(0 * cell_sum(image, width, x, y, 25) == 0) by (nonlinear_arith);
}

proof fn means_are_weighed(
    kernel: Seq<i64>,
    image: Seq<i64>,
    width: int,
    x: int,
    y: int,
    count: int,
)
    requires
        0 <= count,
    ensures
        centred_correlation(kernel, image, width, x, y, count) == 25 * correlation(
            kernel,
            image,
            width,
            x,
            y,
            count,
        ) - kernel_sum(kernel, count) * cell_sum(image, width, x, y, 25),
    decreases count,
{
    let sum = cell_sum(image, width, x, y, 25);
    if count > 0 {
        means_are_weighed(kernel, image, width, x, y, count - 1);
        let weight = kernel[count - 1] as int;
        let value = cell(image, width, x, y, count - 1);
        let before = kernel_sum(kernel, count - 1);
        assert(weight * (25 * value - sum) == 25 * (weight * value) - weight * sum)
            by (nonlinear_arith);
        assert((before + weight) * sum == before * sum + weight * sum) by (nonlinear_arith);
    } else {
        assert(0 * sum == 0) by (nonlinear_arith);
    }
}

/// Adding a constant to a whole image does not change a correlation: that
/// invariance is what makes the score independent of how bright the programme
/// is. Stated of a neighbourhood that lies within the image.
pub proof fn correlation_ignores_brightness(
    kernel: Seq<i64>,
    image: Seq<i64>,
    brighter: Seq<i64>,
    lift: int,
    width: int,
    x: int,
    y: int,
)
    requires
        brighter.len() == image.len(),
        forall|i: int| 0 <= i < image.len() ==> #[trigger] brighter[i] == image[i] + lift,
        forall|k: int|
            0 <= k < 25 ==> 0 <= #[trigger] offset_of(
                pulled_back(x, k % 5),
                pulled_back(y, k / 5),
                width,
            ) < image.len(),
        kernel_sum(kernel, 25) == 0,
    ensures
        correlation(kernel, brighter, width, x, y, 25) == correlation(
            kernel,
            image,
            width,
            x,
            y,
            25,
        ),
{
    correlations_are_lifted(kernel, image, brighter, lift, width, x, y, 25);
    assert(0 * lift == 0) by (nonlinear_arith);
}

proof fn correlations_are_lifted(
    kernel: Seq<i64>,
    image: Seq<i64>,
    brighter: Seq<i64>,
    lift: int,
    width: int,
    x: int,
    y: int,
    count: int,
)
    requires
        brighter.len() == image.len(),
        forall|i: int| 0 <= i < image.len() ==> #[trigger] brighter[i] == image[i] + lift,
        forall|k: int|
            0 <= k < 25 ==> 0 <= #[trigger] offset_of(
                pulled_back(x, k % 5),
                pulled_back(y, k / 5),
                width,
            ) < image.len(),
        0 <= count <= 25,
    ensures
        correlation(kernel, brighter, width, x, y, count) == correlation(
            kernel,
            image,
            width,
            x,
            y,
            count,
        ) + kernel_sum(kernel, count) * lift,
    decreases count,
{
    if count > 0 {
        correlations_are_lifted(kernel, image, brighter, lift, width, x, y, count - 1);
        let k = count - 1;
        assert(0 <= offset_of(pulled_back(x, k % 5), pulled_back(y, k / 5), width) < image.len());
        let weight = kernel[k] as int;
        let value = cell(image, width, x, y, k);
        let before = kernel_sum(kernel, k);
        assert(cell(brighter, width, x, y, k) == value + lift);
        assert(weight * (value + lift) == weight * value + weight * lift) by (nonlinear_arith);
        assert((before + weight) * lift == before * lift + weight * lift) by (nonlinear_arith);
    } else {
        assert(0 * lift == 0) by (nonlinear_arith);
    }
}

proof fn composites_are_modest(a: u32, b: u32, background: int)
    requires
        !unphysical(a, b),
        0 <= background <= 255_000_000,
    ensures
        -REFERENCE_LIMIT <= composited(a, b, background) <= REFERENCE_LIMIT,
{
    slope_is_at_least_one(a);
    coefficients_are_limited(b);
    let slope = in_millionths(a);
    let top = (background - 255 * in_millionths(b)) * 1_000_000;
    nearest_bounds(top, slope);
    let whole = nearest(top, slope);
    assert(-140_000_000_000_000_000 <= whole <= 140_000_000_000_000_000) by (nonlinear_arith)
        requires
            slope >= 1_000_000,
            -137_000_000_000_000_000_000_000 <= top <= 137_000_000_000_000_000_000_000,
            2 * (whole * slope) <= 2 * top + slope,
            2 * top + slope < 2 * (whole * slope) + 2 * slope,
    ;
}

proof fn removals_are_moderate(a: u32, b: u32, observed: int)
    requires
        0 <= observed <= 255_000_000,
    ensures
        -IMAGE_LIMIT <= removed(a, b, observed) <= IMAGE_LIMIT,
{
    coefficients_are_limited(a);
    coefficients_are_limited(b);
    let product = in_millionths(a) * observed;
    assert(-137_000_000_000_000_000_000_000 <= product <= 137_000_000_000_000_000_000_000)
        by (nonlinear_arith)
        requires
            product == in_millionths(a) * observed,
            -536_870_912_000_000 <= in_millionths(a) <= 536_870_912_000_000,
            0 <= observed <= 255_000_000,
    ;
    nearest_bounds(product, 1_000_000);
}

pub(crate) proof fn references_are_modest(logo: LogoView, level: int)
    requires
        logo.physical(),
        logo.a.len() == logo.b.len(),
        0 <= level < 32,
    ensures
        modest(reference(logo, level)),
{
    let image = reference(logo, level);
    assert forall|i: int| 0 <= i < image.len() implies -REFERENCE_LIMIT <= #[trigger] image[i]
        <= REFERENCE_LIMIT by {
        assert(!unphysical(logo.a[i], logo.b[i]));
        composites_are_modest(logo.a[i], logo.b[i], level * 8_000_000);
    }
}

/// Composite the logo onto one uniform grey background.
fn build_reference(logo: &LogoData, level: u32) -> (image: Vec<i64>)
    requires
        logo@.consistent(),
        logo@.physical(),
        level < 32,
    ensures
        image@ == reference(logo@, level as int),
        modest(image@),
{
    let mut image: Vec<i64> = Vec::new();
    let background: i64 = level as i64 * 8_000_000;
    for i in 0..logo.a.len()
        invariant
            logo@.consistent(),
            logo@.physical(),
            level < 32,
            background == level * 8_000_000,
            image@ =~= reference(logo@, level as int).take(i as int),
    {
        proof {
            assert(!unphysical(logo@.a[i as int], logo@.b[i as int]));
            composites_are_modest(logo@.a[i as int], logo@.b[i as int], background as int);
        }
        image.push(logo.apply(i, background) as i64);
    }
    proof {
        references_are_modest(logo@, level as int);
    }
    assert(image@ =~= reference(logo@, level as int));
    image
}

/// Composite the logo onto a ladder of uniform grey backgrounds.
fn build_reference_ladder(logo: &LogoData) -> (ladder: Vec<Vec<i64>>)
    requires
        logo@.consistent(),
        logo@.physical(),
    ensures
        is_ladder(ladder@, logo@),
{
    let mut ladder: Vec<Vec<i64>> = Vec::new();
    for level in 0..32u32
        invariant
            logo@.consistent(),
            logo@.physical(),
            ladder@.len() == level,
            forall|k: int|
                0 <= k < level ==> (#[trigger] ladder@[k])@ == reference(logo@, k) && modest(
                    ladder@[k]@,
                ),
    {
        ladder.push(build_reference(logo, level));
    }
    ladder
}

/// The reference images of a logo, darkest first.
spec fn is_ladder(ladder: Seq<Vec<i64>>, logo: LogoView) -> bool {
    &&& ladder.len() == 32
    &&& forall|k: int|
        0 <= k < 32 ==> (#[trigger] ladder[k])@ == reference(logo, k) && modest(ladder[k]@)
}

/// Points a kernel can be centred on.
pub open spec fn inner_points(points: Seq<(u32, u32)>, width: int, height: int) -> bool {
    forall|i: int|
        0 <= i < points.len() ==> 2 <= (#[trigger] points[i]).0 < width - 2 && 2 <= points[i].1
            < height - 2
}

/// Choose the pixels whose neighbourhoods carry the most shape.
fn select_points(rect: Rect, middle: &[i64], Ghost(logo): Ghost<LogoView>) -> (points: Vec<
    (u32, u32),
>)
    requires
        rect == logo.rect,
        rect.valid(),
        rect.width >= 5,
        rect.height >= 5,
        middle@ == reference(logo, 16),
        modest(middle@),
    ensures
        points@ == points_of(logo),
        points@.len() <= MAX_MASK_POINTS,
        inner_points(points@, rect.width as int, rect.height as int),
{
    let (width, height): (u32, u32) = (rect.width, rect.height);
    let (across, down): (u32, u32) = (width - 4, height - 4);
    let ghost (w, h) = (width as int, height as int);
    let mut pixels: Vec<(u32, u32)> = Vec::new();
    let mut keys: Vec<i128> = Vec::new();
    assert(0 * across as int == 0) by (nonlinear_arith);
    for row in 0..down
        invariant
            w == width,
            h == height,
            across == width - 4,
            down == height - 4,
            width >= 5,
            height >= 5,
            width <= 0xffff_ffff,
            modest(middle@),
            pixels@ == varied(middle@, w, h, row * across),
            keys@ =~= by_energy(middle@, w, pixels@),
            inner_points(pixels@, w, h),
    {
        for column in 0..across
            invariant
                w == width,
                h == height,
                across == width - 4,
                down == height - 4,
                row < down,
                width >= 5,
                height >= 5,
                modest(middle@),
                pixels@ == varied(middle@, w, h, row * across + column),
                keys@ =~= by_energy(middle@, w, pixels@),
                inner_points(pixels@, w, h),
        {
            let (x, y): (u32, u32) = (column + 2, row + 2);
            proof {
                lemma_fundamental_div_mod_converse(
                    row * across + column,
                    across as int,
                    row as int,
                    column as int,
                );
                patches_are_moderate(middle@, w, x as int, y as int);
            }
            let kernel = zero_mean_patch(middle, width, x, y);
            let (energy_here, _sum): (i128, i64) = correlate(&kernel, middle, width, x, y);
            if energy_here > 0 {
                pixels.push((x, y));
                keys.push(-energy_here);
                assert(keys@ =~= by_energy(middle@, w, pixels@));
            }
        }
        assert((row + 1) * across == row * across + across) by (nonlinear_arith);
    }
    let order = stable_order(&keys);
    let area: u64 = rect.area();
    let share: u64 = area / 4;
    let least: u64 = if share < 1 { 1 } else { share };
    let most: u64 = if least > MAX_MASK_POINTS { MAX_MASK_POINTS } else { least };
    let wanted: usize = if most < pixels.len() as u64 { most as usize } else { pixels.len() };
    let mut points: Vec<(u32, u32)> = Vec::new();
    for i in 0..wanted
        invariant
            wanted <= pixels@.len(),
            is_stable_order(keys@, order@),
            keys@.len() == pixels@.len(),
            points@ =~= order@.take(i as int).map_values(|k: usize| pixels@[k as int]),
            inner_points(pixels@, w, h),
            inner_points(points@, w, h),
    {
        let index: usize = order[i];
        assert(2 <= pixels@[index as int].0 < w - 2);
        points.push(pixels[index]);
    }
    assert(down * across == (w - 4) * (h - 4)) by (nonlinear_arith)
        requires
            down == h - 4,
            across == w - 4,
    ;
    assert(points@ =~= points_of(logo));
    points
}

/// A logo compiled into the form the per-frame scorer needs.
#[derive(Debug)]
pub struct LogoDetector {
    logo: LogoData,
    /// Correlation points, as offsets within the logo rectangle.
    points: Vec<(u32, u32)>,
    /// Zero-mean kernel per point.
    kernels: Vec<Vec<i64>>,
    /// The size of the correlation each reference image produces, rung by
    /// rung for each point in turn.
    magnitudes: Vec<i128>,
    /// Confidence weight of each, for points whose reference correlation was
    /// weak.
    weights: Vec<i64>,
    /// Score the reference logo achieves, used to normalise to roughly one.
    reference_score: i128,
}

impl View for LogoDetector {
    type V = LogoView;

    closed spec fn view(&self) -> LogoView {
        self.logo@
    }
}

/// The kernels of a logo's points.
spec fn are_kernels(kernels: Seq<Vec<i64>>, logo: LogoView, count: int) -> bool {
    &&& kernels.len() == count
    &&& forall|i: int|
        0 <= i < count ==> (#[trigger] kernels[i])@ == kernel_at(logo, points_of(logo)[i])
            && moderate_kernel(kernels[i]@)
}

/// The magnitudes of a logo's points.
spec fn are_magnitudes(magnitudes: Seq<i128>, logo: LogoView, count: int) -> bool {
    &&& magnitudes.len() == count
    &&& forall|n: int|
        0 <= n < count ==> 0 <= #[trigger] magnitudes[n] <= MAGNITUDE_LIMIT && magnitudes[n]
            == magnitude(logo, n)
}

/// The weights of a logo's points.
spec fn are_weights(weights: Seq<i64>, logo: LogoView, count: int) -> bool {
    &&& weights.len() == count
    &&& forall|n: int|
        0 <= n < count ==> 0 <= #[trigger] weights[n] <= 1_000_000 && weights[n] == weight_of(
            magnitude(logo, n),
            floor_of(logo),
        )
}

/// Everything compiled but the reference score is what the logo implies.
spec fn is_compiled(
    logo: LogoView,
    points: Seq<(u32, u32)>,
    kernels: Seq<Vec<i64>>,
    magnitudes: Seq<i128>,
    weights: Seq<i64>,
) -> bool {
    &&& logo.consistent()
    &&& logo.physical()
    &&& points == points_of(logo)
    &&& points.len() <= MAX_MASK_POINTS
    &&& inner_points(points, logo.rect.width as int, logo.rect.height as int)
    &&& are_kernels(kernels, logo, points.len() as int)
    &&& are_magnitudes(magnitudes, logo, magnitude_count(logo))
    &&& are_weights(weights, logo, magnitude_count(logo))
}

/// Total normalised correlation of an image against a logo's kernels.
fn score_image(
    points: &Vec<(u32, u32)>,
    kernels: &Vec<Vec<i64>>,
    magnitudes: &Vec<i128>,
    weights: &Vec<i64>,
    width: u32,
    image: &[i64],
    Ghost(logo): Ghost<LogoView>,
) -> (score: i128)
    requires
        is_compiled(logo, points@, kernels@, magnitudes@, weights@),
        width == logo.rect.width,
        moderate(image@),
    ensures
        score == image_score(logo, image@, points@.len() as int),
        -1_500_000_000_000_000 <= score <= 1_500_000_000_000_000,
{
    let mut total: i128 = 0;
    for index in 0..points.len()
        invariant
            is_compiled(logo, points@, kernels@, magnitudes@, weights@),
            width == logo.rect.width,
            moderate(image@),
            total == image_score(logo, image@, index as int),
            -index * 1_000_000_000_000 <= total <= index * 1_000_000_000_000,
    {
        let (x, y): (u32, u32) = points[index];
        assert(2 <= points@[index as int].0 < width - 2);
        assert(kernels@[index as int]@ == kernel_at(logo, points@[index as int]));
        let (found, sum): (i128, i64) = correlate(&kernels[index], image, width, x, y);
        // Which rung of the reference ladder this neighbourhood sits on.
        let level: i64 = if sum < 0 { 0 } else { sum / 25_000_000 };
        let step: usize = if level > 255 { 31 } else { (level / 8) as usize };
        let n: usize = index * 32 + step;
        let magnitude_here: i128 = magnitudes[n];
        assert(magnitudes@[n as int] == magnitude(logo, n as int));
        assert(weights@[n as int] == weight_of(magnitude(logo, n as int), floor_of(logo)));
        // Clamping discards correlation beyond what the logo alone could
        // produce; anything above came from the picture, not the logo.
        let share: i128 = normalise(found, magnitude_here);
        let weight: i128 = weights[n] as i128;
        assert(-1_000_000_000_000 <= share * weight <= 1_000_000_000_000) by (nonlinear_arith)
            requires
                -1_000_000 <= share <= 1_000_000,
                0 <= weight <= 1_000_000,
        ;
        total += share * weight;
    }
    total
}

/// A correlation as a share of what the logo alone would produce.
fn normalise(found: i128, magnitude: i128) -> (share: i128)
    requires
        -CORRELATION_LIMIT <= found <= CORRELATION_LIMIT,
        0 <= magnitude <= MAGNITUDE_LIMIT,
    ensures
        share == normalised(found as int, magnitude as int),
        -1_000_000 <= share <= 1_000_000,
{
    if magnitude <= 0 {
        return 0;
    }
    let ghost (top, bottom) = (found * 1_000_000, magnitude as int);
    if found >= magnitude {
        proof {
            nearest_is_monotonic(1_000_000 * bottom, top, bottom);
            nearest_of_multiple(1_000_000, bottom);
        }
        1_000_000
    } else if found <= -magnitude {
        proof {
            nearest_is_monotonic(top, -1_000_000 * bottom, bottom);
            nearest_of_multiple(-1_000_000, bottom);
        }
        -1_000_000
    } else if found >= 0 {
        share_of(found as u128, magnitude as u128) as i128
    } else {
        let rest: i128 = found + magnitude;
        let share: i128 = share_of(rest as u128, magnitude as u128) as i128 - 1_000_000;
        proof {
            nearest_bounds(1_000_000 * rest, bottom);
            assert((share + 1_000_000) * bottom == share * bottom + 1_000_000 * bottom)
                by (nonlinear_arith);
            nearest_is(top, bottom, share as int);
        }
        share
    }
}

impl LogoDetector {
    /// What was compiled is what the logo implies, and the logo can be
    /// detected.
    pub closed spec fn wf(self) -> bool {
        &&& is_compiled(
            self.logo@,
            self.points@,
            self.kernels@,
            self.magnitudes@,
            self.weights@,
        )
        &&& detectable(self.logo@)
        &&& self.reference_score == reference_score(self.logo@)
        &&& -1_500_000_000_000_000 <= self.reference_score <= 1_500_000_000_000_000
    }

    /// Compile a logo for detection.
    ///
    /// Returns `None` when the rectangle is too small to hold a kernel, or
    /// when the logo carries no correlatable shape.
    #[must_use]
    pub fn new(logo: LogoData) -> (detector: Option<LogoDetector>)
        requires
            logo@.consistent(),
            logo@.physical(),
        ensures
            detector is Some <==> detectable(logo@),
            detector matches Some(detector) ==> detector.wf() && detector@ == logo@,
    {
        let (width, height): (u32, u32) = (logo.rect.width, logo.rect.height);
        if width < KERNEL || height < KERNEL {
            return None;
        }
        let ghost view = logo@;
        let ladder = build_reference_ladder(&logo);
        assert(ladder@[16]@ == reference(view, 16));
        let points = select_points(logo.rect, &ladder[16], Ghost(view));
        if points.len() == 0 {
            return None;
        }
        let kernels = build_kernels(&ladder, &points, width, Ghost(view));
        let (magnitudes, floor, rest) = build_magnitudes(
            &ladder,
            &points,
            &kernels,
            width,
            Ghost(view),
        );
        let count: i128 = magnitudes.len() as i128;
        let ghost total = total_magnitude(view, magnitude_count(view));
        proof {
            lemma_fundamental_div_mod_converse(total, 5 * count, floor as int, rest as int);
            if floor >= FAINT {
                assert(floor * (5 * count) >= FAINT * (5 * count)) by (nonlinear_arith)
                    requires
                        floor >= FAINT,
                        count >= 0,
                ;
            } else {
                assert(0 <= floor * (5 * count) <= 193_789_601_325 * 240_000) by (nonlinear_arith)
                    requires
                        0 <= floor <= 193_789_601_325,
                        0 <= count <= 48_000,
                ;
            }
        }
        // A mean of this size or more is no fainter than it is five times over.
        if floor < FAINT && floor * (5 * count) + rest <= FAINT * count {
            return None;
        }
        assert(floor > 0) by (nonlinear_arith)
            requires
                floor * (5 * count) + rest > 193_789_601_325 * count,
                rest < 5 * count,
                count > 0,
        ;
        let weights = build_weights(&magnitudes, floor, Ghost(view));
        assert(ladder@[2]@ == reference(view, 2));
        let reference: i128 = score_image(
            &points,
            &kernels,
            &magnitudes,
            &weights,
            width,
            &ladder[2],
            Ghost(view),
        );
        let size: i128 = if reference < 0 { -reference } else { reference };
        if size <= FAINT_SCORE {
            return None;
        }
        Some(
            LogoDetector {
                logo,
                points,
                kernels,
                magnitudes,
                weights,
                reference_score: reference,
            },
        )
    }

    /// The logo this detector was built from.
    #[must_use]
    pub fn logo(&self) -> (logo: &LogoData)
        ensures
            logo@ == self@,
    {
        &self.logo
    }

    /// How many correlation points the logo yielded.
    #[must_use]
    pub fn point_count(&self) -> (count: usize)
        requires
            self.wf(),
        ensures
            count == points_of(self@).len(),
            1 <= count <= MAX_MASK_POINTS,
    {
        self.points.len()
    }

    /// Score one frame, in millionths: positive when the logo is present,
    /// negative when it is confidently absent, near zero when the frame
    /// carries no information.
    #[must_use]
    pub fn score(&self, frame: &Frame<'_>) -> (score: i64)
        requires
            self.wf(),
        ensures
            score == frame_score(self@, *frame),
    {
        let rect: Rect = self.logo.rect;
        if !rect.fits_within(frame.width, frame.height) {
            return 0;
        }
        let ghost view = self@;
        let mut observed: Vec<i64> = Vec::new();
        let mut cleaned: Vec<i64> = Vec::new();
        assert(0 * rect.width as int == 0) by (nonlinear_arith);
        for row in 0..rect.height
            invariant
                self.wf(),
                view == self@,
                rect == view.rect,
                rect.valid(),
                observed@ =~= observed_in(view, *frame).take(row * rect.width),
                cleaned@ =~= cleaned_in(view, *frame).take(row * rect.width),
                moderate(observed@),
                moderate(cleaned@),
                observed@.len() == row * rect.width,
                cleaned@.len() == row * rect.width,
        {
            for column in 0..rect.width
                invariant
                    self.wf(),
                    view == self@,
                    rect == view.rect,
                    rect.valid(),
                    row < rect.height,
                    observed@ =~= observed_in(view, *frame).take(row * rect.width + column),
                    cleaned@ =~= cleaned_in(view, *frame).take(row * rect.width + column),
                    moderate(observed@),
                    moderate(cleaned@),
                    observed@.len() == row * rect.width + column,
                    cleaned@.len() == row * rect.width + column,
            {
                let source: u64 = pixel_offset(rect.x + column, rect.y + row, frame.width);
                let target: u64 = pixel_offset(column, row, rect.width);
                proof {
                    offsets_fit(column as int, row as int, rect.width as int, rect.height as int);
                    lemma_fundamental_div_mod_converse(
                        target as int,
                        rect.width as int,
                        row as int,
                        column as int,
                    );
                }
                let value: i64 = if source < frame.luma.len() as u64 {
                    frame.luma[source as usize] as i64 * 1_000_000
                } else {
                    0
                };
                assert(target < self.logo.a.len());
                assert(value == observed_in(view, *frame)[target as int]);
                proof {
                    removals_are_moderate(
                        view.a[target as int],
                        view.b[target as int],
                        value as int,
                    );
                }
                let clean: i64 = self.logo.remove(target as usize, value) as i64;
                observed.push(value);
                cleaned.push(clean);
            }
            assert((row + 1) * rect.width == row * rect.width + rect.width) by (nonlinear_arith);
        }
        assert(rect.height * rect.width == rect.width * rect.height) by (nonlinear_arith);
        assert(observed@ =~= observed_in(view, *frame));
        assert(cleaned@ =~= cleaned_in(view, *frame));
        let present: i128 = self.match_of(&observed);
        let absent: i128 = self.match_of(&cleaned);
        let evidence: i128 = (if present > 0 { present } else { 0 }) + (if absent < 0 {
            absent
        } else {
            0
        });
        let top: i128 = evidence * 1_000_000;
        let bottom: i128 = if self.reference_score > 0 {
            self.reference_score
        } else {
            -self.reference_score
        };
        proof {
            lemma_fundamental_div_mod(top as int, bottom as int);
            let whole = top as int / bottom as int;
            assert(-0x3fff_ffff_ffff_ffff <= whole <= 0x3fff_ffff_ffff_ffff) by (nonlinear_arith)
                requires
                    bottom > 119_209,
                    -1_500_000_000_000_000_000_000 <= top <= 1_500_000_000_000_000_000_000,
                    top == bottom * whole + top as int % bottom as int,
                    0 <= top as int % bottom as int,
                    top as int % bottom as int <= bottom,
            ;
        }
        floor_quotient(top, bottom) as i64
    }

    /// An image's score, counted in the direction of the reference score.
    fn match_of(&self, image: &[i64]) -> (score: i128)
        requires
            self.wf(),
            moderate(image@),
        ensures
            score == towards(
                image_score(self@, image@, points_of(self@).len() as int),
                reference_score(self@),
            ),
            -1_500_000_000_000_000 <= score <= 1_500_000_000_000_000,
    {
        let score: i128 = score_image(
            &self.points,
            &self.kernels,
            &self.magnitudes,
            &self.weights,
            self.logo.rect.width,
            image,
            Ghost(self@),
        );
        if self.reference_score > 0 {
            score
        } else {
            -score
        }
    }
}

/// The kernel of each point, from the darkest reference.
fn build_kernels(
    ladder: &Vec<Vec<i64>>,
    points: &Vec<(u32, u32)>,
    width: u32,
    Ghost(logo): Ghost<LogoView>,
) -> (kernels: Vec<Vec<i64>>)
    requires
        is_ladder(ladder@, logo),
        points@ == points_of(logo),
        width == logo.rect.width,
        inner_points(points@, logo.rect.width as int, logo.rect.height as int),
    ensures
        are_kernels(kernels@, logo, points@.len() as int),
{
    let mut kernels: Vec<Vec<i64>> = Vec::new();
    assert(ladder@[0]@ == reference(logo, 0));
    for i in 0..points.len()
        invariant
            ladder@.len() == 32,
            ladder@[0]@ == reference(logo, 0),
            modest(ladder@[0]@),
            points@ == points_of(logo),
            width == logo.rect.width,
            inner_points(points@, logo.rect.width as int, logo.rect.height as int),
            are_kernels(kernels@, logo, i as int),
    {
        let (x, y): (u32, u32) = points[i];
        assert(2 <= points@[i as int].0 < width - 2);
        proof {
            patches_are_moderate(ladder@[0]@, width as int, x as int, y as int);
        }
        kernels.push(zero_mean_patch(&ladder[0], width, x, y));
    }
    kernels
}

/// The size of the correlation of each kernel with each reference, and a fifth
/// of their mean, with what is left over.
fn build_magnitudes(
    ladder: &Vec<Vec<i64>>,
    points: &Vec<(u32, u32)>,
    kernels: &Vec<Vec<i64>>,
    width: u32,
    Ghost(logo): Ghost<LogoView>,
) -> (result: (Vec<i128>, i128, i128))
    requires
        is_ladder(ladder@, logo),
        points@ == points_of(logo),
        0 < points@.len() <= MAX_MASK_POINTS,
        width == logo.rect.width,
        inner_points(points@, logo.rect.width as int, logo.rect.height as int),
        are_kernels(kernels@, logo, points@.len() as int),
    ensures
        are_magnitudes(result.0@, logo, magnitude_count(logo)),
        0 <= result.1 <= MAGNITUDE_LIMIT / 5,
        0 <= result.2 < 5 * magnitude_count(logo),
        result.1 * (5 * magnitude_count(logo)) + result.2 == total_magnitude(
            logo,
            magnitude_count(logo),
        ),
{
    let mut magnitudes: Vec<i128> = Vec::new();
    let count: usize = points.len() * 32;
    let divisor: i128 = 5 * count as i128;
    // The total itself may be too large to hold.
    let mut floor: i128 = 0;
    let mut rest: i128 = 0;
    assert(0 * divisor as int == 0) by (nonlinear_arith);
    for n in 0..count
        invariant
            is_ladder(ladder@, logo),
            points@ == points_of(logo),
            0 < points@.len() <= MAX_MASK_POINTS,
            count == points@.len() * 32,
            divisor == 5 * count,
            width == logo.rect.width,
            inner_points(points@, logo.rect.width as int, logo.rect.height as int),
            are_kernels(kernels@, logo, points@.len() as int),
            are_magnitudes(magnitudes@, logo, n as int),
            floor * divisor + rest == total_magnitude(logo, n as int),
            0 <= rest < divisor,
            0 <= floor <= MAGNITUDE_LIMIT / 5,
            total_magnitude(logo, n as int) <= n * MAGNITUDE_LIMIT,
    {
        let (index, level): (usize, usize) = (n / 32, n % 32);
        let (x, y): (u32, u32) = points[index];
        assert(2 <= points@[index as int].0 < width - 2);
        assert(kernels@[index as int]@ == kernel_at(logo, points@[index as int]));
        assert(ladder@[level as int]@ == reference(logo, level as int));
        proof {
            modest_is_moderate(ladder@[level as int]@);
        }
        let (found, _sum): (i128, i64) = correlate(&kernels[index], &ladder[level], width, x, y);
        let size: i128 = if found < 0 { -found } else { found };
        assert(size == magnitude(logo, n as int));
        magnitudes.push(size);
        let (whole, more): (i128, i128) = (size / divisor, size % divisor);
        let ghost before = floor as int;
        proof {
            lemma_fundamental_div_mod(size as int, divisor as int);
            assert(whole <= size) by (nonlinear_arith)
                requires
                    whole == size as int / divisor as int,
                    size >= 0,
                    divisor >= 1,
            ;
            assert((before + whole) * divisor == before * divisor + divisor * whole)
                by (nonlinear_arith);
            assert((before + whole + 1) * divisor == before * divisor + divisor * whole + divisor)
                by (nonlinear_arith);
        }
        floor = floor + whole;
        rest = rest + more;
        if rest >= divisor {
            floor = floor + 1;
            rest = rest - divisor;
        }
        proof {
            let total = total_magnitude(logo, n + 1);
            assert(floor * divisor + rest == total);
            assert(total <= (n + 1) * MAGNITUDE_LIMIT);
            assert(5 * floor <= 24_500_000_000_000_000_000_000_000_000_000_000_000)
                by (nonlinear_arith)
                requires
                    floor * divisor + rest <= (n + 1)
                        * 24_500_000_000_000_000_000_000_000_000_000_000_000,
                    n + 1 <= count,
                    divisor == 5 * count,
                    rest >= 0,
                    count > 0,
                    floor >= 0,
            ;
        }
    }
    (magnitudes, floor, rest)
}

/// The confidence weight of each magnitude.
fn build_weights(
    magnitudes: &Vec<i128>,
    floor: i128,
    Ghost(logo): Ghost<LogoView>,
) -> (weights: Vec<i64>)
    requires
        are_magnitudes(magnitudes@, logo, magnitude_count(logo)),
        floor == floor_of(logo),
        0 < floor <= MAGNITUDE_LIMIT / 5,
    ensures
        are_weights(weights@, logo, magnitude_count(logo)),
{
    let mut weights: Vec<i64> = Vec::new();
    for n in 0..magnitudes.len()
        invariant
            are_magnitudes(magnitudes@, logo, magnitude_count(logo)),
            floor == floor_of(logo),
            0 < floor <= MAGNITUDE_LIMIT / 5,
            are_weights(weights@, logo, n as int),
    {
        assert(magnitudes@[n as int] == magnitude(logo, n as int));
        let magnitude_here: i128 = magnitudes[n];
        let weight: i64 = if magnitude_here >= floor {
            proof {
                nearest_is_monotonic(1_000_000 * floor, magnitude_here * 1_000_000, floor as int);
                nearest_of_multiple(1_000_000, floor as int);
            }
            1_000_000
        } else {
            share_of(magnitude_here as u128, floor as u128) as i64
        };
        weights.push(weight);
    }
    weights
}

} // verus!
