//! What holds of how a known logo is recognised in a frame.

use vstd::prelude::*;
use vstd::arithmetic::div_mod::lemma_fundamental_div_mod;
use vstd::arithmetic::div_mod::lemma_fundamental_div_mod_converse;
use vstd::arithmetic::div_mod::lemma_mod_bound;
use crate::analyze::logo::detect::by_energy;
use crate::analyze::logo::detect::cell;
use crate::analyze::logo::detect::cell_sum;
use crate::analyze::logo::detect::centred;
use crate::analyze::logo::detect::cleaned_in;
use crate::analyze::logo::detect::correlation;
use crate::analyze::logo::detect::correlations_are_limited;
use crate::analyze::logo::detect::detectable;
use crate::analyze::logo::detect::energy;
use crate::analyze::logo::detect::floor_of;
use crate::analyze::logo::detect::frame_score;
use crate::analyze::logo::detect::image_score;
use crate::analyze::logo::detect::magnitude;
use crate::analyze::logo::detect::magnitude_count;
use crate::analyze::logo::detect::normalised;
use crate::analyze::logo::detect::observed_in;
use crate::analyze::logo::detect::patch;
use crate::analyze::logo::detect::patches_are_moderate;
use crate::analyze::logo::detect::points_of;
use crate::analyze::logo::detect::pulled_back;
use crate::analyze::logo::detect::reference;
use crate::analyze::logo::detect::reference_score;
use crate::analyze::logo::detect::references_are_modest;
use crate::analyze::logo::detect::rung;
use crate::analyze::logo::detect::total_magnitude;
use crate::analyze::logo::detect::varied;
use crate::analyze::logo::detect::wanted_points;
use crate::analyze::logo::detect::weight_of;
use crate::analyze::logo::detect::REFERENCE_LIMIT;
use crate::analyze::logo::learned::no_logo_changes_nothing;
use crate::analyze::logo::model::composited;
use crate::analyze::logo::model::LogoView;
use crate::analyze::logo::single::ONE;
use crate::analyze::logo::single::ZERO;
use crate::arith::nearest_is_monotonic;
use crate::arith::nearest_of_multiple;
use crate::media::frames::offsets_fit;
use crate::media::frames::Frame;
use crate::order::is_stable_order;
use crate::order::ranking;
use crate::order::stable_order_exists;

verus! {

/// The patch around a pixel is the five by five around it, row by row.
pub proof fn patches_are_what_lies_around(
    image: Seq<i64>,
    width: int,
    x: int,
    y: int,
    dx: int,
    dy: int,
)
    requires
        x >= 2,
        y >= 2,
        -2 <= dx <= 2,
        -2 <= dy <= 2,
        0 <= (y + dy) * width + (x + dx) < image.len(),
    ensures
        cell(image, width, x, y, 5 * (dy + 2) + (dx + 2)) == image[(y + dy) * width + (x + dx)],
{
}

/// How well a patch matches is its share of what the logo itself gives: all of
/// it counts as one, its opposite as minus one, nothing as nothing, and no match
/// counts for more. A better match never counts for less, and where the logo
/// itself gives nothing nothing is counted.
pub proof fn matches_are_shares_of_the_logo(low: int, high: int, magnitude: int)
    requires
        magnitude > 0,
        low <= high,
    ensures
        normalised(magnitude, magnitude) == 1_000_000,
        normalised(-magnitude, magnitude) == -1_000_000,
        normalised(0, magnitude) == 0,
        2 * low == magnitude ==> normalised(low, magnitude) == 500_000,
        low >= magnitude ==> normalised(low, magnitude) == 1_000_000,
        low <= -magnitude ==> normalised(low, magnitude) == -1_000_000,
        -1_000_000 <= normalised(low, magnitude) <= normalised(high, magnitude) <= 1_000_000,
        normalised(low, 0) == 0,
{
    nearest_of_multiple(1_000_000, magnitude);
    nearest_of_multiple(-1_000_000, magnitude);
    nearest_of_multiple(0, magnitude);
    assert(0 * magnitude == 0) by (nonlinear_arith);
    assert(-1_000_000 * magnitude == -magnitude * 1_000_000) by (nonlinear_arith);
    nearest_is_monotonic(low * 1_000_000, high * 1_000_000, magnitude);
    if 2 * low == magnitude {
        nearest_of_multiple(500_000, magnitude);
    }
    if low >= magnitude {
        nearest_is_monotonic(magnitude * 1_000_000, low * 1_000_000, magnitude);
    }
    if low <= -magnitude {
        nearest_is_monotonic(low * 1_000_000, -magnitude * 1_000_000, magnitude);
    }
}

/// A point of the logo that gives as much as the floor counts in full, one that
/// gives nothing does not count, and between the two the more it gives the more
/// it counts.
pub proof fn faint_points_count_for_less(low: int, high: int, floor: int)
    requires
        floor > 0,
        0 <= low <= high,
    ensures
        weight_of(0, floor) == 0,
        low >= floor ==> weight_of(low, floor) == 1_000_000,
        2 * low == floor ==> weight_of(low, floor) == 500_000,
        0 <= weight_of(low, floor) <= weight_of(high, floor) <= 1_000_000,
{
    nearest_of_multiple(0, floor);
    nearest_of_multiple(1_000_000, floor);
    assert(0 * floor == 0) by (nonlinear_arith);
    nearest_is_monotonic(0, low * 1_000_000, floor);
    nearest_is_monotonic(low * 1_000_000, high * 1_000_000, floor);
    if low >= floor {
        nearest_is_monotonic(floor * 1_000_000, low * 1_000_000, floor);
    }
    if 2 * low == floor {
        nearest_of_multiple(500_000, floor);
    }
}

/// A patch is compared with the logo over a background as bright as the patch:
/// there is one for every eight levels, and what is out of range is compared
/// with the darkest or the brightest.
pub proof fn patches_are_compared_at_their_brightness(sum: int)
    ensures
        0 <= rung(sum) < 32,
        0 <= sum < 256 * 25_000_000 ==> 8 * rung(sum) * 25_000_000 <= sum < 8 * (rung(sum) + 1)
            * 25_000_000,
        sum < 0 ==> rung(sum) == 0,
        sum >= 256 * 25_000_000 ==> rung(sum) == 31,
{
}

/// A quarter of the logo is looked at: one point at least, fifteen hundred at
/// most, and no more than there are.
pub proof fn a_quarter_of_the_logo_is_looked_at(area: int, available: int)
    requires
        area > 0,
        available > 0,
    ensures
        1 <= wanted_points(area, available) <= available,
        wanted_points(area, available) <= 1_500,
        area >= 4 ==> 4 * wanted_points(area, available) <= area,
        wanted_points(area, available) < available && wanted_points(area, available) < 1_500
            ==> area < 4 * (wanted_points(area, available) + 1),
{
}

proof fn varied_points_vary(image: Seq<i64>, width: int, height: int, count: int)
    requires
        width >= 5,
        height >= 5,
        0 <= count <= (width - 4) * (height - 4),
        width <= u32::MAX,
        height <= u32::MAX,
    ensures
        varied(image, width, height, count).len() <= count,
        forall|i: int|
            0 <= i < varied(image, width, height, count).len() ==> {
                let point = #[trigger] varied(image, width, height, count)[i];
                &&& 2 <= point.0 < width - 2
                &&& 2 <= point.1 < height - 2
                &&& energy(image, width, point.0 as int, point.1 as int) > 0
            },
    decreases count,
{
    if count > 0 {
        varied_points_vary(image, width, height, count - 1);
        let across = width - 4;
        let x = 2 + (count - 1) % across;
        let y = 2 + (count - 1) / across;
        lemma_mod_bound(count - 1, across);
        lemma_fundamental_div_mod(count - 1, across);
        let row = (count - 1) / across;
        assert(0 <= row < height - 4) by (nonlinear_arith)
            requires
                across >= 1,
                0 <= count - 1 < across * (height - 4),
                count - 1 == across * row + (count - 1) % across,
                0 <= (count - 1) % across < across,
        ;
        let before = varied(image, width, height, count - 1);
        let after = varied(image, width, height, count);
        assert forall|i: int| 0 <= i < after.len() implies {
            let point = #[trigger] after[i];
            &&& 2 <= point.0 < width - 2
            &&& 2 <= point.1 < height - 2
            &&& energy(image, width, point.0 as int, point.1 as int) > 0
        } by {
            if i < before.len() {
                assert(after[i] == before[i]);
            } else {
                assert(after[i] == (x as u32, y as u32));
            }
        }
    }
}

/// Every pixel with something to tell is considered: one whose patch is not
/// flat, two pixels from every edge.
pub proof fn every_varied_pixel_is_considered(
    image: Seq<i64>,
    width: int,
    height: int,
    x: int,
    y: int,
)
    requires
        width >= 5,
        height >= 5,
        width <= u32::MAX,
        height <= u32::MAX,
        2 <= x < width - 2,
        2 <= y < height - 2,
        energy(image, width, x, y) > 0,
    ensures
        varied(image, width, height, (width - 4) * (height - 4)).contains((x as u32, y as u32)),
{
    let across = width - 4;
    let at = (y - 2) * across + (x - 2);
    assert(0 <= at < across * (height - 4)) by (nonlinear_arith)
        requires
            at == (y - 2) * across + (x - 2),
            0 <= x - 2 < across,
            0 <= y - 2 < height - 4,
    ;
    lemma_fundamental_div_mod_converse(at, across, y - 2, x - 2);
    let now = varied(image, width, height, at + 1);
    assert(now[now.len() - 1] == (x as u32, y as u32));
    considered_stay(image, width, height, at + 1, (width - 4) * (height - 4), (x as u32, y as u32));
}

proof fn considered_stay(
    image: Seq<i64>,
    width: int,
    height: int,
    few: int,
    more: int,
    point: (u32, u32),
)
    requires
        few <= more,
        varied(image, width, height, few).contains(point),
    ensures
        varied(image, width, height, more).contains(point),
    decreases more - few,
{
    if few < more {
        considered_stay(image, width, height, few, more - 1, point);
        let before = varied(image, width, height, more - 1);
        let after = varied(image, width, height, more);
        if more > 0 {
            let i = before.index_of(point);
            assert(after[i] == point);
        }
    }
}

proof fn energies_are_small(image: Seq<i64>, width: int, x: int, y: int)
    requires
        crate::analyze::logo::detect::modest(image),
    ensures
        i128::MIN < energy(image, width, x, y) < i128::MAX,
{
    patches_are_moderate(image, width, x, y);
    correlations_are_limited(
        patch(image, width, x, y),
        image,
        REFERENCE_LIMIT,
        width,
        x,
        y,
        25,
    );
}

/// The points that tell most are looked at: none that is passed over has more to
/// tell than one that is not.
pub proof fn the_most_telling_points_are_looked_at(logo: LogoView, i: int, x: u32, y: u32)
    requires
        logo.consistent(),
        logo.physical(),
        logo.rect.spec_area() <= usize::MAX,
        logo.rect.width >= 5,
        logo.rect.height >= 5,
        0 <= i < points_of(logo).len(),
        2 <= x < logo.rect.width - 2,
        2 <= y < logo.rect.height - 2,
        !points_of(logo).contains((x, y)),
    ensures
        energy(reference(logo, 16), logo.rect.width as int, x as int, y as int) <= energy(
            reference(logo, 16),
            logo.rect.width as int,
            points_of(logo)[i].0 as int,
            points_of(logo)[i].1 as int,
        ),
{
    let (width, height) = (logo.rect.width as int, logo.rect.height as int);
    let middle = reference(logo, 16);
    let count = (width - 4) * (height - 4);
    assert(0 <= count <= width * height) by (nonlinear_arith)
        requires
            width >= 5,
            height >= 5,
            count == (width - 4) * (height - 4),
    ;
    let pixels = varied(middle, width, height, count);
    varied_points_vary(middle, width, height, count);
    references_are_modest(logo, 16);
    let keys = by_energy(middle, width, pixels);
    stable_order_exists(keys);
    let order = ranking(keys);
    assert(is_stable_order(keys, order));
    let wanted = wanted_points(logo.rect.spec_area(), pixels.len() as int);
    let picked = order.take(wanted);
    let (u, v) = points_of(logo)[i];
    assert(points_of(logo)[i] == pixels[order[i] as int]);
    energies_are_small(middle, width, x as int, y as int);
    energies_are_small(middle, width, u as int, v as int);
    assert(energy(middle, width, u as int, v as int) > 0);
    if energy(middle, width, x as int, y as int) > 0 {
        every_varied_pixel_is_considered(middle, width, height, x as int, y as int);
        let j = pixels.index_of((x, y));
        assert(pixels[j] == (x, y));
        assert(order.contains(j as usize));
        let place = order.index_of(j as usize);
        if place < wanted {
            assert(picked[place] == j as usize);
            assert(points_of(logo)[place] == (x, y));
        }
        assert(keys[order[i] as int] <= keys[order[place] as int]);
    }
}

proof fn flat_patches_have_no_energy(
    image: Seq<i64>,
    width: int,
    height: int,
    x: int,
    y: int,
    value: i64,
    count: int,
)
    requires
        width * height == image.len(),
        2 <= x < width - 2,
        2 <= y < height - 2,
        forall|i: int| 0 <= i < image.len() ==> #[trigger] image[i] == value,
        0 <= count <= 25,
    ensures
        cell_sum(image, width, x, y, count) == count * value,
        forall|k: int| 0 <= k < count ==> #[trigger] cell(image, width, x, y, k) == value,
    decreases count,
{
    if count > 0 {
        flat_patches_have_no_energy(image, width, height, x, y, value, count - 1);
        let k = count - 1;
        offsets_fit(pulled_back(x, k % 5), pulled_back(y, k / 5), width, height);
        assert(cell(image, width, x, y, k) == value);
        assert(count * value == (count - 1) * value + value) by (nonlinear_arith);
    } else {
        assert(0 * value == 0) by (nonlinear_arith);
    }
}

proof fn empty_kernels_find_nothing(
    kernel: Seq<i64>,
    image: Seq<i64>,
    width: int,
    x: int,
    y: int,
    count: int,
)
    requires
        0 <= count <= kernel.len(),
        forall|k: int| 0 <= k < kernel.len() ==> #[trigger] kernel[k] == 0,
    ensures
        correlation(kernel, image, width, x, y, count) == 0,
    decreases count,
{
    if count > 0 {
        empty_kernels_find_nothing(kernel, image, width, x, y, count - 1);
        let value = cell(image, width, x, y, count - 1);
        assert(kernel[count - 1] == 0);
        assert(0 * value == 0) by (nonlinear_arith);
    }
}

/// A logo without a shape, the same at every pixel, cannot be told from the
/// background and is never detected.
pub proof fn shapeless_logos_are_not_detected(logo: LogoView)
    requires
        logo.consistent(),
        forall|i: int|
            0 <= i < logo.a.len() ==> #[trigger] logo.a[i] == logo.a[0] && logo.b[i] == logo.b[0],
    ensures
        !detectable(logo),
{
    if logo.rect.width >= 5 && logo.rect.height >= 5 {
        let (width, height) = (logo.rect.width as int, logo.rect.height as int);
        let middle = reference(logo, 16);
        let count = (width - 4) * (height - 4);
        assert(0 <= count) by (nonlinear_arith)
            requires
                width >= 5,
                height >= 5,
                count == (width - 4) * (height - 4),
        ;
        varied_points_vary(middle, width, height, count);
        let pixels = varied(middle, width, height, count);
        let value = composited(logo.a[0], logo.b[0], 128_000_000) as i64;
        assert forall|i: int| 0 <= i < middle.len() implies #[trigger] middle[i] == value by {
            assert(logo.a[i] == logo.a[0]);
        }
        if pixels.len() > 0 {
            let (x, y) = (pixels[0].0 as int, pixels[0].1 as int);
            flat_patches_have_no_energy(middle, width, height, x, y, value, 25);
            let kernel = patch(middle, width, x, y);
            assert forall|k: int| 0 <= k < 25 implies #[trigger] kernel[k] == 0 by {
                assert(cell(middle, width, x, y, k) == value);
                assert(centred(middle, width, x, y, k) == 0);
            }
            empty_kernels_find_nothing(kernel, middle, width, x, y, 25);
            assert(energy(middle, width, x, y) == 0);
        }
        assert(pixels.len() == 0);
        assert(points_of(logo).len() == 0);
    }
}

/// A frame that the logo does not fit into scores nothing. One that matches the
/// logo as the logo matches itself, and from which taking the logo away leaves
/// nothing of it, scores one; one that shows nothing of it, and from which
/// taking it away leaves its opposite, scores minus one; and a frame that
/// matches in neither way scores nothing.
pub proof fn scores_tell_the_logo_from_its_absence(logo: LogoView, frame: Frame)
    requires
        reference_score(logo) != 0,
    ensures
        ({
            let count = points_of(logo).len() as int;
            let full = reference_score(logo);
            let seen = image_score(logo, observed_in(logo, frame), count);
            let left = image_score(logo, cleaned_in(logo, frame), count);
            let fits = logo.rect.fits(frame.width as int, frame.height as int);
            &&& !fits ==> frame_score(logo, frame) == 0
            &&& fits && seen == full && left == 0 ==> frame_score(logo, frame) == 1_000_000
            &&& fits && seen == 0 && left == -full ==> frame_score(logo, frame) == -1_000_000
            &&& fits && seen == 0 && left == 0 ==> frame_score(logo, frame) == 0
            &&& fits && seen == full && left == -full ==> frame_score(logo, frame) == 0
            &&& fits && seen == -full && left == full ==> frame_score(logo, frame) == 0
        }),
{
    let full = reference_score(logo);
    let size = if full < 0 { -full } else { full };
    assert(size * 1_000_000 / size == 1_000_000) by (nonlinear_arith)
        requires
            size > 0,
    ;
    assert(-size * 1_000_000 / size == -1_000_000) by (nonlinear_arith)
        requires
            size > 0,
    ;
    assert(0int * 1_000_000 / size == 0) by (nonlinear_arith)
        requires
            size > 0,
    ;
}

/// The floor is a fifth of what the points of the logo give on average.
pub proof fn the_floor_is_a_fifth_of_the_mean(logo: LogoView)
    requires
        magnitude_count(logo) > 0,
    ensures
        5 * (magnitude_count(logo) * floor_of(logo)) <= total_magnitude(logo, magnitude_count(logo)),
        total_magnitude(logo, magnitude_count(logo)) < 5 * (magnitude_count(logo) * (floor_of(logo)
            + 1)),
{
    let (total, count) = (
        total_magnitude(logo, magnitude_count(logo)),
        magnitude_count(logo),
    );
    let floor = floor_of(logo);
    lemma_fundamental_div_mod(total, 5 * count);
    lemma_mod_bound(total, 5 * count);
    assert((5 * count) * floor == 5 * (count * floor) && 5 * (count * (floor + 1)) == 5 * (count
        * floor) + 5 * count) by (nonlinear_arith);
}

/// What a point gives has no sign, and what all of them give adds up.
pub proof fn magnitudes_add_up(logo: LogoView, n: int)
    requires
        n >= 0,
    ensures
        magnitude(logo, n) >= 0,
        total_magnitude(logo, 0) == 0,
        total_magnitude(logo, n + 1) == total_magnitude(logo, n) + magnitude(logo, n),
        magnitude_count(logo) == 32 * points_of(logo).len(),
{
}

/// The logo is tried over backgrounds eight levels apart, from black up: where
/// there is no logo the background itself is seen.
pub proof fn logos_are_tried_over_even_backgrounds(logo: LogoView, level: int, i: int)
    requires
        0 <= i < logo.a.len(),
        0 <= level < 32,
        logo.a[i] == ONE,
        logo.b[i] == ZERO,
    ensures
        reference(logo, level).len() == logo.a.len(),
        reference(logo, level)[i] == 8 * level * 1_000_000,
{
    no_logo_changes_nothing(level * 8_000_000);
}

/// A frame is seen as it is, and cleaned of the logo pixel by pixel.
pub proof fn frames_are_seen_through_the_box(logo: LogoView, frame: Frame, i: int)
    requires
        logo.consistent(),
        logo.rect.fits(frame.width as int, frame.height as int),
        frame.luma@.len() == frame.width * frame.height,
        0 <= i < logo.a.len(),
    ensures
        ({
            let x = logo.rect.x + i % (logo.rect.width as int);
            let y = logo.rect.y + i / (logo.rect.width as int);
            &&& frame.spec_pixel(x, y) is Some
            &&& observed_in(logo, frame)[i] == frame.spec_pixel(x, y)->Some_0 * 1_000_000
            &&& logo.a[i] == ONE && logo.b[i] == ZERO ==> cleaned_in(logo, frame)[i]
                == observed_in(logo, frame)[i]
        }),
{
    let (w, h) = (logo.rect.width as int, logo.rect.height as int);
    lemma_mod_bound(i, w);
    lemma_fundamental_div_mod(i, w);
    let (row, column) = (i / w, i % w);
    assert(0 <= row < h) by (nonlinear_arith)
        requires
            i == w * row + column,
            0 <= column < w,
            0 <= i < w * h,
    ;
    offsets_fit(logo.rect.x + column, logo.rect.y + row, frame.width as int, frame.height as int);
    no_logo_changes_nothing(observed_in(logo, frame)[i] as int);
}

/// No logo that is less than five pixels wide or high is detected, nor one that
/// gives next to nothing.
pub proof fn tiny_and_faint_logos_are_not_detected(logo: LogoView)
    ensures
        logo.rect.width < 5 || logo.rect.height < 5 ==> !detectable(logo),
        points_of(logo).len() == 0 ==> !detectable(logo),
        total_magnitude(logo, magnitude_count(logo)) <= 0 ==> !detectable(logo),
        reference_score(logo) == 0 ==> !detectable(logo),
{
    assert(0 <= 193_789_601_325 * magnitude_count(logo)) by (nonlinear_arith)
        requires
            magnitude_count(logo) >= 0,
    ;
}

} // verus!
