//! What holds of how a logo is learned, and of what was learned.

use vstd::prelude::*;
use vstd::arithmetic::div_mod::lemma_fundamental_div_mod;
use vstd::arithmetic::div_mod::lemma_mod_bound;
use crate::analyze::logo::model::alpha_of;
use crate::analyze::logo::model::colour_of;
use crate::analyze::logo::model::composited;
use crate::analyze::logo::model::removed;
use crate::analyze::logo::model::slope_is_at_least_one;
use crate::analyze::logo::model::strong_count;
use crate::analyze::logo::model::total_alpha;
use crate::analyze::logo::model::LogoView;
use crate::analyze::logo::model::Rect;
use crate::analyze::logo::scan::all_there;
use crate::analyze::logo::scan::background_of;
use crate::analyze::logo::scan::border_pixels;
use crate::analyze::logo::scan::brightnesses;
use crate::analyze::logo::scan::fits_recover_a_line;
use crate::analyze::logo::scan::middle_mean;
use crate::analyze::logo::scan::percentile_index;
use crate::analyze::logo::scan::product_is_limited;
use crate::analyze::logo::scan::sum_of;
use crate::analyze::logo::scan::Gathered;
use crate::analyze::logo::scan::PixelStats;
use crate::analyze::logo::scan::COUNT_LIMIT;
use crate::analyze::logo::scan::PRODUCT_LIMIT;
use crate::analyze::logo::scan::SUM_LIMIT;
use crate::analyze::logo::single::below_one;
use crate::analyze::logo::single::finite;
use crate::analyze::logo::single::in_millionths;
use crate::analyze::logo::single::plain_values;
use crate::analyze::logo::single::FINE;
use crate::analyze::logo::single::ONE;
use crate::analyze::logo::single::ZERO;
use crate::analyze::survey::mean_opacity;
use crate::arith::nearest;
use crate::arith::nearest_bounds;
use crate::arith::nearest_is;
use crate::arith::nearest_of_multiple;
use crate::media::frames::Frame;
use crate::order::ranking;
use crate::order::sorted;
use crate::order::sorted_ascends;
use crate::order::stable_order_exists;

verus! {

/// A pixel is on the edge of a rectangle.
pub open spec fn on_the_edge(rect: Rect, x: int, y: int) -> bool {
    &&& rect.x <= x < rect.x + rect.width
    &&& rect.y <= y < rect.y + rect.height
    &&& x == rect.x || x == rect.x + rect.width - 1 || y == rect.y || y == rect.y + rect.height - 1
}

/// Every pixel on the edge of the rectangle is looked at.
pub proof fn every_edge_pixel_is_looked_at(frame: Frame, rect: Rect, x: int, y: int)
    requires
        on_the_edge(rect, x, y),
    ensures
        border_pixels(frame, rect).contains(frame.spec_pixel(x, y)),
{
    let pixels = border_pixels(frame, rect);
    let across = x - rect.x;
    let down = y - rect.y - 1;
    let bottom = rect.y + rect.height - 1;
    if y == rect.y {
        assert((2 * across) / 2 == across && (2 * across) % 2 == 0);
        assert(pixels[2 * across] == frame.spec_pixel(x, y));
    } else if y == bottom {
        assert((2 * across + 1) / 2 == across && (2 * across + 1) % 2 == 1);
        assert(pixels[2 * across + 1] == frame.spec_pixel(x, y));
    } else if x == rect.x {
        assert((2 * down) / 2 == down && (2 * down) % 2 == 0);
        assert(pixels[2 * rect.width + 2 * down] == frame.spec_pixel(x, y));
    } else {
        assert((2 * down + 1) / 2 == down && (2 * down + 1) % 2 == 1);
        assert(pixels[2 * rect.width + 2 * down + 1] == frame.spec_pixel(x, y));
    }
}

/// Nothing but the edge is looked at.
pub proof fn nothing_but_the_edge_is_looked_at(frame: Frame, rect: Rect, i: int) -> (at: (int, int))
    requires
        rect.valid(),
        0 <= i < border_pixels(frame, rect).len(),
    ensures
        on_the_edge(rect, at.0, at.1),
        border_pixels(frame, rect)[i] == frame.spec_pixel(at.0, at.1),
{
    let right = rect.x + rect.width - 1;
    let bottom = rect.y + rect.height - 1;
    if i < 2 * rect.width {
        (rect.x + i / 2, if i % 2 == 0 { rect.y as int } else { bottom })
    } else {
        let j = i - 2 * rect.width;
        (if j % 2 == 0 { rect.x as int } else { right }, rect.y + 1 + j / 2)
    }
}

proof fn levels_in_order(pixels: Seq<Option<u8>>)
    requires
        pixels.len() <= usize::MAX,
        all_there(pixels),
    ensures
        ({
            let ascending = sorted(brightnesses(pixels)).map_values(|value: i128| value as u8);
            &&& ascending.len() == pixels.len()
            &&& forall|i: int, j: int|
                0 <= i <= j < pixels.len() ==> #[trigger] ascending[i] <= #[trigger] ascending[j]
            &&& forall|i: int|
                0 <= i < pixels.len() ==> pixels.contains(Some(#[trigger] ascending[i]))
            &&& forall|i: int|
                0 <= i < pixels.len() ==> ascending.contains((#[trigger] pixels[i])->Some_0)
        }),
{
    let keys = brightnesses(pixels);
    stable_order_exists(keys);
    sorted_ascends(keys, ranking(keys));
    let ascending = sorted(keys).map_values(|value: i128| value as u8);
    assert forall|i: int| 0 <= i < pixels.len() implies pixels.contains(
        Some(#[trigger] ascending[i]),
    ) && sorted(keys)[i] == ascending[i] by {
        assert(keys.contains(sorted(keys)[i]));
        let k = keys.index_of(sorted(keys)[i]);
        assert(pixels[k] is Some);
        assert(keys[k] == pixels[k]->Some_0 as i128);
        assert(pixels[k] == Some(ascending[i]));
    }
    assert forall|i: int, j: int| 0 <= i <= j < pixels.len() implies #[trigger] ascending[i]
        <= #[trigger] ascending[j] by {
        assert(sorted(keys)[i] <= sorted(keys)[j]);
        assert(sorted(keys)[i] == ascending[i] && sorted(keys)[j] == ascending[j]);
    }
    assert forall|i: int| 0 <= i < pixels.len() implies ascending.contains(
        (#[trigger] pixels[i])->Some_0,
    ) by {
        assert(sorted(keys).contains(keys[i]));
        let k = sorted(keys).index_of(keys[i]);
        assert(pixels[i] is Some);
        assert(ascending[k] == pixels[i]->Some_0);
    }
}

proof fn sums_lie_between(values: Seq<u8>, from: int, to: int, low: int, high: int)
    requires
        0 <= from <= to <= values.len(),
        forall|i: int| 0 <= i < values.len() ==> low <= #[trigger] values[i] <= high,
    ensures
        low * (to - from) <= sum_of(values, from, to) <= high * (to - from),
    decreases to - from,
{
    if from < to {
        sums_lie_between(values, from, to - 1, low, high);
        let many = to - from;
        assert(low * many == low * (many - 1) + low) by (nonlinear_arith);
        assert(high * many == high * (many - 1) + high) by (nonlinear_arith);
    } else {
        assert(low * 0 == 0 && high * 0 == 0) by (nonlinear_arith);
    }
}

/// The mean of the middle half is no lower than the lowest and no higher than
/// the highest, and what lies in the lowest quarter or the highest does not
/// count.
pub proof fn only_the_middle_half_counts(
    ascending: Seq<u8>,
    other: Seq<u8>,
    low: int,
    high: int,
)
    requires
        ascending.len() > 0,
        forall|i: int| 0 <= i < ascending.len() ==> low <= #[trigger] ascending[i] <= high,
        other.len() == ascending.len(),
        forall|i: int|
            ascending.len() as int / 4 <= i < ascending.len() - ascending.len() as int / 4
                ==> #[trigger] other[i] == ascending[i],
    ensures
        low <= middle_mean(ascending) <= high,
        middle_mean(other) == middle_mean(ascending),
{
    let skip = ascending.len() as int / 4;
    let to = ascending.len() - skip;
    let count = to - skip;
    sums_lie_between(ascending, skip, to, low, high);
    let sum = sum_of(ascending, skip, to);
    means_lie_between(sum, count, low, high);
    same_sums(ascending, other, skip, to);
}

proof fn means_lie_between(sum: int, count: int, low: int, high: int)
    requires
        count > 0,
        low * count <= sum <= high * count,
    ensures
        low <= (sum + count / 2) / count <= high,
{
    let whole = (sum + count / 2) / count;
    lemma_fundamental_div_mod(sum + count / 2, count);
    lemma_mod_bound(sum + count / 2, count);
    let rest = (sum + count / 2) % count;
    assert(low <= whole <= high) by (nonlinear_arith)
        requires
            count > 0,
            low * count <= sum <= high * count,
            sum + count / 2 == count * whole + rest,
            0 <= rest < count,
            0 <= count / 2 < count,
    ;
}

proof fn same_sums(left: Seq<u8>, right: Seq<u8>, from: int, to: int)
    requires
        0 <= from,
        to <= left.len(),
        left.len() == right.len(),
        forall|i: int| from <= i < to ==> #[trigger] right[i] == left[i],
    ensures
        sum_of(left, from, to) == sum_of(right, from, to),
    decreases to - from,
{
    if from < to {
        same_sums(left, right, from, to - 1);
        assert(right[to - 1] == left[to - 1]);
    }
}

/// A frame whose edge is the same all round has that for its background, however
/// strict the test.
pub proof fn flat_edges_are_the_background(
    frame: Frame,
    rect: Rect,
    threshold: u8,
    strict: bool,
    value: u8,
)
    requires
        rect.valid(),
        rect.fits(frame.width as int, frame.height as int),
        border_pixels(frame, rect).len() <= usize::MAX,
        forall|i: int|
            0 <= i < border_pixels(frame, rect).len() ==> #[trigger] border_pixels(frame, rect)[i]
                == Some(value),
    ensures
        background_of(frame, rect, threshold, strict) == Some(value),
{
    let pixels = border_pixels(frame, rect);
    levels_in_order(pixels);
    let ascending = sorted(brightnesses(pixels)).map_values(|value: i128| value as u8);
    assert forall|i: int| 0 <= i < ascending.len() implies value <= #[trigger] ascending[i]
        <= value by {
        assert(pixels.contains(Some(ascending[i])));
        let k = pixels.index_of(Some(ascending[i]));
        assert(pixels[k] == Some(value));
    }
    only_the_middle_half_counts(ascending, ascending, value as int, value as int);
    percentiles_are_places(ascending.len() as int, 10);
    percentiles_are_places(ascending.len() as int, 90);
}

/// A percentile is the place nearest its share of the way from the first to the
/// last.
pub proof fn percentiles_are_places(len: int, percent: int)
    requires
        len > 0,
        0 <= percent <= 100,
    ensures
        0 <= percentile_index(len, percent) < len,
        100 * percentile_index(len, percent) <= (len - 1) * percent + 50 < 100 * (percentile_index(
            len,
            percent,
        ) + 1),
        percentile_index(len, 0) == 0,
        percentile_index(len, 100) == len - 1,
{
    let way = (len - 1) * percent;
    assert(0 <= way <= (len - 1) * 100) by (nonlinear_arith)
        requires
            way == (len - 1) * percent,
            0 <= percent <= 100,
            len >= 1,
    ;
}

/// Where every stray pixel counts, a frame has a background exactly where no two
/// pixels of the edge differ by more than the threshold; and the background is
/// no darker than the darkest of them and no brighter than the brightest.
pub proof fn strict_backgrounds_are_flat(frame: Frame, rect: Rect, threshold: u8, a: int, b: int)
    requires
        rect.valid(),
        rect.fits(frame.width as int, frame.height as int),
        border_pixels(frame, rect).len() <= usize::MAX,
        all_there(border_pixels(frame, rect)),
        0 <= a < border_pixels(frame, rect).len(),
        0 <= b < border_pixels(frame, rect).len(),
    ensures
        ({
            let pixels = border_pixels(frame, rect);
            let background = background_of(frame, rect, threshold, true);
            &&& background is Some ==> pixels[a]->Some_0 - pixels[b]->Some_0 <= threshold
            &&& background is None ==> exists|i: int, j: int|
                0 <= i < pixels.len() && 0 <= j < pixels.len() && (#[trigger] pixels[i])->Some_0 - (
                #[trigger] pixels[j])->Some_0 > threshold
            &&& background matches Some(level) ==> (forall|i: int|
                0 <= i < pixels.len() ==> pixels[a]->Some_0 <= (#[trigger] pixels[i])->Some_0)
                ==> pixels[a]->Some_0 <= level
            &&& background matches Some(level) ==> (forall|i: int|
                0 <= i < pixels.len() ==> (#[trigger] pixels[i])->Some_0 <= pixels[a]->Some_0)
                ==> level <= pixels[a]->Some_0
        }),
{
    let pixels = border_pixels(frame, rect);
    levels_in_order(pixels);
    let ascending = sorted(brightnesses(pixels)).map_values(|value: i128| value as u8);
    let last = ascending.len() - 1;
    assert(ascending.contains(pixels[a]->Some_0) && ascending.contains(pixels[b]->Some_0));
    let p = ascending.index_of(pixels[a]->Some_0);
    let q = ascending.index_of(pixels[b]->Some_0);
    assert(ascending[p] <= ascending[last]);
    assert(ascending[0] <= ascending[q]);
    assert(pixels.contains(Some(ascending[0])) && pixels.contains(Some(ascending[last])));
    let i = pixels.index_of(Some(ascending[last]));
    let j = pixels.index_of(Some(ascending[0]));
    if background_of(frame, rect, threshold, true) is None {
        assert(pixels[i]->Some_0 - pixels[j]->Some_0 > threshold);
    }
    let (low, high) = (ascending[0] as int, ascending[last] as int);
    assert forall|k: int| 0 <= k < ascending.len() implies low <= #[trigger] ascending[k]
        <= high by {
        assert(ascending[0] <= ascending[k] && ascending[k] <= ascending[last]);
    }
    only_the_middle_half_counts(ascending, ascending, low, high);
    assert(pixels[i] == Some(ascending[last]) && pixels[j] == Some(ascending[0]));
}

/// Too few frames, or backgrounds too much alike, teach nothing; otherwise
/// something is learned, and only where it must look like a logo can it be
/// refused.
pub proof fn learning_takes_variety(
    gathered: Gathered,
    name: Seq<char>,
    channel: Option<Seq<char>>,
    size: (u32, u32),
)
    ensures
        gathered.frames < 50 ==> gathered.learned(name, channel, size, false) is None
            && gathered.learned(name, channel, size, true) is None,
        gathered.brightest - gathered.darkest < 24 ==> gathered.learned(name, channel, size, false)
            is None && gathered.learned(name, channel, size, true) is None,
        gathered.frames >= 50 && gathered.brightest - gathered.darkest >= 24 ==> {
            &&& gathered.learned(name, channel, size, false) is Some
            &&& gathered.learned(name, channel, size, true) is Some <==> gathered.fitted(
                name,
                channel,
                size,
            ).plausible()
        },
        gathered.learned(name, channel, size, true) matches Some(logo) ==> logo.plausible()
            && logo.rect == gathered.rect && logo.frames_used == gathered.frames && logo.name
            == name && logo.source_width == size.0 && logo.source_height == size.1,
{
}

/// Another frame widens what has been seen of the background, never narrows it,
/// and counts as one.
pub proof fn frames_widen_the_background(gathered: Gathered, frame: Frame, background: u8)
    requires
        gathered.frames < u32::MAX,
    ensures
        ({
            let after = gathered.with(frame, background);
            &&& after.frames == gathered.frames + 1
            &&& after.rect == gathered.rect
            &&& after.darkest <= background <= after.brightest
            &&& after.darkest <= gathered.darkest && gathered.brightest <= after.brightest
            &&& after.darkest == background || after.darkest == gathered.darkest
            &&& after.brightest == background || after.brightest == gathered.brightest
        }),
{
}

proof fn nearest_scales(numerator: int, denominator: int, scale: int)
    requires
        denominator > 0,
        scale > 0,
    ensures
        nearest(numerator * scale, denominator * scale) == nearest(numerator, denominator),
{
    nearest_bounds(numerator, denominator);
    let whole = nearest(numerator, denominator);
    assert(denominator * scale > 0 && 2 * (whole * (denominator * scale)) <= 2 * (numerator * scale)
        + denominator * scale && 2 * (numerator * scale) + denominator * scale < 2 * (whole * (
    denominator * scale)) + 2 * (denominator * scale)) by (nonlinear_arith)
        requires
            denominator > 0,
            scale > 0,
            2 * (whole * denominator) <= 2 * numerator + denominator,
            2 * numerator + denominator < 2 * (whole * denominator) + 2 * denominator,
    ;
    nearest_is(numerator * scale, denominator * scale, whole);
}

proof fn lines_turned_round(n: int, f: int, b: int, fb: int, b2: int, slope: int, lift: int)
    requires
        b == slope * f + lift * n,
        b2 == slope * fb + lift * b,
    ensures
        n * b2 - b * b == slope * (n * fb - b * f),
        b2 * f - b * fb == lift * (b * f - n * fb),
{
    assert(n * (slope * fb + lift * b) == slope * (n * fb) + lift * (n * b)) by (nonlinear_arith);
    assert(b * (slope * f + lift * n) == slope * (b * f) + lift * (n * b)) by (nonlinear_arith);
    assert(slope * (n * fb - b * f) == slope * (n * fb) - slope * (b * f)) by (nonlinear_arith);
    assert((slope * fb + lift * b) * f == slope * (fb * f) + lift * (b * f)) by (nonlinear_arith);
    assert((slope * f + lift * n) * fb == slope * (fb * f) + lift * (n * fb)) by (nonlinear_arith);
    assert(lift * (b * f - n * fb) == lift * (b * f) - lift * (n * fb)) by (nonlinear_arith);
}

/// A logo is learned as it is: where the background is a straight line over what
/// is seen through the logo, that line is what is learned of it, its slope and,
/// as a share of full brightness, its offset.
pub proof fn straight_lines_are_learned(stats: PixelStats, n: int, slope: int, lift: int)
    requires
        stats.at_most(n),
        0 <= n <= u32::MAX,
        1 <= slope <= 255,
        stats.sum_b == slope * stats.sum_f + lift * n,
        stats.sum_fb == slope * stats.sum_f2 + lift * stats.sum_f,
        stats.sum_b2 == slope * stats.sum_fb + lift * stats.sum_b,
        n * stats.sum_f2 > stats.sum_f * stats.sum_f,
    ensures
        stats.fitted(n) == (FINE * slope, nearest(FINE * lift, 255)),
{
    let (f, b, f2, b2, fb) = (
        stats.sum_f as int,
        stats.sum_b as int,
        stats.sum_f2 as int,
        stats.sum_b2 as int,
        stats.sum_fb as int,
    );
    let run = n * f2 - f * f;
    let (sn, sf, sb, sf2, sb2, sfb) = (
        n as i128,
        f as i128,
        b as i128,
        f2 as i128,
        b2 as i128,
        fb as i128,
    );
    product_is_limited(sn, COUNT_LIMIT, sf2, PRODUCT_LIMIT);
    product_is_limited(sn, COUNT_LIMIT, sb2, PRODUCT_LIMIT);
    product_is_limited(sn, COUNT_LIMIT, sfb, PRODUCT_LIMIT);
    product_is_limited(sf, SUM_LIMIT, sf, SUM_LIMIT);
    product_is_limited(sb, SUM_LIMIT, sb, SUM_LIMIT);
    product_is_limited(sf, SUM_LIMIT, sb, SUM_LIMIT);
    product_is_limited(sb, SUM_LIMIT, sf, SUM_LIMIT);
    product_is_limited(sf2, PRODUCT_LIMIT, sb, SUM_LIMIT);
    product_is_limited(sf, SUM_LIMIT, sfb, PRODUCT_LIMIT);
    product_is_limited(sb2, PRODUCT_LIMIT, sf, SUM_LIMIT);
    product_is_limited(sb, SUM_LIMIT, sfb, PRODUCT_LIMIT);
    fits_recover_a_line(n, f, b, f2, fb, slope, lift);
    let steep = slope * run;
    assert(f * b == b * f && b * n == n * b && fb * f == f * fb) by (nonlinear_arith);
    lines_turned_round(n, f, b, fb, b2, slope, lift);
    assert(lift * (b * f - n * fb) == -(lift * steep)) by (nonlinear_arith)
        requires
            n * fb - b * f == steep,
    ;
    assert(0 < steep && 0 < slope * steep <= 255 * steep) by (nonlinear_arith)
        requires
            steep == slope * run,
            1 <= slope <= 255,
            run > 0,
    ;
    let one = stats.forward(n)->Some_0;
    let two = stats.reverse(n)->Some_0;
    assert(stats.forward(n) is Some && one.rise == slope * run && one.offset == lift * run && one.run
        == run);
    assert(stats.reverse(n) is Some && two.rise == steep && two.offset == -(lift * steep) && two.run
        == slope * steep);
    assert(two.steep());
    let fine = FINE as int;
    assert(fine * (slope * run) == (fine * slope) * run) by (nonlinear_arith);
    nearest_of_multiple(fine * slope, run);
    assert(fine * (slope * steep) == (fine * slope) * steep) by (nonlinear_arith);
    nearest_of_multiple(fine * slope, steep);
    nearest_scales(fine * lift, 255, run);
    nearest_scales(fine * lift, 255, steep);
    assert(fine * (lift * run) == (fine * lift) * run) by (nonlinear_arith);
    assert(fine * (lift * steep) == (fine * lift) * steep) by (nonlinear_arith);
}

/// Opacity is what the slope takes away: none for a slope of one, a half for a
/// slope of two, and the steeper the slope the more opaque, but never wholly so.
pub proof fn steeper_slopes_are_more_opaque(shallow: u32, steep: u32)
    requires
        finite(shallow),
        finite(steep),
        !below_one(shallow),
        !below_one(steep),
        in_millionths(shallow) <= in_millionths(steep),
    ensures
        0 <= alpha_of(shallow) <= alpha_of(steep) < 1_000_000,
        in_millionths(shallow) == 1_000_000 ==> alpha_of(shallow) == 0,
        in_millionths(shallow) == 2_000_000 ==> alpha_of(shallow) == 500_000,
        alpha_of(steep) * in_millionths(steep) <= 1_000_000 * in_millionths(steep)
            - 1_000_000_000_000,
        1_000_000 * in_millionths(steep) - 1_000_000_000_000 < (alpha_of(steep) + 1)
            * in_millionths(steep),
{
    slope_is_at_least_one(shallow);
    slope_is_at_least_one(steep);
    let (s, t) = (in_millionths(shallow), in_millionths(steep));
    let (p, q) = (alpha_of(shallow), alpha_of(steep));
    let (top, over) = (1_000_000 * (s - 1_000_000), 1_000_000 * (t - 1_000_000));
    lemma_fundamental_div_mod(top, s);
    lemma_mod_bound(top, s);
    lemma_fundamental_div_mod(over, t);
    lemma_mod_bound(over, t);
    let (rest, left) = (top % s, over % t);
    if s == 2_000_000 {
        assert(top / s == 500_000) by (nonlinear_arith)
            requires
                top == 1_000_000_000_000,
                s == 2_000_000,
        ;
    }
    assert(p * s == s * p && q * t == t * q && (q + 1) * t == t * q + t) by (nonlinear_arith);
    assert(0 <= p <= q < 1_000_000) by (nonlinear_arith)
        requires
            1_000_000 <= s <= t,
            top == 1_000_000 * (s - 1_000_000),
            over == 1_000_000 * (t - 1_000_000),
            top == s * p + rest,
            over == t * q + left,
            0 <= rest < s,
            0 <= left < t,
    ;
}

/// A logo's colour is how bright it makes what it covers: black where it adds
/// nothing, white where it adds all that its opacity leaves room for, and the
/// brighter the more it adds.
pub proof fn brighter_logos_add_more(a: u32, dim: u32, bright: u32)
    requires
        finite(a),
        finite(dim),
        finite(bright),
        !below_one(a),
        in_millionths(a) > 1_000_010,
        in_millionths(bright) <= in_millionths(dim),
    ensures
        0 <= colour_of(a, dim) <= colour_of(a, bright) <= 1_000_000,
        in_millionths(dim) >= 0 ==> colour_of(a, dim) == 0,
        -in_millionths(dim) >= in_millionths(a) - 1_000_000 ==> colour_of(a, dim) == 1_000_000,
        -2 * in_millionths(dim) == in_millionths(a) - 1_000_000 ==> colour_of(a, dim) == 500_000,
{
    let room = in_millionths(a) - 1_000_000;
    let (low, high) = (-in_millionths(dim), -in_millionths(bright));
    crate::arith::nearest_is_monotonic(1_000_000 * low, 1_000_000 * high, room);
    nearest_of_multiple(0, room);
    nearest_of_multiple(1_000_000, room);
    nearest_of_multiple(500_000, room);
    assert(0 * room == 0) by (nonlinear_arith);
    if low > 0 {
        crate::arith::nearest_is_monotonic(0, 1_000_000 * low, room);
    }
    if low < room {
        crate::arith::nearest_is_monotonic(1_000_000 * low, 1_000_000 * room, room);
    }
    if high > 0 {
        crate::arith::nearest_is_monotonic(0, 1_000_000 * high, room);
    }
    if high < room {
        crate::arith::nearest_is_monotonic(1_000_000 * high, 1_000_000 * room, room);
    }
}

/// Where there is no logo, taking it away or putting it on changes nothing.
pub proof fn no_logo_changes_nothing(level: int)
    ensures
        removed(ONE, ZERO, level) == level,
        composited(ONE, ZERO, level) == level,
        alpha_of(ONE) == 0,
{
    plain_values();
    nearest_of_multiple(level, 1_000_000);
    assert(finite(ONE));
}

/// A pixel is strong from a fifth of opacity on, and a logo looks like one from
/// fifty frames and twenty strong pixels on.
pub proof fn logos_need_strong_pixels(logo: LogoView)
    ensures
        (forall|i: int| 0 <= i < logo.a.len() ==> alpha_of(#[trigger] logo.a[i]) < 200_000)
            ==> strong_count(logo.a, logo.a.len() as int) == 0 && !logo.plausible(),
        (forall|i: int| 0 <= i < logo.a.len() ==> alpha_of(#[trigger] logo.a[i]) >= 200_000)
            ==> strong_count(logo.a, logo.a.len() as int) == logo.a.len() && (logo.plausible()
            <==> logo.frames_used >= 50 && logo.a.len() >= 20),
        logo.frames_used < 50 ==> !logo.plausible(),
{
    strong_pixels_count(logo.a, logo.a.len() as int);
}

proof fn strong_pixels_count(a: Seq<u32>, count: int)
    requires
        0 <= count <= a.len(),
    ensures
        0 <= strong_count(a, count) <= count,
        (forall|i: int| 0 <= i < a.len() ==> alpha_of(#[trigger] a[i]) < 200_000) ==> strong_count(
            a,
            count,
        ) == 0,
        (forall|i: int| 0 <= i < a.len() ==> alpha_of(#[trigger] a[i]) >= 200_000) ==> strong_count(
            a,
            count,
        ) == count,
    decreases count,
{
    if count > 0 {
        strong_pixels_count(a, count - 1);
    }
}

/// Growing a rectangle reaches as far as the margin on every side, and no
/// further than the picture.
pub proof fn grown_rectangles_stay_in_the_picture(
    rect: Rect,
    margin: int,
    width: int,
    height: int,
)
    requires
        rect.fits(width, height),
        0 <= margin,
        width <= u32::MAX,
        height <= u32::MAX,
    ensures
        ({
            let grown = rect.grown(margin, width, height);
            &&& grown.fits(width, height)
            &&& grown.x == 0 || grown.x == rect.x - margin
            &&& grown.y == 0 || grown.y == rect.y - margin
            &&& rect.x >= margin ==> grown.x == rect.x - margin
            &&& rect.y >= margin ==> grown.y == rect.y - margin
            &&& rect.x < margin ==> grown.x == 0
            &&& rect.y < margin ==> grown.y == 0
            &&& rect.x + rect.width + margin <= width ==> grown.x + grown.width == rect.x
                + rect.width + margin
            &&& rect.x + rect.width + margin >= width ==> grown.x + grown.width == width
            &&& rect.y + rect.height + margin <= height ==> grown.y + grown.height == rect.y
                + rect.height + margin
            &&& rect.y + rect.height + margin >= height ==> grown.y + grown.height == height
        }),
{
}

/// Where a few stray pixels do not count, a frame has a background exactly where
/// the pixel a tenth of the way up from the darkest and the one a tenth of the
/// way down from the brightest differ by no more than the threshold. Whatever is
/// flat with every pixel counted is flat without the strays, with the same
/// background.
pub proof fn strays_do_not_count(
    frame: Frame,
    rect: Rect,
    threshold: u8,
    low: int,
    high: int,
)
    requires
        rect.valid(),
        rect.fits(frame.width as int, frame.height as int),
        border_pixels(frame, rect).len() <= usize::MAX,
        all_there(border_pixels(frame, rect)),
        100 * low <= (border_pixels(frame, rect).len() - 1) * 10 + 50 < 100 * (low + 1),
        100 * high <= (border_pixels(frame, rect).len() - 1) * 90 + 50 < 100 * (high + 1),
    ensures
        ({
            let levels = sorted(brightnesses(border_pixels(frame, rect)));
            let lenient = background_of(frame, rect, threshold, false);
            let strict = background_of(frame, rect, threshold, true);
            &&& lenient is Some <==> levels[high] - levels[low] <= threshold
            &&& strict is Some ==> lenient == strict
        }),
{
    let pixels = border_pixels(frame, rect);
    let levels = sorted(brightnesses(pixels));
    levels_in_order(pixels);
    let ascending = levels.map_values(|value: i128| value as u8);
    let len = pixels.len() as int;
    percentiles_are_places(len, 10);
    percentiles_are_places(len, 90);
    assert(percentile_index(len, 10) == low && percentile_index(len, 90) == high);
    let keys = brightnesses(pixels);
    stable_order_exists(keys);
    sorted_ascends(keys, ranking(keys));
    assert forall|i: int| 0 <= i < len implies 0 <= #[trigger] levels[i] <= 255 by {
        assert(keys.contains(levels[i]));
        let k = keys.index_of(levels[i]);
        assert(pixels[k] is Some);
        assert(keys[k] == pixels[k]->Some_0 as i128);
    }
    assert(ascending[low] == levels[low] && ascending[high] == levels[high]);
    assert(ascending[0] <= ascending[low]);
    assert(ascending[high] <= ascending[len - 1]);
}

/// The mean of two levels is half way between them, and the upper of two that
/// are as near.
pub proof fn means_are_half_way(dark: u8, bright: u8)
    requires
        dark <= bright,
    ensures
        middle_mean(seq![dark, dark, bright, bright]) == (dark + bright + 1) / 2,
        middle_mean(seq![dark, bright]) == (dark + bright + 1) / 2,
{
    let four = seq![dark, dark, bright, bright];
    assert(sum_of(four, 1, 1) == 0);
    assert(sum_of(four, 1, 2) == dark);
    assert(sum_of(four, 1, 3) == dark + bright);
    let two = seq![dark, bright];
    assert(sum_of(two, 0, 0) == 0);
    assert(sum_of(two, 0, 1) == dark);
    assert(sum_of(two, 0, 2) == dark + bright);
}

/// A preview has four bytes for each pixel of the logo: its colour three times
/// over, and its opacity; a pixel that is wholly clear is nought there and one
/// that is white is all there.
pub proof fn previews_show_colour_and_opacity(logo: LogoView, pixel: int)
    requires
        logo.consistent(),
        0 <= pixel < logo.a.len(),
    ensures
        ({
            let (a, b) = (logo.a[pixel], logo.b[pixel]);
            let shown = logo.preview();
            &&& shown.len() == 4 * logo.a.len()
            &&& shown[4 * pixel] == shown[4 * pixel + 1] && shown[4 * pixel + 1] == shown[4 * pixel
                + 2]
            &&& alpha_of(a) == 0 ==> shown[4 * pixel + 3] == 0
            &&& alpha_of(a) == 1_000_000 ==> shown[4 * pixel + 3] == 255
            &&& alpha_of(a) == 200_000 ==> shown[4 * pixel + 3] == 51
            &&& colour_of(a, b) == 0 ==> shown[4 * pixel] == 0
            &&& colour_of(a, b) == 1_000_000 ==> shown[4 * pixel] == 255
            &&& colour_of(a, b) == 200_000 ==> shown[4 * pixel] == 51
        }),
{
    let at = 4 * pixel;
    assert(at / 4 == pixel && (at + 1) / 4 == pixel && (at + 2) / 4 == pixel && (at + 3) / 4
        == pixel);
    assert(at % 4 == 0 && (at + 1) % 4 == 1 && (at + 2) % 4 == 2 && (at + 3) % 4 == 3);
    nearest_of_multiple(0, 1_000_000);
    nearest_of_multiple(255, 1_000_000);
    nearest_of_multiple(51, 1_000_000);
}

/// Every pixel counts alike for the opacity of a logo: where all are as opaque
/// as each other the mean is just that.
pub proof fn every_pixel_counts_for_the_opacity(logo: LogoView, alpha: int)
    requires
        logo.a.len() > 0,
        forall|i: int| 0 <= i < logo.a.len() ==> alpha_of(#[trigger] logo.a[i]) == alpha,
    ensures
        mean_opacity(logo) == alpha,
{
    like_pixels_add_up(logo.a, alpha, logo.a.len() as int);
    nearest_of_multiple(alpha, logo.a.len() as int);
}

proof fn like_pixels_add_up(a: Seq<u32>, alpha: int, count: int)
    requires
        0 <= count <= a.len(),
        forall|i: int| 0 <= i < a.len() ==> alpha_of(#[trigger] a[i]) == alpha,
    ensures
        total_alpha(a, count) == alpha * count,
    decreases count,
{
    if count > 0 {
        like_pixels_add_up(a, alpha, count - 1);
        assert(alpha_of(a[count - 1]) == alpha);
        assert(alpha * count == alpha * (count - 1) + alpha) by (nonlinear_arith);
    } else {
        assert(alpha * 0 == 0) by (nonlinear_arith);
    }
}

/// Taking a logo away is a straight line: brighter pixels leave brighter ones,
/// the offset is added in full, and a slope of two doubles what is seen.
pub proof fn removing_is_a_straight_line(a: u32, b: u32, dim: int, bright: int)
    requires
        finite(a),
        !below_one(a),
        dim <= bright,
    ensures
        removed(a, b, dim) <= removed(a, b, bright),
        in_millionths(a) == 1_000_000 ==> removed(a, b, dim) == dim + 255 * in_millionths(b),
        in_millionths(a) == 2_000_000 ==> removed(a, b, dim) == 2 * dim + 255 * in_millionths(b),
        removed(a, ZERO, 0) == 0,
{
    slope_is_at_least_one(a);
    plain_values();
    let slope = in_millionths(a);
    assert(slope * dim <= slope * bright) by (nonlinear_arith)
        requires
            slope >= 0,
            dim <= bright,
    ;
    crate::arith::nearest_is_monotonic(slope * dim, slope * bright, 1_000_000);
    nearest_of_multiple(dim, 1_000_000);
    nearest_of_multiple(2 * dim, 1_000_000);
    nearest_of_multiple(0, 1_000_000);
    assert(slope * 0 == 0) by (nonlinear_arith);
}

} // verus!
