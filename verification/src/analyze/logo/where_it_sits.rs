//! What holds of where a logo is looked for and found.

use vstd::prelude::*;
use crate::analyze::logo::locate::area_in;
use crate::analyze::logo::locate::best_of;
use crate::analyze::logo::locate::blobs_in;
use crate::analyze::logo::locate::cluster_gap;
use crate::analyze::logo::locate::clusters_of;
use crate::analyze::logo::locate::edge_at;
use crate::analyze::logo::locate::in_band;
use crate::analyze::logo::locate::leads;
use crate::analyze::logo::locate::lies_in;
use crate::analyze::logo::locate::logo_shaped;
use crate::analyze::logo::locate::looked_at;
use crate::analyze::logo::locate::near_by;
use crate::analyze::logo::locate::peak_of;
use crate::analyze::logo::locate::steadiness_of;
use crate::analyze::logo::locate::swept;
use crate::analyze::logo::locate::the_best_cluster_is_logo_shaped;
use crate::analyze::logo::locate::the_union_is_the_smallest;
use crate::analyze::logo::locate::Sightings;
use crate::analyze::logo::model::Rect;
use crate::analyze::logo::region::adjacent;
use crate::analyze::logo::region::box_of;
use crate::analyze::logo::region::Pixel;
use crate::analyze::logo::region::Standout;
use crate::arith::is_root;
use crate::arith::root_of;
use crate::media::frames::Frame;

verus! {

/// A logo sits at the left or at the right, and no side is favoured: what is
/// shaped like one is shaped like one in the mirror image of the picture, and
/// is not in any picture in whose mirror image it is not.
pub proof fn either_side_will_do(rect: Rect, mirrored: Rect, width: int, height: int)
    requires
        rect.x + rect.width <= width,
        mirrored.x == width - rect.x - rect.width,
        mirrored.y == rect.y,
        mirrored.width == rect.width,
        mirrored.height == rect.height,
    ensures
        logo_shaped(rect, width, height) == logo_shaped(mirrored, width, height),
{
}

/// Whatever is small enough and lies within a fifth of the width of the right
/// edge, or of the left edge, is shaped like a logo, however high it sits.
pub proof fn small_things_at_an_edge_are_logo_shaped(rect: Rect, width: int, height: int)
    requires
        100 * rect.width <= 22 * width,
        100 * rect.height <= 18 * height,
        5 * rect.x <= width || 5 * (width - rect.x - rect.width) <= width,
    ensures
        logo_shaped(rect, width, height),
{
}

/// Nothing else is: not what is too wide or too tall, nor what lies away from
/// both sides.
pub proof fn nothing_else_is_logo_shaped(rect: Rect, width: int, height: int)
    requires
        logo_shaped(rect, width, height),
    ensures
        100 * rect.width <= 22 * width,
        100 * rect.height <= 18 * height,
        5 * rect.x <= width || 5 * (width - rect.x - rect.width) <= width,
{
}

/// Logos are looked for at the top and at the bottom alike, and at the left and
/// at the right: a pixel is looked at exactly when its mirror image is, either
/// way up and either way round.
pub proof fn every_corner_is_looked_at(x: int, y: int, width: int, height: int)
    ensures
        looked_at(x, y, width, height) == looked_at(width - 1 - x, y, width, height),
        looked_at(x, y, width, height) == looked_at(x, height - 1 - y, width, height),
        in_band(y, height) == in_band(height - 1 - y, height),
{
}

/// The rows looked at are those of the top 28 hundredths, but for the very
/// first, and as many at the bottom; the middle of the picture is not looked at,
/// nor is the outermost column on either side.
pub proof fn the_middle_is_not_looked_at(x: int, y: int, width: int, height: int)
    requires
        height >= 8,
    ensures
        1 <= x < width - 1 && 1 <= y && 100 * (y + 1) <= 28 * height ==> looked_at(
            x,
            y,
            width,
            height,
        ),
        100 * y >= 28 * height && 100 * (height - 1 - y) >= 28 * height ==> !looked_at(
            x,
            y,
            width,
            height,
        ),
        x <= 0 || x >= width - 1 || y <= 0 || y >= height - 1 ==> !looked_at(x, y, width, height),
{
}

/// An edge is a difference across a pixel: between what is right of it and what
/// is left of it, and between what is below and what is above. A flat
/// surrounding has none.
pub proof fn edges_are_differences(frame: Frame, x: int, y: int)
    requires
        0 < x < frame.width - 1,
        0 < y < frame.height - 1,
        frame.spec_pixel(x + 1, y) is Some,
        frame.spec_pixel(x - 1, y) is Some,
        frame.spec_pixel(x, y + 1) is Some,
        frame.spec_pixel(x, y - 1) is Some,
    ensures
        ({
            let right = frame.spec_pixel(x + 1, y)->Some_0 as int;
            let left = frame.spec_pixel(x - 1, y)->Some_0 as int;
            let below = frame.spec_pixel(x, y + 1)->Some_0 as int;
            let above = frame.spec_pixel(x, y - 1)->Some_0 as int;
            let edge = edge_at(frame, x, y);
            &&& right == left && below == above <==> edge == 0
            &&& right >= left && below >= above ==> edge == right - left + below - above
            &&& right <= left && below <= above ==> edge == left - right + above - below
            &&& right >= left && below <= above ==> edge == right - left + above - below
            &&& right <= left && below >= above ==> edge == left - right + below - above
        }),
{
}

proof fn roots_are_roots(square: int)
    requires
        square >= 0,
    ensures
        is_root(root_of(square), square),
    decreases square,
{
    if square == 0 {
        assert(is_root(0, 0));
    } else {
        roots_are_roots(square - 1);
        let below = root_of(square - 1);
        let next = below + 1;
        assert((next + 1) * (next + 1) == next * next + 2 * next + 1) by (nonlinear_arith);
        assert(next * next == below * below + 2 * below + 1) by (nonlinear_arith)
            requires
                next == below + 1,
        ;
        if next * next <= square {
            assert(is_root(next, square));
        } else {
            assert(is_root(below, square));
        }
    }
}

proof fn larger_squares_have_larger_roots(small: int, large: int)
    requires
        0 <= small <= large,
    ensures
        0 <= root_of(small) <= root_of(large),
{
    roots_are_roots(small);
    roots_are_roots(large);
    let (s, l) = (root_of(small), root_of(large));
    assert(s <= l) by (nonlinear_arith)
        requires
            s >= 0,
            l >= 0,
            s * s <= small,
            small <= large,
            large < (l + 1) * (l + 1),
    ;
}

/// An edge that never moves is as steady as it is strong: with the same sum in
/// every frame the score is the mean, in millionths. The more it varies for the
/// same sum, the lower the score; and where there never was an edge there is no
/// score.
pub proof fn still_edges_are_steadiest(sum: int, squares: int, more: int, frames: int)
    requires
        frames > 0,
        sum >= 0,
        squares <= more,
    ensures
        frames * squares <= sum * sum ==> steadiness_of(sum, squares, frames) == sum * 1_000_000
            / frames,
        steadiness_of(sum, more, frames) <= steadiness_of(sum, squares, frames),
        steadiness_of(0, squares, frames) == 0,
{
    let spread = |s: int| frames * s - sum * sum;
    let variance = |s: int| if spread(s) > 0 { spread(s) } else { 0 };
    assert(frames * squares <= frames * more) by (nonlinear_arith)
        requires
            squares <= more,
            frames > 0,
    ;
    larger_squares_have_larger_roots(variance(squares) * 1_000_000, variance(more) * 1_000_000);
    let (near, far) = (
        root_of(variance(squares) * 1_000_000) + 1_000 * frames,
        root_of(variance(more) * 1_000_000) + 1_000 * frames,
    );
    let top = sum * 1_000_000_000;
    vstd::arithmetic::div_mod::lemma_div_is_ordered_by_denominator(top, near, far);
    roots_are_roots(0);
    assert(root_of(0) == 0) by (nonlinear_arith)
        requires
            root_of(0) >= 0,
            root_of(0) * root_of(0) <= 0,
    ;
    if frames * squares <= sum * sum {
        assert(near == 1_000 * frames);
        assert(top == (sum * 1_000_000) * 1_000);
        vstd::arithmetic::div_mod::lemma_div_denominator((sum * 1_000_000) * 1_000, 1_000, frames);
        vstd::arithmetic::div_mod::lemma_div_by_multiple(sum * 1_000_000, 1_000);
    }
    let own = frames * squares;
    let other = if own > 0 { own } else { 0 };
    larger_squares_have_larger_roots(0, other * 1_000_000);
    let bottom = root_of(other * 1_000_000) + 1_000 * frames;
    assert(0int * 1_000_000_000 / bottom == 0) by (nonlinear_arith)
        requires
            bottom > 0,
    ;
    assert(0int * 0 == 0);
}

/// The peak is the highest score there is: none is higher, and one is as high.
pub proof fn the_peak_is_the_highest(scores: Seq<u64>, count: int)
    requires
        0 <= count <= scores.len(),
    ensures
        forall|i: int| 0 <= i < count ==> #[trigger] scores[i] <= peak_of(scores, count),
        peak_of(scores, count) > 0 ==> exists|i: int|
            0 <= i < count && #[trigger] scores[i] == peak_of(scores, count),
    decreases count,
{
    if count > 0 {
        the_peak_is_the_highest(scores, count - 1);
        let before = peak_of(scores, count - 1);
        if scores[count - 1] > before {
            assert(scores[count - 1] == peak_of(scores, count));
        } else if before > 0 {
            let i = choose|i: int| 0 <= i < count - 1 && #[trigger] scores[i] == before;
            assert(scores[i] == peak_of(scores, count));
        }
    }
}

/// A stretch of frames that is over gives one vote to each pixel that was at
/// least nine twentieths as steady as the steadiest, which itself always gets
/// one; none to any other; and starts the next stretch from nothing. A stretch
/// in which nothing was steady is not counted.
pub proof fn steady_pixels_get_a_vote(seen: Sightings, i: int)
    requires
        seen.wf(),
        seen.chunk_frames > 0,
        seen.chunks < u16::MAX,
        0 <= i < seen.votes.len(),
    ensures
        ({
            let after = seen.closed_chunk();
            let scores = seen.scores();
            let peak = peak_of(scores, scores.len() as int);
            &&& after.chunk_frames == 0
            &&& after.frames == seen.frames
            &&& after.sum[i] == 0 && after.sum_squares[i] == 0
            &&& peak == 0 ==> after.votes == seen.votes && after.chunks == seen.chunks
            &&& peak > 0 ==> after.chunks == seen.chunks + 1
            &&& peak > 0 && 20 * scores[i] >= 9 * peak ==> after.votes[i] == seen.votes[i] + 1
            &&& peak > 0 && 20 * scores[i] < 9 * peak ==> after.votes[i] == seen.votes[i]
            &&& peak > 0 && scores[i] == peak ==> after.votes[i] == seen.votes[i] + 1
        }),
{
    assert(seen.votes[i] <= seen.chunks);
}

/// Half of the stretches, or more, make a majority, and there is none without a
/// vote.
pub proof fn a_majority_is_half(seen: Sightings)
    ensures
        seen.required() >= 1,
        2 * seen.required() >= seen.chunks,
        seen.required() > 1 ==> 2 * (seen.required() - 1) < seen.chunks,
{
}

/// Two boxes are near each other both ways or neither way; boxes that overlap
/// are near, and boxes with more than the gap between them, across or down, are
/// not.
pub proof fn nearness_is_mutual(a: Rect, b: Rect, gap: int)
    requires
        gap >= 0,
    ensures
        near_by(a, b, gap) == near_by(b, a, gap),
        near_by(a, a, gap),
        a.x + a.width + gap < b.x || a.y + a.height + gap < b.y ==> !near_by(a, b, gap),
        a.x <= b.x <= a.x + a.width + gap && a.y <= b.y <= a.y + a.height + gap ==> near_by(
            a,
            b,
            gap,
        ),
        a.x <= b.x <= a.x + a.width + gap && b.y <= a.y <= b.y + b.height + gap ==> near_by(
            a,
            b,
            gap,
        ),
{
}

/// How near boxes must be to belong together: a twenty-fourth of the width, and
/// eight pixels at least.
pub proof fn gaps_grow_with_the_picture(width: int, wider: int)
    requires
        0 <= width <= wider,
    ensures
        8 <= cluster_gap(width) <= cluster_gap(wider),
        width >= 216 ==> 24 * cluster_gap(width) <= width < 24 * (cluster_gap(width) + 1),
        width < 216 ==> cluster_gap(width) == 8,
{
}

/// No blob is lost in gathering: the area of all the clusters together is that
/// of all the blobs.
pub proof fn gathering_keeps_the_area(blobs: Seq<(int, Rect)>, gap: int, count: int)
    requires
        0 <= count <= blobs.len(),
    ensures
        area_in(clusters_of(blobs, gap, count)) == area_in(blobs.take(count)),
    decreases count,
{
    if count > 0 {
        gathering_keeps_the_area(blobs, gap, count - 1);
        let before = clusters_of(blobs, gap, count - 1);
        sweeping_keeps_the_area(before, blobs[count - 1], gap, before.len() as int);
        assert(before.take(before.len() as int) =~= before);
        let (kept, merged) = swept(before, blobs[count - 1], gap, before.len() as int);
        assert(kept.push(merged).drop_last() =~= kept);
        assert(blobs.take(count).drop_last() =~= blobs.take(count - 1));
    } else {
        assert(blobs.take(0).len() == 0);
    }
}

proof fn sweeping_keeps_the_area(
    clusters: Seq<(int, Rect)>,
    blob: (int, Rect),
    gap: int,
    count: int,
)
    requires
        0 <= count <= clusters.len(),
    ensures
        ({
            let (kept, merged) = swept(clusters, blob, gap, count);
            area_in(kept) + merged.0 == area_in(clusters.take(count)) + blob.0
        }),
    decreases count,
{
    if count > 0 {
        sweeping_keeps_the_area(clusters, blob, gap, count - 1);
        let (kept, merged) = swept(clusters, blob, gap, count - 1);
        assert(kept.push(clusters[count - 1]).drop_last() =~= kept);
        assert(clusters.take(count).drop_last() =~= clusters.take(count - 1));
    } else {
        assert(clusters.take(0).len() == 0);
    }
}

/// Every box fits the numbers a box is made of.
spec fn all_fit_in(clusters: Seq<(int, Rect)>) -> bool {
    forall|i: int| 0 <= i < clusters.len() ==> fits_in((#[trigger] clusters[i]).1)
}

spec fn fits_in(rect: Rect) -> bool {
    rect.x + rect.width <= u32::MAX && rect.y + rect.height <= u32::MAX
}

/// A box lies in one of the clusters.
pub open spec fn lies_in_one(clusters: Seq<(int, Rect)>, rect: Rect) -> bool {
    exists|i: int| 0 <= i < clusters.len() && lies_in(rect, (#[trigger] clusters[i]).1)
}

/// Every blob ends up inside one of the clusters.
pub proof fn every_blob_is_gathered(blobs: Seq<(int, Rect)>, gap: int, count: int, k: int)
    requires
        0 <= k < count <= blobs.len(),
        forall|i: int|
            0 <= i < blobs.len() ==> (#[trigger] blobs[i]).1.x + blobs[i].1.width <= u32::MAX
                && blobs[i].1.y + blobs[i].1.height <= u32::MAX,
    ensures
        lies_in_one(clusters_of(blobs, gap, count), blobs[k].1),
    decreases count,
{
    clusters_fit(blobs, gap, count - 1);
    let before = clusters_of(blobs, gap, count - 1);
    let blob = blobs[count - 1];
    assert(fits_in(blob.1));
    let (kept, merged) = swept(before, blob, gap, before.len() as int);
    let after = kept.push(merged);
    if k < count - 1 {
        every_blob_is_gathered(blobs, gap, count - 1, k);
        let i = choose|i: int| 0 <= i < before.len() && lies_in(blobs[k].1, (#[trigger] before[i]).1);
        sweeping_gathers(before, blob, gap, before.len() as int, i);
        if lies_in(before[i].1, merged.1) {
            assert(lies_in(blobs[k].1, after[after.len() - 1].1));
        } else {
            let m = choose|m: int| 0 <= m < kept.len() && #[trigger] kept[m] == before[i];
            assert(after[m] == before[i]);
        }
    } else {
        sweeping_gathers(before, blob, gap, before.len() as int, -1);
        assert(lies_in(blob.1, after[after.len() - 1].1));
    }
}

proof fn clusters_fit(blobs: Seq<(int, Rect)>, gap: int, count: int)
    requires
        0 <= count <= blobs.len(),
        forall|i: int|
            0 <= i < blobs.len() ==> (#[trigger] blobs[i]).1.x + blobs[i].1.width <= u32::MAX
                && blobs[i].1.y + blobs[i].1.height <= u32::MAX,
    ensures
        all_fit_in(clusters_of(blobs, gap, count)),
    decreases count,
{
    if count > 0 {
        clusters_fit(blobs, gap, count - 1);
        let before = clusters_of(blobs, gap, count - 1);
        assert(fits_in(blobs[count - 1].1));
        sweeping_gathers(before, blobs[count - 1], gap, before.len() as int, -1);
    }
}

proof fn sweeping_gathers(
    clusters: Seq<(int, Rect)>,
    blob: (int, Rect),
    gap: int,
    count: int,
    i: int,
)
    requires
        0 <= count <= clusters.len(),
        i < count,
        all_fit_in(clusters),
        fits_in(blob.1),
    ensures
        ({
            let (kept, merged) = swept(clusters, blob, gap, count);
            &&& lies_in(blob.1, merged.1)
            &&& fits_in(merged.1)
            &&& all_fit_in(kept)
            &&& 0 <= i ==> lies_in(clusters[i].1, merged.1) || exists|m: int|
                0 <= m < kept.len() && #[trigger] kept[m] == clusters[i]
        }),
    decreases count,
{
    if count > 0 {
        let here = if i < count - 1 { i } else { -1 };
        sweeping_gathers(clusters, blob, gap, count - 1, here);
        let (kept, merged) = swept(clusters, blob, gap, count - 1);
        let other = clusters[count - 1];
        assert(fits_in(other.1));
        the_union_is_the_smallest(merged.1, other.1, merged.1);
        let (now_kept, now_merged) = swept(clusters, blob, gap, count);
        if near_by(merged.1, other.1, gap) {
            assert(lies_in(merged.1, now_merged.1));
            if 0 <= i < count - 1 && !lies_in(clusters[i].1, now_merged.1) {
                assert(!lies_in(clusters[i].1, merged.1));
            }
        } else {
            assert forall|m: int| 0 <= m < now_kept.len() implies fits_in(
                (#[trigger] now_kept[m]).1,
            ) by {
                if m < kept.len() {
                    assert(fits_in(kept[m].1));
                }
            }
            if i == count - 1 {
                assert(now_kept[now_kept.len() - 1] == clusters[i]);
            } else if 0 <= i && !lies_in(clusters[i].1, now_merged.1) {
                let m = choose|m: int| 0 <= m < kept.len() && #[trigger] kept[m] == clusters[i];
                assert(now_kept[m] == clusters[i]);
            }
        }
    }
}

/// Every blob is a stretch of pixels that stand out and touch, eight of them at
/// least, with the box that just holds it.
pub proof fn blobs_are_regions(picture: Standout, count: int, k: int)
    requires
        0 <= k < blobs_in(picture, count).len(),
    ensures
        exists|p: Pixel| #[trigger]
            picture.lit(p) && blobs_in(picture, count)[k].0 == picture.region(p).len()
                && blobs_in(picture, count)[k].1 == box_of(picture.region(p))
                && picture.region(p).len() >= 8,
    decreases count,
{
    let before = blobs_in(picture, count - 1);
    if k < before.len() {
        blobs_are_regions(picture, count - 1, k);
        assert(blobs_in(picture, count)[k] == before[k]);
    } else {
        let p = ((count - 1) % picture.width, (count - 1) / picture.width);
        assert(picture.lit(p));
    }
}

/// Nothing is located from fewer than a hundred frames, nor before a stretch of
/// them has been judged.
pub proof fn locating_takes_frames(seen: Sightings)
    ensures
        seen.frames < 100 || seen.chunks == 0 ==> seen.location() is None,
{
}

/// What is located holds, with a margin of four pixels as far as the picture
/// reaches, one of the clusters: the largest there is of the size and shape of a
/// logo. Where there is such a cluster, and frames enough, something is located.
pub proof fn the_largest_logo_is_located(seen: Sightings)
    requires
        seen.frames >= 100,
        seen.chunks > 0,
    ensures
        ({
            let (width, height) = (seen.width as int, seen.height as int);
            let blobs = blobs_in(seen.standout(), seen.votes.len() as int);
            let clusters = clusters_of(blobs, cluster_gap(width), blobs.len() as int);
            match seen.location() {
                Some(rect) => exists|i: int|
                    0 <= i < clusters.len() && rect == (#[trigger] clusters[i]).1.grown(
                        4,
                        width,
                        height,
                    ) && clusters[i].0 >= 64 && logo_shaped(clusters[i].1, width, height)
                        && forall|k: int|
                        0 <= k < clusters.len() && (#[trigger] clusters[k]).0 > clusters[i].0
                            ==> !logo_shaped(clusters[k].1, width, height),
                None => forall|k: int|
                    0 <= k < clusters.len() && logo_shaped(
                        (#[trigger] clusters[k]).1,
                        width,
                        height,
                    ) ==> clusters[k].0 < 64,
            }
        }),
{
    let (width, height) = (seen.width as int, seen.height as int);
    let blobs = blobs_in(seen.standout(), seen.votes.len() as int);
    let clusters = clusters_of(blobs, cluster_gap(width), blobs.len() as int);
    the_best_cluster_is_logo_shaped(clusters, width, height);
    if let Some(best) = best_of(clusters, width, height) {
        let i = choose|i: int| 0 <= i < clusters.len() && #[trigger] clusters[i] == best;
        assert(clusters[i].0 >= 64);
    }
}

/// Of clusters as large as each other the last is located: none after the one
/// that is located is as large.
pub proof fn the_last_of_the_largest_is_located(
    clusters: Seq<(int, Rect)>,
    width: int,
    height: int,
) -> (i: int)
    requires
        best_of(clusters, width, height) is Some,
    ensures
        0 <= i < clusters.len(),
        best_of(clusters, width, height) == Some(clusters[i]),
        forall|k: int|
            i < k < clusters.len() && logo_shaped((#[trigger] clusters[k]).1, width, height)
                ==> clusters[k].0 < clusters[i].0,
    decreases clusters.len(),
{
    let before = clusters.drop_last();
    the_best_cluster_is_logo_shaped(clusters, width, height);
    let last = clusters.last();
    if best_of(before, width, height) is Some && best_of(clusters, width, height) == best_of(
        before,
        width,
        height,
    ) && !(last.0 >= 64 && logo_shaped(last.1, width, height) && last.0 >= (best_of(
        before,
        width,
        height,
    )->Some_0).0) {
        let i = the_last_of_the_largest_is_located(before, width, height);
        assert(before[i] == clusters[i]);
        assert forall|k: int|
            i < k < clusters.len() && logo_shaped((#[trigger] clusters[k]).1, width, height) implies clusters[k].0
            < clusters[i].0 by {
            if k < before.len() {
                assert(before[k] == clusters[k]);
            } else {
                assert(clusters[k] == last);
            }
        }
        i
    } else {
        clusters.len() - 1
    }
}

/// Every pixel that is looked at gains the edge that the frame has there, once
/// as it is and once squared; no other gains anything.
pub proof fn edges_add_up(seen: Sightings, frame: Frame, i: int)
    requires
        seen.wf(),
        0 <= i < seen.sum.len(),
        frame.width == seen.width,
        frame.height == seen.height,
        seen.chunk_frames + 1 < 60,
        seen.frames < u32::MAX,
        edge_at(frame, i % (seen.width as int), i / (seen.width as int)) <= 510,
        edge_at(frame, i % (seen.width as int), i / (seen.width as int)) >= 0,
    ensures
        ({
            let (x, y) = (i % (seen.width as int), i / (seen.width as int));
            let edge = edge_at(frame, x, y);
            let after = seen.after(frame);
            &&& looked_at(x, y, seen.width as int, seen.height as int) ==> after.sum[i]
                == seen.sum[i] + edge && after.sum_squares[i] == seen.sum_squares[i] + edge * edge
            &&& !looked_at(x, y, seen.width as int, seen.height as int) ==> after.sum[i]
                == seen.sum[i] && after.sum_squares[i] == seen.sum_squares[i]
            &&& after.frames == seen.frames + 1
            &&& after.chunk_frames == seen.chunk_frames + 1
            &&& after.votes == seen.votes
            &&& after.chunks == seen.chunks
        }),
{
    let edge = edge_at(frame, i % (seen.width as int), i / (seen.width as int));
    assert(0 <= edge * edge <= 260_100) by (nonlinear_arith)
        requires
            0 <= edge <= 510,
    ;
    assert(seen.sum[i] <= seen.chunk_frames * 510);
    assert(seen.sum_squares[i] <= seen.chunk_frames * 260_100);
}

/// A stretch is judged with its sixtieth frame, and a frame of another size is
/// passed over.
pub proof fn stretches_are_sixty_frames(seen: Sightings, frame: Frame)
    requires
        seen.chunk_frames < 60,
        seen.frames < u32::MAX,
        seen.chunks < u16::MAX,
    ensures
        frame.width != seen.width || frame.height != seen.height ==> seen.after(frame) == seen,
        frame.width == seen.width && frame.height == seen.height ==> {
            &&& seen.after(frame).frames == seen.frames + 1
            &&& seen.chunk_frames == 59 ==> seen.after(frame).chunk_frames == 0
            &&& seen.chunk_frames < 59 ==> seen.after(frame).chunk_frames == seen.chunk_frames + 1
                && seen.after(frame).chunks == seen.chunks
        },
{
}

/// Two pixels touch when one lies beside, above or below the other; corners do
/// not touch.
pub proof fn pixels_touch_along_an_edge(p: Pixel, q: Pixel)
    ensures
        adjacent(p, q) == adjacent(q, p),
        !adjacent(p, p),
        adjacent(p, (p.0 + 1, p.1)) && adjacent(p, (p.0 - 1, p.1)),
        adjacent(p, (p.0, p.1 + 1)) && adjacent(p, (p.0, p.1 - 1)),
        adjacent(p, q) ==> (p.0 - q.0) * (p.0 - q.0) + (p.1 - q.1) * (p.1 - q.1) == 1,
{
    if adjacent(p, q) {
        let (dx, dy) = (p.0 - q.0, p.1 - q.1);
        assert(dx * dx + dy * dy == 1) by (nonlinear_arith)
            requires
                (dx == 0 && (dy == 1 || dy == -1)) || (dy == 0 && (dx == 1 || dx == -1)),
        ;
    }
}

/// Every stretch of eight pixels or more that stand out and touch is found, at
/// the first of its pixels.
pub proof fn every_region_is_a_blob(picture: Standout, count: int, p: Pixel)
    requires
        picture.width > 0,
        leads(picture, p),
        picture.offset(p) < count,
        picture.region(p).len() >= 8,
    ensures
        blobs_in(picture, count).contains((picture.region(p).len() as int, box_of(picture.region(p)))),
    decreases count,
{
    let wanted = (picture.region(p).len() as int, box_of(picture.region(p)));
    let before = blobs_in(picture, count - 1);
    let all = blobs_in(picture, count);
    let at = picture.offset(p);
    let width = picture.width;
    assert(at == p.1 * width + p.0);
    assert(at >= 0) by (nonlinear_arith)
        requires
            at == p.1 * width + p.0,
            p.0 >= 0,
            p.1 >= 0,
            width > 0,
    ;
    if at < count - 1 {
        every_region_is_a_blob(picture, count - 1, p);
        let j = before.index_of(wanted);
        assert(all[j] == wanted);
    } else {
        vstd::arithmetic::div_mod::lemma_fundamental_div_mod_converse(at, width, p.1, p.0);
        assert(all[all.len() - 1] == wanted);
    }
}

} // verus!
