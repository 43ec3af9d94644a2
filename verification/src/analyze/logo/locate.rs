//! Finding where the logo is, without being told.
//!
//! # What separates a logo from busy content
//!
//! A logo is an edge that never moves. Averaging edge strength over time is
//! not enough on its own: a permanently busy corner averages high too. What
//! distinguishes the logo is that its edge strength is *steady*: high mean,
//! low variance. Content that merely happens to be detailed fluctuates frame
//! to frame as the picture moves underneath it.
//!
//! That is still not enough, because a recording contains long stretches that
//! are static for reasons of their own: a held title card, a station ident, a
//! test pattern, a slide. Measured across the whole recording, any of those
//! can look steadier than the logo.
//!
//! What a logo has and they do not is *persistence*. It is there through the
//! programme, which is most of the recording, while a static interlude is
//! there for one stretch and gone. So the recording is divided into chunks,
//! each scored separately, and a pixel counts as logo-like only if it stands
//! out in the majority of them.

use vstd::prelude::*;
use vstd::arithmetic::div_mod::lemma_fundamental_div_mod_converse;
use crate::analyze::logo::model::Rect;
use crate::analyze::logo::region::box_of;
use crate::analyze::logo::region::flood;
use crate::analyze::logo::region::visited_pixels;
use crate::analyze::logo::region::Pixel;
use crate::analyze::logo::region::Standout;
use crate::arith::root_of;
use crate::arith::square_root;
use crate::media::frames::offsets_fit;
use crate::media::frames::pixel_offset;
use crate::media::frames::Frame;

verus! {

/// Fewest frames before a location is trusted.
pub const MINIMUM_FRAMES: u32 = 100;

/// A cluster must cover at least this many pixels to be a logo.
pub const MINIMUM_AREA: u128 = 64;

/// A single connected blob must cover at least this many pixels to join a
/// cluster. Lower than [`MINIMUM_AREA`], because one stroke of a character is
/// small on its own and only meaningful alongside the others.
pub const MINIMUM_BLOB_AREA: u64 = 8;

/// Frames per chunk, in the decimated stream the locator is fed.
///
/// At the usual decimation this is roughly twenty seconds of recording: long
/// enough for a chunk's statistics to mean something, short enough that a
/// half-hour programme yields plenty of chunks to vote.
pub const FRAMES_PER_CHUNK: u32 = 60;

/// How many rows, from the top and bottom edges, a logo may be found in: 28%
/// of the height, at least two, and never past the middle.
///
/// Broadcasters put logos in a corner or centred against the top or bottom
/// edge. Excluding the middle band removes most of the picture, and with it
/// most of the false positives from static furniture in the scene.
pub open spec fn band_of(height: int) -> int {
    let share = height * 28 / 100;
    let least = if share > 2 { share } else { 2 };
    if least < height / 2 { least } else { height / 2 }
}

/// A row a logo may occupy.
pub open spec fn in_band(y: int, height: int) -> bool {
    1 <= y < band_of(height) || height - band_of(height) <= y < height - 1
}

/// A pixel that is looked at.
pub open spec fn looked_at(x: int, y: int, width: int, height: int) -> bool {
    1 <= x < width - 1 && in_band(y, height)
}

/// The pixel nearest a position, and black where there is none.
pub open spec fn sample(frame: Frame, x: int, y: int) -> int {
    let right = if frame.width > 0 { frame.width - 1 } else { 0 };
    let bottom = if frame.height > 0 { frame.height - 1 } else { 0 };
    match frame.spec_pixel(if x < right { x } else { right }, if y < bottom { y } else { bottom }) {
        Some(value) => value as int,
        None => 0,
    }
}

/// The size of a difference.
pub open spec fn gap_between(a: int, b: int) -> int {
    if a > b { a - b } else { b - a }
}

/// How strong an edge is at a pixel: the differences across it, added up.
pub open spec fn edge_at(frame: Frame, x: int, y: int) -> int {
    gap_between(sample(frame, x + 1, y), sample(frame, if x > 0 { x - 1 } else { 0 }, y))
        + gap_between(sample(frame, x, y + 1), sample(frame, x, if y > 0 { y - 1 } else { 0 }))
}

fn sample_of(frame: &Frame<'_>, x: u32, y: u32) -> (value: u8)
    ensures
        value == sample(*frame, x as int, y as int),
{
    let right: u32 = if frame.width > 0 { frame.width - 1 } else { 0 };
    let bottom: u32 = if frame.height > 0 { frame.height - 1 } else { 0 };
    let x: u32 = if x < right { x } else { right };
    let y: u32 = if y < bottom { y } else { bottom };
    match frame.pixel(x, y) {
        Some(value) => value,
        None => 0,
    }
}

/// Sobel-style gradient magnitude at a pixel, as a plain sum of absolute
/// differences: cheap, and enough to tell an edge from a flat area.
#[must_use]
pub fn edge_strength(frame: &Frame<'_>, x: u32, y: u32) -> (strength: u32)
    requires
        x < u32::MAX,
        y < u32::MAX,
    ensures
        strength == edge_at(*frame, x as int, y as int),
        strength <= 510,
{
    let right: u32 = sample_of(frame, x + 1, y) as u32;
    let left: u32 = sample_of(frame, if x > 0 { x - 1 } else { 0 }, y) as u32;
    let below: u32 = sample_of(frame, x, y + 1) as u32;
    let above: u32 = sample_of(frame, x, if y > 0 { y - 1 } else { 0 }) as u32;
    let horizontal: u32 = if right > left { right - left } else { left - right };
    let vertical: u32 = if below > above { below - above } else { above - below };
    horizontal + vertical
}

/// How steady an edge is, in millionths: mean strength over one more than its
/// standard deviation.
///
/// High where an edge is both strong and unchanging; low where the picture
/// moves, and low where there is no edge at all. The one keeps a perfectly
/// steady edge from dividing by zero, and sets the scale at which "steady"
/// stops mattering.
pub open spec fn steadiness_of(sum: int, squares: int, frames: int) -> int {
    let spread = frames * squares - sum * sum;
    let variance = if spread > 0 { spread } else { 0 };
    if frames <= 0 {
        0
    } else {
        sum * 1_000_000_000 / (root_of(variance * 1_000_000) + 1_000 * frames)
    }
}

/// Mean edge strength over its standard deviation, for one pixel.
fn steadiness(sum: u64, squares: u64, frames: u32) -> (score: u64)
    requires
        sum <= frames * 510,
        squares <= frames * 260_100,
    ensures
        score == steadiness_of(sum as int, squares as int, frames as int),
        sum == 0 ==> score == 0,
        score <= 510_000_000,
{
    if frames == 0 {
        return 0;
    }
    proof {
        assert(0 <= frames * squares <= 0xffff_ffff * 0x4_0000_0000_0000) by (nonlinear_arith)
            requires
                0 <= frames <= 0xffff_ffff,
                0 <= squares <= 0x4_0000_0000_0000,
        ;
        assert(0 <= sum * sum <= 0x1ff_0000_0000 * 0x1ff_0000_0000) by (nonlinear_arith)
            requires
                0 <= sum <= 0x1ff_0000_0000,
        ;
    }
    let total: u128 = frames as u128 * squares as u128;
    let square: u128 = sum as u128 * sum as u128;
    let variance: u128 = if total > square { total - square } else { 0 };
    let root: u128 = square_root(variance * 1_000_000);
    let top: u128 = sum as u128 * 1_000_000_000;
    let bottom: u128 = root + 1_000 * frames as u128;
    assert(top as int / bottom as int <= 510_000_000) by (nonlinear_arith)
        requires
            0 <= top <= frames * 510_000_000_000,
            bottom >= 1_000 * frames,
            frames > 0,
    ;
    assert(sum == 0 ==> top as int / bottom as int == 0) by (nonlinear_arith)
        requires
            top == sum * 1_000_000_000,
            bottom > 0,
    ;
    (top / bottom) as u64
}

/// The largest of the first `count` scores, and at least nothing.
pub open spec fn peak_of(scores: Seq<u64>, count: int) -> int
    decreases count,
{
    if count <= 0 {
        0
    } else {
        let before = peak_of(scores, count - 1);
        if scores[count - 1] > before { scores[count - 1] as int } else { before }
    }
}

/// What a locator has seen so far.
#[verifier::ext_equal]
pub ghost struct Sightings {
    /// Frame width.
    pub width: u32,
    /// Frame height.
    pub height: u32,
    /// Sum of edge strength per pixel, for the chunk in progress.
    pub sum: Seq<u64>,
    /// Sum of squared edge strength per pixel, for the same chunk.
    pub sum_squares: Seq<u64>,
    /// Frames in the chunk in progress.
    pub chunk_frames: u32,
    /// How many chunks each pixel stood out in.
    pub votes: Seq<u16>,
    /// Chunks completed so far.
    pub chunks: u16,
    /// Frames seen in all.
    pub frames: u32,
}

impl Sightings {
    /// Whether the pixel at an offset is looked at.
    pub open spec fn covers(self, i: int) -> bool {
        looked_at(
            i % (self.width as int),
            i / (self.width as int),
            self.width as int,
            self.height as int,
        )
    }

    /// There is an entry for every pixel, the sums are those of the frames in
    /// the chunk, no pixel has more votes than there were chunks, and only
    /// pixels that are looked at have any of either.
    pub open spec fn wf(self) -> bool {
        let count = self.width * self.height;
        &&& self.sum.len() == count
        &&& self.sum_squares.len() == count
        &&& self.votes.len() == count
        &&& self.chunk_frames <= self.frames
        &&& forall|i: int|
            0 <= i < count ==> (#[trigger] self.sum[i]) <= self.chunk_frames * 510 && (
            self.sum[i] > 0 ==> self.covers(i))
        &&& forall|i: int|
            0 <= i < count ==> (#[trigger] self.sum_squares[i]) <= self.chunk_frames * 260_100
        &&& forall|i: int|
            0 <= i < count ==> (#[trigger] self.votes[i]) <= self.chunks && (self.votes[i] > 0
                ==> self.covers(i))
    }

    /// How steady each pixel was over the chunk in progress.
    pub open spec fn scores(self) -> Seq<u64> {
        Seq::new(
            self.sum.len(),
            |i: int|
                steadiness_of(
                    self.sum[i] as int,
                    self.sum_squares[i] as int,
                    self.chunk_frames as int,
                ) as u64,
        )
    }

    /// With the chunk in progress scored and folded into the votes: a pixel
    /// earns one by reaching 45% of the chunk's steadiest. A chunk with no
    /// edges at all does not count as one.
    pub open spec fn closed_chunk(self) -> Sightings {
        let scores = self.scores();
        let peak = peak_of(scores, scores.len() as int);
        if self.chunk_frames == 0 || self.chunks == u16::MAX {
            self
        } else {
            Sightings {
                sum: Seq::new(self.sum.len(), |i: int| 0),
                sum_squares: Seq::new(self.sum.len(), |i: int| 0),
                chunk_frames: 0,
                votes: if peak > 0 {
                    Seq::new(
                        self.votes.len(),
                        |i: int|
                            if scores[i] * 100 >= peak * 45 {
                                (self.votes[i] + 1) as u16
                            } else {
                                self.votes[i]
                            },
                    )
                } else {
                    self.votes
                },
                chunks: if peak > 0 { (self.chunks + 1) as u16 } else { self.chunks },
                ..self
            }
        }
    }

    /// With a frame's edges added.
    pub open spec fn with_edges(self, frame: Frame) -> Sightings {
        let w = self.width as int;
        Sightings {
            sum: Seq::new(
                self.sum.len(),
                |i: int|
                    if self.covers(i) {
                        (self.sum[i] + edge_at(frame, i % w, i / w)) as u64
                    } else {
                        self.sum[i]
                    },
            ),
            sum_squares: Seq::new(
                self.sum_squares.len(),
                |i: int|
                    if self.covers(i) {
                        (self.sum_squares[i] + edge_at(frame, i % w, i / w) * edge_at(
                            frame,
                            i % w,
                            i / w,
                        )) as u64
                    } else {
                        self.sum_squares[i]
                    },
            ),
            chunk_frames: (self.chunk_frames + 1) as u32,
            frames: (self.frames + 1) as u32,
            ..self
        }
    }

    /// After a frame: one of another size is ignored, and a full chunk is
    /// closed.
    pub open spec fn after(self, frame: Frame) -> Sightings {
        let next = self.with_edges(frame);
        if frame.width != self.width || frame.height != self.height {
            self
        } else if next.chunk_frames >= FRAMES_PER_CHUNK {
            next.closed_chunk()
        } else {
            next
        }
    }

    /// How many chunks a pixel must stand out in: half of them, rounded up,
    /// and at least one.
    ///
    /// A logo is present through the programme, which is the majority of any
    /// recording. A static interlude is present for one stretch of it.
    pub open spec fn required(self) -> int {
        let half = (self.chunks + 1) / 2;
        if half > 1 { half } else { 1 }
    }

    /// The pixels that stood out in enough chunks.
    pub open spec fn standout(self) -> Standout {
        Standout {
            width: self.width as int,
            height: self.height as int,
            votes: self.votes,
            required: self.required() as u16,
        }
    }

    /// Where the logo is, if anywhere: the strongest cluster of regions that
    /// stood out, grown a little so that the scanner has a border of clean
    /// background to read. Too few frames are not trusted.
    pub open spec fn location(self) -> Option<Rect> {
        let blobs = blobs_in(self.standout(), self.votes.len() as int);
        if self.frames < MINIMUM_FRAMES || self.chunks == 0 {
            None
        } else {
            match best_of(
                clusters_of(blobs, cluster_gap(self.width as int), blobs.len() as int),
                self.width as int,
                self.height as int,
            ) {
                None => None,
                Some(cluster) => Some(
                    cluster.1.grown(4, self.width as int, self.height as int),
                ),
            }
        }
    }
}

/// The first pixel of its region, reading left to right and top to bottom.
pub open spec fn leads(picture: Standout, p: Pixel) -> bool {
    picture.lit(p) && forall|q: Pixel| #[trigger]
        picture.lit(q) && picture.offset(q) < picture.offset(p) ==> !picture.connected(q, p)
}

/// The size and bounding box of each region of any size among the first
/// `count` pixels, in reading order.
pub open spec fn blobs_in(picture: Standout, count: int) -> Seq<(int, Rect)>
    decreases count,
{
    if count <= 0 {
        Seq::empty()
    } else {
        let before = blobs_in(picture, count - 1);
        let p = ((count - 1) % picture.width, (count - 1) / picture.width);
        let region = picture.region(p);
        if leads(picture, p) && region.len() >= MINIMUM_BLOB_AREA {
            before.push((region.len() as int, box_of(region)))
        } else {
            before
        }
    }
}

/// How close two blobs of one logo lie: a twenty-fourth of the width, and at
/// least eight pixels.
pub open spec fn cluster_gap(width: int) -> int {
    if width / 24 > 8 { width / 24 } else { 8 }
}

/// Two rectangles are within `gap` pixels of each other.
pub open spec fn near_by(a: Rect, b: Rect, gap: int) -> bool {
    &&& a.x <= b.x + b.width + gap
    &&& b.x <= a.x + a.width + gap
    &&& a.y <= b.y + b.height + gap
    &&& b.y <= a.y + a.height + gap
}

/// The smaller of two.
pub open spec fn lesser(a: int, b: int) -> int {
    if a < b { a } else { b }
}

/// The larger of two.
pub open spec fn greater(a: int, b: int) -> int {
    if a > b { a } else { b }
}

/// The smallest rectangle containing both.
pub open spec fn union_of(a: Rect, b: Rect) -> Rect {
    let x = lesser(a.x as int, b.x as int);
    let y = lesser(a.y as int, b.y as int);
    Rect {
        x: x as u32,
        y: y as u32,
        width: (greater(a.x + a.width, b.x + b.width) - x) as u32,
        height: (greater(a.y + a.height, b.y + b.height) - y) as u32,
    }
}

/// One rectangle lies inside another.
pub open spec fn lies_in(inner: Rect, outer: Rect) -> bool {
    &&& outer.x <= inner.x
    &&& outer.y <= inner.y
    &&& inner.x + inner.width <= outer.x + outer.width
    &&& inner.y + inner.height <= outer.y + outer.height
}

/// The union of two rectangles is the smallest that holds both: both lie in it,
/// and it lies in every other that they both lie in. So it does not matter which
/// of the two comes first, and the union of a rectangle with itself is that
/// rectangle.
pub proof fn the_union_is_the_smallest(a: Rect, b: Rect, other: Rect)
    requires
        a.x + a.width <= u32::MAX,
        a.y + a.height <= u32::MAX,
        b.x + b.width <= u32::MAX,
        b.y + b.height <= u32::MAX,
    ensures
        lies_in(a, union_of(a, b)),
        lies_in(b, union_of(a, b)),
        lies_in(a, other) && lies_in(b, other) ==> lies_in(union_of(a, b), other),
        union_of(a, b) == union_of(b, a),
        union_of(a, a) == a,
{
}

/// Sweep a blob past the first `count` clusters, taking in every one that it,
/// as grown so far, is close to: what is left of them, and what it has become.
pub open spec fn swept(
    clusters: Seq<(int, Rect)>,
    blob: (int, Rect),
    gap: int,
    count: int,
) -> (Seq<(int, Rect)>, (int, Rect))
    decreases count,
{
    if count <= 0 {
        (Seq::empty(), blob)
    } else {
        let (kept, merged) = swept(clusters, blob, gap, count - 1);
        let other = clusters[count - 1];
        if near_by(merged.1, other.1, gap) {
            (kept, (merged.0 + other.0, union_of(merged.1, other.1)))
        } else {
            (kept.push(other), merged)
        }
    }
}

/// The clusters the first `count` blobs form. One blob can bridge two groups
/// that were previously separate.
pub open spec fn clusters_of(blobs: Seq<(int, Rect)>, gap: int, count: int) -> Seq<(int, Rect)>
    decreases count,
{
    if count <= 0 {
        Seq::empty()
    } else {
        let before = clusters_of(blobs, gap, count - 1);
        let (kept, merged) = swept(before, blobs[count - 1], gap, before.len() as int);
        kept.push(merged)
    }
}

/// A region's shape and position are consistent with a logo: no more than 22%
/// of the width and 18% of the height, and within a fifth of the width of the
/// left or right edge.
///
/// Station marks are small, and allowing more lets a static element of the set
/// win on area alone. Logos hug an edge: a candidate floating in from both
/// sides is part of the picture, however steady it is.
pub open spec fn logo_shaped(rect: Rect, width: int, height: int) -> bool {
    &&& rect.width <= width * 22 / 100
    &&& rect.height <= height * 18 / 100
    &&& (rect.x <= width / 5 || width - (rect.x + rect.width) <= width / 5)
}

/// The largest cluster of the size and shape of a logo, the last of those
/// that tie.
pub open spec fn best_of(
    clusters: Seq<(int, Rect)>,
    width: int,
    height: int,
) -> Option<(int, Rect)>
    decreases clusters.len(),
{
    if clusters.len() == 0 {
        None
    } else {
        let before = best_of(clusters.drop_last(), width, height);
        let next = clusters.last();
        if next.0 < MINIMUM_AREA || !logo_shaped(next.1, width, height) {
            before
        } else {
            match before {
                Some(best) if best.0 > next.0 => before,
                _ => Some(next),
            }
        }
    }
}

/// What is taken for a logo is among the candidates, as large as any of them
/// that is shaped like one, and shaped like one itself: never a band across
/// the picture, nor a part of its middle.
pub proof fn the_best_cluster_is_logo_shaped(clusters: Seq<(int, Rect)>, width: int, height: int)
    ensures
        best_of(clusters, width, height) matches Some(best) ==> {
            &&& clusters.contains(best)
            &&& logo_shaped(best.1, width, height)
            &&& best.0 >= MINIMUM_AREA
            &&& forall|i: int|
                0 <= i < clusters.len() && logo_shaped((#[trigger] clusters[i]).1, width, height)
                    ==> clusters[i].0 <= best.0 || clusters[i].0 < MINIMUM_AREA
        },
        best_of(clusters, width, height) is None ==> forall|i: int|
            0 <= i < clusters.len() ==> (#[trigger] clusters[i]).0 < MINIMUM_AREA || !logo_shaped(
                clusters[i].1,
                width,
                height,
            ),
    decreases clusters.len(),
{
    if clusters.len() > 0 {
        let shorter = clusters.drop_last();
        the_best_cluster_is_logo_shaped(shorter, width, height);
        let last = clusters.len() - 1;
        if let Some(best) = best_of(clusters, width, height) {
            if shorter.contains(best) {
                let k = choose|k: int| 0 <= k < shorter.len() && shorter[k] == best;
                assert(clusters[k] == best);
            } else {
                assert(clusters[last] == best);
            }
            assert forall|i: int|
                0 <= i < clusters.len() && logo_shaped(
                    (#[trigger] clusters[i]).1,
                    width,
                    height,
                ) implies clusters[i].0 <= best.0 || clusters[i].0 < MINIMUM_AREA by {
                if i < last {
                    assert(shorter[i] == clusters[i]);
                }
            }
        } else {
            assert forall|i: int| 0 <= i < clusters.len() implies (#[trigger] clusters[i]).0
                < MINIMUM_AREA || !logo_shaped(clusters[i].1, width, height) by {
                if i < last {
                    assert(shorter[i] == clusters[i]);
                }
            }
        }
    }
}

/// Whether two rectangles are within `gap` pixels of each other.
fn near(a: Rect, b: Rect, gap: u32) -> (close: bool)
    ensures
        close == near_by(a, b, gap as int),
{
    let horizontal = a.x as u64 <= b.x as u64 + b.width as u64 + gap as u64 && b.x as u64 <= a.x as u64
        + a.width as u64 + gap as u64;
    let vertical = a.y as u64 <= b.y as u64 + b.height as u64 + gap as u64 && b.y as u64 <= a.y as u64
        + a.height as u64 + gap as u64;
    horizontal && vertical
}

/// The smallest rectangle containing both.
#[must_use]
pub fn union(a: Rect, b: Rect) -> (rect: Rect)
    requires
        a.x + a.width <= u32::MAX,
        a.y + a.height <= u32::MAX,
        b.x + b.width <= u32::MAX,
        b.y + b.height <= u32::MAX,
    ensures
        rect == union_of(a, b),
        lies_in(a, rect),
        lies_in(b, rect),
        forall|other: Rect|
            lies_in(a, other) && lies_in(b, other) ==> #[trigger] lies_in(rect, other),
{
    let x: u32 = if a.x < b.x { a.x } else { b.x };
    let y: u32 = if a.y < b.y { a.y } else { b.y };
    let (a_right, b_right): (u32, u32) = (a.x + a.width, b.x + b.width);
    let (a_bottom, b_bottom): (u32, u32) = (a.y + a.height, b.y + b.height);
    let right: u32 = if a_right > b_right { a_right } else { b_right };
    let bottom: u32 = if a_bottom > b_bottom { a_bottom } else { b_bottom };
    Rect { x, y, width: right - x, height: bottom - y }
}

/// Whether a region's shape and position are consistent with a logo.
fn is_logo_shaped(rect: Rect, width: u32, height: u32) -> (shaped: bool)
    ensures
        shaped == logo_shaped(rect, width as int, height as int),
{
    if rect.width as u64 > width as u64 * 22 / 100 || rect.height as u64 > height as u64 * 18
        / 100 {
        return false;
    }
    let margin: u64 = width as u64 / 5;
    rect.x as u64 <= margin || width as u64 <= rect.x as u64 + rect.width as u64 + margin
}

/// Clusters with their areas read as whole numbers.
pub open spec fn plain(clusters: Seq<(u128, Rect)>) -> Seq<(int, Rect)> {
    clusters.map_values(|cluster: (u128, Rect)| (cluster.0 as int, cluster.1))
}

/// The areas of some clusters, added up.
pub open spec fn area_in(clusters: Seq<(int, Rect)>) -> int
    decreases clusters.len(),
{
    if clusters.len() == 0 {
        0
    } else {
        area_in(clusters.drop_last()) + clusters.last().0
    }
}

/// A rectangle covers something, and lies within the frame.
pub open spec fn sits(rect: Rect, width: int, height: int) -> bool {
    rect.fits(width, height) && rect.width > 0 && rect.height > 0
}

/// Every cluster lies within the frame.
pub open spec fn all_fit(clusters: Seq<(u128, Rect)>, width: int, height: int) -> bool {
    forall|i: int| 0 <= i < clusters.len() ==> sits((#[trigger] clusters[i]).1, width, height)
}

/// One cluster is no larger than all of them together.
proof fn one_of_many(clusters: Seq<(u128, Rect)>, i: int)
    requires
        0 <= i < clusters.len(),
    ensures
        clusters[i].0 <= area_in(plain(clusters)),
        area_in(plain(clusters)) >= 0,
    decreases clusters.len(),
{
    let shorter = clusters.drop_last();
    assert(plain(clusters).drop_last() =~= plain(shorter));
    areas_are_not_negative(shorter);
    if i < shorter.len() {
        one_of_many(shorter, i);
    }
}

proof fn areas_are_not_negative(clusters: Seq<(u128, Rect)>)
    ensures
        area_in(plain(clusters)) >= 0,
    decreases clusters.len(),
{
    if clusters.len() > 0 {
        assert(plain(clusters).drop_last() =~= plain(clusters.drop_last()));
        areas_are_not_negative(clusters.drop_last());
    }
}

/// The largest area a blob can have.
pub const AREA_LIMIT: u64 = 0xffff_fffe_0000_0001;

/// Group nearby blobs and return the bounding box of the strongest group.
///
/// Glyphs of one logo sit close together; an unrelated static element
/// elsewhere in the band does not. Merging by proximity recovers the whole
/// mark without swallowing the rest of the frame.
fn best_cluster(blobs: &[(u128, Rect)], width: u32, height: u32) -> (best: Option<Rect>)
    requires
        blobs@.len() <= AREA_LIMIT,
        all_fit(blobs@, width as int, height as int),
        forall|i: int| 0 <= i < blobs@.len() ==> (#[trigger] blobs@[i]).0 <= AREA_LIMIT,
    ensures
        best == (match best_of(
            clusters_of(plain(blobs@), cluster_gap(width as int), blobs@.len() as int),
            width as int,
            height as int,
        ) {
            Some(cluster) => Some(cluster.1),
            None => None,
        }),
        best matches Some(rect) ==> sits(rect, width as int, height as int),
{
    let gap: u32 = if width / 24 > 8 { width / 24 } else { 8 };
    let ghost spec_gap = cluster_gap(width as int);
    let mut clusters: Vec<(u128, Rect)> = Vec::new();
    assert(plain(clusters@) =~= Seq::empty());
    for n in 0..blobs.len()
        invariant
            gap == spec_gap,
            blobs@.len() <= AREA_LIMIT,
            all_fit(blobs@, width as int, height as int),
            forall|i: int| 0 <= i < blobs@.len() ==> (#[trigger] blobs@[i]).0 <= AREA_LIMIT,
            plain(clusters@) == clusters_of(plain(blobs@), spec_gap, n as int),
            all_fit(clusters@, width as int, height as int),
            0 <= area_in(plain(clusters@)) <= n * 0xffff_fffe_0000_0001,
    {
        let blob = blobs[n];
        let mut merged: (u128, Rect) = blob;
        let mut kept: Vec<(u128, Rect)> = Vec::new();
        let ghost total = area_in(plain(clusters@)) + blob.0;
        assert(sits(blobs@[n as int].1, width as int, height as int));
        assert(plain(kept@) =~= Seq::empty());
        assert(clusters@.skip(0) =~= clusters@);
        for k in 0..clusters.len()
            invariant
                gap == spec_gap,
                n < blobs@.len() <= AREA_LIMIT,
                blob.0 <= AREA_LIMIT,
                all_fit(clusters@, width as int, height as int),
                all_fit(kept@, width as int, height as int),
                sits(merged.1, width as int, height as int),
                area_in(plain(clusters@)) <= n * 0xffff_fffe_0000_0001,
                total == area_in(plain(clusters@)) + blob.0,
                (plain(kept@), (merged.0 as int, merged.1)) == swept(
                    plain(clusters@),
                    (blob.0 as int, blob.1),
                    spec_gap,
                    k as int,
                ),
                area_in(plain(kept@)) + merged.0 + area_in(plain(clusters@.skip(k as int)))
                    == total,
        {
            let other = clusters[k];
            assert(sits(clusters@[k as int].1, width as int, height as int));
            proof {
                one_of_many(clusters@.skip(k as int), 0);
                areas_are_not_negative(kept@);
                first_and_rest(clusters@.skip(k as int));
                assert(clusters@.skip(k as int).skip(1) =~= clusters@.skip(k + 1));
                areas_are_not_negative(clusters@.skip(k + 1));
            }
            if near(merged.1, other.1, gap) {
                merged = (merged.0 + other.0, union(merged.1, other.1));
            } else {
                let ghost before = kept@;
                kept.push(other);
                assert(plain(kept@) =~= plain(before).push((other.0 as int, other.1)));
                assert(plain(kept@).drop_last() =~= plain(before));
            }
        }
        assert(plain(clusters@.skip(clusters@.len() as int)) =~= Seq::empty());
        let ghost before = kept@;
        kept.push(merged);
        assert(plain(kept@) =~= plain(before).push((merged.0 as int, merged.1)));
        assert(plain(kept@).drop_last() =~= plain(before));
        assert(plain(blobs@)[n as int] == (blob.0 as int, blob.1));
        clusters = kept;
        proof {
            areas_are_not_negative(clusters@);
        }
    }
    let ghost formed = plain(clusters@);
    let mut best: Option<(u128, Rect)> = None;
    for k in 0..clusters.len()
        invariant
            all_fit(clusters@, width as int, height as int),
            formed == plain(clusters@),
            (match best {
                Some(best) => Some((best.0 as int, best.1)),
                None => None,
            }) == best_of(formed.take(k as int), width as int, height as int),
            best matches Some(best) ==> sits(best.1, width as int, height as int),
    {
        let next = clusters[k];
        assert(sits(clusters@[k as int].1, width as int, height as int));
        assert(formed.take(k + 1).drop_last() =~= formed.take(k as int));
        assert(formed.take(k + 1).last() == (next.0 as int, next.1));
        if next.0 >= MINIMUM_AREA && is_logo_shaped(next.1, width, height) {
            best = match best {
                Some(kept) => if kept.0 > next.0 {
                    Some(kept)
                } else {
                    Some(next)
                },
                None => Some(next),
            };
        }
    }
    assert(formed.take(formed.len() as int) =~= formed);
    match best {
        Some(cluster) => Some(cluster.1),
        None => None,
    }
}

/// Areas add up from either end.
proof fn first_and_rest(clusters: Seq<(u128, Rect)>)
    requires
        clusters.len() > 0,
    ensures
        area_in(plain(clusters)) == clusters[0].0 + area_in(plain(clusters.skip(1))),
    decreases clusters.len(),
{
    let shorter = clusters.drop_last();
    assert(plain(clusters).drop_last() =~= plain(shorter));
    if clusters.len() == 1 {
        assert(plain(clusters.skip(1)) =~= Seq::empty());
        assert(plain(shorter) =~= Seq::empty());
    } else {
        first_and_rest(shorter);
        assert(clusters.skip(1).drop_last() =~= shorter.skip(1));
        assert(plain(clusters.skip(1)).drop_last() =~= plain(clusters.skip(1).drop_last()));
        assert(clusters.skip(1).last() == clusters.last());
        assert(plain(clusters.skip(1)).last() == plain(clusters).last());
    }
}

/// Accumulates the evidence needed to locate a logo.
#[derive(Debug)]
pub struct LogoLocator {
    width: u32,
    height: u32,
    /// Running sum of edge strength per pixel, for the chunk in progress.
    sum: Vec<u64>,
    /// Running sum of squared edge strength per pixel, for the same chunk.
    sum_squares: Vec<u64>,
    /// Frames in the chunk in progress.
    chunk_frames: u32,
    /// How many chunks each pixel stood out in.
    ///
    /// One counter per pixel rather than one steadiness map per chunk, so the
    /// memory does not grow with the length of the recording.
    votes: Vec<u16>,
    /// Chunks completed so far.
    chunks: u16,
    frames: u32,
}

impl View for LogoLocator {
    type V = Sightings;

    closed spec fn view(&self) -> Sightings {
        Sightings {
            width: self.width,
            height: self.height,
            sum: self.sum@,
            sum_squares: self.sum_squares@,
            chunk_frames: self.chunk_frames,
            votes: self.votes@,
            chunks: self.chunks,
            frames: self.frames,
        }
    }
}

fn zeros(count: usize) -> (list: Vec<u64>)
    ensures
        list@ == Seq::new(count as nat, |i: int| 0u64),
{
    let mut list: Vec<u64> = Vec::new();
    for i in 0..count
        invariant
            list@ =~= Seq::new(i as nat, |i: int| 0u64),
    {
        list.push(0);
    }
    list
}

/// Whether a row is one a logo may occupy.
fn row_in_band(y: u32, height: u32) -> (inside: bool)
    ensures
        inside == in_band(y as int, height as int),
{
    let share: u32 = (height as u64 * 28 / 100) as u32;
    let least: u32 = if share > 2 { share } else { 2 };
    let band: u32 = if least < height / 2 { least } else { height / 2 };
    (1 <= y && y < band) || (height - band <= y && (y as u64) + 1 < height as u64)
}

impl LogoLocator {
    /// Start looking for a logo in frames of this size.
    #[must_use]
    pub fn new(width: u32, height: u32) -> (locator: LogoLocator)
        requires
            width * height <= usize::MAX,
        ensures
            locator@ == (Sightings {
                width,
                height,
                sum: Seq::new((width * height) as nat, |i: int| 0u64),
                sum_squares: Seq::new((width * height) as nat, |i: int| 0u64),
                chunk_frames: 0,
                votes: Seq::new((width * height) as nat, |i: int| 0u16),
                chunks: 0,
                frames: 0,
            }),
            locator@.wf(),
    {
        let area: u64 = Rect { x: 0, y: 0, width, height }.area();
        let count: usize = area as usize;
        let mut votes: Vec<u16> = Vec::new();
        for i in 0..count
            invariant
                votes@ =~= Seq::new(i as nat, |i: int| 0u16),
        {
            votes.push(0);
        }
        LogoLocator {
            width,
            height,
            sum: zeros(count),
            sum_squares: zeros(count),
            chunk_frames: 0,
            votes,
            chunks: 0,
            frames: 0,
        }
    }

    /// How many frames have contributed.
    #[must_use]
    pub fn frames(&self) -> (frames: u32)
        ensures
            frames == self@.frames,
    {
        self.frames
    }

    /// Add a frame's edge map to the accumulators.
    pub fn add_frame(&mut self, frame: &Frame<'_>)
        requires
            old(self)@.wf(),
            old(self)@.frames < u32::MAX,
        ensures
            final(self)@ == old(self)@.after(*frame),
            final(self)@.wf(),
    {
        if frame.width != self.width || frame.height != self.height {
            return;
        }
        self.add_edges(frame);
        if self.chunk_frames >= FRAMES_PER_CHUNK {
            self.close_chunk();
        }
    }

    /// Add a frame's edges to the chunk in progress.
    ///
    /// Only the bands a logo can occupy are scanned; the middle of the picture
    /// cannot hold one, and skipping it is most of the work saved.
    fn add_edges(&mut self, frame: &Frame<'_>)
        requires
            old(self)@.wf(),
            old(self)@.frames < u32::MAX,
        ensures
            final(self)@ == old(self)@.with_edges(*frame),
            final(self)@.wf(),
    {
        let ghost before = self@;
        let ghost wanted = before.with_edges(*frame);
        let (width, height): (u32, u32) = (self.width, self.height);
        let ghost n = before.chunk_frames as int;
        assert(0 * width as int == 0) by (nonlinear_arith);
        for y in 0..height
            invariant
                width == before.width,
                height == before.height,
                n == before.chunk_frames,
                before.wf(),
                before.frames < u32::MAX,
                wanted == before.with_edges(*frame),
                self@ == (Sightings { sum: self.sum@, sum_squares: self.sum_squares@, ..before }),
                self.sum@.len() == before.sum.len(),
                self.sum_squares@.len() == before.sum.len(),
                forall|i: int|
                    0 <= i < before.sum.len() ==> #[trigger] self.sum@[i] == if i < y * width {
                        wanted.sum[i]
                    } else {
                        before.sum[i]
                    },
                forall|i: int|
                    0 <= i < before.sum.len() ==> #[trigger] self.sum_squares@[i] == if i < y
                        * width {
                        wanted.sum_squares[i]
                    } else {
                        before.sum_squares[i]
                    },
                forall|i: int|
                    0 <= i < before.sum.len() ==> (#[trigger] self.sum@[i]) <= (n + 1) * 510,
                forall|i: int|
                    0 <= i < before.sum.len() ==> (#[trigger] self.sum_squares@[i]) <= (n + 1)
                        * 260_100,
        {
            let scanned = row_in_band(y, height);
            for x in 0..width
                invariant
                    y < height,
                    scanned == in_band(y as int, height as int),
                    width == before.width,
                    height == before.height,
                    n == before.chunk_frames,
                    before.wf(),
                    before.frames < u32::MAX,
                    wanted == before.with_edges(*frame),
                    self@ == (Sightings {
                        sum: self.sum@,
                        sum_squares: self.sum_squares@,
                        ..before
                    }),
                    self.sum@.len() == before.sum.len(),
                    self.sum_squares@.len() == before.sum.len(),
                    forall|i: int|
                        0 <= i < before.sum.len() ==> #[trigger] self.sum@[i] == if i < y * width
                            + x {
                            wanted.sum[i]
                        } else {
                            before.sum[i]
                        },
                    forall|i: int|
                        0 <= i < before.sum.len() ==> #[trigger] self.sum_squares@[i] == if i < y
                            * width + x {
                            wanted.sum_squares[i]
                        } else {
                            before.sum_squares[i]
                        },
                    forall|i: int|
                        0 <= i < before.sum.len() ==> (#[trigger] self.sum@[i]) <= (n + 1) * 510,
                    forall|i: int|
                        0 <= i < before.sum.len() ==> (#[trigger] self.sum_squares@[i]) <= (n + 1)
                            * 260_100,
            {
                let offset: u64 = pixel_offset(x, y, width);
                proof {
                    offsets_fit(x as int, y as int, width as int, height as int);
                    lemma_fundamental_div_mod_converse(
                        offset as int,
                        width as int,
                        y as int,
                        x as int,
                    );
                    assert(before.sum[offset as int] <= n * 510);
                    assert(before.sum_squares[offset as int] <= n * 260_100);
                }
                if scanned && x >= 1 && x < width - 1 {
                    let strength: u64 = edge_strength(frame, x, y) as u64;
                    assert(strength * strength <= 260_100) by (nonlinear_arith)
                        requires
                            0 <= strength <= 510,
                    ;
                    assert(offset < self.sum.len());
                    let slot: usize = offset as usize;
                    let sum: u64 = self.sum[slot] + strength;
                    let squares: u64 = self.sum_squares[slot] + strength * strength;
                    self.sum.set(slot, sum);
                    self.sum_squares.set(slot, squares);
                    assert(wanted.sum[offset as int] == sum);
                    assert(wanted.sum_squares[offset as int] == squares);
                }
            }
            assert((y + 1) * width == y * width + width) by (nonlinear_arith);
        }
        assert(height * width == width * height) by (nonlinear_arith);
        self.frames = self.frames + 1;
        self.chunk_frames = self.chunk_frames + 1;
        assert(self@.sum =~= wanted.sum);
        assert(self@.sum_squares =~= wanted.sum_squares);
        assert(self@ =~= wanted);
    }

    /// Score the chunk in progress and fold it into the votes.
    fn close_chunk(&mut self)
        requires
            old(self)@.wf(),
        ensures
            final(self)@ == old(self)@.closed_chunk(),
            final(self)@.wf(),
    {
        if self.chunk_frames == 0 || self.chunks == u16::MAX {
            return;
        }
        let ghost before = self@;
        let count: usize = self.sum.len();
        let mut scores: Vec<u64> = Vec::new();
        let mut peak: u64 = 0;
        for i in 0..count
            invariant
                count == self.sum@.len(),
                self@ == before,
                before.wf(),
                scores@ =~= before.scores().take(i as int),
                peak == peak_of(before.scores(), i as int),
                peak <= 510_000_000,
                forall|k: int|
                    0 <= k < i ==> (#[trigger] scores@[k]) <= 510_000_000 && (scores@[k] > 0
                        ==> before.covers(k)),
        {
            assert(before.sum[i as int] <= before.chunk_frames * 510);
            assert(before.sum_squares[i as int] <= before.chunk_frames * 260_100);
            let score: u64 = steadiness(self.sum[i], self.sum_squares[i], self.chunk_frames);
            scores.push(score);
            if score > peak {
                peak = score;
            }
        }
        assert(scores@ =~= before.scores());
        if peak > 0 {
            for i in 0..count
                invariant
                    count == before.sum.len(),
                    before.wf(),
                    before.chunks < u16::MAX,
                    scores@ == before.scores(),
                    scores@.len() == count,
                    peak == peak_of(before.scores(), count as int),
                    0 < peak <= 510_000_000,
                    forall|k: int|
                        0 <= k < count ==> (#[trigger] scores@[k]) <= 510_000_000 && (scores@[k] > 0
                            ==> before.covers(k)),
                    self@ == (Sightings { votes: self.votes@, ..before }),
                    self.votes@.len() == count,
                    forall|k: int|
                        0 <= k < count ==> #[trigger] self.votes@[k] == if k < i
                            && before.scores()[k] * 100 >= peak * 45 {
                            (before.votes[k] + 1) as u16
                        } else {
                            before.votes[k]
                        },
            {
                assert(before.votes[i as int] <= before.chunks);
                assert(scores@[i as int] <= 510_000_000);
                if scores[i] * 100 >= peak * 45 {
                    let vote: u16 = self.votes[i] + 1;
                    self.votes.set(i, vote);
                }
            }
            self.chunks = self.chunks + 1;
        }
        self.sum = zeros(count);
        self.sum_squares = zeros(count);
        self.chunk_frames = 0;
        proof {
            let wanted = before.closed_chunk();
            assert(self@.votes =~= wanted.votes);
            assert(self@ =~= wanted);
            assert forall|i: int| 0 <= i < count implies (#[trigger] wanted.votes[i])
                <= wanted.chunks && (wanted.votes[i] > 0 ==> wanted.covers(i)) by {
                assert(before.votes[i] <= before.chunks);
                assert(before.votes[i] > 0 ==> before.covers(i));
                assert(scores@[i] > 0 ==> before.covers(i));
                assert(wanted.covers(i) == before.covers(i));
            }
        }
    }

    /// The most logo-like region found, if any.
    pub fn finish(&mut self) -> (found: Option<Rect>)
        requires
            old(self)@.wf(),
        ensures
            final(self)@ == (if old(self)@.frames < MINIMUM_FRAMES {
                old(self)@
            } else {
                old(self)@.closed_chunk()
            }),
            found == final(self)@.location(),
            found matches Some(rect) ==> rect.valid() && rect.fits(
                old(self)@.width as int,
                old(self)@.height as int,
            ),
    {
        if self.frames < MINIMUM_FRAMES {
            return None;
        }
        // Fold in whatever the last, possibly short, chunk saw.
        self.close_chunk();
        if self.chunks == 0 {
            return None;
        }
        // A pixel is logo-like when it stood out in the majority of chunks.
        // A test pattern held for one stretch of the recording stands out
        // overwhelmingly in its own chunks and not at all in the rest.
        let half: u32 = (self.chunks as u32 + 1) / 2;
        let required: u16 = if half > 1 { half as u16 } else { 1 };
        let ghost picture = self@.standout();
        let blobs = self.blobs(required);
        assert(plain(blobs@) == blobs_in(picture, self.votes@.len() as int));
        match best_cluster(&blobs, self.width, self.height) {
            None => None,
            // The scanner needs a border of clean background around the logo
            // to read the background colour from, so the region is grown a
            // little.
            Some(cluster) => Some(cluster.expanded(4, self.width, self.height)),
        }
    }

    /// The connected regions that stood out, in reading order.
    fn blobs(&self, required: u16) -> (blobs: Vec<(u128, Rect)>)
        requires
            self@.wf(),
            required == self@.required(),
        ensures
            plain(blobs@) == blobs_in(self@.standout(), self@.votes.len() as int),
            blobs@.len() <= AREA_LIMIT,
            all_fit(blobs@, self@.width as int, self@.height as int),
            forall|i: int| 0 <= i < blobs@.len() ==> (#[trigger] blobs@[i]).0 <= AREA_LIMIT,
    {
        let (width, height): (u32, u32) = (self.width, self.height);
        let ghost picture = self@.standout();
        let mut blobs: Vec<(u128, Rect)> = Vec::new();
        let mut visited: Vec<bool> = Vec::new();
        for i in 0..self.votes.len()
            invariant
                visited@ =~= Seq::new(i as nat, |i: int| false),
        {
            visited.push(false);
        }
        assert(plain(blobs@) =~= Seq::empty());
        proof {
            assert(width * height <= 0xffff_fffe_0000_0001) by (nonlinear_arith)
                requires
                    0 <= width <= 0xffff_ffff,
                    0 <= height <= 0xffff_ffff,
            ;
            assert(0 * width as int == 0) by (nonlinear_arith);
            assert forall|p: Pixel| !visited_pixels(picture, visited@).contains(p) by {
                if picture.holds(p) {
                    offsets_fit(p.0, p.1, width as int, height as int);
                }
            }
            assert forall|p: Pixel| picture.holds(p) implies picture.offset(p) >= 0 by {
                offsets_fit(p.0, p.1, width as int, height as int);
            }
            assert(searched(picture, visited@, 0));
        }
        for y in 0..height
            invariant
                picture == self@.standout(),
                picture.required == required,
                self@.wf(),
                width == self@.width,
                height == self@.height,
                width * height <= AREA_LIMIT,
                searched(picture, visited@, y * width),
                plain(blobs@) == blobs_in(picture, y * width),
                blobs@.len() <= y * width,
                all_fit(blobs@, width as int, height as int),
                forall|i: int| 0 <= i < blobs@.len() ==> (#[trigger] blobs@[i]).0 <= AREA_LIMIT,
        {
            for x in 0..width
                invariant
                    y < height,
                    picture == self@.standout(),
                    picture.required == required,
                    self@.wf(),
                    width == self@.width,
                    height == self@.height,
                    width * height <= AREA_LIMIT,
                    searched(picture, visited@, y * width + x),
                    plain(blobs@) == blobs_in(picture, y * width + x),
                    blobs@.len() <= y * width + x,
                    all_fit(blobs@, width as int, height as int),
                    forall|i: int| 0 <= i < blobs@.len() ==> (#[trigger] blobs@[i]).0 <= AREA_LIMIT,
            {
                let offset: u64 = pixel_offset(x, y, width);
                let ghost here: Pixel = (x as int, y as int);
                proof {
                    offsets_fit(x as int, y as int, width as int, height as int);
                    lemma_fundamental_div_mod_converse(
                        offset as int,
                        width as int,
                        y as int,
                        x as int,
                    );
                    assert(picture.offset(here) == offset);
                }
                assert(offset < self.votes.len());
                let index: usize = offset as usize;
                let ghost before = visited@;
                if !visited[index] && self.votes[index] >= required {
                    proof {
                        unvisited_pixels_lead(picture, before, here);
                    }
                    let (area, rect): (u64, Rect) = flood(
                        &self.votes,
                        width,
                        height,
                        required,
                        &mut visited,
                        x,
                        y,
                    );
                    proof {
                        search_advances(picture, before, visited@, here);
                    }
                    if area >= MINIMUM_BLOB_AREA {
                        let ghost earlier = blobs@;
                        blobs.push((area as u128, rect));
                        assert(plain(blobs@) =~= plain(earlier).push((area as int, rect)));
                    }
                } else {
                    proof {
                        search_passes(picture, before, here);
                    }
                }
            }
            assert((y + 1) * width == y * width + width) by (nonlinear_arith);
        }
        assert(height * width == width * height) by (nonlinear_arith);
        blobs
    }
}

/// A pixel belongs to the region of one of the first `count`.
#[verifier::opaque]
pub open spec fn led_to(picture: Standout, p: Pixel, count: int) -> bool {
    exists|q: Pixel| #[trigger]
        picture.connected(q, p) && picture.lit(q) && picture.offset(q) < count
}

/// Everything that stands out among the first `count` pixels has been
/// visited, along with the whole of its region and nothing else that stands
/// out.
pub open spec fn searched(picture: Standout, visited: Seq<bool>, count: int) -> bool {
    let seen = visited_pixels(picture, visited);
    &&& visited.len() == picture.votes.len()
    &&& picture.closed_under_steps(seen)
    &&& forall|p: Pixel| #[trigger]
        picture.lit(p) && picture.offset(p) < count ==> seen.contains(p)
    &&& forall|p: Pixel| #[trigger]
        seen.contains(p) && picture.lit(p) ==> led_to(picture, p, count)
}

/// The first unvisited pixel of a region is the first pixel of the region.
proof fn unvisited_pixels_lead(picture: Standout, visited: Seq<bool>, here: Pixel)
    requires
        searched(picture, visited, picture.offset(here)),
        picture.lit(here),
        !visited[picture.offset(here)],
    ensures
        leads(picture, here),
{
    let seen = visited_pixels(picture, visited);
    assert forall|q: Pixel| #[trigger]
        picture.lit(q) && picture.offset(q) < picture.offset(here) implies !picture.connected(
        q,
        here,
    ) by {
        assert(seen.contains(q));
        if picture.connected(q, here) {
            picture.connected_stays_inside(seen, q, here);
        }
    }
}

/// A pixel led to from among the first few is led to from among more.
proof fn led_to_by_more(picture: Standout, p: Pixel, few: int, more: int)
    requires
        led_to(picture, p, few),
        few <= more,
    ensures
        led_to(picture, p, more),
{
    reveal(led_to);
    let q = choose|q: Pixel| #[trigger]
        picture.connected(q, p) && picture.lit(q) && picture.offset(q) < few;
    assert(picture.connected(q, p));
}

/// A pixel led to from before it leads nothing itself.
proof fn led_pixels_do_not_lead(picture: Standout, p: Pixel)
    requires
        led_to(picture, p, picture.offset(p)),
    ensures
        !leads(picture, p),
{
    reveal(led_to);
    let q = choose|q: Pixel| #[trigger]
        picture.connected(q, p) && picture.lit(q) && picture.offset(q) < picture.offset(p);
    assert(picture.lit(q));
}

/// The pixels up to and with one are the pixels before it and that one.
proof fn next_is_here(picture: Standout, here: Pixel, p: Pixel)
    requires
        picture.holds(here),
        picture.holds(p),
        picture.offset(p) == picture.offset(here),
    ensures
        p == here,
{
    crate::media::frames::offsets_differ(p.0, p.1, here.0, here.1, picture.width);
}

/// A fill moves the search on by one pixel.
proof fn search_advances(
    picture: Standout,
    before: Seq<bool>,
    after: Seq<bool>,
    here: Pixel,
)
    requires
        searched(picture, before, picture.offset(here)),
        picture.lit(here),
        after.len() == before.len(),
        ({
            let seen = visited_pixels(picture, after);
            &&& visited_pixels(picture, before).subset_of(seen)
            &&& picture.closed_under_steps(seen)
            &&& seen.contains(here)
            &&& forall|p: Pixel|
                picture.lit(p) && #[trigger] seen.contains(p) ==> visited_pixels(
                    picture,
                    before,
                ).contains(p) || picture.connected(here, p)
        }),
    ensures
        searched(picture, after, picture.offset(here) + 1),
{
    let seen = visited_pixels(picture, after);
    let count = picture.offset(here);
    assert forall|p: Pixel| #[trigger]
        picture.lit(p) && picture.offset(p) < count + 1 implies seen.contains(p) by {
        if picture.offset(p) == count {
            next_is_here(picture, here, p);
        } else {
            assert(visited_pixels(picture, before).contains(p));
        }
    }
    assert forall|p: Pixel| #[trigger] seen.contains(p) && picture.lit(p) implies led_to(
        picture,
        p,
        count + 1,
    ) by {
        if visited_pixels(picture, before).contains(p) {
            led_to_by_more(picture, p, count, count + 1);
        } else {
            assert(picture.connected(here, p));
            reveal(led_to);
        }
    }
}

/// A pixel already visited, or that does not stand out, leads nothing.
proof fn search_passes(picture: Standout, visited: Seq<bool>, here: Pixel)
    requires
        searched(picture, visited, picture.offset(here)),
        picture.holds(here),
        visited[picture.offset(here)] || !picture.lit(here),
    ensures
        !leads(picture, here),
        searched(picture, visited, picture.offset(here) + 1),
{
    let seen = visited_pixels(picture, visited);
    let count = picture.offset(here);
    if picture.lit(here) {
        assert(seen.contains(here));
        led_pixels_do_not_lead(picture, here);
    }
    assert forall|p: Pixel| #[trigger]
        picture.lit(p) && picture.offset(p) < count + 1 implies seen.contains(p) by {
        if picture.offset(p) == count {
            next_is_here(picture, here, p);
        }
    }
    assert forall|p: Pixel| #[trigger] seen.contains(p) && picture.lit(p) implies led_to(
        picture,
        p,
        count + 1,
    ) by {
        led_to_by_more(picture, p, count, count + 1);
    }
}

} // verus!
