//! Scene-change detection.
//!
//! A commercial boundary is almost always a hard cut, so scene changes supply
//! the candidate positions that logo transitions are snapped onto. On their
//! own they are useless, since a drama has hundreds, but combined with silence
//! and a logo transition they locate a boundary to the frame.

use vstd::prelude::*;
use crate::media::frames::moment_is_monotonic;
use crate::media::frames::offset_of;
use crate::media::frames::Frame;
use crate::media::frames::FrameSpacing;
use crate::order::different_places;
use crate::order::sort;
use crate::order::sorted;
use crate::order::sorted_places_count;

verus! {

/// Width of the reduced frame differences are measured on.
///
/// Comparing full frames measures camera shake and film grain. At this size
/// only a genuine change of content moves the numbers, and the reduction costs
/// almost nothing next to the decode.
pub const COMPARE_WIDTH: u32 = 64;

/// Height of the reduced frame.
pub const COMPARE_HEIGHT: u32 = 36;

/// Pixels in the reduced frame, and so how many units of difference make one
/// level of brightness: a difference is a sum over the reduced frame.
pub const DIFFERENCE_UNIT: u32 = 2304;

/// Minimum difference for a cut: twelve levels of brightness.
pub const DEFAULT_ABSOLUTE_THRESHOLD: u32 = 27_648;

/// How many times the local median a difference must reach to be a cut, in
/// millionths.
///
/// The absolute threshold alone misfires in both directions: a talking-head
/// scene never reaches it even at a real cut, and an action sequence exceeds
/// it constantly. Requiring a multiple of what this part of the recording
/// normally does adapts to both.
pub const DEFAULT_RELATIVE_THRESHOLD: u32 = 3_000_000;

/// Number of frames either side used for the local median.
const LOCAL_WINDOW: usize = 60;

/// A detected cut.
#[derive(Debug, Clone, Copy, PartialEq, Eq, Structural)]
pub struct SceneChange {
    /// When the cut happened, in microseconds.
    pub at: i64,
    /// How strong it was, in [`DIFFERENCE_UNIT`]s of a level of brightness.
    pub strength: u32,
}

/// Tunables for cut detection.
#[derive(Debug, Clone, Copy, PartialEq, Eq, Structural)]
pub struct SceneOptions {
    /// Minimum difference, in [`DIFFERENCE_UNIT`]s of a level of brightness.
    pub absolute_threshold: u32,
    /// Multiple of the local median a difference must reach, in millionths.
    pub relative_threshold: u32,
}

impl Default for SceneOptions {
    fn default() -> (options: SceneOptions)
        ensures
            options.absolute_threshold == DEFAULT_ABSOLUTE_THRESHOLD,
            options.relative_threshold == DEFAULT_RELATIVE_THRESHOLD,
    {
        SceneOptions {
            absolute_threshold: DEFAULT_ABSOLUTE_THRESHOLD,
            relative_threshold: DEFAULT_RELATIVE_THRESHOLD,
        }
    }
}

/// The sum of the absolute differences of two planes.
pub open spec fn total_difference(a: Seq<u8>, b: Seq<u8>) -> int
    decreases a.len(),
{
    if a.len() == 0 || b.len() == 0 {
        0
    } else {
        total_difference(a.drop_last(), b.drop_last()) + if a.last() > b.last() {
            a.last() - b.last()
        } else {
            b.last() - a.last()
        }
    }
}

/// The mean absolute difference of two planes, in [`DIFFERENCE_UNIT`]s of a
/// level; nothing where they cannot be compared.
pub open spec fn difference_of(a: Seq<u8>, b: Seq<u8>) -> int {
    if a.len() == 0 || a.len() != b.len() {
        0
    } else {
        total_difference(a, b) * DIFFERENCE_UNIT / (a.len() as int)
    }
}

/// Mean absolute difference between two equally sized reduced frames, in
/// [`DIFFERENCE_UNIT`]s of a level of brightness.
#[must_use]
pub fn mean_absolute_difference(a: &[u8], b: &[u8]) -> (difference: u32)
    ensures
        difference == difference_of(a@, b@),
{
    if a.len() == 0 || a.len() != b.len() {
        return 0;
    }
    let mut total: u128 = 0;
    for i in 0..a.len()
        invariant
            a@.len() == b@.len(),
            total == total_difference(a@.take(i as int), b@.take(i as int)),
            total <= i * 255,
    {
        assert(a@.take(i + 1).drop_last() =~= a@.take(i as int));
        assert(b@.take(i + 1).drop_last() =~= b@.take(i as int));
        let (x, y): (u8, u8) = (a[i], b[i]);
        total += (if x > y { x - y } else { y - x }) as u128;
    }
    assert(a@.take(a@.len() as int) =~= a@);
    assert(b@.take(b@.len() as int) =~= b@);
    let length: u128 = a.len() as u128;
    assert(total * 2304 / (length as int) <= 255 * 2304) by (nonlinear_arith)
        requires
            0 <= total <= length * 255,
            length > 0,
    ;
    (total * 2304 / length) as u32
}

/// The values around an index, other than the one there.
pub open spec fn neighbours(values: Seq<u32>, index: int, radius: int) -> Seq<i128> {
    let from = if index > radius { index - radius } else { 0 };
    let to = if index + radius + 1 < values.len() {
        index + radius + 1
    } else {
        values.len() as int
    };
    values.subrange(from, index).map_values(|v: u32| v as i128) + values.subrange(
        index + 1,
        to,
    ).map_values(|v: u32| v as i128)
}

/// The median of the values around an index, the upper of the two middle ones
/// when they are even in number; nothing where there are none.
pub open spec fn median_around(values: Seq<u32>, index: int, radius: int) -> int {
    let window = neighbours(values, index, radius);
    if window.len() == 0 {
        0
    } else {
        sorted(window)[window.len() as int / 2] as int
    }
}

/// Median of the values around `index`, excluding `index` itself.
#[must_use]
pub fn local_median(values: &[u32], index: usize, radius: usize) -> (median: i64)
    requires
        index < values@.len(),
    ensures
        median == median_around(values@, index as int, radius as int),
        0 <= median <= 0xffff_ffff,
{
    let from: usize = if index > radius { index - radius } else { 0 };
    let to: usize = if radius < values.len() - index - 1 {
        index + radius + 1
    } else {
        values.len()
    };
    let ghost before = values@.subrange(from as int, index as int).map_values(|v: u32| v as i128);
    let ghost after = values@.subrange(index + 1, to as int).map_values(|v: u32| v as i128);
    let mut window: Vec<i128> = Vec::new();
    for i in from..index
        invariant
            index < values@.len(),
            from <= index,
            before == values@.subrange(from as int, index as int).map_values(|v: u32| v as i128),
            window@ =~= before.take(i - from),
    {
        window.push(values[i] as i128);
    }
    assert(window@ =~= before);
    for i in index + 1..to
        invariant
            index < to <= values@.len(),
            after == values@.subrange(index + 1, to as int).map_values(|v: u32| v as i128),
            window@ =~= before + after.take(i - index - 1),
    {
        window.push(values[i] as i128);
    }
    assert(window@ =~= before + after);
    if window.len() == 0 {
        return 0;
    }
    assert forall|i: int| 0 <= i < window@.len() implies 0 <= #[trigger] window@[i]
        <= 0xffff_ffff by {
        if i < before.len() {
            assert(window@[i] == before[i]);
        } else {
            assert(window@[i] == after[i - before.len()]);
        }
    }
    let ascending = sort(&window);
    let median: i128 = ascending[ascending.len() / 2];
    assert(window@.contains(median));
    median as i64
}

/// A value no smaller than its immediate neighbours; beyond either end there
/// is nothing to be smaller than.
pub open spec fn peaks_at(values: Seq<u32>, index: int) -> bool {
    let value = if 0 <= index < values.len() { values[index] } else { 0 };
    &&& 1 <= index <= values.len() ==> value >= values[index - 1]
    &&& index + 1 < values.len() ==> value >= values[index + 1]
}

/// Whether a value is at least as large as its immediate neighbours.
#[must_use]
pub fn is_local_peak(values: &[u32], index: usize) -> (peak: bool)
    ensures
        peak == peaks_at(values@, index as int),
{
    let value: u32 = if index < values.len() { values[index] } else { 0 };
    if index >= 1 && index <= values.len() && value < values[index - 1] {
        return false;
    }
    if index < values.len() && values.len() - index > 1 && value < values[index + 1] {
        return false;
    }
    true
}

/// A cut: large in itself, large for this part of the recording, and the peak
/// of its transition. The floor of one level keeps a perfectly static stretch
/// from making its median zero and admitting everything.
pub open spec fn is_cut(differences: Seq<u32>, index: int, options: SceneOptions) -> bool {
    let difference = differences[index];
    let local = median_around(differences, index, 60);
    let floor = if local > DIFFERENCE_UNIT { local } else { DIFFERENCE_UNIT as int };
    &&& difference >= options.absolute_threshold
    &&& difference * 1_000_000 >= floor * options.relative_threshold
    &&& peaks_at(differences, index)
}

/// The cuts among the first `count` frames.
pub open spec fn cuts_among(
    differences: Seq<u32>,
    spacing: FrameSpacing,
    options: SceneOptions,
    count: int,
) -> Seq<SceneChange>
    decreases count,
{
    if count <= 0 {
        Seq::empty()
    } else {
        let before = cuts_among(differences, spacing, options, count - 1);
        if is_cut(differences, count - 1, options) {
            before.push(
                SceneChange {
                    at: spacing.moment(count - 1) as i64,
                    strength: differences[count - 1],
                },
            )
        } else {
            before
        }
    }
}

/// A frame reduced for comparison.
pub open spec fn reduction(frame: Frame) -> Seq<u8> {
    Seq::new(
        DIFFERENCE_UNIT as nat,
        |i: int|
            frame.reduced(
                i % (COMPARE_WIDTH as int),
                i / (COMPARE_WIDTH as int),
                COMPARE_WIDTH as int,
                COMPARE_HEIGHT as int,
            ) as u8,
    )
}

/// Accumulates frame-to-frame differences.
#[derive(Debug)]
pub struct SceneDetector {
    previous: Option<Vec<u8>>,
    current: Vec<u8>,
    differences: Vec<u32>,
    spacing: FrameSpacing,
}

impl SceneDetector {
    /// The buffers are the size of a reduced frame.
    pub closed spec fn wf(self) -> bool {
        &&& self.current@.len() == DIFFERENCE_UNIT
        &&& self.previous matches Some(previous) ==> previous@.len() == DIFFERENCE_UNIT
    }

    /// The reduction of the last frame seen.
    pub closed spec fn last_seen(self) -> Option<Seq<u8>> {
        match self.previous {
            Some(previous) => Some(previous@),
            None => None,
        }
    }

    /// The difference of each frame from the one before.
    pub closed spec fn series(self) -> Seq<u32> {
        self.differences@
    }

    /// How far apart the frames are.
    pub closed spec fn spec_spacing(self) -> FrameSpacing {
        self.spacing
    }

    /// Start detecting, with frames arriving this far apart.
    #[must_use]
    pub fn new(spacing: FrameSpacing) -> (detector: SceneDetector)
        ensures
            detector.wf(),
            detector.last_seen() is None,
            detector.series() == Seq::<u32>::empty(),
            detector.spec_spacing() == spacing,
    {
        SceneDetector {
            previous: None,
            current: vec![0u8; 2304],
            differences: Vec::new(),
            spacing,
        }
    }

    /// Feed the next frame.
    pub fn add_frame(&mut self, frame: &Frame<'_>)
        requires
            old(self).wf(),
        ensures
            final(self).wf(),
            final(self).last_seen() == Some(reduction(*frame)),
            final(self).series() == old(self).series().push(
                match old(self).last_seen() {
                    None => 0,
                    Some(previous) => difference_of(previous, reduction(*frame)) as u32,
                },
            ),
            final(self).spec_spacing() == old(self).spec_spacing(),
    {
        let mut current = self.current.clone();
        frame.downscale_into(COMPARE_WIDTH, COMPARE_HEIGHT, &mut current);
        assert(current@ =~= reduction(*frame)) by {
            assert forall|i: int| 0 <= i < DIFFERENCE_UNIT implies current@[i] == reduction(
                *frame,
            )[i] by {
                assert(offset_of(i % 64, i / 64, 64) == i);
                assert(current@[offset_of(i % 64, i / 64, 64)] == frame.reduced(
                    i % 64,
                    i / 64,
                    64,
                    36,
                ));
            }
        }
        let difference: u32 = match &self.previous {
            None => 0,
            Some(previous) => mean_absolute_difference(previous, &current),
        };
        self.differences.push(difference);
        self.previous = Some(current);
    }

    /// The raw per-frame difference series, for display in the timeline.
    #[must_use]
    pub fn differences(&self) -> (series: &[u32])
        ensures
            series@ == self.series(),
    {
        &self.differences
    }

    /// Extract the cuts.
    #[must_use]
    pub fn changes(&self, options: &SceneOptions) -> (changes: Vec<SceneChange>)
        requires
            self.spec_spacing().reaches(self.series().len() as int),
        ensures
            changes@ == cuts_among(
                self.series(),
                self.spec_spacing(),
                *options,
                self.series().len() as int,
            ),
    {
        let mut changes: Vec<SceneChange> = Vec::new();
        for index in 0..self.differences.len()
            invariant
                self.spec_spacing().reaches(self.series().len() as int),
                    changes@ == cuts_among(
                    self.series(),
                    self.spec_spacing(),
                    *options,
                    index as int,
                ),
        {
            let difference: u32 = self.differences[index];
            let local: i64 = local_median(&self.differences, index, LOCAL_WINDOW);
            let floor: i64 = if local > 2304 { local } else { 2304 };
            assert(0 <= floor * options.relative_threshold <= 0xffff_ffff * 0xffff_ffff)
                by (nonlinear_arith)
                requires
                    0 <= floor <= 0xffff_ffff,
                    0 <= options.relative_threshold <= 0xffff_ffff,
            ;
            if difference >= options.absolute_threshold && difference as u64 * 1_000_000
                >= floor as u64 * options.relative_threshold as u64 && is_local_peak(
                &self.differences,
                index,
            ) {
                proof {
                    moment_is_monotonic(self.spacing, index as int, self.series().len() as int);
                }
                changes.push(
                    SceneChange { at: self.spacing.time_of(index as u64), strength: difference },
                );
            }
        }
        changes
    }
}

/// A cut reports one frame, not a cluster: neighbouring frames are both cuts
/// only where they differ equally.
pub proof fn a_cut_is_the_peak_of_its_transition(
    differences: Seq<u32>,
    options: SceneOptions,
    index: int,
)
    requires
        0 <= index,
        index + 1 < differences.len(),
        is_cut(differences, index, options),
        is_cut(differences, index + 1, options),
    ensures
        differences[index] == differences[index + 1],
{
}

/// A frame stands out enough to be a cut: it differs by the absolute threshold
/// or more, by the relative threshold times what the frames around it differ by
/// at the middle, by that threshold times one level at least, and no less than
/// the frame before it or the frame after it.
pub open spec fn stands_out(differences: Seq<u32>, options: SceneOptions, index: int) -> bool {
    &&& 0 <= index < differences.len()
    &&& differences[index] >= options.absolute_threshold
    &&& 1_000_000 * differences[index] >= options.relative_threshold * median_around(
        differences,
        index,
        60,
    )
    &&& 1_000_000 * differences[index] >= options.relative_threshold * 2304
    &&& index > 0 ==> differences[index - 1] <= differences[index]
    &&& index < differences.len() - 1 ==> differences[index + 1] <= differences[index]
}

proof fn cutting_is_standing_out(differences: Seq<u32>, options: SceneOptions, index: int)
    requires
        0 <= index < differences.len(),
    ensures
        is_cut(differences, index, options) <==> stands_out(differences, options, index),
{
    let local = median_around(differences, index, 60);
    let relative = options.relative_threshold as int;
    if local > 2304 {
        assert(local * relative >= 2304 * relative) by (nonlinear_arith)
            requires
                local > 2304,
                relative >= 0,
        ;
    } else {
        assert(local * relative <= 2304 * relative) by (nonlinear_arith)
            requires
                local <= 2304,
                relative >= 0,
        ;
    }
    assert(local * relative == relative * local) by (nonlinear_arith);
}

/// Every cut that is reported is a frame that stands out, at its moment and with
/// its strength; every frame that stands out is reported; and they come in the
/// order of the recording, one for each.
pub proof fn cuts_are_what_stands_out(
    differences: Seq<u32>,
    spacing: FrameSpacing,
    options: SceneOptions,
    count: int,
)
    requires
        0 <= count <= differences.len(),
    ensures
        ({
            let cuts = cuts_among(differences, spacing, options, count);
            exists|frames: Seq<int>| #[trigger]
                are_frames_of(frames, cuts, differences, spacing, options, count)
        }),
    decreases count,
{
    let cuts = cuts_among(differences, spacing, options, count);
    if count == 0 {
        assert(are_frames_of(Seq::empty(), cuts, differences, spacing, options, count));
    } else {
        cuts_are_what_stands_out(differences, spacing, options, count - 1);
        let before = cuts_among(differences, spacing, options, count - 1);
        let frames = choose|frames: Seq<int>| #[trigger]
            are_frames_of(frames, before, differences, spacing, options, count - 1);
        cutting_is_standing_out(differences, options, count - 1);
        if is_cut(differences, count - 1, options) {
            let more = frames.push(count - 1);
            assert forall|index: int|
                0 <= index < count && #[trigger] stands_out(
                    differences,
                    options,
                    index,
                ) implies more.contains(index) by {
                if index < count - 1 {
                    assert(frames.contains(index));
                    let k = choose|k: int| 0 <= k < frames.len() && frames[k] == index;
                    assert(more[k] == index);
                } else {
                    assert(more[more.len() - 1] == index);
                }
            }
            assert(are_frames_of(more, cuts, differences, spacing, options, count));
        } else {
            assert forall|index: int|
                0 <= index < count && #[trigger] stands_out(
                    differences,
                    options,
                    index,
                ) implies frames.contains(index) by {}
            assert(are_frames_of(frames, cuts, differences, spacing, options, count));
        }
    }
}

/// The frames some cuts are at: those among the first `count` that stand out,
/// in order.
pub open spec fn are_frames_of(
    frames: Seq<int>,
    cuts: Seq<SceneChange>,
    differences: Seq<u32>,
    spacing: FrameSpacing,
    options: SceneOptions,
    count: int,
) -> bool {
    &&& frames.len() == cuts.len()
    &&& forall|i: int|
        0 <= i < frames.len() ==> {
            &&& 0 <= #[trigger] frames[i] < count
            &&& stands_out(differences, options, frames[i])
            &&& cuts[i].at == spacing.moment(frames[i]) as i64
            &&& cuts[i].strength == differences[frames[i]]
        }
    &&& forall|i: int, j: int|
        0 <= i < j < frames.len() ==> #[trigger] frames[i] < #[trigger] frames[j]
    &&& forall|index: int|
        0 <= index < count && #[trigger] stands_out(differences, options, index)
            ==> frames.contains(index)
}

/// What the frames around one differ by at the middle: of all within the radius,
/// that frame itself left out, more than half differ by no more and at least
/// half by no less.
pub proof fn the_median_is_the_middle(values: Seq<u32>, index: int, radius: int)
    requires
        0 <= index < values.len() <= usize::MAX,
        radius >= 0,
    ensures
        ({
            let first = if index > radius { index - radius } else { 0 };
            let past = if index + radius + 1 < values.len() {
                index + radius + 1
            } else {
                values.len() as int
            };
            let others = past - first - 1;
            let median = median_around(values, index, radius);
            &&& others == 0 ==> median == 0
            &&& others > 0 ==> so_many_around(values, index, radius, median, others / 2 + 1, true)
                && so_many_around(values, index, radius, median, others - others / 2, false)
        }),
{
    let window = neighbours(values, index, radius);
    let first = if index > radius { index - radius } else { 0 };
    let past = if index + radius + 1 < values.len() {
        index + radius + 1
    } else {
        values.len() as int
    };
    let middle = window.len() as int / 2;
    assert(window.len() == past - first - 1);
    if window.len() > 0 {
        sorted_places_count(window, middle);
        let value = sorted(window)[middle] as int;
        let below = choose|places: Seq<int>| #[trigger]
            different_places(places, window.len() as int) && places.len() == middle + 1
                && forall|i: int| 0 <= i < middle + 1 ==> window[#[trigger] places[i]] <= value;
        let above = choose|places: Seq<int>| #[trigger]
            different_places(places, window.len() as int) && places.len() == window.len() - middle
                && forall|i: int|
                0 <= i < window.len() - middle ==> window[#[trigger] places[i]] >= value;
        around_counts(values, index, radius, value, below, true);
        around_counts(values, index, radius, value, above, false);
    }
}

/// So many frames within the radius of one, other than itself, differ by no more
/// than a value, or by no less.
pub open spec fn so_many_around(
    values: Seq<u32>,
    index: int,
    radius: int,
    value: int,
    count: int,
    at_most: bool,
) -> bool {
    exists|places: Seq<int>| #[trigger]
        different_places(places, values.len() as int) && places.len() == count && forall|i: int|
            0 <= i < count ==> {
                &&& #[trigger] places[i] != index
                &&& -radius <= places[i] - index <= radius
                &&& if at_most {
                    values[places[i]] <= value
                } else {
                    values[places[i]] >= value
                }
            }
}

proof fn around_counts(
    values: Seq<u32>,
    index: int,
    radius: int,
    value: int,
    found: Seq<int>,
    at_most: bool,
)
    requires
        0 <= index < values.len(),
        radius >= 0,
        different_places(found, neighbours(values, index, radius).len() as int),
        forall|i: int|
            0 <= i < found.len() ==> if at_most {
                neighbours(values, index, radius)[#[trigger] found[i]] <= value
            } else {
                neighbours(values, index, radius)[found[i]] >= value
            },
    ensures
        so_many_around(values, index, radius, value, found.len() as int, at_most),
{
    let first = if index > radius { index - radius } else { 0 };
    let window = neighbours(values, index, radius);
    let places = Seq::new(
        found.len(),
        |i: int|
            if first + found[i] < index {
                first + found[i]
            } else {
                first + found[i] + 1
            },
    );
    assert forall|i: int| 0 <= i < found.len() implies window[found[i]] == values[
        #[trigger] places[i]] && 0 <= places[i] < values.len() && places[i] != index && -radius
        <= places[i] - index <= radius by {
        assert(0 <= found[i] < window.len());
    }
    assert forall|i: int, j: int| 0 <= i < j < places.len() implies #[trigger] places[i]
        != #[trigger] places[j] by {
        assert(found[i] != found[j]);
    }
    assert forall|i: int| 0 <= i < found.len() implies {
        &&& #[trigger] places[i] != index
        &&& -radius <= places[i] - index <= radius
        &&& if at_most {
            values[places[i]] <= value
        } else {
            values[places[i]] >= value
        }
    } by {
        assert(0 <= found[i] < window.len());
        assert(window[found[i]] == values[places[i]]);
    }
    assert(different_places(places, values.len() as int));
}

/// How far two pictures differ does not depend on which is first, is nothing
/// between a picture and itself, and is so many levels where every pixel of one
/// is so many levels brighter.
pub proof fn differences_measure_brightness(a: Seq<u8>, b: Seq<u8>, lift: int)
    requires
        a.len() == b.len(),
    ensures
        difference_of(a, b) == difference_of(b, a),
        difference_of(a, a) == 0,
        a.len() > 0 && lift >= 0 && (forall|i: int| 0 <= i < a.len() ==> #[trigger] b[i] == a[i] + lift)
            ==> difference_of(a, b) == lift * 2304,
{
    totals_measure_brightness(a, b, lift);
    if a.len() > 0 {
        let n = a.len() as int;
        assert(0int * 2304 / n == 0) by (nonlinear_arith)
            requires
                n > 0,
        ;
        vstd::arithmetic::div_mod::lemma_div_multiples_vanish(lift * 2304, n);
        assert(n * (lift * 2304) == (n * lift) * 2304) by (nonlinear_arith);
    }
}

proof fn totals_measure_brightness(a: Seq<u8>, b: Seq<u8>, lift: int)
    requires
        a.len() == b.len(),
    ensures
        total_difference(a, b) == total_difference(b, a),
        total_difference(a, a) == 0,
        lift >= 0 && (forall|i: int| 0 <= i < a.len() ==> #[trigger] b[i] == a[i] + lift)
            ==> total_difference(a, b) == a.len() * lift,
    decreases a.len(),
{
    if a.len() > 0 {
        totals_measure_brightness(a.drop_last(), b.drop_last(), lift);
        let n = a.len() as int;
        assert(n * lift == (n - 1) * lift + lift) by (nonlinear_arith);
        if lift >= 0 && forall|i: int| 0 <= i < a.len() ==> #[trigger] b[i] == a[i] + lift {
            assert forall|i: int| 0 <= i < a.len() - 1 implies #[trigger] b.drop_last()[i]
                == a.drop_last()[i] + lift by {
                assert(b[i] == a[i] + lift);
            }
            assert(b[n - 1] == a[n - 1] + lift);
        }
    } else {
        assert(0 * lift == 0) by (nonlinear_arith);
    }
}

/// Every cut that is reported is as strong as was asked for.
pub proof fn cuts_are_strong(
    differences: Seq<u32>,
    spacing: FrameSpacing,
    options: SceneOptions,
    count: int,
)
    requires
        0 <= count <= differences.len(),
    ensures
        forall|i: int|
            0 <= i < cuts_among(differences, spacing, options, count).len() ==> (
            #[trigger] cuts_among(differences, spacing, options, count)[i]).strength
                >= options.absolute_threshold,
    decreases count,
{
    if count > 0 {
        cuts_are_strong(differences, spacing, options, count - 1);
        let before = cuts_among(differences, spacing, options, count - 1);
        let after = cuts_among(differences, spacing, options, count);
        assert forall|i: int| 0 <= i < after.len() implies (#[trigger] after[i]).strength
            >= options.absolute_threshold by {
            if i < before.len() {
                assert(after[i] == before[i]);
            }
        }
    }
}

} // verus!
