//! Turning per-frame logo scores into presence intervals.
//!
//! The raw score is noisy: a bright flash, a caption crossing the logo, or a
//! fade will each move it for a few frames. Two things clean it up. A median
//! filter removes short excursions without smearing the real transitions the
//! way an average would, and the exact frame a logo appears on is what a cut
//! point is derived from, so smearing is not acceptable. Then hysteresis, with
//! separate thresholds for turning on and off, stops the state chattering when
//! the score sits near a single threshold.
//!
//! Scores and thresholds are in millionths.

use vstd::prelude::*;
use crate::analyze::in_time;
use crate::media::frames::moment_is_monotonic;
use crate::media::frames::FrameSpacing;
use crate::order::sort;
use crate::order::sorted;
use crate::seqs::filter_contents;
use crate::seqs::filter_ends;
use crate::seqs::filter_step;

verus! {

/// Score above which the logo is considered to have appeared.
pub const DEFAULT_ON_THRESHOLD: i64 = 450_000;

/// Score below which it is considered to have gone.
///
/// Lower than the on-threshold on purpose: once the logo is established, it
/// takes more evidence to declare it gone than it took to declare it present.
pub const DEFAULT_OFF_THRESHOLD: i64 = 250_000;

/// Half-width of the median filter, in frames.
///
/// Fifteen frames is half a second at broadcast rates: long enough to absorb
/// a caption sweeping past the logo, short enough not to move a real boundary.
pub const DEFAULT_SMOOTHING_RADIUS: usize = 15;

/// Presence intervals shorter than this, in microseconds, are discarded as
/// noise.
pub const DEFAULT_MINIMUM_SECONDS: i64 = 2_000_000;

/// A span of the recording during which the logo was present.
#[derive(Debug, Clone, Copy, PartialEq, Eq, Structural)]
pub struct LogoInterval {
    /// Start, in microseconds.
    pub start: i64,
    /// End, in microseconds.
    pub end: i64,
}

impl LogoInterval {
    /// Both ends are within the limit on moments.
    pub open spec fn in_time(self) -> bool {
        in_time(self.start) && in_time(self.end)
    }

    /// Length in microseconds.
    #[must_use]
    pub fn duration(&self) -> (length: i64)
        requires
            self.in_time(),
        ensures
            length == self.end - self.start,
    {
        self.end - self.start
    }

    /// Whether a moment falls inside this interval.
    #[must_use]
    pub fn contains(&self, at: i64) -> (inside: bool)
        ensures
            inside == (self.start <= at < self.end),
    {
        at >= self.start && at < self.end
    }
}

/// Tunables for turning scores into intervals.
#[derive(Debug, Clone, Copy, PartialEq, Eq, Structural)]
pub struct TrackOptions {
    /// Score at which the logo is declared present.
    pub on_threshold: i64,
    /// Score at which it is declared gone.
    pub off_threshold: i64,
    /// Median filter half-width, in frames.
    pub smoothing_radius: usize,
    /// Shortest interval worth keeping, in microseconds.
    pub minimum_seconds: i64,
    /// Gap below which two intervals are joined, in microseconds.
    pub merge_gap_seconds: i64,
}

impl Default for TrackOptions {
    fn default() -> (options: TrackOptions)
        ensures
            options.on_threshold == DEFAULT_ON_THRESHOLD,
            options.off_threshold == DEFAULT_OFF_THRESHOLD,
            options.smoothing_radius == DEFAULT_SMOOTHING_RADIUS,
            options.minimum_seconds == DEFAULT_MINIMUM_SECONDS,
            options.merge_gap_seconds == 1_000_000,
    {
        TrackOptions {
            on_threshold: DEFAULT_ON_THRESHOLD,
            off_threshold: DEFAULT_OFF_THRESHOLD,
            smoothing_radius: DEFAULT_SMOOTHING_RADIUS,
            minimum_seconds: DEFAULT_MINIMUM_SECONDS,
            // A caption card covering the logo rarely lasts longer than this.
            merge_gap_seconds: 1_000_000,
        }
    }
}

/// The scores no further than `radius` frames from this one.
pub open spec fn window_around(scores: Seq<i64>, index: int, radius: int) -> Seq<i128> {
    let from = if index > radius { index - radius } else { 0 };
    let to = if index + radius + 1 < scores.len() {
        index + radius + 1
    } else {
        scores.len() as int
    };
    scores.subrange(from, to).map_values(|score: i64| score as i128)
}

/// The median of the scores around each frame.
pub open spec fn smoothed_scores(scores: Seq<i64>, radius: int) -> Seq<i64> {
    Seq::new(
        scores.len(),
        |i: int|
            {
                let window = window_around(scores, i, radius);
                sorted(window)[window.len() as int / 2] as i64
            },
    )
}

/// Whether the logo is showing at a frame: it appears on reaching the upper
/// threshold and goes on falling below the lower one, and in between nothing
/// changes.
pub open spec fn showing(scores: Seq<i64>, on: i64, off: i64, index: int) -> bool
    decreases index + 1,
{
    if index < 0 {
        false
    } else if showing(scores, on, off, index - 1) {
        scores[index] >= off
    } else {
        scores[index] >= on
    }
}

/// The runs of frames, among the first `count`, over which the logo shows:
/// each as its first frame and the one past its last.
pub open spec fn runs(scores: Seq<i64>, on: i64, off: i64, count: int) -> Seq<(int, int)>
    decreases count,
{
    if count <= 0 {
        Seq::empty()
    } else {
        let before = runs(scores, on, off, count - 1);
        if !showing(scores, on, off, count - 1) {
            before
        } else if showing(scores, on, off, count - 2) {
            before.drop_last().push((before.last().0, count))
        } else {
            before.push((count - 1, count))
        }
    }
}

/// The span of time a run of frames covers.
pub open spec fn span_of(spacing: FrameSpacing, run: (int, int)) -> LogoInterval {
    LogoInterval { start: spacing.moment(run.0) as i64, end: spacing.moment(run.1) as i64 }
}

/// Join each interval to the one before when they are separated by less than
/// `gap`.
pub open spec fn joined(intervals: Seq<LogoInterval>, gap: i64) -> Seq<LogoInterval>
    decreases intervals.len(),
{
    if intervals.len() == 0 {
        Seq::empty()
    } else {
        let merged = joined(intervals.drop_last(), gap);
        let next = intervals.last();
        if merged.len() > 0 && next.start - merged.last().end < gap {
            merged.drop_last().push(LogoInterval { start: merged.last().start, end: next.end })
        } else {
            merged.push(next)
        }
    }
}

/// Intervals no shorter than this.
pub open spec fn long_enough(minimum: i64) -> spec_fn(LogoInterval) -> bool {
    |interval: LogoInterval| interval.end - interval.start >= minimum
}

/// The spans during which the logo was present: its runs, joined across brief
/// gaps, and then without those still too short. Joining comes first: two
/// short spans either side of a brief occlusion are one programme block, and
/// discarding by length before joining would lose both.
pub open spec fn presence(
    scores: Seq<i64>,
    spacing: FrameSpacing,
    options: TrackOptions,
) -> Seq<LogoInterval> {
    let smooth = smoothed_scores(scores, options.smoothing_radius as int);
    let found = runs(smooth, options.on_threshold, options.off_threshold, smooth.len() as int);
    joined(
        found.map_values(|run: (int, int)| span_of(spacing, run)),
        options.merge_gap_seconds,
    ).filter(long_enough(options.minimum_seconds))
}

/// The per-frame logo score across a recording.
#[derive(Debug, Clone, PartialEq, Eq)]
pub struct LogoTrack {
    /// How far apart the scored frames are.
    pub spacing: FrameSpacing,
    /// One score per analysed frame, in millionths.
    pub scores: Vec<i64>,
}

impl LogoTrack {
    /// The whole track lies within the limit on moments.
    pub open spec fn wf(self) -> bool {
        self.spacing.reaches(self.scores@.len() as int)
    }

    /// Time of a frame, in microseconds.
    #[must_use]
    pub fn time_of(&self, index: usize) -> (moment: i64)
        requires
            self.spacing.reaches(index as int),
        ensures
            moment == self.spacing.moment(index as int),
            in_time(moment),
    {
        self.spacing.time_of(index as u64)
    }

    /// Total duration covered.
    #[must_use]
    pub fn duration(&self) -> (length: i64)
        requires
            self.wf(),
        ensures
            length == self.spacing.moment(self.scores@.len() as int),
    {
        self.time_of(self.scores.len())
    }

    /// Median-filtered copy of the scores.
    #[must_use]
    pub fn smoothed(&self, radius: usize) -> (smooth: Vec<i64>)
        ensures
            smooth@ == smoothed_scores(self.scores@, radius as int),
    {
        let mut smooth: Vec<i64> = Vec::new();
        let count: usize = self.scores.len();
        for index in 0..count
            invariant
                count == self.scores@.len(),
                smooth@ =~= smoothed_scores(self.scores@, radius as int).take(index as int),
        {
            let from: usize = if index > radius { index - radius } else { 0 };
            // Written so that no radius, however absurd, can overflow.
            let to: usize = if radius < count - index - 1 { index + radius + 1 } else { count };
            let mut window: Vec<i128> = Vec::new();
            for i in from..to
                invariant
                    from <= to <= self.scores@.len(),
                    window@ =~= self.scores@.subrange(from as int, i as int).map_values(
                        |score: i64| score as i128,
                    ),
            {
                window.push(self.scores[i] as i128);
            }
            assert(window@ =~= window_around(self.scores@, index as int, radius as int));
            let ascending = sort(&window);
            smooth.push(ascending[ascending.len() / 2] as i64);
        }
        assert(smooth@ =~= smoothed_scores(self.scores@, radius as int));
        smooth
    }

    /// Extract the spans during which the logo was present.
    #[must_use]
    pub fn intervals(&self, options: &TrackOptions) -> (intervals: Vec<LogoInterval>)
        requires
            self.wf(),
        ensures
            intervals@ == presence(self.scores@, self.spacing, *options),
            forall|i: int|
                0 <= i < intervals@.len() ==> (#[trigger] intervals@[i]).in_time(),
            intervals@.len() <= self.scores@.len(),
    {
        let smooth = self.smoothed(options.smoothing_radius);
        let ghost found = runs(
            smooth@,
            options.on_threshold,
            options.off_threshold,
            smooth@.len() as int,
        );
        let mut spans: Vec<LogoInterval> = Vec::new();
        let mut start: Option<usize> = None;
        assert(runs(smooth@, options.on_threshold, options.off_threshold, 0) =~= Seq::empty());
        for index in 0..smooth.len()
            invariant
                self.wf(),
                smooth@.len() == self.scores@.len(),
                spans@.len() <= index,
                start is Some ==> spans@.len() < index,
                start matches Some(from) ==> from < index,
                start is Some == showing(
                    smooth@,
                    options.on_threshold,
                    options.off_threshold,
                    index - 1,
                ),
                self.accounts_for(
                    runs(smooth@, options.on_threshold, options.off_threshold, index as int),
                    spans@,
                    start,
                    index as int,
                ),
                forall|i: int|
                    0 <= i < spans@.len() ==> (#[trigger] spans@[i]).in_time()
                        && spans@[i].start <= spans@[i].end,
        {
            let score: i64 = smooth[index];
            proof {
                moment_is_monotonic(self.spacing, index as int, self.scores@.len() as int);
            }
            match start {
                None => {
                    if score >= options.on_threshold {
                        start = Some(index);
                    }
                },
                Some(from) => {
                    if score < options.off_threshold {
                        proof {
                            moment_is_monotonic(self.spacing, from as int, index as int);
                        }
                        spans.push(self.span(from, index));
                        start = None;
                    }
                },
            }
        }
        if let Some(from) = start {
            proof {
                moment_is_monotonic(self.spacing, from as int, smooth@.len() as int);
            }
            spans.push(self.span(from, smooth.len()));
        }
        assert(spans@ =~= found.map_values(|run: (int, int)| span_of(self.spacing, run)));
        let merged = merge_adjacent(&spans, options.merge_gap_seconds);
        let mut kept: Vec<LogoInterval> = Vec::new();
        let ghost long = long_enough(options.minimum_seconds);
        proof {
            filter_ends(merged@, long);
        }
        for i in 0..merged.len()
            invariant
                long == long_enough(options.minimum_seconds),
                forall|i: int| 0 <= i < merged@.len() ==> (#[trigger] merged@[i]).in_time(),
                forall|i: int| 0 <= i < kept@.len() ==> (#[trigger] kept@[i]).in_time(),
                kept@ == merged@.take(i as int).filter(long),
                kept@.len() <= i,
        {
            proof {
                filter_step(merged@, long, i as int);
            }
            let interval = merged[i];
            assert(merged@[i as int].in_time());
            if interval.duration() >= options.minimum_seconds {
                kept.push(interval);
            }
        }
        kept
    }

    /// The spans made so far, and the run still open, are the runs seen.
    spec fn accounts_for(
        self,
        seen: Seq<(int, int)>,
        spans: Seq<LogoInterval>,
        start: Option<usize>,
        index: int,
    ) -> bool {
        match start {
            None => spans =~= seen.map_values(|run: (int, int)| span_of(self.spacing, run)),
            Some(from) => {
                &&& seen.len() > 0
                &&& seen.last() == (from as int, index)
                &&& spans =~= seen.drop_last().map_values(
                    |run: (int, int)| span_of(self.spacing, run),
                )
            },
        }
    }

    /// The interval covering a run of frames.
    fn span(&self, from: usize, to: usize) -> (interval: LogoInterval)
        requires
            self.spacing.reaches(from as int),
            self.spacing.reaches(to as int),
        ensures
            interval == span_of(self.spacing, (from as int, to as int)),
            interval.in_time(),
    {
        LogoInterval { start: self.time_of(from), end: self.time_of(to) }
    }
}

/// Join intervals separated by less than `gap`.
///
/// A logo briefly obscured by a full-screen caption reads as two intervals;
/// treating that as a programme boundary would cut the programme in half.
fn merge_adjacent(intervals: &[LogoInterval], gap: i64) -> (merged: Vec<LogoInterval>)
    requires
        forall|i: int| 0 <= i < intervals@.len() ==> (#[trigger] intervals@[i]).in_time(),
    ensures
        merged@ == joined(intervals@, gap),
        merged@.len() <= intervals@.len(),
        forall|i: int| 0 <= i < merged@.len() ==> (#[trigger] merged@[i]).in_time(),
{
    let mut merged: Vec<LogoInterval> = Vec::new();
    assert(intervals@.take(0) =~= Seq::empty());
    for i in 0..intervals.len()
        invariant
            forall|i: int| 0 <= i < intervals@.len() ==> (#[trigger] intervals@[i]).in_time(),
            forall|i: int| 0 <= i < merged@.len() ==> (#[trigger] merged@[i]).in_time(),
            merged@ == joined(intervals@.take(i as int), gap),
            merged@.len() <= i,
    {
        assert(intervals@.take(i + 1).drop_last() =~= intervals@.take(i as int));
        let next = intervals[i];
        assert(intervals@[i as int].in_time());
        let count: usize = merged.len();
        if count > 0 {
            assert(merged@[count - 1].in_time());
        }
        if count > 0 && next.start - merged[count - 1].end < gap {
            let start: i64 = merged[count - 1].start;
            merged.set(count - 1, LogoInterval { start, end: next.end });
            assert(merged@ =~= joined(intervals@.take(i + 1), gap));
        } else {
            merged.push(next);
        }
    }
    assert(intervals@.take(intervals@.len() as int) =~= intervals@);
    merged
}

/// A score between the two thresholds holds the state it finds, which is what
/// stops the track chattering.
pub proof fn hysteresis_holds_its_state(scores: Seq<i64>, on: i64, off: i64, index: int)
    requires
        0 <= index < scores.len(),
        off <= scores[index] < on,
    ensures
        showing(scores, on, off, index) == showing(scores, on, off, index - 1),
{
}

/// Runs come in order, none of them empty, none touching the next, and all
/// within the frames looked at.
pub open spec fn runs_in_order(found: Seq<(int, int)>, count: int) -> bool {
    &&& forall|i: int| 0 <= i < found.len() ==> 0 <= (#[trigger] found[i]).0 < found[i].1 <= count
    &&& forall|i: int, j: int|
        0 <= i < j < found.len() ==> (#[trigger] found[i]).1 < (#[trigger] found[j]).0
}

/// The runs are exactly the stretches over which the logo shows.
pub proof fn runs_are_what_shows(scores: Seq<i64>, on: i64, off: i64, count: int)
    requires
        0 <= count <= scores.len(),
    ensures
        runs_in_order(runs(scores, on, off, count), count),
        count > 0 && showing(scores, on, off, count - 1) ==> {
            let found = runs(scores, on, off, count);
            found.len() > 0 && found.last().1 == count
        },
        count > 0 && !showing(scores, on, off, count - 1) ==> {
            let found = runs(scores, on, off, count);
            found.len() > 0 ==> found.last().1 < count
        },
        forall|frame: int|
            0 <= frame < count ==> (#[trigger] showing(scores, on, off, frame) <==> in_a_run(
                runs(scores, on, off, count),
                frame,
            )),
    decreases count,
{
    if count > 0 {
        runs_are_what_shows(scores, on, off, count - 1);
        let before = runs(scores, on, off, count - 1);
        let after = runs(scores, on, off, count);
        assert forall|i: int, j: int| 0 <= i < j < after.len() implies (#[trigger] after[i]).1 < (
        #[trigger] after[j]).0 by {
            if j < before.len() {
                assert(before[i].1 < before[j].0);
            } else {
                assert(before[i].1 <= before.last().1);
            }
        }
        assert forall|frame: int| 0 <= frame < count implies (#[trigger] showing(
            scores,
            on,
            off,
            frame,
        ) <==> in_a_run(after, frame)) by {
            if showing(scores, on, off, frame) {
                if frame < count - 1 {
                    assert(in_a_run(before, frame));
                    let k = choose|k: int|
                        0 <= k < before.len() && (#[trigger] before[k]).0 <= frame < before[k].1;
                    assert(after[k].0 <= frame < after[k].1);
                } else {
                    let k = after.len() - 1;
                    assert(after[k].0 <= frame < after[k].1);
                }
            }
            if in_a_run(after, frame) {
                let k = choose|k: int|
                    0 <= k < after.len() && (#[trigger] after[k]).0 <= frame < after[k].1;
                if frame < count - 1 {
                    assert(before[k].0 <= frame < before[k].1);
                    assert(in_a_run(before, frame));
                } else if !showing(scores, on, off, frame) {
                    assert(before[k].1 <= count - 1);
                }
            }
        }
    }
}

/// A frame lies in one of the runs.
pub open spec fn in_a_run(found: Seq<(int, int)>, frame: int) -> bool {
    exists|k: int| 0 <= k < found.len() && (#[trigger] found[k]).0 <= frame < found[k].1
}

/// Intervals come out in order, too far apart for the gap to have joined them,
/// and none shorter than the minimum.
pub proof fn intervals_are_apart_and_long(
    scores: Seq<i64>,
    spacing: FrameSpacing,
    options: TrackOptions,
)
    requires
        spacing.reaches(scores.len() as int),
        options.merge_gap_seconds >= 0,
    ensures
        ({
            let found = presence(scores, spacing, options);
            &&& forall|i: int|
                0 <= i < found.len() ==> (#[trigger] found[i]).end - found[i].start
                    >= options.minimum_seconds
            &&& forall|i: int, j: int|
                0 <= i < j < found.len() ==> (#[trigger] found[j]).start - (#[trigger] found[i]).end
                    >= options.merge_gap_seconds
            &&& forall|i: int|
                0 <= i < found.len() ==> 0 <= (#[trigger] found[i]).start <= found[i].end
                    <= spacing.moment(scores.len() as int)
        }),
{
    let smooth = smoothed_scores(scores, options.smoothing_radius as int);
    let found = runs(smooth, options.on_threshold, options.off_threshold, smooth.len() as int);
    runs_are_what_shows(
        smooth,
        options.on_threshold,
        options.off_threshold,
        smooth.len() as int,
    );
    let spans = found.map_values(|run: (int, int)| span_of(spacing, run));
    let end = spacing.moment(scores.len() as int);
    assert forall|i: int| 0 <= i < spans.len() implies 0 <= (#[trigger] spans[i]).start
        <= spans[i].end <= end by {
        assert(0 <= found[i].0 < found[i].1 <= smooth.len());
        moment_is_monotonic(spacing, found[i].0, found[i].1);
        moment_is_monotonic(spacing, found[i].1, smooth.len() as int);
    }
    assert forall|i: int, j: int| 0 <= i < j < spans.len() implies (#[trigger] spans[i]).end <= (
    #[trigger] spans[j]).start by {
        assert(found[i].1 < found[j].0);
        assert(0 <= found[i].0 < found[i].1 && found[j].0 < found[j].1 <= smooth.len());
        moment_is_monotonic(spacing, found[i].1, found[j].0);
        moment_is_monotonic(spacing, found[j].0, smooth.len() as int);
    }
    joining_keeps_order(spans, options.merge_gap_seconds, end);
    let merged = joined(spans, options.merge_gap_seconds);
    let long = long_enough(options.minimum_seconds);
    filter_contents(merged, long);
    let kept = merged.filter(long);
    assert forall|i: int| 0 <= i < kept.len() implies 0 <= (#[trigger] kept[i]).start
        <= kept[i].end <= end by {
        assert(merged.contains(kept[i]));
        let p = choose|p: int| 0 <= p < merged.len() && merged[p] == kept[i];
        assert(0 <= merged[p].start <= merged[p].end <= end);
    }
    filter_keeps_apart(merged, long, options.merge_gap_seconds);
}

pub(crate) proof fn joining_keeps_order(spans: Seq<LogoInterval>, gap: i64, end: int)
    requires
        gap >= 0,
        forall|i: int|
            0 <= i < spans.len() ==> 0 <= (#[trigger] spans[i]).start <= spans[i].end <= end,
        forall|i: int, j: int|
            0 <= i < j < spans.len() ==> (#[trigger] spans[i]).end <= (#[trigger] spans[j]).start,
    ensures
        ({
            let merged = joined(spans, gap);
            &&& spans.len() > 0 ==> merged.len() > 0 && merged.last().end == spans.last().end
            &&& forall|i: int|
                0 <= i < merged.len() ==> 0 <= (#[trigger] merged[i]).start <= merged[i].end <= end
            &&& forall|i: int, j: int|
                0 <= i < j < merged.len() ==> (#[trigger] merged[j]).start - (
                #[trigger] merged[i]).end >= gap
        }),
    decreases spans.len(),
{
    if spans.len() > 0 {
        let shorter = spans.drop_last();
        assert forall|i: int| 0 <= i < shorter.len() implies 0 <= (#[trigger] shorter[i]).start
            <= shorter[i].end <= end by {
            assert(0 <= spans[i].start <= spans[i].end <= end);
        }
        assert forall|i: int, j: int| 0 <= i < j < shorter.len() implies (
        #[trigger] shorter[i]).end <= (#[trigger] shorter[j]).start by {
            assert(spans[i].end <= spans[j].start);
        }
        joining_keeps_order(shorter, gap, end);
        let before = joined(shorter, gap);
        let after = joined(spans, gap);
        let n = spans.len() - 1;
        assert(0 <= spans[n].start <= spans[n].end <= end);
        if n > 0 {
            assert(spans[n - 1].end <= spans[n].start);
            assert(before.last() == before[before.len() - 1]);
        }
        assert forall|i: int| 0 <= i < after.len() implies 0 <= (#[trigger] after[i]).start
            <= after[i].end <= end by {
            if i < before.len() {
                assert(0 <= before[i].start <= before[i].end <= end);
            }
        }
        assert forall|i: int, j: int| 0 <= i < j < after.len() implies (#[trigger] after[j]).start
            - (#[trigger] after[i]).end >= gap by {
            if j < before.len() {
                assert(before[j].start - before[i].end >= gap);
            } else if i < before.len() - 1 {
                assert(before[before.len() - 1].start - before[i].end >= gap);
            }
        }
    }
}

proof fn filter_keeps_apart(
    merged: Seq<LogoInterval>,
    long: spec_fn(LogoInterval) -> bool,
    gap: i64,
)
    requires
        forall|i: int, j: int|
            0 <= i < j < merged.len() ==> (#[trigger] merged[j]).start - (#[trigger] merged[i]).end
                >= gap,
    ensures
        forall|i: int, j: int|
            0 <= i < j < merged.filter(long).len() ==> (#[trigger] merged.filter(long)[j]).start - (
            #[trigger] merged.filter(long)[i]).end >= gap,
    decreases merged.len(),
{
    reveal(Seq::filter);
    if merged.len() > 0 {
        let shorter = merged.drop_last();
        assert forall|i: int, j: int| 0 <= i < j < shorter.len() implies (
        #[trigger] shorter[j]).start - (#[trigger] shorter[i]).end >= gap by {
            assert(merged[j].start - merged[i].end >= gap);
        }
        filter_keeps_apart(shorter, long, gap);
        filter_contents(shorter, long);
        let before = shorter.filter(long);
        let after = merged.filter(long);
        assert forall|i: int, j: int| 0 <= i < j < after.len() implies (#[trigger] after[j]).start
            - (#[trigger] after[i]).end >= gap by {
            if j < before.len() {
                assert(before[j].start - before[i].end >= gap);
            } else {
                assert(after[i] == before[i]);
                assert(shorter.contains(before[i]));
                let p = choose|p: int| 0 <= p < shorter.len() && shorter[p] == before[i];
                assert(merged[p] == before[i]);
                assert(merged[merged.len() - 1].start - merged[p].end >= gap);
            }
        }
    }
}

} // verus!
