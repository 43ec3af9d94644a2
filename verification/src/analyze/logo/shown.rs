//! What holds of when the logo is said to be there, in terms of its scores.

use vstd::prelude::*;
use crate::analyze::logo::track::in_a_run;
use crate::analyze::logo::track::joined;
use crate::analyze::logo::track::joining_keeps_order;
use crate::analyze::logo::track::long_enough;
use crate::analyze::logo::track::presence;
use crate::analyze::logo::track::runs;
use crate::analyze::logo::track::runs_are_what_shows;
use crate::analyze::logo::track::runs_in_order;
use crate::analyze::logo::track::showing;
use crate::analyze::logo::track::smoothed_scores;
use crate::analyze::logo::track::span_of;
use crate::analyze::logo::track::window_around;
use crate::analyze::logo::track::LogoInterval;
use crate::analyze::logo::track::TrackOptions;
use crate::media::frames::moment_is_monotonic;
use crate::media::frames::FrameSpacing;
use crate::order::so_many_at_least;
use crate::order::so_many_at_most;
use crate::order::sorted;
use crate::order::sorted_places_count;
use crate::seqs::filter_contents;

verus! {

/// A score is smoothed over the frames no further away than the radius, as far
/// as there are any, each counted once.
pub proof fn windows_reach_as_far_as_the_radius(scores: Seq<i64>, index: int, radius: int, at: int)
    requires
        0 <= index < scores.len(),
        radius >= 0,
    ensures
        ({
            let window = window_around(scores, index, radius);
            let before = if index < radius { index } else { radius };
            let after = if scores.len() - 1 - index < radius {
                scores.len() - 1 - index
            } else {
                radius
            };
            &&& window.len() == before + 1 + after
            &&& -before <= at <= after ==> window[before + at] == scores[index + at]
        }),
{
}

/// A smoothed score is the middle one of its window: it is one of them, more
/// than half are no higher, and at least half are no lower.
pub proof fn smoothing_takes_the_middle(scores: Seq<i64>, index: int, radius: int)
    requires
        0 <= index < scores.len() <= usize::MAX,
        radius >= 0,
    ensures
        ({
            let window = window_around(scores, index, radius);
            let middle = smoothed_scores(scores, radius)[index];
            &&& smoothed_scores(scores, radius).len() == scores.len()
            &&& window.contains(middle as i128)
            &&& so_many_at_most(window, middle as int, window.len() as int / 2 + 1)
            &&& so_many_at_least(window, middle as int, window.len() - window.len() as int / 2)
        }),
{
    let window = window_around(scores, index, radius);
    let at = window.len() as int / 2;
    sorted_places_count(window, at);
    let value = sorted(window)[at];
    let p = window.index_of(value);
    let from = if index > radius { index - radius } else { 0 };
    assert(window[p] == scores[from + p] as i128);
    assert(smoothed_scores(scores, radius)[index] == value as i64);
}

/// The logo is there from a score that reaches the upper threshold until one
/// that is under the lower, and not before the first that reaches it.
pub proof fn scores_switch_the_logo(scores: Seq<i64>, on: i64, off: i64, index: int)
    requires
        0 <= index < scores.len(),
        off <= on,
    ensures
        scores[index] >= on ==> showing(scores, on, off, index),
        scores[index] < off ==> !showing(scores, on, off, index),
        index == 0 ==> (showing(scores, on, off, index) <==> scores[index] >= on),
        off <= scores[index] < on && index > 0 ==> showing(scores, on, off, index) == showing(
            scores,
            on,
            off,
            index - 1,
        ),
{
    if index == 0 {
        assert(!showing(scores, on, off, -1));
    }
}

/// The spans of the runs that the smoothed scores make.
pub open spec fn spans_shown(
    scores: Seq<i64>,
    spacing: FrameSpacing,
    options: TrackOptions,
) -> Seq<LogoInterval> {
    let smooth = smoothed_scores(scores, options.smoothing_radius as int);
    runs(
        smooth,
        options.on_threshold,
        options.off_threshold,
        smooth.len() as int,
    ).map_values(|run: (int, int)| span_of(spacing, run))
}

spec fn spans_in_order(spans: Seq<LogoInterval>, end: int) -> bool {
    &&& forall|i: int|
        0 <= i < spans.len() ==> 0 <= (#[trigger] spans[i]).start <= spans[i].end <= end
    &&& forall|i: int, j: int|
        0 <= i < j < spans.len() ==> (#[trigger] spans[i]).end <= (#[trigger] spans[j]).start
}

proof fn shown_spans_are_in_order(
    scores: Seq<i64>,
    spacing: FrameSpacing,
    options: TrackOptions,
)
    requires
        spacing.reaches(scores.len() as int),
    ensures
        spans_in_order(
            spans_shown(scores, spacing, options),
            spacing.moment(scores.len() as int),
        ),
        ({
            let smooth = smoothed_scores(scores, options.smoothing_radius as int);
            let found = runs(
                smooth,
                options.on_threshold,
                options.off_threshold,
                smooth.len() as int,
            );
            forall|k: int|
                0 <= k < found.len() ==> (#[trigger] spans_shown(scores, spacing, options)[k]).start
                    == spacing.moment(found[k].0) && spans_shown(scores, spacing, options)[k].end
                    == spacing.moment(found[k].1)
        }),
{
    let smooth = smoothed_scores(scores, options.smoothing_radius as int);
    let found = runs(
        smooth,
        options.on_threshold,
        options.off_threshold,
        smooth.len() as int,
    );
    runs_are_what_shows(
        smooth,
        options.on_threshold,
        options.off_threshold,
        smooth.len() as int,
    );
    let spans = spans_shown(scores, spacing, options);
    let end = spacing.moment(scores.len() as int);
    assert forall|i: int| 0 <= i < spans.len() implies 0 <= (#[trigger] spans[i]).start
        <= spans[i].end <= end && spans[i].start == spacing.moment(found[i].0) && spans[i].end
        == spacing.moment(found[i].1) by {
        assert(0 <= found[i].0 < found[i].1 <= smooth.len());
        moment_is_monotonic(spacing, found[i].0, found[i].1);
        moment_is_monotonic(spacing, found[i].1, smooth.len() as int);
        assert(spans[i] == span_of(spacing, found[i]));
    }
    assert forall|i: int, j: int| 0 <= i < j < spans.len() implies (#[trigger] spans[i]).end <= (
    #[trigger] spans[j]).start by {
        assert(found[i].1 < found[j].0);
        assert(0 <= found[i].0 < found[i].1 && found[j].0 < found[j].1 <= smooth.len());
        moment_is_monotonic(spacing, found[i].1, found[j].0);
    }
}

proof fn shorter_in_order(spans: Seq<LogoInterval>, end: int)
    requires
        spans_in_order(spans, end),
        spans.len() > 0,
    ensures
        spans_in_order(spans.drop_last(), end),
{
    let shorter = spans.drop_last();
    assert forall|i: int| 0 <= i < shorter.len() implies 0 <= (#[trigger] shorter[i]).start
        <= shorter[i].end <= end by {
        assert(shorter[i] == spans[i]);
    }
    assert forall|i: int, j: int| 0 <= i < j < shorter.len() implies (#[trigger] shorter[i]).end
        <= (#[trigger] shorter[j]).start by {
        assert(spans[i].end <= spans[j].start);
    }
}

proof fn joining_covers(spans: Seq<LogoInterval>, gap: i64, end: int, k: int) -> (m: int)
    requires
        gap >= 0,
        spans_in_order(spans, end),
        0 <= k < spans.len(),
    ensures
        0 <= m < joined(spans, gap).len(),
        joined(spans, gap)[m].start <= spans[k].start,
        spans[k].end <= joined(spans, gap)[m].end,
    decreases spans.len(),
{
    let shorter = spans.drop_last();
    let before = joined(shorter, gap);
    let after = joined(spans, gap);
    shorter_in_order(spans, end);
    joining_keeps_order(shorter, gap, end);
    if k < shorter.len() {
        assert(shorter[k] == spans[k]);
        let m = joining_covers(shorter, gap, end, k);
        if m < before.len() - 1 {
            assert(after[m] == before[m]);
        } else {
            assert(spans[k].end <= spans.last().end) by {
                assert(spans[k].end <= spans[spans.len() - 1].start);
            }
            assert(after[m].start == before[m].start);
        }
        m
    } else {
        if before.len() > 0 {
            assert(before.last().end <= spans.last().start) by {
                assert(before.last().end == shorter.last().end);
                assert(spans[shorter.len() - 1].end <= spans[spans.len() - 1].start);
            }
            assert(before[before.len() - 1].start <= before[before.len() - 1].end);
        }
        after.len() - 1
    }
}

proof fn joined_edges_are_edges(spans: Seq<LogoInterval>, gap: i64, m: int) -> (edges: (int, int))
    requires
        0 <= m < joined(spans, gap).len(),
    ensures
        0 <= edges.0 < spans.len(),
        0 <= edges.1 < spans.len(),
        joined(spans, gap)[m].start == spans[edges.0].start,
        joined(spans, gap)[m].end == spans[edges.1].end,
    decreases spans.len(),
{
    let shorter = spans.drop_last();
    let before = joined(shorter, gap);
    let after = joined(spans, gap);
    let last = spans.len() - 1;
    if m < before.len() {
        let (from, to) = joined_edges_are_edges(shorter, gap, m);
        assert(shorter[from] == spans[from] && shorter[to] == spans[to]);
        if after[m] == before[m] {
            (from, to)
        } else {
            (from, last)
        }
    } else {
        (last, last)
    }
}

proof fn joining_bridges_only_short_gaps(
    spans: Seq<LogoInterval>,
    gap: i64,
    end: int,
    m: int,
    k: int,
)
    requires
        gap > 0,
        spans_in_order(spans, end),
        0 <= k < spans.len() - 1,
        0 <= m < joined(spans, gap).len(),
        joined(spans, gap)[m].start <= spans[k].start,
        spans[k + 1].end <= joined(spans, gap)[m].end,
    ensures
        spans[k + 1].start - spans[k].end < gap,
    decreases spans.len(),
{
    let shorter = spans.drop_last();
    let before = joined(shorter, gap);
    let after = joined(spans, gap);
    let next = spans.last();
    shorter_in_order(spans, end);
    joining_keeps_order(shorter, gap, end);
    joining_keeps_order(spans, gap, end);
    assert(before.len() > 0);
    assert(before.last().end == shorter.last().end);
    assert(shorter.last() == spans[spans.len() - 2]);
    assert(spans[k].start <= spans[k].end <= spans[k + 1].start <= spans[k + 1].end);
    assert(spans[spans.len() - 2].end <= spans[spans.len() - 1].start);
    assert(before[before.len() - 1].end == before.last().end);
    if k + 1 < spans.len() - 1 {
        assert(shorter[k] == spans[k] && shorter[k + 1] == spans[k + 1]);
        assert(spans[k + 1].end <= spans[spans.len() - 1].start);
        if k + 1 < spans.len() - 2 {
            assert(spans[k + 1].end <= spans[spans.len() - 2].start);
            assert(spans[spans.len() - 2].start <= spans[spans.len() - 2].end);
        }
        assert(spans[k + 1].end <= before.last().end);
        if m < before.len() {
            assert(after[m].start == before[m].start);
            if m < before.len() - 1 {
                assert(after[m] == before[m]);
            }
            joining_bridges_only_short_gaps(shorter, gap, end, m, k);
        } else {
            assert(after[m] == next);
        }
    } else {
        assert(spans[k].end == before.last().end);
        if after.len() == before.len() {
            assert(next.start - before.last().end < gap);
        } else if m < before.len() {
            assert(after[m] == before[m]);
            if m < before.len() - 1 {
                assert(before[before.len() - 1].start - before[m].end >= gap);
                assert(before[before.len() - 1].start <= before[before.len() - 1].end);
            }
        } else {
            assert(after[m] == next);
        }
    }
}

/// No long showing is lost: where the logo shows in every frame of a stretch
/// that lasts the minimum, one interval holds the whole stretch.
pub proof fn long_showings_are_intervals(
    scores: Seq<i64>,
    spacing: FrameSpacing,
    options: TrackOptions,
    from: int,
    to: int,
)
    requires
        spacing.reaches(scores.len() as int),
        options.merge_gap_seconds >= 0,
        0 <= from < to <= scores.len(),
        forall|frame: int|
            from <= frame < to ==> #[trigger] showing(
                smoothed_scores(scores, options.smoothing_radius as int),
                options.on_threshold,
                options.off_threshold,
                frame,
            ),
        spacing.moment(to) - spacing.moment(from) >= options.minimum_seconds,
    ensures
        exists|i: int|
            0 <= i < presence(scores, spacing, options).len() && (#[trigger] presence(
                scores,
                spacing,
                options,
            )[i]).start <= spacing.moment(from) && spacing.moment(to) <= presence(
                scores,
                spacing,
                options,
            )[i].end,
{
    let smooth = smoothed_scores(scores, options.smoothing_radius as int);
    let (on, off) = (options.on_threshold, options.off_threshold);
    let count = smooth.len() as int;
    let found = runs(smooth, on, off, count);
    runs_are_what_shows(smooth, on, off, count);
    assert(showing(smooth, on, off, from));
    assert(in_a_run(found, from));
    let k = choose|k: int| 0 <= k < found.len() && (#[trigger] found[k]).0 <= from < found[k].1;
    if found[k].1 < to {
        let frame = found[k].1;
        assert(showing(smooth, on, off, frame));
        assert(in_a_run(found, frame));
        let other = choose|j: int|
            0 <= j < found.len() && (#[trigger] found[j]).0 <= frame < found[j].1;
        if k < other {
            assert(found[k].1 < found[other].0);
        } else if other < k {
            assert(found[other].1 < found[k].0);
        }
        assert(false);
    }
    let spans = spans_shown(scores, spacing, options);
    let end = spacing.moment(scores.len() as int);
    shown_spans_are_in_order(scores, spacing, options);
    assert(spans[k].start == spacing.moment(found[k].0));
    moment_is_monotonic(spacing, found[k].0, from);
    moment_is_monotonic(spacing, to, found[k].1);
    let m = joining_covers(spans, options.merge_gap_seconds, end, k);
    let merged = joined(spans, options.merge_gap_seconds);
    filter_contents(merged, long_enough(options.minimum_seconds));
    assert(long_enough(options.minimum_seconds)(merged[m]));
    assert(presence(scores, spacing, options).contains(merged[m]));
    let i = presence(scores, spacing, options).index_of(merged[m]);
    assert(presence(scores, spacing, options)[i] == merged[m]);
}

/// Every interval begins with a frame that shows the logo, after one that does
/// not or at the very beginning, and ends after a frame that does, before one
/// that does not or at the very end.
pub proof fn intervals_begin_and_end_with_the_logo(
    scores: Seq<i64>,
    spacing: FrameSpacing,
    options: TrackOptions,
    i: int,
) -> (edges: (int, int))
    requires
        spacing.reaches(scores.len() as int),
        0 <= i < presence(scores, spacing, options).len(),
    ensures
        ({
            let smooth = smoothed_scores(scores, options.smoothing_radius as int);
            let (on, off) = (options.on_threshold, options.off_threshold);
            let (from, to) = edges;
            &&& 0 <= from < scores.len()
            &&& presence(scores, spacing, options)[i].start == spacing.moment(from)
            &&& showing(smooth, on, off, from)
            &&& from > 0 ==> !showing(smooth, on, off, from - 1)
            &&& 0 < to <= scores.len()
            &&& presence(scores, spacing, options)[i].end == spacing.moment(to)
            &&& showing(smooth, on, off, to - 1)
            &&& to < scores.len() ==> !showing(smooth, on, off, to)
        }),
{
    let smooth = smoothed_scores(scores, options.smoothing_radius as int);
    let (on, off) = (options.on_threshold, options.off_threshold);
    let count = smooth.len() as int;
    let found = runs(smooth, on, off, count);
    runs_are_what_shows(smooth, on, off, count);
    let spans = spans_shown(scores, spacing, options);
    let merged = joined(spans, options.merge_gap_seconds);
    filter_contents(merged, long_enough(options.minimum_seconds));
    shown_spans_are_in_order(scores, spacing, options);
    let interval = presence(scores, spacing, options)[i];
    assert(merged.contains(interval));
    let m = merged.index_of(interval);
    let (a, b) = joined_edges_are_edges(spans, options.merge_gap_seconds, m);
    let (from, to) = (found[a].0, found[b].1);
    assert(spans[a].start == spacing.moment(from) && spans[b].end == spacing.moment(to));
    assert(found[a].0 <= from < found[a].1);
    assert(in_a_run(found, from));
    assert(showing(smooth, on, off, from));
    assert(found[b].0 <= to - 1 < found[b].1);
    assert(in_a_run(found, to - 1));
    assert(showing(smooth, on, off, to - 1));
    if from > 0 && showing(smooth, on, off, from - 1) {
        outside_runs(found, count, a, from - 1);
    }
    if to < count && showing(smooth, on, off, to) {
        outside_runs(found, count, b, to);
    }
    (from, to)
}

proof fn outside_runs(found: Seq<(int, int)>, count: int, k: int, frame: int)
    requires
        runs_in_order(found, count),
        0 <= k < found.len(),
        frame == found[k].0 - 1 || frame == found[k].1,
    ensures
        !in_a_run(found, frame),
{
    if in_a_run(found, frame) {
        let other = choose|j: int|
            0 <= j < found.len() && (#[trigger] found[j]).0 <= frame < found[j].1;
        if k < other {
            assert(found[k].1 < found[other].0);
        } else if other < k {
            assert(found[other].1 < found[k].0);
        }
    }
}

/// Only short gaps are bridged: where one interval holds two runs that follow
/// each other, less than the merge gap lies between them.
pub proof fn only_short_gaps_are_bridged(
    scores: Seq<i64>,
    spacing: FrameSpacing,
    options: TrackOptions,
    i: int,
    k: int,
)
    requires
        spacing.reaches(scores.len() as int),
        options.merge_gap_seconds > 0,
        0 <= i < presence(scores, spacing, options).len(),
        0 <= k < spans_shown(scores, spacing, options).len() - 1,
        presence(scores, spacing, options)[i].start <= spans_shown(scores, spacing, options)[k].start,
        spans_shown(scores, spacing, options)[k + 1].end <= presence(scores, spacing, options)[i].end,
    ensures
        spans_shown(scores, spacing, options)[k + 1].start - spans_shown(
            scores,
            spacing,
            options,
        )[k].end < options.merge_gap_seconds,
{
    let spans = spans_shown(scores, spacing, options);
    let merged = joined(spans, options.merge_gap_seconds);
    filter_contents(merged, long_enough(options.minimum_seconds));
    shown_spans_are_in_order(scores, spacing, options);
    let interval = presence(scores, spacing, options)[i];
    assert(merged.contains(interval));
    let m = merged.index_of(interval);
    joining_bridges_only_short_gaps(
        spans,
        options.merge_gap_seconds,
        spacing.moment(scores.len() as int),
        m,
        k,
    );
}

} // verus!
