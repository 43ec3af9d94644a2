//! What holds of every cut plan.

use vstd::prelude::*;
use crate::analyze::Analysis;
use crate::cmcut::boundary::candidates_lie_within_the_recording;
use crate::cmcut::boundary::candidates_reach_both_ends;
use crate::cmcut::boundary::candidate_set;
use crate::cmcut::plan::commercial_count;
use crate::cmcut::plan::evidence_in;
use crate::cmcut::plan::follows_on;
use crate::cmcut::plan::forward_length;
use crate::cmcut::plan::is_plan;
use crate::cmcut::plan::kept_length;
use crate::cmcut::plan::kept_ranges;
use crate::cmcut::plan::length_of_kind;
use crate::cmcut::plan::overall_confidence;
use crate::cmcut::plan::solution_shape;
use crate::cmcut::plan::tiles;
use crate::cmcut::plan::CutPlan;
use crate::cmcut::plan::Decision;
use crate::cmcut::plan::KeepRange;
use crate::cmcut::plan::LOGO_FREE_CONFIDENCE_CEILING;
use crate::cmcut::score::CutOptions;
use crate::cmcut::score::LowConfidencePolicy;
use crate::cmcut::score::SegmentKind;
use crate::cmcut::solve::logo_before;
use crate::cmcut::solve::Evidence;
use crate::cmcut::solve::Segment;
use crate::analyze::logo::track::LogoInterval;

verus! {

/// The chosen segmentation is the best there is: no way of dividing the
/// recording at the candidate boundaries into alternating programme and
/// commercial, ending in either, scores higher.
pub proof fn chosen_segmentation_is_optimal(
    e: Evidence,
    path: Seq<int>,
    kind: SegmentKind,
    other: Seq<int>,
    other_kind: SegmentKind,
)
    requires
        e.is_chosen(path, kind),
        e.is_path(other, e.boundaries.len() - 1),
    ensures
        e.path_score(other, other_kind) <= e.path_score(path, kind),
{
    if other_kind == kind {
        let m = path.len() - 2;
        assert(e.is_best(path.take(m + 2), e.kind_along(path, kind, m)));
        assert(path.take(m + 2) =~= path);
        reveal(Evidence::is_best);
    }
}

/// There is only one segmentation to choose.
pub proof fn chosen_segmentation_is_unique(
    e: Evidence,
    left: Seq<int>,
    left_kind: SegmentKind,
    right: Seq<int>,
    right_kind: SegmentKind,
)
    requires
        e.is_chosen(left, left_kind),
        e.is_chosen(right, right_kind),
    ensures
        left == right,
        left_kind == right_kind,
{
    chosen_segmentation_is_optimal(e, left, left_kind, right, right_kind);
    chosen_segmentation_is_optimal(e, right, right_kind, left, left_kind);
    assert(left_kind == right_kind);
    best_all_along_is_unique(e, left, right, left_kind);
}

proof fn best_all_along_is_unique(
    e: Evidence,
    left: Seq<int>,
    right: Seq<int>,
    kind: SegmentKind,
)
    requires
        e.is_path(left, left.last()),
        e.is_path(right, left.last()),
        forall|m: int|
            0 <= m < left.len() - 1 ==> e.is_best(
                left.take(m + 2),
                #[trigger] e.kind_along(left, kind, m),
            ),
        forall|m: int|
            0 <= m < right.len() - 1 ==> e.is_best(
                right.take(m + 2),
                #[trigger] e.kind_along(right, kind, m),
            ),
    ensures
        left == right,
    decreases left.len(),
{
    let l = left.len() - 2;
    let r = right.len() - 2;
    assert(e.is_best(left.take(l + 2), e.kind_along(left, kind, l)));
    assert(e.is_best(right.take(r + 2), e.kind_along(right, kind, r)));
    assert(left.take(l + 2) =~= left);
    assert(right.take(r + 2) =~= right);
    assert(left[l] == right[r]) by {
        reveal(Evidence::is_best);
        assert(e.is_path(right, left.last()));
        assert(e.is_path(left, right.last()));
    }
    assert(e.steps(left, l));
    assert(e.steps(right, r));
    if l == 0 || r == 0 {
        // Only the first boundary of a path is boundary zero.
        if l > 0 {
            assert(e.steps(left, l - 1));
        }
        if r > 0 {
            assert(e.steps(right, r - 1));
        }
        assert(left =~= right);
    } else {
        let before_left = left.drop_last();
        let before_right = right.drop_last();
        assert forall|m: int| 0 <= m < before_left.len() - 1 implies #[trigger] e.steps(
            before_left,
            m,
        ) by {
            assert(e.steps(left, m));
        }
        assert forall|m: int| 0 <= m < before_right.len() - 1 implies #[trigger] e.steps(
            before_right,
            m,
        ) by {
            assert(e.steps(right, m));
        }
        assert forall|m: int| 0 <= m < before_left.len() - 1 implies e.is_best(
            before_left.take(m + 2),
            #[trigger] e.kind_along(before_left, kind.spec_other(), m),
        ) by {
            assert(e.is_best(left.take(m + 2), e.kind_along(left, kind, m)));
            assert(left.take(m + 2) =~= before_left.take(m + 2));
            e.kinds_alternate(left, kind, m);
        }
        assert forall|m: int| 0 <= m < before_right.len() - 1 implies e.is_best(
            before_right.take(m + 2),
            #[trigger] e.kind_along(before_right, kind.spec_other(), m),
        ) by {
            assert(e.is_best(right.take(m + 2), e.kind_along(right, kind, m)));
            assert(right.take(m + 2) =~= before_right.take(m + 2));
            e.kinds_alternate(right, kind, m);
        }
        best_all_along_is_unique(e, before_left, before_right, kind.spec_other());
        assert(left =~= before_left.push(left.last()));
        assert(right =~= before_right.push(right.last()));
    }
}

/// The sums of logo presence stay within what the segmenter can add up.
proof fn logo_before_in_reach(intervals: Seq<LogoInterval>, at: int)
    requires
        forall|i: int| 0 <= i < intervals.len() ==> (#[trigger] intervals[i]).in_time(),
        -1_000_000_000_000_000 <= at <= 1_000_000_000_000_000,
    ensures
        0 <= logo_before(intervals, at) <= intervals.len() * 2_000_000_000_000_000,
    decreases intervals.len(),
{
    if intervals.len() > 0 {
        let shorter = intervals.drop_last();
        assert forall|i: int| 0 <= i < shorter.len() implies (#[trigger] shorter[i]).in_time() by {
            assert(intervals[i].in_time());
        }
        logo_before_in_reach(shorter, at);
        assert(intervals[intervals.len() - 1].in_time());
    }
}

proof fn evidence_is_sound(analysis: Analysis, options: CutOptions)
    requires
        analysis.wf(),
        options.wf(),
    ensures
        evidence_in(analysis, options, candidate_set(analysis, options.boundaries)).wf(),
{
    let found = candidate_set(analysis, options.boundaries);
    candidates_lie_within_the_recording(analysis, options.boundaries);
    crate::cmcut::boundary::chosen_count_is_bounded(analysis, options.boundaries);
    let e = evidence_in(analysis, options, found);
    assert forall|i: int| 0 <= i < e.coverage.len() implies 0 <= #[trigger] e.coverage[i]
        <= 0x1_0000_0000 * 2 * crate::analyze::TIME_LIMIT by {
        assert(0 <= found[i].at <= analysis.duration);
        logo_before_in_reach(analysis.logo_intervals@, found[i].at as int);
    }
}

/// Segments tile the whole recording without gaps: from its beginning to its
/// end, each segment starting where the one before it ends, and adjacent
/// segments alternating between programme and commercial.
pub proof fn segments_tile_the_recording(analysis: Analysis, options: CutOptions, plan: CutPlan)
    requires
        analysis.wf(),
        options.wf(),
        analysis.duration > 0,
        is_plan(analysis, options, plan),
    ensures
        tiles(plan.segments@, 0, analysis.duration as int),
{
    let found = candidate_set(analysis, options.boundaries);
    candidates_reach_both_ends(analysis, options.boundaries);
    evidence_is_sound(analysis, options);
    solution_shape(evidence_in(analysis, options, found), plan.segments@);
}

/// What is kept is as long as the programme.
proof fn kept_is_programme(segments: Seq<Segment>)
    ensures
        kept_length(kept_ranges(segments)) == length_of_kind(segments, SegmentKind::Programme),
    decreases segments.len(),
{
    if segments.len() > 0 {
        kept_is_programme(segments.drop_last());
        let keep = kept_ranges(segments.drop_last());
        let next = segments.last();
        if next.kind == SegmentKind::Programme {
            if keep.len() > 0 && keep.last().end == next.start {
                let joined = KeepRange { start: keep.last().start, end: next.end };
                assert(keep.drop_last().push(joined).drop_last() =~= keep.drop_last());
            } else {
                let fresh = KeepRange { start: next.start, end: next.end };
                assert(keep.push(fresh).drop_last() =~= keep);
            }
        }
    }
}

proof fn kinds_add_up(segments: Seq<Segment>, start: int, end: int)
    requires
        tiles(segments, start, end),
    ensures
        length_of_kind(segments, SegmentKind::Programme) + length_of_kind(
            segments,
            SegmentKind::Commercial,
        ) == end - start,
    decreases segments.len(),
{
    let shorter = segments.drop_last();
    let n = segments.len() - 1;
    if n > 0 {
        assert(follows_on(segments, n));
        assert forall|i: int| 1 <= i < shorter.len() implies #[trigger] follows_on(shorter, i) by {
            assert(follows_on(segments, i));
        }
        assert forall|i: int| 0 <= i < shorter.len() implies (#[trigger] shorter[i]).start
            < shorter[i].end by {
            assert(segments[i].start < segments[i].end);
        }
        kinds_add_up(shorter, start, segments[n].start as int);
    } else {
        assert(length_of_kind(shorter, SegmentKind::Programme) == 0);
        assert(length_of_kind(shorter, SegmentKind::Commercial) == 0);
    }
}

/// What is kept and what is cut add up to the whole recording.
pub proof fn kept_and_cut_add_up(analysis: Analysis, options: CutOptions, plan: CutPlan)
    requires
        analysis.wf(),
        options.wf(),
        analysis.duration > 0,
        is_plan(analysis, options, plan),
        plan.decision == Decision::Cut,
    ensures
        kept_length(plan.keep@) + length_of_kind(plan.segments@, SegmentKind::Commercial)
            == analysis.duration,
{
    segments_tile_the_recording(analysis, options, plan);
    kept_is_programme(plan.segments@);
    kinds_add_up(plan.segments@, 0, analysis.duration as int);
}

proof fn forward_ranges(keep: Seq<KeepRange>)
    requires
        forall|i: int| 0 <= i < keep.len() ==> (#[trigger] keep[i]).start <= keep[i].end,
    ensures
        forward_length(keep) == kept_length(keep),
    decreases keep.len(),
{
    if keep.len() > 0 {
        let shorter = keep.drop_last();
        assert forall|i: int| 0 <= i < shorter.len() implies (#[trigger] shorter[i]).start
            <= shorter[i].end by {
            assert(keep[i].start <= keep[i].end);
        }
        forward_ranges(shorter);
        assert(keep[keep.len() - 1].start <= keep[keep.len() - 1].end);
    }
}

proof fn lengths_are_not_negative(segments: Seq<Segment>, kind: SegmentKind)
    requires
        forall|i: int| 0 <= i < segments.len() ==> (#[trigger] segments[i]).start <= segments[i].end,
    ensures
        length_of_kind(segments, kind) >= 0,
    decreases segments.len(),
{
    if segments.len() > 0 {
        let shorter = segments.drop_last();
        assert forall|i: int| 0 <= i < shorter.len() implies (#[trigger] shorter[i]).start
            <= shorter[i].end by {
            assert(segments[i].start <= segments[i].end);
        }
        lengths_are_not_negative(shorter, kind);
        assert(segments[segments.len() - 1].start <= segments[segments.len() - 1].end);
    }
}

/// What is kept of a tiled stretch is no longer than the stretch.
pub proof fn kept_time_is_bounded(segments: Seq<Segment>, start: int, end: int)
    requires
        tiles(segments, start, end),
    ensures
        forward_length(kept_ranges(segments)) <= end - start,
{
    assert forall|i: int| 0 <= i < segments.len() implies (#[trigger] segments[i]).start
        <= segments[i].end by {
        assert(segments[i].start < segments[i].end);
    }
    exactly_the_programme_is_kept(segments, 0);
    forward_ranges(kept_ranges(segments));
    kept_is_programme(segments);
    kinds_add_up(segments, start, end);
    lengths_are_not_negative(segments, SegmentKind::Commercial);
}

/// A moment lies in one of the ranges.
pub open spec fn in_ranges(keep: Seq<KeepRange>, at: int) -> bool {
    exists|i: int| 0 <= i < keep.len() && (#[trigger] keep[i]).start <= at < keep[i].end
}

/// A moment lies in a segment of this kind.
pub open spec fn in_kind(segments: Seq<Segment>, kind: SegmentKind, at: int) -> bool {
    exists|i: int|
        0 <= i < segments.len() && (#[trigger] segments[i]).kind == kind && segments[i].start <= at
            < segments[i].end
}

/// Merging ranges loses no programme and keeps no commercial: a moment is
/// kept exactly when it lies in a programme segment.
pub proof fn exactly_the_programme_is_kept(segments: Seq<Segment>, at: int)
    requires
        forall|i: int| 0 <= i < segments.len() ==> (#[trigger] segments[i]).start <= segments[i].end,
    ensures
        in_ranges(kept_ranges(segments), at) <==> in_kind(segments, SegmentKind::Programme, at),
        forall|i: int|
            0 <= i < kept_ranges(segments).len() ==> (#[trigger] kept_ranges(segments)[i]).start
                <= kept_ranges(segments)[i].end,
    decreases segments.len(),
{
    if segments.len() > 0 {
        let shorter = segments.drop_last();
        assert forall|i: int| 0 <= i < shorter.len() implies (#[trigger] shorter[i]).start
            <= shorter[i].end by {
            assert(segments[i].start <= segments[i].end);
        }
        exactly_the_programme_is_kept(shorter, at);
        let before = kept_ranges(shorter);
        let after = kept_ranges(segments);
        let n = segments.len() - 1;
        let next = segments[n];
        assert(next.start <= next.end);
        let joins = next.kind == SegmentKind::Programme && before.len() > 0 && before.last().end
            == next.start;
        if before.len() > 0 {
            assert(before[before.len() - 1].start <= before[before.len() - 1].end);
        }
        assert forall|i: int| 0 <= i < after.len() implies (#[trigger] after[i]).start
            <= after[i].end by {
            if i < before.len() {
                assert(before[i].start <= before[i].end);
            }
        }
        if in_ranges(after, at) {
            let i = choose|i: int|
                0 <= i < after.len() && (#[trigger] after[i]).start <= at < after[i].end;
            if i < before.len() && before[i].start <= at < before[i].end {
                assert(in_ranges(before, at));
                let k = choose|k: int|
                    0 <= k < shorter.len() && (#[trigger] shorter[k]).kind
                        == SegmentKind::Programme && shorter[k].start <= at < shorter[k].end;
                assert(segments[k].kind == SegmentKind::Programme);
            } else {
                assert(segments[n].kind == SegmentKind::Programme);
                assert(segments[n].start <= at < segments[n].end);
            }
        }
        if in_kind(segments, SegmentKind::Programme, at) {
            let k = choose|k: int|
                0 <= k < segments.len() && (#[trigger] segments[k]).kind == SegmentKind::Programme
                    && segments[k].start <= at < segments[k].end;
            if k < n {
                assert(shorter[k].kind == SegmentKind::Programme);
                assert(in_ranges(before, at));
                let i = choose|i: int|
                    0 <= i < before.len() && (#[trigger] before[i]).start <= at < before[i].end;
                assert(after[i].start <= at < after[i].end);
            } else {
                let i = after.len() - 1;
                assert(after[i].start <= at < after[i].end);
            }
        }
    }
}

/// A plan that keeps everything keeps the whole recording in one piece.
pub proof fn keeping_everything_keeps_everything(
    analysis: Analysis,
    options: CutOptions,
    plan: CutPlan,
)
    requires
        is_plan(analysis, options, plan),
        plan.decision == Decision::KeepAll,
    ensures
        plan.keep@ == seq![KeepRange { start: 0, end: analysis.duration }],
        kept_length(plan.keep@) == analysis.duration,
{
    assert(plan.keep@.drop_last() =~= Seq::empty());
    assert(kept_length(plan.keep@.drop_last()) == 0);
}

/// With no logo behind it, no plan claims more than the ceiling.
pub proof fn logo_free_confidence_is_capped(analysis: Analysis, options: CutOptions, plan: CutPlan)
    requires
        is_plan(analysis, options, plan),
        !analysis.spec_has_logo(),
    ensures
        plan.confidence <= LOGO_FREE_CONFIDENCE_CEILING,
{
    reveal(overall_confidence);
}

/// A low-confidence plan changes nothing unless it was configured to: below
/// the threshold, something is cut only under the policy that says so.
pub proof fn doubtful_plans_are_not_applied(
    analysis: Analysis,
    options: CutOptions,
    plan: CutPlan,
)
    requires
        is_plan(analysis, options, plan),
        plan.confidence < options.confidence_threshold,
        options.low_confidence != LowConfidencePolicy::Cut,
    ensures
        plan.decision == Decision::KeepAll || commercial_count(plan.segments@) == 0,
{
}

/// Without a logo nothing is cut on the segmenter's own account: with the
/// threshold above the ceiling, a plan that found commercials keeps the whole
/// recording unless the policy is to cut anyway.
pub proof fn without_a_logo_nothing_is_cut(
    analysis: Analysis,
    options: CutOptions,
    plan: CutPlan,
)
    requires
        is_plan(analysis, options, plan),
        !analysis.spec_has_logo(),
        options.confidence_threshold > LOGO_FREE_CONFIDENCE_CEILING,
        options.low_confidence != LowConfidencePolicy::Cut,
    ensures
        plan.decision == Decision::KeepAll || commercial_count(plan.segments@) == 0,
{
    logo_free_confidence_is_capped(analysis, options, plan);
}

/// Cutting anyway is always cutting: under that policy the plan for any
/// recording of some length is applied.
pub proof fn the_cut_policy_always_cuts(
    analysis: Analysis,
    options: CutOptions,
    plan: CutPlan,
)
    requires
        analysis.wf(),
        is_plan(analysis, options, plan),
        options.low_confidence == LowConfidencePolicy::Cut,
        analysis.duration > 0,
    ensures
        plan.decision == Decision::Cut,
{
    candidates_reach_both_ends(analysis, options.boundaries);
}

} // verus!
