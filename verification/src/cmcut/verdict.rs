//! How far a plan as a whole is trusted, and what is done about it.

use vstd::prelude::*;
use vstd::string::*;
use vstd::arithmetic::div_mod::lemma_fundamental_div_mod;
use crate::analyze::Analysis;
use crate::cmcut::laws::exactly_the_programme_is_kept;
use crate::cmcut::laws::in_kind;
use crate::cmcut::laws::in_ranges;
use crate::cmcut::laws::segments_tile_the_recording;
use crate::cmcut::plan::commercial_count;
use crate::cmcut::plan::decision_for;
use crate::cmcut::plan::is_plan;
use crate::cmcut::plan::kept_length;
use crate::cmcut::plan::length_of_kind;
use crate::cmcut::plan::overall_confidence;
use crate::cmcut::plan::reason_for;
use crate::cmcut::plan::tiles;
use crate::cmcut::plan::weighed_confidence;
use crate::cmcut::plan::CutPlan;
use crate::cmcut::plan::Decision;
use crate::cmcut::plan::KeepRange;
use crate::cmcut::plan::LOGO_FREE_CONFIDENCE_CEILING;
use crate::cmcut::score::on_grid;
use crate::cmcut::score::CutOptions;
use crate::cmcut::score::LowConfidencePolicy;
use crate::cmcut::score::SegmentKind;
use crate::cmcut::solve::Segment;
use crate::cmcut::weighing::lengths_between_units_are_off_the_grid;
use crate::cmcut::weighing::whole_units_are_on_the_grid;
use crate::text::decimal_digits;
use crate::text::two_places;

verus! {

/// A plan that is trusted as much as was asked for is applied, whatever the
/// policy for those that are not; so is one with nothing to cut.
pub proof fn trusted_plans_are_applied(analysis: Analysis, options: CutOptions, plan: CutPlan)
    requires
        analysis.wf(),
        options.wf(),
        is_plan(analysis, options, plan),
        analysis.duration > 0,
        plan.confidence >= options.confidence_threshold || forall|i: int|
            0 <= i < plan.segments@.len() ==> (#[trigger] plan.segments@[i]).kind
                == SegmentKind::Programme,
    ensures
        plan.decision == Decision::Cut,
{
    crate::cmcut::boundary::candidates_reach_both_ends(analysis, options.boundaries);
    if forall|i: int|
        0 <= i < plan.segments@.len() ==> (#[trigger] plan.segments@[i]).kind
            == SegmentKind::Programme {
        no_commercials(plan.segments@);
    }
}

proof fn no_commercials(segments: Seq<Segment>)
    requires
        forall|i: int|
            0 <= i < segments.len() ==> (#[trigger] segments[i]).kind == SegmentKind::Programme,
    ensures
        commercial_count(segments) == 0,
        length_of_kind(segments, SegmentKind::Commercial) == 0,
        weighed_confidence(segments) == 0,
    decreases segments.len(),
{
    if segments.len() > 0 {
        let shorter = segments.drop_last();
        assert forall|i: int| 0 <= i < shorter.len() implies (#[trigger] shorter[i]).kind
            == SegmentKind::Programme by {
            assert(segments[i].kind == SegmentKind::Programme);
        }
        no_commercials(shorter);
        assert(segments[segments.len() - 1].kind == SegmentKind::Programme);
    }
}

/// Only a policy that says so cuts on doubtful evidence; every other keeps the
/// whole recording. More confidence never turns cutting into keeping.
pub proof fn doubt_keeps_the_recording(
    confidence: int,
    more: int,
    commercials: nat,
    options: CutOptions,
)
    requires
        commercials > 0,
        confidence <= more,
    ensures
        confidence < options.confidence_threshold && options.low_confidence
            != LowConfidencePolicy::Cut ==> decision_for(confidence, commercials, options)
            == Decision::KeepAll,
        options.low_confidence == LowConfidencePolicy::Cut ==> decision_for(
            confidence,
            commercials,
            options,
        ) == Decision::Cut,
        confidence >= options.confidence_threshold ==> decision_for(
            confidence,
            commercials,
            options,
        ) == Decision::Cut,
        decision_for(confidence, commercials, options) == Decision::Cut ==> decision_for(
            more,
            commercials,
            options,
        ) == Decision::Cut,
        decision_for(confidence, 0, options) == Decision::Cut,
{
}

/// What an applied plan keeps is exactly what it calls programme: every moment
/// of it, and no moment of a commercial.
pub proof fn applied_plans_keep_the_programme(
    analysis: Analysis,
    options: CutOptions,
    plan: CutPlan,
    at: int,
)
    requires
        analysis.wf(),
        options.wf(),
        analysis.duration > 0,
        is_plan(analysis, options, plan),
        plan.decision == Decision::Cut,
    ensures
        in_ranges(plan.keep@, at) <==> in_kind(plan.segments@, SegmentKind::Programme, at),
        in_kind(plan.segments@, SegmentKind::Commercial, at) ==> !in_ranges(plan.keep@, at),
        in_ranges(plan.keep@, at) ==> 0 <= at < analysis.duration,
{
    segments_tile_the_recording(analysis, options, plan);
    crate::cmcut::boundary::candidates_reach_both_ends(analysis, options.boundaries);
    let segments = plan.segments@;
    assert forall|i: int| 0 <= i < segments.len() implies (#[trigger] segments[i]).start
        <= segments[i].end by {
        assert(segments[i].start < segments[i].end);
    }
    exactly_the_programme_is_kept(segments, at);
    if in_kind(segments, SegmentKind::Commercial, at) && in_kind(
        segments,
        SegmentKind::Programme,
        at,
    ) {
        let i = choose|i: int|
            0 <= i < segments.len() && (#[trigger] segments[i]).kind == SegmentKind::Commercial
                && segments[i].start <= at < segments[i].end;
        let j = choose|j: int|
            0 <= j < segments.len() && (#[trigger] segments[j]).kind == SegmentKind::Programme
                && segments[j].start <= at < segments[j].end;
        if i < j {
            tiles_do_not_overlap(segments, 0, analysis.duration as int, i, j);
        } else {
            tiles_do_not_overlap(segments, 0, analysis.duration as int, j, i);
        }
    }
    if in_ranges(plan.keep@, at) {
        let j = choose|j: int|
            0 <= j < segments.len() && (#[trigger] segments[j]).kind == SegmentKind::Programme
                && segments[j].start <= at < segments[j].end;
        if j > 0 {
            tiles_do_not_overlap(segments, 0, analysis.duration as int, 0, j);
        }
        if j < segments.len() - 1 {
            tiles_do_not_overlap(segments, 0, analysis.duration as int, j, segments.len() - 1);
        }
    }
}

proof fn tiles_do_not_overlap(segments: Seq<Segment>, start: int, end: int, i: int, j: int)
    requires
        tiles(segments, start, end),
        0 <= i < j < segments.len(),
    ensures
        segments[i].end <= segments[j].start,
        segments[i].start < segments[i].end,
        segments[j].start < segments[j].end,
    decreases j - i,
{
    assert(crate::cmcut::plan::follows_on(segments, j));
    assert(segments[i].start < segments[i].end);
    assert(segments[j].start < segments[j].end);
    if i < j - 1 {
        tiles_do_not_overlap(segments, start, end, i, j - 1);
    }
}

/// With nothing to cut, a plan is trusted nine tenths under a logo and half
/// without one, however the programme is divided.
pub proof fn finding_nothing_is_trusted_under_a_logo(segments: Seq<Segment>)
    requires
        forall|i: int|
            0 <= i < segments.len() ==> (#[trigger] segments[i]).kind == SegmentKind::Programme,
    ensures
        overall_confidence(segments, true) == 900_000,
        overall_confidence(segments, false) == 500_000,
{
    reveal(overall_confidence);
    no_commercials(segments);
}

/// How far a plan is trusted rests on its commercials alone: another stretch of
/// programme, wherever it comes, changes nothing.
pub proof fn programmes_do_not_count(
    before: Seq<Segment>,
    programme: Segment,
    after: Seq<Segment>,
    logo_available: bool,
)
    requires
        programme.kind == SegmentKind::Programme,
    ensures
        overall_confidence(before.push(programme) + after, logo_available) == overall_confidence(
            before + after,
            logo_available,
        ),
{
    reveal(overall_confidence);
    sums_of_both(before, after);
    sums_of_both(before.push(programme), after);
    assert(before.push(programme).drop_last() =~= before);
}

proof fn sums_of_both(left: Seq<Segment>, right: Seq<Segment>)
    ensures
        commercial_count(left + right) == commercial_count(left) + commercial_count(right),
        length_of_kind(left + right, SegmentKind::Commercial) == length_of_kind(
            left,
            SegmentKind::Commercial,
        ) + length_of_kind(right, SegmentKind::Commercial),
        weighed_confidence(left + right) == weighed_confidence(left) + weighed_confidence(right),
    decreases right.len(),
{
    if right.len() > 0 {
        sums_of_both(left, right.drop_last());
        assert((left + right).drop_last() =~= left + right.drop_last());
        assert((left + right).last() == right.last());
    } else {
        assert(left + right =~= left);
    }
}

/// Commercials count by their length: one that is divided in two, each half as
/// trusted as the whole, counts as it did.
pub proof fn commercials_count_by_their_length(
    before: Seq<Segment>,
    whole: Segment,
    at: i64,
    after: Seq<Segment>,
    logo_available: bool,
)
    requires
        whole.kind == SegmentKind::Commercial,
    ensures
        overall_confidence(before.push(whole) + after, logo_available) == overall_confidence(
            before.push(Segment { end: at, ..whole }).push(Segment { start: at, ..whole }) + after,
            logo_available,
        ),
{
    reveal(overall_confidence);
    let (first, second) = (Segment { end: at, ..whole }, Segment { start: at, ..whole });
    let halves = before.push(first).push(second);
    sums_of_both(before.push(whole), after);
    sums_of_both(halves, after);
    assert(before.push(whole).drop_last() =~= before);
    assert(halves.drop_last() =~= before.push(first));
    assert(before.push(first).drop_last() =~= before);
    let trust = whole.confidence as int;
    assert(trust * (at - whole.start) + trust * (whole.end - at) == trust * (whole.end
        - whole.start)) by (nonlinear_arith);
    assert(weighed_confidence(before.push(whole)) == weighed_confidence(before) + trust * (
    whole.end - whole.start));
    assert(weighed_confidence(before.push(first)) == weighed_confidence(before) + trust * (at
        - whole.start));
    assert(length_of_kind(before.push(first), SegmentKind::Commercial) == length_of_kind(
        before,
        SegmentKind::Commercial,
    ) + (at - whole.start));
    assert(weighed_confidence(halves) == weighed_confidence(before) + trust * (at - whole.start)
        + trust * (whole.end - at));
    counts_are_positive(before, whole, after);
    counts_are_positive(before.push(first), second, after);
}

proof fn counts_are_positive(before: Seq<Segment>, one: Segment, after: Seq<Segment>)
    requires
        one.kind == SegmentKind::Commercial,
    ensures
        commercial_count(before.push(one) + after) >= 1,
{
    sums_of_both(before.push(one), after);
    assert(before.push(one).drop_last() =~= before);
}

/// A plan is trusted no less than the least trusted of its commercials and no
/// more than the most trusted, up to the ceiling that goes without a logo; with
/// one commercial, exactly as much as that one.
pub proof fn plans_are_trusted_like_their_commercials(
    segments: Seq<Segment>,
    low: int,
    high: int,
    logo_available: bool,
)
    requires
        forall|i: int|
            0 <= i < segments.len() && (#[trigger] segments[i]).kind == SegmentKind::Commercial
                ==> low <= segments[i].confidence <= high && segments[i].start < segments[i].end,
        exists|i: int|
            0 <= i < segments.len() && (#[trigger] segments[i]).kind == SegmentKind::Commercial,
    ensures
        logo_available ==> low <= overall_confidence(segments, true) <= high,
        !logo_available ==> overall_confidence(segments, false) == (if overall_confidence(
            segments,
            true,
        ) > LOGO_FREE_CONFIDENCE_CEILING {
            LOGO_FREE_CONFIDENCE_CEILING as int
        } else {
            overall_confidence(segments, true)
        }),
{
    reveal(overall_confidence);
    weights_lie_between(segments, low, high);
    let total = length_of_kind(segments, SegmentKind::Commercial);
    let weighed = weighed_confidence(segments);
    let mean = weighed / total;
    lemma_fundamental_div_mod(weighed, total);
    assert(low <= mean <= high) by (nonlinear_arith)
        requires
            total > 0,
            low * total <= weighed <= high * total,
            weighed == total * mean + weighed % total,
            0 <= weighed % total < total,
    ;
}

proof fn weights_lie_between(segments: Seq<Segment>, low: int, high: int)
    requires
        forall|i: int|
            0 <= i < segments.len() && (#[trigger] segments[i]).kind == SegmentKind::Commercial
                ==> low <= segments[i].confidence <= high && segments[i].start < segments[i].end,
    ensures
        low * length_of_kind(segments, SegmentKind::Commercial) <= weighed_confidence(segments)
            <= high * length_of_kind(segments, SegmentKind::Commercial),
        length_of_kind(segments, SegmentKind::Commercial) >= 0,
        (exists|i: int|
            0 <= i < segments.len() && (#[trigger] segments[i]).kind == SegmentKind::Commercial)
            ==> commercial_count(segments) > 0 && length_of_kind(
            segments,
            SegmentKind::Commercial,
        ) > 0,
    decreases segments.len(),
{
    if segments.len() > 0 {
        let shorter = segments.drop_last();
        let n = segments.len() - 1;
        let last = segments[n];
        assert forall|i: int|
            0 <= i < shorter.len() && (#[trigger] shorter[i]).kind
                == SegmentKind::Commercial implies low <= shorter[i].confidence <= high
            && shorter[i].start < shorter[i].end by {
            assert(segments[i].kind == SegmentKind::Commercial);
        }
        weights_lie_between(shorter, low, high);
        if last.kind == SegmentKind::Commercial {
            let length = last.end - last.start;
            let before = length_of_kind(shorter, SegmentKind::Commercial);
            let trust = last.confidence as int;
            assert(low * (before + length) == low * before + low * length) by (nonlinear_arith);
            assert(high * (before + length) == high * before + high * length)
                by (nonlinear_arith);
            assert(low * length <= trust * length <= high * length) by (nonlinear_arith)
                requires
                    low <= trust <= high,
                    length > 0,
            ;
        }
        if exists|i: int|
            0 <= i < segments.len() && (#[trigger] segments[i]).kind == SegmentKind::Commercial {
            let i = choose|i: int|
                0 <= i < segments.len() && (#[trigger] segments[i]).kind
                    == SegmentKind::Commercial;
            if i < n {
                assert(shorter[i].kind == SegmentKind::Commercial);
            }
        }
    } else {
        assert(low * 0 == 0 && high * 0 == 0) by (nonlinear_arith);
    }
}

/// What a plan removes is its commercials, and nothing where it is not applied;
/// it cuts something exactly where it removes something.
pub proof fn only_applied_plans_remove_anything(
    plan: CutPlan,
    removed: i128,
    found: i128,
    kept: i128,
    cuts: bool,
)
    requires
        call_ensures(CutPlan::removed_seconds, (&plan,), removed),
        call_ensures(CutPlan::cut_seconds, (&plan,), found),
        call_ensures(CutPlan::kept_seconds, (&plan,), kept),
        call_ensures(CutPlan::cuts_anything, (&plan,), cuts),
    ensures
        plan.decision == Decision::KeepAll ==> removed == 0 && !cuts,
        plan.decision == Decision::Cut ==> removed == found,
        cuts <==> removed > 0,
        kept == kept_length(plan.keep@),
{
}

/// Lengths and numbers of a kind add up, segment by segment.
pub proof fn lengths_add_up(segments: Seq<Segment>, next: Segment, kind: SegmentKind)
    ensures
        length_of_kind(Seq::empty(), kind) == 0,
        commercial_count(Seq::empty()) == 0,
        length_of_kind(segments.push(next), kind) == length_of_kind(segments, kind) + (if next.kind
            == kind {
            next.end - next.start
        } else {
            0
        }),
        commercial_count(segments.push(next)) == commercial_count(segments) + (if next.kind
            == SegmentKind::Commercial {
            1nat
        } else {
            0
        }),
{
    assert(segments.push(next).drop_last() =~= segments);
}

/// What is kept lasts as long as its ranges together.
pub proof fn kept_lengths_add_up(keep: Seq<KeepRange>, next: KeepRange)
    ensures
        kept_length(Seq::empty()) == 0,
        kept_length(keep.push(next)) == kept_length(keep) + next.end - next.start,
{
    assert(keep.push(next).drop_last() =~= keep);
}

/// Unless told otherwise the grid is of fifteen seconds: a break of a whole
/// number of them is on it, a third of a second either way, and one that is
/// seven seconds longer is not.
pub proof fn usual_breaks_are_on_the_grid(options: CutOptions, units: int, off: int)
    requires
        call_ensures(CutOptions::default, (), options),
        units >= 1,
        -350_000 <= off <= 350_000,
    ensures
        on_grid(units * 15_000_000 + off, options),
        !on_grid(units * 15_000_000 + 7_000_000, options),
{
    whole_units_are_on_the_grid(units, off, options);
    lengths_between_units_are_off_the_grid(units, 7_000_000, options);
}

/// The reason given says what was decided: how many commercials were found where
/// they are cut with confidence, that there were none where there were none, and
/// what was doubted where it was doubted.
pub proof fn reasons_say_what_was_decided(
    confidence: int,
    commercials: nat,
    logo_available: bool,
    options: CutOptions,
)
    ensures
        ({
            let reason = reason_for(confidence, commercials, logo_available, options);
            &&& commercials == 0 ==> reason == "no commercial blocks found; nothing to cut"@
            &&& commercials > 0 && confidence >= options.confidence_threshold ==> reason
                == decimal_digits(commercials) + " commercial blocks, confidence "@ + two_places(
                confidence,
            )
            &&& commercials > 0 && confidence < options.confidence_threshold && !logo_available
                ==> exists|rest: Seq<char>|
                reason == #[trigger] ("no logo was found, and confidence "@ + rest)
            &&& commercials > 0 && confidence < options.confidence_threshold && logo_available
                ==> exists|rest: Seq<char>| reason == #[trigger] ("confidence "@ + rest)
        }),
{
    let reason = reason_for(confidence, commercials, logo_available, options);
    if commercials > 0 && confidence < options.confidence_threshold {
        let head = if logo_available {
            "confidence "@
        } else {
            "no logo was found, and confidence "@
        };
        let rest = reason.skip(head.len() as int);
        assert(reason =~= head + rest);
    }
}

} // verus!
