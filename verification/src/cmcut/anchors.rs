//! What holds of the candidate boundaries, in terms of what was seen and heard.

use vstd::prelude::*;
use crate::analyze::logo::track::LogoInterval;
use crate::analyze::scene::SceneChange;
use crate::analyze::Analysis;
use crate::analyze::SilentSpan;
use crate::cmcut::boundary::ascending;
use crate::cmcut::boundary::backing;
use crate::cmcut::boundary::by_position;
use crate::cmcut::boundary::by_strength;
use crate::cmcut::boundary::candidate_set;
use crate::cmcut::boundary::candidate_set_facts;
use crate::cmcut::boundary::carries;
use crate::cmcut::boundary::chosen_changes;
use crate::cmcut::boundary::chosen_changes_are_changes;
use crate::cmcut::boundary::clear_of_ends;
use crate::cmcut::boundary::coalesced;
use crate::cmcut::boundary::coalescing;
use crate::cmcut::boundary::inner_candidates;
use crate::cmcut::boundary::is_supported;
use crate::cmcut::boundary::logo_candidate;
use crate::cmcut::boundary::logo_candidates;
use crate::cmcut::boundary::merged_candidates;
use crate::cmcut::boundary::near_end;
use crate::cmcut::boundary::near_start;
use crate::cmcut::boundary::near_transition;
use crate::cmcut::boundary::raw_candidates;
use crate::cmcut::boundary::scene_candidate;
use crate::cmcut::boundary::shorter_ascends;
use crate::cmcut::boundary::silence_candidate;
use crate::cmcut::boundary::silent_near;
use crate::cmcut::boundary::sorted_inside;
use crate::cmcut::boundary::supported;
use crate::cmcut::boundary::supported_changes;
use crate::cmcut::boundary::supported_cuts_survive;
use crate::cmcut::boundary::transitions_and_silences_survive;
use crate::cmcut::boundary::unsupported;
use crate::cmcut::boundary::unsupported_changes;
use crate::cmcut::boundary::Boundary;
use crate::cmcut::boundary::BoundaryOptions;
use crate::order::is_stable_order;
use crate::order::ranking;
use crate::order::stable_order_exists;
use crate::seqs::filter_contents;
use crate::seqs::filter_splits;

verus! {

/// A cut in the picture that falls in a silence, or no further from one than the
/// silence window, is a candidate, as a cut and as a silence, and as strong.
pub proof fn cuts_in_silence_are_candidates(
    analysis: Analysis,
    options: BoundaryOptions,
    change: SceneChange,
    span: SilentSpan,
)
    requires
        analysis.wf(),
        options.wf(),
        options.merge_window >= 0,
        analysis.scene_changes@.contains(change),
        analysis.silent_spans@.contains(span),
        span.start <= change.at + options.silence_window,
        change.at - options.silence_window <= span.end,
        0 <= change.at <= analysis.duration,
    ensures
        exists|m: int|
            0 <= m < candidate_set(analysis, options).len() && (#[trigger] candidate_set(
                analysis,
                options,
            )[m]).scene_change && candidate_set(analysis, options)[m].silence && candidate_set(
                analysis,
                options,
            )[m].strength >= change.strength && -options.merge_window <= candidate_set(
                analysis,
                options,
            )[m].at - change.at <= options.merge_window,
{
    let i = analysis.silent_spans@.index_of(span);
    assert(analysis.silent_spans@[i] == span);
    assert(silent_near(
        analysis.silent_spans@,
        change.at as int,
        options.silence_window as int,
    ));
    supported_cuts_survive(analysis, options, change);
    let m = choose|m: int|
        0 <= m < candidate_set(analysis, options).len() && carries(
            #[trigger] candidate_set(analysis, options)[m],
            scene_candidate(analysis, options, change),
            options.merge_window as int,
        );
    assert(candidate_set(analysis, options)[m].scene_change);
}

/// So is a cut no further than that window from where the logo appears or goes.
pub proof fn cuts_at_the_logo_are_candidates(
    analysis: Analysis,
    options: BoundaryOptions,
    change: SceneChange,
    interval: LogoInterval,
)
    requires
        analysis.wf(),
        options.wf(),
        options.merge_window >= 0,
        analysis.scene_changes@.contains(change),
        analysis.logo_intervals@.contains(interval),
        -options.silence_window <= interval.start - change.at <= options.silence_window
            || -options.silence_window <= interval.end - change.at <= options.silence_window,
        0 <= change.at <= analysis.duration,
    ensures
        exists|m: int|
            0 <= m < candidate_set(analysis, options).len() && (#[trigger] candidate_set(
                analysis,
                options,
            )[m]).scene_change && candidate_set(analysis, options)[m].strength >= change.strength
                && -options.merge_window <= candidate_set(analysis, options)[m].at - change.at
                <= options.merge_window,
{
    let i = analysis.logo_intervals@.index_of(interval);
    assert(analysis.logo_intervals@[i] == interval);
    assert(near_transition(
        analysis.logo_intervals@,
        change.at as int,
        options.silence_window as int,
    ));
    supported_cuts_survive(analysis, options, change);
    let m = choose|m: int|
        0 <= m < candidate_set(analysis, options).len() && carries(
            #[trigger] candidate_set(analysis, options)[m],
            scene_candidate(analysis, options, change),
            options.merge_window as int,
        );
    assert(candidate_set(analysis, options)[m].scene_change);
}

/// Where the logo appears or goes there is a candidate, as a transition of the
/// logo.
pub proof fn logo_edges_are_candidates(
    analysis: Analysis,
    options: BoundaryOptions,
    interval: LogoInterval,
    at: i64,
)
    requires
        analysis.wf(),
        options.wf(),
        options.merge_window >= 0,
        analysis.logo_intervals@.contains(interval),
        at == interval.start || at == interval.end,
        0 <= at <= analysis.duration,
    ensures
        exists|m: int|
            0 <= m < candidate_set(analysis, options).len() && (#[trigger] candidate_set(
                analysis,
                options,
            )[m]).logo_transition && -options.merge_window <= candidate_set(
                analysis,
                options,
            )[m].at - at <= options.merge_window,
{
    let all = logo_candidates(analysis.logo_intervals@);
    let i = analysis.logo_intervals@.index_of(interval);
    let seen = logo_candidate(at);
    assert(all[2 * i] == logo_candidate(interval.start));
    assert(all[2 * i + 1] == logo_candidate(interval.end));
    assert(all.contains(seen));
    transitions_and_silences_survive(analysis, options, seen);
    let m = choose|m: int|
        0 <= m < candidate_set(analysis, options).len() && carries(
            #[trigger] candidate_set(analysis, options)[m],
            seen,
            options.merge_window as int,
        );
    assert(candidate_set(analysis, options)[m].logo_transition);
}

/// In the middle of every silence there is a candidate, as a silence.
pub proof fn silences_are_candidates(
    analysis: Analysis,
    options: BoundaryOptions,
    span: SilentSpan,
    middle: int,
)
    requires
        analysis.wf(),
        options.wf(),
        options.merge_window >= 0,
        analysis.silent_spans@.contains(span),
        middle - span.start <= span.end - middle <= middle - span.start + 1,
        0 <= middle <= analysis.duration,
    ensures
        exists|m: int|
            0 <= m < candidate_set(analysis, options).len() && (#[trigger] candidate_set(
                analysis,
                options,
            )[m]).silence && -options.merge_window <= candidate_set(analysis, options)[m].at
                - middle <= options.merge_window,
{
    let all = analysis.silent_spans@.map_values(|span: SilentSpan| silence_candidate(span));
    let i = analysis.silent_spans@.index_of(span);
    assert(analysis.silent_spans@[i].in_time());
    let seen = silence_candidate(span);
    assert(all[i] == seen);
    assert(seen.at == middle);
    transitions_and_silences_survive(analysis, options, seen);
    let m = choose|m: int|
        0 <= m < candidate_set(analysis, options).len() && carries(
            #[trigger] candidate_set(analysis, options)[m],
            seen,
            options.merge_window as int,
        );
    assert(candidate_set(analysis, options)[m].silence);
}

/// A cut with nothing to back it up is there when there is room for all of them.
pub proof fn lone_cuts_are_candidates_while_there_is_room(
    analysis: Analysis,
    options: BoundaryOptions,
    change: SceneChange,
)
    requires
        analysis.wf(),
        options.wf(),
        options.merge_window >= 0,
        analysis.scene_changes@.contains(change),
        analysis.scene_changes@.len() <= options.max_scene_candidates,
        0 <= change.at <= analysis.duration,
    ensures
        exists|m: int|
            0 <= m < candidate_set(analysis, options).len() && (#[trigger] candidate_set(
                analysis,
                options,
            )[m]).scene_change && candidate_set(analysis, options)[m].strength >= change.strength
                && -options.merge_window <= candidate_set(analysis, options)[m].at - change.at
                <= options.merge_window,
{
    let found = candidate_set(analysis, options);
    chosen_changes_are_changes(analysis, options);
    let chosen = chosen_changes(analysis, options);
    let raw = raw_candidates(analysis, options, chosen);
    candidate_set_facts(raw, options.merge_window, analysis.duration);
    let all = analysis.scene_changes@;
    let with = supported_changes(analysis, options);
    let without = unsupported_changes(analysis, options);
    filter_contents(all, supported(analysis, options));
    filter_contents(all, unsupported(analysis, options));
    filter_splits(all, supported(analysis, options), unsupported(analysis, options));
    let i = all.index_of(change);
    let q = if is_supported(analysis, options, change) {
        assert(with.contains(all[i]));
        with.index_of(change)
    } else {
        assert(without.contains(all[i]));
        let keys = by_strength(without);
        stable_order_exists(keys);
        assert(is_stable_order(keys, ranking(keys)));
        let j = without.index_of(change);
        assert(ranking(keys).contains(j as usize));
        let place = ranking(keys).index_of(j as usize);
        assert(ranking(keys).take(without.len() as int)[place] == j as usize);
        with.len() + place
    };
    assert(chosen[q] == change);
    let k = 2 * analysis.logo_intervals@.len() + analysis.silent_spans@.len() + q;
    assert(raw[k] == scene_candidate(analysis, options, change));
    let m = choose|m: int|
        0 <= m < found.len() && carries(#[trigger] found[m], raw[k], options.merge_window as int);
    assert(candidate_set(analysis, options)[m].scene_change);
}

/// As many cuts are looked at as there are, up to the ceiling, and only what
/// backs a cut up takes their number beyond it.
pub proof fn the_ceiling_is_for_lone_cuts(analysis: Analysis, options: BoundaryOptions)
    requires
        analysis.wf(),
    ensures
        ({
            let all = analysis.scene_changes@.len();
            let backed = supported_changes(analysis, options).len();
            let looked_at = chosen_changes(analysis, options).len();
            let ceiling = options.max_scene_candidates;
            &&& all <= ceiling ==> looked_at == all
            &&& all > ceiling && backed <= ceiling ==> looked_at == ceiling
            &&& backed > ceiling ==> looked_at == backed
        }),
{
    chosen_changes_are_changes(analysis, options);
    filter_splits(
        analysis.scene_changes@,
        supported(analysis, options),
        unsupported(analysis, options),
    );
}

/// Of the cuts with nothing to back them up the strongest are looked at: none
/// that is passed over is stronger than one that is not.
pub proof fn the_strongest_lone_cuts_are_chosen(
    analysis: Analysis,
    options: BoundaryOptions,
    passed_over: SceneChange,
    k: int,
)
    requires
        analysis.wf(),
        analysis.scene_changes@.contains(passed_over),
        !chosen_changes(analysis, options).contains(passed_over),
        0 <= k < chosen_changes(analysis, options).len(),
        !is_supported(analysis, options, chosen_changes(analysis, options)[k]),
    ensures
        passed_over.strength <= chosen_changes(analysis, options)[k].strength,
        !is_supported(analysis, options, passed_over),
{
    let chosen = chosen_changes(analysis, options);
    let all = analysis.scene_changes@;
    let with = supported_changes(analysis, options);
    let without = unsupported_changes(analysis, options);
    filter_contents(all, supported(analysis, options));
    filter_contents(all, unsupported(analysis, options));
    let keys = by_strength(without);
    stable_order_exists(keys);
    let order = ranking(keys);
    assert(is_stable_order(keys, order));
    let i = all.index_of(passed_over);
    if is_supported(analysis, options, passed_over) {
        assert(with.contains(all[i]));
        let q = with.index_of(passed_over);
        assert(chosen[q] == passed_over);
    }
    assert(without.contains(all[i]));
    let j = without.index_of(passed_over);
    assert(order.contains(j as usize));
    let place = order.index_of(j as usize);
    let room = (chosen.len() - with.len()) as int;
    if k < with.len() {
        assert(chosen[k] == with[k]);
        assert(supported(analysis, options)(with[k]));
    }
    let picked = order.take(room);
    if place < room {
        assert(picked[place] == j as usize);
        assert(chosen[with.len() + place] == passed_over);
    }
    let here = k - with.len();
    assert(picked[here] == order[here]);
    assert(chosen[k] == without[order[here] as int]);
    assert(keys[order[here] as int] <= keys[order[place] as int]);
}

/// What a candidate can show.
pub enum Sign {
    /// The logo appears or goes.
    Logo,
    /// The picture cuts.
    Cut,
    /// The sound falls silent.
    Silence,
}

/// A candidate shows a sign.
pub open spec fn shows(boundary: Boundary, sign: Sign) -> bool {
    match sign {
        Sign::Logo => boundary.logo_transition,
        Sign::Cut => boundary.scene_change,
        Sign::Silence => boundary.silence,
    }
}

proof fn coalescing_makes_nothing_up(sorted: Seq<Boundary>, window: i64, m: int, sign: Sign) -> (k:
    int)
    requires
        window >= 0,
        ascending(sorted),
        0 <= m < coalesced(sorted, window).len(),
        shows(coalesced(sorted, window)[m], sign),
    ensures
        0 <= k < sorted.len(),
        shows(sorted[k], sign),
        -window <= coalesced(sorted, window)[m].at - sorted[k].at <= window,
        sign == Sign::Cut ==> coalesced(sorted, window)[m].at == sorted[k].at,
        !coalesced(sorted, window)[m].scene_change ==> coalesced(sorted, window)[m].at
            <= sorted[k].at,
    decreases sorted.len(),
{
    let shorter = sorted.drop_last();
    let before = coalesced(shorter, window);
    let now = coalesced(sorted, window);
    let next = sorted.last();
    shorter_ascends(sorted);
    coalescing(shorter, window);
    if before.len() > 0 {
        assert(before.last().at <= shorter.last().at);
        assert(shorter.last() == sorted[sorted.len() - 2]);
    }
    if m < before.len() - 1 {
        assert(now[m] == before[m]);
        let k = coalescing_makes_nothing_up(shorter, window, m, sign);
        assert(shorter[k] == sorted[k]);
        k
    } else if before.len() > 0 && next.at - before.last().at <= window {
        let own = before.last();
        assert(now[m] == own.absorbed(next));
        if sign == Sign::Cut && !own.scene_change {
            sorted.len() - 1
        } else if shows(own, sign) {
            let k = coalescing_makes_nothing_up(shorter, window, m, sign);
            assert(shorter[k] == sorted[k]);
            assert(sorted[k].at <= next.at);
            k
        } else {
            sorted.len() - 1
        }
    } else if m < before.len() {
        assert(now[m] == before[m]);
        let k = coalescing_makes_nothing_up(shorter, window, m, sign);
        assert(shorter[k] == sorted[k]);
        k
    } else {
        sorted.len() - 1
    }
}

proof fn backing_makes_nothing_up(bare: Boundary, near: Seq<Boundary>, sign: Sign) -> (k: int)
    requires
        shows(bare.backed_by(near), sign),
        !shows(bare, sign),
    ensures
        0 <= k < near.len(),
        shows(near[k], sign),
    decreases near.len(),
{
    if shows(near.last(), sign) {
        near.len() - 1
    } else {
        let k = backing_makes_nothing_up(bare, near.drop_last(), sign);
        assert(near.drop_last()[k] == near[k]);
        k
    }
}

proof fn merging_makes_nothing_up(
    raw: Seq<Boundary>,
    window: i64,
    duration: i64,
    m: int,
    sign: Sign,
) -> (k: int)
    requires
        raw.len() <= usize::MAX,
        window >= 0,
        0 <= m < merged_candidates(raw, window, duration).len(),
        shows(merged_candidates(raw, window, duration)[m], sign),
    ensures
        0 <= k < raw.len(),
        shows(raw[k], sign),
        -window <= merged_candidates(raw, window, duration)[m].at - raw[k].at <= window,
        sign == Sign::Cut && 0 < merged_candidates(raw, window, duration)[m].at < duration
            ==> merged_candidates(raw, window, duration)[m].at == raw[k].at,
{
    let found = merged_candidates(raw, window, duration);
    let inner = inner_candidates(raw, window, duration);
    let inside = raw.filter(clear_of_ends(window, duration));
    let first = raw.filter(near_start(window, duration));
    let last = raw.filter(near_end(window, duration));
    filter_contents(raw, clear_of_ends(window, duration));
    filter_contents(raw, near_start(window, duration));
    filter_contents(raw, near_end(window, duration));
    backing(Boundary::spec_bare(0), first);
    backing(Boundary::spec_bare(duration), last);
    let seen = if m == 0 {
        let q = backing_makes_nothing_up(Boundary::spec_bare(0), first, sign);
        assert(near_start(window, duration)(first[q]));
        assert(raw.contains(first[q]));
        first[q]
    } else if m <= inner.len() {
        stable_order_exists(by_position(inside));
        let order = ranking(by_position(inside));
        sorted_inside(inside, order, duration);
        let sorted = order.map_values(|i: usize| inside[i as int]);
        assert(found[m] == inner[m - 1]);
        let p = coalescing_makes_nothing_up(sorted, window, m - 1, sign);
        assert(sorted[p] == inside[order[p] as int]);
        assert(raw.contains(inside[order[p] as int]));
        sorted[p]
    } else {
        let q = backing_makes_nothing_up(Boundary::spec_bare(duration), last, sign);
        assert(near_end(window, duration)(last[q]));
        assert(raw.contains(last[q]));
        last[q]
    };
    raw.index_of(seen)
}

/// A candidate is a transition of the logo only where the logo appears or goes
/// within the merge window of it.
pub proof fn logo_candidates_rest_on_the_logo(
    analysis: Analysis,
    options: BoundaryOptions,
    m: int,
)
    requires
        analysis.wf(),
        options.wf(),
        options.merge_window >= 0,
        0 <= m < candidate_set(analysis, options).len(),
        candidate_set(analysis, options)[m].logo_transition,
    ensures
        exists|i: int|
            0 <= i < analysis.logo_intervals@.len() && (-options.merge_window <= (
            #[trigger] analysis.logo_intervals@[i]).start - candidate_set(analysis, options)[m].at
                <= options.merge_window || -options.merge_window <= analysis.logo_intervals@[i].end
                - candidate_set(analysis, options)[m].at <= options.merge_window),
{
    chosen_changes_are_changes(analysis, options);
    let chosen = chosen_changes(analysis, options);
    let raw = raw_candidates(analysis, options, chosen);
    let k = merging_makes_nothing_up(raw, options.merge_window, analysis.duration, m, Sign::Logo);
    let edges = logo_candidates(analysis.logo_intervals@);
    let spans = analysis.silent_spans@;
    if k < edges.len() {
        assert(raw[k] == edges[k]);
        let i = k / 2;
        assert(0 <= i < analysis.logo_intervals@.len());
        assert(edges[k].at == analysis.logo_intervals@[i].start || edges[k].at
            == analysis.logo_intervals@[i].end);
    } else if k < edges.len() + spans.len() {
        assert(raw[k] == silence_candidate(spans[k - edges.len()]));
    } else {
        let q = k - edges.len() - spans.len();
        assert(raw[k] == scene_candidate(analysis, options, chosen[q]));
    }
}

/// A candidate is a cut only where the picture cuts within the merge window of
/// it, and within the recording it stands exactly at a cut.
pub proof fn cut_candidates_rest_on_a_cut(analysis: Analysis, options: BoundaryOptions, m: int)
    requires
        analysis.wf(),
        options.wf(),
        options.merge_window >= 0,
        0 <= m < candidate_set(analysis, options).len(),
        candidate_set(analysis, options)[m].scene_change,
    ensures
        exists|i: int|
            0 <= i < analysis.scene_changes@.len() && -options.merge_window <= (
            #[trigger] analysis.scene_changes@[i]).at - candidate_set(analysis, options)[m].at
                <= options.merge_window && (0 < candidate_set(analysis, options)[m].at
                < analysis.duration ==> analysis.scene_changes@[i].at == candidate_set(
                analysis,
                options,
            )[m].at),
{
    chosen_changes_are_changes(analysis, options);
    let chosen = chosen_changes(analysis, options);
    let raw = raw_candidates(analysis, options, chosen);
    let k = merging_makes_nothing_up(raw, options.merge_window, analysis.duration, m, Sign::Cut);
    let edges = logo_candidates(analysis.logo_intervals@);
    let spans = analysis.silent_spans@;
    if k < edges.len() {
        assert(raw[k] == edges[k]);
    } else if k < edges.len() + spans.len() {
        assert(raw[k] == silence_candidate(spans[k - edges.len()]));
    } else {
        let q = k - edges.len() - spans.len();
        assert(raw[k] == scene_candidate(analysis, options, chosen[q]));
        assert(analysis.scene_changes@.contains(chosen[q]));
        let i = analysis.scene_changes@.index_of(chosen[q]);
        assert(analysis.scene_changes@[i].at == raw[k].at);
    }
}

/// A candidate is a silence only where there is one no further off than the
/// silence window and the merge window together.
pub proof fn silence_candidates_rest_on_a_silence(
    analysis: Analysis,
    options: BoundaryOptions,
    m: int,
)
    requires
        analysis.wf(),
        options.wf(),
        options.merge_window >= 0,
        options.silence_window >= 0,
        forall|i: int|
            0 <= i < analysis.silent_spans@.len() ==> (#[trigger] analysis.silent_spans@[i]).start
                <= analysis.silent_spans@[i].end,
        0 <= m < candidate_set(analysis, options).len(),
        candidate_set(analysis, options)[m].silence,
    ensures
        ({
            let at = candidate_set(analysis, options)[m].at;
            let reach = options.silence_window + options.merge_window;
            exists|i: int|
                0 <= i < analysis.silent_spans@.len() && (
                #[trigger] analysis.silent_spans@[i]).start - reach <= at
                    <= analysis.silent_spans@[i].end + reach
        }),
{
    chosen_changes_are_changes(analysis, options);
    let chosen = chosen_changes(analysis, options);
    let raw = raw_candidates(analysis, options, chosen);
    let k = merging_makes_nothing_up(
        raw,
        options.merge_window,
        analysis.duration,
        m,
        Sign::Silence,
    );
    let edges = logo_candidates(analysis.logo_intervals@);
    let spans = analysis.silent_spans@;
    if k < edges.len() {
        assert(raw[k] == edges[k]);
    } else if k < edges.len() + spans.len() {
        let span = spans[k - edges.len()];
        assert(span.in_time());
        assert(raw[k] == silence_candidate(span));
        assert(span.start <= raw[k].at <= span.end);
    } else {
        let q = k - edges.len() - spans.len();
        assert(raw[k] == scene_candidate(analysis, options, chosen[q]));
        let i = choose|i: int|
            0 <= i < spans.len() && (#[trigger] spans[i]).start - options.silence_window
                <= chosen[q].at <= spans[i].end + options.silence_window;
        assert(spans[i].start - options.silence_window <= raw[k].at);
    }
}

} // verus!
