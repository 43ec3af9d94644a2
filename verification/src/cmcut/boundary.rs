//! Assembling the candidate positions a commercial block could start or end at.
//!
//! Every boundary comes from one of three sources, and how many of them agree
//! is what tells the segmenter how much to trust a position:
//!
//! - a **logo transition**, which says a boundary is somewhere near here but
//!   is vague about exactly where, because the score is smoothed;
//! - a **scene change**, which is frame-exact but of which a drama has
//!   hundreds;
//! - a **silence**, which broadcast inserts deliberately at junctions.
//!
//! A scene change sitting inside a silence, near a logo transition, is almost
//! certainly a real junction. A scene change on its own is almost certainly
//! not. Recording that support alongside the position is what lets the
//! segmenter weigh them.

use vstd::prelude::*;
use crate::analyze::in_time;
use crate::analyze::logo::track::LogoInterval;
use crate::analyze::scene::SceneChange;
use crate::analyze::Analysis;
use crate::analyze::SilentSpan;
use crate::order::is_stable_order;
use crate::order::precedes;
use crate::order::ranking;
use crate::order::stable_order;
use crate::order::stable_order_exists;
use crate::seqs::filter_contents;
use crate::seqs::filter_ends;
use crate::seqs::filter_splits;
use crate::seqs::filter_step;

verus! {

/// How close a scene change must be to a silence to count as supported, in
/// microseconds.
pub const DEFAULT_SILENCE_WINDOW: i64 = 600_000;

/// How close two candidates must be before they are treated as one, in
/// microseconds.
pub const DEFAULT_MERGE_WINDOW: i64 = 250_000;

/// Ceiling on scene-change candidates carried into the segmenter.
///
/// A three-hour film has thousands of cuts and the segmenter is quadratic in
/// candidate count. The strongest survive, and every logo- or silence-backed
/// candidate is kept regardless of this cap.
pub const MAX_SCENE_CANDIDATES: usize = 400;

/// A position a segment might begin or end at.
#[derive(Debug, Clone, Copy, PartialEq, Eq, Structural)]
pub struct Boundary {
    /// Position in the recording, in microseconds.
    pub at: i64,
    /// A logo interval started or ended near here.
    pub logo_transition: bool,
    /// A scene change happened here.
    pub scene_change: bool,
    /// The audio was silent here.
    pub silence: bool,
    /// Strength of the scene change, 0 when there was none.
    pub strength: u32,
}

impl Boundary {
    /// How much to trust this position, in hundredths: a scene change is
    /// worth 25, a logo transition 35, a silence 40.
    pub open spec fn spec_quality(self) -> int {
        (if self.scene_change { 25int } else { 0 }) + (if self.silence { 40int } else { 0 }) + (
        if self.logo_transition { 35int } else { 0 })
    }

    /// This position with the evidence of `other` added to its own.
    pub open spec fn holding(self, other: Boundary) -> Boundary {
        Boundary {
            at: self.at,
            logo_transition: self.logo_transition || other.logo_transition,
            scene_change: self.scene_change || other.scene_change,
            silence: self.silence || other.silence,
            strength: if other.strength > self.strength { other.strength } else { self.strength },
        }
    }

    /// This position with the evidence of every one of `near` added to its
    /// own.
    pub open spec fn backed_by(self, near: Seq<Boundary>) -> Boundary
        decreases near.len(),
    {
        if near.len() == 0 {
            self
        } else {
            self.backed_by(near.drop_last()).holding(near.last())
        }
    }

    /// What is left when `other`, at effectively the same position, is
    /// absorbed: the evidence of both, at the position of the first unless
    /// only the second is frame-exact.
    pub open spec fn absorbed(self, other: Boundary) -> Boundary {
        Boundary {
            at: if other.scene_change && !self.scene_change { other.at } else { self.at },
            ..self.holding(other)
        }
    }

    /// The boundary at a position with no supporting evidence.
    pub open spec fn spec_bare(at: i64) -> Boundary {
        Boundary {
            at,
            logo_transition: false,
            scene_change: false,
            silence: false,
            strength: 0,
        }
    }

    /// A boundary at a position with no supporting evidence.
    #[must_use]
    pub fn bare(at: i64) -> (boundary: Boundary)
        ensures
            boundary == Boundary::spec_bare(at),
    {
        Boundary {
            at,
            logo_transition: false,
            scene_change: false,
            silence: false,
            strength: 0,
        }
    }

    /// How much to trust this position, in hundredths from 0 to 100.
    ///
    /// A junction that shows all three signals is as good as it gets; a lone
    /// scene change is worth very little, because there are so many of them.
    #[must_use]
    pub fn quality(&self) -> (score: i64)
        ensures
            score == self.spec_quality(),
            0 <= score <= 100,
    {
        let mut score: i64 = 0;
        if self.scene_change {
            score += 25;
        }
        if self.silence {
            score += 40;
        }
        if self.logo_transition {
            score += 35;
        }
        score
    }

    /// Take the evidence of another candidate without moving.
    fn hold(&mut self, other: &Boundary)
        ensures
            *final(self) == old(self).holding(*other),
    {
        self.logo_transition = self.logo_transition || other.logo_transition;
        self.scene_change = self.scene_change || other.scene_change;
        self.silence = self.silence || other.silence;
        if other.strength > self.strength {
            self.strength = other.strength;
        }
    }

    /// Absorb another candidate at effectively the same position.
    fn absorb(&mut self, other: &Boundary)
        ensures
            *final(self) == old(self).absorbed(*other),
    {
        // A frame-exact scene change is a better position than a smeared logo
        // transition or the middle of a silence, so it wins the tie. This has
        // to be decided before the flags are merged, or `self.scene_change`
        // would already be true and the position would never move.
        let takes_position = other.scene_change && !self.scene_change;
        self.hold(other);
        if takes_position {
            self.at = other.at;
        }
    }
}

/// Tunables for candidate construction.
#[derive(Debug, Clone, Copy, PartialEq, Eq, Structural)]
pub struct BoundaryOptions {
    /// How close a scene change must be to a silence to count as supported,
    /// in microseconds.
    pub silence_window: i64,
    /// How close two candidates must be to become one, in microseconds.
    pub merge_window: i64,
    /// Ceiling on scene-change candidates.
    pub max_scene_candidates: usize,
}

impl BoundaryOptions {
    /// The windows are within the limit on moments.
    pub open spec fn wf(self) -> bool {
        in_time(self.silence_window) && in_time(self.merge_window)
    }
}

impl Default for BoundaryOptions {
    fn default() -> (options: BoundaryOptions)
        ensures
            options.silence_window == DEFAULT_SILENCE_WINDOW,
            options.merge_window == DEFAULT_MERGE_WINDOW,
            options.max_scene_candidates == MAX_SCENE_CANDIDATES,
            options.wf(),
    {
        BoundaryOptions {
            silence_window: DEFAULT_SILENCE_WINDOW,
            merge_window: DEFAULT_MERGE_WINDOW,
            max_scene_candidates: MAX_SCENE_CANDIDATES,
        }
    }
}

/// Some silence covers, or nearly covers, this moment.
pub open spec fn silent_near(spans: Seq<SilentSpan>, at: int, window: int) -> bool {
    exists|i: int|
        0 <= i < spans.len() && (#[trigger] spans[i]).start - window <= at <= spans[i].end + window
}

/// Some logo interval starts or ends near this moment.
pub open spec fn near_transition(intervals: Seq<LogoInterval>, at: int, window: int) -> bool {
    exists|i: int|
        0 <= i < intervals.len() && (-window <= (#[trigger] intervals[i]).start - at <= window
            || -window <= intervals[i].end - at <= window)
}

/// A cut that some other signal agrees with.
pub open spec fn is_supported(
    analysis: Analysis,
    options: BoundaryOptions,
    change: SceneChange,
) -> bool {
    silent_near(analysis.silent_spans@, change.at as int, options.silence_window as int)
        || near_transition(
        analysis.logo_intervals@,
        change.at as int,
        options.silence_window as int,
    )
}

/// The supported cuts, in their original order.
pub open spec fn supported_changes(
    analysis: Analysis,
    options: BoundaryOptions,
) -> Seq<SceneChange> {
    analysis.scene_changes@.filter(supported(analysis, options))
}

pub open spec fn supported(
    analysis: Analysis,
    options: BoundaryOptions,
) -> spec_fn(SceneChange) -> bool {
    |change: SceneChange| is_supported(analysis, options, change)
}

pub open spec fn unsupported(
    analysis: Analysis,
    options: BoundaryOptions,
) -> spec_fn(SceneChange) -> bool {
    |change: SceneChange| !is_supported(analysis, options, change)
}

/// The cuts nothing else agrees with, in their original order.
pub open spec fn unsupported_changes(
    analysis: Analysis,
    options: BoundaryOptions,
) -> Seq<SceneChange> {
    analysis.scene_changes@.filter(unsupported(analysis, options))
}

/// Keys that put the strongest change first.
pub open spec fn by_strength(changes: Seq<SceneChange>) -> Seq<i128> {
    changes.map_values(|change: SceneChange| (-(change.strength as int)) as i128)
}

/// How many unsupported cuts there is room for.
pub open spec fn room_for_unsupported(supported: nat, unsupported: nat, ceiling: nat) -> nat {
    let room = if ceiling > supported { (ceiling - supported) as nat } else { 0 };
    if unsupported < room { unsupported } else { room }
}

/// The cuts worth carrying forward: every supported cut, then the strongest
/// of the rest for as long as there is room.
pub open spec fn chosen_changes(
    analysis: Analysis,
    options: BoundaryOptions,
) -> Seq<SceneChange> {
    let supported = supported_changes(analysis, options);
    let unsupported = unsupported_changes(analysis, options);
    let room = room_for_unsupported(
        supported.len(),
        unsupported.len(),
        options.max_scene_candidates as nat,
    );
    supported + ranking(by_strength(unsupported)).take(room as int).map_values(
        |i: usize| unsupported[i as int],
    )
}

/// The candidate a logo interval's edge makes.
pub open spec fn logo_candidate(at: i64) -> Boundary {
    Boundary { logo_transition: true, ..Boundary::spec_bare(at) }
}

/// The candidate a silence makes, at its centre.
pub open spec fn silence_candidate(span: SilentSpan) -> Boundary {
    Boundary { silence: true, ..Boundary::spec_bare(((span.start + span.end) / 2) as i64) }
}

/// The candidate a cut makes.
pub open spec fn scene_candidate(
    analysis: Analysis,
    options: BoundaryOptions,
    change: SceneChange,
) -> Boundary {
    Boundary {
        scene_change: true,
        silence: silent_near(
            analysis.silent_spans@,
            change.at as int,
            options.silence_window as int,
        ),
        strength: change.strength,
        ..Boundary::spec_bare(change.at)
    }
}

/// The two candidates of each logo interval, start before end.
pub open spec fn logo_candidates(intervals: Seq<LogoInterval>) -> Seq<Boundary> {
    Seq::new(
        2 * intervals.len(),
        |i: int|
            logo_candidate(if i % 2 == 0 { intervals[i / 2].start } else { intervals[i / 2].end }),
    )
}

/// Every candidate before any are merged: the logo transitions, the silences,
/// and the chosen cuts.
pub open spec fn raw_candidates(
    analysis: Analysis,
    options: BoundaryOptions,
    changes: Seq<SceneChange>,
) -> Seq<Boundary> {
    logo_candidates(analysis.logo_intervals@) + analysis.silent_spans@.map_values(
        |span: SilentSpan| silence_candidate(span),
    ) + changes.map_values(|change: SceneChange| scene_candidate(analysis, options, change))
}

/// A candidate within the recording that the beginning takes in.
pub open spec fn near_start(window: i64, duration: i64) -> spec_fn(Boundary) -> bool {
    |b: Boundary| 0 <= b.at <= duration && b.at <= window
}

/// A candidate within the recording that the end takes in, the beginning
/// having had the first choice.
pub open spec fn near_end(window: i64, duration: i64) -> spec_fn(Boundary) -> bool {
    |b: Boundary| 0 <= b.at <= duration && b.at > window && duration - b.at <= window
}

/// A candidate within the recording that stands clear of both ends.
pub open spec fn clear_of_ends(window: i64, duration: i64) -> spec_fn(Boundary) -> bool {
    |b: Boundary| 0 <= b.at <= duration && b.at > window && duration - b.at > window
}

/// Keys that put the earliest boundary first.
pub open spec fn by_position(boundaries: Seq<Boundary>) -> Seq<i128> {
    boundaries.map_values(|b: Boundary| b.at as i128)
}

/// Coalesce candidates that are already in order: each joins the one before
/// it when the two are no further apart than the window.
pub open spec fn coalesced(sorted: Seq<Boundary>, window: i64) -> Seq<Boundary>
    decreases sorted.len(),
{
    if sorted.len() == 0 {
        Seq::empty()
    } else {
        let merged = coalesced(sorted.drop_last(), window);
        let next = sorted.last();
        if merged.len() > 0 && next.at - merged.last().at <= window {
            merged.drop_last().push(merged.last().absorbed(next))
        } else {
            merged.push(next)
        }
    }
}

/// The candidates clear of both ends, put in order of position and coalesced.
pub open spec fn inner_candidates(
    raw: Seq<Boundary>,
    window: i64,
    duration: i64,
) -> Seq<Boundary> {
    let inside = raw.filter(clear_of_ends(window, duration));
    coalesced(
        ranking(by_position(inside)).map_values(|i: usize| inside[i as int]),
        window,
    )
}

/// The boundaries of a recording: its beginning, the coalesced candidates
/// clear of both ends, and its end. An end takes the evidence of the
/// candidates near it and stays where it is. A recording with no length has
/// one end.
pub open spec fn merged_candidates(
    raw: Seq<Boundary>,
    window: i64,
    duration: i64,
) -> Seq<Boundary> {
    let start = Boundary::spec_bare(0).backed_by(raw.filter(near_start(window, duration)));
    let end = Boundary::spec_bare(duration).backed_by(raw.filter(near_end(window, duration)));
    if duration < 0 {
        Seq::empty()
    } else if duration == 0 {
        seq![start] + inner_candidates(raw, window, duration)
    } else {
        seq![start] + inner_candidates(raw, window, duration) + seq![end]
    }
}

/// The candidate set for a recording.
pub open spec fn candidate_set(analysis: Analysis, options: BoundaryOptions) -> Seq<Boundary> {
    merged_candidates(
        raw_candidates(analysis, options, chosen_changes(analysis, options)),
        options.merge_window,
        analysis.duration,
    )
}

/// Whether any silence covers, or nearly covers, this moment.
fn is_silent_near(spans: &[SilentSpan], at: i64, window: i64) -> (near: bool)
    requires
        forall|i: int| 0 <= i < spans@.len() ==> (#[trigger] spans@[i]).in_time(),
        in_time(at),
        in_time(window),
    ensures
        near == silent_near(spans@, at as int, window as int),
{
    for i in 0..spans.len()
        invariant
            forall|i: int| 0 <= i < spans@.len() ==> (#[trigger] spans@[i]).in_time(),
            in_time(at),
            in_time(window),
            forall|j: int|
                0 <= j < i ==> !((#[trigger] spans@[j]).start - window <= at <= spans@[j].end
                    + window),
    {
        let span = spans[i];
        assert(spans@[i as int].in_time());
        if at >= span.start - window && at <= span.end + window {
            return true;
        }
    }
    false
}

/// Whether a logo interval starts or ends near this moment.
fn is_near_logo_transition(intervals: &[LogoInterval], at: i64, window: i64) -> (near: bool)
    requires
        forall|i: int| 0 <= i < intervals@.len() ==> (#[trigger] intervals@[i]).in_time(),
        in_time(at),
        in_time(window),
    ensures
        near == near_transition(intervals@, at as int, window as int),
{
    for i in 0..intervals.len()
        invariant
            forall|i: int| 0 <= i < intervals@.len() ==> (#[trigger] intervals@[i]).in_time(),
            in_time(at),
            in_time(window),
            forall|j: int|
                0 <= j < i ==> !(-window <= (#[trigger] intervals@[j]).start - at <= window
                    || -window <= intervals@[j].end - at <= window),
    {
        let interval = intervals[i];
        assert(intervals@[i as int].in_time());
        let from_start: i64 = interval.start - at;
        let from_end: i64 = interval.end - at;
        if (-window <= from_start && from_start <= window) || (-window <= from_end && from_end
            <= window) {
            return true;
        }
    }
    false
}

/// Pick the scene changes worth carrying forward.
///
/// Anything backed by silence or a logo transition is kept whatever its
/// strength, because that agreement is the strongest evidence available. The
/// rest compete on strength for the remaining slots.
fn scene_candidates(analysis: &Analysis, options: &BoundaryOptions) -> (changes: Vec<SceneChange>)
    requires
        analysis.wf(),
        options.wf(),
    ensures
        changes@ == chosen_changes(*analysis, *options),
        changes@.len() <= analysis.scene_changes@.len(),
        forall|i: int| 0 <= i < changes@.len() ==> in_time((#[trigger] changes@[i]).at),
{
    let mut changes: Vec<SceneChange> = Vec::new();
    let mut rest: Vec<SceneChange> = Vec::new();
    let mut keys: Vec<i128> = Vec::new();
    let ghost all = analysis.scene_changes@;
    let ghost yes = supported(*analysis, *options);
    let ghost no = unsupported(*analysis, *options);
    proof {
        filter_ends(all, yes);
        filter_ends(all, no);
    }
    for i in 0..analysis.scene_changes.len()
        invariant
            analysis.wf(),
            options.wf(),
            all == analysis.scene_changes@,
            yes == supported(*analysis, *options),
            no == unsupported(*analysis, *options),
            changes@ == all.take(i as int).filter(yes),
            rest@ == all.take(i as int).filter(no),
            keys@ =~= by_strength(rest@),
    {
        let change = analysis.scene_changes[i];
        assert(in_time(all[i as int].at));
        proof {
            filter_step(all, yes, i as int);
            filter_step(all, no, i as int);
        }
        if is_silent_near(&analysis.silent_spans, change.at, options.silence_window)
            || is_near_logo_transition(
            &analysis.logo_intervals,
            change.at,
            options.silence_window,
        ) {
            changes.push(change);
        } else {
            rest.push(change);
            keys.push(-(change.strength as i128));
        }
    }
    assert(changes@ == supported_changes(*analysis, *options));
    assert(rest@ == unsupported_changes(*analysis, *options));
    let order = stable_order(&keys);
    let mut room: usize = 0;
    if options.max_scene_candidates > changes.len() {
        room = options.max_scene_candidates - changes.len();
    }
    if rest.len() < room {
        room = rest.len();
    }
    let ghost chosen = changes@;
    for i in 0..room
        invariant
            room <= rest@.len(),
            is_stable_order(keys@, order@),
            keys@.len() == rest@.len(),
            changes@ =~= chosen + order@.take(i as int).map_values(|i: usize| rest@[i as int]),
    {
        changes.push(rest[order[i]]);
    }
    assert(changes@ =~= chosen_changes(*analysis, *options));
    proof {
        chosen_changes_are_changes(*analysis, *options);
        assert forall|i: int| 0 <= i < changes@.len() implies in_time(
            (#[trigger] changes@[i]).at,
        ) by {
            assert(all.contains(changes@[i]));
        }
    }
    changes
}

/// Sort, clamp to the recording, and coalesce near-coincident candidates. The
/// ends of the recording are always boundaries, and never move.
fn merge(raw: &Vec<Boundary>, window: i64, duration: i64) -> (merged: Vec<Boundary>)
    requires
        in_time(window),
        in_time(duration),
    ensures
        merged@ == merged_candidates(raw@, window, duration),
        merged@.len() <= raw@.len() + 2,
        forall|i: int| 0 <= i < merged@.len() ==> 0 <= (#[trigger] merged@[i]).at <= duration,
{
    let mut merged: Vec<Boundary> = Vec::new();
    if duration < 0 {
        assert(merged@ =~= merged_candidates(raw@, window, duration));
        return merged;
    }
    let mut start = Boundary::bare(0);
    let mut end = Boundary::bare(duration);
    let mut inside: Vec<Boundary> = Vec::new();
    let mut keys: Vec<i128> = Vec::new();
    let ghost first = near_start(window, duration);
    let ghost last = near_end(window, duration);
    let ghost keep = clear_of_ends(window, duration);
    proof {
        filter_ends(raw@, first);
        filter_ends(raw@, last);
        filter_ends(raw@, keep);
    }
    for i in 0..raw.len()
        invariant
            in_time(window),
            in_time(duration),
            first == near_start(window, duration),
            last == near_end(window, duration),
            keep == clear_of_ends(window, duration),
            start == Boundary::spec_bare(0).backed_by(raw@.take(i as int).filter(first)),
            end == Boundary::spec_bare(duration).backed_by(raw@.take(i as int).filter(last)),
            start.at == 0,
            end.at == duration,
            inside@ == raw@.take(i as int).filter(keep),
            keys@ =~= by_position(inside@),
    {
        proof {
            filter_step(raw@, first, i as int);
            filter_step(raw@, last, i as int);
            filter_step(raw@, keep, i as int);
            backing_step(
                start,
                Boundary::spec_bare(0),
                raw@.take(i as int).filter(first),
                raw@[i as int],
            );
            backing_step(
                end,
                Boundary::spec_bare(duration),
                raw@.take(i as int).filter(last),
                raw@[i as int],
            );
        }
        let candidate = raw[i];
        if candidate.at >= 0 && candidate.at <= duration {
            if candidate.at <= window {
                start.hold(&candidate);
            } else if duration - candidate.at <= window {
                end.hold(&candidate);
            } else {
                inside.push(candidate);
                keys.push(candidate.at as i128);
            }
        }
    }
    let order = stable_order(&keys);
    let ghost sorted = order@.map_values(|i: usize| inside@[i as int]);
    proof {
        filter_contents(raw@, keep);
    }
    merged.push(start);
    assert(sorted.take(0) =~= Seq::empty());
    assert(merged@ =~= seq![start] + coalesced(sorted.take(0), window));
    for i in 0..order.len()
        invariant
            in_time(window),
            in_time(duration),
            start.at == 0 <= duration,
            is_stable_order(keys@, order@),
            keys@.len() == inside@.len(),
            sorted == order@.map_values(|i: usize| inside@[i as int]),
            forall|i: int| 0 <= i < inside@.len() ==> 0 <= (#[trigger] inside@[i]).at <= duration,
            forall|i: int| 0 <= i < merged@.len() ==> 0 <= (#[trigger] merged@[i]).at <= duration,
            merged@ == seq![start] + coalesced(sorted.take(i as int), window),
            merged@.len() <= i + 1,
    {
        let candidate = inside[order[i]];
        let ghost before = coalesced(sorted.take(i as int), window);
        assert(sorted.take(i + 1).drop_last() =~= sorted.take(i as int));
        assert(sorted.take(i + 1).last() == candidate);
        let count: usize = merged.len();
        if count > 1 && candidate.at - merged[count - 1].at <= window {
            let mut previous = merged[count - 1];
            assert(before.last() == previous);
            previous.absorb(&candidate);
            merged.set(count - 1, previous);
            assert(merged@ =~= seq![start] + coalesced(sorted.take(i + 1), window));
        } else {
            if count > 1 {
                assert(before.last() == merged@[count - 1]);
            }
            merged.push(candidate);
            assert(merged@ =~= seq![start] + coalesced(sorted.take(i + 1), window));
        }
    }
    assert(sorted.take(sorted.len() as int) =~= sorted);
    if duration > 0 {
        merged.push(end);
    }
    assert(merged@ =~= merged_candidates(raw@, window, duration));
    merged
}

/// Adding the evidence of one more candidate.
proof fn backing_step(end: Boundary, bare: Boundary, near: Seq<Boundary>, next: Boundary)
    requires
        end == bare.backed_by(near),
    ensures
        bare.backed_by(near.push(next)) == end.holding(next),
{
    assert(near.push(next).drop_last() =~= near);
}

/// Build the candidate boundary set for a recording.
#[must_use]
pub fn candidates(analysis: &Analysis, options: &BoundaryOptions) -> (found: Vec<Boundary>)
    requires
        analysis.wf(),
        options.wf(),
    ensures
        found@ == candidate_set(*analysis, *options),
        found@.len() <= u32::MAX,
        forall|i: int|
            0 <= i < found@.len() ==> 0 <= (#[trigger] found@[i]).at <= analysis.duration,
{
    let mut raw: Vec<Boundary> = Vec::new();
    let ghost logo = logo_candidates(analysis.logo_intervals@);

    for i in 0..analysis.logo_intervals.len()
        invariant
            logo == logo_candidates(analysis.logo_intervals@),
            raw@ =~= logo.take(2 * i),
    {
        let interval = analysis.logo_intervals[i];
        raw.push(logo_boundary(interval.start));
        raw.push(logo_boundary(interval.end));
    }
    let ghost so_far = raw@;
    assert(so_far =~= logo);

    let ghost silences = analysis.silent_spans@.map_values(
        |span: SilentSpan| silence_candidate(span),
    );
    for i in 0..analysis.silent_spans.len()
        invariant
            analysis.wf(),
            silences == analysis.silent_spans@.map_values(
                |span: SilentSpan| silence_candidate(span),
            ),
            raw@ =~= so_far + silences.take(i as int),
    {
        assert(analysis.silent_spans@[i as int].in_time());
        raw.push(silence_boundary(&analysis.silent_spans[i]));
    }
    let ghost so_far = raw@;
    assert(so_far =~= logo + silences);

    let changes = scene_candidates(analysis, options);
    let ghost cuts = changes@.map_values(
        |change: SceneChange| scene_candidate(*analysis, *options, change),
    );
    for i in 0..changes.len()
        invariant
            analysis.wf(),
            options.wf(),
            forall|i: int| 0 <= i < changes@.len() ==> in_time((#[trigger] changes@[i]).at),
            cuts == changes@.map_values(
                |change: SceneChange| scene_candidate(*analysis, *options, change),
            ),
            raw@ =~= so_far + cuts.take(i as int),
    {
        let change = changes[i];
        assert(in_time(changes@[i as int].at));
        raw.push(
            Boundary {
                at: change.at,
                logo_transition: false,
                scene_change: true,
                silence: is_silent_near(
                    &analysis.silent_spans,
                    change.at,
                    options.silence_window,
                ),
                strength: change.strength,
            },
        );
    }
    assert(raw@ =~= raw_candidates(*analysis, *options, changes@));
    assert(raw@.len() + 2 <= u32::MAX);
    merge(&raw, options.merge_window, analysis.duration)
}

fn logo_boundary(at: i64) -> (boundary: Boundary)
    ensures
        boundary == logo_candidate(at),
{
    Boundary { at, logo_transition: true, scene_change: false, silence: false, strength: 0 }
}

fn silence_boundary(span: &SilentSpan) -> (boundary: Boundary)
    requires
        span.in_time(),
    ensures
        boundary == silence_candidate(*span),
{
    Boundary {
        at: span.centre(),
        logo_transition: false,
        scene_change: false,
        silence: true,
        strength: 0,
    }
}

/// Every chosen cut is one of the cuts found, and there are no more of them.
pub(crate) proof fn chosen_changes_are_changes(analysis: Analysis, options: BoundaryOptions)
    requires
        analysis.wf(),
    ensures
        chosen_changes(analysis, options).len() <= analysis.scene_changes@.len(),
        chosen_changes(analysis, options).len() == chosen_count(analysis, options),
        forall|i: int|
            #![trigger chosen_changes(analysis, options)[i]]
            0 <= i < chosen_changes(analysis, options).len() ==> analysis.scene_changes@.contains(
                chosen_changes(analysis, options)[i],
            ),
{
    let all = analysis.scene_changes@;
    filter_contents(all, supported(analysis, options));
    filter_contents(all, unsupported(analysis, options));
    filter_splits(all, supported(analysis, options), unsupported(analysis, options));
    let chosen = chosen_changes(analysis, options);
    let backed = supported_changes(analysis, options);
    let rest = unsupported_changes(analysis, options);
    let order = ranking(by_strength(rest));
    stable_order_exists(by_strength(rest));
    assert forall|i: int| 0 <= i < chosen.len() implies all.contains(#[trigger] chosen[i]) by {
        if i < backed.len() {
            assert(chosen[i] == backed[i]);
        } else {
            let p = order[i - backed.len()];
            assert(chosen[i] == rest[p as int]);
        }
    }
}

/// Positions ascend.
pub open spec fn ascending(boundaries: Seq<Boundary>) -> bool {
    forall|i: int, j: int|
        0 <= i < j < boundaries.len() ==> (#[trigger] boundaries[i]).at <= (
        #[trigger] boundaries[j]).at
}

/// Consecutive positions are more than the window apart.
pub open spec fn apart(boundaries: Seq<Boundary>, window: int) -> bool {
    forall|i: int, j: int|
        0 <= i < j < boundaries.len() ==> (#[trigger] boundaries[j]).at - (
        #[trigger] boundaries[i]).at > window
}

/// `kept` carries at least the evidence of `seen`, no further away than the
/// window.
pub open spec fn carries(kept: Boundary, seen: Boundary, window: int) -> bool {
    &&& seen.logo_transition ==> kept.logo_transition
    &&& seen.scene_change ==> kept.scene_change
    &&& seen.silence ==> kept.silence
    &&& seen.strength <= kept.strength
    &&& -window <= kept.at - seen.at <= window
}

/// What coalescing candidates in order does: what comes out is more than the
/// window apart and no further out than what went in, and the last position
/// stays within the window of where it was.
pub(crate) proof fn coalescing(sorted: Seq<Boundary>, window: i64)
    requires
        window >= 0,
        ascending(sorted),
    ensures
        coalesced(sorted, window).len() <= sorted.len(),
        sorted.len() > 0 ==> coalesced(sorted, window).len() > 0,
        apart(coalesced(sorted, window), window as int),
        forall|i: int|
            0 <= i < coalesced(sorted, window).len() ==> sorted[0].at <= (
            #[trigger] coalesced(sorted, window)[i]).at <= sorted.last().at,
        sorted.len() > 0 ==> sorted.last().at - coalesced(sorted, window).last().at <= window,
    decreases sorted.len(),
{
    if sorted.len() > 0 {
        let shorter = sorted.drop_last();
        let next = sorted.last();
        shorter_ascends(sorted);
        coalescing(shorter, window);
        let before = coalesced(shorter, window);
        let after = coalesced(sorted, window);
        if shorter.len() > 0 {
            assert(shorter.last() == sorted[shorter.len() - 1]);
            assert(shorter.last().at <= next.at);
            assert(before.last() == before[before.len() - 1]);
        }
        assert forall|i: int, j: int| 0 <= i < j < after.len() implies (
        #[trigger] after[j]).at - (#[trigger] after[i]).at > window by {
            if j < before.len() {
                assert(before[j].at - before[i].at > window);
            } else {
                let last = before.len() - 1;
                if i < last {
                    assert(before[last].at - before[i].at > window);
                }
            }
        }
        assert forall|i: int| 0 <= i < after.len() implies sorted[0].at <= (
        #[trigger] after[i]).at <= sorted.last().at by {
            if i < before.len() {
                assert(shorter[0].at <= before[i].at <= shorter.last().at);
            }
        }
    }
}

pub(crate) proof fn shorter_ascends(sorted: Seq<Boundary>)
    requires
        ascending(sorted),
        sorted.len() > 0,
    ensures
        ascending(sorted.drop_last()),
{
    let shorter = sorted.drop_last();
    assert forall|i: int, j: int| 0 <= i < j < shorter.len() implies (#[trigger] shorter[i]).at <= (
    #[trigger] shorter[j]).at by {
        assert(sorted[i].at <= sorted[j].at);
    }
}

/// No evidence is lost in coalescing: whichever boundary it was gathered into
/// carries it, and this says which.
proof fn coalescing_loses_nothing(sorted: Seq<Boundary>, window: i64, k: int) -> (m: int)
    requires
        window >= 0,
        ascending(sorted),
        0 <= k < sorted.len(),
    ensures
        0 <= m < coalesced(sorted, window).len(),
        carries(coalesced(sorted, window)[m], sorted[k], window as int),
        m == coalesced(sorted, window).len() - 1 && !coalesced(sorted, window)[m].scene_change
            ==> coalesced(sorted, window)[m].at <= sorted[k].at,
    decreases sorted.len(),
{
    let shorter = sorted.drop_last();
    let next = sorted.last();
    shorter_ascends(sorted);
    coalescing(shorter, window);
    let before = coalesced(shorter, window);
    let after = coalesced(sorted, window);
    if shorter.len() > 0 {
        assert(shorter.last() == sorted[shorter.len() - 1]);
        assert(shorter.last().at <= next.at);
        assert(before.last() == before[before.len() - 1]);
    }
    if k == sorted.len() - 1 {
        after.len() - 1
    } else {
        assert(sorted[k].at <= next.at);
        let m = coalescing_loses_nothing(shorter, window, k);
        assert(shorter[k] == sorted[k]);
        m
    }
}

/// The candidates within the recording, in order of position, are what gets
/// coalesced; this is that list, and every one of them is on it.
pub(crate) proof fn sorted_inside(inside: Seq<Boundary>, order: Seq<usize>, duration: i64)
    requires
        is_stable_order(by_position(inside), order),
        inside.len() <= usize::MAX,
        forall|i: int| 0 <= i < inside.len() ==> 0 <= (#[trigger] inside[i]).at <= duration,
    ensures
        ({
            let sorted = order.map_values(|i: usize| inside[i as int]);
            &&& ascending(sorted)
            &&& sorted.len() == inside.len()
            &&& forall|i: int| 0 <= i < sorted.len() ==> 0 <= (#[trigger] sorted[i]).at <= duration
            &&& forall|k: int| 0 <= k < inside.len() ==> sorted.contains(#[trigger] inside[k])
        }),
{
    let sorted = order.map_values(|i: usize| inside[i as int]);
    let keys = by_position(inside);
    assert forall|i: int, j: int| 0 <= i < j < sorted.len() implies (#[trigger] sorted[i]).at <= (
    #[trigger] sorted[j]).at by {
        assert(precedes(keys, order[i], order[j]));
        assert(keys[order[i] as int] == sorted[i].at);
        assert(keys[order[j] as int] == sorted[j].at);
    }
    assert forall|i: int| 0 <= i < sorted.len() implies 0 <= (#[trigger] sorted[i]).at
        <= duration by {
        assert(inside[order[i] as int].at == sorted[i].at);
    }
    assert forall|k: int| 0 <= k < inside.len() implies sorted.contains(#[trigger] inside[k]) by {
        assert(order.contains(k as usize));
        let p = choose|p: int| 0 <= p < order.len() && order[p] == k as usize;
        assert(sorted[p] == inside[k]);
    }
}

/// An end keeps its position and has all the evidence it was given.
pub(crate) proof fn backing(bare: Boundary, near: Seq<Boundary>)
    ensures
        bare.backed_by(near).at == bare.at,
        forall|k: int|
            0 <= k < near.len() ==> {
                let end = bare.backed_by(near);
                &&& (#[trigger] near[k]).logo_transition ==> end.logo_transition
                &&& near[k].scene_change ==> end.scene_change
                &&& near[k].silence ==> end.silence
                &&& near[k].strength <= end.strength
            },
    decreases near.len(),
{
    if near.len() > 0 {
        let shorter = near.drop_last();
        backing(bare, shorter);
        assert forall|k: int| 0 <= k < near.len() implies {
            let end = bare.backed_by(near);
            &&& (#[trigger] near[k]).logo_transition ==> end.logo_transition
            &&& near[k].scene_change ==> end.scene_change
            &&& near[k].silence ==> end.silence
            &&& near[k].strength <= end.strength
        } by {
            if k < shorter.len() {
                assert(shorter[k] == near[k]);
            }
        }
    }
}

/// Whatever the window, the boundaries begin at the beginning, end at the end
/// and stay within the recording.
proof fn ends_stay_put(raw: Seq<Boundary>, window: i64, duration: i64)
    requires
        raw.len() <= usize::MAX,
        duration >= 0,
    ensures
        ({
            let found = merged_candidates(raw, window, duration);
            &&& 1 <= found.len() <= raw.len() + 2
            &&& duration > 0 ==> found.len() >= 2
            &&& found[0].at == 0
            &&& found.last().at == duration
            &&& forall|i: int| 0 <= i < found.len() ==> 0 <= (#[trigger] found[i]).at <= duration
        }),
{
    let inside = raw.filter(clear_of_ends(window, duration));
    filter_contents(raw, clear_of_ends(window, duration));
    stable_order_exists(by_position(inside));
    let order = ranking(by_position(inside));
    sorted_inside(inside, order, duration);
    let sorted = order.map_values(|i: usize| inside[i as int]);
    coalescing_moves_nothing_out(sorted, window, duration);
    backing(Boundary::spec_bare(0), raw.filter(near_start(window, duration)));
    backing(Boundary::spec_bare(duration), raw.filter(near_end(window, duration)));
    let inner = inner_candidates(raw, window, duration);
    let found = merged_candidates(raw, window, duration);
    assert forall|i: int| 0 <= i < found.len() implies 0 <= (#[trigger] found[i]).at
        <= duration by {
        if 1 <= i <= inner.len() {
            assert(found[i] == inner[i - 1]);
        }
    }
    if duration == 0 && inner.len() > 0 {
        assert(found.last() == inner[inner.len() - 1]);
    }
}

/// Coalescing puts boundaries only where candidates were.
proof fn coalescing_moves_nothing_out(sorted: Seq<Boundary>, window: i64, duration: i64)
    requires
        forall|i: int| 0 <= i < sorted.len() ==> 0 <= (#[trigger] sorted[i]).at <= duration,
    ensures
        coalesced(sorted, window).len() <= sorted.len(),
        forall|i: int|
            0 <= i < coalesced(sorted, window).len() ==> 0 <= (#[trigger] coalesced(
                sorted,
                window,
            )[i]).at <= duration,
    decreases sorted.len(),
{
    if sorted.len() > 0 {
        let shorter = sorted.drop_last();
        assert forall|i: int| 0 <= i < shorter.len() implies 0 <= (#[trigger] shorter[i]).at
            <= duration by {
            assert(sorted[i].at <= duration);
        }
        coalescing_moves_nothing_out(shorter, window, duration);
        let before = coalesced(shorter, window);
        let after = coalesced(sorted, window);
        assert(0 <= sorted[sorted.len() - 1].at <= duration);
        assert forall|i: int| 0 <= i < after.len() implies 0 <= (#[trigger] after[i]).at
            <= duration by {
            if i < before.len() {
                assert(0 <= before[i].at <= duration);
            }
        }
    }
}

/// Everything there is to know of a candidate set, given how its cuts were
/// chosen and how its candidates were put in order.
pub(crate) proof fn candidate_set_facts(raw: Seq<Boundary>, window: i64, duration: i64)
    requires
        raw.len() <= usize::MAX,
        window >= 0,
    ensures
        ({
            let found = merged_candidates(raw, window, duration);
            &&& apart(found, 0)
            &&& duration > window ==> apart(found, window as int)
            &&& forall|k: int|
                0 <= k < raw.len() && 0 <= (#[trigger] raw[k]).at <= duration ==> exists|m: int|
                    0 <= m < found.len() && carries(#[trigger] found[m], raw[k], window as int)
        }),
{
    let found = merged_candidates(raw, window, duration);
    let inner = inner_candidates(raw, window, duration);
    let inside = raw.filter(clear_of_ends(window, duration));
    let first = raw.filter(near_start(window, duration));
    let last = raw.filter(near_end(window, duration));
    filter_contents(raw, clear_of_ends(window, duration));
    filter_contents(raw, near_start(window, duration));
    filter_contents(raw, near_end(window, duration));
    stable_order_exists(by_position(inside));
    let order = ranking(by_position(inside));
    sorted_inside(inside, order, duration);
    let sorted = order.map_values(|i: usize| inside[i as int]);
    coalescing(sorted, window);
    backing(Boundary::spec_bare(0), first);
    backing(Boundary::spec_bare(duration), last);
    assert forall|i: int| 0 <= i < inner.len() implies window < (#[trigger] inner[i]).at < duration
        - window by {
        let low = inside[order[0] as int];
        let high = inside[order[order.len() - 1] as int];
        assert(sorted[0] == low);
        assert(sorted[sorted.len() - 1] == high);
        assert(clear_of_ends(window, duration)(low));
        assert(clear_of_ends(window, duration)(high));
    }
    let reach = if duration > window { window as int } else { 0 };
    assert forall|i: int, j: int| 0 <= i < j < found.len() implies (#[trigger] found[j]).at - (
    #[trigger] found[i]).at > reach by {
        if 1 <= i <= inner.len() {
            assert(found[i] == inner[i - 1]);
        }
        if 1 <= j <= inner.len() {
            assert(found[j] == inner[j - 1]);
        }
    }
    assert forall|k: int|
        0 <= k < raw.len() && 0 <= (#[trigger] raw[k]).at <= duration implies exists|m: int|
        0 <= m < found.len() && carries(#[trigger] found[m], raw[k], window as int) by {
        if raw[k].at <= window {
            assert(near_start(window, duration)(raw[k]));
            assert(first.contains(raw[k]));
            let q = choose|q: int| 0 <= q < first.len() && first[q] == raw[k];
            assert(first[q] == raw[k]);
            assert(carries(found[0], raw[k], window as int));
        } else if duration - raw[k].at <= window {
            assert(near_end(window, duration)(raw[k]));
            assert(last.contains(raw[k]));
            let q = choose|q: int| 0 <= q < last.len() && last[q] == raw[k];
            assert(last[q] == raw[k]);
            assert(carries(found[found.len() - 1], raw[k], window as int));
        } else {
            assert(clear_of_ends(window, duration)(raw[k]));
            assert(inside.contains(raw[k]));
            let q = choose|q: int| 0 <= q < inside.len() && inside[q] == raw[k];
            assert(sorted.contains(inside[q]));
            let p = choose|p: int| 0 <= p < sorted.len() && sorted[p] == inside[q];
            let m = coalescing_loses_nothing(sorted, window, p);
            assert(found[m + 1] == inner[m]);
            assert(carries(found[m + 1], raw[k], window as int));
        }
    }
}

/// Boundaries come out in order and distinct: no two share a position, and
/// unless the whole recording is no longer than the merge window, they are
/// more than the window apart.
pub proof fn candidates_are_ordered_and_distinct(analysis: Analysis, options: BoundaryOptions)
    requires
        analysis.wf(),
        options.wf(),
        options.merge_window >= 0,
    ensures
        apart(candidate_set(analysis, options), 0),
        analysis.duration > options.merge_window ==> apart(
            candidate_set(analysis, options),
            options.merge_window as int,
        ),
{
    chosen_changes_are_changes(analysis, options);
    let raw = raw_candidates(analysis, options, chosen_changes(analysis, options));
    candidate_set_facts(raw, options.merge_window, analysis.duration);
}

/// Every boundary lies within the recording, and there are never more of them
/// than the evidence accounts for.
pub proof fn candidates_lie_within_the_recording(analysis: Analysis, options: BoundaryOptions)
    requires
        analysis.wf(),
    ensures
        forall|i: int|
            0 <= i < candidate_set(analysis, options).len() ==> 0 <= (#[trigger] candidate_set(
                analysis,
                options,
            )[i]).at <= analysis.duration,
        candidate_set(analysis, options).len() <= 2 + 2 * analysis.logo_intervals@.len()
            + analysis.silent_spans@.len() + chosen_count(analysis, options),
{
    chosen_changes_are_changes(analysis, options);
    let raw = raw_candidates(analysis, options, chosen_changes(analysis, options));
    if analysis.duration >= 0 {
        ends_stay_put(raw, options.merge_window, analysis.duration);
    }
}

/// How many cuts are carried forward: every supported one, and others up to
/// the ceiling.
pub open spec fn chosen_count(analysis: Analysis, options: BoundaryOptions) -> nat {
    let supported = supported_changes(analysis, options).len();
    supported + room_for_unsupported(
        supported,
        unsupported_changes(analysis, options).len(),
        options.max_scene_candidates as nat,
    )
}

/// No more cuts are carried forward than were found.
pub(crate) proof fn chosen_count_is_bounded(analysis: Analysis, options: BoundaryOptions)
    ensures
        chosen_count(analysis, options) <= analysis.scene_changes@.len(),
{
    filter_splits(
        analysis.scene_changes@,
        supported(analysis, options),
        unsupported(analysis, options),
    );
}

/// Both ends of the recording are always boundaries, exactly where they are.
pub proof fn candidates_reach_both_ends(analysis: Analysis, options: BoundaryOptions)
    requires
        analysis.wf(),
        analysis.duration >= 0,
    ensures
        candidate_set(analysis, options).len() >= 1,
        analysis.duration > 0 ==> candidate_set(analysis, options).len() >= 2,
        candidate_set(analysis, options)[0].at == 0,
        candidate_set(analysis, options).last().at == analysis.duration,
{
    chosen_changes_are_changes(analysis, options);
    let raw = raw_candidates(analysis, options, chosen_changes(analysis, options));
    ends_stay_put(raw, options.merge_window, analysis.duration);
}

/// No evidence backed by another signal is ever dropped: every cut within the
/// recording that coincides with a silence or a logo transition survives the
/// cap, and the boundary that carries it lies within the merge window of it.
pub proof fn supported_cuts_survive(
    analysis: Analysis,
    options: BoundaryOptions,
    change: SceneChange,
)
    requires
        analysis.wf(),
        options.wf(),
        options.merge_window >= 0,
        analysis.scene_changes@.contains(change),
        is_supported(analysis, options, change),
        0 <= change.at <= analysis.duration,
    ensures
        exists|m: int|
            0 <= m < candidate_set(analysis, options).len() && carries(
                #[trigger] candidate_set(analysis, options)[m],
                scene_candidate(analysis, options, change),
                options.merge_window as int,
            ),
{
    let found = candidate_set(analysis, options);
    chosen_changes_are_changes(analysis, options);
    let chosen = chosen_changes(analysis, options);
    let raw = raw_candidates(analysis, options, chosen);
    candidate_set_facts(raw, options.merge_window, analysis.duration);
    let all = analysis.scene_changes@;
    filter_contents(all, supported(analysis, options));
    let i = choose|i: int| 0 <= i < all.len() && all[i] == change;
    let backed = supported_changes(analysis, options);
    assert(backed.contains(all[i]));
    let q = choose|q: int| 0 <= q < backed.len() && backed[q] == change;
    assert(chosen[q] == change);
    let k = 2 * analysis.logo_intervals@.len() + analysis.silent_spans@.len() + q;
    assert(raw[k] == scene_candidate(analysis, options, change));
}

/// A logo transition or a silence within the recording is never dropped
/// either.
pub proof fn transitions_and_silences_survive(
    analysis: Analysis,
    options: BoundaryOptions,
    seen: Boundary,
)
    requires
        analysis.wf(),
        options.wf(),
        options.merge_window >= 0,
        logo_candidates(analysis.logo_intervals@).contains(seen)
            || analysis.silent_spans@.map_values(
            |span: SilentSpan| silence_candidate(span),
        ).contains(seen),
        0 <= seen.at <= analysis.duration,
    ensures
        exists|m: int|
            0 <= m < candidate_set(analysis, options).len() && carries(
                #[trigger] candidate_set(analysis, options)[m],
                seen,
                options.merge_window as int,
            ),
{
    let found = candidate_set(analysis, options);
    chosen_changes_are_changes(analysis, options);
    let raw = raw_candidates(analysis, options, chosen_changes(analysis, options));
    candidate_set_facts(raw, options.merge_window, analysis.duration);
    let logo = logo_candidates(analysis.logo_intervals@);
    let silences = analysis.silent_spans@.map_values(|span: SilentSpan| silence_candidate(span));
    if logo.contains(seen) {
        let i = choose|i: int| 0 <= i < logo.len() && logo[i] == seen;
        assert(raw[i] == seen);
    } else {
        let i = choose|i: int| 0 <= i < silences.len() && silences[i] == seen;
        assert(raw[logo.len() + i] == seen);
    }
}

} // verus!
