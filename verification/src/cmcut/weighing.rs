//! What the evidence for a label weighs.
//!
//! How much the logo, the 15-second grid and the edges of a segment count for
//! or against calling it a commercial, one at a time.

use vstd::prelude::*;
use crate::analyze::logo::track::LogoInterval;
use crate::analyze::SECOND;
use crate::arith::nearest;
use crate::arith::nearest_bounds;
use crate::arith::nearest_is;
use crate::arith::nearest_is_monotonic;
use crate::arith::nearest_of_multiple;
use crate::cmcut::boundary::Boundary;
use crate::cmcut::score::confidence_in;
use crate::cmcut::score::off_by;
use crate::cmcut::score::on_grid;
use crate::cmcut::score::score_of;
use crate::cmcut::score::CutOptions;
use crate::cmcut::score::SegmentKind;
use crate::cmcut::solve::logo_before;
use crate::cmcut::solve::Evidence;

verus! {

/// A whole number of grid units, off by no more than the tolerance, is on the
/// grid, however many units it is.
pub proof fn whole_units_are_on_the_grid(units: int, off: int, options: CutOptions)
    requires
        options.grid_seconds > 0,
        units >= 1,
        -options.grid_tolerance <= off <= options.grid_tolerance,
        2 * (units * options.grid_seconds + off) >= options.grid_seconds,
    ensures
        on_grid(units * options.grid_seconds + off, options),
{
    let seconds = units * options.grid_seconds + off;
    assert(off_by(seconds, units, options.grid_seconds as int) == off);
}

/// A length that lies further than the tolerance from the units on either side
/// of it is off the grid; so is one of less than half a unit.
pub proof fn lengths_between_units_are_off_the_grid(units: int, off: int, options: CutOptions)
    requires
        options.grid_seconds > 0,
        options.grid_tolerance < off < options.grid_seconds - options.grid_tolerance || (units == 0
            && 2 * off < options.grid_seconds),
    ensures
        !on_grid(units * options.grid_seconds + off, options),
{
    let grid = options.grid_seconds as int;
    let seconds = units * grid + off;
    if on_grid(seconds, options) {
        let other = choose|other: int|
            other >= 1 && -options.grid_tolerance <= #[trigger] off_by(seconds, other, grid)
                <= options.grid_tolerance;
        if other <= units {
            assert(other * grid <= units * grid) by (nonlinear_arith)
                requires
                    other <= units,
                    grid > 0,
            ;
        } else {
            assert(other * grid >= units * grid + grid) by (nonlinear_arith)
                requires
                    other >= units + 1,
                    grid > 0,
            ;
        }
        if units == 0 {
            assert(units * grid == 0) by (nonlinear_arith)
                requires
                    units == 0,
            ;
        }
    }
}

/// A commercial break is as much on the grid with one spot more.
pub proof fn a_unit_more_stays_on_the_grid(seconds: int, options: CutOptions)
    requires
        on_grid(seconds, options),
    ensures
        on_grid(seconds + options.grid_seconds, options),
{
    let grid = options.grid_seconds as int;
    let units = choose|units: int|
        units >= 1 && -options.grid_tolerance <= #[trigger] off_by(seconds, units, grid)
            <= options.grid_tolerance;
    assert((units + 1) * grid == units * grid + grid) by (nonlinear_arith);
    assert(off_by(seconds + grid, units + 1, grid) == off_by(seconds, units, grid));
}

/// Each sign of a boundary makes it a better one by a fixed amount, whatever
/// the others say: a silence by two fifths, a change of the logo by seven
/// twentieths, a cut by a quarter. All three together make it as good as there
/// is. Where it lies and how strong its cut was do not come into it.
pub proof fn each_sign_counts_at_a_boundary(boundary: Boundary, at: i64, strength: u32)
    ensures
        (Boundary { silence: true, ..boundary }).spec_quality() == (Boundary {
            silence: false,
            ..boundary
        }).spec_quality() + 40,
        (Boundary { logo_transition: true, ..boundary }).spec_quality() == (Boundary {
            logo_transition: false,
            ..boundary
        }).spec_quality() + 35,
        (Boundary { scene_change: true, ..boundary }).spec_quality() == (Boundary {
            scene_change: false,
            ..boundary
        }).spec_quality() + 25,
        (Boundary { at, strength, ..boundary }).spec_quality() == boundary.spec_quality(),
        boundary.silence && boundary.logo_transition && boundary.scene_change
            <==> boundary.spec_quality() == 100,
        !boundary.silence && !boundary.logo_transition && !boundary.scene_change
            <==> boundary.spec_quality() == 0,
{
}

/// The same share of two lengths rounds to the same number.
proof fn equal_shares_round_alike(part: int, whole: int, other_part: int, other_whole: int)
    requires
        whole > 0,
        other_whole > 0,
        part * other_whole == other_part * whole,
    ensures
        nearest(part, whole) == nearest(other_part, other_whole),
{
    let n = nearest(part, whole);
    nearest_bounds(part, whole);
    assert(2 * (n * other_whole) <= 2 * other_part + other_whole) by (nonlinear_arith)
        requires
            2 * (n * whole) <= 2 * part + whole,
            part * other_whole == other_part * whole,
            whole > 0,
            other_whole > 0,
    {
        assert((2 * part + whole - 2 * (n * whole)) * other_whole >= 0);
        assert((2 * other_part + other_whole - 2 * (n * other_whole)) * whole >= 0);
    }
    assert(2 * other_part + other_whole < 2 * (n * other_whole) + 2 * other_whole)
        by (nonlinear_arith)
        requires
            2 * part + whole < 2 * (n * whole) + 2 * whole,
            part * other_whole == other_part * whole,
            whole > 0,
            other_whole > 0,
    {
        assert((2 * (n * whole) + 2 * whole - 2 * part - whole) * other_whole > 0);
        assert((2 * (n * other_whole) + 2 * other_whole - 2 * other_part - other_whole) * whole
            > 0);
    }
    nearest_is(other_part, other_whole, n);
}

/// For equal agreement of the logo and equal edges, a commercial of a whole
/// number of grid units is trusted three tenths more than one that is not, and
/// never less.
pub proof fn the_grid_earns_three_tenths(
    on: int,
    on_covered: int,
    off: int,
    off_covered: int,
    from: Boundary,
    to: Boundary,
    logo_available: bool,
    options: CutOptions,
    units: int,
)
    requires
        on > 0,
        off > 0,
        on_covered * off == off_covered * on,
        options.grid_seconds > 0,
        units >= 1,
        2 * on >= options.grid_seconds,
        -options.grid_tolerance <= on - units * options.grid_seconds <= options.grid_tolerance,
        forall|n: int|
            n >= 1 ==> !(-options.grid_tolerance <= #[trigger] off_by(
                off,
                n,
                options.grid_seconds as int,
            ) <= options.grid_tolerance),
    ensures
        confidence_in(
            on,
            on_covered,
            SegmentKind::Commercial,
            from,
            to,
            logo_available,
            options,
        ) == confidence_in(
            off,
            off_covered,
            SegmentKind::Commercial,
            from,
            to,
            logo_available,
            options,
        ) + 300_000,
{
    assert(off_by(on, units, options.grid_seconds as int) == on - units * options.grid_seconds);
    assert((450_000 * (on - on_covered)) * off == (450_000 * (off - off_covered)) * on)
        by (nonlinear_arith)
        requires
            on_covered * off == off_covered * on,
    ;
    equal_shares_round_alike(450_000 * (on - on_covered), on, 450_000 * (off - off_covered), off);
}

/// A commercial on the grid with no logo over it and every sign at both of its
/// edges is certain; a programme under its logo throughout, with such edges, is
/// as certain as a programme can be, the grid having nothing to say of it.
pub proof fn full_evidence_is_certain(
    seconds: int,
    from: Boundary,
    to: Boundary,
    options: CutOptions,
)
    requires
        seconds > 0,
        from.silence && from.logo_transition && from.scene_change,
        to.silence && to.logo_transition && to.scene_change,
    ensures
        on_grid(seconds, options) ==> confidence_in(
            seconds,
            0,
            SegmentKind::Commercial,
            from,
            to,
            true,
            options,
        ) == 1_000_000,
        confidence_in(seconds, seconds, SegmentKind::Programme, from, to, true, options)
            == 880_000,
{
    nearest_of_multiple(450_000, seconds);
}

/// The logo counts for a programme exactly as it counts against a commercial:
/// what is under it for one is what is clear of it for the other. All else
/// equal, only the grid sets the two apart, and a stretch off the grid is the
/// likelier programme.
pub proof fn the_logo_counts_both_ways(
    seconds: int,
    covered: int,
    from: Boundary,
    to: Boundary,
    logo_available: bool,
    options: CutOptions,
)
    ensures
        confidence_in(
            seconds,
            covered,
            SegmentKind::Commercial,
            from,
            to,
            logo_available,
            options,
        ) - confidence_in(
            seconds,
            seconds - covered,
            SegmentKind::Programme,
            from,
            to,
            logo_available,
            options,
        ) == (if on_grid(seconds, options) { 120_000int } else { -180_000 }),
{
}

/// The more of a programme is under the logo, and the less of a commercial, the
/// more the label is trusted: from none to all of it by nine twentieths.
pub proof fn agreement_earns_trust(
    seconds: int,
    less: int,
    more: int,
    from: Boundary,
    to: Boundary,
    options: CutOptions,
)
    requires
        seconds > 0,
        0 <= less <= more <= seconds,
    ensures
        confidence_in(seconds, less, SegmentKind::Programme, from, to, true, options)
            <= confidence_in(seconds, more, SegmentKind::Programme, from, to, true, options),
        confidence_in(seconds, more, SegmentKind::Commercial, from, to, true, options)
            <= confidence_in(seconds, less, SegmentKind::Commercial, from, to, true, options),
        confidence_in(seconds, seconds, SegmentKind::Programme, from, to, true, options)
            - confidence_in(seconds, 0, SegmentKind::Programme, from, to, true, options) == 450_000,
        confidence_in(seconds, 0, SegmentKind::Commercial, from, to, true, options)
            - confidence_in(seconds, seconds, SegmentKind::Commercial, from, to, true, options)
            == 450_000,
{
    nearest_is_monotonic(450_000 * less, 450_000 * more, seconds);
    nearest_is_monotonic(450_000 * (seconds - more), 450_000 * (seconds - less), seconds);
    nearest_of_multiple(450_000, seconds);
    nearest_of_multiple(0, seconds);
}

/// Without a logo it does not matter what would have been under it, and a label
/// is trusted as if a little over a third of the agreement were there: less
/// than under a logo that agrees, more than under one that does not.
pub proof fn no_logo_is_weaker_evidence(
    seconds: int,
    covered: int,
    other: int,
    kind: SegmentKind,
    from: Boundary,
    to: Boundary,
    options: CutOptions,
)
    requires
        seconds > 0,
    ensures
        confidence_in(seconds, covered, kind, from, to, false, options) == confidence_in(
            seconds,
            other,
            kind,
            from,
            to,
            false,
            options,
        ),
        ({
            let against = match kind {
                SegmentKind::Programme => 0,
                SegmentKind::Commercial => seconds,
            };
            confidence_in(seconds, covered, kind, from, to, false, options) == confidence_in(
                seconds,
                against,
                kind,
                from,
                to,
                true,
                options,
            ) + 157_500
        }),
{
    nearest_of_multiple(0, seconds);
}

/// Both edges count alike, and each by its quality: an eighth for one with every
/// sign. Which is the first does not matter.
pub proof fn edges_earn_trust(
    seconds: int,
    covered: int,
    kind: SegmentKind,
    from: Boundary,
    to: Boundary,
    better: Boundary,
    logo_available: bool,
    options: CutOptions,
)
    ensures
        confidence_in(seconds, covered, kind, from, to, logo_available, options) == confidence_in(
            seconds,
            covered,
            kind,
            to,
            from,
            logo_available,
            options,
        ),
        100 * (confidence_in(seconds, covered, kind, better, to, logo_available, options)
            - confidence_in(seconds, covered, kind, from, to, logo_available, options)) == 125_000
            * (better.spec_quality() - from.spec_quality()),
{
}

/// Each second under the logo earns a programme the weight of the logo and
/// costs a commercial as much. A stretch half under it is neither, and without
/// a logo what would have been under it does not matter.
pub proof fn the_logo_pulls_both_ways(
    seconds: int,
    covered: int,
    more: int,
    options: CutOptions,
)
    ensures
        score_of(seconds, covered + more, SegmentKind::Programme, true, options) - score_of(
            seconds,
            covered,
            SegmentKind::Programme,
            true,
            options,
        ) == 2 * (more * options.weights.logo),
        score_of(seconds, covered, SegmentKind::Commercial, true, options) - score_of(
            seconds,
            covered + more,
            SegmentKind::Commercial,
            true,
            options,
        ) == 2 * (more * options.weights.logo),
        forall|kind: SegmentKind|
            2 * covered == seconds ==> #[trigger] score_of(seconds, covered, kind, true, options)
                == score_of(seconds, covered, kind, false, options),
        forall|kind: SegmentKind| #[trigger]
            score_of(seconds, covered, kind, false, options) == score_of(
                seconds,
                covered + more,
                kind,
                false,
                options,
            ),
{
    let weight = options.weights.logo as int;
    let base = 2 * covered - seconds;
    assert((base + 2 * more) * weight == base * weight + 2 * (more * weight)) by (nonlinear_arith);
    assert((-base) * weight == (-base - 2 * more) * weight + 2 * (more * weight))
        by (nonlinear_arith);
    if 2 * covered == seconds {
        assert(0 * weight == 0) by (nonlinear_arith);
        assert forall|kind: SegmentKind| #[trigger] score_of(
            seconds,
            covered,
            kind,
            true,
            options,
        ) == score_of(seconds, covered, kind, false, options) by {}
    }
}

/// Landing on the grid is worth its bonus and the penalty that is spared: all
/// else equal, a commercial that a tolerance lets count as on the grid scores
/// higher by both than where it does not.
pub proof fn landing_on_the_grid_pays(
    seconds: int,
    covered: int,
    logo_available: bool,
    wide: CutOptions,
    narrow: CutOptions,
)
    requires
        narrow == (CutOptions { grid_tolerance: narrow.grid_tolerance, ..wide }),
        on_grid(seconds, wide),
        !on_grid(seconds, narrow),
    ensures
        score_of(seconds, covered, SegmentKind::Commercial, logo_available, wide) - score_of(
            seconds,
            covered,
            SegmentKind::Commercial,
            logo_available,
            narrow,
        ) == (wide.weights.grid_bonus + wide.weights.off_grid_penalty) * SECOND,
        score_of(seconds, covered, SegmentKind::Programme, logo_available, wide) == score_of(
            seconds,
            covered,
            SegmentKind::Programme,
            logo_available,
            narrow,
        ),
{
}

/// A programme shorter than is plausible pays for it, once; one that is long
/// enough pays nothing, and with no logo to go on is worth exactly nothing.
pub proof fn short_programmes_pay(
    seconds: int,
    covered: int,
    logo_available: bool,
    lenient: CutOptions,
    demanding: CutOptions,
)
    requires
        demanding == (CutOptions { minimum_programme: demanding.minimum_programme, ..lenient }),
        lenient.minimum_programme <= seconds < demanding.minimum_programme,
    ensures
        score_of(seconds, covered, SegmentKind::Programme, logo_available, lenient) - score_of(
            seconds,
            covered,
            SegmentKind::Programme,
            logo_available,
            demanding,
        ) == lenient.weights.short_programme_penalty * SECOND,
        score_of(seconds, covered, SegmentKind::Commercial, logo_available, lenient) == score_of(
            seconds,
            covered,
            SegmentKind::Commercial,
            logo_available,
            demanding,
        ),
        score_of(seconds, covered, SegmentKind::Programme, false, lenient) == 0,
{
}

/// A commercial block shorter than is plausible pays for it, once.
pub proof fn tiny_commercials_pay(
    seconds: int,
    covered: int,
    logo_available: bool,
    lenient: CutOptions,
    demanding: CutOptions,
)
    requires
        demanding == (CutOptions { minimum_commercial: demanding.minimum_commercial, ..lenient }),
        lenient.minimum_commercial <= seconds < demanding.minimum_commercial,
    ensures
        score_of(seconds, covered, SegmentKind::Commercial, logo_available, lenient) - score_of(
            seconds,
            covered,
            SegmentKind::Commercial,
            logo_available,
            demanding,
        ) == lenient.weights.tiny_commercial_penalty * SECOND,
        score_of(seconds, covered, SegmentKind::Programme, logo_available, lenient) == score_of(
            seconds,
            covered,
            SegmentKind::Programme,
            logo_available,
            demanding,
        ),
{
}

/// A commercial block longer than is plausible pays for every second beyond:
/// the further the limit is overrun the more, and within the limit nothing.
pub proof fn overlong_commercials_pay_by_the_second(
    seconds: int,
    covered: int,
    logo_available: bool,
    longer: CutOptions,
    shorter: CutOptions,
)
    requires
        shorter == (CutOptions { maximum_commercial: shorter.maximum_commercial, ..longer }),
        shorter.maximum_commercial <= longer.maximum_commercial,
    ensures
        longer.maximum_commercial <= seconds ==> score_of(
            seconds,
            covered,
            SegmentKind::Commercial,
            logo_available,
            longer,
        ) - score_of(seconds, covered, SegmentKind::Commercial, logo_available, shorter) == (
        longer.maximum_commercial - shorter.maximum_commercial)
            * longer.weights.overlong_commercial_penalty,
        seconds <= shorter.maximum_commercial ==> score_of(
            seconds,
            covered,
            SegmentKind::Commercial,
            logo_available,
            longer,
        ) == score_of(seconds, covered, SegmentKind::Commercial, logo_available, shorter),
        score_of(seconds, covered, SegmentKind::Programme, logo_available, longer) == score_of(
            seconds,
            covered,
            SegmentKind::Programme,
            logo_available,
            shorter,
        ),
{
    let weight = longer.weights.overlong_commercial_penalty as int;
    let (a, b) = (seconds - longer.maximum_commercial, seconds - shorter.maximum_commercial);
    assert(b * weight - a * weight == (b - a) * weight) by (nonlinear_arith);
}

/// A commercial of plausible length, clear of the logo and on the grid, beats
/// the same stretch called a programme, by what the grid and the logo say.
pub proof fn a_plain_commercial_is_called_one(seconds: int, options: CutOptions)
    requires
        on_grid(seconds, options),
        options.minimum_commercial <= seconds <= options.maximum_commercial,
        options.minimum_programme <= seconds,
    ensures
        score_of(seconds, 0, SegmentKind::Commercial, true, options) - score_of(
            seconds,
            0,
            SegmentKind::Programme,
            true,
            options,
        ) == 2 * (seconds * options.weights.logo) + options.weights.grid_bonus * SECOND,
{
    let weight = options.weights.logo as int;
    assert((-seconds) * weight == -(seconds * weight)) by (nonlinear_arith);
    assert(0 * options.weights.overlong_commercial_penalty as int == 0) by (nonlinear_arith);
}

/// Every boundary costs the switching penalty and earns the boundary bonus in
/// proportion to its quality: the whole of it where every sign is there, none
/// of it where there is none.
pub proof fn boundaries_pay_by_quality(e: Evidence, at: int)
    ensures
        100 * (e.switch(at) + e.options.weights.switch_penalty * SECOND)
            == e.boundaries[at].spec_quality() * (e.options.weights.boundary_bonus * SECOND),
        e.boundaries[at].spec_quality() == 0 ==> e.switch(at)
            == -(e.options.weights.switch_penalty * SECOND),
        e.boundaries[at].spec_quality() == 100 ==> e.switch(at) == (
        e.options.weights.boundary_bonus - e.options.weights.switch_penalty) * SECOND,
{
    reveal(Evidence::switch);
    let (quality, bonus) = (
        e.boundaries[at].spec_quality(),
        e.options.weights.boundary_bonus as int,
    );
    assert(100 * (quality * bonus * 10_000) == quality * (bonus * 1_000_000)) by (nonlinear_arith);
    if quality == 0 {
        assert(quality * bonus == 0) by (nonlinear_arith)
            requires
                quality == 0,
        ;
    }
    if quality == 100 {
        assert(quality * bonus == 100 * bonus) by (nonlinear_arith)
            requires
                quality == 100,
        ;
    }
}

/// Carrying a segmentation on by one more segment adds what the segment is
/// worth and what the boundary between is worth, and leaves what came before
/// as it was; a segmentation of one segment is worth that segment.
pub proof fn segmentations_add_up(e: Evidence, path: Seq<int>, to: int, kind: SegmentKind)
    requires
        path.len() >= 1,
    ensures
        path.len() >= 2 ==> e.path_score(path.push(to), kind) == e.path_score(
            path,
            kind.spec_other(),
        ) + e.switch(path.last()) + e.worth(path.last(), to, kind),
        path.len() == 1 ==> e.path_score(path.push(to), kind) == e.worth(path[0], to, kind),
{
    assert(path.push(to).drop_last() =~= path);
}

/// What a segment is worth is what its own length and its own stretch of logo
/// are worth under its label, and its confidence is what those and its two
/// edges give.
pub proof fn segments_are_judged_on_their_own(e: Evidence, from: int, to: int, kind: SegmentKind)
    requires
        e.wf(),
        0 <= from < e.boundaries.len(),
        0 <= to < e.boundaries.len(),
        e.boundaries[from].at < e.boundaries[to].at,
    ensures
        ({
            let seconds = e.boundaries[to].at - e.boundaries[from].at;
            let covered = e.covered(from, to);
            let (options, logo) = (e.options, e.logo_available);
            let segment = e.segment(from, to, kind);
            &&& e.worth(from, to, kind) == score_of(seconds, covered, kind, logo, options)
            &&& segment.start == e.boundaries[from].at
            &&& segment.end == e.boundaries[to].at
            &&& segment.kind == kind
            &&& segment.confidence == confidence_in(
                seconds,
                covered,
                kind,
                e.boundaries[from],
                e.boundaries[to],
                logo,
                options,
            )
        }),
{
    reveal(Evidence::worth);
    reveal(Evidence::segment);
    e.segment_facts(from, to, kind);
    let (seconds, covered) = (e.seconds(from, to), e.covered(from, to));
    let share = match kind {
        SegmentKind::Programme => covered,
        SegmentKind::Commercial => seconds - covered,
    };
    nearest_is_monotonic(0, 450_000 * share, seconds);
    nearest_is_monotonic(450_000 * share, 450_000 * seconds, seconds);
    nearest_of_multiple(0, seconds);
    nearest_of_multiple(450_000, seconds);
}

/// Where two labels of the last segment are equally good, the recording is
/// taken to end in programme; and of two places a segment could as well begin
/// at, the earlier is taken.
pub proof fn ties_favour_the_programme(e: Evidence, path: Seq<int>, kind: SegmentKind, other: Seq<int>)
    requires
        e.is_chosen(path, kind),
        e.is_path(other, e.boundaries.len() - 1),
    ensures
        kind == SegmentKind::Commercial ==> e.path_score(other, SegmentKind::Programme)
            < e.path_score(path, SegmentKind::Commercial),
        e.path_score(other, kind) == e.path_score(path, kind) ==> path[path.len() - 2]
            <= other[other.len() - 2],
{
    let m = path.len() - 2;
    assert(e.is_best(path.take(m + 2), e.kind_along(path, kind, m)));
    assert(path.take(m + 2) =~= path);
    reveal(Evidence::is_best);
}

/// How much of a stretch an interval covers.
pub open spec fn overlap(interval: LogoInterval, from: int, to: int) -> int {
    let start = if interval.start > from { interval.start as int } else { from };
    let end = if interval.end < to { interval.end as int } else { to };
    if end > start { end - start } else { 0 }
}

/// How much of a stretch some intervals cover, each counted for itself.
pub open spec fn total_overlap(intervals: Seq<LogoInterval>, from: int, to: int) -> int
    decreases intervals.len(),
{
    if intervals.len() == 0 {
        0
    } else {
        total_overlap(intervals.skip(1), from, to) + overlap(intervals[0], from, to)
    }
}

proof fn one_more_interval(intervals: Seq<LogoInterval>, from: int, to: int)
    requires
        intervals.len() > 0,
    ensures
        total_overlap(intervals, from, to) == total_overlap(intervals.drop_last(), from, to)
            + overlap(intervals.last(), from, to),
    decreases intervals.len(),
{
    if intervals.len() > 1 {
        one_more_interval(intervals.skip(1), from, to);
        assert(intervals.skip(1).drop_last() =~= intervals.drop_last().skip(1));
        assert(intervals.skip(1).last() == intervals.last());
        assert(intervals.drop_last()[0] == intervals[0]);
    } else {
        assert(intervals.drop_last().len() == 0);
        assert(intervals.skip(1).len() == 0);
        assert(intervals.last() == intervals[0]);
        assert(total_overlap(intervals.skip(1), from, to) == 0);
        assert(total_overlap(intervals.drop_last(), from, to) == 0);
    }
}

/// The logo over a stretch is what its intervals cover of it, no matter what
/// comes before or after: the difference of the running sums at its two ends.
pub proof fn running_sums_measure_the_logo(intervals: Seq<LogoInterval>, from: int, to: int)
    requires
        from <= to,
        forall|i: int|
            0 <= i < intervals.len() ==> (#[trigger] intervals[i]).start <= intervals[i].end,
    ensures
        logo_before(intervals, to) - logo_before(intervals, from) == total_overlap(
            intervals,
            from,
            to,
        ),
    decreases intervals.len(),
{
    if intervals.len() > 0 {
        let shorter = intervals.drop_last();
        assert forall|i: int| 0 <= i < shorter.len() implies (#[trigger] shorter[i]).start
            <= shorter[i].end by {
            assert(intervals[i].start <= intervals[i].end);
        }
        assert(intervals[intervals.len() - 1].start <= intervals[intervals.len() - 1].end);
        running_sums_measure_the_logo(shorter, from, to);
        one_more_interval(intervals, from, to);
    }
}

/// What is taken for covered is what is, as long as no more is claimed than the
/// stretch is long.
pub proof fn coverage_is_what_the_logo_covers(
    e: Evidence,
    intervals: Seq<LogoInterval>,
    from: int,
    to: int,
)
    requires
        e.wf(),
        e.coverage == crate::cmcut::solve::coverage_of(intervals, e.boundaries),
        forall|i: int|
            0 <= i < intervals.len() ==> (#[trigger] intervals[i]).start <= intervals[i].end
                && intervals[i].in_time(),
        intervals.len() <= u32::MAX,
        0 <= from < e.boundaries.len(),
        0 <= to < e.boundaries.len(),
        e.boundaries[from].at <= e.boundaries[to].at,
    ensures
        ({
            let (start, end) = (e.boundaries[from].at as int, e.boundaries[to].at as int);
            let found = total_overlap(intervals, start, end);
            e.covered(from, to) == (if found > end - start { end - start } else { found })
        }),
{
    let (start, end) = (e.boundaries[from].at as int, e.boundaries[to].at as int);
    running_sums_measure_the_logo(intervals, start, end);
    sums_fit(intervals, start);
    sums_fit(intervals, end);
    overlaps_are_not_negative(intervals, start, end);
}

proof fn sums_fit(intervals: Seq<LogoInterval>, at: int)
    requires
        forall|i: int|
            0 <= i < intervals.len() ==> (#[trigger] intervals[i]).in_time(),
        -1_000_000_000_000_000 <= at <= 1_000_000_000_000_000,
    ensures
        0 <= logo_before(intervals, at) <= intervals.len() * 2_000_000_000_000_000,
    decreases intervals.len(),
{
    if intervals.len() > 0 {
        let shorter = intervals.drop_last();
        assert forall|i: int| 0 <= i < shorter.len() implies (#[trigger] shorter[i]).in_time() by {
            assert(intervals[i].in_time());
        }
        sums_fit(shorter, at);
        assert(intervals[intervals.len() - 1].in_time());
    }
}

proof fn overlaps_are_not_negative(intervals: Seq<LogoInterval>, from: int, to: int)
    ensures
        total_overlap(intervals, from, to) >= 0,
    decreases intervals.len(),
{
    if intervals.len() > 0 {
        overlaps_are_not_negative(intervals.skip(1), from, to);
    }
}

} // verus!
