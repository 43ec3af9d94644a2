//! What one candidate segment is worth.

use vstd::prelude::*;
use crate::analyze::in_time;
use crate::analyze::SECOND;
use crate::analyze::TIME_LIMIT;
use crate::arith::nearest;
use crate::arith::nearest_quotient;
use crate::cmcut::boundary::Boundary;
use crate::cmcut::boundary::BoundaryOptions;

verus! {

/// What a stretch of the recording is.
#[derive(Debug, Clone, Copy, PartialEq, Eq, Structural)]
pub enum SegmentKind {
    /// Part of the programme; kept.
    Programme,
    /// A commercial block; cut, when the plan is applied.
    Commercial,
}

impl SegmentKind {
    /// The kind that is not this one.
    pub open spec fn spec_other(self) -> SegmentKind {
        match self {
            SegmentKind::Programme => SegmentKind::Commercial,
            SegmentKind::Commercial => SegmentKind::Programme,
        }
    }

    /// The other kind.
    #[must_use]
    pub fn other(self) -> (kind: SegmentKind)
        ensures
            kind == self.spec_other(),
            kind != self,
            kind.spec_other() == self,
    {
        match self {
            SegmentKind::Programme => SegmentKind::Commercial,
            SegmentKind::Commercial => SegmentKind::Programme,
        }
    }

    /// The label of each kind.
    pub open spec fn spec_label(self) -> Seq<char> {
        match self {
            SegmentKind::Programme => "Programme"@,
            SegmentKind::Commercial => "CM"@,
        }
    }

    /// A short label for chapter titles.
    #[must_use]
    pub fn label(self) -> (label: &'static str)
        ensures
            label@ == self.spec_label(),
    {
        match self {
            SegmentKind::Programme => "Programme",
            SegmentKind::Commercial => "CM",
        }
    }
}

/// What to do when the segmenter does not trust its own answer.
#[derive(Debug, Clone, Copy, PartialEq, Eq, Structural)]
pub enum LowConfidencePolicy {
    /// Transcode the whole recording, writing chapters but cutting nothing.
    ///
    /// The default, because an uncut recording is an annoyance and a
    /// wrongly cut one is a loss.
    Keep,
    /// Cut anyway.
    Cut,
    /// Fail the job so a human looks at it.
    Fail,
    /// Hold the job until the channel's logo has been taught, rather than
    /// quietly producing an uncut file nobody notices.
    Block,
}

/// The largest weight the segmenter accepts, in millionths of a second of
/// evidence: a million seconds.
pub const WEIGHT_LIMIT: i64 = 1_000_000_000_000;

/// Whether a weight lies within [`WEIGHT_LIMIT`].
pub open spec fn in_weight(w: i64) -> bool {
    -WEIGHT_LIMIT <= w <= WEIGHT_LIMIT
}

/// Weights for the scoring terms, in millionths of a second of evidence.
#[derive(Debug, Clone, Copy, PartialEq, Eq, Structural)]
pub struct Weights {
    /// Per second, for the logo agreeing with the label.
    pub logo: i64,
    /// For a commercial block landing on the 15-second grid.
    pub grid_bonus: i64,
    /// For a commercial block that does not.
    pub off_grid_penalty: i64,
    /// Charged at every boundary, to discourage over-segmentation.
    pub switch_penalty: i64,
    /// Multiplied by boundary quality and credited at every boundary.
    pub boundary_bonus: i64,
    /// For a programme segment shorter than [`CutOptions::minimum_programme`].
    pub short_programme_penalty: i64,
    /// Per second, for a commercial block longer than
    /// [`CutOptions::maximum_commercial`].
    pub overlong_commercial_penalty: i64,
    /// For a commercial block shorter than
    /// [`CutOptions::minimum_commercial`].
    pub tiny_commercial_penalty: i64,
}

impl Weights {
    /// Every weight is within the limit.
    pub open spec fn wf(self) -> bool {
        &&& in_weight(self.logo)
        &&& in_weight(self.grid_bonus)
        &&& in_weight(self.off_grid_penalty)
        &&& in_weight(self.switch_penalty)
        &&& in_weight(self.boundary_bonus)
        &&& in_weight(self.short_programme_penalty)
        &&& in_weight(self.overlong_commercial_penalty)
        &&& in_weight(self.tiny_commercial_penalty)
    }
}

impl Default for Weights {
    fn default() -> (weights: Weights)
        ensures
            weights == (Weights {
                logo: 1_000_000,
                grid_bonus: 20_000_000,
                off_grid_penalty: 15_000_000,
                switch_penalty: 8_000_000,
                boundary_bonus: 30_000_000,
                short_programme_penalty: 40_000_000,
                overlong_commercial_penalty: 2_000_000,
                tiny_commercial_penalty: 30_000_000,
            }),
    {
        Weights {
            logo: 1_000_000,
            grid_bonus: 20_000_000,
            off_grid_penalty: 15_000_000,
            switch_penalty: 8_000_000,
            boundary_bonus: 30_000_000,
            short_programme_penalty: 40_000_000,
            overlong_commercial_penalty: 2_000_000,
            tiny_commercial_penalty: 30_000_000,
        }
    }
}

/// Tunables for segmentation.
#[derive(Debug, Clone, Copy, PartialEq, Eq, Structural)]
pub struct CutOptions {
    /// The unit Japanese commercial blocks are laid out in, in microseconds.
    pub grid_seconds: i64,
    /// How far off the grid a block may fall and still count as on it.
    pub grid_tolerance: i64,
    /// Longest plausible commercial block, in microseconds.
    pub maximum_commercial: i64,
    /// Shortest plausible commercial block, in microseconds.
    pub minimum_commercial: i64,
    /// Shortest plausible programme segment, in microseconds.
    pub minimum_programme: i64,
    /// Confidence below which [`LowConfidencePolicy`] takes over, in
    /// millionths.
    pub confidence_threshold: i64,
    /// What to do below that threshold.
    pub low_confidence: LowConfidencePolicy,
    /// Scoring weights.
    pub weights: Weights,
    /// Candidate construction tunables.
    pub boundaries: BoundaryOptions,
}

impl CutOptions {
    /// Every duration and weight is within its limit.
    pub open spec fn wf(self) -> bool {
        &&& in_time(self.grid_seconds)
        &&& in_time(self.grid_tolerance)
        &&& in_time(self.maximum_commercial)
        &&& in_time(self.minimum_commercial)
        &&& in_time(self.minimum_programme)
        &&& self.weights.wf()
        &&& self.boundaries.wf()
    }
}

impl Default for CutOptions {
    fn default() -> (options: CutOptions)
        ensures
            options.wf(),
            options.grid_seconds == 15 * SECOND,
            options.grid_tolerance == 350_000,
            options.maximum_commercial == 180 * SECOND,
            options.minimum_commercial == 10 * SECOND,
            options.minimum_programme == 60 * SECOND,
            options.confidence_threshold == 550_000,
            options.low_confidence == LowConfidencePolicy::Keep,
            call_ensures(Weights::default, (), options.weights),
            call_ensures(BoundaryOptions::default, (), options.boundaries),
    {
        CutOptions {
            grid_seconds: 15 * SECOND,
            // Broadcast timing is tight but the boundary itself is only known
            // to within a scene change, so a third of a second is realistic.
            grid_tolerance: 350_000,
            maximum_commercial: 180 * SECOND,
            minimum_commercial: 10 * SECOND,
            minimum_programme: 60 * SECOND,
            confidence_threshold: 550_000,
            low_confidence: LowConfidencePolicy::Keep,
            weights: Weights::default(),
            boundaries: BoundaryOptions::default(),
        }
    }
}

/// A duration is within tolerance of some whole number of grid units, at
/// least one, and no shorter than half a unit.
pub open spec fn on_grid(seconds: int, options: CutOptions) -> bool {
    &&& options.grid_seconds > 0
    &&& 2 * seconds >= options.grid_seconds
    &&& exists|units: int|
        units >= 1 && -options.grid_tolerance <= #[trigger] off_by(
            seconds,
            units,
            options.grid_seconds as int,
        ) <= options.grid_tolerance
}

/// How far a duration lies from a number of grid units.
pub open spec fn off_by(seconds: int, units: int, grid: int) -> int {
    seconds - units * grid
}

/// Whether a duration is a whole number of grid units, within tolerance.
pub fn fits_grid(seconds: i64, options: &CutOptions) -> (fits: bool)
    requires
        in_time(seconds),
        options.wf(),
    ensures
        fits == on_grid(seconds as int, *options),
{
    let grid: i64 = options.grid_seconds;
    if grid <= 0 || 2 * seconds < grid {
        return false;
    }
    // The nearest whole number of units: no other is closer.
    let units: i64 = (2 * seconds + grid) / (2 * grid);
    let rest: i64 = (2 * seconds + grid) % (2 * grid);
    let ghost exact = units as int * grid as int;
    proof {
        vstd::arithmetic::div_mod::lemma_fundamental_div_mod(
            2 * seconds + grid,
            2 * grid,
        );
        assert(2 * exact == (2 * grid) * units) by (nonlinear_arith)
            requires
                exact == units as int * grid as int,
        ;
        assert(2 * seconds + grid == 2 * exact + rest);
        assert(units >= 1) by (nonlinear_arith)
            requires
                2 * exact + rest >= 2 * grid,
                exact == units as int * grid as int,
                rest < 2 * grid,
                grid > 0,
        ;
        assert(off_by(seconds as int, units as int, grid as int) == seconds - exact);
        assert forall|other: int| other >= 1 implies {
            let near = seconds - exact;
            let far = #[trigger] off_by(seconds as int, other, grid as int);
            (if near < 0 { -near } else { near }) <= (if far < 0 { -far } else { far })
        } by {
            let far = off_by(seconds as int, other, grid as int);
            if other > units {
                assert(other * grid >= exact + grid) by (nonlinear_arith)
                    requires
                        other >= units + 1,
                        exact == units as int * grid as int,
                        grid > 0,
                ;
            } else if other < units {
                assert(other * grid <= exact - grid) by (nonlinear_arith)
                    requires
                        other <= units - 1,
                        exact == units as int * grid as int,
                        grid > 0,
                ;
            }
        }
    }
    assert(-grid <= seconds - exact <= grid);
    let off: i64 = seconds - units * grid;
    let size: i64 = if off < 0 { -off } else { off };
    size <= options.grid_tolerance
}

/// What one candidate segment is worth.
///
/// With no logo to go on, the logo term contributes nothing rather than
/// penalising every segment equally; otherwise "logo absent everywhere" would
/// read as "commercials everywhere".
pub open spec fn score_of(
    seconds: int,
    covered: int,
    kind: SegmentKind,
    logo_available: bool,
    options: CutOptions,
) -> int {
    let weights = options.weights;
    let agreement = match kind {
        SegmentKind::Programme => 2 * covered - seconds,
        SegmentKind::Commercial => seconds - 2 * covered,
    };
    let logo = if logo_available { agreement * weights.logo } else { 0 };
    match kind {
        SegmentKind::Programme => {
            logo - (if seconds < options.minimum_programme {
                weights.short_programme_penalty * SECOND
            } else {
                0
            })
        },
        SegmentKind::Commercial => {
            let grid = if on_grid(seconds, options) {
                weights.grid_bonus as int
            } else {
                -(weights.off_grid_penalty as int)
            };
            let excess = seconds - options.maximum_commercial;
            let overlong = (if excess > 0 { excess } else { 0 })
                * weights.overlong_commercial_penalty;
            let tiny = if seconds < options.minimum_commercial {
                weights.tiny_commercial_penalty as int
            } else {
                0
            };
            logo + grid * SECOND - overlong - tiny * SECOND
        },
    }
}

/// No segment's score lies further from zero than this.
pub const SCORE_LIMIT: i128 = 6_000_000_000_000_000_000_000_000_000;

proof fn product_limit(a: int, b: int, m: int, n: int)
    requires
        -m <= a <= m,
        -n <= b <= n,
        0 <= m,
        0 <= n,
    ensures
        -(m * n) <= a * b <= m * n,
{
    assert(-(m * n) <= a * b <= m * n) by (nonlinear_arith)
        requires
            -m <= a <= m,
            -n <= b <= n,
            0 <= m,
            0 <= n,
    ;
}

/// Score one candidate segment of which the logo covers `covered`.
pub fn segment_score(
    seconds: i64,
    covered: i64,
    kind: SegmentKind,
    logo_available: bool,
    options: &CutOptions,
) -> (score: i128)
    requires
        in_time(seconds),
        in_time(covered),
        options.wf(),
    ensures
        score == score_of(seconds as int, covered as int, kind, logo_available, *options),
        -SCORE_LIMIT <= score <= SCORE_LIMIT,
{
    let weights = &options.weights;
    let agreement: i128 = match kind {
        SegmentKind::Programme => 2 * (covered as i128) - seconds as i128,
        SegmentKind::Commercial => seconds as i128 - 2 * (covered as i128),
    };
    proof {
        product_limit(
            agreement as int,
            weights.logo as int,
            3 * TIME_LIMIT as int,
            WEIGHT_LIMIT as int,
        );
    }
    let logo: i128 = if logo_available { agreement * weights.logo as i128 } else { 0 };
    match kind {
        SegmentKind::Programme => {
            let short: i128 = if seconds < options.minimum_programme {
                weights.short_programme_penalty as i128 * 1_000_000
            } else {
                0
            };
            logo - short
        },
        SegmentKind::Commercial => {
            let grid: i128 = if fits_grid(seconds, options) {
                weights.grid_bonus as i128
            } else {
                -(weights.off_grid_penalty as i128)
            };
            let excess: i128 = if seconds > options.maximum_commercial {
                (seconds - options.maximum_commercial) as i128
            } else {
                0
            };
            proof {
                product_limit(
                    excess as int,
                    weights.overlong_commercial_penalty as int,
                    2 * TIME_LIMIT as int,
                    WEIGHT_LIMIT as int,
                );
            }
            let overlong: i128 = excess * weights.overlong_commercial_penalty as i128;
            let tiny: i128 = if seconds < options.minimum_commercial {
                weights.tiny_commercial_penalty as i128
            } else {
                0
            };
            logo + grid * 1_000_000 - overlong - tiny * 1_000_000
        },
    }
}

/// How much to trust one segment's label, in millionths: 45% how far the logo
/// agrees (or 35% of that share without one), 30% the grid, 25% the mean
/// quality of the two edges. A programme has no expected duration, so the
/// grid says nothing either way and should not drag its confidence down.
pub open spec fn confidence_in(
    seconds: int,
    covered: int,
    kind: SegmentKind,
    from: Boundary,
    to: Boundary,
    logo_available: bool,
    options: CutOptions,
) -> int {
    let agreement = if logo_available {
        nearest(
            450_000 * (match kind {
                SegmentKind::Programme => covered,
                SegmentKind::Commercial => seconds - covered,
            }),
            seconds,
        )
    } else {
        157_500
    };
    let grid = match kind {
        SegmentKind::Programme => 180_000int,
        SegmentKind::Commercial => if on_grid(seconds, options) { 300_000 } else { 0 },
    };
    agreement + grid + 1_250 * (from.spec_quality() + to.spec_quality())
}

/// How much to trust one segment's label.
pub fn segment_confidence(
    seconds: i64,
    covered: i64,
    kind: SegmentKind,
    from: &Boundary,
    to: &Boundary,
    logo_available: bool,
    options: &CutOptions,
) -> (confidence: i64)
    requires
        in_time(seconds),
        0 < seconds,
        0 <= covered <= seconds,
        options.wf(),
    ensures
        confidence == confidence_in(
            seconds as int,
            covered as int,
            kind,
            *from,
            *to,
            logo_available,
            *options,
        ),
        0 <= confidence <= 1_000_000,
{
    let agreement: i64 = if logo_available {
        let share: i64 = match kind {
            SegmentKind::Programme => covered,
            SegmentKind::Commercial => seconds - covered,
        };
        let quotient: i128 = nearest_quotient(450_000 * share as i128, seconds as i128);
        assert(quotient <= 450_000) by {
            let top = 450_000 * share as int;
            assert((2 * top + seconds) / (2 * seconds) <= 450_000) by (nonlinear_arith)
                requires
                    0 <= top <= 450_000 * seconds,
                    seconds > 0,
            ;
        }
        quotient as i64
    } else {
        // Without a logo the label rests entirely on timing and boundaries,
        // which is genuinely weaker evidence.
        157_500
    };
    let grid: i64 = match kind {
        SegmentKind::Programme => 180_000,
        SegmentKind::Commercial => if fits_grid(seconds, options) {
            300_000
        } else {
            0
        },
    };
    agreement + grid + 1_250 * (from.quality() + to.quality())
}

} // verus!
