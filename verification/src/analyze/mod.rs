//! Frame and audio analysis: everything commercial detection reads from.
//!
//! One [`Analysis`] per recording carries the three weak signals a commercial
//! boundary is found from: where the station logo was present, where the
//! picture cut, and where the audio went quiet. None of the three is
//! sufficient alone. Their agreement is what carries the information, which
//! is why they are produced together and consumed together.
//!
//! Every moment in a recording is a whole number of microseconds.

pub mod course;
pub mod logo;
pub mod passes;
pub mod scene;
pub mod survey;

use vstd::prelude::*;
use crate::analyze::logo::model::LogoData;
use crate::analyze::logo::model::Rect;
use crate::analyze::logo::track::LogoInterval;
use crate::analyze::logo::track::LogoTrack;
use crate::analyze::logo::track::TrackOptions;
use crate::analyze::scene::SceneChange;
use crate::analyze::scene::SceneOptions;
use crate::arith::nearest;
use crate::arith::nearest_is_monotonic;
use crate::arith::nearest_of_multiple;
use crate::arith::nearest_quotient;
use crate::media::frames::Frame;
use crate::media::frames::FrameSpacing;
use crate::text::own;

verus! {

/// Microseconds in a second.
pub const SECOND: i64 = 1_000_000;

/// The furthest from zero any moment handed to the library may lie, in
/// microseconds: a little over thirty years.
pub const TIME_LIMIT: i64 = 1_000_000_000_000_000;

/// Whether a moment lies within [`TIME_LIMIT`].
pub open spec fn in_time(t: i64) -> bool {
    -TIME_LIMIT <= t <= TIME_LIMIT
}

/// Whether a moment lies within [`TIME_LIMIT`].
#[must_use]
pub fn is_in_time(t: i64) -> (yes: bool)
    ensures
        yes == in_time(t),
{
    -TIME_LIMIT <= t && t <= TIME_LIMIT
}

/// Level below which audio counts as silent: fifty decibels below full scale.
///
/// Broadcast inserts a near-digital-silence gap at block boundaries, well
/// below the noise floor of any programme material.
pub const DEFAULT_SILENCE_DBFS: u64 = 10_000_000;

/// Shortest gap that counts as a silence, in microseconds.
///
/// Short enough to catch a tight junction, long enough to ignore the pauses
/// between words.
pub const DEFAULT_SILENCE_SECONDS: i64 = 150_000;

/// Window the loudness envelope is computed over, in microseconds.
pub const ENVELOPE_WINDOW_SECONDS: i64 = 20_000;

/// A stretch of quiet audio.
#[derive(Debug, Clone, Copy, PartialEq, Eq, Structural)]
pub struct SilentSpan {
    /// Start, in microseconds.
    pub start: i64,
    /// End, in microseconds.
    pub end: i64,
}

impl SilentSpan {
    /// Both ends are within the limit on moments.
    pub open spec fn in_time(self) -> bool {
        in_time(self.start) && in_time(self.end)
    }

    /// The midpoint, which is where a boundary is taken to fall.
    pub fn centre(&self) -> (centre: i64)
        requires
            self.in_time(),
        ensures
            centre == (self.start + self.end) / 2,
    {
        let sum: i64 = self.start + self.end;
        assert(sum >> 1 == sum as int / 2) by (bit_vector);
        sum >> 1
    }

    /// Length in microseconds.
    pub fn duration(&self) -> (length: i64)
        requires
            self.in_time(),
        ensures
            length == self.end - self.start,
    {
        self.end - self.start
    }
}

/// What was learned about a recording's logo.
#[derive(Debug, Clone, Copy, PartialEq, Eq, Structural)]
pub struct LogoSummary {
    /// Where in the frame it sits.
    pub rect: Rect,
    /// Mean opacity across the rectangle, in millionths.
    pub mean_alpha: i64,
    /// How many flat-background frames the fit used.
    pub frames_used: u32,
    /// Whether it came from the logo store rather than being learned here.
    pub from_store: bool,
}

/// Everything the analysis pass found.
#[derive(Debug, Clone, PartialEq, Eq)]
pub struct Analysis {
    /// Duration analysed, in microseconds.
    pub duration: i64,
    /// How far apart the analysed frames are.
    pub spacing: FrameSpacing,
    /// The logo, when one was found.
    pub logo: Option<LogoSummary>,
    /// The logo itself, when it was learned by this run.
    ///
    /// Carried so the caller can add it to the logo store.
    pub learned_logo: Option<LogoData>,
    /// Spans during which the logo was present.
    pub logo_intervals: Vec<LogoInterval>,
    /// The per-frame logo score, retained for the timeline view.
    pub logo_track: Option<LogoTrack>,
    /// Detected cuts.
    pub scene_changes: Vec<SceneChange>,
    /// Detected silences.
    pub silent_spans: Vec<SilentSpan>,
}

/// The lengths of some intervals, added up.
pub open spec fn total_presence(intervals: Seq<LogoInterval>) -> int
    decreases intervals.len(),
{
    if intervals.len() == 0 {
        0
    } else {
        total_presence(intervals.drop_last()) + (intervals.last().end - intervals.last().start)
    }
}

/// A share of one, in millionths to the nearest, kept between nothing and
/// all.
pub open spec fn share_in_range(part: int, whole: int) -> int {
    if whole <= 0 || part <= 0 {
        0
    } else if part >= whole {
        1_000_000
    } else {
        nearest(part * 1_000_000, whole)
    }
}

/// A share of one, kept between nothing and all.
fn bounded_share(part: i128, whole: i64) -> (share: i64)
    requires
        in_time(whole),
    ensures
        share == share_in_range(part as int, whole as int),
        0 <= share <= 1_000_000,
{
    if whole <= 0 || part <= 0 {
        return 0;
    }
    if part >= whole as i128 {
        return 1_000_000;
    }
    proof {
        nearest_is_monotonic(0, part * 1_000_000, whole as int);
        nearest_is_monotonic(part * 1_000_000, 1_000_000 * whole, whole as int);
        nearest_of_multiple(0, whole as int);
        nearest_of_multiple(1_000_000, whole as int);
    }
    nearest_quotient(part * 1_000_000, whole as i128) as i64
}

impl Analysis {
    /// Every moment is within the limit, and there are few enough of them to
    /// count.
    pub open spec fn wf(self) -> bool {
        &&& in_time(self.duration)
        &&& forall|i: int|
            0 <= i < self.logo_intervals@.len() ==> (#[trigger] self.logo_intervals@[i]).in_time()
        &&& forall|i: int|
            0 <= i < self.scene_changes@.len() ==> in_time(
                (#[trigger] self.scene_changes@[i]).at,
            )
        &&& forall|i: int|
            0 <= i < self.silent_spans@.len() ==> (#[trigger] self.silent_spans@[i]).in_time()
        &&& 2 + 2 * self.logo_intervals@.len() + self.scene_changes@.len()
            + self.silent_spans@.len() <= u32::MAX
    }

    /// Whether every moment is within the limit, and there are few enough of
    /// them to count.
    #[must_use]
    pub fn is_sound(&self) -> (yes: bool)
        ensures
            yes == self.wf(),
    {
        if !is_in_time(self.duration) || 2 + 2 * self.logo_intervals.len() as u128
            + self.scene_changes.len() as u128 + self.silent_spans.len() as u128
            > u32::MAX as u128 {
            return false;
        }
        for i in 0..self.logo_intervals.len()
            invariant
                forall|k: int|
                    0 <= k < i ==> (#[trigger] self.logo_intervals@[k]).in_time(),
        {
            let interval = self.logo_intervals[i];
            if !is_in_time(interval.start) || !is_in_time(interval.end) {
                assert(!self.logo_intervals@[i as int].in_time());
                return false;
            }
        }
        for i in 0..self.scene_changes.len()
            invariant
                forall|k: int| 0 <= k < i ==> in_time((#[trigger] self.scene_changes@[k]).at),
        {
            if !is_in_time(self.scene_changes[i].at) {
                assert(!in_time(self.scene_changes@[i as int].at));
                return false;
            }
        }
        for i in 0..self.silent_spans.len()
            invariant
                forall|k: int| 0 <= k < i ==> (#[trigger] self.silent_spans@[k]).in_time(),
        {
            let span = self.silent_spans[i];
            if !is_in_time(span.start) || !is_in_time(span.end) {
                assert(!self.silent_spans@[i as int].in_time());
                return false;
            }
        }
        true
    }

    /// A logo was found and looks usable.
    pub open spec fn spec_has_logo(self) -> bool {
        self.logo is Some && self.logo_intervals@.len() > 0
    }

    /// Whether a logo was found and looks usable.
    #[must_use]
    pub fn has_logo(&self) -> (yes: bool)
        ensures
            yes == self.spec_has_logo(),
    {
        self.logo.is_some() && self.logo_intervals.len() > 0
    }

    /// Fraction of the recording the logo was present for, in millionths.
    #[must_use]
    pub fn logo_coverage(&self) -> (coverage: i64)
        requires
            self.wf(),
        ensures
            coverage == share_in_range(
                total_presence(self.logo_intervals@),
                self.duration as int,
            ),
            0 <= coverage <= 1_000_000,
    {
        let mut total: i128 = 0;
        for i in 0..self.logo_intervals.len()
            invariant
                self.wf(),
                total == total_presence(self.logo_intervals@.take(i as int)),
                -(i * 2_000_000_000_000_000) <= total <= i * 2_000_000_000_000_000,
        {
            assert(self.logo_intervals@[i as int].in_time());
            assert(self.logo_intervals@.take(i + 1).drop_last() =~= self.logo_intervals@.take(
                i as int,
            ));
            total += self.logo_intervals[i].duration() as i128;
        }
        assert(self.logo_intervals@.take(self.logo_intervals@.len() as int)
            =~= self.logo_intervals@);
        bounded_share(total, self.duration)
    }
}

/// How to analyse a recording.
#[derive(Debug, Clone)]
pub struct AnalysisOptions {
    /// A logo to use instead of learning one.
    ///
    /// Supplying a logo from the store turns a three-pass analysis into a
    /// one-pass one, which is the difference between minutes and seconds on a
    /// long recording. This is the steady state once a channel has been seen.
    pub logo: Option<LogoData>,
    /// Where the logo is, when it is already known.
    ///
    /// For a channel whose logo has been located once by hand this is far more
    /// reliable than finding it again: automatic location has to infer from
    /// the picture what a person can simply see. Supplying it skips the
    /// location pass entirely.
    pub logo_rect: Option<Rect>,
    /// Whether to look for a logo at all.
    ///
    /// Off for a channel known to carry none, which skips three decoding
    /// passes and stops the locator settling on a telop banner instead.
    pub find_logo: bool,
    /// Name to give a newly learned logo.
    pub logo_name: String,
    /// Channel a newly learned logo belongs to.
    pub channel_id: Option<String>,
    /// Deinterlace before analysing.
    pub deinterlace: bool,
    /// Decimation for the logo location pass.
    pub locate_step: u32,
    /// Decimation for the logo learning pass.
    pub learn_step: u32,
    /// Level below which audio counts as silent, in trillionths of full scale
    /// power.
    pub silence_dbfs: u64,
    /// Shortest silence worth recording, in microseconds.
    pub silence_seconds: i64,
    /// Scene-change tunables.
    pub scene: SceneOptions,
    /// Logo track tunables.
    pub track: TrackOptions,
}

impl Default for AnalysisOptions {
    fn default() -> (options: AnalysisOptions)
        ensures
            options.logo is None,
            options.logo_rect is None,
            options.find_logo,
            options.logo_name@ == "unknown"@,
            options.channel_id is None,
            options.deinterlace,
            options.locate_step == 10,
            options.learn_step == 2,
            options.silence_dbfs == DEFAULT_SILENCE_DBFS,
            options.silence_seconds == DEFAULT_SILENCE_SECONDS,
            call_ensures(SceneOptions::default, (), options.scene),
            call_ensures(TrackOptions::default, (), options.track),
    {
        AnalysisOptions {
            logo: None,
            logo_rect: None,
            find_logo: true,
            logo_name: own("unknown"),
            channel_id: None,
            deinterlace: true,
            // Locating needs only enough frames to average out motion.
            locate_step: 10,
            // Learning needs flat-background frames, which are rare enough
            // that decimating hard would miss them.
            learn_step: 2,
            silence_dbfs: DEFAULT_SILENCE_DBFS,
            silence_seconds: DEFAULT_SILENCE_SECONDS,
            scene: SceneOptions::default(),
            track: TrackOptions::default(),
        }
    }
}

/// Which stage the analysis has reached.
#[derive(Debug, Clone, Copy, PartialEq, Eq, Structural)]
pub enum Stage {
    /// Decoding audio for the loudness envelope.
    Audio,
    /// Looking for where the logo sits.
    LocatingLogo,
    /// Learning the logo's opacity and colour.
    LearningLogo,
    /// Scoring frames and detecting cuts.
    Detecting,
}

/// A progress report from the analysis pass.
#[derive(Debug, Clone, Copy, PartialEq, Eq, Structural)]
pub struct AnalysisProgress {
    /// The stage in progress.
    pub stage: Stage,
    /// How far through the recording this stage is, in millionths.
    pub fraction: i64,
}

/// Progress as a fraction, in millionths, guarding against an unknown
/// duration.
#[must_use]
pub fn fraction_of(position: i64, duration: i64) -> (fraction: i64)
    requires
        in_time(duration),
    ensures
        fraction == share_in_range(position as int, duration as int),
        0 <= fraction <= 1_000_000,
{
    bounded_share(position as i128, duration)
}

/// How many frames pass between reports of a stage.
pub open spec fn report_interval(stage: Stage) -> int {
    match stage {
        Stage::Detecting => 128,
        _ => 64,
    }
}

/// The report to make at a frame, if one is due: every so often, rather than
/// on every frame.
#[must_use]
pub fn report(frame: &Frame<'_>, stage: Stage, duration: i64) -> (due: Option<AnalysisProgress>)
    requires
        in_time(duration),
    ensures
        due == (if frame.index as int % report_interval(stage) == 0 {
            Some(
                AnalysisProgress {
                    stage,
                    fraction: share_in_range(frame.timestamp as int, duration as int) as i64,
                },
            )
        } else {
            None
        }),
{
    let interval: u64 = match stage {
        Stage::Detecting => 128,
        _ => 64,
    };
    if frame.index % interval == 0 {
        Some(AnalysisProgress { stage, fraction: fraction_of(frame.timestamp, duration) })
    } else {
        None
    }
}

} // verus!
