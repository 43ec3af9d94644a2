//! The passes an analysis makes over a recording, and what is decided between
//! them.
//!
//! # Why three passes to learn a logo
//!
//! The first finds where the logo is. The second fits it from every
//! flat-background frame, but a recording's flat frames are partly the fades
//! inside its *commercials*, where there is no logo at all. Those frames say
//! "observed equals background", which is a different relationship from the
//! one being fitted, and mixing the two drags the estimated opacity toward
//! zero.
//!
//! So the third pass uses the second's result to judge which flat frames
//! actually carried the logo, and refits from those alone. A logo from the
//! store skips all three.

use vstd::prelude::*;
use crate::analyze::in_time;
use crate::analyze::logo::detect::detectable;
use crate::analyze::logo::detect::frame_score;
use crate::analyze::logo::detect::LogoDetector;
use crate::analyze::logo::model::LogoData;
use crate::analyze::logo::model::LogoView;
use crate::analyze::logo::model::Rect;
use crate::analyze::logo::scan::background_of;
use crate::analyze::logo::scan::learned_logos_are_sound;
use crate::analyze::logo::scan::logo_view;
use crate::analyze::logo::scan::Gathered;
use crate::analyze::logo::scan::LogoScanner;
use crate::analyze::logo::scan::DEFAULT_FLATNESS_THRESHOLD;
use crate::analyze::logo::track::presence;
use crate::analyze::logo::track::LogoInterval;
use crate::analyze::logo::track::LogoTrack;
use crate::analyze::scene::cuts_among;
use crate::analyze::scene::difference_of;
use crate::analyze::scene::reduction;
use crate::analyze::scene::SceneChange;
use crate::analyze::scene::SceneDetector;
use crate::analyze::survey::mean_opacity;
use crate::analyze::Analysis;
use crate::analyze::AnalysisOptions;
use crate::analyze::LogoSummary;
use crate::analyze::SilentSpan;
use crate::media::audio::RmsEnvelope;
use crate::media::audio::long_spans;
use crate::media::audio::quiet_runs;
use crate::media::frames::Frame;
use crate::media::frames::FrameSpacing;
use crate::text::text_of;

verus! {

/// Score at which a bootstrap detector is taken to have seen the logo, in
/// millionths.
///
/// Deliberately low. The bootstrap fit is the weaker of the two, so its scores
/// are muted; gating hard on it would reject the very frames the refinement
/// needs.
pub const REFINEMENT_GATE: i64 = 250_000;

/// Where an analysis gets its logo from.
#[derive(Debug, Clone, Copy, PartialEq, Eq, Structural)]
pub enum LogoSource {
    /// The store already has it.
    Stored,
    /// The channel is known to carry none.
    Nowhere,
    /// It has to be learned.
    Learned,
}

/// Where an analysis gets its logo from: a logo from the store skips all three
/// learning passes entirely, and a channel known to carry none skips them for
/// good.
#[must_use]
pub fn logo_source(options: &AnalysisOptions) -> (source: LogoSource)
    ensures
        source == (if options.logo is Some {
            LogoSource::Stored
        } else if !options.find_logo {
            LogoSource::Nowhere
        } else {
            LogoSource::Learned
        }),
{
    if options.logo.is_some() {
        LogoSource::Stored
    } else if !options.find_logo {
        LogoSource::Nowhere
    } else {
        LogoSource::Learned
    }
}

/// What to do next in learning a logo.
#[derive(Debug, PartialEq, Eq)]
pub enum LearnAction {
    /// Look for where the logo is.
    Locate,
    /// Fit a logo in a rectangle from every flat frame.
    Scan {
        /// Where the logo is.
        rect: Rect,
        /// Whether that was supplied, rather than inferred from the picture.
        supplied: bool,
    },
    /// Nothing more: this is the logo, if there is one.
    Done(Option<LogoData>),
}

/// A rectangle an operator gave that fits the picture.
pub open spec fn usable(rect: Option<Rect>, width: u32, height: u32) -> bool {
    rect matches Some(rect) && rect.valid() && rect.fits(width as int, height as int)
}

/// How learning a logo begins.
///
/// A rectangle given by the operator is better evidence than anything the
/// locator can infer from the picture, so it is used as-is and the location
/// pass is skipped. One that does not fit the picture is ignored rather than
/// trusted: a logo file copied from another resolution would otherwise point
/// the scanner at the wrong part of the frame. With no picture there is no
/// logo.
#[must_use]
pub fn begin_learning(size: Option<(u32, u32)>, logo_rect: Option<Rect>) -> (action: LearnAction)
    ensures
        match size {
            None => action == LearnAction::Done(None),
            Some((width, height)) => action == (if usable(logo_rect, width, height) {
                LearnAction::Scan { rect: logo_rect->Some_0, supplied: true }
            } else {
                LearnAction::Locate
            }),
        },
{
    let (width, height): (u32, u32) = match size {
        Some(size) => size,
        None => {
            return LearnAction::Done(None);
        },
    };
    match logo_rect {
        Some(rect) => if rect.is_valid() && rect.fits_within(width, height) {
            LearnAction::Scan { rect, supplied: true }
        } else {
            LearnAction::Locate
        },
        None => LearnAction::Locate,
    }
}

/// What follows the location pass: a region is scanned, and with none there is
/// no logo.
#[must_use]
pub fn after_locating(found: Option<Rect>) -> (action: LearnAction)
    ensures
        action == (match found {
            Some(rect) => LearnAction::Scan { rect, supplied: false },
            None => LearnAction::Done(None),
        }),
{
    match found {
        Some(rect) => LearnAction::Scan { rect, supplied: false },
        None => LearnAction::Done(None),
    }
}

/// What follows the bootstrap fit.
#[derive(Debug)]
pub enum RefineAction {
    /// Refit from the frames this detector recognises.
    Refine {
        /// Judges which frames carry the logo.
        gate: LogoDetector,
        /// The fit to fall back on.
        bootstrap: LogoData,
    },
    /// Nothing more: this is the logo, if there is one.
    Done(Option<LogoData>),
}

/// What follows the bootstrap fit: with none there is no logo, and one that can
/// be detected is refined. One that cannot is all there is, and is a logo only
/// if it looks like one: it was fitted with the plausibility check switched
/// off.
#[must_use]
pub fn after_bootstrap(fit: Option<LogoData>) -> (action: RefineAction)
    requires
        fit matches Some(logo) ==> logo@.consistent() && logo@.physical(),
    ensures
        match fit {
            None => action == RefineAction::Done(None),
            Some(logo) => if detectable(logo@) {
                action matches RefineAction::Refine { gate, bootstrap } && gate.wf() && gate@
                    == logo@ && bootstrap == logo
            } else {
                action == RefineAction::Done(
                    if logo@.plausible() {
                        Some(logo)
                    } else {
                        None
                    },
                )
            },
        },
{
    let bootstrap = match fit {
        None => {
            return RefineAction::Done(None);
        },
        Some(bootstrap) => bootstrap,
    };
    match LogoDetector::new(bootstrap.duplicate()) {
        Some(gate) => RefineAction::Refine { gate, bootstrap },
        None => if bootstrap.is_plausible() {
            RefineAction::Done(Some(bootstrap))
        } else {
            RefineAction::Done(None)
        },
    }
}

/// The logo that comes of a refinement.
///
/// Refinement can reject every frame if the bootstrap was too weak to
/// recognise its own logo. The bootstrap is still the best available, but only
/// if it looks like a logo at all: it was fitted with the plausibility check
/// deliberately switched off, so falling back to it unconditionally would
/// store a fit of nothing at all against the channel.
pub open spec fn kept_after(bootstrap: LogoData, refined: Option<LogoData>) -> Option<LogoData> {
    match refined {
        Some(refined) => Some(refined),
        None => if bootstrap@.plausible() {
            Some(bootstrap)
        } else {
            None
        },
    }
}

/// A fit of nothing at all never comes back as a logo: what a refinement leaves
/// looks like one, whatever the two fits came to.
pub proof fn learned_logos_look_like_logos(
    bootstrap: LogoData,
    refined: Option<LogoData>,
    gathered: Gathered,
    name: Seq<char>,
    channel: Option<Seq<char>>,
    size: (u32, u32),
)
    requires
        logo_view(refined) == gathered.learned(name, channel, size, true),
    ensures
        kept_after(bootstrap, refined) matches Some(logo) ==> logo@.plausible(),
{
}

/// The logo that comes of a refinement.
#[must_use]
pub fn after_refining(bootstrap: LogoData, refined: Option<LogoData>) -> (logo: Option<LogoData>)
    ensures
        logo == kept_after(bootstrap, refined),
{
    match refined {
        Some(refined) => Some(refined),
        None => if bootstrap.is_plausible() {
            Some(bootstrap)
        } else {
            None
        },
    }
}

/// One learning pass, optionally admitting only frames a detector accepts.
#[derive(Debug)]
pub struct ScanPass {
    scanner: LogoScanner,
    gate: Option<LogoDetector>,
}

/// What is gathered after a frame: one in which no logo is seen is passed
/// over, and so is one whose border is not flat.
pub open spec fn gathered_after(
    gathered: Gathered,
    gate: Option<LogoView>,
    frame: Frame,
) -> Gathered {
    if gate matches Some(logo) && frame_score(logo, frame) < REFINEMENT_GATE {
        gathered
    } else {
        match background_of(frame, gathered.rect, gathered.threshold, gathered.strict) {
            Some(background) => gathered.with(frame, background),
            None => gathered,
        }
    }
}

impl ScanPass {
    /// What has been gathered.
    pub closed spec fn gathered(self) -> Gathered {
        self.scanner@
    }

    /// The logo that frames must show to be admitted.
    pub closed spec fn spec_gate(self) -> Option<LogoView> {
        match self.gate {
            Some(gate) => Some(gate@),
            None => None,
        }
    }

    /// The parts are sound.
    pub closed spec fn wf(self) -> bool {
        &&& self.scanner@.wf()
        &&& self.gate matches Some(gate) ==> gate.wf()
    }

    /// Start a pass over a rectangle.
    ///
    /// A rectangle the operator supplied is a tight box round the logo and its
    /// border is real background; one the locator inferred is a loose bounding
    /// box whose border cannot be held to the same standard.
    #[must_use]
    pub fn new(rect: Rect, supplied: bool, gate: Option<LogoDetector>) -> (pass: ScanPass)
        requires
            rect.spec_area() <= usize::MAX,
            gate matches Some(gate) ==> gate.wf(),
        ensures
            pass.wf(),
            pass.gathered() == LogoScanner::fresh(rect, DEFAULT_FLATNESS_THRESHOLD, supplied),
            pass.spec_gate() == (match gate {
                Some(gate) => Some(gate@),
                None => None,
            }),
    {
        let scanner = if supplied {
            LogoScanner::strict(rect, DEFAULT_FLATNESS_THRESHOLD)
        } else {
            LogoScanner::new(rect, DEFAULT_FLATNESS_THRESHOLD)
        };
        ScanPass { scanner, gate }
    }

    /// How many frames have been accepted.
    #[must_use]
    pub fn frames_accepted(&self) -> (frames: u32)
        ensures
            frames == self.gathered().frames,
    {
        self.scanner.frames_accepted()
    }

    /// Offer a frame.
    pub fn offer(&mut self, frame: &Frame<'_>)
        requires
            old(self).wf(),
            old(self).gathered().frames < u32::MAX,
        ensures
            final(self).wf(),
            final(self).spec_gate() == old(self).spec_gate(),
            final(self).gathered() == gathered_after(
                old(self).gathered(),
                old(self).spec_gate(),
                *frame,
            ),
    {
        if let Some(gate) = &self.gate {
            if gate.score(frame) < REFINEMENT_GATE {
                return;
            }
        }
        let _ = self.scanner.add_frame(frame);
    }

    /// The logo this pass learned.
    ///
    /// An ungated pass is allowed to come out as a poor logo: it only has to be
    /// good enough to recognise its own frames. A gated one is held to the bar
    /// that decides whether a logo is usable at all.
    #[must_use]
    pub fn finish(
        &self,
        name: String,
        channel_id: Option<String>,
        frame_size: (u32, u32),
    ) -> (logo: Option<LogoData>)
        requires
            self.wf(),
        ensures
            logo_view(logo) == self.gathered().learned(
                name@,
                text_of(channel_id),
                frame_size,
                self.spec_gate() is Some,
            ),
            self.gathered().rect.valid() && self.gathered().rect.fits(
                frame_size.0 as int,
                frame_size.1 as int,
            ) ==> (logo matches Some(logo) ==> logo@.consistent() && logo@.physical()),
    {
        proof {
            if self.gathered().rect.valid() && self.gathered().rect.fits(
                frame_size.0 as int,
                frame_size.1 as int,
            ) {
                learned_logos_are_sound(
                    self.gathered(),
                    name@,
                    text_of(channel_id),
                    frame_size,
                );
            }
        }
        if self.gate.is_none() {
            self.scanner.finish_bootstrap(name, channel_id, frame_size)
        } else {
            self.scanner.finish(name, channel_id, frame_size)
        }
    }
}

/// What the detection pass produced.
#[derive(Debug, PartialEq, Eq)]
pub struct Detected {
    /// The per-frame logo score, when there was a logo to score against.
    pub track: Option<LogoTrack>,
    /// Spans during which the logo was present.
    pub intervals: Vec<LogoInterval>,
    /// What was learned about the logo.
    pub summary: Option<LogoSummary>,
    /// Detected cuts.
    pub scene_changes: Vec<SceneChange>,
    /// Frames actually decoded, which is what the true duration is derived
    /// from.
    pub frames: u64,
}

/// Scores every frame against the logo while detecting cuts.
///
/// Logo scoring and cut detection both need every frame, so they share one
/// pass rather than decoding the recording twice.
#[derive(Debug)]
pub struct DetectPass {
    summary: Option<LogoSummary>,
    detector: Option<LogoDetector>,
    scene: SceneDetector,
    scores: Vec<i64>,
    frames: u64,
    spacing: FrameSpacing,
}

/// The summary of a logo.
pub open spec fn summary_of(logo: LogoView, from_store: bool) -> LogoSummary {
    LogoSummary {
        rect: logo.rect,
        mean_alpha: mean_opacity(logo) as i64,
        frames_used: logo.frames_used,
        from_store,
    }
}

impl DetectPass {
    /// The logo frames are scored against.
    pub closed spec fn scored_logo(self) -> Option<LogoView> {
        match self.detector {
            Some(detector) => Some(detector@),
            None => None,
        }
    }

    /// The scores so far.
    pub closed spec fn spec_scores(self) -> Seq<i64> {
        self.scores@
    }

    /// How many frames have been seen.
    pub closed spec fn spec_frames(self) -> int {
        self.frames as int
    }

    /// How far apart the frames are.
    pub closed spec fn spec_spacing(self) -> FrameSpacing {
        self.spacing
    }

    /// What was learned about the logo.
    pub closed spec fn spec_summary(self) -> Option<LogoSummary> {
        self.summary
    }

    /// The reduction of the last frame seen.
    pub closed spec fn last_seen(self) -> Option<Seq<u8>> {
        self.scene.last_seen()
    }

    /// The difference of each frame from the one before.
    pub closed spec fn series(self) -> Seq<u32> {
        self.scene.series()
    }

    /// The parts are sound and agree.
    pub closed spec fn wf(self) -> bool {
        &&& self.scene.wf()
        &&& self.scene.spec_spacing() == self.spacing
        &&& self.scene.series().len() == self.frames
        &&& self.detector matches Some(detector) ==> detector.wf()
        &&& self.scores@.len() == (if self.detector is Some { self.frames as int } else { 0 })
    }

    /// Start a pass, with a logo to score against where there is one. A logo
    /// that cannot be detected is summarised and not scored.
    #[must_use]
    pub fn new(
        logo: Option<LogoData>,
        from_store: bool,
        spacing: FrameSpacing,
    ) -> (pass: DetectPass)
        requires
            logo matches Some(logo) ==> logo@.consistent() && logo@.physical(),
        ensures
            pass.wf(),
            pass.spec_frames() == 0,
            pass.spec_scores() == Seq::<i64>::empty(),
            pass.spec_spacing() == spacing,
            pass.last_seen() is None,
            pass.series() == Seq::<u32>::empty(),
            match logo {
                Some(logo) => {
                    &&& pass.spec_summary() == Some(summary_of(logo@, from_store))
                    &&& pass.scored_logo() == (if detectable(logo@) {
                        Some(logo@)
                    } else {
                        None
                    })
                },
                None => pass.spec_summary() is None && pass.scored_logo() is None,
            },
    {
        let summary = match &logo {
            Some(logo) => Some(
                LogoSummary {
                    rect: logo.rect,
                    mean_alpha: logo.mean_alpha(),
                    frames_used: logo.frames_used,
                    from_store,
                },
            ),
            None => None,
        };
        let detector = match logo {
            Some(logo) => LogoDetector::new(logo),
            None => None,
        };
        DetectPass {
            summary,
            detector,
            scene: SceneDetector::new(spacing),
            scores: Vec::new(),
            frames: 0,
            spacing,
        }
    }

    /// Feed the next frame.
    pub fn offer(&mut self, frame: &Frame<'_>)
        requires
            old(self).wf(),
            old(self).spec_frames() < u64::MAX,
        ensures
            final(self).wf(),
            final(self).scored_logo() == old(self).scored_logo(),
            final(self).spec_summary() == old(self).spec_summary(),
            final(self).spec_spacing() == old(self).spec_spacing(),
            final(self).spec_frames() == old(self).spec_frames() + 1,
            final(self).spec_scores() == (match old(self).scored_logo() {
                Some(logo) => old(self).spec_scores().push(frame_score(logo, *frame) as i64),
                None => old(self).spec_scores(),
            }),
            final(self).last_seen() == Some(reduction(*frame)),
            final(self).series() == old(self).series().push(
                match old(self).last_seen() {
                    None => 0,
                    Some(previous) => difference_of(previous, reduction(*frame)) as u32,
                },
            ),
    {
        self.frames = self.frames + 1;
        self.scene.add_frame(frame);
        if let Some(detector) = &self.detector {
            let score: i64 = detector.score(frame);
            self.scores.push(score);
        }
    }

    /// How many frames have been seen.
    #[must_use]
    pub fn frames(&self) -> (frames: u64)
        ensures
            frames == self.spec_frames(),
    {
        self.frames
    }

    /// What the pass found. A recording with no usable logo still yields cuts,
    /// which is enough for commercial detection to fall back on.
    #[must_use]
    pub fn finish(self, options: &AnalysisOptions) -> (detected: Detected)
        requires
            self.wf(),
            self.spec_spacing().reaches(self.spec_frames()),
        ensures
            detected.frames == self.spec_frames(),
            detected.summary == self.spec_summary(),
            detected.scene_changes@ == cuts_among(
                self.series(),
                self.spec_spacing(),
                options.scene,
                self.series().len() as int,
            ),
            if self.spec_scores().len() == 0 {
                detected.track is None && detected.intervals@ == Seq::<LogoInterval>::empty()
            } else {
                &&& detected.track matches Some(track) && track.scores@ == self.spec_scores()
                    && track.spacing == self.spec_spacing()
                &&& detected.intervals@ == presence(
                    self.spec_scores(),
                    self.spec_spacing(),
                    options.track,
                )
            },
    {
        let scene_changes = self.scene.changes(&options.scene);
        if self.scores.len() == 0 {
            return Detected {
                track: None,
                intervals: Vec::new(),
                summary: self.summary,
                scene_changes,
                frames: self.frames,
            };
        }
        let track = LogoTrack { spacing: self.spacing, scores: self.scores };
        let intervals = track.intervals(&options.track);
        Detected {
            track: Some(track),
            intervals,
            summary: self.summary,
            scene_changes,
            frames: self.frames,
        }
    }
}

/// The silent spans of an envelope.
pub open spec fn silences_of(
    envelope: RmsEnvelope,
    options: AnalysisOptions,
) -> Seq<SilentSpan> {
    long_spans(
        quiet_runs(
            envelope.windows@,
            options.silence_dbfs,
            envelope.windows@.len() as int,
        ),
        envelope.window_seconds,
        options.silence_seconds,
    ).map_values(|span: (i64, i64)| SilentSpan { start: span.0, end: span.1 })
}

/// The silent spans of a recording.
#[must_use]
pub fn silences(envelope: &RmsEnvelope, options: &AnalysisOptions) -> (spans: Vec<SilentSpan>)
    requires
        envelope.wf(),
    ensures
        spans@ == silences_of(*envelope, *options),
        forall|i: int| 0 <= i < spans@.len() ==> (#[trigger] spans@[i]).in_time(),
{
    let found = envelope.silent_spans(options.silence_dbfs, options.silence_seconds);
    let mut spans: Vec<SilentSpan> = Vec::new();
    for i in 0..found.len()
        invariant
            forall|i: int|
                0 <= i < found@.len() ==> 0 <= (#[trigger] found@[i]).0
                    <= crate::analyze::TIME_LIMIT && 0 <= found@[i].1
                    <= crate::analyze::TIME_LIMIT,
            spans@ =~= found@.map_values(
                |span: (i64, i64)| SilentSpan { start: span.0, end: span.1 },
            ).take(i as int),
            forall|i: int| 0 <= i < spans@.len() ==> (#[trigger] spans@[i]).in_time(),
    {
        let (start, end): (i64, i64) = found[i];
        assert(0 <= found@[i as int].0);
        spans.push(SilentSpan { start, end });
    }
    assert(spans@ =~= silences_of(*envelope, *options));
    spans
}

/// Put an analysis together.
///
/// The container's stated duration is unreliable: a recording made of
/// consecutive broadcast segments reports the length of one of them, because
/// each segment restarts its timebase. What was actually decoded is
/// authoritative, and every cut point is expressed against it. A logo that
/// came from the store is not a learned one.
#[must_use]
pub fn assemble(
    stated_duration: Option<i64>,
    spacing: FrameSpacing,
    logo: Option<LogoData>,
    from_store: bool,
    detected: Detected,
    silent_spans: Vec<SilentSpan>,
) -> (analysis: Analysis)
    requires
        spacing.reaches(detected.frames as int),
    ensures
        analysis.duration == (if spacing.moment(detected.frames as int) > 0 {
            spacing.moment(detected.frames as int)
        } else {
            match stated_duration {
                Some(duration) => duration as int,
                None => 0,
            }
        }),
        analysis.spacing == spacing,
        analysis.logo == detected.summary,
        analysis.learned_logo == (if from_store {
            None
        } else {
            logo
        }),
        analysis.logo_intervals == detected.intervals,
        analysis.logo_track == detected.track,
        analysis.scene_changes == detected.scene_changes,
        analysis.silent_spans == silent_spans,
{
    let decoded: i64 = spacing.time_of(detected.frames);
    let duration: i64 = if decoded > 0 {
        decoded
    } else {
        match stated_duration {
            Some(duration) => duration,
            None => 0,
        }
    };
    Analysis {
        duration,
        spacing,
        logo: detected.summary,
        learned_logo: if from_store { None } else { logo },
        logo_intervals: detected.intervals,
        logo_track: detected.track,
        scene_changes: detected.scene_changes,
        silent_spans,
    }
}

} // verus!
