//! The job pipeline: one recording in, one transcoded file out.
//!
//! ```text
//! probe -> analyse -> plan the cuts -> encode -> write the sidecar
//! ```
//!
//! Progress from every phase is folded onto a single fraction, because that is
//! what `EPGStation` and the web UI both display. Analysis gets the first third
//! and encoding the rest, which roughly matches how the time divides in
//! practice once a channel's logo is in the store.
//!
//! Each phase is a value that only the phase before it gives: [`begin`] accepts
//! a request, and what happens next depends on what ffmpeg, the scan of the
//! source and the analysis report back.

use vstd::prelude::*;
use vstd::string::*;
use crate::analyze::in_time;
use crate::analyze::logo::model::LogoData;
use crate::analyze::logo::model::Rect;
use crate::analyze::Analysis;
use crate::analyze::AnalysisOptions;
use crate::analyze::AnalysisProgress;
use crate::analyze::Stage;
use crate::analyze::TIME_LIMIT;
use crate::arith::nearest;
use crate::arith::nearest_is_monotonic;
use crate::arith::nearest_of_multiple;
use crate::arith::nearest_quotient;
use crate::cmcut::plan::forward_length;
use crate::cmcut::plan::is_plan;
use crate::cmcut::plan::kept_length;
use crate::cmcut::plan::plan;
use crate::cmcut::plan::CutPlan;
use crate::cmcut::plan::Decision;
use crate::cmcut::plan::KeepRange;
use crate::cmcut::score::CutOptions;
use crate::cmcut::score::LowConfidencePolicy;
use crate::cmcut::solve::Segment;
use crate::engine::chapters::chapters_for;
use crate::engine::chapters::output_position;
use crate::engine::chapters::plan_chapters;
use crate::engine::chapters::position_from;
use crate::engine::chapters::source_to_output;
use crate::engine::chapters::summable;
use crate::engine::diagnostics::exceeds;
use crate::engine::diagnostics::Diagnostics;
use crate::engine::encode::removes_material;
use crate::engine::parts::by_time;
use crate::engine::parts::clipped;
use crate::engine::parts::inside;
use crate::engine::parts::part_views;
use crate::engine::parts::parts_for;
use crate::engine::parts::point_keys;
use crate::engine::parts::split;
use crate::engine::parts::split_points;
use crate::engine::parts::usable_points;
use crate::engine::parts::Part;
use crate::engine::parts::PartView;
use crate::engine::profile::Profile;
use crate::engine::Error;
use crate::media::encode::chapter_views;
use crate::media::encode::Chapter;
use crate::media::encode::ChapterView;
use crate::media::ffmpeg::Ffmpeg;
use crate::media::frames::FrameSpacing;
use crate::media::probe::MediaProbe;
use crate::order::is_stable_order;
use crate::order::ranking;
use crate::order::stable_order_exists;
use crate::paths::extension;
use crate::paths::extension_of;
use crate::paths::file_stem;
use crate::paths::renamed;
use crate::paths::stem_of;
use crate::paths::with_extension;
use crate::paths::with_file_name;
use crate::paths::with_other_extension;
use crate::text::ascii_lower;
use crate::text::ascii_lower_of;
use crate::text::chars_of;
use crate::text::copy_option;
use crate::text::decimal_digits;
use crate::text::own;
use crate::text::push_decimal;
use crate::text::push_wide;
use crate::text::same;
use crate::text::text_of;
use crate::ts::Caption;
use crate::ts::TsInfo;

verus! {

/// What to do with one recording.
#[derive(Debug)]
pub struct JobRequest {
    /// Source recording.
    pub input: String,
    /// Where to write the result.
    pub output: String,
    /// How to encode it.
    pub profile: Profile,
    /// Channel the recording came from, used as the logo store key.
    pub channel_id: Option<String>,
    /// Human-readable channel name, used to name a newly learned logo.
    pub channel_name: Option<String>,
    /// Programme title, for logging and the web UI.
    pub title: Option<String>,
    /// Where the logo is, when it is already known.
    pub logo_rect: Option<Rect>,
    /// Segmentation tunables.
    pub cut: CutOptions,
    /// Whether to look for commercials at all.
    ///
    /// Off for a channel that carries none: nothing is searched for and the
    /// recording is transcoded whole.
    pub detect_commercials: bool,
    /// Whether to learn and store a logo when the channel has none.
    pub learn_logo: bool,
    /// Whether to refuse a recording the transport-stream scan calls hopeless.
    ///
    /// Off by default: a scan can be wrong about an unusual recording, and
    /// producing a poor file is a better failure than producing none.
    pub refuse_damaged: bool,
    /// Cuts chosen by hand, which replace the segmenter's answer entirely.
    ///
    /// A detection that got it wrong is a lost recording only if there is no
    /// way to correct it. When these are given the analysis still runs, since
    /// the timeline is drawn from it, but nothing it concludes is acted on.
    pub manual_ranges: Option<Vec<KeepRange>>,
    /// What the source contains, when the caller has already scanned it.
    ///
    /// A caller that records this before starting, as the server does, keeps
    /// it on a job that then fails, which is the case where knowing the
    /// recording was damaged explains the failure. Left unset, the source is
    /// scanned as part of the job.
    pub diagnostics: Option<Diagnostics>,
}

/// Ranges whose moments are within the limit and that add up to no more than
/// four of the longest recordings.
pub open spec fn fit(ranges: Seq<KeepRange>) -> bool {
    &&& forall|i: int| 0 <= i < ranges.len() ==> (#[trigger] ranges[i]).in_time()
    &&& forward_length(ranges) <= 4 * TIME_LIMIT
}

proof fn forward_length_grows(ranges: Seq<KeepRange>, count: int)
    requires
        0 <= count <= ranges.len(),
    ensures
        0 <= forward_length(ranges.take(count)) <= forward_length(ranges),
    decreases ranges.len(),
{
    if ranges.len() > 0 {
        let shorter = ranges.drop_last();
        forward_length_grows(shorter, shorter.len() as int);
        assert(shorter.take(shorter.len() as int) =~= shorter);
        if count < ranges.len() {
            forward_length_grows(shorter, count);
            assert(shorter.take(count) =~= ranges.take(count));
        } else {
            assert(ranges.take(count) =~= ranges);
        }
    } else {
        assert(ranges.take(count) =~= ranges);
    }
}

/// Whether ranges are within reach.
#[must_use]
pub fn is_fit(ranges: &[KeepRange]) -> (yes: bool)
    ensures
        yes == fit(ranges@),
{
    let mut total: i64 = 0;
    assert(ranges@.take(0) =~= Seq::empty());
    for i in 0..ranges.len()
        invariant
            total == forward_length(ranges@.take(i as int)),
            0 <= total <= 4 * TIME_LIMIT,
            forall|k: int| 0 <= k < i ==> (#[trigger] ranges@[k]).in_time(),
    {
        let range = ranges[i];
        if range.start < -TIME_LIMIT || range.start > TIME_LIMIT || range.end < -TIME_LIMIT
            || range.end > TIME_LIMIT {
            assert(!ranges@[i as int].in_time());
            return false;
        }
        assert(ranges@.take(i + 1).drop_last() =~= ranges@.take(i as int));
        assert(ranges@.take(i + 1).last() == range);
        if range.end > range.start {
            total = total + (range.end - range.start);
        }
        if total > 4 * TIME_LIMIT {
            proof {
                forward_length_grows(ranges@, i + 1);
            }
            return false;
        }
    }
    assert(ranges@.take(ranges@.len() as int) =~= ranges@);
    true
}

impl JobRequest {
    /// The tunables and any cuts chosen by hand are within their limits.
    pub open spec fn wf(self) -> bool {
        &&& self.cut.wf()
        &&& self.manual_ranges matches Some(ranges) ==> fit(ranges@)
    }

    /// A request with sensible defaults for a recording.
    #[must_use]
    pub fn new(input: String, output: String, profile: Profile) -> (request: JobRequest)
        ensures
            request.wf(),
            request.input == input,
            request.output == output,
            request.profile == profile,
            request.channel_id is None,
            request.channel_name is None,
            request.title is None,
            request.logo_rect is None,
            call_ensures(CutOptions::default, (), request.cut),
            request.detect_commercials,
            request.learn_logo,
            !request.refuse_damaged,
            request.manual_ranges is None,
            request.diagnostics is None,
    {
        JobRequest {
            input,
            output,
            profile,
            channel_id: None,
            channel_name: None,
            title: None,
            logo_rect: None,
            cut: CutOptions::default(),
            detect_commercials: true,
            learn_logo: true,
            refuse_damaged: false,
            manual_ranges: None,
            diagnostics: None,
        }
    }

    /// What a newly learned logo is called: after the channel, or failing that
    /// its id.
    pub open spec fn logo_name(self) -> Seq<char> {
        match text_of(self.channel_name) {
            Some(name) => name,
            None => match text_of(self.channel_id) {
                Some(id) => id,
                None => "unknown"@,
            },
        }
    }
}

/// Progress from somewhere in the pipeline.
#[derive(Debug, Clone, PartialEq, Eq)]
pub struct PipelineProgress {
    /// Overall completion, in millionths.
    pub fraction: i64,
    /// What is happening, in a form suitable for a log line.
    pub message: String,
}

/// A name for an analysis stage.
pub open spec fn stage_name(stage: Stage) -> Seq<char> {
    match stage {
        Stage::Audio => "measuring audio levels"@,
        Stage::LocatingLogo => "looking for the station logo"@,
        Stage::LearningLogo => "learning the station logo"@,
        Stage::Detecting => "detecting logo and scene changes"@,
    }
}

/// A human-readable name for an analysis stage.
#[must_use]
pub fn describe(stage: Stage) -> (name: String)
    ensures
        name@ == stage_name(stage),
{
    own(
        match stage {
            Stage::Audio => "measuring audio levels",
            Stage::LocatingLogo => "looking for the station logo",
            Stage::LearningLogo => "learning the station logo",
            Stage::Detecting => "detecting logo and scene changes",
        },
    )
}

/// Fraction of the progress bar given to analysis, in millionths.
///
/// With a stored logo, analysis is one decode and encoding is one encode, so
/// the split is roughly even; without one, analysis takes three extra passes
/// and overruns its share. Reporting a bar that stalls is better than one that
/// jumps backwards, so the split is fixed.
pub const ANALYSIS_SHARE: i64 = 350_000;

/// Where one stage of the analysis would put the bar.
pub open spec fn analysis_fraction(fraction: int) -> int {
    nearest(fraction * 35, 100)
}

/// Where the encode of one of several files would put the bar. Each part gets
/// its own slice of what is left of the bar, so the bar advances once across
/// the whole job rather than restarting per file.
pub open spec fn encode_fraction(index: int, count: int, fraction: int) -> int {
    350_000 + nearest(650_000 * (index * 1_000_000 + fraction), count * 1_000_000)
}

/// Where the bar goes from where it stands: on to where it is wanted, or
/// nowhere when that lies behind it.
pub open spec fn advanced(last: int, wanted: int) -> int {
    if wanted > last {
        wanted
    } else {
        last
    }
}

fn advance(last: i64, wanted: i64) -> (fraction: i64)
    ensures
        fraction == advanced(last as int, wanted as int),
{
    if wanted > last {
        wanted
    } else {
        last
    }
}

/// A progress report from the analysis, on the scale of the whole job, given
/// the fraction last reported. Every stage runs through the recording from its
/// beginning, so the bar stalls while a stage catches up with the one before.
#[must_use]
pub fn analysis_progress(last: i64, progress: &AnalysisProgress) -> (report: PipelineProgress)
    requires
        0 <= progress.fraction <= 1_000_000,
    ensures
        report.fraction == advanced(
            last as int,
            Moment::Analysing(*progress).wanted(),
        ),
        report.fraction >= last,
        report.message@ == stage_name(progress.stage),
{
    proof {
        shares_rise(progress.fraction as int, 1_000_000, 0, 1, 0, 0, 1_000_000);
    }
    PipelineProgress {
        fraction: advance(last, nearest_quotient(progress.fraction as i128 * 35, 100) as i64),
        message: describe(progress.stage),
    }
}

/// A progress report from an encode, on the scale of the whole job, given the
/// fraction last reported.
#[must_use]
pub fn encode_progress(
    last: i64,
    job: &PartJob,
    count: usize,
    fraction: i64,
) -> (report: PipelineProgress)
    requires
        job.index < count <= u32::MAX,
        0 <= fraction <= 1_000_000,
    ensures
        report.fraction == advanced(
            last as int,
            (Moment::Encoding { index: job.index, count, fraction }).wanted(),
        ),
        report.fraction >= last,
        report.message@ == job.label@,
{
    proof {
        shares_rise(
            0,
            0,
            job.index as int,
            count as int,
            fraction as int,
            count - 1,
            1_000_000,
        );
    }
    let done: i128 = 650_000 * (job.index as i128 * 1_000_000 + fraction as i128);
    let share: i128 = nearest_quotient(done, count as i128 * 1_000_000);
    PipelineProgress {
        fraction: advance(last, 350_000 + share as i64),
        message: own(job.label.as_str()),
    }
}

/// The report a finished job ends with.
#[must_use]
pub fn done_progress() -> (report: PipelineProgress)
    ensures
        report.fraction == Moment::Done.wanted(),
        report.message@ == "done"@,
{
    PipelineProgress { fraction: 1_000_000, message: own("done") }
}

/// A moment of a job at which progress is reported.
pub enum Moment {
    /// A stage of the analysis has come this far.
    Analysing(AnalysisProgress),
    /// The encode of one of several files has come this far.
    Encoding {
        /// Which of the files, counted from zero.
        index: usize,
        /// How many files there are.
        count: usize,
        /// How much of the file is written, in millionths.
        fraction: i64,
    },
    /// The job is finished.
    Done,
}

impl Moment {
    /// Fractions lie between nothing and all, and the file is one of those
    /// there are.
    pub open spec fn wf(self) -> bool {
        match self {
            Moment::Analysing(progress) => 0 <= progress.fraction <= 1_000_000,
            Moment::Encoding { index, count, fraction } => index < count && 0 <= fraction
                <= 1_000_000,
            Moment::Done => true,
        }
    }

    /// Where the moment would put the bar.
    pub open spec fn wanted(self) -> int {
        match self {
            Moment::Analysing(progress) => analysis_fraction(progress.fraction as int),
            Moment::Encoding { index, count, fraction } => encode_fraction(
                index as int,
                count as int,
                fraction as int,
            ),
            Moment::Done => 1_000_000,
        }
    }
}

/// Where the bar stands after these moments, having started at nothing.
pub open spec fn bar_after(moments: Seq<Moment>) -> int
    decreases moments.len(),
{
    if moments.len() == 0 {
        0
    } else {
        advanced(bar_after(moments.drop_last()), moments.last().wanted())
    }
}

/// The bar never jumps backwards: whatever stages and files report, and in
/// whatever order, it stands no lower after more reports than after fewer. It
/// stays between nothing and the full length, and a finished job fills it.
pub proof fn progress_moves_forward(moments: Seq<Moment>, early: int, late: int)
    requires
        0 <= early <= late <= moments.len(),
        forall|i: int| 0 <= i < moments.len() ==> (#[trigger] moments[i]).wf(),
    ensures
        0 <= bar_after(moments.take(early)) <= bar_after(moments.take(late)) <= 1_000_000,
        late > 0 && moments[late - 1] is Done ==> bar_after(moments.take(late)) == 1_000_000,
    decreases late,
{
    if late > 0 {
        let shorter = moments.take(late - 1);
        assert(moments.take(late).drop_last() =~= shorter);
        assert(moments[late - 1].wf());
        match moments[late - 1] {
            Moment::Analysing(progress) => {
                shares_rise(progress.fraction as int, 1_000_000, 0, 1, 0, 0, 1_000_000);
            },
            Moment::Encoding { index, count, fraction } => {
                shares_rise(
                    0,
                    0,
                    index as int,
                    count as int,
                    fraction as int,
                    count - 1,
                    1_000_000,
                );
            },
            Moment::Done => {},
        }
        if early < late {
            progress_moves_forward(moments, early, late - 1);
        } else {
            progress_moves_forward(moments, late - 1, late - 1);
        }
    }
}

/// The shares fit together: one stage of the analysis runs from nothing to the
/// share of analysis, and the files run on from there, one after the other, to
/// the full length.
pub proof fn shares_rise(
    early: int,
    late: int,
    index: int,
    count: int,
    fraction: int,
    later_index: int,
    later_fraction: int,
)
    requires
        0 <= early <= late <= 1_000_000,
        0 <= index <= later_index < count,
        0 <= fraction <= 1_000_000,
        0 <= later_fraction <= 1_000_000,
        index == later_index ==> fraction <= later_fraction,
    ensures
        0 <= analysis_fraction(early) <= analysis_fraction(late) <= ANALYSIS_SHARE,
        ANALYSIS_SHARE <= encode_fraction(index, count, fraction) <= encode_fraction(
            later_index,
            count,
            later_fraction,
        ) <= 1_000_000,
{
    nearest_of_multiple(0, 100);
    nearest_of_multiple(350_000, 100);
    nearest_is_monotonic(0, early * 35, 100);
    nearest_is_monotonic(early * 35, late * 35, 100);
    nearest_is_monotonic(late * 35, 35_000_000, 100);
    let whole = count * 1_000_000;
    let low = 650_000 * (index * 1_000_000 + fraction);
    let high = 650_000 * (later_index * 1_000_000 + later_fraction);
    nearest_of_multiple(0, whole);
    nearest_of_multiple(650_000, whole);
    nearest_is_monotonic(0 * whole, low, whole);
    nearest_is_monotonic(low, high, whole);
    nearest_is_monotonic(high, 650_000 * whole, whole);
}

/// A transport stream, going by its name.
pub open spec fn is_stream_name(path: Seq<char>) -> bool {
    extension_of(path) matches Some(extension) && {
        let lower = ascii_lower_of(extension);
        lower == "ts"@ || lower == "m2ts"@ || lower == "mts"@ || lower == "tsv"@
    }
}

/// Whether a file is a transport stream, going by its name. Only a transport
/// stream carries anything worth scanning for: an MP4 has no continuity
/// counters to be discontinuous and nothing to be scrambled.
#[must_use]
pub fn is_transport_stream(path: &str) -> (yes: bool)
    ensures
        yes == is_stream_name(path@),
{
    match extension(path) {
        Some(extension) => {
            let lower = ascii_lower(extension.as_str());
            same(&lower, &chars_of("ts")) || same(&lower, &chars_of("m2ts")) || same(
                &lower,
                &chars_of("mts"),
            ) || same(&lower, &chars_of("tsv"))
        },
        None => false,
    }
}

/// What a scan of a source says of it: nothing of a file that is no transport
/// stream, nor of one that could not be scanned.
pub open spec fn is_inspection(
    input: Seq<char>,
    scan: Option<TsInfo>,
    diagnostics: Option<Diagnostics>,
) -> bool {
    &&& diagnostics is Some <==> is_stream_name(input) && scan is Some
    &&& diagnostics matches Some(found) ==> call_ensures(
        Diagnostics::from_ts,
        (&scan->Some_0,),
        found,
    )
}

/// The inventory and health counters of a source, given what a scan of it
/// found. A file that is no transport stream has none, and neither has one
/// that could not be scanned: a recording that ffmpeg can decode is worth
/// transcoding even then.
#[must_use]
pub fn inspect(input: &str, scan: Option<&TsInfo>) -> (diagnostics: Option<Diagnostics>)
    ensures
        is_inspection(
            input@,
            match scan {
                Some(info) => Some(*info),
                None => None,
            },
            diagnostics,
        ),
{
    if !is_transport_stream(input) {
        return None;
    }
    match scan {
        Some(info) => Some(Diagnostics::from_ts(info)),
        None => None,
    }
}

/// Stop if the recording is beyond saving and the caller asked to refuse
/// those.
pub fn report(diagnostics: Option<&Diagnostics>, refuse_damaged: bool) -> (result: Result<
    (),
    Error,
>)
    ensures
        result == (match diagnostics {
            Some(found) => if found.hopeless() && refuse_damaged {
                Err(
                    Error::DamagedSource {
                        scrambled: found.scrambled_packets,
                        total: found.total_packets,
                    },
                )
            } else {
                Ok(())
            },
            None => Ok(()),
        }),
{
    match diagnostics {
        Some(diagnostics) => if diagnostics.is_hopeless() && refuse_damaged {
            Err(
                Error::DamagedSource {
                    scrambled: diagnostics.scrambled_packets,
                    total: diagnostics.total_packets,
                },
            )
        } else {
            Ok(())
        },
        None => Ok(()),
    }
}

/// The reason given for cuts chosen by hand.
pub open spec fn by_hand() -> Seq<char> {
    "cut by hand"@
}

/// `plan` is what to cut: what somebody chose, nothing where there is nothing
/// to look for, or what the segmenter worked out.
///
/// Hand-chosen ranges replace the answer entirely rather than nudging it. No
/// segments go with them: nobody labelled the gaps, they simply are not kept.
/// Somebody looked at it, which is the most confidence available.
pub open spec fn is_decided(analysis: Analysis, request: JobRequest, plan: CutPlan) -> bool {
    match request.manual_ranges {
        Some(ranges) => {
            &&& plan.segments@.len() == 0
            &&& plan.keep@ == ranges@
            &&& plan.confidence == 1_000_000
            &&& plan.decision == Decision::Cut
            &&& plan.reason@ == by_hand()
        },
        None => if request.detect_commercials {
            is_plan(analysis, request.cut, plan)
        } else {
            &&& plan.segments@.len() == 0
            &&& plan.keep@ == seq![KeepRange { start: 0, end: analysis.duration }]
            &&& plan.confidence == 1_000_000
            &&& plan.decision == Decision::KeepAll
            &&& plan.reason@ == "this channel carries no commercials; none were looked for"@
        },
    }
}

/// What to cut: what somebody chose, nothing where there is nothing to look
/// for, or what the segmenter worked out.
#[must_use]
pub fn decide(analysis: &Analysis, request: &JobRequest) -> (plan: CutPlan)
    requires
        analysis.wf(),
        request.wf(),
    ensures
        is_decided(*analysis, *request, plan),
        fit(plan.keep@),
        forall|i: int| 0 <= i < plan.segments@.len() ==> (#[trigger] plan.segments@[i]).in_time(),
{
    if let Some(ranges) = &request.manual_ranges {
        let mut keep: Vec<KeepRange> = Vec::new();
        for i in 0..ranges.len()
            invariant
                keep@ =~= ranges@.take(i as int),
        {
            keep.push(ranges[i]);
        }
        assert(keep@ =~= ranges@);
        return CutPlan {
            segments: Vec::new(),
            keep,
            confidence: 1_000_000,
            decision: Decision::Cut,
            reason: own("cut by hand"),
        };
    }
    if !request.detect_commercials {
        let mut keep: Vec<KeepRange> = Vec::new();
        keep.push(KeepRange { start: 0, end: analysis.duration });
        assert(keep@ =~= seq![KeepRange { start: 0, end: analysis.duration }]);
        assert(keep@.drop_last() =~= Seq::empty());
        assert(forward_length(keep@.drop_last()) == 0);
        return CutPlan {
            segments: Vec::new(),
            keep,
            confidence: 1_000_000,
            decision: Decision::KeepAll,
            reason: own("this channel carries no commercials; none were looked for"),
        };
    }
    plan(analysis, &request.cut)
}

/// What becomes of a job once its plan is known.
///
/// Stopping before the encode is the whole point: an hour of GPU time spent
/// producing an uncut recording is an hour spent producing something that will
/// have to be done again. A channel *known* to have no logo is the exception:
/// there is nothing to wait for, so waiting would hold it for ever.
pub open spec fn verdict(plan: CutPlan, options: CutOptions, has_logo: bool, no_logo: bool) -> Result<
    (),
    Option<Seq<char>>,
> {
    if plan.decision != Decision::KeepAll || plan.confidence >= options.confidence_threshold {
        Ok(())
    } else {
        match options.low_confidence {
            LowConfidencePolicy::Fail => Err(Some(plan.reason@)),
            LowConfidencePolicy::Block => if !has_logo && !no_logo {
                Err(None)
            } else {
                Ok(())
            },
            _ => Ok(()),
        }
    }
}

/// Stop the job when the plan is not trustworthy and the policy says to.
pub fn check_confidence(
    plan: &CutPlan,
    options: &CutOptions,
    has_logo: bool,
    no_logo: bool,
) -> (result: Result<(), Error>)
    ensures
        match verdict(*plan, *options, has_logo, no_logo) {
            Ok(()) => result == Ok::<(), Error>(()),
            Err(Some(reason)) => result matches Err(Error::LowConfidence { reason: told }) && told@
                == reason,
            Err(None) => result == Err::<(), Error>(Error::NeedsLogo),
        },
{
    if plan.decision != Decision::KeepAll || plan.confidence >= options.confidence_threshold {
        return Ok(());
    }
    match options.low_confidence {
        LowConfidencePolicy::Fail => Err(Error::LowConfidence { reason: own(plan.reason.as_str()) }),
        LowConfidencePolicy::Block => if !has_logo && !no_logo {
            Err(Error::NeedsLogo)
        } else {
            Ok(())
        },
        _ => Ok(()),
    }
}

/// Cuts chosen by hand are made as they were chosen: no policy holds them up,
/// and nothing else is removed.
pub proof fn hand_chosen_cuts_are_made(
    analysis: Analysis,
    request: JobRequest,
    plan: CutPlan,
    no_logo: bool,
)
    requires
        is_decided(analysis, request, plan),
        request.manual_ranges is Some,
    ensures
        plan.keep@ == request.manual_ranges->Some_0@,
        plan.decision == Decision::Cut,
        verdict(plan, request.cut, analysis.spec_has_logo(), no_logo) is Ok,
{
}

/// A recording in which nothing is looked for is transcoded whole, and no
/// policy holds it up.
pub proof fn recordings_without_commercials_stay_whole(
    analysis: Analysis,
    request: JobRequest,
    plan: CutPlan,
    no_logo: bool,
)
    requires
        is_decided(analysis, request, plan),
        request.manual_ranges is None,
        !request.detect_commercials,
        request.cut.confidence_threshold <= 1_000_000,
    ensures
        kept_length(plan.keep@) == analysis.duration,
        !removes_material(plan.keep@, Some(analysis.duration)),
        verdict(plan, request.cut, analysis.spec_has_logo(), no_logo) is Ok,
{
    assert(plan.keep@.drop_last() =~= Seq::empty());
    assert(kept_length(plan.keep@.drop_last()) == 0);
}

/// A job is only ever held up or failed with nothing cut, and only waits for a
/// logo that was not found on a channel that may have one.
pub proof fn only_doubtful_plans_are_stopped(
    plan: CutPlan,
    options: CutOptions,
    has_logo: bool,
    no_logo: bool,
)
    requires
        verdict(plan, options, has_logo, no_logo) is Err,
    ensures
        plan.decision == Decision::KeepAll,
        plan.confidence < options.confidence_threshold,
        options.low_confidence == LowConfidencePolicy::Fail || options.low_confidence
            == LowConfidencePolicy::Block,
        options.low_confidence == LowConfidencePolicy::Block ==> !has_logo && !no_logo,
{
}

/// The segments falling inside a part, on its own clock.
pub open spec fn clipped_segments(segments: Seq<Segment>, start: int, end: int) -> Seq<Segment>
    decreases segments.len(),
{
    if segments.len() == 0 {
        Seq::empty()
    } else {
        let rest = clipped_segments(segments.drop_last(), start, end);
        let last = segments.last();
        match inside(last.start as int, last.end as int, start, end) {
            Some((from, to)) => rest.push(
                Segment {
                    start: from as i64,
                    end: to as i64,
                    kind: last.kind,
                    confidence: last.confidence,
                },
            ),
            None => rest,
        }
    }
}

/// The segments falling inside one part, rebased to it.
///
/// Chapters are built from segments against the kept ranges, and a part cut
/// out of the source has a clock of its own starting at zero.
#[must_use]
pub fn clip_segments(segments: &[Segment], part: &Part) -> (clipped: Vec<Segment>)
    requires
        part@.wf(),
        forall|i: int| 0 <= i < segments@.len() ==> (#[trigger] segments@[i]).in_time(),
    ensures
        clipped@ == clipped_segments(segments@, part.start as int, part.end as int),
        forall|i: int| 0 <= i < clipped@.len() ==> (#[trigger] clipped@[i]).in_time(),
{
    let mut clipped: Vec<Segment> = Vec::new();
    assert(segments@.take(0) =~= Seq::empty());
    for i in 0..segments.len()
        invariant
            part@.wf(),
            forall|k: int| 0 <= k < segments@.len() ==> (#[trigger] segments@[k]).in_time(),
            clipped@ == clipped_segments(
                segments@.take(i as int),
                part.start as int,
                part.end as int,
            ),
            forall|k: int| 0 <= k < clipped@.len() ==> (#[trigger] clipped@[k]).in_time(),
    {
        let segment = segments[i];
        assert(segments@.take(i + 1).drop_last() =~= segments@.take(i as int));
        assert(segments@.take(i + 1).last() == segment);
        assert(segments@[i as int].in_time());
        if let Some((start, end)) = part.take(segment.start, segment.end) {
            clipped.push(
                Segment { start, end, kind: segment.kind, confidence: segment.confidence },
            );
        }
    }
    assert(segments@.take(segments@.len() as int) =~= segments@);
    clipped
}

/// What is kept of fit ranges in a part adds up within reach.
proof fn clipped_sums(keep: Seq<KeepRange>, part: PartView)
    requires
        part.wf(),
        forall|i: int| 0 <= i < keep.len() ==> (#[trigger] keep[i]).in_time(),
    ensures
        ({
            let kept = clipped(keep, part.start as int, part.end as int);
            &&& kept_length(kept) <= forward_length(keep)
            &&& forall|i: int|
                0 <= i < kept.len() ==> (#[trigger] kept[i]).in_time() && kept[i].start
                    <= kept[i].end
        }),
    decreases keep.len(),
{
    if keep.len() > 0 {
        let shorter = keep.drop_last();
        assert forall|i: int| 0 <= i < shorter.len() implies (#[trigger] shorter[i]).in_time() by {
            assert(keep[i].in_time());
        }
        clipped_sums(shorter, part);
        assert(keep[keep.len() - 1].in_time());
        let before = clipped(shorter, part.start as int, part.end as int);
        let kept = clipped(keep, part.start as int, part.end as int);
        if kept.len() > before.len() {
            assert(kept.drop_last() =~= before);
        }
    }
}

proof fn running_totals(kept: Seq<KeepRange>, count: int)
    requires
        0 <= count <= kept.len(),
        forall|i: int| 0 <= i < kept.len() ==> (#[trigger] kept[i]).start <= kept[i].end,
    ensures
        0 <= kept_length(kept.take(count)) <= kept_length(kept),
    decreases kept.len(),
{
    if kept.len() > 0 {
        let shorter = kept.drop_last();
        assert forall|i: int| 0 <= i < shorter.len() implies (#[trigger] shorter[i]).start
            <= shorter[i].end by {
            assert(kept[i].start <= kept[i].end);
        }
        assert(kept[kept.len() - 1].start <= kept[kept.len() - 1].end);
        running_totals(shorter, shorter.len() as int);
        assert(shorter.take(shorter.len() as int) =~= shorter);
        if count < kept.len() {
            running_totals(shorter, count);
            assert(shorter.take(count) =~= kept.take(count));
        } else {
            assert(kept.take(count) =~= kept);
        }
    } else {
        assert(kept.take(count) =~= kept);
    }
}

/// What is kept of fit ranges in a part can be summed.
pub proof fn clipped_ranges_are_summable(keep: Seq<KeepRange>, part: PartView)
    requires
        part.wf(),
        fit(keep),
    ensures
        summable(clipped(keep, part.start as int, part.end as int)),
{
    let kept = clipped(keep, part.start as int, part.end as int);
    clipped_sums(keep, part);
    assert forall|i: int| 0 <= i <= kept.len() implies -4 * TIME_LIMIT <= #[trigger] kept_length(
        kept.take(i),
    ) <= 4 * TIME_LIMIT by {
        running_totals(kept, i);
    }
}

/// One file to encode.
#[derive(Debug)]
pub struct PartJob {
    /// Which part it is, counting from zero.
    pub index: usize,
    /// The stretch of source it covers, and where to write it.
    pub part: Part,
    /// Where to put the stretch of source first, when it is not the whole of
    /// it.
    ///
    /// A part of a split recording is cut out of the source as its own
    /// transport stream. Encoding it in place is not possible: the filter
    /// graph reinitialises at the picture-size change and restarts the frame
    /// counter its clock comes from, so no expression over time can name the
    /// far side of the change. The slice is scratch space, the size of the
    /// part it holds, and must not be left behind whether the encode worked or
    /// not.
    pub slice: Option<String>,
    /// Stretches to keep, on the part's own clock.
    pub keep: Vec<KeepRange>,
    /// Chapters to write.
    pub chapters: Vec<Chapter>,
    /// What to call it while it runs.
    pub label: String,
}

/// One file to encode, its text read as characters.
pub ghost struct PartJobView {
    /// Which part it is.
    pub index: int,
    /// The stretch of source it covers.
    pub part: PartView,
    /// Where to put the stretch first.
    pub slice: Option<Seq<char>>,
    /// Stretches to keep.
    pub keep: Seq<KeepRange>,
    /// Chapters to write.
    pub chapters: Seq<ChapterView>,
    /// What to call it.
    pub label: Seq<char>,
}

impl View for PartJob {
    type V = PartJobView;

    open spec fn view(&self) -> PartJobView {
        PartJobView {
            index: self.index as int,
            part: self.part@,
            slice: text_of(self.slice),
            keep: self.keep@,
            chapters: chapter_views(self.chapters@),
            label: self.label@,
        }
    }
}

/// The jobs with their text read as characters.
pub open spec fn job_views(jobs: Seq<PartJob>) -> Seq<PartJobView> {
    jobs.map_values(|job: PartJob| job@)
}

/// What a file is called while it is encoded.
pub open spec fn part_label(index: int, count: int) -> Seq<char> {
    if count > 1 {
        "encoding part "@ + decimal_digits((index + 1) as nat) + " of "@ + decimal_digits(
            count as nat,
        )
    } else {
        "encoding"@
    }
}

/// The job of one part.
pub open spec fn job_for(part: PartView, index: int, count: int, plan: CutPlan) -> PartJobView {
    let keep = clipped(plan.keep@, part.start as int, part.end as int);
    PartJobView {
        index,
        part,
        slice: match part.bytes {
            Some(_) => Some(with_other_extension(part.output, "part.ts"@)),
            None => None,
        },
        keep,
        chapters: plan_chapters(
            clipped_segments(plan.segments@, part.start as int, part.end as int),
            keep,
            plan.decision,
        ),
        label: part_label(index, count),
    }
}

/// The jobs of the first parts: one for each in which anything is kept. Where
/// every second of a part was judged a commercial, writing an empty file would
/// be worse than writing none.
pub open spec fn jobs_for(parts: Seq<PartView>, count: int, plan: CutPlan) -> Seq<PartJobView>
    decreases parts.len(),
{
    if parts.len() == 0 {
        Seq::empty()
    } else {
        let rest = jobs_for(parts.drop_last(), count, plan);
        let part = parts.last();
        if clipped(plan.keep@, part.start as int, part.end as int).len() == 0 {
            rest
        } else {
            rest.push(job_for(part, parts.len() - 1, count, plan))
        }
    }
}

fn label_of(index: usize, count: usize) -> (label: String)
    ensures
        label@ == part_label(index as int, count as int),
{
    if count <= 1 {
        return own("encoding");
    }
    let mut label = own("encoding part ");
    push_wide(&mut label, index as u128 + 1);
    label.append(" of ");
    push_decimal(&mut label, count as u64);
    label
}

/// The splits of a recording are moments within the limit.
pub open spec fn splits_in_time(diagnostics: Option<Diagnostics>) -> bool {
    diagnostics matches Some(found) ==> forall|i: int|
        0 <= i < found.split_points@.len() ==> in_time(#[trigger] found.split_points@[i])
}

/// Whether the splits of a recording are within the limit.
#[must_use]
pub fn are_splits_in_time(diagnostics: &Diagnostics) -> (yes: bool)
    ensures
        yes == splits_in_time(Some(*diagnostics)),
{
    let points = &diagnostics.split_points;
    for i in 0..points.len()
        invariant
            *points == diagnostics.split_points,
            forall|k: int| 0 <= k < i ==> in_time(#[trigger] points@[k]),
    {
        if points[i] < -TIME_LIMIT || points[i] > TIME_LIMIT {
            assert(!in_time(diagnostics.split_points@[i as int]));
            return false;
        }
    }
    true
}

/// The parts of a recording are moments of it.
proof fn parts_are_moments(
    output: Seq<char>,
    diagnostics: Option<Diagnostics>,
    duration: i64,
    file_size: u64,
)
    requires
        in_time(duration),
        splits_in_time(diagnostics),
        diagnostics matches Some(found) ==> found.split_points@.len() <= usize::MAX,
    ensures
        ({
            let parts = parts_for(
                output,
                split_points(diagnostics, duration),
                duration,
                file_size,
            );
            forall|i: int| 0 <= i < parts.len() ==> (#[trigger] parts[i]).wf()
        }),
{
    let points = split_points(diagnostics, duration);
    let parts = parts_for(output, points, duration, file_size);
    if let Some(found) = diagnostics {
        points_are_moments(found.split_points@, found.split_offsets@, duration);
        ordered_points_are_points(
            usable_points(found.split_points@, found.split_offsets@, duration),
        );
    }
    assert forall|i: int| 0 <= i < parts.len() implies (#[trigger] parts[i]).wf() by {
        if points.len() > 0 {
            if i > 0 {
                assert(0 <= points[i - 1].0 <= TIME_LIMIT);
            }
            if i < points.len() {
                assert(0 <= points[i].0 <= TIME_LIMIT);
            }
        }
    }
}

proof fn points_are_moments(times: Seq<i64>, offsets: Seq<u64>, duration: i64)
    requires
        forall|i: int| 0 <= i < times.len() ==> in_time(#[trigger] times[i]),
    ensures
        usable_points(times, offsets, duration).len() <= times.len(),
        forall|i: int|
            0 <= i < usable_points(times, offsets, duration).len() ==> 0 <= (
            #[trigger] usable_points(times, offsets, duration)[i]).0 <= TIME_LIMIT,
    decreases times.len(),
{
    if times.len() > 0 {
        let shorter = times.drop_last();
        assert forall|i: int| 0 <= i < shorter.len() implies in_time(#[trigger] shorter[i]) by {
            assert(in_time(times[i]));
        }
        points_are_moments(shorter, offsets, duration);
        assert(in_time(times[times.len() - 1]));
    }
}

proof fn ordered_points_are_points(points: Seq<(i64, u64)>)
    requires
        points.len() <= usize::MAX,
        forall|i: int| 0 <= i < points.len() ==> 0 <= (#[trigger] points[i]).0 <= TIME_LIMIT,
    ensures
        forall|i: int|
            0 <= i < points.len() ==> 0 <= (#[trigger] by_time(points)[i]).0 <= TIME_LIMIT,
{
    let keys = point_keys(points);
    stable_order_exists(keys);
    assert(is_stable_order(keys, ranking(keys)));
}

/// Work out every file to encode.
#[must_use]
pub fn part_jobs(
    output: &str,
    diagnostics: Option<&Diagnostics>,
    duration: i64,
    file_size: u64,
    plan: &CutPlan,
) -> (jobs: Vec<PartJob>)
    requires
        in_time(duration),
        splits_in_time(
            match diagnostics {
                Some(diagnostics) => Some(*diagnostics),
                None => None,
            },
        ),
        fit(plan.keep@),
        forall|i: int| 0 <= i < plan.segments@.len() ==> (#[trigger] plan.segments@[i]).in_time(),
    ensures
        ({
            let parts = parts_for(
                output@,
                split_points(
                    match diagnostics {
                        Some(diagnostics) => Some(*diagnostics),
                        None => None,
                    },
                    duration,
                ),
                duration,
                file_size,
            );
            job_views(jobs@) == jobs_for(parts, parts.len() as int, *plan)
        }),
        forall|i: int| 0 <= i < jobs@.len() ==> summable((#[trigger] jobs@[i]).keep@),
{
    let parts = split(output, diagnostics, duration, file_size);
    let ghost wanted = part_views(parts@);
    proof {
        if let Some(found) = diagnostics {
            assert(found.split_points@.len() == found.split_points.len());
        }
        parts_are_moments(
            output@,
            match diagnostics {
                Some(diagnostics) => Some(*diagnostics),
                None => None,
            },
            duration,
            file_size,
        );
    }
    let count: usize = parts.len();
    let mut jobs: Vec<PartJob> = Vec::new();
    assert(wanted.take(0) =~= Seq::empty());
    assert(job_views(jobs@) =~= Seq::empty());
    for index in 0..count
        invariant
            count == parts@.len(),
            wanted == part_views(parts@),
            forall|i: int| 0 <= i < wanted.len() ==> (#[trigger] wanted[i]).wf(),
            fit(plan.keep@),
            forall|i: int|
                0 <= i < plan.segments@.len() ==> (#[trigger] plan.segments@[i]).in_time(),
            job_views(jobs@) == jobs_for(wanted.take(index as int), count as int, *plan),
            forall|i: int| 0 <= i < jobs@.len() ==> summable((#[trigger] jobs@[i]).keep@),
    {
        let part = &parts[index];
        proof {
            assert(wanted[index as int] == part@);
            assert(wanted[index as int].wf());
            assert(wanted.take(index + 1).drop_last() =~= wanted.take(index as int));
            assert(wanted.take(index + 1).last() == part@);
        }
        let keep = part.clip(&plan.keep);
        if keep.len() > 0 {
            proof {
                clipped_ranges_are_summable(plan.keep@, part@);
            }
            let segments = clip_segments(&plan.segments, part);
            let chapters = chapters_for(&segments, &keep, plan.decision);
            let slice = match part.bytes {
                Some(_) => Some(with_extension(part.output.as_str(), "part.ts")),
                None => None,
            };
            let job = PartJob {
                index,
                part: Part {
                    output: own(part.output.as_str()),
                    start: part.start,
                    end: part.end,
                    bytes: part.bytes,
                },
                slice,
                keep,
                chapters,
                label: label_of(index, count),
            };
            let ghost before = job_views(jobs@);
            assert(job@ == job_for(part@, index as int, count as int, *plan));
            jobs.push(job);
            assert(job_views(jobs@) =~= before.push(job@));
        }
    }
    assert(wanted.take(count as int) =~= wanted);
    jobs
}

/// A caption with its text read as characters.
pub ghost struct CaptionView {
    /// When it appears.
    pub start: int,
    /// When it disappears.
    pub end: int,
    /// What it says.
    pub text: Seq<char>,
}

impl View for Caption {
    type V = CaptionView;

    open spec fn view(&self) -> CaptionView {
        CaptionView {
            start: self.start_seconds as int,
            end: self.end_seconds as int,
            text: self.text@,
        }
    }
}

/// The captions with their text read as characters.
pub open spec fn caption_views(captions: Seq<Caption>) -> Seq<CaptionView> {
    captions.map_values(|caption: Caption| caption@)
}

/// The shortest time a caption is shown for, in microseconds.
pub const SHORTEST_CAPTION: i64 = 100_000;

/// Where a caption lies in an output file: nowhere, if it begins inside
/// something that was cut out. One that ends there is shown for as long as it
/// was, and every one for long enough to be seen.
pub open spec fn retimed(caption: CaptionView, part_start: int, keep: Seq<KeepRange>) -> Option<
    CaptionView,
> {
    let start = caption.start - part_start;
    let end = caption.end - part_start;
    match output_position(keep, start) {
        None => None,
        Some(shown) => {
            let gone = match output_position(keep, end) {
                Some(gone) => gone,
                None => shown + (end - start),
            };
            Some(
                CaptionView {
                    start: shown,
                    end: if gone < shown + SHORTEST_CAPTION {
                        shown + SHORTEST_CAPTION
                    } else {
                        gone
                    },
                    text: caption.text,
                },
            )
        },
    }
}

/// The captions of an output file.
pub open spec fn retimed_captions(
    captions: Seq<CaptionView>,
    part_start: int,
    keep: Seq<KeepRange>,
) -> Seq<CaptionView>
    decreases captions.len(),
{
    if captions.len() == 0 {
        Seq::empty()
    } else {
        let rest = retimed_captions(captions.drop_last(), part_start, keep);
        match retimed(captions.last(), part_start, keep) {
            Some(caption) => rest.push(caption),
            None => rest,
        }
    }
}

/// A position in the output is within reach.
proof fn positions_are_bounded(keep: Seq<KeepRange>, at: int, i: int)
    requires
        summable(keep),
        -TIME_LIMIT <= at <= TIME_LIMIT,
        0 <= i,
    ensures
        position_from(keep, at, i) matches Some(position) ==> -6 * TIME_LIMIT <= position <= 6
            * TIME_LIMIT,
    decreases keep.len() - i,
{
    if i < keep.len() {
        assert(keep[i].in_time());
        assert(-4 * TIME_LIMIT <= kept_length(keep.take(i)) <= 4 * TIME_LIMIT);
        positions_are_bounded(keep, at, i + 1);
    }
}

/// Place captions on the timeline of one output file.
///
/// Re-timed through the same map the chapters use, because a subtitle that
/// still speaks in source time drifts further out of step with every
/// commercial removed: by the end of a programme, minutes. Each part has a
/// clock of its own, so a caption is placed against that part's kept ranges or
/// not at all.
#[must_use]
pub fn retime(captions: &[Caption], part: &Part, keep: &[KeepRange]) -> (shown: Vec<Caption>)
    requires
        part@.wf(),
        summable(keep@),
        forall|i: int|
            0 <= i < captions@.len() ==> 0 <= (#[trigger] captions@[i]).start_seconds <= TIME_LIMIT
                && 0 <= captions@[i].end_seconds <= TIME_LIMIT,
    ensures
        caption_views(shown@) == retimed_captions(
            caption_views(captions@),
            part.start as int,
            keep@,
        ),
{
    let mut shown: Vec<Caption> = Vec::new();
    let ghost all = caption_views(captions@);
    assert(all.take(0) =~= Seq::empty());
    assert(caption_views(shown@) =~= Seq::empty());
    for i in 0..captions.len()
        invariant
            part@.wf(),
            summable(keep@),
            all == caption_views(captions@),
            forall|i: int|
                0 <= i < captions@.len() ==> 0 <= (#[trigger] captions@[i]).start_seconds
                    <= TIME_LIMIT && 0 <= captions@[i].end_seconds <= TIME_LIMIT,
            caption_views(shown@) == retimed_captions(all.take(i as int), part.start as int, keep@),
    {
        let caption = &captions[i];
        assert(captions@[i as int] == *caption);
        assert(all.take(i + 1).drop_last() =~= all.take(i as int));
        assert(all.take(i + 1).last() == caption@);
        let start: i64 = caption.start_seconds - part.start;
        let end: i64 = caption.end_seconds - part.start;
        proof {
            positions_are_bounded(keep@, start as int, 0);
            positions_are_bounded(keep@, end as int, 0);
        }
        if let Some(first) = source_to_output(keep, start) {
            let last: i64 = match source_to_output(keep, end) {
                Some(last) => last,
                None => first + (end - start),
            };
            let moved = Caption {
                start_seconds: first,
                end_seconds: if last < first + SHORTEST_CAPTION {
                    first + SHORTEST_CAPTION
                } else {
                    last
                },
                text: own(caption.text.as_str()),
            };
            let ghost before = caption_views(shown@);
            assert(Some(moved@) == retimed(caption@, part.start as int, keep@));
            shown.push(moved);
            assert(caption_views(shown@) =~= before.push(moved@));
        }
    }
    assert(all.take(all.len() as int) =~= all);
    shown
}

/// The sidecar path for an output file.
#[must_use]
pub fn sidecar_path(output: &str) -> (path: String)
    ensures
        path@ == renamed(
            output@,
            (match stem_of(output@) {
                Some(stem) => stem,
                None => ""@,
            }) + ".cut.json"@,
        ),
{
    let mut name = match file_stem(output) {
        Some(stem) => stem,
        None => own(""),
    };
    name.append(".cut.json");
    with_file_name(output, name.as_str())
}

/// The record written beside the output.
///
/// This is what makes a cut reviewable after the fact: it says what was
/// removed, why, and how confident the segmenter was, so a surprising result
/// can be understood without re-running anything.
#[derive(Debug)]
pub struct Sidecar {
    /// Version that produced it.
    pub version: String,
    /// Source recording.
    pub input: String,
    /// Encoding profile used.
    pub profile: String,
    /// Programme title, when known.
    pub title: Option<String>,
    /// What was decided.
    pub plan: CutPlan,
    /// What analysis found, minus the per-frame track, which is large.
    pub analysis: Analysis,
    /// What the source recording contained and what was wrong with it.
    pub diagnostics: Option<Diagnostics>,
}

/// The record to write beside the output.
///
/// The per-frame logo track is megabytes on a long recording and is only
/// useful to the timeline view, which reads it from the job database.
#[must_use]
pub fn sidecar(
    version: String,
    request: &JobRequest,
    analysis: Analysis,
    plan: CutPlan,
    diagnostics: Option<Diagnostics>,
) -> (sidecar: Sidecar)
    ensures
        sidecar.version == version,
        sidecar.input@ == request.input@,
        sidecar.profile@ == request.profile.name@,
        text_of(sidecar.title) == text_of(request.title),
        sidecar.plan == plan,
        sidecar.analysis == (Analysis { logo_track: None, ..analysis }),
        sidecar.diagnostics == diagnostics,
{
    let mut analysis = analysis;
    analysis.logo_track = None;
    Sidecar {
        version,
        input: own(request.input.as_str()),
        profile: own(request.profile.name.as_str()),
        title: copy_option(&request.title),
        plan,
        analysis,
        diagnostics,
    }
}

/// What the pipeline produced.
#[derive(Debug)]
pub struct JobOutcome {
    /// The file that was asked for, and the first one written.
    pub output: String,
    /// Every file written, in order.
    ///
    /// More than one when the recording changed picture size part-way through
    /// and had to be split; `EPGStation` only knows about the first, which is
    /// why that one keeps the name it asked for.
    pub outputs: Vec<String>,
    /// The sidecar describing the cuts.
    pub sidecar: String,
    /// What analysis found.
    pub analysis: Analysis,
    /// What was decided.
    pub plan: CutPlan,
    /// Whether a logo was learned and added to the store.
    pub logo_learned: bool,
    /// What the recording contained and what was wrong with it, when the
    /// source was a transport stream that could be scanned.
    pub diagnostics: Option<Diagnostics>,
}

/// A request whose profile this ffmpeg can run.
#[derive(Debug)]
pub struct Accepted {
    /// What to do.
    pub request: JobRequest,
}

/// Accept a request, unless its profile needs an encoder that this ffmpeg does
/// not have: checked before anything else, so it costs nothing to find out.
pub fn begin(ffmpeg: &Ffmpeg, request: JobRequest) -> (result: Result<Accepted, Error>)
    ensures
        match result {
            Ok(accepted) => {
                &&& ffmpeg.spec_encoders().contains(request.profile@.video_encoder)
                &&& ffmpeg.spec_encoders().contains(request.profile@.audio_encoder)
                &&& accepted.request == request
            },
            Err(error) => {
                &&& !ffmpeg.spec_encoders().contains(request.profile@.video_encoder)
                    || !ffmpeg.spec_encoders().contains(request.profile@.audio_encoder)
                &&& error matches Error::UnsupportedProfile { profile, encoder }
                    && profile@ == request.profile@.name && encoder@
                    == request.profile@.video_encoder
            },
        },
{
    if request.profile.is_supported_by(ffmpeg) {
        Ok(Accepted { request })
    } else {
        Err(
            Error::UnsupportedProfile {
                profile: own(request.profile.name.as_str()),
                encoder: own(request.profile.video.encoder.as_str()),
            },
        )
    }
}

/// A request whose source has a picture.
#[derive(Debug)]
pub struct Probed {
    /// What to do.
    pub request: JobRequest,
    /// What ffmpeg reported about the source.
    pub probe: MediaProbe,
}

impl Accepted {
    /// Go on once ffmpeg has described the source, unless there is no picture
    /// in it.
    pub fn probed(self, probe: MediaProbe) -> (result: Result<Probed, Error>)
        ensures
            match result {
                Ok(next) => probe.video is Some && next.request == self.request && next.probe
                    == probe,
                Err(error) => probe.video is None && (error matches Error::Media(
                    crate::media::Error::NoVideoStream { path },
                ) && path@ == self.request.input@),
            },
    {
        if probe.video.is_none() {
            return Err(
                Error::Media(
                    crate::media::Error::NoVideoStream { path: own(self.request.input.as_str()) },
                ),
            );
        }
        Ok(Probed { request: self.request, probe })
    }
}

/// A request whose source is known to be worth transcoding.
#[derive(Debug)]
pub struct Inspected {
    /// What to do.
    pub request: JobRequest,
    /// What ffmpeg reported about the source.
    pub probe: MediaProbe,
    /// What the recording contains and what is wrong with it.
    pub diagnostics: Option<Diagnostics>,
    /// Whether the channel is known to carry no logo.
    pub no_logo: bool,
    /// How to analyse it.
    pub options: AnalysisOptions,
}

/// How a request is to be analysed.
///
/// A channel known to carry no logo (NHK's, the shopping channels, most of CS)
/// must not be searched. Looking anyway costs three extra decoding passes per
/// recording to rediscover the same nothing, and risks the locator settling on
/// a telop banner instead. Where no commercials are looked for there is
/// nothing for a logo to separate either.
pub open spec fn is_analysis_of(
    options: AnalysisOptions,
    request: JobRequest,
    interlaced: bool,
    stored: Option<LogoData>,
    no_logo: bool,
) -> bool {
    &&& options.logo == stored
    &&& options.logo_name@ == request.logo_name()
    &&& text_of(options.channel_id) == text_of(request.channel_id)
    &&& options.logo_rect == request.logo_rect
    &&& options.deinterlace == interlaced
    &&& options.find_logo == (!no_logo && request.detect_commercials)
    &&& options.locate_step == 10
    &&& options.learn_step == 2
    &&& options.silence_dbfs == crate::analyze::DEFAULT_SILENCE_DBFS
    &&& options.silence_seconds == crate::analyze::DEFAULT_SILENCE_SECONDS
    &&& call_ensures(crate::analyze::scene::SceneOptions::default, (), options.scene)
    &&& call_ensures(crate::analyze::logo::track::TrackOptions::default, (), options.track)
}

impl Probed {
    /// Whether the source still has to be scanned.
    #[must_use]
    pub fn needs_scan(&self) -> (yes: bool)
        ensures
            yes == (self.request.diagnostics is None && is_stream_name(self.request.input@)),
    {
        self.request.diagnostics.is_none() && is_transport_stream(self.request.input.as_str())
    }

    /// The size of the picture, which the logo store is asked for along with
    /// the channel.
    #[must_use]
    pub fn frame_size(&self) -> (size: (u32, u32))
        ensures
            size == (match self.probe.video {
                Some(video) => (video.width, video.height),
                None => (0, 0),
            }),
    {
        match &self.probe.video {
            Some(video) => (video.width, video.height),
            None => (0, 0),
        }
    }

    /// Go on once the source has been scanned and the logo store asked, unless
    /// the recording is beyond saving and such are to be refused.
    ///
    /// A scan made earlier, and handed in with the request, stands.
    pub fn inspected(self, scan: Option<&TsInfo>, stored: Option<LogoData>, no_logo: bool) -> (result:
        Result<Inspected, Error>)
        requires
            self.probe.video is Some,
        ensures
            match result {
                Ok(next) => {
                    &&& next.request == (JobRequest { diagnostics: None, ..self.request })
                    &&& next.probe == self.probe
                    &&& next.no_logo == no_logo
                    &&& match self.request.diagnostics {
                        Some(found) => next.diagnostics == Some(found),
                        None => is_inspection(
                            self.request.input@,
                            match scan {
                                Some(info) => Some(*info),
                                None => None,
                            },
                            next.diagnostics,
                        ),
                    }
                    &&& !(next.diagnostics matches Some(found) && found.hopeless()
                        && self.request.refuse_damaged)
                    &&& is_analysis_of(
                        next.options,
                        self.request,
                        (self.probe.video->Some_0).interlaced,
                        stored,
                        no_logo,
                    )
                },
                Err(error) => self.request.refuse_damaged && (match self.request.diagnostics {
                    Some(found) => found.hopeless() && error == (Error::DamagedSource {
                        scrambled: found.scrambled_packets,
                        total: found.total_packets,
                    }),
                    None => is_stream_name(self.request.input@) && (scan matches Some(info)
                        && exceeds(info.stats.scrambled_packets, info.packet_count, 300) && error
                        == (Error::DamagedSource {
                        scrambled: info.stats.scrambled_packets,
                        total: info.packet_count,
                    })),
                }),
            },
    {
        let mut request = self.request;
        let diagnostics = match request.diagnostics.take() {
            Some(found) => Some(found),
            None => inspect(request.input.as_str(), scan),
        };
        let refusal = match &diagnostics {
            Some(found) => report(Some(found), request.refuse_damaged),
            None => report(None, request.refuse_damaged),
        };
        if let Err(error) = refusal {
            return Err(error);
        }
        let interlaced = match &self.probe.video {
            Some(video) => video.interlaced,
            None => false,
        };
        let mut options = AnalysisOptions::default();
        options.logo = stored;
        options.logo_name = match &request.channel_name {
            Some(name) => own(name.as_str()),
            None => match &request.channel_id {
                Some(id) => own(id.as_str()),
                None => own("unknown"),
            },
        };
        options.channel_id = copy_option(&request.channel_id);
        options.logo_rect = request.logo_rect;
        options.deinterlace = interlaced;
        options.find_logo = !no_logo && request.detect_commercials;
        Ok(Inspected { request, probe: self.probe, diagnostics, no_logo, options })
    }
}

/// A request with everything decided but nothing written.
#[derive(Debug)]
pub struct Planned {
    /// What to do.
    pub request: JobRequest,
    /// What ffmpeg reported about the source.
    pub probe: MediaProbe,
    /// What the recording contains and what is wrong with it.
    pub diagnostics: Option<Diagnostics>,
    /// What analysis found.
    pub analysis: Analysis,
    /// What was decided.
    pub plan: CutPlan,
    /// Every file to encode, in order.
    pub jobs: Vec<PartJob>,
    /// How many parts there are, those in which nothing is kept among them.
    pub parts: usize,
}

/// An analysis of a recording in which nothing was looked for.
pub open spec fn is_bare(analysis: Analysis, probe: MediaProbe) -> bool {
    &&& Some(analysis.duration) == probe.duration_seconds
    &&& probe.video matches Some(video) ==> analysis.spacing == video@.spacing(1)
    &&& analysis.logo is None
    &&& analysis.learned_logo is None
    &&& analysis.logo_intervals@.len() == 0
    &&& analysis.logo_track is None
    &&& analysis.scene_changes@.len() == 0
    &&& analysis.silent_spans@.len() == 0
}

impl Inspected {
    /// There is something to look for, or to measure.
    pub open spec fn wants_analysis(self) -> bool {
        ||| self.request.detect_commercials
        ||| self.request.manual_ranges is Some
        ||| !(self.probe.duration_seconds matches Some(duration) && 0 < duration <= TIME_LIMIT)
        ||| self.probe.video is None
    }

    /// Whether the recording has to be analysed.
    ///
    /// Where there are no commercials to find the pass is skipped rather than
    /// run to conclude nothing. Cuts chosen by hand are looked at on a timeline
    /// that is drawn from the analysis, and a recording whose container does
    /// not state its length has to be decoded to measure it.
    #[must_use]
    pub fn needs_analysis(&self) -> (yes: bool)
        ensures
            yes == self.wants_analysis(),
    {
        if self.request.detect_commercials || self.request.manual_ranges.is_some()
            || self.probe.video.is_none() {
            return true;
        }
        match self.probe.duration_seconds {
            Some(duration) => duration <= 0 || duration > TIME_LIMIT,
            None => true,
        }
    }

    /// What is known of a recording that is not analysed.
    #[must_use]
    pub fn bare_analysis(&self) -> (analysis: Analysis)
        requires
            !self.wants_analysis(),
        ensures
            is_bare(analysis, self.probe),
            analysis.wf(),
    {
        let duration: i64 = match self.probe.duration_seconds {
            Some(duration) => duration,
            None => 0,
        };
        let spacing = match &self.probe.video {
            Some(video) => video.spacing(1),
            None => FrameSpacing { micros: 0, frames: 1 },
        };
        Analysis {
            duration,
            spacing,
            logo: None,
            learned_logo: None,
            logo_intervals: Vec::new(),
            logo_track: None,
            scene_changes: Vec::new(),
            silent_spans: Vec::new(),
        }
    }

    /// Whether a freshly learned logo should go to the store, so the next
    /// recording on this channel skips the learning passes entirely.
    ///
    /// A logo the detector then found nowhere is not a logo, and caching it
    /// would skip relearning on every future recording of this channel,
    /// entrenching the mistake, so only a logo that was actually detected is
    /// kept.
    #[must_use]
    pub fn keeps_logo(&self, analysis: &Analysis) -> (yes: bool)
        ensures
            yes == (self.request.learn_logo && !self.no_logo && analysis.spec_has_logo()
                && analysis.learned_logo is Some),
    {
        self.request.learn_logo && !self.no_logo && analysis.has_logo()
            && analysis.learned_logo.is_some()
    }

    /// Go on once the recording has been analysed, unless the plan is not
    /// trusted and the policy says to stop.
    pub fn analysed(self, analysis: Analysis, file_size: u64) -> (result: Result<Planned, Error>)
        requires
            self.request.wf(),
            analysis.wf(),
            splits_in_time(self.diagnostics),
        ensures
            match result {
                Ok(next) => {
                    let parts = parts_for(
                        self.request.output@,
                        split_points(self.diagnostics, analysis.duration),
                        analysis.duration,
                        file_size,
                    );
                    &&& next.request == self.request
                    &&& next.probe == self.probe
                    &&& next.diagnostics == self.diagnostics
                    &&& next.analysis == analysis
                    &&& is_decided(analysis, self.request, next.plan)
                    &&& verdict(
                        next.plan,
                        self.request.cut,
                        analysis.spec_has_logo(),
                        self.no_logo,
                    ) is Ok
                    &&& job_views(next.jobs@) == jobs_for(parts, parts.len() as int, next.plan)
                    &&& next.parts == parts.len()
                    &&& forall|i: int|
                        0 <= i < next.jobs@.len() ==> summable((#[trigger] next.jobs@[i]).keep@)
                },
                Err(error) => exists|plan: CutPlan|
                    {
                        &&& #[trigger] is_decided(analysis, self.request, plan)
                        &&& match verdict(
                            plan,
                            self.request.cut,
                            analysis.spec_has_logo(),
                            self.no_logo,
                        ) {
                            Ok(()) => false,
                            Err(Some(reason)) => error matches Error::LowConfidence { reason: told }
                                && told@ == reason,
                            Err(None) => error == Error::NeedsLogo,
                        }
                    },
            },
    {
        let plan = decide(&analysis, &self.request);
        if let Err(error) = check_confidence(
            &plan,
            &self.request.cut,
            analysis.has_logo(),
            self.no_logo,
        ) {
            return Err(error);
        }
        let diagnostics = match &self.diagnostics {
            Some(found) => Some(found),
            None => None,
        };
        let parts: usize = split(
            self.request.output.as_str(),
            diagnostics,
            analysis.duration,
            file_size,
        ).len();
        let jobs = part_jobs(
            self.request.output.as_str(),
            diagnostics,
            analysis.duration,
            file_size,
            &plan,
        );
        Ok(
            Planned {
                request: self.request,
                probe: self.probe,
                diagnostics: self.diagnostics,
                analysis,
                plan,
                jobs,
                parts,
            },
        )
    }
}

impl Planned {
    /// What came of the job, once its files have been written.
    #[must_use]
    pub fn finished(self, outputs: Vec<String>, logo_learned: bool) -> (outcome: JobOutcome)
        ensures
            outcome.output == self.request.output,
            outcome.outputs == outputs,
            outcome.sidecar@ == renamed(
                self.request.output@,
                (match stem_of(self.request.output@) {
                    Some(stem) => stem,
                    None => ""@,
                }) + ".cut.json"@,
            ),
            outcome.analysis == self.analysis,
            outcome.plan == self.plan,
            outcome.logo_learned == logo_learned,
            outcome.diagnostics == self.diagnostics,
    {
        let sidecar = sidecar_path(self.request.output.as_str());
        JobOutcome {
            output: self.request.output,
            outputs,
            sidecar,
            analysis: self.analysis,
            plan: self.plan,
            logo_learned,
            diagnostics: self.diagnostics,
        }
    }
}

} // verus!
