//! The cut plan: what to keep, and how far to trust it.

use vstd::prelude::*;
use vstd::string::*;
use crate::analyze::in_time;
use crate::analyze::is_in_time;
use crate::analyze::Analysis;
use crate::analyze::TIME_LIMIT;
use crate::cmcut::boundary::candidates;
use crate::cmcut::boundary::candidate_set;
use crate::cmcut::boundary::Boundary;
use crate::cmcut::laws::kept_time_is_bounded;
use crate::cmcut::score::CutOptions;
use crate::cmcut::score::LowConfidencePolicy;
use crate::cmcut::score::SegmentKind;
use crate::cmcut::solve::coverage_of;
use crate::cmcut::solve::evidence;
use crate::cmcut::solve::solve;
use crate::cmcut::solve::Evidence;
use crate::cmcut::solve::LogoCoverage;
use crate::cmcut::solve::Segment;
use crate::text::decimal_digits;
use crate::text::push_decimal;
use crate::text::push_two_places;
use crate::text::two_places;

verus! {

/// Whether the plan's cuts should be applied.
#[derive(Debug, Clone, Copy, PartialEq, Eq, Structural)]
pub enum Decision {
    /// Cut the commercials out.
    Cut,
    /// Keep everything, and rely on the chapters to mark the commercials.
    KeepAll,
}

/// A stretch of the recording to keep.
#[derive(Debug, Clone, Copy, PartialEq, Eq, Structural)]
pub struct KeepRange {
    /// Start, in microseconds.
    pub start: i64,
    /// End, in microseconds.
    pub end: i64,
}

impl KeepRange {
    /// Both ends are within the limit on moments.
    pub open spec fn in_time(self) -> bool {
        in_time(self.start) && in_time(self.end)
    }

    /// Length in microseconds.
    #[must_use]
    pub fn duration(&self) -> (length: i64)
        requires
            self.in_time(),
        ensures
            length == self.end - self.start,
    {
        self.end - self.start
    }
}

/// The segmenter's answer.
#[derive(Debug, Clone, PartialEq, Eq)]
pub struct CutPlan {
    /// Every segment, in order, covering the whole recording.
    pub segments: Vec<Segment>,
    /// The stretches to keep, merged and in order.
    pub keep: Vec<KeepRange>,
    /// Overall confidence, in millionths.
    pub confidence: i64,
    /// Whether the cuts should be applied.
    pub decision: Decision,
    /// Why, in a form suitable for a log line or the web UI.
    pub reason: String,
}

/// The total length of a list of ranges.
pub open spec fn kept_length(keep: Seq<KeepRange>) -> int
    decreases keep.len(),
{
    if keep.len() == 0 {
        0
    } else {
        kept_length(keep.drop_last()) + (keep.last().end - keep.last().start)
    }
}

/// The total length of the ranges that run forward.
pub open spec fn forward_length(keep: Seq<KeepRange>) -> int
    decreases keep.len(),
{
    if keep.len() == 0 {
        0
    } else {
        let last = keep.last();
        forward_length(keep.drop_last()) + if last.end > last.start {
            last.end - last.start
        } else {
            0
        }
    }
}

/// The total length of the segments of one kind.
pub open spec fn length_of_kind(segments: Seq<Segment>, kind: SegmentKind) -> int
    decreases segments.len(),
{
    if segments.len() == 0 {
        0
    } else {
        let last = segments.last();
        length_of_kind(segments.drop_last(), kind) + if last.kind == kind {
            last.end - last.start
        } else {
            0
        }
    }
}

impl CutPlan {
    /// Every moment is within the limit, and there are few enough to sum.
    pub open spec fn wf(self) -> bool {
        &&& self.segments@.len() <= u32::MAX
        &&& self.keep@.len() <= u32::MAX
        &&& forall|i: int|
            0 <= i < self.segments@.len() ==> (#[trigger] self.segments@[i]).in_time()
        &&& forall|i: int| 0 <= i < self.keep@.len() ==> (#[trigger] self.keep@[i]).in_time()
    }

    /// Whether every moment is within the limit, and there are few enough to
    /// sum.
    #[must_use]
    pub fn is_sound(&self) -> (yes: bool)
        ensures
            yes == self.wf(),
    {
        if self.segments.len() as u64 > u32::MAX as u64 || self.keep.len() as u64
            > u32::MAX as u64 {
            return false;
        }
        for i in 0..self.segments.len()
            invariant
                forall|k: int| 0 <= k < i ==> (#[trigger] self.segments@[k]).in_time(),
        {
            let segment = self.segments[i];
            if !is_in_time(segment.start) || !is_in_time(segment.end) {
                assert(!self.segments@[i as int].in_time());
                return false;
            }
        }
        for i in 0..self.keep.len()
            invariant
                forall|k: int| 0 <= k < i ==> (#[trigger] self.keep@[k]).in_time(),
        {
            let range = self.keep[i];
            if !is_in_time(range.start) || !is_in_time(range.end) {
                assert(!self.keep@[i as int].in_time());
                return false;
            }
        }
        true
    }

    /// Total duration of the kept material, in microseconds.
    #[must_use]
    pub fn kept_seconds(&self) -> (total: i128)
        requires
            self.wf(),
        ensures
            total == kept_length(self.keep@),
    {
        let mut total: i128 = 0;
        for i in 0..self.keep.len()
            invariant
                self.wf(),
                total == kept_length(self.keep@.take(i as int)),
                -(i * 2_000_000_000_000_000) <= total <= i * 2_000_000_000_000_000,
        {
            assert(self.keep@[i as int].in_time());
            assert(self.keep@.take(i + 1).drop_last() =~= self.keep@.take(i as int));
            total += self.keep[i].duration() as i128;
        }
        assert(self.keep@.take(self.keep@.len() as int) =~= self.keep@);
        total
    }

    /// Total duration that would be cut, in microseconds.
    #[must_use]
    pub fn cut_seconds(&self) -> (total: i128)
        requires
            self.wf(),
        ensures
            total == length_of_kind(self.segments@, SegmentKind::Commercial),
    {
        let mut total: i128 = 0;
        for i in 0..self.segments.len()
            invariant
                self.wf(),
                total == length_of_kind(
                    self.segments@.take(i as int),
                    SegmentKind::Commercial,
                ),
                -(i * 2_000_000_000_000_000) <= total <= i * 2_000_000_000_000_000,
        {
            assert(self.segments@[i as int].in_time());
            assert(self.segments@.take(i + 1).drop_last() =~= self.segments@.take(i as int));
            if self.segments[i].kind == SegmentKind::Commercial {
                total += self.segments[i].duration() as i128;
            }
        }
        assert(self.segments@.take(self.segments@.len() as int) =~= self.segments@);
        total
    }

    /// Total duration that is actually removed, in microseconds: what is
    /// labelled commercial, where the cuts are applied.
    #[must_use]
    pub fn removed_seconds(&self) -> (total: i128)
        requires
            self.wf(),
        ensures
            total == (if self.decision == Decision::Cut {
                length_of_kind(self.segments@, SegmentKind::Commercial)
            } else {
                0
            }),
    {
        if self.decision == Decision::Cut {
            self.cut_seconds()
        } else {
            0
        }
    }

    /// Whether anything would actually be removed.
    #[must_use]
    pub fn cuts_anything(&self) -> (yes: bool)
        requires
            self.wf(),
        ensures
            yes == (self.decision == Decision::Cut && length_of_kind(
                self.segments@,
                SegmentKind::Commercial,
            ) > 0),
    {
        self.decision == Decision::Cut && self.cut_seconds() > 0
    }
}

/// The most a plan with no logo evidence behind it may claim, in millionths.
///
/// Below any sensible value of [`CutOptions::confidence_threshold`], so the
/// low-confidence policy always governs the logo-free case.
pub const LOGO_FREE_CONFIDENCE_CEILING: i64 = 500_000;

/// How many segments are commercials.
pub open spec fn commercial_count(segments: Seq<Segment>) -> nat
    decreases segments.len(),
{
    if segments.len() == 0 {
        0
    } else {
        commercial_count(segments.drop_last()) + if segments.last().kind == SegmentKind::Commercial {
            1nat
        } else {
            0
        }
    }
}

/// The commercials' confidences, each counted once per microsecond of its
/// segment.
pub open spec fn weighed_confidence(segments: Seq<Segment>) -> int
    decreases segments.len(),
{
    if segments.len() == 0 {
        0
    } else {
        let last = segments.last();
        weighed_confidence(segments.drop_last()) + if last.kind == SegmentKind::Commercial {
            last.confidence * (last.end - last.start)
        } else {
            0
        }
    }
}

/// Overall confidence: the duration-weighted mean over the commercial blocks,
/// since those are the segments whose mislabelling loses material.
///
/// Finding nothing to cut is a real answer, and a confident one when the logo
/// was visible throughout. With something to cut and no logo the evidence is
/// timing and boundaries alone, which is capped: enough to propose a
/// segmentation, not enough to remove material irreversibly. The mean is rounded
/// down, so that it reaches a threshold exactly when the mean itself does.
#[verifier::opaque]
pub open spec fn overall_confidence(segments: Seq<Segment>, logo_available: bool) -> int {
    let total = length_of_kind(segments, SegmentKind::Commercial);
    if commercial_count(segments) == 0 {
        if logo_available {
            900_000
        } else {
            500_000
        }
    } else if total <= 0 {
        0
    } else {
        let mean = weighed_confidence(segments) / total;
        if !logo_available && mean > LOGO_FREE_CONFIDENCE_CEILING {
            LOGO_FREE_CONFIDENCE_CEILING as int
        } else {
            mean
        }
    }
}

/// Segments as the solver makes them: forward in time, within the limits, and
/// trusted between not at all and fully.
pub open spec fn sound_segments(segments: Seq<Segment>) -> bool {
    &&& segments.len() <= u32::MAX
    &&& forall|i: int|
        0 <= i < segments.len() ==> {
            let segment = #[trigger] segments[i];
            segment.in_time() && segment.start <= segment.end && 0 <= segment.confidence
                <= 1_000_000
        }
}

/// Overall confidence in a segmentation, in millionths.
pub fn confidence_of(segments: &[Segment], logo_available: bool) -> (confidence: i64)
    requires
        sound_segments(segments@),
    ensures
        confidence == overall_confidence(segments@, logo_available),
        0 <= confidence <= 1_000_000,
{
    reveal(overall_confidence);
    let mut count: usize = 0;
    let mut total: i128 = 0;
    let mut weighed: i128 = 0;
    for i in 0..segments.len()
        invariant
            sound_segments(segments@),
            count == commercial_count(segments@.take(i as int)),
            count <= i,
            total == length_of_kind(segments@.take(i as int), SegmentKind::Commercial),
            weighed == weighed_confidence(segments@.take(i as int)),
            0 <= total <= i * 2_000_000_000_000_000,
            0 <= weighed <= total * 1_000_000,
    {
        let segment = segments[i];
        assert(segments@[i as int] == segment);
        assert(segments@.take(i + 1).drop_last() =~= segments@.take(i as int));
        if segment.kind == SegmentKind::Commercial {
            let length: i128 = segment.duration() as i128;
            let confidence: i128 = segment.confidence as i128;
            assert(0 <= confidence * length <= 1_000_000 * length) by (nonlinear_arith)
                requires
                    0 <= confidence <= 1_000_000,
                    0 <= length,
            ;
            count += 1;
            total += length;
            weighed += confidence * length;
        }
    }
    assert(segments@.take(segments@.len() as int) =~= segments@);
    if count == 0 {
        return if logo_available { 900_000 } else { 500_000 };
    }
    if total <= 0 {
        return 0;
    }
    let mean: i128 = weighed / total;
    assert(0 <= mean <= 1_000_000) by (nonlinear_arith)
        requires
            mean == weighed as int / total as int,
            0 <= weighed <= total * 1_000_000,
            total > 0,
    ;
    if !logo_available && mean > LOGO_FREE_CONFIDENCE_CEILING as i128 {
        return LOGO_FREE_CONFIDENCE_CEILING;
    }
    mean as i64
}

/// A confidence threshold that no plan reaches.
pub const NEVER: i64 = i64::MAX;

/// Why a plan is not trusted.
pub open spec fn doubt(confidence: int, logo_available: bool, threshold: int) -> Seq<char> {
    (if logo_available {
        "confidence "@
    } else {
        "no logo was found, and confidence "@
    }) + two_places(confidence) + " is below "@ + (if threshold == NEVER {
        "inf"@
    } else {
        two_places(threshold)
    })
}

/// What the low-confidence policy makes of a segmentation.
pub open spec fn decision_for(
    confidence: int,
    commercials: nat,
    options: CutOptions,
) -> Decision {
    if commercials == 0 || confidence >= options.confidence_threshold {
        Decision::Cut
    } else {
        match options.low_confidence {
            LowConfidencePolicy::Cut => Decision::Cut,
            LowConfidencePolicy::Keep | LowConfidencePolicy::Fail | LowConfidencePolicy::Block => {
                Decision::KeepAll
            },
        }
    }
}

/// The reason given for a decision.
pub open spec fn reason_for(
    confidence: int,
    commercials: nat,
    logo_available: bool,
    options: CutOptions,
) -> Seq<char> {
    if commercials == 0 {
        "no commercial blocks found; nothing to cut"@
    } else if confidence >= options.confidence_threshold {
        decimal_digits(commercials) + " commercial blocks, confidence "@ + two_places(confidence)
    } else {
        doubt(confidence, logo_available, options.confidence_threshold as int) + match options.low_confidence {
            LowConfidencePolicy::Keep | LowConfidencePolicy::Block => {
                "; keeping the whole recording and marking chapters"@
            },
            LowConfidencePolicy::Cut => "; cutting anyway as configured"@,
            LowConfidencePolicy::Fail => "; configured to fail"@,
        }
    }
}

/// Apply the low-confidence policy.
pub fn decide(
    confidence: i64,
    segments: &[Segment],
    logo_available: bool,
    options: &CutOptions,
) -> (result: (Decision, String))
    ensures
        result.0 == decision_for(confidence as int, commercial_count(segments@), *options),
        result.1@ == reason_for(
            confidence as int,
            commercial_count(segments@),
            logo_available,
            *options,
        ),
{
    let mut commercials: usize = 0;
    for i in 0..segments.len()
        invariant
            commercials == commercial_count(segments@.take(i as int)),
            commercials <= i,
    {
        assert(segments@.take(i + 1).drop_last() =~= segments@.take(i as int));
        if segments[i].kind == SegmentKind::Commercial {
            commercials += 1;
        }
    }
    assert(segments@.take(segments@.len() as int) =~= segments@);

    let mut reason = String::new();
    if commercials == 0 {
        reason.append("no commercial blocks found; nothing to cut");
        assert(reason@ =~= "no commercial blocks found; nothing to cut"@);
        return (Decision::Cut, reason);
    }
    if confidence >= options.confidence_threshold {
        push_decimal(&mut reason, commercials as u64);
        reason.append(" commercial blocks, confidence ");
        push_two_places(&mut reason, confidence);
        assert(reason@ =~= decimal_digits(commercials as nat) + " commercial blocks, confidence "@
            + two_places(confidence as int));
        return (Decision::Cut, reason);
    }
    if logo_available {
        reason.append("confidence ");
    } else {
        reason.append("no logo was found, and confidence ");
    }
    push_two_places(&mut reason, confidence);
    reason.append(" is below ");
    if options.confidence_threshold == NEVER {
        reason.append("inf");
    } else {
        push_two_places(&mut reason, options.confidence_threshold);
    }
    assert(reason@ =~= doubt(
        confidence as int,
        logo_available,
        options.confidence_threshold as int,
    ));
    match options.low_confidence {
        LowConfidencePolicy::Keep | LowConfidencePolicy::Block => {
            reason.append("; keeping the whole recording and marking chapters");
            (Decision::KeepAll, reason)
        },
        LowConfidencePolicy::Cut => {
            reason.append("; cutting anyway as configured");
            (Decision::Cut, reason)
        },
        LowConfidencePolicy::Fail => {
            reason.append("; configured to fail");
            (Decision::KeepAll, reason)
        },
    }
}

/// The programme segments as contiguous ranges: a segment that begins where
/// the last range ends extends it.
pub open spec fn kept_ranges(segments: Seq<Segment>) -> Seq<KeepRange>
    decreases segments.len(),
{
    if segments.len() == 0 {
        Seq::empty()
    } else {
        let keep = kept_ranges(segments.drop_last());
        let next = segments.last();
        if next.kind == SegmentKind::Commercial {
            keep
        } else if keep.len() > 0 && keep.last().end == next.start {
            keep.drop_last().push(KeepRange { start: keep.last().start, end: next.end })
        } else {
            keep.push(KeepRange { start: next.start, end: next.end })
        }
    }
}

/// Merge the programme segments into contiguous keep ranges.
pub fn merge_kept(segments: &[Segment]) -> (keep: Vec<KeepRange>)
    ensures
        keep@ == kept_ranges(segments@),
        keep@.len() <= segments@.len(),
{
    let mut keep: Vec<KeepRange> = Vec::new();
    for i in 0..segments.len()
        invariant
            keep@ == kept_ranges(segments@.take(i as int)),
            keep@.len() <= i,
    {
        assert(segments@.take(i + 1).drop_last() =~= segments@.take(i as int));
        let segment = segments[i];
        if segment.kind == SegmentKind::Programme {
            let count: usize = keep.len();
            if count > 0 && keep[count - 1].end == segment.start {
                let start: i64 = keep[count - 1].start;
                keep.set(count - 1, KeepRange { start, end: segment.end });
                assert(keep@ =~= kept_ranges(segments@.take(i + 1)));
            } else {
                keep.push(KeepRange { start: segment.start, end: segment.end });
            }
        }
    }
    assert(segments@.take(segments@.len() as int) =~= segments@);
    keep
}

/// The fallback plan changes nothing.
pub open spec fn keeps_everything(plan: CutPlan, duration: i64, reason: Seq<char>) -> bool {
    &&& plan.segments@ == seq![
        Segment { start: 0, end: duration, kind: SegmentKind::Programme, confidence: 0 },
    ]
    &&& plan.keep@ == seq![KeepRange { start: 0, end: duration }]
    &&& plan.confidence == 0
    &&& plan.decision == Decision::KeepAll
    &&& plan.reason@ == reason
}

/// The fallback plan: change nothing.
fn keep_everything(duration: i64, reason: &str) -> (plan: CutPlan)
    ensures
        keeps_everything(plan, duration, reason@),
        in_time(duration) ==> forward_length(plan.keep@) <= 2 * TIME_LIMIT,
{
    let mut segments: Vec<Segment> = Vec::new();
    segments.push(
        Segment { start: 0, end: duration, kind: SegmentKind::Programme, confidence: 0 },
    );
    let mut keep: Vec<KeepRange> = Vec::new();
    keep.push(KeepRange { start: 0, end: duration });
    assert(segments@ =~= seq![
        Segment { start: 0, end: duration, kind: SegmentKind::Programme, confidence: 0 },
    ]);
    assert(keep@ =~= seq![KeepRange { start: 0, end: duration }]);
    proof {
        if in_time(duration) {
            one_range_length(keep@);
        }
    }
    CutPlan {
        segments,
        keep,
        confidence: 0,
        decision: Decision::KeepAll,
        reason: reason.to_owned(),
    }
}

/// What the segmenter judges a recording by, given its candidate boundaries.
pub open spec fn evidence_in(
    analysis: Analysis,
    options: CutOptions,
    found: Seq<Boundary>,
) -> Evidence {
    evidence(
        found,
        coverage_of(analysis.logo_intervals@, found),
        analysis.spec_has_logo(),
        options,
    )
}

/// The plan for a recording, given its candidate boundaries.
pub open spec fn is_plan_from(
    analysis: Analysis,
    options: CutOptions,
    found: Seq<Boundary>,
    plan: CutPlan,
) -> bool {
    let logo_available = analysis.spec_has_logo();
    let commercials = commercial_count(plan.segments@);
    if found.len() < 2 || analysis.duration <= 0 {
        keeps_everything(plan, analysis.duration, "the recording has no usable structure"@)
    } else if found.last().at <= found[0].at {
        keeps_everything(plan, analysis.duration, "no segmentation could be scored"@)
    } else {
        &&& evidence_in(analysis, options, found).is_solution(plan.segments@)
        &&& plan.confidence == overall_confidence(plan.segments@, logo_available)
        &&& plan.decision == decision_for(plan.confidence as int, commercials, options)
        &&& plan.reason@ == reason_for(
            plan.confidence as int,
            commercials,
            logo_available,
            options,
        )
        &&& plan.keep@ == match plan.decision {
            Decision::Cut => kept_ranges(plan.segments@),
            Decision::KeepAll => seq![KeepRange { start: 0, end: analysis.duration }],
        }
    }
}

/// `plan` is the plan for a recording.
pub open spec fn is_plan(analysis: Analysis, options: CutOptions, plan: CutPlan) -> bool {
    is_plan_from(analysis, options, candidate_set(analysis, options.boundaries), plan)
}

/// Segment a recording into programme and commercial stretches.
#[must_use]
pub fn plan(analysis: &Analysis, options: &CutOptions) -> (plan: CutPlan)
    requires
        analysis.wf(),
        options.wf(),
    ensures
        is_plan(*analysis, *options, plan),
        plan.wf(),
        forward_length(plan.keep@) <= 2 * TIME_LIMIT,
{
    let boundaries = candidates(analysis, &options.boundaries);
    let logo_available = analysis.has_logo();
    if boundaries.len() < 2 || analysis.duration <= 0 {
        return keep_everything(analysis.duration, "the recording has no usable structure");
    }
    let coverage = LogoCoverage::new(&analysis.logo_intervals, &boundaries);
    let ghost e = evidence_in(*analysis, *options, boundaries@);
    let segments = match solve(&boundaries, &coverage, logo_available, options) {
        None => {
            return keep_everything(analysis.duration, "no segmentation could be scored");
        },
        Some(segments) => segments,
    };
    proof {
        solution_shape(e, segments@);
    }
    let confidence: i64 = confidence_of(&segments, logo_available);
    let (decision, reason) = decide(confidence, &segments, logo_available, options);
    let keep = match decision {
        Decision::Cut => {
            proof {
                kept_ranges_in_time(segments@);
                kept_time_is_bounded(
                    segments@,
                    e.boundaries[0].at as int,
                    e.boundaries.last().at as int,
                );
            }
            merge_kept(&segments)
        },
        Decision::KeepAll => {
            let mut keep: Vec<KeepRange> = Vec::new();
            keep.push(KeepRange { start: 0, end: analysis.duration });
            assert(keep@ =~= seq![KeepRange { start: 0, end: analysis.duration }]);
            proof {
                one_range_length(keep@);
            }
            keep
        },
    };
    CutPlan { segments, keep, confidence, decision, reason }
}

/// Segments tile a stretch: the first begins at its start, each begins where
/// the one before ends and has the other label, and the last ends at its end.
pub open spec fn tiles(segments: Seq<Segment>, start: int, end: int) -> bool {
    &&& segments.len() >= 1
    &&& segments[0].start == start
    &&& segments.last().end == end
    &&& forall|i: int| 0 <= i < segments.len() ==> (#[trigger] segments[i]).start < segments[i].end
    &&& forall|i: int| 1 <= i < segments.len() ==> #[trigger] follows_on(segments, i)
}

/// A segment begins where the one before it ends, with the other label.
pub open spec fn follows_on(segments: Seq<Segment>, i: int) -> bool {
    segments[i - 1].end == segments[i].start && segments[i - 1].kind != segments[i].kind
}

/// The chosen segmentation tiles the recording from the first boundary to the
/// last, alternating programme and commercial, and is well within limits.
pub(crate) proof fn solution_shape(e: Evidence, segments: Seq<Segment>)
    requires
        e.wf(),
        e.boundaries.len() >= 2,
        e.is_solution(segments),
    ensures
        tiles(segments, e.boundaries[0].at as int, e.boundaries.last().at as int),
        sound_segments(segments),
{
    let (path, kind) = choose|path: Seq<int>, kind: SegmentKind| #[trigger]
        e.is_chosen(path, kind) && segments == e.segments_along(path, kind);
    assert(path.len() <= e.boundaries.len()) by {
        e.path_climbs(path, path.len() - 1);
    }
    assert forall|i: int| 0 <= i < segments.len() implies {
        let segment = #[trigger] segments[i];
        segment.in_time() && segment.start < segment.end && 0 <= segment.confidence <= 1_000_000
    } by {
        assert(e.steps(path, i));
        e.segment_facts(path[i], path[i + 1], e.kind_along(path, kind, i));
    }
    assert forall|i: int| 1 <= i < segments.len() implies #[trigger] follows_on(segments, i) by {
        assert(e.steps(path, i));
        assert(e.steps(path, i - 1));
        e.segment_facts(path[i], path[i + 1], e.kind_along(path, kind, i));
        e.segment_facts(path[i - 1], path[i], e.kind_along(path, kind, i - 1));
        e.kinds_differ(path, kind, i);
    }
    assert(e.steps(path, 0));
    e.segment_facts(path[0], path[1], e.kind_along(path, kind, 0));
    let last = path.len() - 2;
    assert(e.steps(path, last));
    e.segment_facts(path[last], path[last + 1], e.kind_along(path, kind, last));
}

/// One range is as long as it is.
proof fn one_range_length(keep: Seq<KeepRange>)
    requires
        keep.len() == 1,
        keep[0].in_time(),
    ensures
        forward_length(keep) <= 2 * TIME_LIMIT,
{
    assert(keep.drop_last() =~= Seq::empty());
    assert(forward_length(keep.drop_last()) == 0);
}

proof fn kept_ranges_in_time(segments: Seq<Segment>)
    requires
        forall|i: int| 0 <= i < segments.len() ==> (#[trigger] segments[i]).in_time(),
    ensures
        forall|i: int|
            0 <= i < kept_ranges(segments).len() ==> (#[trigger] kept_ranges(
                segments,
            )[i]).in_time(),
    decreases segments.len(),
{
    if segments.len() > 0 {
        let shorter = segments.drop_last();
        assert forall|i: int| 0 <= i < shorter.len() implies (#[trigger] shorter[i]).in_time() by {
            assert(segments[i].in_time());
        }
        kept_ranges_in_time(shorter);
        let keep = kept_ranges(shorter);
        assert(segments[segments.len() - 1].in_time());
        if keep.len() > 0 {
            assert(keep[keep.len() - 1].in_time());
        }
        assert forall|i: int| 0 <= i < kept_ranges(segments).len() implies (
        #[trigger] kept_ranges(segments)[i]).in_time() by {
            if i < keep.len() {
                assert(keep[i].in_time());
            }
        }
    }
}

/// Errors from segmentation.
#[derive(Debug, Clone, PartialEq, Eq)]
pub enum Error {
    /// The plan's confidence was below the threshold and the configured
    /// policy is to fail rather than guess.
    LowConfidence {
        /// What the plan reported.
        reason: String,
    },
}

impl Error {
    /// What to tell somebody reading a log.
    pub open spec fn spec_message(self) -> Seq<char> {
        match self {
            Error::LowConfidence { reason } => {
                "commercial detection was not confident enough: "@ + reason@
            },
        }
    }

    /// What to tell somebody reading a log.
    #[must_use]
    pub fn message(&self) -> (text: String)
        ensures
            text@ == self.spec_message(),
    {
        match self {
            Error::LowConfidence { reason } => {
                let mut text = String::new();
                text.append("commercial detection was not confident enough: ");
                text.append(reason.as_str());
                assert(text@ =~= self.spec_message());
                text
            },
        }
    }
}

} // verus!
