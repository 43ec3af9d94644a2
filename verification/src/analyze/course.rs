//! What holds of the course that an analysis takes.

use vstd::prelude::*;
use crate::analyze::logo::detect::detectable;
use crate::analyze::logo::detect::frame_score;
use crate::analyze::logo::model::LogoData;
use crate::analyze::logo::model::LogoView;
use crate::analyze::logo::model::Rect;
use crate::analyze::logo::scan::background_of;
use crate::analyze::logo::scan::Gathered;
use crate::analyze::logo::track::LogoInterval;
use crate::analyze::passes::after_bootstrap;
use crate::analyze::passes::after_locating;
use crate::analyze::passes::assemble;
use crate::analyze::passes::begin_learning;
use crate::analyze::passes::gathered_after;
use crate::analyze::passes::kept_after;
use crate::analyze::passes::logo_source;
use crate::analyze::passes::silences_of;
use crate::analyze::passes::Detected;
use crate::analyze::passes::LearnAction;
use crate::analyze::passes::LogoSource;
use crate::analyze::passes::RefineAction;
use crate::analyze::Analysis;
use crate::analyze::AnalysisOptions;
use crate::analyze::SilentSpan;
use crate::media::audio::RmsEnvelope;
use crate::media::frames::Frame;
use crate::media::frames::FrameSpacing;
use crate::media::measured::long_silences_are_spans;
use crate::media::measured::spans_are_long_silences;

verus! {

/// A logo that is known is used, whatever else was asked; one is looked for only
/// where none is known and it was asked for.
pub proof fn known_logos_are_used(options: AnalysisOptions, source: LogoSource)
    requires
        call_ensures(logo_source, (&options,), source),
    ensures
        source is Stored <==> options.logo is Some,
        source is Learned <==> options.logo is None && options.find_logo,
        source is Nowhere <==> options.logo is None && !options.find_logo,
{
}

/// A box that was given is scanned as it was given, where it lies in the picture
/// and holds something; otherwise one is looked for; and without a picture there
/// is nothing to do.
pub proof fn given_boxes_are_scanned(
    size: Option<(u32, u32)>,
    rect: Option<Rect>,
    action: LearnAction,
)
    requires
        call_ensures(begin_learning, (size, rect), action),
    ensures
        size is None ==> action == LearnAction::Done(None),
        size matches Some((width, height)) ==> {
            &&& rect is None ==> action is Locate
            &&& rect matches Some(rect) ==> if rect.width > 0 && rect.height > 0 && rect.x
                + rect.width <= width && rect.y + rect.height <= height {
                action == (LearnAction::Scan { rect, supplied: true })
            } else {
                action is Locate
            }
        },
{
}

/// A box that was found is scanned, and where none was found nothing is learned.
pub proof fn found_boxes_are_scanned(found: Option<Rect>, action: LearnAction)
    requires
        call_ensures(after_locating, (found,), action),
    ensures
        found matches Some(rect) ==> action == (LearnAction::Scan { rect, supplied: false }),
        found is None ==> action == LearnAction::Done(None),
{
}

/// A first fit is refined where it can be detected by; where it cannot, it is
/// kept only if it looks like a logo.
pub proof fn detectable_fits_are_refined(fit: Option<LogoData>, action: RefineAction)
    requires
        call_ensures(after_bootstrap, (fit,), action),
    ensures
        fit is None ==> action == RefineAction::Done(None),
        fit matches Some(logo) ==> {
            &&& detectable(logo@) ==> (action matches RefineAction::Refine { gate, bootstrap }
                && gate@ == logo@ && bootstrap == logo)
            &&& !detectable(logo@) && logo@.plausible() ==> action == RefineAction::Done(Some(logo))
            &&& !detectable(logo@) && !logo@.plausible() ==> action == RefineAction::Done(None)
        },
{
}

/// The refined logo is preferred to the first fit, which is kept only for want
/// of it and only if it looks like a logo.
pub proof fn the_refined_logo_is_preferred(bootstrap: LogoData, refined: Option<LogoData>)
    ensures
        refined is Some ==> kept_after(bootstrap, refined) == refined,
        refined is None && bootstrap@.plausible() ==> kept_after(bootstrap, refined) == Some(
            bootstrap,
        ),
        refined is None && !bootstrap@.plausible() ==> kept_after(bootstrap, refined) is None,
{
}

/// A frame teaches something only where its background is flat and, once there
/// is a fit to go by, where the logo shows in it; one that teaches something is
/// counted once.
pub proof fn only_frames_with_the_logo_teach(
    gathered: Gathered,
    gate: Option<LogoView>,
    frame: Frame,
)
    requires
        gathered.frames < u32::MAX,
    ensures
        ({
            let after = gathered_after(gathered, gate, frame);
            let flat = background_of(frame, gathered.rect, gathered.threshold, gathered.strict)
                is Some;
            let shows = gate is None || frame_score(gate->Some_0, frame) >= 250_000;
            &&& flat && shows ==> after.frames == gathered.frames + 1
            &&& !flat || !shows ==> after == gathered
        }),
{
}

/// An analysis is as long as the frames that were seen last, and as long as was
/// stated only where none were; and it holds what was found, with the logo that
/// was learned and not one that was known.
pub proof fn analyses_are_as_long_as_what_was_seen(
    stated: Option<i64>,
    spacing: FrameSpacing,
    logo: Option<LogoData>,
    from_store: bool,
    detected: Detected,
    silent_spans: Vec<SilentSpan>,
    analysis: Analysis,
)
    requires
        call_ensures(
            assemble,
            (stated, spacing, logo, from_store, detected, silent_spans),
            analysis,
        ),
        spacing.wf(),
    ensures
        spacing.moment(detected.frames as int) > 0 ==> analysis.duration == spacing.moment(
            detected.frames as int,
        ),
        detected.frames == 0 ==> analysis.duration == (match stated {
            Some(length) => length,
            None => 0,
        }),
        from_store ==> analysis.learned_logo is None,
        !from_store ==> analysis.learned_logo == logo,
        analysis.logo_intervals == detected.intervals,
        analysis.scene_changes == detected.scene_changes,
        analysis.silent_spans == silent_spans,
{
    let bottom = spacing.frames as int;
    assert((0int * spacing.micros) / bottom == 0) by (nonlinear_arith)
        requires
            bottom > 0,
    ;
}

/// The silences are the stretches in which every window is under the threshold
/// and that last as long as asked: none is missed, and nothing else is one.
pub proof fn silences_are_where_it_is_silent(
    envelope: RmsEnvelope,
    options: AnalysisOptions,
    from: int,
    to: int,
    i: int,
)
    requires
        envelope.wf(),
    ensures
        0 <= from < to <= envelope.windows@.len() && (forall|at: int|
            from <= at < to ==> #[trigger] envelope.windows@[at] < options.silence_dbfs) && (to
            - from) * envelope.window_seconds >= options.silence_seconds ==> exists|k: int|
            0 <= k < silences_of(envelope, options).len() && (#[trigger] silences_of(
                envelope,
                options,
            )[k]).start <= from * envelope.window_seconds && to * envelope.window_seconds
                <= silences_of(envelope, options)[k].end,
        0 <= i < silences_of(envelope, options).len() ==> silences_of(envelope, options)[i].end
            - silences_of(envelope, options)[i].start >= options.silence_seconds,
{
    let (levels, window) = (envelope.windows@, envelope.window_seconds);
    let (threshold, minimum) = (options.silence_dbfs, options.silence_seconds);
    let spans = crate::media::audio::long_spans(
        crate::media::audio::quiet_runs(levels, threshold, levels.len() as int),
        window,
        minimum,
    );
    let found = silences_of(envelope, options);
    if 0 <= from < to <= levels.len() && (forall|at: int|
        from <= at < to ==> #[trigger] levels[at] < threshold) && (to - from) * window >= minimum {
        long_silences_are_spans(levels, threshold, window, minimum, from, to);
        let k = choose|k: int|
            0 <= k < spans.len() && (#[trigger] spans[k]).0 <= from * window && to * window
                <= spans[k].1;
        assert(found[k].start == spans[k].0 && found[k].end == spans[k].1);
    }
    if 0 <= i < found.len() {
        let stretch = spans_are_long_silences(levels, threshold, window, minimum, i);
        assert(found[i].start == spans[i].0 && found[i].end == spans[i].1);
    }
}

/// A stretch lasts from its start to its end, holds its start and not its end,
/// and its middle lies as far from the one as from the other.
pub proof fn stretches_last_from_start_to_end(
    interval: LogoInterval,
    span: SilentSpan,
    at: i64,
    inside: bool,
    length: i64,
    centre: i64,
    silence: i64,
)
    requires
        call_ensures(LogoInterval::contains, (&interval, at), inside),
        call_ensures(LogoInterval::duration, (&interval,), length),
        call_ensures(SilentSpan::centre, (&span,), centre),
        call_ensures(SilentSpan::duration, (&span,), silence),
    ensures
        interval.start + length == interval.end,
        interval.start < interval.end && at == interval.start ==> inside,
        at == interval.end ==> !inside,
        at < interval.start ==> !inside,
        inside ==> interval.start <= at && at < interval.start + length,
        0 <= (span.end - centre) - (centre - span.start) <= 1,
        span.start + silence == span.end,
{
}

/// The level at a moment is that of the window it falls in: one window after
/// another, from the beginning, and none beyond the last.
pub proof fn levels_are_those_of_their_window(
    envelope: RmsEnvelope,
    at: i64,
    level: Option<u64>,
    k: int,
)
    requires
        call_ensures(RmsEnvelope::level_at, (&envelope, at), level),
        envelope.window_seconds > 0,
        k * envelope.window_seconds <= at < (k + 1) * envelope.window_seconds,
    ensures
        0 <= k < envelope.windows@.len() ==> level == Some(envelope.windows@[k]),
        k < 0 || k >= envelope.windows@.len() ==> level is None,
{
    let window = envelope.window_seconds as int;
    assert((k + 1) * window == k * window + window) by (nonlinear_arith);
    vstd::arithmetic::div_mod::lemma_fundamental_div_mod_converse(
        at as int,
        window,
        k,
        at - k * window,
    );
    if k < 0 {
        assert((k + 1) * window <= 0) by (nonlinear_arith)
            requires
                k < 0,
                window > 0,
        ;
    }
}

} // verus!
