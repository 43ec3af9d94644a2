//! What holds of moments on their way from the recording to the output.

use vstd::prelude::*;
use vstd::string::*;
use crate::analyze::Analysis;
use crate::arith::nearest_of_multiple;
use crate::cmcut::plan::kept_length;
use crate::cmcut::plan::CutPlan;
use crate::cmcut::plan::Decision;
use crate::cmcut::plan::KeepRange;
use crate::cmcut::score::CutOptions;
use crate::cmcut::score::LowConfidencePolicy;
use crate::cmcut::score::SegmentKind;
use crate::cmcut::solve::Segment;
use crate::engine::chapters::apart;
use crate::engine::chapters::count_of_kind;
use crate::engine::chapters::marking_chapters;
use crate::engine::chapters::output_position;
use crate::engine::chapters::position_from;
use crate::engine::diagnostics::Diagnostics;
use crate::engine::parts::by_time;
use crate::engine::parts::clipped;
use crate::engine::parts::inside;
use crate::engine::parts::is_usable;
use crate::engine::parts::part_name;
use crate::engine::parts::parts_for;
use crate::engine::parts::point_keys;
use crate::engine::parts::suffixed_name;
use crate::engine::parts::usable_points;
use crate::engine::parts::Part;
use crate::engine::parts::PartView;
use crate::engine::pipeline::analysis_fraction;
use crate::engine::pipeline::begin;
use crate::engine::pipeline::clipped_segments;
use crate::engine::pipeline::encode_fraction;
use crate::engine::pipeline::is_stream_name;
use crate::engine::pipeline::job_for;
use crate::engine::pipeline::jobs_for;
use crate::engine::pipeline::report;
use crate::engine::pipeline::retimed;
use crate::engine::pipeline::retimed_captions;
use crate::engine::pipeline::verdict;
use crate::engine::pipeline::Accepted;
use crate::engine::pipeline::CaptionView;
use crate::engine::pipeline::Inspected;
use crate::engine::pipeline::JobRequest;
use crate::engine::pipeline::Probed;
use crate::engine::Error;
use crate::media::ffmpeg::Ffmpeg;
use crate::order::is_stable_order;
use crate::order::ranking;
use crate::order::stable_order_exists;
use crate::paths::extension_of;
use crate::paths::renamed;
use crate::paths::stem_of;
use crate::text::ascii_lower_of;
use crate::text::decimal_digits;
use crate::text::occurs_at;

verus! {

proof fn kept_from(keep: Seq<KeepRange>, at: int, i: int, from: int)
    requires
        apart(keep),
        0 <= from <= i < keep.len(),
        keep[i].start <= at <= keep[i].end,
    ensures
        position_from(keep, at, from) == Some(kept_length(keep.take(i)) + (at - keep[i].start)),
    decreases i - from,
{
    if from < i {
        assert(keep[from].end < keep[i].start);
        kept_from(keep, at, i, from + 1);
    }
}

/// Within a range that is kept nothing is stretched: two moments lie as far
/// apart in the output as in the recording.
pub proof fn kept_moments_keep_their_distance(
    keep: Seq<KeepRange>,
    i: int,
    early: int,
    late: int,
)
    requires
        apart(keep),
        0 <= i < keep.len(),
        keep[i].start <= early <= late <= keep[i].end,
    ensures
        output_position(keep, early) is Some,
        output_position(keep, late) is Some,
        output_position(keep, late)->Some_0 - output_position(keep, early)->Some_0 == late - early,
{
    kept_from(keep, early, i, 0);
    kept_from(keep, late, i, 0);
}

/// The output begins with the first range that is kept, and each range follows
/// on the one before it: what is removed leaves no gap.
pub proof fn cuts_close_up(keep: Seq<KeepRange>, i: int)
    requires
        apart(keep),
        0 <= i < keep.len(),
    ensures
        i == 0 ==> output_position(keep, keep[0].start as int) == Some(0int),
        i > 0 ==> output_position(keep, keep[i].start as int) == output_position(
            keep,
            keep[i - 1].end as int,
        ),
        i == keep.len() - 1 ==> output_position(keep, keep[i].end as int) == Some(
            kept_length(keep),
        ),
{
    kept_from(keep, keep[i].start as int, i, 0);
    kept_from(keep, keep[i].end as int, i, 0);
    assert(keep.take(0).len() == 0);
    assert(keep.take(i + 1).drop_last() =~= keep.take(i));
    if i > 0 {
        kept_from(keep, keep[i - 1].end as int, i - 1, 0);
        assert(keep.take(i).drop_last() =~= keep.take(i - 1));
    }
    if i == keep.len() - 1 {
        assert(keep.take(i + 1) =~= keep);
    }
}

/// What comes before the first range, or after the last, is not in the output,
/// and where nothing is kept nothing is.
pub proof fn moments_outside_have_no_position(keep: Seq<KeepRange>, at: int)
    requires
        apart(keep),
        keep.len() == 0 || at < keep[0].start || at > keep.last().end,
    ensures
        output_position(keep, at) is None,
{
    if keep.len() > 0 && at > keep.last().end {
        crate::engine::chapters::removed_moments_have_no_position(keep, at, keep.len() - 1);
    }
}

/// Where nothing is cut every segment has a chapter of its own, as long as the
/// segment, and chapters of one kind are numbered from one.
pub proof fn every_segment_is_marked(segments: Seq<Segment>, i: int)
    requires
        0 <= i < segments.len(),
    ensures
        marking_chapters(segments).len() == segments.len(),
        marking_chapters(segments)[i].start == segments[i].start,
        marking_chapters(segments)[i].end == segments[i].end,
        marking_chapters(segments)[i].title == (match segments[i].kind {
            SegmentKind::Programme => "Part "@,
            SegmentKind::Commercial => "CM "@,
        }) + decimal_digits(count_of_kind(segments.take(i), segments[i].kind) + 1),
    decreases segments.len(),
{
    if segments.len() > 1 {
        every_segment_is_marked(segments.drop_last(), if i < segments.len() - 1 { i } else { 0 });
    } else {
        assert(segments.drop_last().len() == 0);
        assert(marking_chapters(segments.drop_last()).len() == 0);
    }
    if i < segments.len() - 1 {
        assert(segments.drop_last().take(i) =~= segments.take(i));
    } else {
        assert(segments.take(i) =~= segments.drop_last());
    }
}

/// Counting the segments of a kind: none among none, and one more for each.
pub proof fn kinds_are_counted_one_by_one(segments: Seq<Segment>, next: Segment, kind: SegmentKind)
    ensures
        count_of_kind(Seq::empty(), kind) == 0,
        next.kind == kind ==> count_of_kind(segments.push(next), kind) == count_of_kind(
            segments,
            kind,
        ) + 1,
        next.kind != kind ==> count_of_kind(segments.push(next), kind) == count_of_kind(
            segments,
            kind,
        ),
{
    assert(segments.push(next).drop_last() =~= segments);
}

/// What a part gets of a stretch is what the two have in common, counted from
/// the beginning of the part: exactly the moments that lie in both. What is no
/// longer than a millisecond is dropped, and only that.
pub proof fn parts_get_what_lies_in_them(start: int, end: int, part_start: int, part_end: int, at: int)
    ensures
        match inside(start, end, part_start, part_end) {
            Some((from, to)) => {
                &&& to - from > 1_000
                &&& from >= 0
                &&& start <= at < end && part_start <= at < part_end <==> from <= at - part_start
                    < to
            },
            None => start <= at && part_start <= at ==> end - at <= 1_000 || part_end - at <= 1_000,
        },
{
}

/// A range is what a part has of another.
pub open spec fn is_what_lies_in(taken: KeepRange, range: KeepRange, start: int, end: int) -> bool {
    inside(range.start as int, range.end as int, start, end) matches Some((from, to)) && taken == (
    KeepRange { start: from as i64, end: to as i64 })
}

/// Each range of a part is what the part has of a range that is kept, and every
/// range that is kept is there, as far as it lies in the part.
pub proof fn clipping_loses_nothing(keep: Seq<KeepRange>, start: int, end: int, k: int)
    ensures
        0 <= k < clipped(keep, start, end).len() ==> exists|i: int|
            0 <= i < keep.len() && is_what_lies_in(
                clipped(keep, start, end)[k],
                #[trigger] keep[i],
                start,
                end,
            ),
        0 <= k < keep.len() ==> (inside(keep[k].start as int, keep[k].end as int, start, end)
            matches Some((from, to)) ==> clipped(keep, start, end).contains(
            KeepRange { start: from as i64, end: to as i64 },
        )),
    decreases keep.len(),
{
    if keep.len() > 0 {
        let rest = clipped(keep.drop_last(), start, end);
        let all = clipped(keep, start, end);
        clipping_loses_nothing(keep.drop_last(), start, end, k);
        if 0 <= k < all.len() {
            if k < rest.len() {
                let i = choose|i: int|
                    0 <= i < keep.drop_last().len() && is_what_lies_in(
                        rest[k],
                        #[trigger] keep.drop_last()[i],
                        start,
                        end,
                    );
                assert(keep[i] == keep.drop_last()[i]);
            } else {
                assert(keep[keep.len() - 1] == keep.last());
            }
        }
        if 0 <= k < keep.len() {
            if let Some((from, to)) = inside(keep[k].start as int, keep[k].end as int, start, end) {
                let wanted = KeepRange { start: from as i64, end: to as i64 };
                if k < keep.len() - 1 {
                    let j = rest.index_of(wanted);
                    assert(all[j] == wanted);
                } else {
                    assert(all[all.len() - 1] == wanted);
                }
            }
        }
    }
}

/// Each segment of a part is what the part has of a segment, of the same kind
/// and as sure, and every segment is there, as far as it lies in the part.
pub proof fn clipping_keeps_every_segment(segments: Seq<Segment>, start: int, end: int, k: int)
    requires
        0 <= k < segments.len(),
    ensures
        clipped_segments(segments, start, end).len() <= segments.len(),
        inside(segments[k].start as int, segments[k].end as int, start, end) matches Some((from, to))
            ==> clipped_segments(segments, start, end).contains(
            Segment {
                start: from as i64,
                end: to as i64,
                kind: segments[k].kind,
                confidence: segments[k].confidence,
            },
        ),
        (forall|i: int|
            0 <= i < segments.len() ==> inside(
                (#[trigger] segments[i]).start as int,
                segments[i].end as int,
                start,
                end,
            ) is None) ==> clipped_segments(segments, start, end).len() == 0,
    decreases segments.len(),
{
    let rest = clipped_segments(segments.drop_last(), start, end);
    let all = clipped_segments(segments, start, end);
    if segments.len() > 1 {
        clipping_keeps_every_segment(
            segments.drop_last(),
            start,
            end,
            if k < segments.len() - 1 { k } else { 0 },
        );
        if forall|i: int|
            0 <= i < segments.len() ==> inside(
                (#[trigger] segments[i]).start as int,
                segments[i].end as int,
                start,
                end,
            ) is None {
            assert forall|i: int| 0 <= i < segments.drop_last().len() implies inside(
                (#[trigger] segments.drop_last()[i]).start as int,
                segments.drop_last()[i].end as int,
                start,
                end,
            ) is None by {
                assert(segments[i] == segments.drop_last()[i]);
            }
            assert(segments[segments.len() - 1] == segments.last());
        }
    } else {
        assert(segments.drop_last().len() == 0);
        assert(segments[0] == segments.last());
    }
    if let Some((from, to)) = inside(segments[k].start as int, segments[k].end as int, start, end) {
        let wanted = Segment {
            start: from as i64,
            end: to as i64,
            kind: segments[k].kind,
            confidence: segments[k].confidence,
        };
        if k < segments.len() - 1 {
            let j = rest.index_of(wanted);
            assert(all[j] == wanted);
        } else {
            assert(all[all.len() - 1] == wanted);
        }
    }
}

proof fn usable_points_are_found(times: Seq<i64>, offsets: Seq<u64>, duration: i64, i: int)
    requires
        0 <= i < times.len(),
        i < offsets.len(),
        is_usable((times[i], offsets[i]), duration),
    ensures
        usable_points(times, offsets, duration).contains((times[i], offsets[i])),
    decreases times.len(),
{
    let rest = usable_points(times.drop_last(), offsets, duration);
    let all = usable_points(times, offsets, duration);
    if i < times.len() - 1 {
        usable_points_are_found(times.drop_last(), offsets, duration, i);
        let j = rest.index_of((times[i], offsets[i]));
        assert(all[j] == (times[i], offsets[i]));
    } else {
        assert(all[all.len() - 1] == (times[i], offsets[i]));
    }
}

proof fn usable_points_are_points(times: Seq<i64>, offsets: Seq<u64>, duration: i64, k: int)
    requires
        0 <= k < usable_points(times, offsets, duration).len(),
    ensures
        exists|i: int|
            0 <= i < times.len() && i < offsets.len() && usable_points(times, offsets, duration)[k]
                == (#[trigger] times[i], offsets[i]) && is_usable((times[i], offsets[i]), duration),
    decreases times.len(),
{
    let rest = usable_points(times.drop_last(), offsets, duration);
    if k < rest.len() {
        usable_points_are_points(times.drop_last(), offsets, duration, k);
        let i = choose|i: int|
            0 <= i < times.drop_last().len() && i < offsets.len() && rest[k] == (
                #[trigger] times.drop_last()[i],
                offsets[i],
            ) && is_usable((times.drop_last()[i], offsets[i]), duration);
        assert(times[i] == times.drop_last()[i]);
    } else {
        assert(times[times.len() - 1] == times.last());
    }
}

/// A point that is more than a millisecond from either end of the recording,
/// and has bytes before it, begins a part: at its time and at its byte.
pub proof fn every_usable_point_begins_a_part(
    output: Seq<char>,
    times: Seq<i64>,
    offsets: Seq<u64>,
    duration: i64,
    file_size: u64,
    i: int,
)
    requires
        times.len() <= usize::MAX,
        usable_points(times, offsets, duration).len() <= usize::MAX,
        0 <= i < times.len(),
        i < offsets.len(),
        times[i] > 1_000,
        offsets[i] > 0,
        duration > 0 ==> times[i] < duration - 1_000,
    ensures
        ({
            let points = by_time(usable_points(times, offsets, duration));
            let parts = parts_for(output, points, duration, file_size);
            exists|k: int|
                0 < k < parts.len() && (#[trigger] parts[k]).start == times[i] && (
                parts[k].bytes matches Some(bytes) && bytes.0 == offsets[i])
        }),
{
    let usable = usable_points(times, offsets, duration);
    usable_points_are_found(times, offsets, duration, i);
    let j = usable.index_of((times[i], offsets[i]));
    let keys = point_keys(usable);
    stable_order_exists(keys);
    let order = ranking(keys);
    assert(is_stable_order(keys, order));
    let points = by_time(usable);
    assert(order.contains(j as usize));
    let place = order.index_of(j as usize);
    assert(points[place] == usable[j]);
    let parts = parts_for(output, points, duration, file_size);
    assert(parts[place + 1].start == times[i]);
}

/// And nothing else begins a part, but the beginning of the recording: no point
/// within a millisecond of either end, and none without bytes before it.
pub proof fn parts_begin_at_points(
    output: Seq<char>,
    times: Seq<i64>,
    offsets: Seq<u64>,
    duration: i64,
    file_size: u64,
    k: int,
)
    requires
        usable_points(times, offsets, duration).len() <= usize::MAX,
        0 < k < parts_for(
            output,
            by_time(usable_points(times, offsets, duration)),
            duration,
            file_size,
        ).len(),
    ensures
        ({
            let points = by_time(usable_points(times, offsets, duration));
            let part = parts_for(output, points, duration, file_size)[k];
            exists|i: int|
                0 <= i < times.len() && i < offsets.len() && part.start == #[trigger] times[i]
                    && (part.bytes matches Some(bytes) && bytes.0 == offsets[i]) && times[i] > 1_000
                    && offsets[i] > 0 && (duration > 0 ==> times[i] < duration - 1_000)
        }),
{
    let usable = usable_points(times, offsets, duration);
    let keys = point_keys(usable);
    stable_order_exists(keys);
    let order = ranking(keys);
    assert(is_stable_order(keys, order));
    let points = by_time(usable);
    let j = order[k - 1] as int;
    assert(points[k - 1] == usable[j]);
    usable_points_are_points(times, offsets, duration, j);
}

/// Every part with something to keep is encoded, and no other: each once, and
/// under its own number.
pub proof fn every_part_with_something_kept_is_encoded(
    parts: Seq<PartView>,
    count: int,
    plan: CutPlan,
    i: int,
)
    requires
        0 <= i < parts.len(),
    ensures
        ({
            let jobs = jobs_for(parts, count, plan);
            let keep = clipped(plan.keep@, parts[i].start as int, parts[i].end as int);
            &&& keep.len() > 0 <==> exists|k: int|
                0 <= k < jobs.len() && (#[trigger] jobs[k]).index == i
            &&& forall|k: int|
                0 <= k < jobs.len() ==> 0 <= (#[trigger] jobs[k]).index < parts.len()
                    && jobs[k].part == parts[jobs[k].index] && jobs[k].keep.len() > 0
            &&& forall|k: int|
                0 <= k < jobs.len() && (#[trigger] jobs[k]).index == i ==> jobs[k].keep == keep
            &&& forall|a: int, b: int|
                0 <= a < b < jobs.len() ==> (#[trigger] jobs[a]).index < (#[trigger] jobs[b]).index
        }),
    decreases parts.len(),
{
    let jobs = jobs_for(parts, count, plan);
    let rest = jobs_for(parts.drop_last(), count, plan);
    let last = parts.last();
    let added = clipped(plan.keep@, last.start as int, last.end as int).len() > 0;
    if parts.len() > 1 {
        let there = if i < parts.len() - 1 { i } else { 0 };
        every_part_with_something_kept_is_encoded(parts.drop_last(), count, plan, there);
        assert forall|k: int| 0 <= k < rest.len() implies 0 <= (#[trigger] jobs[k]).index
            < parts.len() - 1 && jobs[k] == rest[k] && jobs[k].part == parts[jobs[k].index] by {
            assert(rest[k] == jobs[k]);
        }
    } else {
        assert(parts.drop_last().len() == 0);
        assert(rest.len() == 0);
    }
    if added {
        assert(jobs[jobs.len() - 1].index == parts.len() - 1);
        assert(jobs[jobs.len() - 1].part == parts[parts.len() - 1]);
    }
    if i < parts.len() - 1 {
        let keep = clipped(plan.keep@, parts[i].start as int, parts[i].end as int);
        if keep.len() > 0 {
            let k = choose|k: int| 0 <= k < rest.len() && (#[trigger] rest[k]).index == i;
            assert(jobs[k].index == i);
        }
        if exists|k: int| 0 <= k < jobs.len() && (#[trigger] jobs[k]).index == i {
            let k = choose|k: int| 0 <= k < jobs.len() && (#[trigger] jobs[k]).index == i;
            assert(rest[k].index == i);
        }
    }
}

/// A caption is shown exactly where the moment it appears at is kept, with its
/// text as it was and for a tenth of a second at least. While what it is shown
/// over is kept, it stays as long as it did.
pub proof fn captions_follow_the_picture(
    caption: CaptionView,
    part_start: int,
    keep: Seq<KeepRange>,
    i: int,
)
    requires
        apart(keep),
    ensures
        ({
            let shown = retimed(caption, part_start, keep);
            let start = caption.start - part_start;
            let end = caption.end - part_start;
            &&& shown is Some <==> output_position(keep, start) is Some
            &&& shown matches Some(shown) ==> {
                &&& Some(shown.start) == output_position(keep, start)
                &&& shown.text == caption.text
                &&& shown.end - shown.start >= 100_000
            }
            &&& 0 <= i < keep.len() && keep[i].start <= start && start + 100_000 <= end && end
                <= keep[i].end ==> (shown matches Some(shown) && shown.end - shown.start == end
                - start)
            &&& output_position(keep, end) is None && end - start >= 100_000 ==> (
            shown matches Some(shown) ==> shown.end - shown.start == end - start)
        }),
{
    let start = caption.start - part_start;
    let end = caption.end - part_start;
    if 0 <= i < keep.len() && keep[i].start <= start && start + 100_000 <= end && end
        <= keep[i].end {
        kept_moments_keep_their_distance(keep, i, start, end);
    }
}

/// No caption that is shown is lost, and none is made up.
pub proof fn every_shown_caption_is_there(
    captions: Seq<CaptionView>,
    part_start: int,
    keep: Seq<KeepRange>,
    i: int,
)
    requires
        0 <= i < captions.len(),
    ensures
        retimed_captions(captions, part_start, keep).len() <= captions.len(),
        retimed(captions[i], part_start, keep) matches Some(shown) ==> retimed_captions(
            captions,
            part_start,
            keep,
        ).contains(shown),
        (forall|k: int|
            0 <= k < captions.len() ==> retimed(#[trigger] captions[k], part_start, keep) is Some)
            ==> retimed_captions(captions, part_start, keep).len() == captions.len(),
        (forall|k: int|
            0 <= k < captions.len() ==> retimed(#[trigger] captions[k], part_start, keep) is None)
            ==> retimed_captions(captions, part_start, keep).len() == 0,
    decreases captions.len(),
{
    let before = captions.drop_last();
    let rest = retimed_captions(before, part_start, keep);
    let all = retimed_captions(captions, part_start, keep);
    if captions.len() > 1 {
        every_shown_caption_is_there(
            before,
            part_start,
            keep,
            if i < captions.len() - 1 { i } else { 0 },
        );
    } else {
        assert(before.len() == 0);
    }
    assert(captions[captions.len() - 1] == captions.last());
    assert forall|k: int| 0 <= k < before.len() implies #[trigger] before[k] == captions[k] by {}
    if let Some(shown) = retimed(captions[i], part_start, keep) {
        if i < captions.len() - 1 {
            let j = rest.index_of(shown);
            assert(all[j] == shown);
        } else {
            assert(all[all.len() - 1] == shown);
        }
    }
}

/// Analysis fills the first 35 hundredths of the bar, from nothing to all of
/// them; encoding fills the rest, each part an equal share, beginning where the
/// part before it ended.
pub proof fn the_bar_is_shared_out(index: int, count: int)
    requires
        0 <= index < count,
    ensures
        analysis_fraction(0) == 0,
        analysis_fraction(1_000_000) == 350_000,
        encode_fraction(0, count, 0) == 350_000,
        encode_fraction(index, count, 1_000_000) == encode_fraction(index + 1, count, 0),
        encode_fraction(count - 1, count, 1_000_000) == 1_000_000,
{
    nearest_of_multiple(0, 100);
    nearest_of_multiple(350_000, 100);
    nearest_of_multiple(0, count * 1_000_000);
    nearest_of_multiple(650_000, count * 1_000_000);
    assert(0 * (count * 1_000_000) == 0) by (nonlinear_arith);
    assert(650_000 * ((count - 1) * 1_000_000 + 1_000_000) == 650_000 * (count * 1_000_000));
}

/// A plan that keeps everything for want of confidence is stopped where the
/// operator asked for that, with its reason; or, where the operator asked to be
/// asked for a logo, when there is none and the channel may have one. Any other
/// goes on.
pub proof fn doubtful_plans_are_stopped(
    plan: CutPlan,
    options: CutOptions,
    has_logo: bool,
    no_logo: bool,
)
    ensures
        plan.decision == Decision::Cut || plan.confidence >= options.confidence_threshold
            ==> verdict(plan, options, has_logo, no_logo) is Ok,
        plan.decision == Decision::KeepAll && plan.confidence < options.confidence_threshold ==> {
            &&& options.low_confidence == LowConfidencePolicy::Fail ==> verdict(
                plan,
                options,
                has_logo,
                no_logo,
            ) == Err::<(), Option<Seq<char>>>(Some(plan.reason@))
            &&& options.low_confidence == LowConfidencePolicy::Block && !has_logo && !no_logo
                ==> verdict(plan, options, has_logo, no_logo) == Err::<(), Option<Seq<char>>>(None)
            &&& options.low_confidence == LowConfidencePolicy::Block && (has_logo || no_logo)
                ==> verdict(plan, options, has_logo, no_logo) is Ok
        },
{
}

/// A recording is refused only where it is past saving and the operator asked
/// for that: more than three tenths of it are scrambled.
pub proof fn only_hopeless_recordings_are_refused(
    diagnostics: Diagnostics,
    refuse: bool,
    result: Result<(), Error>,
)
    requires
        call_ensures(report, (Some(&diagnostics), refuse), result),
        diagnostics.total_packets > 0,
    ensures
        result is Err <==> refuse && 10 * diagnostics.scrambled_packets > 3
            * diagnostics.total_packets,
        result matches Err(error) ==> error == (Error::DamagedSource {
            scrambled: diagnostics.scrambled_packets,
            total: diagnostics.total_packets,
        }),
{
}

/// A recording is looked through for damage once, and only where it is a
/// transport stream.
pub proof fn streams_are_looked_through_once(probed: Probed, yes: bool)
    requires
        call_ensures(Probed::needs_scan, (&probed,), yes),
    ensures
        probed.request.diagnostics is Some ==> !yes,
        !is_stream_name(probed.request.input@) ==> !yes,
        probed.request.diagnostics is None && is_stream_name(probed.request.input@) ==> yes,
{
}

/// A recording need not be analysed only where nothing is to be found in it: no
/// commercials are looked for, no ranges were chosen by hand, and its length and
/// its picture are known.
pub proof fn analysis_is_skipped_only_where_nothing_is_looked_for(inspected: Inspected)
    ensures
        inspected.request.detect_commercials ==> inspected.wants_analysis(),
        inspected.request.manual_ranges is Some ==> inspected.wants_analysis(),
        inspected.probe.duration_seconds is None ==> inspected.wants_analysis(),
        inspected.probe.video is None ==> inspected.wants_analysis(),
        !inspected.request.detect_commercials && inspected.request.manual_ranges is None && (
        inspected.probe.duration_seconds matches Some(length) && 0 < length
            <= 1_000_000_000_000_000) && inspected.probe.video is Some
            ==> !inspected.wants_analysis(),
{
}

/// A logo is kept only where the operator wants it, the channel may have one,
/// and this recording taught it and showed it.
pub proof fn logos_are_kept_where_they_were_learned(
    inspected: Inspected,
    analysis: Analysis,
    yes: bool,
)
    requires
        call_ensures(Inspected::keeps_logo, (&inspected, &analysis), yes),
    ensures
        yes ==> inspected.request.learn_logo && !inspected.no_logo && analysis.learned_logo is Some
            && analysis.logo is Some && analysis.logo_intervals@.len() > 0,
        inspected.request.learn_logo && !inspected.no_logo && analysis.learned_logo is Some
            && analysis.logo is Some && analysis.logo_intervals@.len() > 0 ==> yes,
{
}

/// A part lasts from its start to its end, and without an end for ever.
pub proof fn parts_last_from_start_to_end(part: Part, length: i64)
    requires
        call_ensures(Part::duration, (&part,), length),
        part@.wf(),
    ensures
        part.end == i64::MAX ==> length == i64::MAX,
        part.start <= part.end < i64::MAX ==> part.start + length == part.end,
        part.end < part.start ==> length == 0,
{
}

/// Names that differ only in capitals are streams alike.
pub proof fn capitals_do_not_hide_a_stream(one: Seq<char>, other: Seq<char>)
    requires
        extension_of(one) is Some,
        extension_of(other) is Some,
        ascii_lower_of(extension_of(one)->Some_0) == ascii_lower_of(extension_of(other)->Some_0),
    ensures
        is_stream_name(one) == is_stream_name(other),
{
}

/// An encode that needs an encoder which is not there is refused before it
/// starts, and no other is.
pub proof fn missing_encoders_are_told_of(
    ffmpeg: Ffmpeg,
    request: JobRequest,
    result: Result<Accepted, Error>,
)
    requires
        call_ensures(begin, (&ffmpeg, request), result),
    ensures
        result is Ok <==> ffmpeg.spec_encoders().contains(request.profile@.video_encoder)
            && ffmpeg.spec_encoders().contains(request.profile@.audio_encoder),
        result matches Ok(accepted) ==> accepted.request == request,
{
}

/// Bytes are taken from the file for every part but a whole recording, and the
/// part that they go to is named after its output.
pub proof fn parts_are_sliced_where_there_are_several(
    part: PartView,
    index: int,
    count: int,
    plan: CutPlan,
)
    ensures
        ({
            let job = job_for(part, index, count, plan);
            &&& job.slice is Some <==> part.bytes is Some
            &&& job.index == index
            &&& job.part == part
            &&& job.keep == clipped(plan.keep@, part.start as int, part.end as int)
            &&& count == 1 ==> job.label == "encoding"@
            &&& count > 1 ==> job.label == "encoding part "@ + decimal_digits((index + 1) as nat)
                + " of "@ + decimal_digits(count as nat)
        }),
{
}

/// Parts are numbered from one: the first keeps the name that was asked for, and
/// each of the others says its number after that name.
pub proof fn parts_are_numbered_from_one(output: Seq<char>, index: nat)
    requires
        stem_of(output) is Some,
    ensures
        part_name(output, 0) == output,
        index > 0 ==> part_name(output, index) == renamed(output, suffixed_name(output, index)),
        ({
            let stem = stem_of(output)->Some_0;
            let number = decimal_digits((index + 1) as nat);
            let at = (stem.len() + ".part"@.len()) as int;
            &&& occurs_at(suffixed_name(output, index), stem, 0)
            &&& occurs_at(suffixed_name(output, index), number, at)
        }),
{
    let stem = stem_of(output)->Some_0;
    let number = decimal_digits((index + 1) as nat);
    let name = suffixed_name(output, index);
    let at = (stem.len() + ".part"@.len()) as int;
    assert(name.subrange(0, stem.len() as int) =~= stem);
    assert(name.subrange(at, at + number.len()) =~= number);
}

} // verus!
