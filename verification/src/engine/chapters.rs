//! Turning a cut plan into chapters the player can navigate.
//!
//! Chapters are written either way, and they mean different things:
//!
//! - when the commercials were **cut**, they mark where each part of the
//!   programme resumes, so a viewer can jump between acts;
//! - when they were **kept**, because detection was not confident, they mark
//!   the commercials themselves, so the viewer can skip what would have been
//!   removed, and judge whether it was right.
//!
//! The second case is why the low-confidence path is useful rather than merely
//! safe: it degrades to a manual version of the same result.

use vstd::prelude::*;
use vstd::string::*;
use crate::analyze::in_time;
use crate::analyze::TIME_LIMIT;
use crate::cmcut::plan::follows_on;
use crate::cmcut::plan::kept_length;
use crate::cmcut::plan::kept_ranges;
use crate::cmcut::plan::tiles;
use crate::cmcut::plan::Decision;
use crate::cmcut::plan::KeepRange;
use crate::cmcut::score::SegmentKind;
use crate::cmcut::solve::Segment;
use crate::media::encode::chapter_views;
use crate::media::encode::Chapter;
use crate::media::encode::ChapterView;
use crate::text::decimal_digits;
use crate::text::push_decimal;

verus! {

/// Kept ranges whose moments and running totals are within reach.
pub open spec fn summable(keep: Seq<KeepRange>) -> bool {
    &&& forall|i: int| 0 <= i < keep.len() ==> (#[trigger] keep[i]).in_time()
    &&& forall|i: int|
        0 <= i <= keep.len() ==> -4 * TIME_LIMIT <= #[trigger] kept_length(keep.take(i)) <= 4
            * TIME_LIMIT
}

/// Whether kept ranges are within reach.
#[must_use]
pub fn is_summable(keep: &[KeepRange]) -> (yes: bool)
    ensures
        yes == summable(keep@),
{
    let mut total: i64 = 0;
    assert(kept_length(keep@.take(0)) == 0);
    for i in 0..keep.len()
        invariant
            total == kept_length(keep@.take(i as int)),
            -4 * TIME_LIMIT <= total <= 4 * TIME_LIMIT,
            forall|k: int| 0 <= k < i ==> (#[trigger] keep@[k]).in_time(),
            forall|k: int|
                0 <= k <= i ==> -4 * TIME_LIMIT <= #[trigger] kept_length(keep@.take(k)) <= 4
                    * TIME_LIMIT,
    {
        let range = keep[i];
        if range.start < -TIME_LIMIT || range.start > TIME_LIMIT || range.end < -TIME_LIMIT
            || range.end > TIME_LIMIT {
            assert(!keep@[i as int].in_time());
            return false;
        }
        assert(keep@.take(i + 1).drop_last() =~= keep@.take(i as int));
        total = total + (range.end - range.start);
        assert(total == kept_length(keep@.take(i + 1)));
        if total < -4 * TIME_LIMIT || total > 4 * TIME_LIMIT {
            return false;
        }
    }
    true
}

/// Where a moment of the source lies in the output, looking from range `i`
/// on: past everything kept before the range that holds it.
pub open spec fn position_from(keep: Seq<KeepRange>, at: int, i: int) -> Option<int>
    decreases keep.len() - i,
{
    if i < 0 || i >= keep.len() || at < keep[i].start {
        None
    } else if at <= keep[i].end {
        Some(kept_length(keep.take(i)) + (at - keep[i].start))
    } else {
        position_from(keep, at, i + 1)
    }
}

/// Where a moment of the source lies in the output.
pub open spec fn output_position(keep: Seq<KeepRange>, at: int) -> Option<int> {
    position_from(keep, at, 0)
}

/// Map a source moment onto the output timeline.
///
/// Returns `None` for a time that falls inside a removed stretch, which has no
/// position in the output at all.
#[must_use]
pub fn source_to_output(keep: &[KeepRange], at: i64) -> (position: Option<i64>)
    requires
        summable(keep@),
        in_time(at),
    ensures
        match position {
            Some(position) => output_position(keep@, at as int) == Some(position as int),
            None => output_position(keep@, at as int) is None,
        },
{
    let mut elapsed: i64 = 0;
    let mut i: usize = 0;
    assert(kept_length(keep@.take(0)) == 0);
    while i < keep.len()
        invariant
            summable(keep@),
            in_time(at),
            i <= keep@.len(),
            elapsed == kept_length(keep@.take(i as int)),
            output_position(keep@, at as int) == position_from(keep@, at as int, i as int),
        decreases keep@.len() - i,
    {
        let range = keep[i];
        assert(keep@[i as int].in_time());
        assert(-4 * TIME_LIMIT <= kept_length(keep@.take(i as int)) <= 4 * TIME_LIMIT);
        if at < range.start {
            return None;
        }
        if at <= range.end {
            return Some(elapsed + (at - range.start));
        }
        assert(keep@.take(i + 1).drop_last() =~= keep@.take(i as int));
        elapsed = elapsed + range.duration();
        i += 1;
    }
    None
}

/// How many segments are of this kind.
pub open spec fn count_of_kind(segments: Seq<Segment>, kind: SegmentKind) -> nat
    decreases segments.len(),
{
    if segments.len() == 0 {
        0
    } else {
        count_of_kind(segments.drop_last(), kind) + if segments.last().kind == kind {
            1nat
        } else {
            0
        }
    }
}

/// The title of the `n`-th segment of a kind.
pub open spec fn numbered_title(kind: SegmentKind, n: nat) -> Seq<char> {
    (match kind {
        SegmentKind::Programme => "Part "@,
        SegmentKind::Commercial => "CM "@,
    }) + decimal_digits(n)
}

/// A chapter for every segment. Nothing was removed, so source time is output
/// time and the viewer can skip between them.
pub open spec fn marking_chapters(segments: Seq<Segment>) -> Seq<ChapterView>
    decreases segments.len(),
{
    if segments.len() == 0 {
        Seq::empty()
    } else {
        let last = segments.last();
        marking_chapters(segments.drop_last()).push(
            ChapterView {
                start: last.start as int,
                end: last.end as int,
                title: numbered_title(last.kind, count_of_kind(segments, last.kind)),
            },
        )
    }
}

/// A chapter for every part of the programme that has a place in the output.
pub open spec fn surviving_chapters(
    segments: Seq<Segment>,
    keep: Seq<KeepRange>,
) -> Seq<ChapterView>
    decreases segments.len(),
{
    if segments.len() == 0 {
        Seq::empty()
    } else {
        let before = surviving_chapters(segments.drop_last(), keep);
        let last = segments.last();
        match (
            output_position(keep, last.start as int),
            output_position(keep, last.end as int),
        ) {
            (Some(start), Some(end)) => if last.kind == SegmentKind::Programme {
                before.push(
                    ChapterView {
                        start,
                        end,
                        title: numbered_title(SegmentKind::Programme, before.len() + 1),
                    },
                )
            } else {
                before
            },
            _ => before,
        }
    }
}

/// The chapters of a plan.
pub open spec fn plan_chapters(
    segments: Seq<Segment>,
    keep: Seq<KeepRange>,
    decision: Decision,
) -> Seq<ChapterView> {
    match decision {
        Decision::KeepAll => marking_chapters(segments),
        Decision::Cut => surviving_chapters(segments, keep),
    }
}

fn title_for(kind: SegmentKind, n: u64) -> (title: String)
    ensures
        title@ == numbered_title(kind, n as nat),
{
    let mut title = String::new();
    match kind {
        SegmentKind::Programme => {
            title.append("Part ");
        },
        SegmentKind::Commercial => {
            title.append("CM ");
        },
    }
    push_decimal(&mut title, n);
    assert(title@ =~= numbered_title(kind, n as nat));
    title
}

/// Build the chapter list for a plan.
#[must_use]
pub fn chapters_for(
    segments: &[Segment],
    keep: &[KeepRange],
    decision: Decision,
) -> (chapters: Vec<Chapter>)
    requires
        summable(keep@),
        forall|i: int| 0 <= i < segments@.len() ==> (#[trigger] segments@[i]).in_time(),
    ensures
        chapter_views(chapters@) == plan_chapters(segments@, keep@, decision),
{
    let mut chapters: Vec<Chapter> = Vec::new();
    assert(chapter_views(chapters@) =~= Seq::empty());
    assert(segments@.take(0) =~= Seq::empty());
    match decision {
        Decision::KeepAll => {
            let mut programme: u64 = 0;
            let mut commercial: u64 = 0;
            for i in 0..segments.len()
                invariant
                    programme == count_of_kind(
                        segments@.take(i as int),
                        SegmentKind::Programme,
                    ),
                    commercial == count_of_kind(
                        segments@.take(i as int),
                        SegmentKind::Commercial,
                    ),
                    programme <= i,
                    commercial <= i,
                    chapter_views(chapters@) == marking_chapters(segments@.take(i as int)),
            {
                let segment = segments[i];
                assert(segments@.take(i + 1).drop_last() =~= segments@.take(i as int));
                let n: u64 = match segment.kind {
                    SegmentKind::Programme => {
                        programme += 1;
                        programme
                    },
                    SegmentKind::Commercial => {
                        commercial += 1;
                        commercial
                    },
                };
                let chapter = Chapter {
                    start_seconds: segment.start,
                    end_seconds: segment.end,
                    title: title_for(segment.kind, n),
                };
                let ghost before = chapter_views(chapters@);
                chapters.push(chapter);
                assert(chapter_views(chapters@) =~= before.push(chapter@));
            }
        },
        Decision::Cut => {
            for i in 0..segments.len()
                invariant
                    summable(keep@),
                    forall|i: int|
                        0 <= i < segments@.len() ==> (#[trigger] segments@[i]).in_time(),
                    chapter_views(chapters@) == surviving_chapters(
                        segments@.take(i as int),
                        keep@,
                    ),
                    chapters@.len() <= i,
            {
                let segment = segments[i];
                assert(segments@[i as int].in_time());
                assert(segments@.take(i + 1).drop_last() =~= segments@.take(i as int));
                if segment.kind == SegmentKind::Programme {
                    match (
                        source_to_output(keep, segment.start),
                        source_to_output(keep, segment.end),
                    ) {
                        (Some(start), Some(end)) => {
                            let chapter = Chapter {
                                start_seconds: start,
                                end_seconds: end,
                                title: title_for(
                                    SegmentKind::Programme,
                                    chapters.len() as u64 + 1,
                                ),
                            };
                            let ghost before = chapter_views(chapters@);
                            chapters.push(chapter);
                            assert(chapter_views(chapters@) =~= before.push(chapter@));
                        },
                        _ => {},
                    }
                }
            }
        },
    }
    assert(segments@.take(segments@.len() as int) =~= segments@);
    chapters
}

/// Ranges that lie apart, each ahead of the next.
pub open spec fn apart(keep: Seq<KeepRange>) -> bool {
    &&& forall|i: int|
        0 <= i < keep.len() ==> 0 <= (#[trigger] keep[i]).start <= keep[i].end <= TIME_LIMIT
    &&& forall|i: int, j: int|
        0 <= i < j < keep.len() ==> (#[trigger] keep[i]).end < (#[trigger] keep[j]).start
}

/// The programme parts of a tiling lie apart, and are exactly what is kept:
/// dropping segments from the end drops ranges from the end.
proof fn kept_ranges_lie_apart(segments: Seq<Segment>, start: int, end: int)
    requires
        tiles(segments, start, end),
        0 <= start,
        end <= TIME_LIMIT,
    ensures
        apart(kept_ranges(segments)),
        ({
            let keep = kept_ranges(segments);
            let last = segments.last();
            if last.kind == SegmentKind::Programme {
                keep.len() > 0 && keep.last() == (KeepRange { start: last.start, end: last.end })
            } else {
                keep.len() > 0 ==> keep.last().end <= last.start
            }
        }),
        segments.len() > 1 ==> kept_ranges(segments) == (if segments.last().kind
            == SegmentKind::Programme {
            kept_ranges(segments.drop_last()).push(
                KeepRange { start: segments.last().start, end: segments.last().end },
            )
        } else {
            kept_ranges(segments.drop_last())
        }),
    decreases segments.len(),
{
    let n = segments.len() - 1;
    let shorter = segments.drop_last();
    assert(segments[n].start < segments[n].end);
    if n > 0 {
        shorter_tiles(segments, start, end);
        assert(follows_on(segments, n));
        kept_ranges_lie_apart(shorter, start, segments[n].start as int);
        tiling_advances(segments, start, end, n);
        assert(shorter.last() == segments[n - 1]);
        let before = kept_ranges(shorter);
        let after = kept_ranges(segments);
        assert(segments[n - 1].start < segments[n - 1].end);
        if segments[n].kind == SegmentKind::Programme {
            // The segment before is a commercial, so there is a gap.
            if before.len() > 0 {
                assert(before.last().end <= segments[n - 1].start);
            }
            assert forall|i: int, j: int| 0 <= i < j < after.len() implies (
            #[trigger] after[i]).end < (#[trigger] after[j]).start by {
                if j < before.len() {
                    assert(before[i].end < before[j].start);
                } else {
                    if i < before.len() - 1 {
                        assert(before[i].end < before[before.len() - 1].start);
                        assert(before[before.len() - 1].start <= before[before.len() - 1].end);
                    }
                }
            }
            assert forall|i: int| 0 <= i < after.len() implies 0 <= (#[trigger] after[i]).start
                <= after[i].end <= TIME_LIMIT by {
                if i < before.len() {
                    assert(0 <= before[i].start <= before[i].end <= TIME_LIMIT);
                }
            }
        }
    } else {
        assert(shorter =~= Seq::empty());
        assert(kept_ranges(shorter) =~= Seq::empty());
    }
}

proof fn shorter_tiles(segments: Seq<Segment>, start: int, end: int)
    requires
        tiles(segments, start, end),
        segments.len() > 1,
    ensures
        tiles(segments.drop_last(), start, segments.last().start as int),
{
    let shorter = segments.drop_last();
    let n = segments.len() - 1;
    assert(follows_on(segments, n));
    assert forall|i: int| 1 <= i < shorter.len() implies #[trigger] follows_on(shorter, i) by {
        assert(follows_on(segments, i));
    }
    assert forall|i: int| 0 <= i < shorter.len() implies (#[trigger] shorter[i]).start
        < shorter[i].end by {
        assert(segments[i].start < segments[i].end);
    }
}

/// Every segment of a tiling starts no earlier than the tiling.
proof fn tiling_advances(segments: Seq<Segment>, start: int, end: int, i: int)
    requires
        tiles(segments, start, end),
        0 <= i < segments.len(),
    ensures
        start <= segments[i].start,
    decreases i,
{
    if i > 0 {
        tiling_advances(segments, start, end, i - 1);
        assert(follows_on(segments, i));
        assert(segments[i - 1].start < segments[i - 1].end);
    }
}

/// Ranges that lie apart add up to no more than what they span.
pub proof fn apart_ranges_are_summable(keep: Seq<KeepRange>, count: int)
    requires
        apart(keep),
        0 <= count <= keep.len(),
    ensures
        0 <= kept_length(keep.take(count)),
        count > 0 ==> kept_length(keep.take(count)) <= keep[count - 1].end,
        kept_length(keep.take(count)) <= TIME_LIMIT,
    decreases count,
{
    if count > 0 {
        apart_ranges_are_summable(keep, count - 1);
        assert(keep.take(count).drop_last() =~= keep.take(count - 1));
        assert(0 <= keep[count - 1].start <= keep[count - 1].end <= TIME_LIMIT);
        if count > 1 {
            assert(keep[count - 2].end < keep[count - 1].start);
        }
    }
}

/// Where the edges of kept ranges lie in the output: each range follows
/// straight on from what was kept before it.
proof fn edges_in_the_output(keep: Seq<KeepRange>, i: int, from: int)
    requires
        apart(keep),
        0 <= from <= i < keep.len(),
    ensures
        position_from(keep, keep[i].start as int, from) == Some(kept_length(keep.take(i))),
        position_from(keep, keep[i].end as int, from) == Some(kept_length(keep.take(i + 1))),
    decreases i - from,
{
    assert(0 <= keep[i].start <= keep[i].end);
    assert(keep.take(i + 1).drop_last() =~= keep.take(i));
    if from < i {
        assert(keep[from].end < keep[i].start);
        assert(keep[from].start <= keep[from].end);
        edges_in_the_output(keep, i, from + 1);
    }
}

/// A moment inside a removed stretch, between two kept ranges, has no place in
/// the output.
pub proof fn removed_moments_have_no_position(keep: Seq<KeepRange>, at: int, i: int)
    requires
        apart(keep),
        0 <= i < keep.len(),
        keep[i].end < at,
        i + 1 < keep.len() ==> at < keep[i + 1].start,
    ensures
        output_position(keep, at) is None,
{
    removed_from(keep, at, i, 0);
}

proof fn removed_from(keep: Seq<KeepRange>, at: int, i: int, from: int)
    requires
        apart(keep),
        0 <= from <= i < keep.len(),
        keep[i].end < at,
        i + 1 < keep.len() ==> at < keep[i + 1].start,
    ensures
        position_from(keep, at, from) is None,
    decreases i - from,
{
    assert(keep[from].start <= keep[from].end);
    if from < i {
        assert(keep[from].end < keep[i].start);
        assert(keep[i].start <= keep[i].end);
        removed_from(keep, at, i, from + 1);
    } else {
        assert(position_from(keep, at, i + 1) is None);
    }
}

/// Chapters tile the output: when the commercials were cut, each part of the
/// programme starts where the one before it ends, from the beginning of the
/// output to its end, and they are numbered in order.
pub proof fn chapters_are_contiguous_after_cutting(
    segments: Seq<Segment>,
    start: int,
    end: int,
)
    requires
        tiles(segments, start, end),
        0 <= start,
        end <= TIME_LIMIT,
    ensures
        ({
            let keep = kept_ranges(segments);
            let chapters = surviving_chapters(segments, keep);
            &&& chapters.len() == keep.len()
            &&& forall|i: int|
                0 <= i < chapters.len() ==> (#[trigger] chapters[i]).start == kept_length(
                    keep.take(i),
                ) && chapters[i].end == kept_length(keep.take(i + 1)) && chapters[i].title
                    == numbered_title(SegmentKind::Programme, (i + 1) as nat)
        }),
{
    kept_ranges_lie_apart(segments, start, end);
    let keep = kept_ranges(segments);
    assert(segments.take(segments.len() as int) =~= segments);
    chapters_match_ranges(segments, start, end, segments.len() as int);
    assert(keep.take(keep.len() as int) =~= keep);
}

proof fn chapters_match_ranges(segments: Seq<Segment>, start: int, end: int, count: int)
    requires
        tiles(segments, start, end),
        0 <= start,
        end <= TIME_LIMIT,
        apart(kept_ranges(segments)),
        0 <= count <= segments.len(),
    ensures
        ({
            let keep = kept_ranges(segments);
            let so_far = kept_ranges(segments.take(count));
            let chapters = surviving_chapters(segments.take(count), keep);
            &&& so_far.len() <= keep.len()
            &&& so_far == keep.take(so_far.len() as int)
            &&& chapters.len() == so_far.len()
            &&& forall|i: int|
                0 <= i < chapters.len() ==> (#[trigger] chapters[i]).start == kept_length(
                    keep.take(i),
                ) && chapters[i].end == kept_length(keep.take(i + 1)) && chapters[i].title
                    == numbered_title(SegmentKind::Programme, (i + 1) as nat)
        }),
    decreases count,
{
    let keep = kept_ranges(segments);
    prefix_of_kept(segments, start, end, count);
    if count > 0 {
        chapters_match_ranges(segments, start, end, count - 1);
        let here = segments.take(count);
        let before = segments.take(count - 1);
        assert(here.drop_last() =~= before);
        let last = segments[count - 1];
        assert(here.last() == last);
        let so_far = kept_ranges(here);
        let earlier = kept_ranges(before);
        prefix_tiles(segments, start, end, count);
        kept_ranges_lie_apart(here, start, last.end as int);
        if count == 1 {
            assert(before =~= Seq::empty());
            assert(earlier =~= Seq::empty());
        }
        if last.kind == SegmentKind::Programme {
            assert(so_far == earlier.push(KeepRange { start: last.start, end: last.end })) by {
                if count == 1 {
                    assert(so_far =~= seq![KeepRange { start: last.start, end: last.end }]);
                    assert(earlier.push(KeepRange { start: last.start, end: last.end })
                        =~= so_far);
                }
            }
            let i = earlier.len() as int;
            assert(keep[i] == so_far[i]);
            edges_in_the_output(keep, i, 0);
        }
    } else {
        assert(segments.take(0) =~= Seq::empty());
        assert(kept_ranges(segments.take(0)) =~= Seq::empty());
        assert(keep.take(0) =~= Seq::empty());
    }
}

proof fn prefix_tiles(segments: Seq<Segment>, start: int, end: int, count: int)
    requires
        tiles(segments, start, end),
        1 <= count <= segments.len(),
    ensures
        tiles(segments.take(count), start, segments[count - 1].end as int),
        segments[count - 1].end <= end,
    decreases segments.len() - count,
{
    if count == segments.len() {
        assert(segments.take(count) =~= segments);
    } else {
        prefix_tiles(segments, start, end, count + 1);
        let longer = segments.take(count + 1);
        assert(longer.drop_last() =~= segments.take(count));
        shorter_tiles(longer, start, longer.last().end as int);
        assert(follows_on(segments, count));
        assert(segments[count].start < segments[count].end);
    }
}

proof fn prefix_of_kept(segments: Seq<Segment>, start: int, end: int, count: int)
    requires
        tiles(segments, start, end),
        0 <= start,
        end <= TIME_LIMIT,
        0 <= count <= segments.len(),
    ensures
        kept_ranges(segments.take(count)).len() <= kept_ranges(segments).len(),
        kept_ranges(segments.take(count)) == kept_ranges(segments).take(
            kept_ranges(segments.take(count)).len() as int,
        ),
    decreases segments.len() - count,
{
    let keep = kept_ranges(segments);
    if count == segments.len() {
        assert(segments.take(count) =~= segments);
        assert(keep.take(keep.len() as int) =~= keep);
    } else {
        prefix_of_kept(segments, start, end, count + 1);
        let longer = segments.take(count + 1);
        let shorter = segments.take(count);
        assert(longer.drop_last() =~= shorter);
        if count == 0 {
            assert(shorter =~= Seq::empty());
            assert(kept_ranges(shorter) =~= Seq::empty());
            assert(keep.take(0) =~= Seq::empty());
        } else {
            prefix_tiles(segments, start, end, count + 1);
            kept_ranges_lie_apart(longer, start, longer.last().end as int);
            let a = kept_ranges(shorter);
            assert(a =~= keep.take(a.len() as int));
        }
    }
}

} // verus!
