//! Splitting one recording into several output files.
//!
//! A video track has one picture size for its whole length. When a recording
//! changes size part-way through (a station dropping from HD to SD for a
//! segment, or a recording that spans a channel change) there is no single
//! file that can hold it. ffmpeg does not refuse; it scales everything to
//! whatever the first frame was, so the rest of the recording comes out
//! stretched, or it stops at the change and the remainder is silently missing.
//!
//! So the output is split instead, one file per run of constant geometry.

use vstd::prelude::*;
use vstd::string::*;
use crate::analyze::in_time;
use crate::analyze::TIME_LIMIT;
use crate::cmcut::plan::KeepRange;
use crate::engine::chapters::apart;
use crate::engine::diagnostics::Diagnostics;
use crate::order::is_stable_order;
use crate::order::precedes;
use crate::order::ranking;
use crate::order::stable_order;
use crate::order::stable_order_exists;
use crate::paths::extension;
use crate::paths::extension_of;
use crate::paths::file_stem;
use crate::paths::is_name;
use crate::paths::last_dot;
use crate::paths::name_of;
use crate::paths::names_below_are_last;
use crate::paths::names_hold_no_slash;
use crate::paths::parent_of;
use crate::paths::renamed;
use crate::paths::stem_of;
use crate::paths::with_file_name;
use crate::text::decimal_digits;
use crate::text::digits_are_digits;
use crate::text::digits_name_one_number;
use crate::text::own;
use crate::text::push_wide;

verus! {

/// The end of a part that runs to wherever the source ends.
pub const FOREVER: i64 = i64::MAX;

/// The shortest stretch worth writing, in microseconds. One no longer contains
/// no frames.
pub const SLIVER: i64 = 1_000;

/// One output file, and the stretch of source it covers.
#[derive(Debug, PartialEq, Eq)]
pub struct Part {
    /// Where to write it.
    pub output: String,
    /// Where this part begins in the source, in microseconds.
    pub start: i64,
    /// Where it ends in the source, in microseconds; [`FOREVER`] for one that
    /// runs to wherever the source ends.
    pub end: i64,
    /// The bytes of the source file this part occupies.
    ///
    /// `None` when the recording needs no splitting, which means the source
    /// file is used as it stands.
    pub bytes: Option<(u64, u64)>,
}

/// A part with its path read as characters.
pub ghost struct PartView {
    /// Where to write it.
    pub output: Seq<char>,
    /// Where it begins.
    pub start: i64,
    /// Where it ends.
    pub end: i64,
    /// The bytes it occupies.
    pub bytes: Option<(u64, u64)>,
}

impl View for Part {
    type V = PartView;

    open spec fn view(&self) -> PartView {
        PartView { output: self.output@, start: self.start, end: self.end, bytes: self.bytes }
    }
}

/// The parts with their paths read as characters.
pub open spec fn part_views(parts: Seq<Part>) -> Seq<PartView> {
    parts.map_values(|part: Part| part@)
}

/// What of a stretch of source falls inside a part, on the part's own clock.
///
/// A split part is cut out of the source as its own transport stream, so its
/// clock starts at zero and a range at source second 700 is at part second 100
/// in a part beginning at 600. A stretch touching the boundary at a single
/// point contributes no frames.
pub open spec fn inside(start: int, end: int, part_start: int, part_end: int) -> Option<(int, int)> {
    let from = if start > part_start { start } else { part_start };
    let to = if end < part_end { end } else { part_end };
    if to - from > SLIVER {
        Some((from - part_start, to - part_start))
    } else {
        None
    }
}

/// The kept ranges that fall inside a part, on the part's own clock.
pub open spec fn clipped(keep: Seq<KeepRange>, start: int, end: int) -> Seq<KeepRange>
    decreases keep.len(),
{
    if keep.len() == 0 {
        Seq::empty()
    } else {
        let rest = clipped(keep.drop_last(), start, end);
        match inside(keep.last().start as int, keep.last().end as int, start, end) {
            Some((from, to)) => rest.push(KeepRange { start: from as i64, end: to as i64 }),
            None => rest,
        }
    }
}

impl PartView {
    /// The ends are moments of the recording, or the end is open.
    pub open spec fn wf(self) -> bool {
        &&& 0 <= self.start <= TIME_LIMIT
        &&& in_time(self.end) || self.end == FOREVER
    }
}

impl Part {
    /// What of a stretch of source falls inside this part.
    pub(crate) fn take(&self, start: i64, end: i64) -> (taken: Option<(i64, i64)>)
        requires
            self@.wf(),
            in_time(start),
            in_time(end),
        ensures
            (match taken {
                Some((from, to)) => Some((from as int, to as int)),
                None => None,
            }) == inside(start as int, end as int, self.start as int, self.end as int),
    {
        let from: i64 = if start > self.start { start } else { self.start };
        let to: i64 = if end < self.end { end } else { self.end };
        if to - from > SLIVER {
            Some((from - self.start, to - self.start))
        } else {
            None
        }
    }

    /// How long this part is, in microseconds; [`FOREVER`] where its end is
    /// open.
    #[must_use]
    pub fn duration(&self) -> (length: i64)
        requires
            self@.wf(),
        ensures
            length == (if self.end == FOREVER {
                FOREVER as int
            } else if self.end > self.start {
                self.end - self.start
            } else {
                0
            }),
    {
        if self.end == FOREVER {
            FOREVER
        } else if self.end > self.start {
            self.end - self.start
        } else {
            0
        }
    }

    /// The kept ranges that fall inside this part, rebased to start at zero.
    #[must_use]
    pub fn clip(&self, keep: &[KeepRange]) -> (kept: Vec<KeepRange>)
        requires
            self@.wf(),
            forall|i: int| 0 <= i < keep@.len() ==> (#[trigger] keep@[i]).in_time(),
        ensures
            kept@ == clipped(keep@, self.start as int, self.end as int),
    {
        let mut kept: Vec<KeepRange> = Vec::new();
        assert(keep@.take(0) =~= Seq::empty());
        for i in 0..keep.len()
            invariant
                self@.wf(),
                forall|k: int| 0 <= k < keep@.len() ==> (#[trigger] keep@[k]).in_time(),
                kept@ == clipped(keep@.take(i as int), self.start as int, self.end as int),
        {
            assert(keep@.take(i + 1).drop_last() =~= keep@.take(i as int));
            assert(keep@.take(i + 1).last() == keep@[i as int]);
            assert(keep@[i as int].in_time());
            if let Some((start, end)) = self.take(keep[i].start, keep[i].end) {
                kept.push(KeepRange { start, end });
            }
        }
        assert(keep@.take(keep@.len() as int) =~= keep@);
        kept
    }
}

/// A point usable for splitting: it has a time and an offset, and lies inside
/// the recording. A change at zero would make an empty first part, and one
/// past the end would make an empty last one.
pub open spec fn is_usable(point: (i64, u64), duration: i64) -> bool {
    point.0 > SLIVER && point.1 > 0 && (duration <= 0 || point.0 < duration - SLIVER)
}

/// The points usable for splitting, in the order they are given.
///
/// A point needs both a time and an offset: the time places the cuts, the
/// offset does the cutting.
pub open spec fn usable_points(times: Seq<i64>, offsets: Seq<u64>, duration: i64) -> Seq<(i64, u64)>
    decreases times.len(),
{
    if times.len() == 0 {
        Seq::empty()
    } else {
        let rest = usable_points(times.drop_last(), offsets, duration);
        let at = times.len() - 1;
        if at < offsets.len() && is_usable((times[at], offsets[at]), duration) {
            rest.push((times[at], offsets[at]))
        } else {
            rest
        }
    }
}

/// What points are ordered by.
pub open spec fn point_keys(points: Seq<(i64, u64)>) -> Seq<i128> {
    points.map_values(|point: (i64, u64)| point.0 as i128)
}

/// Points in the order of their times.
pub open spec fn by_time(points: Seq<(i64, u64)>) -> Seq<(i64, u64)> {
    Seq::new(points.len(), |i: int| points[ranking(point_keys(points))[i] as int])
}

/// The file name of a part, counting from zero.
///
/// The first part keeps the name that was asked for, so an ordinary recording,
/// and the first file of a split one, lands exactly where `EPGStation` is
/// expecting it. Only the extra files need a suffix, and they are the ones
/// nothing else knows about anyway.
pub open spec fn part_name(output: Seq<char>, index: nat) -> Seq<char> {
    if index == 0 {
        output
    } else {
        renamed(output, suffixed_name(output, index))
    }
}

/// The name of a part that is not the first, without the directory.
pub open spec fn suffixed_name(output: Seq<char>, index: nat) -> Seq<char> {
    (match stem_of(output) {
        Some(stem) => stem,
        None => ""@,
    }) + ".part"@ + decimal_digits(index + 1) + (match extension_of(output) {
        Some(extension) => "."@ + extension,
        None => ""@,
    })
}

/// The file name for part `index`, counting from zero.
#[must_use]
pub fn numbered(output: &str, index: usize) -> (name: String)
    ensures
        name@ == part_name(output@, index as nat),
{
    if index == 0 {
        return own(output);
    }
    let mut name = match file_stem(output) {
        Some(stem) => stem,
        None => own(""),
    };
    name.append(".part");
    push_wide(&mut name, index as u128 + 1);
    match extension(output) {
        Some(extension) => {
            name.append(".");
            name.append(extension.as_str());
        },
        None => {
            name.append("");
        },
    }
    assert(name@ =~= suffixed_name(output@, index as nat));
    with_file_name(output, name.as_str())
}

/// The parts between ordered points. Without a duration there is nothing to
/// bound the last part with, so it runs to wherever the source ends.
pub open spec fn part_between(
    output: Seq<char>,
    points: Seq<(i64, u64)>,
    duration: i64,
    file_size: u64,
    i: int,
) -> PartView {
    let start = if i <= 0 { (0i64, 0u64) } else { points[i - 1] };
    let end = if i < points.len() {
        points[i]
    } else {
        (if duration > 0 { duration } else { FOREVER }, file_size)
    };
    PartView {
        output: part_name(output, i as nat),
        start: start.0,
        end: end.0,
        bytes: Some((start.1, end.1)),
    }
}

/// The whole recording as one part.
pub open spec fn whole_part(output: Seq<char>, duration: i64) -> PartView {
    PartView { output, start: 0, end: if duration > 0 { duration } else { 0 }, bytes: None }
}

/// The files a recording becomes, given the points to split it at.
pub open spec fn parts_for(
    output: Seq<char>,
    points: Seq<(i64, u64)>,
    duration: i64,
    file_size: u64,
) -> Seq<PartView> {
    if points.len() == 0 {
        seq![whole_part(output, duration)]
    } else {
        Seq::new(
            points.len() + 1,
            |i: int| part_between(output, points, duration, file_size, i),
        )
    }
}

/// The points a recording is split at, in order.
pub open spec fn split_points(diagnostics: Option<Diagnostics>, duration: i64) -> Seq<(i64, u64)> {
    match diagnostics {
        Some(diagnostics) => by_time(
            usable_points(
                diagnostics.split_points@,
                diagnostics.split_offsets@,
                duration,
            ),
        ),
        None => Seq::empty(),
    }
}

fn usable(times: &[i64], offsets: &[u64], duration: i64) -> (points: Vec<(i64, u64)>)
    ensures
        points@ == usable_points(times@, offsets@, duration),
{
    let mut points: Vec<(i64, u64)> = Vec::new();
    assert(times@.take(0) =~= Seq::empty());
    for i in 0..times.len()
        invariant
            points@ == usable_points(times@.take(i as int), offsets@, duration),
    {
        assert(times@.take(i + 1).drop_last() =~= times@.take(i as int));
        if i < offsets.len() {
            let (at, offset): (i64, u64) = (times[i], offsets[i]);
            if at > SLIVER && offset > 0 && (duration <= 0 || at < duration - SLIVER) {
                points.push((at, offset));
            }
        }
    }
    assert(times@.take(times@.len() as int) =~= times@);
    points
}

fn ordered(points: &[(i64, u64)]) -> (ordered: Vec<(i64, u64)>)
    ensures
        ordered@ == by_time(points@),
{
    let mut keys: Vec<i128> = Vec::new();
    for i in 0..points.len()
        invariant
            keys@ =~= point_keys(points@).take(i as int),
    {
        keys.push(points[i].0 as i128);
    }
    assert(keys@ =~= point_keys(points@));
    let order = stable_order(&keys);
    let mut ordered: Vec<(i64, u64)> = Vec::new();
    for i in 0..order.len()
        invariant
            order@.len() == points@.len(),
            forall|k: int| 0 <= k < order@.len() ==> 0 <= #[trigger] order@[k] < points@.len(),
            order@ == ranking(point_keys(points@)),
            ordered@ =~= by_time(points@).take(i as int),
    {
        ordered.push(points[order[i]]);
    }
    assert(ordered@ =~= by_time(points@));
    ordered
}

/// Work out which files this recording has to become.
///
/// Returns exactly one part, the whole recording written to `output`, when the
/// geometry never changes, which is every ordinary recording.
#[must_use]
pub fn split(
    output: &str,
    diagnostics: Option<&Diagnostics>,
    duration: i64,
    file_size: u64,
) -> (parts: Vec<Part>)
    ensures
        part_views(parts@) == parts_for(
            output@,
            split_points(
                match diagnostics {
                    Some(diagnostics) => Some(*diagnostics),
                    None => None,
                },
                duration,
            ),
            duration,
            file_size,
        ),
        parts@.len() >= 1,
{
    let points: Vec<(i64, u64)> = match diagnostics {
        Some(diagnostics) => ordered(
            &usable(&diagnostics.split_points, &diagnostics.split_offsets, duration),
        ),
        None => Vec::new(),
    };
    let mut parts: Vec<Part> = Vec::new();
    if points.len() == 0 {
        parts.push(
            Part {
                output: own(output),
                start: 0,
                end: if duration > 0 { duration } else { 0 },
                bytes: None,
            },
        );
        assert(points@ =~= Seq::empty());
        assert(part_views(parts@) =~= parts_for(output@, points@, duration, file_size));
        return parts;
    }
    let mut start: (i64, u64) = (0, 0);
    for i in 0..points.len()
        invariant
            start == (if i == 0 { (0i64, 0u64) } else { points@[i - 1] }),
            part_views(parts@) =~= Seq::new(
                i as nat,
                |k: int| part_between(output@, points@, duration, file_size, k),
            ),
    {
        let point: (i64, u64) = points[i];
        let part = Part {
            output: numbered(output, i),
            start: start.0,
            end: point.0,
            bytes: Some((start.1, point.1)),
        };
        assert(part@ == part_between(output@, points@, duration, file_size, i as int));
        let ghost before = part_views(parts@);
        parts.push(part);
        assert(part_views(parts@) =~= before.push(part@));
        start = point;
    }
    let part = Part {
        output: numbered(output, points.len()),
        start: start.0,
        end: if duration > 0 { duration } else { FOREVER },
        bytes: Some((start.1, file_size)),
    };
    assert(part@ == part_between(output@, points@, duration, file_size, points@.len() as int));
    let ghost before = part_views(parts@);
    parts.push(part);
    assert(part_views(parts@) =~= before.push(part@));
    assert(part_views(parts@) =~= parts_for(output@, points@, duration, file_size));
    parts
}

/// Every point kept is usable.
proof fn points_are_usable(times: Seq<i64>, offsets: Seq<u64>, duration: i64)
    ensures
        usable_points(times, offsets, duration).len() <= times.len(),
        forall|i: int|
            0 <= i < usable_points(times, offsets, duration).len() ==> is_usable(
                #[trigger] usable_points(times, offsets, duration)[i],
                duration,
            ),
    decreases times.len(),
{
    if times.len() > 0 {
        points_are_usable(times.drop_last(), offsets, duration);
    }
}

/// Ordered points are usable and in order of time.
proof fn ordered_points_ascend(points: Seq<(i64, u64)>, duration: i64)
    requires
        points.len() <= usize::MAX,
        forall|i: int| 0 <= i < points.len() ==> is_usable(#[trigger] points[i], duration),
    ensures
        forall|i: int|
            0 <= i < points.len() ==> is_usable(#[trigger] by_time(points)[i], duration),
        forall|i: int, j: int|
            0 <= i < j < points.len() ==> (#[trigger] by_time(points)[i]).0 <= (
            #[trigger] by_time(points)[j]).0,
{
    let keys = point_keys(points);
    stable_order_exists(keys);
    let order = ranking(keys);
    assert(is_stable_order(keys, order));
    assert forall|i: int, j: int| 0 <= i < j < points.len() implies (#[trigger] by_time(
        points,
    )[i]).0 <= (#[trigger] by_time(points)[j]).0 by {
        assert(precedes(keys, order[i], order[j]));
    }
}

/// The parts of a recording follow on from each other, in time and in the
/// file, from its start to its end, and the first keeps the name that was
/// asked for.
pub proof fn parts_cover_the_recording(
    output: Seq<char>,
    diagnostics: Option<Diagnostics>,
    duration: i64,
    file_size: u64,
)
    requires
        diagnostics matches Some(found) ==> found.split_points@.len() <= usize::MAX,
    ensures
        ({
            let parts = parts_for(
                output,
                split_points(diagnostics, duration),
                duration,
                file_size,
            );
            &&& parts.len() >= 1
            &&& parts[0].output == output
            &&& parts[0].start == 0
            &&& duration > 0 ==> parts.last().end == duration
            &&& parts.len() > 1 ==> parts.last().bytes is Some && (parts.last().bytes->0).1
                == file_size
            &&& forall|i: int|
                #![trigger parts[i]]
                0 < i < parts.len() ==> parts[i].start == parts[i - 1].end && parts[i].bytes is Some
                    && parts[i - 1].bytes is Some && (parts[i].bytes->0).0 == (parts[i
                    - 1].bytes->0).1
            &&& forall|i: int| 0 <= i < parts.len() ==> (#[trigger] parts[i]).start <= parts[i].end
        }),
{
    let points = split_points(diagnostics, duration);
    if let Some(found) = diagnostics {
        let usable = usable_points(found.split_points@, found.split_offsets@, duration);
        points_are_usable(found.split_points@, found.split_offsets@, duration);
        ordered_points_ascend(usable, duration);
    }
    let parts = parts_for(output, points, duration, file_size);
    assert forall|i: int| 0 <= i < parts.len() implies (#[trigger] parts[i]).start
        <= parts[i].end by {
        if 0 < points.len() {
            if i > 0 {
                assert(is_usable(points[i - 1], duration));
            }
            if i < points.len() {
                assert(is_usable(points[i], duration));
                if i > 0 {
                    assert(points[i - 1].0 <= points[i].0);
                }
            }
        }
    }
}

/// No two parts are written to one file.
pub proof fn parts_have_files_of_their_own(output: Seq<char>, one: nat, other: nat)
    requires
        part_name(output, one) == part_name(output, other),
    ensures
        one == other,
{
    if one == 0 && other > 0 {
        suffixes_make_another_name(output, other);
    } else if other == 0 && one > 0 {
        suffixes_make_another_name(output, one);
    } else if one > 0 {
        suffixed_is_a_name(output, one);
        suffixed_is_a_name(output, other);
        let directory = match (name_of(output), parent_of(output)) {
            (Some(_), Some(parent)) => parent,
            _ => output,
        };
        names_below_are_last(directory, suffixed_name(output, one));
        names_below_are_last(directory, suffixed_name(output, other));
        numbers_tell_names_apart(output, one, other);
    }
}

proof fn numbers_tell_names_apart(output: Seq<char>, one: nat, other: nat)
    requires
        suffixed_name(output, one) == suffixed_name(output, other),
    ensures
        one == other,
{
    let stem = match stem_of(output) {
        Some(stem) => stem,
        None => ""@,
    };
    let ending = match extension_of(output) {
        Some(extension) => "."@ + extension,
        None => ""@,
    };
    let head = stem + ".part"@;
    let (a, b) = (decimal_digits(one + 1), decimal_digits(other + 1));
    let (left, right) = (suffixed_name(output, one), suffixed_name(output, other));
    assert(left == head + a + ending);
    assert(right == head + b + ending);
    assert(left.len() == head.len() + a.len() + ending.len());
    assert(right.len() == head.len() + b.len() + ending.len());
    assert(a =~= left.subrange(head.len() as int, (head.len() + a.len()) as int));
    assert(b =~= right.subrange(head.len() as int, (head.len() + b.len()) as int));
    digits_name_one_number(one + 1, other + 1);
}

/// A suffixed name is longer than the name it was made from, and a name.
proof fn suffixed_is_a_name(output: Seq<char>, index: nat)
    ensures
        is_name(suffixed_name(output, index)),
        !suffixed_name(output, index).contains('/'),
        name_of(output) matches Some(name) ==> suffixed_name(output, index).len() > name.len(),
        suffixed_name(output, index).len() >= 6,
{
    reveal_strlit(".part");
    reveal_strlit(".");
    reveal_strlit("");
    names_hold_no_slash(output);
    digits_are_digits(index + 1);
    let stem = match stem_of(output) {
        Some(stem) => stem,
        None => ""@,
    };
    let ending = match extension_of(output) {
        Some(extension) => "."@ + extension,
        None => ""@,
    };
    let digits = decimal_digits(index + 1);
    let name = suffixed_name(output, index);
    if let Some(found) = name_of(output) {
        dots_are_within(found);
        assert forall|i: int| 0 <= i < stem.len() implies stem[i] != '/' by {
            assert(stem[i] == found[i]);
            assert(found.contains(found[i]));
        }
        assert forall|i: int| 0 <= i < ending.len() implies ending[i] != '/' by {
            if i > 0 {
                assert(ending[i] == found[i + last_dot(found)]);
                assert(found.contains(found[i + last_dot(found)]));
            }
        }
    }
    assert forall|i: int| 0 <= i < name.len() implies name[i] != '/' by {
        if i < stem.len() {
            assert(name[i] == stem[i]);
        } else if i < stem.len() + 5 {
            assert(name[i] == ".part"@[i - stem.len()]);
        } else if i < stem.len() + 5 + digits.len() {
            assert(name[i] == digits[i - stem.len() - 5]);
        } else {
            assert(name[i] == ending[i - stem.len() - 5 - digits.len()]);
        }
    }
    assert(name.len() == stem.len() + 5 + digits.len() + ending.len());
    assert(name.len() != seq!['.'].len() && name.len() != seq!['.', '.'].len());
}

pub(crate) proof fn dots_are_within(name: Seq<char>)
    ensures
        0 <= last_dot(name) <= name.len(),
        name.len() > 0 ==> last_dot(name) < name.len(),
    decreases name.len(),
{
    if name.len() > 0 && name.last() != '.' {
        dots_are_within(name.drop_last());
    }
}

proof fn suffixes_make_another_name(output: Seq<char>, index: nat)
    requires
        index > 0,
    ensures
        part_name(output, index) != output,
{
    suffixed_is_a_name(output, index);
    let name = suffixed_name(output, index);
    let directory = match (name_of(output), parent_of(output)) {
        (Some(_), Some(parent)) => parent,
        _ => output,
    };
    names_below_are_last(directory, name);
    if part_name(output, index) == output {
        assert(name_of(output) == Some(name));
    }
}

/// Kept ranges that lie apart still lie apart once clipped to a part, inside
/// it and each longer than a sliver.
pub proof fn clipped_ranges_lie_apart(keep: Seq<KeepRange>, part: PartView)
    requires
        apart(keep),
        part.wf(),
    ensures
        apart(clipped(keep, part.start as int, part.end as int)),
        forall|i: int|
            0 <= i < clipped(keep, part.start as int, part.end as int).len() ==> {
                let range = #[trigger] clipped(keep, part.start as int, part.end as int)[i];
                range.end <= part.end - part.start && range.end - range.start > SLIVER
            },
        ({
            let kept = clipped(keep, part.start as int, part.end as int);
            kept.len() > 0 ==> keep.len() > 0 && kept.last().end + part.start <= keep.last().end
        }),
    decreases keep.len(),
{
    if keep.len() > 0 {
        let rest = keep.drop_last();
        assert(apart(rest));
        clipped_ranges_lie_apart(rest, part);
        let before = clipped(rest, part.start as int, part.end as int);
        let kept = clipped(keep, part.start as int, part.end as int);
        let last = keep[keep.len() - 1];
        assert(0 <= last.start <= last.end <= TIME_LIMIT);
        if rest.len() > 0 {
            assert(rest.last() == keep[keep.len() - 2]);
            assert(keep[keep.len() - 2].end < last.start);
        }
        assert forall|i: int| 0 <= i < kept.len() implies 0 <= (#[trigger] kept[i]).start
            <= kept[i].end <= TIME_LIMIT by {
            if i < before.len() {
                assert(kept[i] == before[i]);
                assert(0 <= before[i].start <= before[i].end <= TIME_LIMIT);
            }
        }
    }
}

} // verus!
