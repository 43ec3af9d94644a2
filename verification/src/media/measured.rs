//! What holds of what is measured of sound and picture.

use vstd::prelude::*;
use vstd::arithmetic::div_mod::lemma_div_by_multiple;
use vstd::arithmetic::div_mod::lemma_div_denominator;
use vstd::arithmetic::div_mod::lemma_div_is_ordered;
use vstd::arithmetic::div_mod::lemma_div_multiples_vanish;
use vstd::arithmetic::div_mod::lemma_fundamental_div_mod;
use crate::media::audio::level_of;
use crate::media::audio::long_spans;
use crate::media::audio::quiet_runs;
use crate::media::audio::sample_of;
use crate::media::audio::samples_in;
use crate::media::audio::squares_of;
use crate::media::frames::block_count;
use crate::media::frames::block_total;
use crate::media::frames::cell_end;
use crate::media::frames::cell_start;
use crate::media::frames::offset_of;
use crate::media::frames::offsets_fit;
use crate::media::frames::row_count;
use crate::media::frames::row_total;
use crate::media::frames::Block;
use crate::media::frames::Frame;
use crate::media::frames::FrameSpacing;
use crate::media::probe::VideoView;

verus! {

/// A sample is sixteen bits, the low byte first, and negative in its upper half.
pub proof fn samples_have_a_sign(low: u8, high: u8)
    ensures
        -32_768 <= sample_of(low, high) <= 32_767,
        high < 128 ==> sample_of(low, high) == high * 256 + low,
        high >= 128 ==> sample_of(low, high) == (high - 256) * 256 + low,
{
}

/// A sound that swings no further than it always does is as loud as its swing:
/// the level is the square of it, full scale where it is the highest there is,
/// and never less than the floor. How long it lasts does not matter.
pub proof fn steady_sounds_are_as_loud_as_their_swing(bytes: Seq<u8>, swing: int)
    requires
        bytes.len() >= 2,
        forall|i: int|
            0 <= i < bytes.len() as int / 2 ==> #[trigger] sample_of(
                bytes[2 * i],
                bytes[2 * i + 1],
            ) == swing || sample_of(bytes[2 * i], bytes[2 * i + 1]) == -swing,
    ensures
        swing == 32_767 ==> level_of(bytes) == 1_000_000_000_000,
        ({
            let level = swing * swing * 1_000_000_000_000 / 1_073_676_289;
            level_of(bytes) == (if level < 1 { 1 } else { level })
        }),
{
    let count = bytes.len() as int / 2;
    steady_squares(bytes, swing, count);
    let square = swing * swing;
    let top = square * 1_000_000_000_000;
    assert((count * square) * 1_000_000_000_000 == count * top) by (nonlinear_arith)
        requires
            top == square * 1_000_000_000_000,
    ;
    lemma_div_multiples_vanish(top, count);
    assert(square >= 0) by (nonlinear_arith)
        requires
            square == swing * swing,
    ;
    assert(count * top >= 0) by (nonlinear_arith)
        requires
            count >= 0,
            top >= 0,
    ;
    lemma_div_denominator(count * top, count, 1_073_676_289);
    if swing == 32_767 {
        assert(square == 1_073_676_289);
    }
}

proof fn steady_squares(bytes: Seq<u8>, swing: int, count: int)
    requires
        0 <= count <= bytes.len() as int / 2,
        forall|i: int|
            0 <= i < bytes.len() as int / 2 ==> #[trigger] sample_of(
                bytes[2 * i],
                bytes[2 * i + 1],
            ) == swing || sample_of(bytes[2 * i], bytes[2 * i + 1]) == -swing,
    ensures
        squares_of(bytes, count) == count * (swing * swing),
    decreases count,
{
    if count > 0 {
        steady_squares(bytes, swing, count - 1);
        let sample = sample_of(bytes[2 * (count - 1)], bytes[2 * (count - 1) + 1]);
        assert(sample == swing || sample == -swing);
        assert(sample * sample == swing * swing) by (nonlinear_arith)
            requires
                sample == swing || sample == -swing,
        ;
        let square = swing * swing;
        assert(count * square == (count - 1) * square + square) by (nonlinear_arith);
    } else {
        assert(0 * (swing * swing) == 0) by (nonlinear_arith);
    }
}

/// Of two stretches as long as each other the one with more power is no quieter.
pub proof fn more_power_is_louder(quiet: Seq<u8>, loud: Seq<u8>)
    requires
        quiet.len() == loud.len(),
        squares_of(quiet, quiet.len() as int / 2) <= squares_of(loud, loud.len() as int / 2),
    ensures
        level_of(quiet) <= level_of(loud),
{
    let count = quiet.len() as int / 2;
    if count > 0 {
        lemma_div_is_ordered(
            squares_of(quiet, count) * 1_000_000_000_000,
            squares_of(loud, count) * 1_000_000_000_000,
            count * 1_073_676_289,
        );
    }
}

/// A window of so many microseconds holds eight thousand samples a second, to
/// the nearest, and one at least.
pub proof fn windows_hold_their_samples(window: i64)
    requires
        window >= 0,
    ensures
        samples_in(window) >= 1,
        window >= 125 ==> 2 * (samples_in(window) * 1_000_000) <= 2 * (window * 8_000) + 1_000_000
            && 2 * (window * 8_000) + 1_000_000 < 2 * (samples_in(window) * 1_000_000) + 2_000_000,
{
}

/// A window lies in one of the runs.
pub open spec fn in_a_quiet_run(found: Seq<(int, int)>, at: int) -> bool {
    exists|k: int| 0 <= k < found.len() && (#[trigger] found[k]).0 <= at < found[k].1
}

/// The quiet runs are what is quiet: a window lies in one exactly where its
/// level is under the threshold, and between two of them there is a window that
/// is not.
pub proof fn quiet_runs_are_what_is_quiet(levels: Seq<u64>, threshold: u64, count: int)
    requires
        0 <= count <= levels.len(),
    ensures
        ({
            let found = quiet_runs(levels, threshold, count);
            &&& forall|i: int|
                0 <= i < found.len() ==> 0 <= (#[trigger] found[i]).0 < found[i].1 <= count
            &&& forall|i: int, j: int|
                0 <= i < j < found.len() ==> (#[trigger] found[i]).1 < (#[trigger] found[j]).0
            &&& forall|at: int|
                0 <= at < count ==> (#[trigger] levels[at] < threshold <==> in_a_quiet_run(
                    found,
                    at,
                ))
            &&& count > 0 && levels[count - 1] < threshold ==> found.len() > 0 && found.last().1
                == count
            &&& count > 0 && levels[count - 1] >= threshold ==> (found.len() > 0 ==> found.last().1
                < count)
        }),
    decreases count,
{
    if count > 0 {
        quiet_runs_are_what_is_quiet(levels, threshold, count - 1);
        let before = quiet_runs(levels, threshold, count - 1);
        let after = quiet_runs(levels, threshold, count);
        assert forall|i: int, j: int| 0 <= i < j < after.len() implies (#[trigger] after[i]).1 < (
        #[trigger] after[j]).0 by {
            if j < before.len() {
                assert(before[i].1 < before[j].0);
            } else {
                assert(before[i].1 <= before.last().1);
            }
        }
        assert forall|at: int| 0 <= at < count implies (#[trigger] levels[at] < threshold
            <==> in_a_quiet_run(after, at)) by {
            if levels[at] < threshold {
                if at < count - 1 {
                    assert(in_a_quiet_run(before, at));
                    let k = choose|k: int|
                        0 <= k < before.len() && (#[trigger] before[k]).0 <= at < before[k].1;
                    assert(after[k].0 <= at < after[k].1);
                } else {
                    let k = after.len() - 1;
                    assert(after[k].0 <= at < after[k].1);
                }
            }
            if in_a_quiet_run(after, at) {
                let k = choose|k: int|
                    0 <= k < after.len() && (#[trigger] after[k]).0 <= at < after[k].1;
                if at < count - 1 {
                    assert(before[k].0 <= at < before[k].1);
                    assert(in_a_quiet_run(before, at));
                } else if levels[at] >= threshold {
                    assert(before[k].1 <= count - 1);
                }
            }
        }
    }
}

proof fn long_runs_are_spans(runs: Seq<(int, int)>, window: i64, minimum: i64, k: int)
    requires
        0 <= k < runs.len(),
        runs[k].1 * window - runs[k].0 * window >= minimum,
    ensures
        long_spans(runs, window, minimum).contains(
            ((runs[k].0 * window) as i64, (runs[k].1 * window) as i64),
        ),
    decreases runs.len(),
{
    let before = long_spans(runs.drop_last(), window, minimum);
    let all = long_spans(runs, window, minimum);
    let wanted = ((runs[k].0 * window) as i64, (runs[k].1 * window) as i64);
    if k < runs.len() - 1 {
        assert(runs.drop_last()[k] == runs[k]);
        long_runs_are_spans(runs.drop_last(), window, minimum, k);
        let j = before.index_of(wanted);
        assert(all[j] == wanted);
    } else {
        assert(all[all.len() - 1] == wanted);
    }
}

proof fn spans_are_long_runs(runs: Seq<(int, int)>, window: i64, minimum: i64, i: int) -> (k: int)
    requires
        0 <= i < long_spans(runs, window, minimum).len(),
    ensures
        0 <= k < runs.len(),
        runs[k].1 * window - runs[k].0 * window >= minimum,
        long_spans(runs, window, minimum)[i] == (
            (runs[k].0 * window) as i64,
            (runs[k].1 * window) as i64,
        ),
    decreases runs.len(),
{
    let before = long_spans(runs.drop_last(), window, minimum);
    if i < before.len() {
        let k = spans_are_long_runs(runs.drop_last(), window, minimum, i);
        assert(runs.drop_last()[k] == runs[k]);
        k
    } else {
        runs.len() - 1
    }
}

/// No long silence is missed: where every window of a stretch is quieter than
/// the threshold and the stretch lasts the minimum, one span holds all of it.
pub proof fn long_silences_are_spans(
    levels: Seq<u64>,
    threshold: u64,
    window: i64,
    minimum: i64,
    from: int,
    to: int,
)
    requires
        window >= 0,
        levels.len() * window <= i64::MAX,
        0 <= from < to <= levels.len(),
        forall|at: int| from <= at < to ==> #[trigger] levels[at] < threshold,
        (to - from) * window >= minimum,
    ensures
        ({
            let spans = long_spans(
                quiet_runs(levels, threshold, levels.len() as int),
                window,
                minimum,
            );
            exists|i: int|
                0 <= i < spans.len() && (#[trigger] spans[i]).0 <= from * window && to * window
                    <= spans[i].1
        }),
{
    let count = levels.len() as int;
    let found = quiet_runs(levels, threshold, count);
    quiet_runs_are_what_is_quiet(levels, threshold, count);
    assert(levels[from] < threshold);
    assert(in_a_quiet_run(found, from));
    let k = choose|k: int| 0 <= k < found.len() && (#[trigger] found[k]).0 <= from < found[k].1;
    if found[k].1 < to {
        let at = found[k].1;
        assert(levels[at] < threshold);
        assert(in_a_quiet_run(found, at));
        let other = choose|j: int| 0 <= j < found.len() && (#[trigger] found[j]).0 <= at < found[j].1;
        if k < other {
            assert(found[k].1 < found[other].0);
        } else if other < k {
            assert(found[other].1 < found[k].0);
        }
        assert(false);
    }
    let (first, past) = found[k];
    assert(0 <= first * window <= from * window && to * window <= past * window <= count * window
        && (to - from) * window == to * window - from * window) by (nonlinear_arith)
        requires
            0 <= first <= from,
            to <= past <= count,
            window >= 0,
    ;
    long_runs_are_spans(found, window, minimum, k);
    let spans = long_spans(found, window, minimum);
    let i = spans.index_of(((first * window) as i64, (past * window) as i64));
    assert(spans[i].0 <= from * window);
}

/// Nothing else is a silence: every window of a span is quieter than the
/// threshold, the windows on either side of it are not, and it lasts the
/// minimum.
pub proof fn spans_are_long_silences(
    levels: Seq<u64>,
    threshold: u64,
    window: i64,
    minimum: i64,
    i: int,
) -> (stretch: (int, int))
    requires
        window >= 0,
        levels.len() * window <= i64::MAX,
        0 <= i < long_spans(
            quiet_runs(levels, threshold, levels.len() as int),
            window,
            minimum,
        ).len(),
    ensures
        ({
            let span = long_spans(
                quiet_runs(levels, threshold, levels.len() as int),
                window,
                minimum,
            )[i];
            let (from, to) = stretch;
            &&& 0 <= from < to <= levels.len()
            &&& span.0 == from * window && span.1 == to * window
            &&& span.1 - span.0 >= minimum
            &&& forall|at: int| from <= at < to ==> #[trigger] levels[at] < threshold
            &&& from > 0 ==> levels[from - 1] >= threshold
            &&& to < levels.len() ==> levels[to] >= threshold
        }),
{
    let count = levels.len() as int;
    let found = quiet_runs(levels, threshold, count);
    quiet_runs_are_what_is_quiet(levels, threshold, count);
    let k = spans_are_long_runs(found, window, minimum, i);
    let (from, to) = found[k];
    assert(0 <= from < to <= count);
    assert(0 <= from * window <= count * window && 0 <= to * window <= count * window)
        by (nonlinear_arith)
        requires
            0 <= from < to <= count,
            window >= 0,
    ;
    assert forall|at: int| from <= at < to implies #[trigger] levels[at] < threshold by {
        assert(found[k].0 <= at < found[k].1);
        assert(in_a_quiet_run(found, at));
    }
    if from > 0 && levels[from - 1] < threshold {
        assert(in_a_quiet_run(found, from - 1));
        let other = choose|j: int|
            0 <= j < found.len() && (#[trigger] found[j]).0 <= from - 1 < found[j].1;
        if k < other {
            assert(found[k].1 < found[other].0);
        } else if other < k {
            assert(found[other].1 < found[k].0);
        }
    }
    if to < count && levels[to] < threshold {
        assert(in_a_quiet_run(found, to));
        let other = choose|j: int|
            0 <= j < found.len() && (#[trigger] found[j]).0 <= to < found[j].1;
        if k < other {
            assert(found[k].1 < found[other].0);
        } else if other < k {
            assert(found[other].1 < found[k].0);
        }
    }
    (from, to)
}

/// A moment is the last whole microsecond that is not past the frame.
pub proof fn moments_do_not_drift(spacing: FrameSpacing, index: int)
    requires
        spacing.wf(),
        index >= 0,
    ensures
        spacing.frames * spacing.moment(index) <= index * spacing.micros,
        index * spacing.micros < spacing.frames * (spacing.moment(index) + 1),
        spacing.moment(0) == 0,
{
    let (top, bottom) = (index * spacing.micros, spacing.frames as int);
    lemma_fundamental_div_mod(top, bottom);
    vstd::arithmetic::div_mod::lemma_mod_bound(top, bottom);
    let whole = top / bottom;
    assert(bottom * (whole + 1) == bottom * whole + bottom) by (nonlinear_arith);
    assert((0int * spacing.micros) / bottom == 0) by (nonlinear_arith)
        requires
            bottom > 0,
    ;
}

/// Frames come at the rate that was stated, one for each of so many: as many
/// frames as there are in the numerator take as many seconds as there are in the
/// denominator, and so many times as long where only some are read.
pub proof fn frames_come_at_the_stated_rate(video: VideoView, step: u32)
    requires
        0 < step <= 4_096,
        video.frame_rate.0 > 0,
        video.frame_rate.1 > 0,
    ensures
        video.spacing(step).wf(),
        video.spacing(step).moment(video.frame_rate.0 as int) == step * video.frame_rate.1
            * 1_000_000,
{
    let micros = step * video.frame_rate.1 * 1_000_000;
    assert(micros <= 4_096 * 4_294_967_295 * 1_000_000) by (nonlinear_arith)
        requires
            0 < step <= 4_096,
            0 < video.frame_rate.1 <= 4_294_967_295,
            micros == step * video.frame_rate.1 * 1_000_000,
    ;
    lemma_div_multiples_vanish(micros, video.frame_rate.0 as int);
}

/// The cells of a smaller picture share out the larger one: they begin at its
/// beginning, each where the one before it ends, and end at its end.
pub proof fn cells_share_out_the_picture(cell: int, source: int, target: int)
    requires
        0 <= cell < target <= source,
    ensures
        cell_start(0, source, target) == 0,
        cell_start(cell, source, target) < cell_end(cell, source, target) <= source,
        cell + 1 < target ==> cell_end(cell, source, target) == cell_start(
            cell + 1,
            source,
            target,
        ),
        cell + 1 == target ==> cell_end(cell, source, target) == source,
{
    let here = cell * source;
    let next = (cell + 1) * source;
    assert(next == here + source) by (nonlinear_arith)
        requires
            here == cell * source,
            next == (cell + 1) * source,
    ;
    assert(0int * source / target == 0) by (nonlinear_arith)
        requires
            target > 0,
    ;
    lemma_div_is_ordered(here + target, next, target);
    assert((here + target) / target == here / target + 1) by {
        vstd::arithmetic::div_mod::lemma_div_plus_one(here, target);
    }
    lemma_div_by_multiple(source, target);
    assert(next <= source * target) by (nonlinear_arith)
        requires
            next == (cell + 1) * source,
            cell + 1 <= target,
            source >= 0,
    ;
    lemma_div_is_ordered(next, source * target, target);
    if cell + 1 == target {
        assert(next == source * target) by (nonlinear_arith)
            requires
                next == (cell + 1) * source,
                cell + 1 == target,
        ;
    }
}

proof fn rows_lie_between(luma: Seq<u8>, base: int, from: int, to: int, low: int, high: int)
    requires
        forall|i: int| 0 <= i < luma.len() ==> low <= #[trigger] luma[i] <= high,
    ensures
        row_count(luma, base, from, to) >= 0,
        low * row_count(luma, base, from, to) <= row_total(luma, base, from, to) <= high
            * row_count(luma, base, from, to),
    decreases to - from,
{
    if to > from {
        rows_lie_between(luma, base, from, to - 1, low, high);
        let count = row_count(luma, base, from, to - 1);
        assert(low * (count + 1) == low * count + low) by (nonlinear_arith);
        assert(high * (count + 1) == high * count + high) by (nonlinear_arith);
    } else {
        assert(low * 0 == 0 && high * 0 == 0) by (nonlinear_arith);
    }
}

proof fn blocks_lie_between(
    luma: Seq<u8>,
    width: int,
    block: Block,
    to: int,
    low: int,
    high: int,
)
    requires
        forall|i: int| 0 <= i < luma.len() ==> low <= #[trigger] luma[i] <= high,
    ensures
        block_count(luma, width, block, to) >= 0,
        low * block_count(luma, width, block, to) <= block_total(luma, width, block, to) <= high
            * block_count(luma, width, block, to),
    decreases to - block.y0,
{
    if to > block.y0 {
        blocks_lie_between(luma, width, block, to - 1, low, high);
        let base = (to - 1) * width;
        rows_lie_between(luma, base, block.x0, block.x1, low, high);
        let above = block_count(luma, width, block, to - 1);
        let here = row_count(luma, base, block.x0, block.x1);
        assert(low * (above + here) == low * above + low * here) by (nonlinear_arith);
        assert(high * (above + here) == high * above + high * here) by (nonlinear_arith);
    } else {
        assert(low * 0 == 0 && high * 0 == 0) by (nonlinear_arith);
    }
}

/// Making a picture smaller evens it out: no pixel of the smaller one is darker
/// than the darkest or brighter than the brightest of the larger, so a flat
/// picture stays as it was.
pub proof fn smaller_pictures_lie_between(
    frame: Frame,
    x: int,
    y: int,
    width: int,
    height: int,
    low: int,
    high: int,
)
    requires
        forall|i: int| 0 <= i < frame.luma@.len() ==> low <= #[trigger] frame.luma@[i] <= high,
        block_count(
            frame.luma@,
            frame.width as int,
            frame.block(x, y, width, height),
            frame.block(x, y, width, height).y1,
        ) > 0,
    ensures
        low <= frame.reduced(x, y, width, height) <= high,
{
    let block = frame.block(x, y, width, height);
    blocks_lie_between(frame.luma@, frame.width as int, block, block.y1, low, high);
    let count = block_count(frame.luma@, frame.width as int, block, block.y1);
    let total = block_total(frame.luma@, frame.width as int, block, block.y1);
    lemma_div_is_ordered(low * count, total, count);
    lemma_div_is_ordered(total, high * count, count);
    lemma_div_multiples_vanish(low, count);
    lemma_div_multiples_vanish(high, count);
    assert(low * count == count * low && high * count == count * high) by (nonlinear_arith);
}

/// A picture made no smaller is the same picture.
pub proof fn pictures_of_the_same_size_are_the_same(frame: Frame, x: int, y: int)
    requires
        0 <= x < frame.width,
        0 <= y < frame.height,
        frame.luma@.len() == frame.width * frame.height,
    ensures
        Some(frame.reduced(x, y, frame.width as int, frame.height as int) as u8)
            == frame.spec_pixel(x, y),
{
    let (width, height) = (frame.width as int, frame.height as int);
    let block = frame.block(x, y, width, height);
    lemma_div_by_multiple(x, width);
    lemma_div_by_multiple(x + 1, width);
    lemma_div_by_multiple(y, height);
    lemma_div_by_multiple(y + 1, height);
    assert(block == (Block { x0: x, x1: x + 1, y0: y, y1: y + 1 }));
    offsets_fit(x, y, width, height);
    let base = y * width;
    let value = frame.luma@[offset_of(x, y, width)] as int;
    assert(row_total(frame.luma@, base, x, x) == 0);
    assert(row_count(frame.luma@, base, x, x) == 0);
    assert(row_total(frame.luma@, base, x, x + 1) == value);
    assert(row_count(frame.luma@, base, x, x + 1) == 1);
    assert(block_total(frame.luma@, width, block, y) == 0);
    assert(block_count(frame.luma@, width, block, y) == 0);
    assert(block_total(frame.luma@, width, block, y + 1) == value);
    assert(block_count(frame.luma@, width, block, y + 1) == 1);
}

} // verus!
