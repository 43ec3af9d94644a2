//! A loudness envelope of the audio track.
//!
//! Silence is one of the three signals commercial boundaries are found from.
//! Detecting it needs nothing like full-quality audio, since broadcast inserts
//! a real gap of near-digital-silence at block boundaries, so the audio is
//! downmixed to mono at 8 kHz. That is roughly a thousandth of the data of the
//! original track and costs almost nothing to decode.
//!
//! A level is the mean power of a window relative to a full-scale square
//! wave, in trillionths: ten times its logarithm, less a hundred and twenty,
//! is the level in decibels.

use vstd::arithmetic::div_mod::lemma_fundamental_div_mod;
use vstd::arithmetic::div_mod::lemma_fundamental_div_mod_converse;
use vstd::prelude::*;
use crate::analyze::TIME_LIMIT;
use crate::arith::nearest;
use crate::arith::nearest_quotient;
use crate::text::decimal;
use crate::text::own;
use crate::text::texts;

verus! {

/// Sample rate the envelope is computed at.
///
/// Silence is broadband, so bandwidth buys nothing here; 8 kHz keeps a
/// three-hour recording's decode negligible next to the video pass.
pub const ENVELOPE_SAMPLE_RATE: u32 = 8_000;

/// The level reported for a window containing digital silence: a hundred and
/// twenty decibels below full scale.
///
/// True silence is infinitely far below, which propagates into every
/// downstream average; a floor well below any real broadcast noise level
/// behaves better and means the same thing.
pub const SILENCE_FLOOR_DBFS: u64 = 1;

/// Full scale.
pub const FULL_SCALE: u64 = 1_000_000_000_000;

/// The sample two bytes hold, least significant first.
pub open spec fn sample_of(low: u8, high: u8) -> int {
    let raw = low + high * 256;
    if raw >= 32_768 { raw - 65_536 } else { raw }
}

/// The squares of the first `count` samples, added up.
pub open spec fn squares_of(bytes: Seq<u8>, count: int) -> int
    decreases count,
{
    if count <= 0 {
        0
    } else {
        let sample = sample_of(bytes[2 * count - 2], bytes[2 * count - 1]);
        squares_of(bytes, count - 1) + sample * sample
    }
}

/// The level of one window of samples: their mean square relative to full
/// scale, and never below the floor. It is rounded down, so that it lies below
/// a threshold exactly when the mean square itself does.
pub open spec fn level_of(bytes: Seq<u8>) -> int {
    let count = bytes.len() as int / 2;
    let level = squares_of(bytes, count) * FULL_SCALE / (count * 1_073_676_289);
    if count == 0 || level < SILENCE_FLOOR_DBFS {
        SILENCE_FLOOR_DBFS as int
    } else {
        level
    }
}

/// Level of one window of little-endian 16-bit samples.
#[must_use]
pub fn window_level(bytes: &[u8]) -> (level: u64)
    ensures
        level == level_of(bytes@),
{
    let length: usize = bytes.len();
    let count: usize = length / 2;
    if count == 0 {
        return SILENCE_FLOOR_DBFS;
    }
    let mut squares: i128 = 0;
    for i in 0..count
        invariant
            2 * count <= length == bytes@.len(),
            squares == squares_of(bytes@, i as int),
            0 <= squares <= i * 1_073_741_824,
    {
        let raw: i128 = bytes[2 * i] as i128 + bytes[2 * i + 1] as i128 * 256;
        let sample: i128 = if raw >= 32_768 { raw - 65_536 } else { raw };
        assert(2 * (i + 1) - 2 == 2 * i);
        assert(0 <= sample * sample <= 1_073_741_824) by (nonlinear_arith)
            requires
                -32_768 <= sample <= 32_767,
        ;
        squares += sample * sample;
    }
    // Six digits at a time, so that no window is too long to be measured.
    let full: i128 = count as i128 * 1_073_676_289;
    let whole: i128 = squares / full;
    let rest: i128 = squares % full;
    let millions: i128 = rest * 1_000_000 / full;
    let left: i128 = rest * 1_000_000 % full;
    let ones: i128 = left * 1_000_000 / full;
    proof {
        lemma_fundamental_div_mod(squares as int, full as int);
        lemma_fundamental_div_mod(rest * 1_000_000, full as int);
        let digits = whole * 1_000_000_000_000 + millions * 1_000_000;
        assert(squares * 1_000_000_000_000 == digits * full + left * 1_000_000)
            by (nonlinear_arith)
            requires
                squares == full * whole + rest,
                rest * 1_000_000 == full * millions + left,
                digits == whole * 1_000_000_000_000 + millions * 1_000_000,
        ;
        lemma_fundamental_div_mod(left * 1_000_000, full as int);
        let last = left * 1_000_000 % full as int;
        assert(squares * 1_000_000_000_000 == (digits + ones) * full + last) by (nonlinear_arith)
            requires
                squares * 1_000_000_000_000 == digits * full + left * 1_000_000,
                left * 1_000_000 == full * ones + last,
        ;
        lemma_fundamental_div_mod_converse(
            squares * 1_000_000_000_000,
            full as int,
            digits + ones,
            last,
        );
        assert(0 <= whole <= 1 && 0 <= millions <= 1_000_000 && 0 <= ones <= 1_000_000)
            by (nonlinear_arith)
            requires
                squares == full * whole + rest,
                rest * 1_000_000 == full * millions + left,
                left * 1_000_000 == full * ones + last,
                0 <= last < full,
                0 <= rest < full,
                0 <= left < full,
                0 <= squares < 2 * full,
        ;
    }
    let level: i128 = whole * 1_000_000_000_000 + millions * 1_000_000 + ones;
    if level < 1 {
        SILENCE_FLOOR_DBFS
    } else {
        level as u64
    }
}

/// The runs of quiet windows, among the first `count`: each as its first
/// window and the one past its last.
pub open spec fn quiet_runs(levels: Seq<u64>, threshold: u64, count: int) -> Seq<(int, int)>
    decreases count,
{
    if count <= 0 {
        Seq::empty()
    } else {
        let before = quiet_runs(levels, threshold, count - 1);
        if levels[count - 1] >= threshold {
            before
        } else if count >= 2 && levels[count - 2] < threshold {
            before.drop_last().push((before.last().0, count))
        } else {
            before.push((count - 1, count))
        }
    }
}

/// The spans some runs cover, leaving out those shorter than the minimum.
pub open spec fn long_spans(runs: Seq<(int, int)>, window: i64, minimum: i64) -> Seq<(i64, i64)>
    decreases runs.len(),
{
    if runs.len() == 0 {
        Seq::empty()
    } else {
        let before = long_spans(runs.drop_last(), window, minimum);
        let (from, to) = (runs.last().0 * window, runs.last().1 * window);
        if to - from >= minimum {
            before.push((from as i64, to as i64))
        } else {
            before
        }
    }
}

/// Per-window loudness across a recording.
#[derive(Debug, Clone, PartialEq, Eq)]
pub struct RmsEnvelope {
    /// Duration each window covers, in microseconds.
    pub window_seconds: i64,
    /// Level of each window, never below [`SILENCE_FLOOR_DBFS`].
    pub windows: Vec<u64>,
}

impl RmsEnvelope {
    /// The envelope lies within the limit on moments.
    pub open spec fn wf(self) -> bool {
        self.window_seconds >= 0 && self.windows@.len() * self.window_seconds <= TIME_LIMIT
    }

    /// Total duration the envelope covers, in microseconds.
    #[must_use]
    pub fn duration_seconds(&self) -> (length: i64)
        requires
            self.wf(),
        ensures
            length == self.windows@.len() * self.window_seconds,
    {
        self.window_start(self.windows.len())
    }

    /// Start time of a window, in microseconds.
    #[must_use]
    pub fn window_start(&self, index: usize) -> (start: i64)
        requires
            self.wf(),
            index <= self.windows@.len(),
        ensures
            start == index * self.window_seconds,
            0 <= start <= TIME_LIMIT,
    {
        assert(0 <= index * self.window_seconds <= self.windows@.len() * self.window_seconds)
            by (nonlinear_arith)
            requires
                0 <= index <= self.windows@.len(),
                0 <= self.window_seconds,
        ;
        assert(self.window_seconds == 0 || index <= TIME_LIMIT) by (nonlinear_arith)
            requires
                index * self.window_seconds <= TIME_LIMIT,
                self.window_seconds >= 0,
                index >= 0,
        ;
        (index as i128 * self.window_seconds as i128) as i64
    }

    /// Level at a point in time, or `None` past the end.
    #[must_use]
    pub fn level_at(&self, at: i64) -> (level: Option<u64>)
        ensures
            level == (if at < 0 || self.window_seconds <= 0 || at / self.window_seconds
                >= self.windows@.len() {
                None
            } else {
                Some(self.windows@[at as int / self.window_seconds as int])
            }),
    {
        if at < 0 || self.window_seconds <= 0 {
            return None;
        }
        let index: u64 = at as u64 / self.window_seconds as u64;
        if index < self.windows.len() as u64 {
            Some(self.windows[index as usize])
        } else {
            None
        }
    }

    /// Runs of consecutive windows quieter than the threshold and lasting at
    /// least the minimum, returned as `(start, end)` in microseconds.
    ///
    /// Broadcast leaves a real gap between a programme and the commercial
    /// block that follows it; requiring a minimum duration is what separates
    /// that gap from an ordinary pause in dialogue.
    #[must_use]
    pub fn silent_spans(&self, threshold: u64, minimum: i64) -> (spans: Vec<(i64, i64)>)
        requires
            self.wf(),
        ensures
            spans@ == long_spans(
                quiet_runs(self.windows@, threshold, self.windows@.len() as int),
                self.window_seconds,
                minimum,
            ),
            spans@.len() <= self.windows@.len(),
            forall|i: int|
                0 <= i < spans@.len() ==> 0 <= (#[trigger] spans@[i]).0 <= TIME_LIMIT && 0
                    <= spans@[i].1 <= TIME_LIMIT,
    {
        let mut spans: Vec<(i64, i64)> = Vec::new();
        let mut run_start: Option<usize> = None;
        for index in 0..self.windows.len()
            invariant
                self.wf(),
                spans@.len() <= index,
                run_start is Some ==> spans@.len() < index,
                run_start matches Some(start) ==> start < index,
                run_start is Some == (index > 0 && self.windows@[index - 1] < threshold),
                forall|i: int|
                    0 <= i < spans@.len() ==> 0 <= (#[trigger] spans@[i]).0 <= TIME_LIMIT && 0
                        <= spans@[i].1 <= TIME_LIMIT,
                accounted(
                    quiet_runs(self.windows@, threshold, index as int),
                    spans@,
                    run_start,
                    index as int,
                    self.window_seconds,
                    minimum,
                ),
        {
            if self.windows[index] < threshold {
                if run_start.is_none() {
                    run_start = Some(index);
                    assert(quiet_runs(self.windows@, threshold, index + 1).drop_last()
                        =~= quiet_runs(self.windows@, threshold, index as int));
                } else {
                    assert(quiet_runs(self.windows@, threshold, index + 1).drop_last()
                        =~= quiet_runs(self.windows@, threshold, index as int).drop_last());
                }
            } else if let Some(start) = run_start {
                self.push_span(&mut spans, start, index, minimum);
                run_start = None;
            }
        }
        if let Some(start) = run_start {
            self.push_span(&mut spans, start, self.windows.len(), minimum);
        }
        spans
    }

    fn push_span(&self, spans: &mut Vec<(i64, i64)>, start: usize, end: usize, minimum: i64)
        requires
            self.wf(),
            start <= end <= self.windows@.len(),
        ensures
            final(spans)@ == (if end * self.window_seconds - start * self.window_seconds
                >= minimum {
                old(spans)@.push(
                    (
                        (start * self.window_seconds) as i64,
                        (end * self.window_seconds) as i64,
                    ),
                )
            } else {
                old(spans)@
            }),
            0 <= start * self.window_seconds <= TIME_LIMIT,
            0 <= end * self.window_seconds <= TIME_LIMIT,
    {
        let from: i64 = self.window_start(start);
        let to: i64 = self.window_start(end);
        if to - from >= minimum {
            spans.push((from, to));
        }
    }
}

/// The spans made so far, and the run still open, are the runs seen.
spec fn accounted(
    seen: Seq<(int, int)>,
    spans: Seq<(i64, i64)>,
    run_start: Option<usize>,
    index: int,
    window: i64,
    minimum: i64,
) -> bool {
    match run_start {
        None => spans == long_spans(seen, window, minimum),
        Some(start) => {
            &&& seen.len() > 0
            &&& seen.last() == (start as int, index)
            &&& spans == long_spans(seen.drop_last(), window, minimum)
        },
    }
}

/// How many samples a window holds: the nearest whole number, and at least
/// one.
pub open spec fn samples_in(window: i64) -> int {
    let samples = nearest(window * ENVELOPE_SAMPLE_RATE, 1_000_000);
    if samples < 1 { 1 } else { samples }
}

/// The levels of a stream of samples, window by window. A last window that is
/// cut short still counts if it holds a sample.
pub open spec fn levels_of(stream: Seq<u8>, size: int) -> Seq<u64>
    decreases stream.len(),
{
    if stream.len() < 2 || size < 2 {
        Seq::empty()
    } else if stream.len() <= size {
        seq![level_of(stream.take(stream.len() - stream.len() % 2)) as u64]
    } else {
        seq![level_of(stream.take(size)) as u64] + levels_of(stream.skip(size), size)
    }
}

/// Builds an envelope from samples as they arrive, whole windows at a time so
/// that no accumulator state has to be carried between reads.
#[derive(Debug)]
pub struct EnvelopeBuilder {
    window_seconds: i64,
    size: usize,
    windows: Vec<u64>,
}

impl EnvelopeBuilder {
    /// How long each window is.
    pub closed spec fn window(self) -> i64 {
        self.window_seconds
    }

    /// A window is a whole number of samples, and holds one.
    pub closed spec fn wf(self) -> bool {
        self.size >= 2 && self.size % 2 == 0
    }

    /// Bytes in a whole window.
    pub closed spec fn spec_size(self) -> int {
        self.size as int
    }

    /// The levels so far.
    pub closed spec fn levels(self) -> Seq<u64> {
        self.windows@
    }

    /// Start an envelope with windows of this length, the bytes of one of which
    /// must be possible to count.
    #[must_use]
    pub fn new(window_seconds: i64) -> (builder: EnvelopeBuilder)
        requires
            2 * samples_in(window_seconds) <= usize::MAX,
        ensures
            builder.window() == window_seconds,
            builder.spec_size() == 2 * samples_in(window_seconds),
            builder.levels() == Seq::<u64>::empty(),
            builder.wf(),
    {
        let samples: i128 = nearest_quotient(window_seconds as i128 * 8_000, 1_000_000);
        let size: usize = if samples < 1 { 2 } else { 2 * samples as usize };
        EnvelopeBuilder { window_seconds, size, windows: Vec::new() }
    }

    /// Bytes to gather before handing a window over.
    #[must_use]
    pub fn chunk_size(&self) -> (size: usize)
        ensures
            size == self.spec_size(),
    {
        self.size
    }

    /// Take the bytes of one window, or what was left at the end of the
    /// stream. Returns whether there may be more.
    pub fn accept(&mut self, chunk: &[u8]) -> (more: bool)
        requires
            old(self).wf(),
            chunk@.len() <= old(self).spec_size(),
        ensures
            final(self).wf(),
            final(self).window() == old(self).window(),
            final(self).spec_size() == old(self).spec_size(),
            final(self).levels() == (if chunk@.len() < 2 {
                old(self).levels()
            } else {
                old(self).levels().push(
                    level_of(chunk@.take(chunk@.len() - chunk@.len() % 2)) as u64,
                )
            }),
            more == (chunk@.len() >= 2 && chunk@.len() == old(self).spec_size()),
    {
        let filled: usize = chunk.len();
        if filled < 2 {
            return false;
        }
        let whole = vstd::slice::slice_subrange(chunk, 0, filled - filled % 2);
        assert(whole@ =~= chunk@.take(filled - filled % 2));
        self.windows.push(window_level(whole));
        filled == self.size
    }

    /// The envelope.
    #[must_use]
    pub fn finish(self) -> (envelope: RmsEnvelope)
        ensures
            envelope.window_seconds == self.window(),
            envelope.windows@ == self.levels(),
    {
        RmsEnvelope { window_seconds: self.window_seconds, windows: self.windows }
    }
}

/// Every sample is measured: there are as many windows as it takes to hold the
/// samples of the stream, and no level is below the floor.
pub proof fn every_sample_is_measured(stream: Seq<u8>, size: int)
    requires
        size >= 2,
        size % 2 == 0,
    ensures
        ({
            let samples = stream.len() as int / 2;
            let held = size / 2;
            &&& levels_of(stream, size).len() == (samples + held - 1) / held
            &&& forall|i: int|
                0 <= i < levels_of(stream, size).len() ==> #[trigger] levels_of(stream, size)[i]
                    >= SILENCE_FLOOR_DBFS
        }),
    decreases stream.len(),
{
    let samples = stream.len() as int / 2;
    let held = size / 2;
    if stream.len() < 2 {
        lemma_fundamental_div_mod_converse(samples + held - 1, held, 0, held - 1);
    } else if stream.len() <= size {
        level_is_small(stream.take(stream.len() - stream.len() % 2));
        lemma_fundamental_div_mod_converse(samples + held - 1, held, 1, samples - 1);
    } else {
        level_is_small(stream.take(size));
        let rest = stream.skip(size);
        every_sample_is_measured(rest, size);
        let more = rest.len() as int / 2;
        assert(more == samples - held);
        let before = (more + held - 1) / held;
        lemma_fundamental_div_mod(more + held - 1, held);
        assert((before + 1) * held == held * before + held) by (nonlinear_arith);
        lemma_fundamental_div_mod_converse(
            samples + held - 1,
            held,
            before + 1,
            (more + held - 1) % held,
        );
        let levels = levels_of(stream, size);
        assert forall|i: int| 0 <= i < levels.len() implies #[trigger] levels[i]
            >= SILENCE_FLOOR_DBFS by {
            if i > 0 {
                assert(levels[i] == levels_of(rest, size)[i - 1]);
            }
        }
    }
}

/// Digital silence is reported as the floor.
pub proof fn silence_is_the_floor(bytes: Seq<u8>)
    requires
        forall|i: int| 0 <= i < bytes.len() ==> bytes[i] == 0,
    ensures
        level_of(bytes) == SILENCE_FLOOR_DBFS,
{
    let count = bytes.len() as int / 2;
    zeros_have_no_power(bytes, count);
    if count > 0 {
        lemma_fundamental_div_mod_converse(0, count * 1_073_676_289, 0, 0);
    }
}

proof fn zeros_have_no_power(bytes: Seq<u8>, count: int)
    requires
        forall|i: int| 0 <= i < bytes.len() ==> bytes[i] == 0,
        2 * count <= bytes.len(),
    ensures
        squares_of(bytes, count) == 0,
    decreases count,
{
    if count > 0 {
        zeros_have_no_power(bytes, count - 1);
        let sample = sample_of(bytes[2 * count - 2], bytes[2 * count - 1]);
        assert(sample == 0);
        assert(sample * sample == 0);
    }
}

proof fn squares_are_small(bytes: Seq<u8>, count: int)
    requires
        0 <= count,
    ensures
        0 <= squares_of(bytes, count) <= count * 1_073_741_824,
    decreases count,
{
    if count > 0 {
        squares_are_small(bytes, count - 1);
        let sample = sample_of(bytes[2 * count - 2], bytes[2 * count - 1]);
        assert(0 <= sample * sample <= 1_073_741_824) by (nonlinear_arith)
            requires
                -32_768 <= sample <= 32_767,
        ;
    }
}

proof fn level_is_small(bytes: Seq<u8>)
    ensures
        SILENCE_FLOOR_DBFS <= level_of(bytes) <= 2_000_000_000_000,
{
    let count = bytes.len() as int / 2;
    if count > 0 {
        squares_are_small(bytes, count);
        let full = count * 1_073_676_289;
        let power = squares_of(bytes, count) * 1_000_000_000_000;
        lemma_fundamental_div_mod(power, full);
        let level = power / full;
        assert(0 <= level <= 2_000_000_000_000) by (nonlinear_arith)
            requires
                power == full * level + power % full,
                0 <= power % full < full,
                0 <= power <= 2_000_000_000_000 * full,
                full > 0,
        ;
    }
}

/// What feeding a stream through a builder comes to: the levels of the whole
/// stream are those of its first window followed by those of the rest, so the
/// windows do not depend on how the stream was read.
pub proof fn windows_follow_the_stream(first: Seq<u8>, rest: Seq<u8>, size: int)
    requires
        size >= 2,
        size % 2 == 0,
        first.len() == size,
    ensures
        levels_of(first + rest, size) == seq![level_of(first) as u64] + levels_of(rest, size),
{
    let stream = first + rest;
    if rest.len() == 0 {
        assert(stream =~= first);
        assert(first.take(size) =~= first);
        assert(levels_of(rest, size) =~= Seq::empty());
        assert(seq![level_of(first) as u64] + levels_of(rest, size) =~= seq![
            level_of(first) as u64,
        ]);
    } else {
        assert(stream.take(size) =~= first);
        assert(stream.skip(size) =~= rest);
    }
}

/// The arguments that have ffmpeg decode the first audio stream of a file to
/// mono samples on its standard output.
pub open spec fn envelope_arguments(input: Seq<char>) -> Seq<Seq<char>> {
    seq![
        "-fflags"@,
        "+discardcorrupt"@,
        "-i"@,
        input,
        "-map"@,
        "0:a:0"@,
        "-vn"@,
        "-sn"@,
        "-dn"@,
        "-ac"@,
        "1"@,
        "-ar"@,
        crate::text::decimal_digits(ENVELOPE_SAMPLE_RATE as nat),
        "-f"@,
        "s16le"@,
        "-"@,
    ]
}

/// The arguments that have ffmpeg decode the first audio stream of a file to
/// mono samples on its standard output.
#[must_use]
pub fn envelope_args(input: &str) -> (args: Vec<String>)
    ensures
        texts(args@) == envelope_arguments(input@),
{
    let mut args: Vec<String> = Vec::new();
    args.push(own("-fflags"));
    args.push(own("+discardcorrupt"));
    args.push(own("-i"));
    args.push(own(input));
    args.push(own("-map"));
    args.push(own("0:a:0"));
    args.push(own("-vn"));
    args.push(own("-sn"));
    args.push(own("-dn"));
    args.push(own("-ac"));
    args.push(own("1"));
    args.push(own("-ar"));
    args.push(decimal(ENVELOPE_SAMPLE_RATE as u64));
    args.push(own("-f"));
    args.push(own("s16le"));
    args.push(own("-"));
    assert(texts(args@) =~= envelope_arguments(input@));
    args
}

} // verus!
