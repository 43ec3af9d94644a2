//! Reading what ffmpeg says as it runs.

use vstd::prelude::*;
use vstd::string::*;
use crate::text::chars_of;
use crate::text::decimal_in;
use crate::text::find_char;
use crate::text::join;
use crate::text::joined;
use crate::text::parse_decimal;
use crate::text::parse_signed;
use crate::text::parse_unsigned;
use crate::text::part;
use crate::text::same;
use crate::text::signed_in;
use crate::text::split_at_first;
use crate::text::texts;
use crate::text::trim;
use crate::text::trimmed;
use crate::text::unsigned_in;

verus! {

/// How many stderr lines to keep for diagnosing a failure.
///
/// ffmpeg puts the actual cause near the end of its output, so the tail is
/// what matters; keeping the whole thing would mean holding megabytes of
/// per-frame warnings for a recording with heavy packet loss.
pub const STDERR_TAIL_LINES: usize = 40;

/// The last few lines of a child's stderr.
#[derive(Debug)]
pub struct StderrTail {
    lines: Vec<String>,
}

/// The last of some lines.
pub open spec fn tail_of(lines: Seq<Seq<char>>) -> Seq<Seq<char>> {
    if lines.len() <= STDERR_TAIL_LINES {
        lines
    } else {
        lines.skip(lines.len() - STDERR_TAIL_LINES)
    }
}

impl StderrTail {
    /// The lines retained.
    pub closed spec fn kept(self) -> Seq<Seq<char>> {
        texts(self.lines@)
    }

    /// No more lines are retained than there is room for.
    pub open spec fn wf(self) -> bool {
        self.kept().len() <= STDERR_TAIL_LINES
    }

    /// A tail with nothing in it yet.
    #[must_use]
    pub fn new() -> (tail: StderrTail)
        ensures
            tail.kept() == Seq::<Seq<char>>::empty(),
            tail.wf(),
    {
        let tail = StderrTail { lines: Vec::new() };
        assert(tail.kept() =~= Seq::empty());
        tail
    }

    /// Take another line, dropping the oldest when full.
    pub fn push(&mut self, line: String)
        requires
            old(self).wf(),
        ensures
            final(self).kept() == tail_of(old(self).kept().push(line@)),
            final(self).wf(),
    {
        let ghost before = self.lines@;
        if self.lines.len() == STDERR_TAIL_LINES {
            let _ = self.lines.remove(0);
        }
        self.lines.push(line);
        assert(self.kept() =~= tail_of(texts(before).push(line@)));
    }

    /// The retained lines, joined, for use in an error.
    #[must_use]
    pub fn text(&self) -> (text: String)
        ensures
            text@ == joined(self.kept(), "\n"@),
    {
        join(&self.lines, "\n")
    }
}

/// Taking lines one at a time keeps the last few of all of them.
pub proof fn the_tail_is_of_everything(lines: Seq<Seq<char>>, next: Seq<char>)
    ensures
        tail_of(tail_of(lines).push(next)) == tail_of(lines.push(next)),
{
    assert(tail_of(tail_of(lines).push(next)) =~= tail_of(lines.push(next)));
}

/// One progress report parsed from ffmpeg's `-progress` output.
#[derive(Debug, Clone, Copy, PartialEq, Eq, Structural)]
pub struct Progress {
    /// Output position reached, in microseconds.
    pub out_time_seconds: i64,
    /// Frames written so far.
    pub frame: u64,
    /// Encoding rate relative to real time, in millionths, when ffmpeg reports
    /// it.
    pub speed: Option<i64>,
    /// Frames per second, in millionths, when ffmpeg reports it.
    pub fps: Option<i64>,
}

impl Default for Progress {
    fn default() -> (progress: Progress)
        ensures
            progress == (Progress { out_time_seconds: 0, frame: 0, speed: None, fps: None }),
    {
        Progress { out_time_seconds: 0, frame: 0, speed: None, fps: None }
    }
}

/// A value without the letters `x` at its end.
pub open spec fn without_x(s: Seq<char>) -> Seq<char>
    decreases s.len(),
{
    if s.len() > 0 && s.last() == 'x' {
        without_x(s.drop_last())
    } else {
        s
    }
}

fn strip_x(chars: &Vec<char>) -> (kept: Vec<char>)
    ensures
        kept@ == without_x(chars@),
{
    let mut to: usize = chars.len();
    assert(chars@.take(to as int) =~= chars@);
    while to > 0 && chars[to - 1] == 'x'
        invariant
            to <= chars@.len(),
            without_x(chars@) == without_x(chars@.take(to as int)),
        decreases to,
    {
        assert(chars@.take(to as int).drop_last() =~= chars@.take(to - 1));
        to -= 1;
    }
    let kept = part(chars, 0, to);
    assert(kept@ =~= chars@.take(to as int));
    kept
}

/// A decimal that may be missing.
pub open spec fn rate_of(s: Seq<char>) -> Option<i64> {
    match decimal_in(s) {
        Some(n) => Some(n as i64),
        None => None,
    }
}

impl Progress {
    /// The report after one `key=value` line. Despite its name, ffmpeg reports
    /// `out_time_ms` in microseconds; a number that cannot be read leaves the
    /// position or the frame count where it was.
    pub open spec fn after(self, key: Seq<char>, value: Seq<char>) -> Progress {
        if key == "out_time_us"@ || key == "out_time_ms"@ {
            match signed_in(value) {
                Some(micros) => Progress { out_time_seconds: micros as i64, ..self },
                None => self,
            }
        } else if key == "frame"@ {
            match unsigned_in(value, u64::MAX as nat) {
                Some(frame) => Progress { frame: frame as u64, ..self },
                None => self,
            }
        } else if key == "fps"@ {
            Progress { fps: rate_of(value), ..self }
        } else if key == "speed"@ {
            Progress { speed: rate_of(without_x(value)), ..self }
        } else {
            self
        }
    }

    /// What one line of output does: the report it leaves, and whether that
    /// is complete. `progress` ends each block, so that is where a
    /// self-consistent snapshot is ready.
    pub open spec fn after_line(self, line: Seq<char>) -> (Progress, bool) {
        match split_at_first(line, '=') {
            None => (self, false),
            Some((key, value)) => (
                self.after(trimmed(key), trimmed(value)),
                trimmed(key) == "progress"@,
            ),
        }
    }

    /// Take one line of `-progress` output. Returns whether the report is
    /// complete.
    pub fn read_line(&mut self, line: &str) -> (complete: bool)
        ensures
            (*final(self), complete) == old(self).after_line(line@),
    {
        let chars = chars_of(line);
        let at: usize = find_char(&chars, '=');
        if at >= chars.len() {
            return false;
        }
        let key = trim(&part(&chars, 0, at));
        let value = trim(&part(&chars, at + 1, chars.len()));
        assert(chars@.subrange(0, at as int) =~= line@.take(at as int));
        assert(chars@.subrange(at + 1, chars@.len() as int) =~= line@.skip(at + 1));
        if same(&key, &chars_of("out_time_us")) || same(&key, &chars_of("out_time_ms")) {
            if let Some(micros) = parse_signed(&value) {
                self.out_time_seconds = micros;
            }
        } else if same(&key, &chars_of("frame")) {
            if let Some(frame) = parse_unsigned(&value, u64::MAX) {
                self.frame = frame;
            }
        } else if same(&key, &chars_of("fps")) {
            self.fps = parse_decimal(&value);
        } else if same(&key, &chars_of("speed")) {
            self.speed = parse_decimal(&strip_x(&value));
        }
        same(&key, &chars_of("progress"))
    }
}

} // verus!
