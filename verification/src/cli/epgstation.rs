//! The `EPGStation` encoder contract.
//!
//! `EPGStation` runs an external encoder as a plain child process. It does not
//! hand over a config file or command-line arguments beyond what the operator
//! wrote in `config.yml`; everything about the recording arrives as
//! environment variables, and everything there is to report goes back as
//! newline-delimited JSON on stdout:
//!
//! ```text
//! {"type":"progress","percent":0.42,"log":"encoding"}
//! ```
//!
//! `percent` is a fraction, not a percentage: `EPGStation`'s client multiplies
//! by 100 before display. Exit code 0 means success; on anything else
//! `EPGStation` deletes the output file, which is the right behaviour and means
//! a failed job must not exit zero after writing a partial file.

use vstd::prelude::*;
use vstd::string::*;
use crate::server::db::optional;
use crate::server::db::said;
use crate::text::own;
use crate::text::same_text;
use crate::text::text_of;

verus! {

/// What `EPGStation` told us about the recording.
#[derive(Debug, Clone, PartialEq, Eq)]
pub struct Environment {
    /// Source recording. `EPGStation` substitutes this for `%INPUT%` too.
    pub input: Option<String>,
    /// Where the result must be written.
    pub output: Option<String>,
    /// Programme name.
    pub name: Option<String>,
    /// Channel id, which keys the logo store.
    pub channel_id: Option<String>,
    /// Channel name, used to label a newly learned logo.
    pub channel_name: Option<String>,
    /// Source height as `EPGStation` recorded it, e.g. `1080`.
    pub video_resolution: Option<String>,
    /// `EPGStation`'s own recorded-file id, for correlating logs.
    pub recorded_id: Option<String>,
}

impl Default for Environment {
    fn default() -> (environment: Environment)
        ensures
            environment == (Environment {
                input: None,
                output: None,
                name: None,
                channel_id: None,
                channel_name: None,
                video_resolution: None,
                recorded_id: None,
            }),
    {
        Environment {
            input: None,
            output: None,
            name: None,
            channel_id: None,
            channel_name: None,
            video_resolution: None,
            recorded_id: None,
        }
    }
}

/// What a variable is first set to.
pub open spec fn first_value(pairs: Seq<(String, String)>, key: Seq<char>) -> Option<Seq<char>>
    decreases pairs.len(),
{
    if pairs.len() == 0 {
        None
    } else if pairs[0].0@ == key {
        Some(pairs[0].1@)
    } else {
        first_value(pairs.skip(1), key)
    }
}

/// What a variable says. `EPGStation` sets every variable, using an empty
/// string for the ones it has no value for, so presence alone means nothing.
pub open spec fn variable(pairs: Seq<(String, String)>, key: Seq<char>) -> Option<Seq<char>> {
    said(first_value(pairs, key))
}

/// What the first of two variables says, or else the second.
pub open spec fn either(
    pairs: Seq<(String, String)>,
    key: Seq<char>,
    other: Seq<char>,
) -> Option<Seq<char>> {
    match variable(pairs, key) {
        Some(value) => Some(value),
        None => variable(pairs, other),
    }
}

fn value_of(pairs: &[(String, String)], key: &str) -> (value: Option<String>)
    ensures
        text_of(value) == variable(pairs@, key@),
{
    assert(pairs@.skip(0) =~= pairs@);
    for i in 0..pairs.len()
        invariant
            first_value(pairs@, key@) == first_value(pairs@.skip(i as int), key@),
    {
        assert(pairs@.skip(i as int)[0] == pairs@[i as int]);
        assert(pairs@.skip(i as int).skip(1) =~= pairs@.skip(i + 1));
        if same_text(pairs[i].0.as_str(), key) {
            return optional(Some(own(pairs[i].1.as_str())));
        }
    }
    assert(pairs@.skip(pairs@.len() as int) =~= Seq::empty());
    None
}

impl Environment {
    /// Build from the variables `EPGStation` sets.
    ///
    /// It supplies both a full-width and a half-width form of the names. The
    /// half-width one is the better filename and the better log line, so it
    /// wins when present.
    #[must_use]
    pub fn from_pairs(pairs: &[(String, String)]) -> (environment: Environment)
        ensures
            text_of(environment.input) == variable(pairs@, "INPUT"@),
            text_of(environment.output) == variable(pairs@, "OUTPUT"@),
            text_of(environment.name) == either(pairs@, "HALF_WIDTH_NAME"@, "NAME"@),
            text_of(environment.channel_id) == variable(pairs@, "CHANNELID"@),
            text_of(environment.channel_name) == either(
                pairs@,
                "HALF_WIDTH_CHANNELNAME"@,
                "CHANNELNAME"@,
            ),
            text_of(environment.video_resolution) == variable(pairs@, "VIDEORESOLUTION"@),
            text_of(environment.recorded_id) == variable(pairs@, "RECORDEDID"@),
    {
        let name = match value_of(pairs, "HALF_WIDTH_NAME") {
            Some(name) => Some(name),
            None => value_of(pairs, "NAME"),
        };
        let channel_name = match value_of(pairs, "HALF_WIDTH_CHANNELNAME") {
            Some(name) => Some(name),
            None => value_of(pairs, "CHANNELNAME"),
        };
        Environment {
            input: value_of(pairs, "INPUT"),
            output: value_of(pairs, "OUTPUT"),
            name,
            channel_id: value_of(pairs, "CHANNELID"),
            channel_name,
            video_resolution: value_of(pairs, "VIDEORESOLUTION"),
            recorded_id: value_of(pairs, "RECORDEDID"),
        }
    }
}

/// How far the bar moves, in millionths, for it to be seen to.
pub const VISIBLE_STEP: i64 = 5_000;

/// One progress line, as `EPGStation` is told it.
#[derive(Debug, Clone, PartialEq, Eq)]
pub struct ProgressLine {
    /// Completion, in millionths.
    pub percent: i64,
    /// A short status, shown beside the bar.
    pub log: String,
}

/// Decides which progress `EPGStation` is told of, at a rate it can keep up
/// with.
#[derive(Debug)]
pub struct ProgressReporter {
    last_reported: i64,
    last_message: String,
}

impl Default for ProgressReporter {
    fn default() -> (reporter: ProgressReporter)
        ensures
            reporter.reported() == -1_000_000,
            reporter.message() == ""@,
    {
        ProgressReporter::new()
    }
}

impl ProgressReporter {
    /// Where the bar stood when it was last told of.
    pub closed spec fn reported(self) -> int {
        self.last_reported as int
    }

    /// What was last told.
    pub closed spec fn message(self) -> Seq<char> {
        self.last_message@
    }

    /// A reporter that has not yet told anything.
    ///
    /// Its bar stands below zero so the first report always goes out.
    #[must_use]
    pub fn new() -> (reporter: ProgressReporter)
        ensures
            reporter.reported() == -1_000_000,
            reporter.message() == ""@,
    {
        ProgressReporter { last_reported: -1_000_000, last_message: own("") }
    }

    /// A report is worth writing: the bar has visibly moved or the message has
    /// changed.
    pub open spec fn is_news(self, fraction: i64, message: Seq<char>) -> bool {
        message != self.message() || fraction - self.reported() >= VISIBLE_STEP
    }

    /// Whether a report is worth writing.
    ///
    /// `EPGStation` parses every line and emits a UI event per progress
    /// update, so reporting each of a hundred thousand frames would cost more
    /// than the encode. A report goes out when the bar has visibly moved or
    /// the message has changed.
    #[must_use]
    pub fn should_report(&self, fraction: i64, message: &str) -> (yes: bool)
        ensures
            yes == self.is_news(fraction, message@),
    {
        !same_text(message, self.last_message.as_str()) || fraction as i128
            - self.last_reported as i128 >= VISIBLE_STEP as i128
    }

    /// The progress line to write, if it is worth writing.
    pub fn report(&mut self, fraction: i64, message: &str) -> (line: Option<ProgressLine>)
        ensures
            match line {
                Some(line) => {
                    &&& old(self).is_news(fraction, message@)
                    &&& line.percent == (if fraction < 0 {
                        0
                    } else if fraction > 1_000_000 {
                        1_000_000
                    } else {
                        fraction
                    })
                    &&& 0 <= line.percent <= 1_000_000
                    &&& 0 <= fraction <= 1_000_000 ==> line.percent == fraction
                    &&& line.log@ == message@
                    &&& final(self).reported() == fraction
                    &&& final(self).message() == message@
                },
                None => !old(self).is_news(fraction, message@) && *final(self) == *old(self),
            },
    {
        if !self.should_report(fraction, message) {
            return None;
        }
        self.last_reported = fraction;
        self.last_message = own(message);
        let percent: i64 = if fraction < 0 {
            0
        } else if fraction > 1_000_000 {
            1_000_000
        } else {
            fraction
        };
        Some(ProgressLine { percent, log: own(message) })
    }
}

/// The first report always goes out, as long as it is of any progress at all.
pub proof fn the_first_report_goes_out(reporter: ProgressReporter, fraction: i64, message: Seq<char>)
    requires
        reporter.reported() == -1_000_000,
        fraction >= 0,
    ensures
        reporter.is_news(fraction, message),
{
}

} // verus!
