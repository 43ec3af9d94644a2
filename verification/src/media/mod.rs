//! Talking to ffmpeg: what to ask it for, and what to make of the answers.
//!
//! Nothing here links libav. `ffmpeg` and `ffprobe` are run as programs and
//! talked to over pipes, which costs a little throughput and buys three things
//! worth more: it works against whatever ffmpeg the host image ships, the
//! build has no C toolchain dependency, and a decoder that segfaults on a
//! corrupt recording takes down a child process rather than the job server.

pub mod audio;
pub mod encode;
pub mod ffmpeg;
pub mod frames;
pub mod measured;
pub mod probe;
pub mod reader;
pub mod run;
pub mod still;
pub mod understood;

use vstd::prelude::*;
use vstd::string::*;
use crate::text::decimal_digits;
use crate::text::push_decimal;
use crate::text::push_signed;
use crate::text::signed_digits;

verus! {

/// Errors from driving ffmpeg.
#[derive(Debug, PartialEq, Eq)]
pub enum Error {
    /// An ffmpeg or ffprobe binary could not be executed.
    FfmpegMissing {
        /// The path that could not be executed.
        path: String,
    },
    /// The binary ran but its version banner could not be understood.
    FfmpegUnreadableVersion {
        /// The binary whose banner was unreadable.
        path: String,
    },
    /// The installed ffmpeg predates a feature that is depended on.
    FfmpegTooOld {
        /// Version that was found.
        found: (u32, u32),
        /// Minimum version accepted.
        required: (u32, u32),
    },
    /// A child process could not be started.
    Spawn {
        /// The program that could not be started.
        program: String,
    },
    /// A child process exited with a non-zero status.
    Failed {
        /// The program that failed.
        program: String,
        /// Exit status, absent when the process was killed by a signal.
        code: Option<i32>,
        /// The tail of the process's stderr.
        stderr: String,
    },
    /// A pipe to or from a child process failed.
    Io,
    /// ffprobe's JSON output could not be parsed.
    ProbeParse {
        /// The file that was probed.
        path: String,
    },
    /// The file has no video stream to analyse.
    NoVideoStream {
        /// The file that was opened.
        path: String,
    },
}

impl Error {
    /// What to tell somebody reading a log.
    pub open spec fn spec_message(self) -> Seq<char> {
        match self {
            Error::FfmpegMissing { path } => {
                "cannot run "@ + path@ + "; is ffmpeg installed and on PATH?"@
            },
            Error::FfmpegUnreadableVersion { path } => {
                "cannot determine the version of "@ + path@
            },
            Error::FfmpegTooOld { found, required } => {
                "ffmpeg "@ + decimal_digits(found.0 as nat) + "."@ + decimal_digits(found.1 as nat)
                    + " is too old; "@ + decimal_digits(required.0 as nat) + "."@ + decimal_digits(
                    required.1 as nat,
                ) + " or newer is required for -fps_mode"@
            },
            Error::Spawn { program } => "failed to start "@ + program@,
            Error::Failed { program, code, stderr } => {
                program@ + " exited with "@ + (match code {
                    Some(code) => "status "@ + signed_digits(code as int),
                    None => "a signal"@,
                }) + "\n"@ + stderr@
            },
            Error::Io => "i/o error while talking to ffmpeg"@,
            Error::ProbeParse { path } => "cannot interpret ffprobe output for "@ + path@,
            Error::NoVideoStream { path } => path@ + " has no video stream"@,
        }
    }

    /// What to tell somebody reading a log.
    #[must_use]
    pub fn message(&self) -> (text: String)
        ensures
            text@ == self.spec_message(),
    {
        let mut text = String::new();
        match self {
            Error::FfmpegMissing { path } => {
                text.append("cannot run ");
                text.append(path.as_str());
                text.append("; is ffmpeg installed and on PATH?");
            },
            Error::FfmpegUnreadableVersion { path } => {
                text.append("cannot determine the version of ");
                text.append(path.as_str());
            },
            Error::FfmpegTooOld { found, required } => {
                text.append("ffmpeg ");
                push_decimal(&mut text, found.0 as u64);
                text.append(".");
                push_decimal(&mut text, found.1 as u64);
                text.append(" is too old; ");
                push_decimal(&mut text, required.0 as u64);
                text.append(".");
                push_decimal(&mut text, required.1 as u64);
                text.append(" or newer is required for -fps_mode");
            },
            Error::Spawn { program } => {
                text.append("failed to start ");
                text.append(program.as_str());
            },
            Error::Failed { program, code, stderr } => {
                text.append(program.as_str());
                text.append(" exited with ");
                match code {
                    Some(code) => {
                        text.append("status ");
                        push_signed(&mut text, *code as i64);
                    },
                    None => {
                        text.append("a signal");
                    },
                }
                text.append("\n");
                text.append(stderr.as_str());
            },
            Error::Io => {
                text.append("i/o error while talking to ffmpeg");
            },
            Error::ProbeParse { path } => {
                text.append("cannot interpret ffprobe output for ");
                text.append(path.as_str());
            },
            Error::NoVideoStream { path } => {
                text.append(path.as_str());
                text.append(" has no video stream");
            },
        }
        assert(text@ =~= self.spec_message());
        text
    }
}

} // verus!
