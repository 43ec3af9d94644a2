//! Profiles, the logo store, and the job pipeline.
//!
//! This is where analysis and segmentation are turned into something that
//! produces a file. It owns the decisions an operator can reasonably change
//! (which encoder, what quality, what container) and fixes the ones they
//! cannot, because getting those wrong yields broken output rather than
//! differently-shaped output.

pub mod channels;
pub mod chapters;
pub mod diagnostics;
pub mod encode;
pub mod naming;
pub mod parts;
pub mod pipeline;
pub mod profile;
pub mod rules;
pub mod store;
pub mod timeline;
pub mod told;
pub mod wording;
pub mod written;

use vstd::prelude::*;
use vstd::string::*;
use crate::text::decimal_digits;
use crate::text::push_decimal;

verus! {

/// Errors from the pipeline.
#[derive(Debug, PartialEq, Eq)]
pub enum Error {
    /// ffmpeg failed.
    Media(crate::media::Error),
    /// The ffmpeg build cannot run the requested profile.
    UnsupportedProfile {
        /// The profile that was asked for.
        profile: String,
        /// The encoder it needs.
        encoder: String,
    },
    /// Commercial detection was not confident and the policy is to fail.
    LowConfidence {
        /// What the segmenter reported.
        reason: String,
    },
    /// The channel's logo is not known, and the policy is to wait for it.
    NeedsLogo,
    /// The source is too damaged to be worth transcoding.
    DamagedSource {
        /// Packets that were still scrambled.
        scrambled: u64,
        /// Packets read in total.
        total: u64,
    },
}

/// How many percent of some packets these are.
pub open spec fn percent_of(part: u64, total: u64) -> nat {
    let hundredfold: int = if part * 100 > u64::MAX { u64::MAX as int } else { part * 100 };
    (hundredfold / if total == 0 { 1int } else { total as int }) as nat
}

impl Error {
    /// What to tell somebody reading a log.
    pub open spec fn spec_message(self) -> Seq<char> {
        match self {
            Error::Media(_) => "media error"@,
            Error::UnsupportedProfile { profile, encoder } => {
                "profile '"@ + profile@ + "' needs the "@ + encoder@
                    + " encoder, which this ffmpeg does not have"@
            },
            Error::LowConfidence { reason } => {
                "commercial detection was not confident enough: "@ + reason@
            },
            Error::NeedsLogo => {
                "this channel's logo is not known yet, so its commercials cannot be found"@
            },
            Error::DamagedSource { scrambled, total } => {
                "the recording is "@ + decimal_digits(percent_of(scrambled, total))
                    + "% scrambled, so decryption failed and transcoding it would only produce an unwatchable file"@
            },
        }
    }

    /// What to tell somebody reading a log.
    #[must_use]
    pub fn message(&self) -> (text: String)
        ensures
            text@ == self.spec_message(),
    {
        let mut text = String::new();
        match self {
            Error::Media(_) => {
                text.append("media error");
            },
            Error::UnsupportedProfile { profile, encoder } => {
                text.append("profile '");
                text.append(profile.as_str());
                text.append("' needs the ");
                text.append(encoder.as_str());
                text.append(" encoder, which this ffmpeg does not have");
            },
            Error::LowConfidence { reason } => {
                text.append("commercial detection was not confident enough: ");
                text.append(reason.as_str());
            },
            Error::NeedsLogo => {
                text.append(
                    "this channel's logo is not known yet, so its commercials cannot be found",
                );
            },
            Error::DamagedSource { scrambled, total } => {
                text.append("the recording is ");
                let wide: u128 = *scrambled as u128 * 100;
                let hundredfold: u64 = if wide > u64::MAX as u128 {
                    u64::MAX
                } else {
                    wide as u64
                };
                push_decimal(&mut text, hundredfold / if *total == 0 { 1 } else { *total });
                text.append(
                    "% scrambled, so decryption failed and transcoding it would only produce an unwatchable file",
                );
            },
        }
        assert(text@ =~= self.spec_message());
        text
    }
}

} // verus!
