//! What a scan of one rectangle found, whether or not it was usable.

use vstd::prelude::*;
use vstd::string::*;
use crate::analyze::logo::model::LogoData;
use crate::analyze::logo::model::LogoView;
use crate::analyze::logo::model::strong_count;
use crate::analyze::logo::model::total_alpha;
use crate::analyze::logo::scan::logo_view;
use crate::analyze::logo::scan::LogoScanner;
use crate::arith::nearest;
use crate::text::decimal_digits;
use crate::text::push_decimal;
use crate::text::push_three_places;
use crate::text::text_of;
use crate::text::three_places;

verus! {

/// What a scan of one rectangle found, whether or not it was usable.
///
/// The failure cases carry their measurements. "No logo could be fitted" on
/// its own tells an operator nothing they can act on: it cannot distinguish a
/// box in the wrong place from a box in the right place over material that
/// could never work, and those need opposite responses.
#[derive(Debug, Clone, PartialEq, Eq)]
pub struct ScanReport {
    /// Frames whose surroundings were flat enough to imply a background.
    pub frames_used: u32,
    /// Range of background brightnesses those frames covered, of 255.
    pub background_spread: u8,
    /// Mean opacity across the whole rectangle, in millionths.
    pub mean_alpha: i64,
    /// Pixels opaque enough to match against.
    pub strong_pixels: u64,
    /// The fit itself, even when it was rejected; seeing it is what tells an
    /// operator whether the box was aimed at the right thing.
    pub logo: Option<LogoData>,
}

/// Mean opacity of a logo.
pub open spec fn mean_opacity(logo: LogoView) -> int {
    if logo.a.len() == 0 {
        0
    } else {
        nearest(total_alpha(logo.a, logo.a.len() as int), logo.a.len() as int)
    }
}

impl ScanReport {
    /// What to tell an operator, in a sentence they can act on.
    pub open spec fn explanation(self) -> Seq<char> {
        if self.frames_used < 50 {
            "only "@ + decimal_digits(self.frames_used as nat)
                + " frames had a flat enough background to use. The box may be overlapping busy picture — try tightening it around the logo, or pick a recording with calmer material behind it."@
        } else if self.background_spread < 24 {
            "the background behind the box was always about the same brightness (a range of "@
                + decimal_digits(self.background_spread as nat) + " of 255 across "@
                + decimal_digits(self.frames_used as nat)
                + " frames). Separating a translucent logo from what is behind it means watching the background change underneath it, so try a recording with more variety behind the logo."@
        } else {
            "a fit was made from "@ + decimal_digits(self.frames_used as nat)
                + " frames, but only "@ + decimal_digits(self.strong_pixels as nat)
                + " pixels came out opaque enough to match against (mean opacity "@
                + three_places(self.mean_alpha as nat)
                + "). That usually means the box is not over the logo, or the logo is too faint to separate. Check the preview."@
        }
    }

    /// What to tell an operator, in a sentence they can act on.
    #[must_use]
    pub fn explain(&self) -> (text: String)
        requires
            self.mean_alpha >= 0,
        ensures
            text@ == self.explanation(),
    {
        let mut text = String::new();
        if self.frames_used < 50 {
            text.append("only ");
            push_decimal(&mut text, self.frames_used as u64);
            text.append(
                " frames had a flat enough background to use. The box may be overlapping busy picture — try tightening it around the logo, or pick a recording with calmer material behind it.",
            );
        } else if self.background_spread < 24 {
            text.append(
                "the background behind the box was always about the same brightness (a range of ",
            );
            push_decimal(&mut text, self.background_spread as u64);
            text.append(" of 255 across ");
            push_decimal(&mut text, self.frames_used as u64);
            text.append(
                " frames). Separating a translucent logo from what is behind it means watching the background change underneath it, so try a recording with more variety behind the logo.",
            );
        } else {
            text.append("a fit was made from ");
            push_decimal(&mut text, self.frames_used as u64);
            text.append(" frames, but only ");
            push_decimal(&mut text, self.strong_pixels);
            text.append(" pixels came out opaque enough to match against (mean opacity ");
            push_three_places(&mut text, self.mean_alpha as u64);
            text.append(
                "). That usually means the box is not over the logo, or the logo is too faint to separate. Check the preview.",
            );
        }
        assert(text@ =~= self.explanation());
        text
    }
}

/// Report on what a scanner gathered.
///
/// No plausibility bar: this exists to explain a failure, so it must produce
/// the rejected fit rather than hiding it.
pub fn scan_report(
    scanner: &LogoScanner,
    name: String,
    channel_id: Option<String>,
    frame_size: (u32, u32),
) -> (report: ScanReport)
    requires
        scanner@.wf(),
    ensures
        report.frames_used == scanner@.frames,
        report.background_spread == scanner@.spread(),
        logo_view(report.logo) == scanner@.learned(name@, text_of(channel_id), frame_size, false),
        match scanner@.learned(name@, text_of(channel_id), frame_size, false) {
            Some(logo) => report.mean_alpha == mean_opacity(logo) && report.strong_pixels
                == strong_count(logo.a, logo.a.len() as int),
            None => report.mean_alpha == 0 && report.strong_pixels == 0,
        },
        report.mean_alpha >= 0,
{
    let logo = scanner.finish_bootstrap(name, channel_id, frame_size);
    let (mean_alpha, strong_pixels): (i64, u64) = match &logo {
        Some(logo) => (logo.mean_alpha(), logo.strong_pixels()),
        None => (0, 0),
    };
    ScanReport {
        frames_used: scanner.frames_accepted(),
        background_spread: scanner.background_spread(),
        mean_alpha,
        strong_pixels,
        logo,
    }
}

} // verus!
