//! One frame of a recording, as a picture.
//!
//! The logo tool needs to show an operator what a recording looks like at a
//! given moment so they can point at the station logo. Frames come out as PNG
//! rather than JPEG so the logo edges the operator is aiming at are the ones
//! the scanner will see, not ones softened by chroma subsampling.

use vstd::prelude::*;
use vstd::string::*;
use crate::text::decimal_digits;
use crate::text::own;
use crate::text::push_decimal;
use crate::text::push_three_places;
use crate::text::texts;
use crate::text::three_places;

verus! {

/// The largest still the tool will render, in pixels across.
///
/// Broadcast is 1440 wide; anything larger would be upscaling, and anything
/// much smaller would make a small logo impossible to aim at.
pub const MAX_WIDTH: u32 = 1920;

/// The width a still is rendered at: what was asked for, within reason.
pub open spec fn still_width(width: u32) -> u32 {
    if width < 160 {
        160
    } else if width > MAX_WIDTH {
        MAX_WIDTH
    } else {
        width
    }
}

/// The filter that scales a still.
///
/// Japanese HD broadcast is 1440x1080 stored, displayed at 16:9, so the pixels
/// are not square. A browser has no idea about that, so the height is computed
/// from the *display* aspect rather than the stored one and the sample aspect
/// is reset to square.
pub open spec fn still_filter(width: u32) -> Seq<char> {
    "scale=w="@ + decimal_digits(width as nat) + ":h=trunc("@ + decimal_digits(width as nat)
        + "/dar/2)*2,setsar=1"@
}

/// Where to seek before the input. Doing so decodes only from the preceding
/// keyframe, which is what makes scrubbing feel immediate on a multi-gigabyte
/// recording.
pub open spec fn still_seek(at: i64) -> Seq<Seq<char>> {
    if at > 0 {
        seq!["-ss"@, three_places(at as nat)]
    } else {
        Seq::empty()
    }
}

/// The arguments that have ffmpeg write one frame of a file as a PNG on its
/// standard output.
pub open spec fn still_arguments(input: Seq<char>, at: i64, width: u32) -> Seq<Seq<char>> {
    still_seek(at) + seq![
        "-fflags"@,
        "+discardcorrupt"@,
        "-i"@,
        input,
        "-map"@,
        "0:v:0"@,
        "-an"@,
        "-sn"@,
        "-dn"@,
        "-frames:v"@,
        "1"@,
        "-vf"@,
        still_filter(still_width(width)),
        "-f"@,
        "image2"@,
        "-c:v"@,
        "png"@,
        "-"@,
    ]
}

/// The arguments that have ffmpeg write the frame at a moment as a PNG.
///
/// `width` scales the output, keeping the aspect ratio, and is clamped to
/// [`MAX_WIDTH`]: a width arriving over HTTP must not be able to ask for a
/// gigapixel encode, and must not be able to ask for zero either.
#[must_use]
pub fn still_args(input: &str, at: i64, width: u32) -> (args: Vec<String>)
    ensures
        texts(args@) == still_arguments(input@, at, width),
{
    let width: u32 = if width < 160 {
        160
    } else if width > MAX_WIDTH {
        MAX_WIDTH
    } else {
        width
    };
    let mut args: Vec<String> = Vec::new();
    if at > 0 {
        let mut moment = String::new();
        push_three_places(&mut moment, at as u64);
        assert(moment@ =~= three_places(at as nat));
        args.push(own("-ss"));
        args.push(moment);
    }
    assert(texts(args@) =~= still_seek(at));
    let mut filter = String::new();
    filter.append("scale=w=");
    push_decimal(&mut filter, width as u64);
    filter.append(":h=trunc(");
    push_decimal(&mut filter, width as u64);
    filter.append("/dar/2)*2,setsar=1");
    assert(filter@ =~= still_filter(width));
    args.push(own("-fflags"));
    args.push(own("+discardcorrupt"));
    args.push(own("-i"));
    args.push(own(input));
    args.push(own("-map"));
    args.push(own("0:v:0"));
    args.push(own("-an"));
    args.push(own("-sn"));
    args.push(own("-dn"));
    args.push(own("-frames:v"));
    args.push(own("1"));
    args.push(own("-vf"));
    args.push(filter);
    args.push(own("-f"));
    args.push(own("image2"));
    args.push(own("-c:v"));
    args.push(own("png"));
    args.push(own("-"));
    assert(texts(args@) =~= still_arguments(input@, at, width));
    args
}

} // verus!
