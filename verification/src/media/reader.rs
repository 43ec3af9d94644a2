//! What to ask ffmpeg for when frames are wanted.

use vstd::prelude::*;
use vstd::string::*;
use crate::analyze::TIME_LIMIT;
use crate::media::frames::FrameSpacing;
use crate::media::probe::VideoStream;
use crate::media::probe::VideoView;
use crate::media::Error;
use crate::text::decimal_digits;
use crate::text::join;
use crate::text::joined;
use crate::text::own;
use crate::text::push_decimal;
use crate::text::push_six_places;
use crate::text::six_places;
use crate::text::texts;

verus! {

/// How the analysis pass should decode.
#[derive(Debug)]
pub struct FrameReaderOptions {
    /// Scale frames to this size before returning them.
    ///
    /// Logo work needs source resolution; scene detection does not. Leaving
    /// this unset and downscaling here keeps both to a single decode.
    pub scale: Option<(u32, u32)>,
    /// Deinterlace before returning frames.
    ///
    /// Broadcast 1080i comb artefacts look like motion to a scene-change
    /// detector, so this is on for any interlaced source.
    pub deinterlace: bool,
    /// Return only every *n*-th frame.
    ///
    /// Logo *learning* converges long before it has seen every frame of a
    /// half-hour programme, so it decimates; detection never does, because it
    /// needs the exact frame a logo appears on.
    pub select_every: u32,
    /// Start this many microseconds into the recording.
    pub start_seconds: Option<i64>,
    /// Stop after this many microseconds of the recording.
    pub duration_seconds: Option<i64>,
    /// Hardware decoder to request, e.g. `cuda`.
    ///
    /// Frames still come back over the pipe in system memory, so this trades
    /// GPU decode for a download per frame; it wins on H.264 and loses on
    /// MPEG-2, which is why it is off by default.
    pub hwaccel: Option<String>,
}

impl Default for FrameReaderOptions {
    fn default() -> (options: FrameReaderOptions)
        ensures
            options == (FrameReaderOptions {
                scale: None,
                deinterlace: false,
                select_every: 0,
                start_seconds: None,
                duration_seconds: None,
                hwaccel: None,
            }),
    {
        FrameReaderOptions {
            scale: None,
            deinterlace: false,
            select_every: 0,
            start_seconds: None,
            duration_seconds: None,
            hwaccel: None,
        }
    }
}

/// The stages of the filter chain, in order: deinterlace, decimate, scale, and
/// then nothing but luma.
pub open spec fn filter_stages(options: FrameReaderOptions, step: u32) -> Seq<Seq<char>> {
    (if options.deinterlace {
        seq!["bwdif=mode=send_frame:parity=auto:deint=all"@]
    } else {
        Seq::empty()
    }) + (if step > 1 {
        seq!["select='not(mod(n\\,"@ + decimal_digits(step as nat) + "))'"@]
    } else {
        Seq::empty()
    }) + (match options.scale {
        Some((width, height)) => seq![
            "scale="@ + decimal_digits(width as nat) + ":"@ + decimal_digits(height as nat)
                + ":flags=bilinear"@,
        ],
        None => Seq::empty(),
    }) + seq!["format=gray"@]
}

/// Assemble the `-vf` chain for the requested options.
#[must_use]
pub fn build_filter(options: &FrameReaderOptions, step: u32) -> (chain: String)
    ensures
        chain@ == joined(filter_stages(*options, step), ","@),
{
    let mut filters: Vec<String> = Vec::new();
    if options.deinterlace {
        // bwdif is yadif's successor and noticeably kinder to the fine detail
        // a logo is made of.
        filters.push(own("bwdif=mode=send_frame:parity=auto:deint=all"));
    }
    if step > 1 {
        let mut select = String::new();
        select.append("select='not(mod(n\\,");
        push_decimal(&mut select, step as u64);
        select.append("))'");
        assert(select@ =~= "select='not(mod(n\\,"@ + decimal_digits(step as nat) + "))'"@);
        filters.push(select);
    }
    if let Some((width, height)) = options.scale {
        let mut scale = String::new();
        scale.append("scale=");
        push_decimal(&mut scale, width as u64);
        scale.append(":");
        push_decimal(&mut scale, height as u64);
        scale.append(":flags=bilinear");
        assert(scale@ =~= "scale="@ + decimal_digits(width as nat) + ":"@ + decimal_digits(
            height as nat,
        ) + ":flags=bilinear"@);
        filters.push(scale);
    }
    filters.push(own("format=gray"));
    assert(texts(filters@) =~= filter_stages(*options, step));
    join(&filters, ",")
}

/// A positive moment as an option and its value.
pub open spec fn timed(flag: Seq<char>, moment: Option<i64>) -> Seq<Seq<char>> {
    match moment {
        Some(moment) => if moment > 0 {
            seq![flag, six_places(moment as nat)]
        } else {
            Seq::empty()
        },
        None => Seq::empty(),
    }
}

/// How many frames to step by.
pub open spec fn step_of(options: FrameReaderOptions) -> u32 {
    if options.select_every > 1 { options.select_every } else { 1 }
}

/// The arguments that have ffmpeg write the luma of every wanted frame to its
/// standard output.
///
/// Seeking before the input is the fast path. Corrupt packets are normal in
/// terrestrial recordings; dropping them beats aborting the analysis of an
/// otherwise fine programme. With no decimation, pinning to a constant rate
/// makes index-to-timestamp exact even when the source's own timestamps
/// stutter; with decimation the frames must pass through untouched, or ffmpeg
/// would helpfully duplicate them back up to the original rate.
pub open spec fn reader_arguments(
    input: Seq<char>,
    options: FrameReaderOptions,
) -> Seq<Seq<char>> {
    let step = step_of(options);
    timed("-ss"@, options.start_seconds) + (match options.hwaccel {
        Some(hwaccel) => seq!["-hwaccel"@, hwaccel@],
        None => Seq::empty(),
    }) + seq!["-fflags"@, "+discardcorrupt"@, "-i"@, input] + timed(
        "-t"@,
        options.duration_seconds,
    ) + seq![
        "-map"@,
        "0:v:0"@,
        "-an"@,
        "-sn"@,
        "-dn"@,
        "-vf"@,
        joined(filter_stages(options, step), ","@),
        "-fps_mode"@,
        if step > 1 { "passthrough"@ } else { "cfr"@ },
        "-f"@,
        "rawvideo"@,
        "-pix_fmt"@,
        "gray"@,
        "-"@,
    ]
}

/// Everything a reader needs once it has been decided what to read.
#[derive(Debug)]
pub struct FrameReader {
    /// What to tell ffmpeg.
    pub args: Vec<String>,
    /// Width of the frames that come back.
    pub width: u32,
    /// Height of the frames that come back.
    pub height: u32,
    /// How far apart they are, accounting for decimation.
    pub spacing: FrameSpacing,
    /// Where in the recording the first of them lies, in microseconds.
    pub start_offset: i64,
}

/// The size frames come back at.
pub open spec fn reader_size(video: VideoView, options: FrameReaderOptions) -> (u32, u32) {
    match options.scale {
        Some(size) => size,
        None => (video.width, video.height),
    }
}

fn push_timed(args: &mut Vec<String>, flag: &str, moment: Option<i64>)
    ensures
        texts(final(args)@) == texts(old(args)@) + timed(flag@, moment),
{
    if let Some(moment) = moment {
        if moment > 0 {
            let mut text = String::new();
            push_six_places(&mut text, moment as u64);
            assert(text@ =~= six_places(moment as nat));
            args.push(own(flag));
            args.push(text);
        }
    }
    assert(texts(args@) =~= texts(old(args)@) + timed(flag@, moment));
}

impl FrameReader {
    /// Decide what to ask ffmpeg for. A file with no video, or whose video has
    /// no size, cannot be read.
    pub fn open(
        input: &str,
        video: Option<&VideoStream>,
        options: &FrameReaderOptions,
    ) -> (result: Result<FrameReader, Error>)
        requires
            options.select_every <= 4_096,
        ensures
            match video {
                Some(video) => {
                    let size = reader_size(video@, *options);
                    if size.0 == 0 || size.1 == 0 {
                        result matches Err(Error::NoVideoStream { path }) && path@ == input@
                    } else {
                        result matches Ok(reader) && {
                            &&& texts(reader.args@) == reader_arguments(input@, *options)
                            &&& reader.width == size.0
                            &&& reader.height == size.1
                            &&& reader.spacing == video@.spacing(step_of(*options))
                            &&& reader.spacing.wf()
                            &&& reader.start_offset == (match options.start_seconds {
                                Some(start) => start,
                                None => 0,
                            })
                        }
                    }
                },
                None => result matches Err(Error::NoVideoStream { path }) && path@ == input@,
            },
    {
        let video = match video {
            Some(video) => video,
            None => {
                return Err(Error::NoVideoStream { path: own(input) });
            },
        };
        let step: u32 = if options.select_every > 1 { options.select_every } else { 1 };
        let (width, height): (u32, u32) = match options.scale {
            Some(size) => size,
            None => (video.width, video.height),
        };
        if width == 0 || height == 0 {
            return Err(Error::NoVideoStream { path: own(input) });
        }
        let mut args: Vec<String> = Vec::new();
        push_timed(&mut args, "-ss", options.start_seconds);
        if let Some(hwaccel) = &options.hwaccel {
            args.push(own("-hwaccel"));
            args.push(own(hwaccel.as_str()));
        }
        args.push(own("-fflags"));
        args.push(own("+discardcorrupt"));
        args.push(own("-i"));
        args.push(own(input));
        assert(texts(args@) =~= timed("-ss"@, options.start_seconds) + (match options.hwaccel {
            Some(hwaccel) => seq!["-hwaccel"@, hwaccel@],
            None => Seq::empty(),
        }) + seq!["-fflags"@, "+discardcorrupt"@, "-i"@, input@]);
        push_timed(&mut args, "-t", options.duration_seconds);
        args.push(own("-map"));
        args.push(own("0:v:0"));
        args.push(own("-an"));
        args.push(own("-sn"));
        args.push(own("-dn"));
        args.push(own("-vf"));
        args.push(build_filter(options, step));
        args.push(own("-fps_mode"));
        args.push(own(if step > 1 { "passthrough" } else { "cfr" }));
        args.push(own("-f"));
        args.push(own("rawvideo"));
        args.push(own("-pix_fmt"));
        args.push(own("gray"));
        args.push(own("-"));
        assert(texts(args@) =~= reader_arguments(input@, *options));
        Ok(
            FrameReader {
                args,
                width,
                height,
                spacing: video.spacing(step),
                start_offset: match options.start_seconds {
                    Some(start) => start,
                    None => 0,
                },
            },
        )
    }

    /// Width of the frames this reader returns.
    #[must_use]
    pub fn width(&self) -> (width: u32)
        ensures
            width == self.width,
    {
        self.width
    }

    /// Height of the frames this reader returns.
    #[must_use]
    pub fn height(&self) -> (height: u32)
        ensures
            height == self.height,
    {
        self.height
    }

    /// How far apart consecutive returned frames are.
    #[must_use]
    pub fn seconds_per_frame(&self) -> (spacing: FrameSpacing)
        ensures
            spacing == self.spacing,
    {
        self.spacing
    }

    /// Where in the recording a frame lies, in microseconds.
    #[must_use]
    pub fn timestamp(&self, index: u64) -> (at: i64)
        requires
            self.spacing.reaches(index as int),
            0 <= self.start_offset <= TIME_LIMIT,
        ensures
            at == self.start_offset + self.spacing.moment(index as int),
    {
        self.start_offset + self.spacing.time_of(index)
    }
}

} // verus!
