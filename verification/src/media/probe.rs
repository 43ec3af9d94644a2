//! Interpreting what `ffprobe` says of a file.
//!
//! The analysis and encode passes need to agree with ffmpeg about *ffmpeg's*
//! view of the file: which stream index it will select, what pixel format it
//! will hand back, what frame rate it will impose. Disagreeing with the decoder
//! about any of those misplaces every cut point.

use vstd::prelude::*;
use vstd::string::*;
use crate::arith::nearest;
use crate::arith::nearest_quotient;
use crate::media::frames::FrameSpacing;
use crate::text::chars_of;
use crate::text::decimal_in;
use crate::text::find_char;
use crate::text::own;
use crate::text::parse_decimal;
use crate::text::parse_unsigned;
use crate::text::part;
use crate::text::same;
use crate::text::split_at_first;
use crate::text::text_of;
use crate::text::texts;
use crate::text::unsigned_in;

verus! {

/// One stream, as ffprobe describes it.
#[derive(Debug, Clone, PartialEq, Eq)]
pub struct RawStream {
    /// Stream index within the file.
    pub index: u32,
    /// `video`, `audio` or something else.
    pub codec_type: Option<String>,
    /// Codec short name.
    pub codec_name: Option<String>,
    /// Width in pixels.
    pub width: Option<u32>,
    /// Height in pixels.
    pub height: Option<u32>,
    /// Frame rate averaged over the file, as a fraction.
    pub avg_frame_rate: Option<String>,
    /// The container's nominal frame rate, as a fraction.
    pub r_frame_rate: Option<String>,
    /// Pixel format.
    pub pix_fmt: Option<String>,
    /// Order of the fields of an interlaced picture.
    pub field_order: Option<String>,
    /// Channel count.
    pub channels: Option<u32>,
    /// Sample rate in Hz, as text.
    pub sample_rate: Option<String>,
    /// Language of the stream, as tagged.
    pub language: Option<String>,
}

/// The part of an ffprobe document that is read.
#[derive(Debug, Clone, PartialEq, Eq)]
pub struct RawProbe {
    /// The streams of the file.
    pub streams: Vec<RawStream>,
    /// The container's duration in seconds, as text.
    pub duration: Option<String>,
}

/// The video stream ffmpeg will select.
#[derive(Debug, PartialEq, Eq)]
pub struct VideoStream {
    /// Stream index within the file.
    pub index: u32,
    /// Codec short name, e.g. `mpeg2video`.
    pub codec: String,
    /// Coded width in pixels.
    pub width: u32,
    /// Coded height in pixels.
    pub height: u32,
    /// Frame rate as an exact rational.
    pub frame_rate: (u32, u32),
    /// Pixel format, e.g. `yuv420p`.
    pub pixel_format: String,
    /// Whether ffmpeg reports the content as interlaced.
    pub interlaced: bool,
}

/// A video stream with its text read as characters.
pub ghost struct VideoView {
    /// Stream index.
    pub index: u32,
    /// Codec short name.
    pub codec: Seq<char>,
    /// Width in pixels.
    pub width: u32,
    /// Height in pixels.
    pub height: u32,
    /// Frame rate as an exact rational.
    pub frame_rate: (u32, u32),
    /// Pixel format.
    pub pixel_format: Seq<char>,
    /// Whether the content is interlaced.
    pub interlaced: bool,
}

impl View for VideoStream {
    type V = VideoView;

    open spec fn view(&self) -> VideoView {
        VideoView {
            index: self.index,
            codec: self.codec@,
            width: self.width,
            height: self.height,
            frame_rate: self.frame_rate,
            pixel_format: self.pixel_format@,
            interlaced: self.interlaced,
        }
    }
}

impl VideoView {
    /// How far apart every `step`-th frame is; nothing where the rate is
    /// unknown.
    pub open spec fn spacing(self, step: u32) -> FrameSpacing {
        if self.frame_rate.0 == 0 || self.frame_rate.1 == 0 {
            FrameSpacing { micros: 0, frames: 1 }
        } else {
            FrameSpacing {
                micros: (step * self.frame_rate.1 * 1_000_000) as u64,
                frames: self.frame_rate.0 as u64,
            }
        }
    }
}

impl VideoStream {
    /// Frame rate, in millionths of a frame per second; nothing where the
    /// rate cannot be divided out.
    #[must_use]
    pub fn fps(&self) -> (rate: u64)
        ensures
            rate == (if self.frame_rate.1 == 0 {
                0
            } else {
                nearest(self.frame_rate.0 * 1_000_000, self.frame_rate.1 as int)
            }),
    {
        if self.frame_rate.1 == 0 {
            return 0;
        }
        let top: i128 = self.frame_rate.0 as i128 * 1_000_000;
        proof {
            crate::arith::nearest_bounds(top as int, self.frame_rate.1 as int);
            let whole = nearest(top as int, self.frame_rate.1 as int);
            assert(0 <= whole <= 4_294_967_295_000_001) by (nonlinear_arith)
                requires
                    0 <= top <= 4_294_967_295_000_000,
                    self.frame_rate.1 >= 1,
                    2 * (whole * self.frame_rate.1) <= 2 * top + self.frame_rate.1,
                    2 * top + self.frame_rate.1 < 2 * (whole * self.frame_rate.1) + 2
                        * self.frame_rate.1,
            ;
        }
        nearest_quotient(top, self.frame_rate.1 as i128) as u64
    }

    /// How far apart every `step`-th frame is.
    #[must_use]
    pub fn spacing(&self, step: u32) -> (spacing: FrameSpacing)
        requires
            step <= 4_096,
        ensures
            spacing == self@.spacing(step),
            spacing.wf(),
    {
        if self.frame_rate.0 == 0 || self.frame_rate.1 == 0 {
            return FrameSpacing { micros: 0, frames: 1 };
        }
        assert(0 <= step * self.frame_rate.1 <= 4_096 * 4_294_967_295) by (nonlinear_arith)
            requires
                0 <= step <= 4_096,
                0 <= self.frame_rate.1 <= 4_294_967_295,
        ;
        FrameSpacing {
            micros: step as u64 * self.frame_rate.1 as u64 * 1_000_000,
            frames: self.frame_rate.0 as u64,
        }
    }
}

/// One audio stream ffmpeg reports.
#[derive(Debug, Clone, PartialEq, Eq)]
pub struct AudioStream {
    /// Stream index within the file.
    pub index: u32,
    /// Codec short name, e.g. `aac`.
    pub codec: String,
    /// Channel count as coded.
    pub channels: u32,
    /// Sample rate in Hz.
    pub sample_rate: u32,
    /// Language of the stream, when it is tagged with one.
    pub language: Option<String>,
}

/// An audio stream with its text read as characters.
pub ghost struct AudioView {
    /// Stream index.
    pub index: u32,
    /// Codec short name.
    pub codec: Seq<char>,
    /// Channel count.
    pub channels: u32,
    /// Sample rate in Hz.
    pub sample_rate: u32,
    /// Language of the stream.
    pub language: Option<Seq<char>>,
}

impl View for AudioStream {
    type V = AudioView;

    open spec fn view(&self) -> AudioView {
        AudioView {
            index: self.index,
            codec: self.codec@,
            channels: self.channels,
            sample_rate: self.sample_rate,
            language: text_of(self.language),
        }
    }
}

/// What ffmpeg reports about a file.
#[derive(Debug, PartialEq, Eq)]
pub struct MediaProbe {
    /// Container duration in microseconds, when the container states one.
    pub duration_seconds: Option<i64>,
    /// The first video stream, if any.
    pub video: Option<VideoStream>,
    /// Every audio stream, in file order.
    pub audio: Vec<AudioStream>,
}

impl MediaProbe {
    /// The programme is dual-mono: several audio streams of one channel each.
    pub open spec fn dual_mono(self) -> bool {
        self.audio@.len() >= 2 && forall|i: int|
            0 <= i < self.audio@.len() ==> (#[trigger] self.audio@[i]).channels == 1
    }

    /// Whether the programme is dual-mono, which Japanese broadcast uses for
    /// bilingual audio and which must be downmixed deliberately rather than
    /// merged into a stereo pair.
    #[must_use]
    pub fn is_dual_mono(&self) -> (yes: bool)
        ensures
            yes == self.dual_mono(),
    {
        if self.audio.len() < 2 {
            return false;
        }
        for i in 0..self.audio.len()
            invariant
                forall|k: int| 0 <= k < i ==> (#[trigger] self.audio@[k]).channels == 1,
        {
            if self.audio[i].channels != 1 {
                return false;
            }
        }
        true
    }
}

/// An ffprobe rational such as `30000/1001`. `0/0` is what is written for a
/// rate that could not be determined, and is not a rate.
pub open spec fn rational_in(value: Option<Seq<char>>) -> Option<(u32, u32)> {
    match value {
        None => None,
        Some(text) => match split_at_first(text, '/') {
            None => None,
            Some((left, right)) => match (
                unsigned_in(left, u32::MAX as nat),
                unsigned_in(right, u32::MAX as nat),
            ) {
                (Some(n), Some(d)) => if n == 0 || d == 0 {
                    None
                } else {
                    Some((n as u32, d as u32))
                },
                _ => None,
            },
        },
    }
}

/// What an optional borrowed text holds.
pub open spec fn slice_of(text: Option<&str>) -> Option<Seq<char>> {
    match text {
        Some(text) => Some(text@),
        None => None,
    }
}

/// Parse an ffprobe rational such as `30000/1001`.
///
/// ffprobe writes `0/0` for a rate it could not determine, which must not be
/// mistaken for a valid zero frame rate.
#[must_use]
pub fn parse_rational(value: Option<&str>) -> (rate: Option<(u32, u32)>)
    ensures
        rate == rational_in(slice_of(value)),
{
    let text = match value {
        Some(text) => chars_of(text),
        None => {
            return None;
        },
    };
    let at: usize = find_char(&text, '/');
    if at >= text.len() {
        return None;
    }
    let left = part(&text, 0, at);
    let right = part(&text, at + 1, text.len());
    assert(left@ =~= text@.take(at as int));
    assert(right@ =~= text@.skip(at + 1));
    match (parse_unsigned(&left, u32::MAX as u64), parse_unsigned(&right, u32::MAX as u64)) {
        (Some(n), Some(d)) => if n == 0 || d == 0 {
            None
        } else {
            Some((n as u32, d as u32))
        },
        _ => None,
    }
}

/// A text, or another where it is missing.
pub open spec fn text_or(text: Option<String>, other: Seq<char>) -> Seq<char> {
    match text {
        Some(text) => text@,
        None => other,
    }
}

fn copy_or(text: &Option<String>, other: &str) -> (copy: String)
    ensures
        copy@ == text_or(*text, other@),
{
    match text {
        Some(text) => text.clone(),
        None => own(other),
    }
}

fn borrow(text: &Option<String>) -> (slice: Option<&str>)
    ensures
        slice_of(slice) == text_of(*text),
{
    match text {
        Some(text) => Some(text.as_str()),
        None => None,
    }
}

/// Whether an optional text is this one.
pub open spec fn is_text(text: Option<String>, wanted: Seq<char>) -> bool {
    text_of(text) == Some(wanted)
}

fn matches_text(text: &Option<String>, wanted: &str) -> (yes: bool)
    ensures
        yes == is_text(*text, wanted@),
{
    match text {
        Some(text) => same(&chars_of(text.as_str()), &chars_of(wanted)),
        None => false,
    }
}

impl RawStream {
    /// The frame rate: averaged where that is known, otherwise nominal,
    /// otherwise that of Japanese broadcast.
    pub open spec fn rate(self) -> (u32, u32) {
        match rational_in(text_of(self.avg_frame_rate)) {
            Some(rate) => rate,
            None => match rational_in(text_of(self.r_frame_rate)) {
                Some(rate) => rate,
                None => (30_000, 1_001),
            },
        }
    }

    /// This stream as video, where it has a size.
    pub open spec fn as_video(self) -> Option<VideoView> {
        match (self.width, self.height) {
            (Some(width), Some(height)) => Some(
                VideoView {
                    index: self.index,
                    codec: text_or(self.codec_name, "unknown"@),
                    width,
                    height,
                    frame_rate: self.rate(),
                    pixel_format: text_or(self.pix_fmt, "yuv420p"@),
                    interlaced: self.field_order is Some && !is_text(
                        self.field_order,
                        "progressive"@,
                    ),
                },
            ),
            _ => None,
        }
    }

    /// This stream as audio.
    pub open spec fn as_audio(self) -> AudioView {
        AudioView {
            index: self.index,
            codec: text_or(self.codec_name, "unknown"@),
            channels: match self.channels {
                Some(channels) => channels,
                None => 2,
            },
            sample_rate: match self.sample_rate {
                Some(text) => match unsigned_in(text@, u32::MAX as nat) {
                    Some(rate) => rate as u32,
                    None => 48_000,
                },
                None => 48_000,
            },
            language: text_of(self.language),
        }
    }

    fn read_video(&self) -> (video: Option<VideoStream>)
        ensures
            (match video {
                Some(video) => Some(video@),
                None => None,
            }) == self.as_video(),
    {
        let (width, height): (u32, u32) = match (self.width, self.height) {
            (Some(width), Some(height)) => (width, height),
            _ => {
                return None;
            },
        };
        let frame_rate: (u32, u32) = match parse_rational(borrow(&self.avg_frame_rate)) {
            Some(rate) => rate,
            None => match parse_rational(borrow(&self.r_frame_rate)) {
                Some(rate) => rate,
                None => (30_000, 1_001),
            },
        };
        Some(
            VideoStream {
                index: self.index,
                codec: copy_or(&self.codec_name, "unknown"),
                width,
                height,
                frame_rate,
                pixel_format: copy_or(&self.pix_fmt, "yuv420p"),
                interlaced: self.field_order.is_some() && !matches_text(
                    &self.field_order,
                    "progressive",
                ),
            },
        )
    }

    fn read_audio(&self) -> (audio: AudioStream)
        ensures
            audio@ == self.as_audio(),
    {
        let sample_rate: u32 = match &self.sample_rate {
            Some(text) => match parse_unsigned(&chars_of(text.as_str()), u32::MAX as u64) {
                Some(rate) => rate as u32,
                None => 48_000,
            },
            None => 48_000,
        };
        AudioStream {
            index: self.index,
            codec: copy_or(&self.codec_name, "unknown"),
            channels: match self.channels {
                Some(channels) => channels,
                None => 2,
            },
            sample_rate,
            language: match &self.language {
                Some(language) => Some(own(language.as_str())),
                None => None,
            },
        }
    }
}

/// The first stream of a kind among the first `count`.
pub open spec fn first_video(streams: Seq<RawStream>) -> Option<VideoView>
    decreases streams.len(),
{
    if streams.len() == 0 {
        None
    } else if is_text(streams[0].codec_type, "video"@) {
        streams[0].as_video()
    } else {
        first_video(streams.skip(1))
    }
}

/// The audio streams, in file order.
pub open spec fn audio_in(streams: Seq<RawStream>) -> Seq<AudioView>
    decreases streams.len(),
{
    if streams.len() == 0 {
        Seq::empty()
    } else {
        let before = audio_in(streams.drop_last());
        if is_text(streams.last().codec_type, "audio"@) {
            before.push(streams.last().as_audio())
        } else {
            before
        }
    }
}

/// The duration a text gives, in microseconds, where it is a positive number.
pub open spec fn duration_in(text: Option<Seq<char>>) -> Option<i64> {
    match text {
        None => None,
        Some(text) => match decimal_in(text) {
            Some(micros) => if micros > 0 {
                Some(micros as i64)
            } else {
                None
            },
            None => None,
        },
    }
}

/// The audio streams a list holds.
pub open spec fn audio_views(audio: Seq<AudioStream>) -> Seq<AudioView> {
    audio.map_values(|stream: AudioStream| stream@)
}

/// Interpret an ffprobe document: its first video stream, all its audio
/// streams, and how long it says it is.
#[must_use]
pub fn interpret(raw: &RawProbe) -> (probe: MediaProbe)
    ensures
        probe.duration_seconds == duration_in(text_of(raw.duration)),
        (match probe.video {
            Some(video) => Some(video@),
            None => None,
        }) == first_video(raw.streams@),
        audio_views(probe.audio@) == audio_in(raw.streams@),
{
    let duration_seconds: Option<i64> = match &raw.duration {
        None => None,
        Some(text) => match parse_decimal(&chars_of(text.as_str())) {
            Some(micros) => if micros > 0 {
                Some(micros)
            } else {
                None
            },
            None => None,
        },
    };
    let mut video: Option<VideoStream> = None;
    let mut i: usize = 0;
    assert(raw.streams@.skip(0) =~= raw.streams@);
    while i < raw.streams.len() && !matches_text(&raw.streams[i].codec_type, "video")
        invariant
            i <= raw.streams@.len(),
            first_video(raw.streams@) == first_video(raw.streams@.skip(i as int)),
        decreases raw.streams@.len() - i,
    {
        assert(raw.streams@.skip(i as int).skip(1) =~= raw.streams@.skip(i + 1));
        i += 1;
    }
    if i < raw.streams.len() {
        video = raw.streams[i].read_video();
    }
    let mut audio: Vec<AudioStream> = Vec::new();
    assert(raw.streams@.take(0) =~= Seq::empty());
    assert(audio_views(audio@) =~= Seq::empty());
    for k in 0..raw.streams.len()
        invariant
            audio_views(audio@) == audio_in(raw.streams@.take(k as int)),
    {
        assert(raw.streams@.take(k + 1).drop_last() =~= raw.streams@.take(k as int));
        if matches_text(&raw.streams[k].codec_type, "audio") {
            let ghost before = audio_views(audio@);
            let stream = raw.streams[k].read_audio();
            audio.push(stream);
            assert(audio_views(audio@) =~= before.push(stream@));
        }
    }
    assert(raw.streams@.take(raw.streams@.len() as int) =~= raw.streams@);
    MediaProbe { duration_seconds, video, audio }
}

/// The arguments that have ffprobe describe a file as JSON.
pub open spec fn probe_arguments(input: Seq<char>) -> Seq<Seq<char>> {
    seq![
        "-hide_banner"@,
        "-loglevel"@,
        "error"@,
        "-print_format"@,
        "json"@,
        "-show_format"@,
        "-show_streams"@,
        input,
    ]
}

/// The arguments that have ffprobe describe a file as JSON.
#[must_use]
pub fn probe_args(input: &str) -> (args: Vec<String>)
    ensures
        texts(args@) == probe_arguments(input@),
{
    let mut args: Vec<String> = Vec::new();
    args.push(own("-hide_banner"));
    args.push(own("-loglevel"));
    args.push(own("error"));
    args.push(own("-print_format"));
    args.push(own("json"));
    args.push(own("-show_format"));
    args.push(own("-show_streams"));
    args.push(own(input));
    assert(texts(args@) =~= probe_arguments(input@));
    args
}

} // verus!
