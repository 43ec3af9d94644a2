//! What the recording was, and what was wrong with it.
//!
//! A transcode can succeed and still be a bad outcome: a third of the packets
//! scrambled because the card failed, a thousand drops because the aerial is
//! marginal, a second language quietly absent, the picture geometry changing
//! half way through. None of that stops ffmpeg, and none of it is visible in
//! the output file.
//!
//! So it is measured once, during the pass that was already reading the file,
//! and kept with the job, which is how an operator notices that a channel has
//! been recording badly for a fortnight.

use vstd::prelude::*;
use vstd::string::*;
use crate::arith::nearest_even;
use crate::arith::round_even;
use crate::text::copy_option;
use crate::text::decimal_digits;
use crate::text::own;
use crate::text::padded_digits;
use crate::text::push_copy;
use crate::text::push_decimal;
use crate::text::push_padded;
use crate::text::push_wide;
use crate::text::text_of;
use crate::text::texts;
use crate::ts::FormatChange;
use crate::ts::StreamInfo;
use crate::ts::StreamKind;
use crate::ts::TsInfo;
use crate::ts::VideoFormat;

verus! {

/// A bilingual programme's two languages, main channel first.
///
/// Japanese broadcast carries bilingual audio as a single stream in ARIB's
/// "1/0 + 1/0 mode": two independent mono programmes, one per channel. A
/// decoder sees an ordinary stereo pair, so treating it as one means both
/// languages come out of the speakers at once.
#[derive(Debug, Clone, PartialEq, Eq)]
pub struct DualMono {
    /// Language on the left channel, which carries the main programme.
    pub main: Option<String>,
    /// Language on the right channel.
    pub sub: Option<String>,
}

/// How healthy a recording was, and what it contained.
#[derive(Debug, Clone, PartialEq, Eq)]
pub struct Diagnostics {
    /// Duration as measured from the transport stream, in microseconds.
    pub duration_seconds: i64,
    /// Picture geometry at the start of the recording.
    pub video: Option<String>,
    /// One entry per audio stream, describing what it carries.
    pub audio: Vec<String>,
    /// Whether the recording carries ARIB captions.
    pub has_captions: bool,
    /// Points at which the video format changed at all, in microseconds.
    pub format_changes: Vec<i64>,
    /// Points at which the picture *geometry* changed, in microseconds.
    ///
    /// A subset of `format_changes`: a frame-rate change is re-timed by the
    /// encoder and needs nothing done about it, but a size change cannot go in
    /// the same output file, because a video track has one size for its whole
    /// length.
    pub split_points: Vec<i64>,
    /// Byte offsets in the source file of those same points.
    ///
    /// Splitting a transport stream by byte is the only reliable way to
    /// separate two picture sizes: both the filter clock and the timestamps
    /// break at the change, and packet boundaries do not.
    pub split_offsets: Vec<u64>,
    /// Packets lost, inferred from continuity counters.
    pub dropped_packets: u64,
    /// Packets still scrambled, meaning decryption did not happen.
    pub scrambled_packets: u64,
    /// Packets the demodulator flagged as uncorrectable.
    pub error_packets: u64,
    /// Total packets read, for putting the counters in proportion.
    pub total_packets: u64,
    /// The two languages a bilingual programme carries, main first.
    ///
    /// Set only when the recording declares itself dual mono, which is the one
    /// case where the two channels of an audio stream are not left and right
    /// but two separate programmes.
    pub dual_mono: Option<DualMono>,
    /// Anything an operator should be told about, in plain words.
    pub warnings: Vec<String>,
}

/// The character of a hexadecimal digit.
pub open spec fn hex_digit(digit: nat) -> char {
    if digit < 10 {
        (('0' as nat) + digit) as char
    } else {
        (('a' as nat) + digit - 10) as char
    }
}

/// The last `width` hexadecimal digits of a number.
pub open spec fn hex_digits(n: nat, width: nat) -> Seq<char>
    decreases width,
{
    if width == 0 {
        Seq::empty()
    } else {
        hex_digits(n / 16, (width - 1) as nat).push(hex_digit(n % 16))
    }
}

/// Append the last `width` hexadecimal digits of a number.
pub fn push_hex(text: &mut String, n: u16, width: usize)
    ensures
        final(text)@ == old(text)@ + hex_digits(n as nat, width as nat),
    decreases width,
{
    if width > 0 {
        push_hex(text, n / 16, width - 1);
        let digit: u8 = (n % 16) as u8;
        text.push(if digit < 10 { (48 + digit) as char } else { (87 + digit) as char });
    }
    assert(text@ =~= old(text)@ + hex_digits(n as nat, width as nat));
}

/// A name for a stream kind that reads as English.
pub open spec fn kind_name(kind: StreamKind) -> Seq<char> {
    match kind {
        StreamKind::Mpeg2Video => "MPEG-2 video"@,
        StreamKind::H264Video => "H.264 video"@,
        StreamKind::HevcVideo => "HEVC video"@,
        StreamKind::AacAudio => "AAC audio"@,
        StreamKind::Caption => "captions"@,
        StreamKind::Superimpose => "superimpose"@,
        StreamKind::Data => "data"@,
        StreamKind::Other(stream_type) => "stream type 0x"@ + hex_digits(stream_type as nat, 2),
    }
}

/// A name for a stream kind that reads as English rather than as Rust.
///
/// The debug spelling of the enum would leak variant names into an operator's
/// screen, which is a small thing that makes a tool feel unfinished.
#[must_use]
pub fn name_of(kind: StreamKind) -> (name: String)
    ensures
        name@ == kind_name(kind),
{
    match kind {
        StreamKind::Mpeg2Video => own("MPEG-2 video"),
        StreamKind::H264Video => own("H.264 video"),
        StreamKind::HevcVideo => own("HEVC video"),
        StreamKind::AacAudio => own("AAC audio"),
        StreamKind::Caption => own("captions"),
        StreamKind::Superimpose => own("superimpose"),
        StreamKind::Data => own("data"),
        StreamKind::Other(stream_type) => {
            let mut name = own("stream type 0x");
            push_hex(&mut name, stream_type as u16, 2);
            name
        },
    }
}

/// A ratio written with three decimal places, rounded to the nearest; nothing
/// over nothing counts as nothing.
pub open spec fn ratio_text(top: nat, bottom: nat) -> Seq<char> {
    let thousandths = (if bottom == 0 {
        0
    } else {
        nearest_even((top * 1_000) as int, bottom as int)
    }) as nat;
    decimal_digits(thousandths / 1_000) + "."@ + padded_digits(thousandths % 1_000, 3)
}

/// What the picture is, in words.
pub open spec fn format_text(format: VideoFormat) -> Seq<char> {
    decimal_digits(format.width as nat) + "x"@ + decimal_digits(format.height as nat) + " "@
        + ratio_text(format.frame_rate.0 as nat, format.frame_rate.1 as nat) + " fps"@ + (
    if format.interlaced {
        " interlaced"@
    } else {
        ""@
    })
}

/// A ratio in thousandths, rounded to the nearest.
pub fn thousandths_of(top: u32, bottom: u32) -> (thousandths: u64)
    ensures
        thousandths == (if bottom == 0 {
            0
        } else {
            nearest_even(top * 1_000, bottom as int)
        }),
{
    if bottom == 0 {
        return 0;
    }
    round_even(top as u128 * 1_000, bottom as u128) as u64
}

fn describe_format(format: &VideoFormat) -> (text: String)
    ensures
        text@ == format_text(*format),
{
    let mut text = String::new();
    push_decimal(&mut text, format.width as u64);
    text.append("x");
    push_decimal(&mut text, format.height as u64);
    text.append(" ");
    let thousandths: u64 = thousandths_of(format.frame_rate.0, format.frame_rate.1);
    push_decimal(&mut text, thousandths / 1_000);
    text.append(".");
    push_padded(&mut text, thousandths % 1_000, 3);
    text.append(" fps");
    text.append(if format.interlaced { " interlaced" } else { "" });
    assert(text@ =~= format_text(*format));
    text
}

/// The streams of the primary programme: the first there is.
pub open spec fn primary_streams(info: TsInfo) -> Seq<StreamInfo> {
    if info.programs@.len() == 0 {
        Seq::empty()
    } else {
        info.programs@[0].streams@
    }
}

/// One audio stream, in words.
pub open spec fn stream_text(stream: StreamInfo) -> Seq<char> {
    kind_name(stream.kind) + " on pid 0x"@ + hex_digits(stream.pid as nat, 4)
}

/// The audio streams, in words.
pub open spec fn audio_texts(streams: Seq<StreamInfo>) -> Seq<Seq<char>>
    decreases streams.len(),
{
    if streams.len() == 0 {
        Seq::empty()
    } else if streams.last().kind == StreamKind::AacAudio {
        audio_texts(streams.drop_last()).push(stream_text(streams.last()))
    } else {
        audio_texts(streams.drop_last())
    }
}

/// What is said of the languages of the first bilingual audio stream.
///
/// Dual mono lives on the main audio stream; a programme does not carry a
/// second bilingual stream alongside it.
pub open spec fn bilingual_in(streams: Seq<StreamInfo>) -> Option<(
    Option<Seq<char>>,
    Option<Seq<char>>,
)>
    decreases streams.len(),
{
    if streams.len() == 0 {
        None
    } else if streams[0].kind == StreamKind::AacAudio && streams[0].dual_mono() {
        match streams[0].audio {
            Some(component) => Some(
                (text_of(component.language), text_of(component.second_language)),
            ),
            None => None,
        }
    } else {
        bilingual_in(streams.skip(1))
    }
}

/// The two languages, in words.
pub open spec fn languages_of(dual: Option<DualMono>) -> Option<(
    Option<Seq<char>>,
    Option<Seq<char>>,
)> {
    match dual {
        Some(dual) => Some((text_of(dual.main), text_of(dual.sub))),
        None => None,
    }
}

/// The changes after which the picture size is another, each held against what
/// preceded it rather than against the opening format: a recording that goes
/// HD, SD, HD needs a boundary at both changes.
pub open spec fn size_changes(
    first: Option<VideoFormat>,
    changes: Seq<FormatChange>,
) -> Seq<FormatChange>
    decreases changes.len(),
{
    if changes.len() == 0 {
        Seq::empty()
    } else {
        let before = if changes.len() == 1 {
            first
        } else {
            Some(changes[changes.len() - 2].format)
        };
        let rest = size_changes(first, changes.drop_last());
        if before matches Some(before) && before.other_size(changes.last().format) {
            rest.push(changes.last())
        } else {
            rest
        }
    }
}

/// Where the picture size changes, compared against what preceded it.
#[must_use]
pub fn splits(info: &TsInfo) -> (points: Vec<FormatChange>)
    ensures
        points@ == size_changes(info.video_format, info.format_changes@),
{
    let mut points: Vec<FormatChange> = Vec::new();
    let mut previous: Option<VideoFormat> = info.video_format;
    let changes = &info.format_changes;
    assert(changes@.take(0) =~= Seq::empty());
    for i in 0..changes.len()
        invariant
            *changes == info.format_changes,
            points@ == size_changes(info.video_format, changes@.take(i as int)),
            previous == (if i == 0 {
                info.video_format
            } else {
                Some(changes@[i - 1].format)
            }),
    {
        let change = changes[i];
        assert(changes@.take(i + 1).drop_last() =~= changes@.take(i as int));
        assert(changes@.take(i + 1).last() == change);
        let split = match previous {
            Some(before) => before.requires_split(&change.format),
            None => false,
        };
        if split {
            points.push(change);
        }
        previous = Some(change.format);
    }
    assert(changes@.take(changes@.len() as int) =~= changes@);
    points
}

/// A proportion is more than so many thousandths.
pub open spec fn exceeds(part: u64, total: u64, thousandths: int) -> bool {
    part * 1_000 > thousandths * if total == 0 { 1int } else { total as int }
}

/// A proportion in percent, rounded to the nearest.
pub open spec fn whole_percent(part: u64, total: u64) -> Seq<char> {
    decimal_digits(nearest_even(part * 100, if total == 0 { 1 } else { total as int }) as nat)
}

/// A proportion in percent with one decimal place, rounded to the nearest.
pub open spec fn fine_percent(part: u64, total: u64) -> Seq<char> {
    let tenths = nearest_even(part * 1_000, if total == 0 { 1 } else { total as int }) as nat;
    decimal_digits(tenths / 10) + "."@ + padded_digits(tenths % 10, 1)
}

/// What is said of scrambled packets.
pub open spec fn scrambling_warning(scrambled: u64, total: u64) -> Seq<Seq<char>> {
    if exceeds(scrambled, total, 300) {
        seq![
            whole_percent(scrambled, total)
                + "% of the recording is still scrambled — decryption failed, and the result will be unwatchable"@,
        ]
    } else if exceeds(scrambled, total, 1) {
        seq![
            fine_percent(scrambled, total)
                + "% of packets are scrambled; some of the recording will not decode"@,
        ]
    } else {
        Seq::empty()
    }
}

/// What is said of lost packets.
pub open spec fn loss_warning(dropped: u64, total: u64) -> Seq<Seq<char>> {
    if exceeds(dropped, total, 10) {
        seq![
            fine_percent(dropped, total)
                + "% of packets were lost — reception was poor, expect glitches"@,
        ]
    } else {
        Seq::empty()
    }
}

/// What is said of corrupt packets.
pub open spec fn error_warning(errors: u64) -> Seq<Seq<char>> {
    if errors > 0 {
        seq![decimal_digits(errors as nat) + " packets arrived corrupt and were discarded"@]
    } else {
        Seq::empty()
    }
}

/// What is said of changes of picture size.
pub open spec fn split_warning(count: nat) -> Seq<Seq<char>> {
    if count > 0 {
        seq![
            "the picture size changes "@ + decimal_digits(count)
                + " time(s) mid-recording, so the output is written as "@ + decimal_digits(
                count + 1,
            ) + " separate files"@,
        ]
    } else {
        Seq::empty()
    }
}

/// What is said of captions: a known, deliberate gap rather than a fault in
/// this recording.
pub open spec fn caption_warning(has_captions: bool) -> Seq<Seq<char>> {
    if has_captions {
        seq!["this recording carries captions, which Asaborake does not yet extract"@]
    } else {
        Seq::empty()
    }
}

/// What is said of several audio tracks.
pub open spec fn track_warning(count: nat) -> Seq<Seq<char>> {
    if count > 1 {
        seq![decimal_digits(count) + " audio tracks, all carried through to the output"@]
    } else {
        Seq::empty()
    }
}

/// A language, or that it is not known.
pub open spec fn language_text(language: Option<Seq<char>>) -> Seq<char> {
    match language {
        Some(language) => language,
        None => "unknown"@,
    }
}

/// What is said of bilingual audio.
pub open spec fn bilingual_warning(
    languages: Option<(Option<Seq<char>>, Option<Seq<char>>)>,
) -> Seq<Seq<char>> {
    match languages {
        Some((main, sub)) => seq![
            "bilingual audio ("@ + language_text(main) + " and "@ + language_text(sub)
                + "); the two channels are split into separate tracks"@,
        ],
        None => Seq::empty(),
    }
}

impl Diagnostics {
    /// Everything worth telling an operator.
    pub open spec fn problems(self) -> Seq<Seq<char>> {
        scrambling_warning(self.scrambled_packets, self.total_packets) + loss_warning(
            self.dropped_packets,
            self.total_packets,
        ) + error_warning(self.error_packets) + split_warning(self.split_points@.len())
            + caption_warning(self.has_captions) + track_warning(self.audio@.len())
            + bilingual_warning(languages_of(self.dual_mono))
    }

    /// A mostly-scrambled recording.
    pub open spec fn hopeless(self) -> bool {
        exceeds(self.scrambled_packets, self.total_packets, 300)
    }
}

fn is_more(part: u64, total: u64, thousandths: u64) -> (yes: bool)
    requires
        thousandths <= 1_000,
    ensures
        yes == exceeds(part, total, thousandths as int),
{
    let whole: u64 = if total == 0 { 1 } else { total };
    assert(0 <= thousandths * whole <= 1_000 * whole) by (nonlinear_arith)
        requires
            0 <= thousandths <= 1_000,
            0 <= whole,
    ;
    part as u128 * 1_000 > thousandths as u128 * whole as u128
}

/// A proportion scaled up and rounded, for writing out.
fn scaled(part: u64, total: u64, scale: u64) -> (share: u128)
    requires
        scale <= 1_000,
    ensures
        share == nearest_even(
            part * scale,
            if total == 0 {
                1
            } else {
                total as int
            },
        ),
{
    let whole: u64 = if total == 0 { 1 } else { total };
    assert(0 <= part * scale <= part * 1_000) by (nonlinear_arith)
        requires
            0 <= scale <= 1_000,
            0 <= part,
    ;
    round_even(part as u128 * scale as u128, whole as u128)
}

fn push_fine_percent(text: &mut String, part: u64, total: u64)
    ensures
        final(text)@ == old(text)@ + fine_percent(part, total),
{
    let tenths: u128 = scaled(part, total, 1_000);
    push_wide(text, tenths / 10);
    text.append(".");
    push_padded(text, (tenths % 10) as u64, 1);
    assert(text@ =~= old(text)@ + fine_percent(part, total));
}

fn warn_of_scrambling(warnings: &mut Vec<String>, scrambled: u64, total: u64)
    ensures
        texts(final(warnings)@) == texts(old(warnings)@) + scrambling_warning(scrambled, total),
{
    let mut text = String::new();
    if is_more(scrambled, total, 300) {
        push_wide(&mut text, scaled(scrambled, total, 100));
        text.append(
            "% of the recording is still scrambled — decryption failed, and the result will be unwatchable",
        );
        push_copy(warnings, text.as_str());
    } else if is_more(scrambled, total, 1) {
        push_fine_percent(&mut text, scrambled, total);
        text.append("% of packets are scrambled; some of the recording will not decode");
        push_copy(warnings, text.as_str());
    }
    proof {
        let wanted = scrambling_warning(scrambled, total);
        if wanted.len() > 0 {
            assert(text@ =~= wanted[0]);
        }
        assert(texts(warnings@) =~= texts(old(warnings)@) + wanted);
    }
}

fn warn_of_damage(warnings: &mut Vec<String>, diagnostics: &Diagnostics)
    ensures
        texts(final(warnings)@) == texts(old(warnings)@) + loss_warning(
            diagnostics.dropped_packets,
            diagnostics.total_packets,
        ) + error_warning(diagnostics.error_packets),
{
    let ghost loss = loss_warning(diagnostics.dropped_packets, diagnostics.total_packets);
    if is_more(diagnostics.dropped_packets, diagnostics.total_packets, 10) {
        let mut text = String::new();
        push_fine_percent(&mut text, diagnostics.dropped_packets, diagnostics.total_packets);
        text.append("% of packets were lost — reception was poor, expect glitches");
        assert(text@ =~= loss[0]);
        push_copy(warnings, text.as_str());
    }
    assert(texts(warnings@) =~= texts(old(warnings)@) + loss);
    let ghost before = texts(warnings@);
    if diagnostics.error_packets > 0 {
        let mut text = String::new();
        push_decimal(&mut text, diagnostics.error_packets);
        text.append(" packets arrived corrupt and were discarded");
        assert(text@ =~= error_warning(diagnostics.error_packets)[0]);
        push_copy(warnings, text.as_str());
    }
    assert(texts(warnings@) =~= before + error_warning(diagnostics.error_packets));
}

fn warn_of_splits(warnings: &mut Vec<String>, count: usize)
    ensures
        texts(final(warnings)@) == texts(old(warnings)@) + split_warning(count as nat),
{
    if count > 0 {
        let mut text = own("the picture size changes ");
        push_decimal(&mut text, count as u64);
        text.append(" time(s) mid-recording, so the output is written as ");
        push_wide(&mut text, count as u128 + 1);
        text.append(" separate files");
        assert(text@ =~= split_warning(count as nat)[0]);
        push_copy(warnings, text.as_str());
    }
    assert(texts(warnings@) =~= texts(old(warnings)@) + split_warning(count as nat));
}

fn warn_of_contents(warnings: &mut Vec<String>, diagnostics: &Diagnostics)
    ensures
        texts(final(warnings)@) == texts(old(warnings)@) + caption_warning(
            diagnostics.has_captions,
        ) + track_warning(diagnostics.audio@.len()) + bilingual_warning(
            languages_of(diagnostics.dual_mono),
        ),
{
    if diagnostics.has_captions {
        push_copy(
            warnings,
            "this recording carries captions, which Asaborake does not yet extract",
        );
    }
    assert(texts(warnings@) =~= texts(old(warnings)@) + caption_warning(diagnostics.has_captions));
    let ghost before = texts(warnings@);
    if diagnostics.audio.len() > 1 {
        let mut text = String::new();
        push_decimal(&mut text, diagnostics.audio.len() as u64);
        text.append(" audio tracks, all carried through to the output");
        assert(text@ =~= track_warning(diagnostics.audio@.len())[0]);
        push_copy(warnings, text.as_str());
    }
    assert(texts(warnings@) =~= before + track_warning(diagnostics.audio@.len()));
    let ghost before = texts(warnings@);
    if let Some(dual) = &diagnostics.dual_mono {
        let mut text = own("bilingual audio (");
        match &dual.main {
            Some(language) => text.append(language.as_str()),
            None => text.append("unknown"),
        }
        text.append(" and ");
        match &dual.sub {
            Some(language) => text.append(language.as_str()),
            None => text.append("unknown"),
        }
        text.append("); the two channels are split into separate tracks");
        assert(text@ =~= bilingual_warning(languages_of(diagnostics.dual_mono))[0]);
        push_copy(warnings, text.as_str());
    }
    assert(texts(warnings@) =~= before + bilingual_warning(languages_of(diagnostics.dual_mono)));
}

/// A programme carries captions.
pub open spec fn captioned(streams: Seq<StreamInfo>) -> bool {
    exists|i: int| 0 <= i < streams.len() && (#[trigger] streams[i]).kind == StreamKind::Caption
}

fn describe_audio(streams: &[StreamInfo]) -> (audio: Vec<String>)
    ensures
        texts(audio@) == audio_texts(streams@),
{
    let mut audio: Vec<String> = Vec::new();
    assert(streams@.take(0) =~= Seq::empty());
    assert(texts(audio@) =~= Seq::empty());
    for i in 0..streams.len()
        invariant
            texts(audio@) == audio_texts(streams@.take(i as int)),
    {
        assert(streams@.take(i + 1).drop_last() =~= streams@.take(i as int));
        assert(streams@.take(i + 1).last() == streams@[i as int]);
        if let StreamKind::AacAudio = streams[i].kind {
            let mut text = name_of(streams[i].kind);
            text.append(" on pid 0x");
            push_hex(&mut text, streams[i].pid, 4);
            assert(text@ =~= stream_text(streams@[i as int]));
            push_copy(&mut audio, text.as_str());
        }
    }
    assert(streams@.take(streams@.len() as int) =~= streams@);
    audio
}

fn has_caption(streams: &[StreamInfo]) -> (yes: bool)
    ensures
        yes == captioned(streams@),
{
    for i in 0..streams.len()
        invariant
            forall|k: int|
                0 <= k < i ==> (#[trigger] streams@[k]).kind != StreamKind::Caption,
    {
        if let StreamKind::Caption = streams[i].kind {
            assert(streams@[i as int].kind == StreamKind::Caption);
            return true;
        }
    }
    false
}

fn find_bilingual(streams: &[StreamInfo]) -> (dual: Option<DualMono>)
    ensures
        languages_of(dual) == bilingual_in(streams@),
{
    assert(streams@.skip(0) =~= streams@);
    for i in 0..streams.len()
        invariant
            bilingual_in(streams@) == bilingual_in(streams@.skip(i as int)),
    {
        assert(streams@.skip(i as int)[0] == streams@[i as int]);
        assert(streams@.skip(i as int).skip(1) =~= streams@.skip(i + 1));
        if let StreamKind::AacAudio = streams[i].kind {
            if streams[i].is_dual_mono() {
                return match &streams[i].audio {
                    Some(component) => Some(
                        DualMono {
                            main: copy_option(&component.language),
                            sub: copy_option(&component.second_language),
                        },
                    ),
                    None => None,
                };
            }
        }
    }
    assert(streams@.skip(streams@.len() as int) =~= Seq::empty());
    None
}

/// When changes happen.
pub open spec fn times_of(changes: Seq<FormatChange>) -> Seq<i64> {
    changes.map_values(|change: FormatChange| change.seconds)
}

/// Where in the file changes happen.
pub open spec fn offsets_of(changes: Seq<FormatChange>) -> Seq<u64> {
    changes.map_values(|change: FormatChange| change.byte_offset)
}

fn times(changes: &[FormatChange]) -> (times: Vec<i64>)
    ensures
        times@ == times_of(changes@),
{
    let mut times: Vec<i64> = Vec::new();
    for i in 0..changes.len()
        invariant
            times@ =~= times_of(changes@).take(i as int),
    {
        times.push(changes[i].seconds);
    }
    assert(times@ =~= times_of(changes@));
    times
}

fn offsets(changes: &[FormatChange]) -> (offsets: Vec<u64>)
    ensures
        offsets@ == offsets_of(changes@),
{
    let mut offsets: Vec<u64> = Vec::new();
    for i in 0..changes.len()
        invariant
            offsets@ =~= offsets_of(changes@).take(i as int),
    {
        offsets.push(changes[i].byte_offset);
    }
    assert(offsets@ =~= offsets_of(changes@));
    offsets
}

impl Diagnostics {
    /// Summarise a transport stream scan.
    #[must_use]
    pub fn from_ts(info: &TsInfo) -> (diagnostics: Diagnostics)
        ensures
            diagnostics.duration_seconds == info.duration_seconds,
            text_of(diagnostics.video) == (match info.video_format {
                Some(format) => Some(format_text(format)),
                None => None,
            }),
            texts(diagnostics.audio@) == audio_texts(primary_streams(*info)),
            diagnostics.has_captions == captioned(primary_streams(*info)),
            diagnostics.format_changes@ == times_of(info.format_changes@),
            diagnostics.split_points@ == times_of(
                size_changes(info.video_format, info.format_changes@),
            ),
            diagnostics.split_offsets@ == offsets_of(
                size_changes(info.video_format, info.format_changes@),
            ),
            diagnostics.dropped_packets == info.stats.dropped_packets,
            diagnostics.scrambled_packets == info.stats.scrambled_packets,
            diagnostics.error_packets == info.stats.error_packets,
            diagnostics.total_packets == info.packet_count,
            languages_of(diagnostics.dual_mono) == bilingual_in(primary_streams(*info)),
            texts(diagnostics.warnings@) == diagnostics.problems(),
    {
        let none: Vec<StreamInfo> = Vec::new();
        let streams: &[StreamInfo] = if info.programs.len() == 0 {
            &none
        } else {
            &info.programs[0].streams
        };
        assert(streams@ =~= primary_streams(*info));
        let changes = splits(info);
        let mut diagnostics = Diagnostics {
            duration_seconds: info.duration_seconds,
            video: match &info.video_format {
                Some(format) => Some(describe_format(format)),
                None => None,
            },
            audio: describe_audio(streams),
            has_captions: has_caption(streams),
            format_changes: times(&info.format_changes),
            split_points: times(&changes),
            split_offsets: offsets(&changes),
            dropped_packets: info.stats.dropped_packets,
            scrambled_packets: info.stats.scrambled_packets,
            error_packets: info.stats.error_packets,
            total_packets: info.packet_count,
            dual_mono: find_bilingual(streams),
            warnings: Vec::new(),
        };
        diagnostics.warnings = diagnostics.describe_problems();
        diagnostics
    }

    /// Turn the counters into sentences worth reading.
    ///
    /// Thresholds rather than raw numbers, because "412 dropped packets" means
    /// nothing without knowing there were nine million of them.
    #[must_use]
    pub fn describe_problems(&self) -> (warnings: Vec<String>)
        ensures
            texts(warnings@) == self.problems(),
    {
        let mut warnings: Vec<String> = Vec::new();
        assert(texts(warnings@) =~= Seq::empty());
        warn_of_scrambling(&mut warnings, self.scrambled_packets, self.total_packets);
        warn_of_damage(&mut warnings, self);
        warn_of_splits(&mut warnings, self.split_points.len());
        warn_of_contents(&mut warnings, self);
        assert(texts(warnings@) =~= self.problems());
        warnings
    }

    /// Whether anything here should stop the job rather than merely be noted.
    ///
    /// A mostly-scrambled recording cannot be improved by transcoding it, and
    /// spending an hour of GPU time to produce an unwatchable file helps
    /// nobody.
    #[must_use]
    pub fn is_hopeless(&self) -> (yes: bool)
        ensures
            yes == self.hopeless(),
    {
        is_more(self.scrambled_packets, self.total_packets, 300)
    }
}

/// A recording with nothing wrong and nothing unusual has nothing to report.
pub proof fn clean_recordings_are_silent(diagnostics: Diagnostics)
    requires
        !exceeds(diagnostics.scrambled_packets, diagnostics.total_packets, 1),
        !exceeds(diagnostics.dropped_packets, diagnostics.total_packets, 10),
        diagnostics.error_packets == 0,
        diagnostics.split_points@.len() == 0,
        !diagnostics.has_captions,
        diagnostics.audio@.len() <= 1,
        diagnostics.dual_mono is None,
    ensures
        diagnostics.problems() == Seq::<Seq<char>>::empty(),
        !diagnostics.hopeless(),
{
    let total: int = if diagnostics.total_packets == 0 {
        1
    } else {
        diagnostics.total_packets as int
    };
    assert(300 * total >= 1 * total);
    assert(diagnostics.problems() =~= Seq::empty());
}

/// Every size change is a format change, so the points to split at are among
/// the points at which the format changed.
pub proof fn splits_are_format_changes(first: Option<VideoFormat>, changes: Seq<FormatChange>)
    ensures
        size_changes(first, changes).len() <= changes.len(),
        forall|i: int|
            0 <= i < size_changes(first, changes).len() ==> changes.contains(
                #[trigger] size_changes(first, changes)[i],
            ),
    decreases changes.len(),
{
    if changes.len() > 0 {
        let rest = changes.drop_last();
        splits_are_format_changes(first, rest);
        assert forall|i: int| 0 <= i < size_changes(first, changes).len() implies changes.contains(
            #[trigger] size_changes(first, changes)[i],
        ) by {
            let split = size_changes(first, changes)[i];
            if i < size_changes(first, rest).len() {
                assert(rest.contains(size_changes(first, rest)[i]));
                let k = choose|k: int| 0 <= k < rest.len() && rest[k] == split;
                assert(changes[k] == split);
            } else {
                assert(split == changes[changes.len() - 1]);
            }
        }
    }
}

} // verus!
