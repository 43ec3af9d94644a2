//! What holds of what ffmpeg is asked and of how its answers are understood.

use vstd::prelude::*;
use vstd::string::*;
use crate::arith::nearest_bounds;
use crate::arith::nearest_of_multiple;
use crate::media::encode::chapter_entry;
use crate::media::encode::escaped;
use crate::media::encode::escaped_char;
use crate::media::encode::in_milliseconds;
use crate::media::encode::is_syntax;
use crate::media::encode::metadata_of;
use crate::media::encode::ChapterView;
use crate::media::ffmpeg::encoder_on;
use crate::media::ffmpeg::encoders_on;
use crate::media::ffmpeg::is_split;
use crate::media::ffmpeg::part_end;
use crate::media::ffmpeg::too_old;
use crate::media::ffmpeg::version_in;
use crate::media::ffmpeg::without_n;
use crate::media::probe::audio_in;
use crate::media::probe::duration_in;
use crate::media::probe::first_video;
use crate::media::probe::rational_in;
use crate::media::probe::MediaProbe;
use crate::media::probe::RawStream;
use crate::media::probe::VideoStream;
use crate::media::reader::filter_stages;
use crate::media::reader::reader_arguments;
use crate::media::reader::step_of;
use crate::media::reader::timed;
use crate::media::reader::FrameReader;
use crate::media::reader::FrameReaderOptions;
use crate::media::run::rate_of;
use crate::media::run::without_x;
use crate::media::run::Progress;
use crate::media::still::still_width;
use crate::spelling::moments_read_back;
use crate::spelling::plain_letters_take_a_byte;
use crate::spelling::words_are_counted;
use crate::spelling::written_numbers_are_read;
use crate::text::decimal_digits;
use crate::text::digits_are_digits;
use crate::text::first_at;
use crate::text::first_at_is_first;
use crate::text::first_word;
use crate::text::is_space;
use crate::text::signed_digits;
use crate::text::six_places;
use crate::text::split_at_first;
use crate::text::text_of;
use crate::text::trimmed;
use crate::text::trimmed_start;

verus! {

/// A version is older than another when its first number is lower, or that is
/// the same and its second is: what is no older than one that is new enough is
/// new enough, and 5.1 is the first that is.
pub proof fn newer_versions_will_do(old: (u32, u32), new: (u32, u32))
    requires
        old.0 < new.0 || (old.0 == new.0 && old.1 <= new.1),
    ensures
        !too_old(old) ==> !too_old(new),
        !too_old((5, 1)),
        too_old((5, 0)),
        old.0 < 5 ==> too_old(old),
        new.0 > 5 ==> !too_old(new),
{
}

proof fn parts_end_at_a_split(digits: Seq<char>, rest: Seq<char>)
    requires
        forall|i: int| 0 <= i < digits.len() ==> '0' <= #[trigger] digits[i] <= '9',
        rest.len() > 0 ==> is_split(rest[0]),
    ensures
        part_end(digits + rest) == digits.len(),
    decreases digits.len(),
{
    let s = digits + rest;
    if digits.len() > 0 {
        assert(s[0] == digits[0]);
        assert(s.skip(1) =~= digits.skip(1) + rest);
        assert forall|i: int| 0 <= i < digits.skip(1).len() implies '0' <= #[trigger] digits.skip(
            1,
        )[i] <= '9' by {
            assert(digits.skip(1)[i] == digits[i + 1]);
        }
        parts_end_at_a_split(digits.skip(1), rest);
    } else {
        assert(s =~= rest);
    }
}

/// A version is its first two numbers, whatever comes after them, and with or
/// without the letter that a build from source control puts in front.
pub proof fn versions_are_their_first_two_numbers(major: u32, minor: u32, rest: Seq<char>)
    requires
        rest.len() > 0 ==> is_split(rest[0]),
    ensures
        ({
            let token = decimal_digits(major as nat) + seq!['.'] + decimal_digits(minor as nat)
                + rest;
            &&& version_in(token) == Some((major, minor))
            &&& version_in(seq!['n'] + token) == Some((major, minor))
            &&& version_in(decimal_digits(major as nat)) == Some((major, 0u32))
        }),
{
    let (first, second) = (decimal_digits(major as nat), decimal_digits(minor as nat));
    let token = first + seq!['.'] + second + rest;
    digits_are_digits(major as nat);
    digits_are_digits(minor as nat);
    written_numbers_are_read(major as nat, u32::MAX as nat, 0);
    written_numbers_are_read(minor as nat, u32::MAX as nat, 0);
    assert(token =~= first + (seq!['.'] + second + rest));
    parts_end_at_a_split(first, seq!['.'] + second + rest);
    parts_end_at_a_split(second, rest);
    parts_end_at_a_split(first, Seq::empty());
    assert(first + Seq::<char>::empty() =~= first);
    assert(token[0] == first[0]);
    assert(without_n(token) == token);
    assert(without_n(first) == first);
    assert(token.take(first.len() as int) =~= first);
    assert(token.skip(first.len() as int + 1) =~= second + rest);
    assert((second + rest).take(second.len() as int) =~= second);
    assert(first.take(first.len() as int) =~= first);
    let named = seq!['n'] + token;
    assert(named[0] == 'n');
    assert(named.skip(1) =~= token);
    assert(without_n(named) == token);
}

/// The encoders are those that the lines name, and no others.
pub proof fn every_named_encoder_is_there(lines: Seq<Seq<char>>, count: int, name: Seq<char>)
    requires
        0 <= count <= lines.len(),
    ensures
        encoders_on(lines, count).contains(name) <==> exists|i: int|
            0 <= i < count && encoder_on(#[trigger] lines[i]) == Some(name),
    decreases count,
{
    if count > 0 {
        every_named_encoder_is_there(lines, count - 1, name);
        if encoders_on(lines, count).contains(name) {
            if encoders_on(lines, count - 1).contains(name) {
                let i = choose|i: int|
                    0 <= i < count - 1 && encoder_on(#[trigger] lines[i]) == Some(name);
                assert(encoder_on(lines[i]) == Some(name));
            } else {
                assert(encoder_on(lines[count - 1]) == Some(name));
            }
        }
    }
}

/// A rate is two numbers with a slash between; one with a nought in it is none.
pub proof fn rates_are_two_numbers(top: u32, bottom: u32)
    ensures
        ({
            let text = decimal_digits(top as nat) + seq!['/'] + decimal_digits(bottom as nat);
            rational_in(Some(text)) == (if top > 0 && bottom > 0 {
                Some((top, bottom))
            } else {
                None
            })
        }),
{
    let (left, right) = (decimal_digits(top as nat), decimal_digits(bottom as nat));
    let text = left + seq!['/'] + right;
    digits_are_digits(top as nat);
    written_numbers_are_read(top as nat, u32::MAX as nat, 0);
    written_numbers_are_read(bottom as nat, u32::MAX as nat, 0);
    first_at_is_first(text, '/');
    let at = left.len() as int;
    assert(text[at] == '/');
    if first_at(text, '/') < at {
        assert(text[first_at(text, '/')] == left[first_at(text, '/')]);
    }
    assert(first_at(text, '/') == at);
    assert(text.take(at) =~= left);
    assert(text.skip(at + 1) =~= right);
}

/// A length that was stated to the microsecond is understood to the microsecond,
/// and one of nothing is not understood as a length.
pub proof fn lengths_are_understood(micros: nat)
    requires
        micros <= 0x7fff_ffff_ffff_ffff,
    ensures
        micros > 0 ==> duration_in(Some(six_places(micros))) == Some(micros as i64),
        micros == 0 ==> duration_in(Some(six_places(micros))) is None,
        duration_in(None) is None,
{
    moments_read_back(micros);
}

/// The picture is that of the first stream that is one.
pub proof fn the_first_picture_counts(streams: Seq<RawStream>, at: int)
    requires
        0 <= at <= streams.len(),
        forall|i: int|
            0 <= i < at ==> text_of((#[trigger] streams[i]).codec_type) != Some("video"@),
        at < streams.len() ==> text_of(streams[at].codec_type) == Some("video"@),
    ensures
        at == streams.len() ==> first_video(streams) is None,
        at < streams.len() ==> first_video(streams) == streams[at].as_video(),
    decreases streams.len(),
{
    if at > 0 {
        let rest = streams.skip(1);
        assert(text_of(streams[0].codec_type) != Some("video"@));
        assert forall|i: int| 0 <= i < at - 1 implies text_of((#[trigger] rest[i]).codec_type)
            != Some("video"@) by {
            assert(rest[i] == streams[i + 1]);
        }
        if at < streams.len() {
            assert(rest[at - 1] == streams[at]);
        }
        the_first_picture_counts(rest, at - 1);
    }
}

/// A picture has the size that was stated, and is interlaced where an order of
/// fields was stated and it is not that of a progressive one.
pub proof fn pictures_are_as_stated(stream: RawStream)
    ensures
        stream.as_video() is Some <==> stream.width is Some && stream.height is Some,
        stream.as_video() matches Some(video) ==> {
            &&& Some(video.width) == stream.width && Some(video.height) == stream.height
            &&& video.index == stream.index
            &&& stream.field_order is None ==> !video.interlaced
            &&& text_of(stream.field_order) == Some("progressive"@) ==> !video.interlaced
            &&& stream.field_order is Some && text_of(stream.field_order) != Some("progressive"@)
                ==> video.interlaced
        },
        rational_in(text_of(stream.avg_frame_rate)) matches Some(rate) ==> stream.rate() == rate,
        rational_in(text_of(stream.avg_frame_rate)) is None ==> (rational_in(
            text_of(stream.r_frame_rate),
        ) matches Some(rate) ==> stream.rate() == rate),
        rational_in(text_of(stream.avg_frame_rate)) is None && rational_in(
            text_of(stream.r_frame_rate),
        ) is None ==> stream.rate() == (30_000u32, 1_001u32),
{
}

/// Every stream of sound is there, in order, and nothing else is.
pub proof fn every_sound_is_there(streams: Seq<RawStream>, next: RawStream)
    ensures
        audio_in(Seq::empty()).len() == 0,
        text_of(next.codec_type) == Some("audio"@) ==> audio_in(streams.push(next)) == audio_in(
            streams,
        ).push(next.as_audio()),
        text_of(next.codec_type) != Some("audio"@) ==> audio_in(streams.push(next)) == audio_in(
            streams,
        ),
{
    assert(streams.push(next).drop_last() =~= streams);
}

/// Sound is two programmes in two streams only where there are two streams at
/// least and each of them is mono.
pub proof fn two_mono_streams_are_two_programmes(probe: MediaProbe)
    ensures
        probe.audio@.len() < 2 ==> !probe.dual_mono(),
        (exists|i: int| 0 <= i < probe.audio@.len() && (#[trigger] probe.audio@[i]).channels != 1)
            ==> !probe.dual_mono(),
        probe.audio@.len() == 2 && probe.audio@[0].channels == 1 && probe.audio@[1].channels == 1
            ==> probe.dual_mono(),
{
}

/// Each line of progress tells of one thing and leaves the rest as it was; one
/// that tells of nothing known changes nothing.
pub proof fn progress_is_told_line_by_line(
    progress: Progress,
    micros: i64,
    frames: u64,
    key: Seq<char>,
    value: Seq<char>,
)
    ensures
        progress.after("out_time_us"@, signed_digits(micros as int)) == (Progress {
            out_time_seconds: micros,
            ..progress
        }),
        progress.after("frame"@, decimal_digits(frames as nat)) == (Progress {
            frame: frames,
            ..progress
        }),
        progress.after("fps"@, value) == (Progress { fps: rate_of(value), ..progress }),
        progress.after("speed"@, value.push('x')) == progress.after("speed"@, value),
        progress.after("speed"@, value) == (Progress {
            speed: rate_of(without_x(value)),
            ..progress
        }),
        key != "out_time_us"@ && key != "out_time_ms"@ && key != "frame"@ && key != "fps"@ && key
            != "speed"@ ==> progress.after(key, value) == progress,
{
    written_numbers_are_read(frames as nat, u64::MAX as nat, micros as int);
    reveal_strlit("out_time_us");
    reveal_strlit("out_time_ms");
    reveal_strlit("frame");
    reveal_strlit("fps");
    reveal_strlit("speed");
    assert("frame"@[0] == 'f' && "frame"@[1] == 'r');
    assert("fps"@[0] == 'f' && "fps"@[1] == 'p');
    assert("speed"@[0] == 's');
    assert("out_time_us"@[0] == 'o' && "out_time_ms"@[0] == 'o');
    assert(value.push('x').drop_last() =~= value);
}

/// A report of progress is complete with the line that says so, and with no
/// other.
pub proof fn reports_end_with_progress(progress: Progress, line: Seq<char>)
    ensures
        progress.after_line(line).1 <==> (split_at_first(line, '=') matches Some((key, _))
            && trimmed(key) == "progress"@),
        split_at_first(line, '=') is None ==> progress.after_line(line) == (progress, false),
        split_at_first(line, '=') matches Some((key, value)) ==> progress.after_line(line).0
            == progress.after(trimmed(key), trimmed(value)),
{
}

/// What escaping did can be undone.
pub open spec fn unescaped(value: Seq<char>) -> Seq<char>
    decreases value.len(),
{
    if value.len() == 0 {
        Seq::empty()
    } else if value[0] == '\\' && value.len() >= 2 {
        seq![value[1]] + unescaped(value.skip(2))
    } else {
        seq![value[0]] + unescaped(value.skip(1))
    }
}

proof fn escaping_from_the_front(c: char, rest: Seq<char>)
    ensures
        escaped(seq![c] + rest) == escaped_char(c) + escaped(rest),
    decreases rest.len(),
{
    let whole = seq![c] + rest;
    if rest.len() == 0 {
        assert(whole.drop_last() =~= Seq::<char>::empty());
        assert(escaped(whole.drop_last()) == Seq::<char>::empty());
        assert(escaped(whole) =~= escaped_char(c) + escaped(rest));
    } else {
        let shorter = rest.drop_last();
        escaping_from_the_front(c, shorter);
        assert(whole.drop_last() =~= seq![c] + shorter);
        assert(whole.last() == rest.last());
        assert(escaped(whole) =~= escaped_char(c) + escaped(rest));
    }
}

/// A title reads back as it was: whatever has a meaning in the file is marked as
/// having none. Only the end of a line is not kept; it gives way to a space.
pub proof fn titles_read_back(title: Seq<char>)
    ensures
        unescaped(escaped(title)) == title.map_values(|c: char| if c == '\n' { ' ' } else { c }),
    decreases title.len(),
{
    let shown = title.map_values(|c: char| if c == '\n' { ' ' } else { c });
    if title.len() > 0 {
        let (c, rest) = (title[0], title.skip(1));
        assert(title =~= seq![c] + rest);
        escaping_from_the_front(c, rest);
        titles_read_back(rest);
        let whole = escaped(title);
        let tail = escaped(rest);
        if is_syntax(c) {
            assert(whole[0] == '\\');
            assert(whole.skip(2) =~= tail);
        } else {
            assert(whole[0] == c);
            assert(whole.skip(1) =~= tail);
        }
        assert(unescaped(whole) =~= shown);
    } else {
        assert(unescaped(escaped(title)) =~= shown);
    }
}

/// Chapters are written one after the other, each with an entry of its own, under
/// a heading.
pub proof fn every_chapter_has_an_entry(chapters: Seq<ChapterView>, next: ChapterView)
    ensures
        metadata_of(Seq::empty()) == ";FFMETADATA1\n"@,
        metadata_of(chapters.push(next)) == metadata_of(chapters) + chapter_entry(next),
{
    assert(chapters.push(next).drop_last() =~= chapters);
}

/// A moment is written in milliseconds, to the nearest; one before the beginning
/// is the beginning.
pub proof fn milliseconds_are_the_nearest(micros: int)
    ensures
        micros > 0 ==> -500 <= in_milliseconds(micros) * 1_000 - micros <= 500,
        micros <= 0 ==> in_milliseconds(micros) == 0,
{
    if micros > 0 {
        nearest_bounds(micros, 1_000);
    }
}

/// A still is as wide as asked, but never under 160 pixels nor over 1920.
pub proof fn stills_are_of_a_sensible_width(width: u32, wider: u32)
    requires
        width <= wider,
    ensures
        160 <= still_width(width) <= still_width(wider) <= 1_920,
        160 <= width <= 1_920 ==> still_width(width) == width,
{
}

/// Frames are deinterlaced before any are left out, left out before any are
/// made smaller, and grey in the end; each step is there only where it was
/// asked for.
pub proof fn frames_are_read_in_order(options: FrameReaderOptions)
    ensures
        ({
            let step = step_of(options);
            let stages = filter_stages(options, step);
            let first: int = if options.deinterlace { 1 } else { 0 };
            let second: int = if options.select_every > 1 { 1 } else { 0 };
            let third: int = if options.scale is Some { 1 } else { 0 };
            &&& step >= 1
            &&& options.select_every > 1 ==> step == options.select_every
            &&& stages.len() == first + second + third + 1
            &&& stages.last() == "format=gray"@
            &&& options.deinterlace ==> stages[0] == "bwdif=mode=send_frame:parity=auto:deint=all"@
            &&& second == 1 ==> stages[first] == "select='not(mod(n\\,"@ + decimal_digits(
                options.select_every as nat,
            ) + "))'"@
            &&& options.scale matches Some((width, height)) ==> stages[first + second] == "scale="@
                + decimal_digits(width as nat) + ":"@ + decimal_digits(height as nat)
                + ":flags=bilinear"@
        }),
{
}

/// A line of the listing names an encoder in its second word, after six flags
/// and behind a space; a line that begins with anything else, or whose first
/// word is of another length, names none.
pub proof fn encoders_are_named_after_their_flags(
    flags: Seq<char>,
    name: Seq<char>,
    rest: Seq<char>,
)
    requires
        flags.len() > 0,
        name.len() > 0,
        forall|i: int|
            0 <= i < flags.len() ==> !is_space(#[trigger] flags[i]) && (flags[i] as u32) < 0x80,
        forall|i: int| 0 <= i < name.len() ==> !is_space(#[trigger] name[i]),
        rest.len() > 0 ==> is_space(rest[0]),
        name != "="@,
    ensures
        ({
            let line = seq![' '] + flags + seq![' '] + name + rest;
            &&& flags.len() == 6 ==> encoder_on(line) == Some(name)
            &&& flags.len() != 6 ==> encoder_on(line) is None
            &&& encoder_on(flags + rest) is None
        }),
{
    let line = seq![' '] + flags + seq![' '] + name + rest;
    let after = seq![' '] + name + rest;
    assert(is_space(' '));
    assert(line[0] == ' ');
    assert(line.skip(1) =~= flags + after);
    words_are_counted(' ', flags, after, 0);
    plain_letters_take_a_byte(flags);
    assert((flags + after)[0] == flags[0]);
    assert(trimmed_start(flags + after) == flags + after);
    assert((flags + after).skip(flags.len() as int) =~= after);
    assert(after =~= seq![' '] + (name + rest));
    words_are_counted(' ', name, rest, 0);
    assert(after.skip(1) =~= name + rest);
    assert(after[0] == ' ');
    assert(trimmed_start(after) == trimmed_start(name + rest));
    assert(first_word(after) == Some(name));
    assert((flags + rest)[0] == flags[0]);
}

/// A frame's moment counts from where reading began.
pub proof fn moments_count_from_the_start(reader: FrameReader, index: u64, at: i64)
    requires
        call_ensures(FrameReader::timestamp, (&reader, index), at),
    ensures
        at - reader.start_offset == reader.spacing.moment(index as int),
{
}

/// A rate is told in millionths, to the nearest: a whole number of frames in a
/// second is told exactly.
pub proof fn whole_rates_are_told_exactly(video: VideoStream, rate: u64, frames: int)
    requires
        call_ensures(VideoStream::fps, (&video,), rate),
        video.frame_rate.1 > 0,
        video.frame_rate.0 == frames * video.frame_rate.1,
    ensures
        rate == frames * 1_000_000,
{
    let bottom = video.frame_rate.1 as int;
    assert((frames * bottom) * 1_000_000 == (frames * 1_000_000) * bottom) by (nonlinear_arith);
    nearest_of_multiple(frames * 1_000_000, bottom);
}

/// A moment is sought, or a length asked for, only where it is after nothing.
pub proof fn only_real_moments_are_sought(flag: Seq<char>, moment: Option<i64>)
    ensures
        moment is None || moment->Some_0 <= 0 ==> timed(flag, moment).len() == 0,
        moment matches Some(at) ==> at > 0 ==> timed(flag, moment) == seq![
            flag,
            six_places(at as nat),
        ],
{
}

/// A moment is sought before the input is opened, and a length is cut after it.
pub proof fn seeking_comes_before_reading(input: Seq<char>, options: FrameReaderOptions)
    ensures
        ({
            let args = reader_arguments(input, options);
            let sought = timed("-ss"@, options.start_seconds).len() as int;
            let helped: int = if options.hwaccel is Some { 2 } else { 0 };
            &&& sought > 0 ==> args[0] == "-ss"@ && args[1] == six_places(
                options.start_seconds->Some_0 as nat,
            )
            &&& args[sought + helped + 2] == "-i"@
            &&& args[sought + helped + 3] == input
            &&& options.duration_seconds matches Some(length) ==> length > 0 ==> args[sought
                + helped + 4] == "-t"@ && args[sought + helped + 5] == six_places(length as nat)
            &&& args.last() == "-"@
        }),
{
}

} // verus!
