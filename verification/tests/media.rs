use asaborake::media::audio::envelope_args;
use asaborake::media::audio::window_level;
use asaborake::media::audio::EnvelopeBuilder;
use asaborake::media::audio::RmsEnvelope;
use asaborake::media::audio::FULL_SCALE;
use asaborake::media::audio::SILENCE_FLOOR_DBFS;
use asaborake::media::encode::ffmetadata;
use asaborake::media::encode::progress_args;
use asaborake::media::encode::Chapter;
use asaborake::media::ffmpeg::parse_encoders;
use asaborake::media::ffmpeg::parse_version;
use asaborake::media::ffmpeg::Ffmpeg;
use asaborake::media::ffmpeg::MINIMUM_FFMPEG_VERSION;
use asaborake::media::frames::Frame;
use asaborake::media::frames::FrameSpacing;
use asaborake::media::probe::interpret;
use asaborake::media::probe::parse_rational;
use asaborake::media::probe::probe_args;
use asaborake::media::probe::AudioStream;
use asaborake::media::probe::MediaProbe;
use asaborake::media::probe::RawProbe;
use asaborake::media::probe::RawStream;
use asaborake::media::probe::VideoStream;
use asaborake::media::reader::build_filter;
use asaborake::media::reader::FrameReader;
use asaborake::media::reader::FrameReaderOptions;
use asaborake::media::run::Progress;
use asaborake::media::run::StderrTail;
use asaborake::media::run::STDERR_TAIL_LINES;
use asaborake::media::still::still_args;
use asaborake::media::Error;

fn micros(seconds: f64) -> i64 {
    (seconds * 1e6).round() as i64
}

/// A level below full scale, as mean power.
fn decibels(level: f64) -> u64 {
    (FULL_SCALE as f64 * 10f64.powf(level / 10.0)).round() as u64
}

/// Mean power as a level below full scale.
fn level_of(power: u64) -> f64 {
    10.0 * (power as f64 / FULL_SCALE as f64).log10()
}

fn samples_to_bytes(samples: &[i16]) -> Vec<u8> {
    samples.iter().flat_map(|s| s.to_le_bytes()).collect()
}

#[test]
fn digital_silence_reports_the_floor() {
    assert_eq!(window_level(&samples_to_bytes(&[0; 160])), SILENCE_FLOOR_DBFS);
}

#[test]
fn full_scale_reports_roughly_zero_dbfs() {
    let level = level_of(window_level(&samples_to_bytes(&[i16::MAX; 160])));
    assert!(level.abs() < 0.01, "{level}");
}

#[test]
fn half_scale_is_about_minus_six_db() {
    let level = level_of(window_level(&samples_to_bytes(&[i16::MAX / 2; 160])));
    assert!((level + 6.0).abs() < 0.1, "level was {level}");
}

fn envelope(levels: &[f64]) -> RmsEnvelope {
    RmsEnvelope {
        window_seconds: micros(0.02),
        windows: levels.iter().map(|level| decibels(*level)).collect(),
    }
}

#[test]
fn finds_a_silent_span_that_meets_the_minimum_duration() {
    let mut levels = vec![-20.0; 10];
    for level in levels.iter_mut().take(8).skip(2) {
        *level = -80.0;
    }
    let spans = envelope(&levels).silent_spans(decibels(-50.0), micros(0.1));
    assert_eq!(spans, vec![(micros(0.04), micros(0.16))]);
}

#[test]
fn ignores_a_pause_shorter_than_the_minimum() {
    let mut levels = vec![-20.0; 10];
    levels[4] = -80.0;
    levels[5] = -80.0;
    assert!(envelope(&levels).silent_spans(decibels(-50.0), micros(0.3)).is_empty());
}

#[test]
fn closes_a_silent_run_that_reaches_the_end() {
    let mut levels = vec![-20.0; 10];
    for level in levels.iter_mut().skip(4) {
        *level = -80.0;
    }
    let spans = envelope(&levels).silent_spans(decibels(-50.0), micros(0.1));
    assert_eq!(spans.len(), 1);
    assert_eq!(spans[0].1, micros(0.2));
}

#[test]
fn level_lookup_is_bounded_by_the_envelope() {
    let e = envelope(&[-10.0, -20.0, -30.0]);
    assert_eq!(e.level_at(0), Some(decibels(-10.0)));
    assert_eq!(e.level_at(micros(0.03)), Some(decibels(-20.0)));
    assert_eq!(e.level_at(micros(1.0)), None);
    assert_eq!(e.level_at(micros(-1.0)), None);
    assert_eq!(e.duration_seconds(), micros(0.06));
    assert_eq!(e.window_start(2), micros(0.04));
}

#[test]
fn an_envelope_is_built_window_by_window() {
    let mut builder = EnvelopeBuilder::new(micros(0.02));
    // 160 samples of two bytes at 8 kHz.
    assert_eq!(builder.chunk_size(), 320);
    assert!(builder.accept(&samples_to_bytes(&[0; 160])));
    assert!(builder.accept(&samples_to_bytes(&[i16::MAX; 160])));
    let _ = builder.accept(&samples_to_bytes(&[i16::MAX; 10]));
    let envelope = builder.finish();
    assert_eq!(envelope.window_seconds, micros(0.02));
    assert_eq!(envelope.windows[0], SILENCE_FLOOR_DBFS);
    assert!(envelope.windows[1] > decibels(-0.01));
    assert!(envelope_args("in.ts").contains(&"in.ts".to_owned()));
}

fn chapter(start: f64, end: f64, title: &str) -> Chapter {
    Chapter {
        start_seconds: micros(start),
        end_seconds: micros(end),
        title: title.to_owned(),
    }
}

#[test]
fn renders_chapters_with_a_millisecond_timebase() {
    let text = ffmetadata(&[chapter(0.0, 90.5, "Programme"), chapter(90.5, 150.0, "CM")]);
    assert!(text.starts_with(";FFMETADATA1\n"));
    assert!(text.contains("TIMEBASE=1/1000"));
    assert!(text.contains("START=0\nEND=90500\ntitle=Programme"));
    assert!(text.contains("START=90500\nEND=150000\ntitle=CM"));
}

#[test]
fn escapes_metadata_syntax_in_titles() {
    let text = ffmetadata(&[chapter(0.0, 1.0, "News #1 = live; part\\2")]);
    assert!(text.contains("title=News \\#1 \\= live\\; part\\\\2"), "got: {text}");
}

#[test]
fn replaces_newlines_rather_than_ending_the_entry() {
    let text = ffmetadata(&[chapter(0.0, 1.0, "two\nlines")]);
    assert!(text.contains("title=two\\ lines"), "got: {text}");
    assert_eq!(text.matches("[CHAPTER]").count(), 1);
}

#[test]
fn a_zero_length_chapter_does_not_end_before_it_starts() {
    assert!(ffmetadata(&[chapter(10.0, 5.0, "degenerate")]).contains("START=10000\nEND=10000"));
}

#[test]
fn progress_args_request_machine_readable_output() {
    assert_eq!(progress_args(), ["-progress", "pipe:1", "-nostats"]);
}

#[test]
fn parses_distribution_version_banners() {
    assert_eq!(parse_version("ffmpeg version 6.1.1 Copyright (c) 2000-2023"), Some((6, 1)));
    assert_eq!(parse_version("ffmpeg version n7.0 Copyright"), Some((7, 0)));
    assert_eq!(parse_version("ffmpeg version 5.1.4-0+deb12u1 Copyright"), Some((5, 1)));
    assert_eq!(parse_version("ffmpeg version 4 Copyright"), Some((4, 0)));
}

#[test]
fn rejects_a_banner_with_no_version() {
    assert_eq!(parse_version("something else entirely"), None);
    assert_eq!(parse_version("ffmpeg version git-2024-01-01 Copyright"), None);
}

#[test]
fn minimum_version_is_the_one_that_introduced_fps_mode() {
    assert!(MINIMUM_FFMPEG_VERSION >= (5, 1));
}

fn listing() -> Vec<String> {
    vec![
        "Encoders:".to_owned(),
        " V..... = Video".to_owned(),
        " ------".to_owned(),
        " V....D libx264              libx264 H.264 / AVC".to_owned(),
        " A....D aac                  AAC (Advanced Audio Coding)".to_owned(),
        " V....D h264_nvenc           NVIDIA NVENC H.264 encoder".to_owned(),
    ]
}

#[test]
fn an_installation_is_described_by_its_banner_and_listing() {
    let encoders = parse_encoders(&listing());
    assert_eq!(encoders, ["aac", "h264_nvenc", "libx264"]);
    let found = Ffmpeg::describe(
        "/usr/bin/ffmpeg".to_owned(),
        "/usr/bin/ffprobe".to_owned(),
        "ffmpeg version 6.1.1 Copyright",
        &listing(),
    )
    .expect("a usable build");
    assert_eq!(found.version(), (6, 1));
    assert_eq!(found.ffmpeg_path(), "/usr/bin/ffmpeg");
    assert_eq!(found.ffprobe_path(), "/usr/bin/ffprobe");
    assert!(found.has_encoder("aac"));
    assert!(!found.has_encoder("hevc_nvenc"));
    assert_eq!(found.encoders(), encoders);
    assert_eq!(found.command(), ["-hide_banner", "-nostdin", "-loglevel", "error"]);
}

#[test]
fn an_installation_that_cannot_be_used_is_refused() {
    let describe = |banner: &str| {
        Ffmpeg::describe("ffmpeg".to_owned(), "ffprobe".to_owned(), banner, &listing())
    };
    let unreadable = describe("no idea").expect_err("no version");
    assert_eq!(unreadable, Error::FfmpegUnreadableVersion { path: "ffmpeg".to_owned() });
    assert_eq!(unreadable.message(), "cannot determine the version of ffmpeg");
    let old = describe("ffmpeg version 4.4.2 Copyright").expect_err("too old");
    assert_eq!(old, Error::FfmpegTooOld { found: (4, 4), required: (5, 1) });
    assert_eq!(
        old.message(),
        "ffmpeg 4.4 is too old; 5.1 or newer is required for -fps_mode"
    );
}

#[test]
fn every_media_error_says_what_happened() {
    assert_eq!(
        Error::FfmpegMissing { path: "ffmpeg".to_owned() }.message(),
        "cannot run ffmpeg; is ffmpeg installed and on PATH?"
    );
    assert_eq!(Error::Spawn { program: "sh".to_owned() }.message(), "failed to start sh");
    let failed = |code| Error::Failed {
        program: "ffmpeg".to_owned(),
        code,
        stderr: "the real cause".to_owned(),
    };
    assert_eq!(failed(Some(3)).message(), "ffmpeg exited with status 3\nthe real cause");
    assert_eq!(failed(None).message(), "ffmpeg exited with a signal\nthe real cause");
    assert_eq!(Error::Io.message(), "i/o error while talking to ffmpeg");
    assert_eq!(
        Error::ProbeParse { path: "in.ts".to_owned() }.message(),
        "cannot interpret ffprobe output for in.ts"
    );
    assert_eq!(
        Error::NoVideoStream { path: "in.ts".to_owned() }.message(),
        "in.ts has no video stream"
    );
}

#[test]
fn filter_chain_is_minimal_by_default() {
    assert_eq!(build_filter(&FrameReaderOptions::default(), 1), "format=gray");
}

#[test]
fn filter_chain_orders_deinterlace_before_decimation_and_scale() {
    let options = FrameReaderOptions {
        deinterlace: true,
        scale: Some((320, 180)),
        select_every: 5,
        ..FrameReaderOptions::default()
    };
    let chain = build_filter(&options, 5);
    let deinterlace = chain.find("bwdif").expect("bwdif present");
    let select = chain.find("select").expect("select present");
    let scale = chain.find("scale=").expect("scale present");
    assert!(deinterlace < select && select < scale, "unexpected order: {chain}");
    assert!(chain.ends_with("format=gray"), "chain was {chain}");
}

#[test]
fn decimation_escapes_the_comma_ffmpeg_would_read_as_a_separator() {
    let options = FrameReaderOptions { select_every: 3, ..FrameReaderOptions::default() };
    assert!(build_filter(&options, 3).contains("mod(n\\,3)"));
}

fn frame(width: u32, height: u32, luma: &[u8]) -> Frame<'_> {
    Frame { index: 0, timestamp: 0, width, height, luma }
}

#[test]
fn pixel_reads_are_bounds_checked() {
    let data = [10u8, 20, 30, 40];
    let f = frame(2, 2, &data);
    assert_eq!(f.pixel(0, 0), Some(10));
    assert_eq!(f.pixel(1, 1), Some(40));
    assert_eq!(f.pixel(2, 0), None);
    assert_eq!(f.pixel(0, 2), None);
}

#[test]
fn downscale_averages_each_source_block() {
    let mut data = vec![0u8; 16];
    for y in 0..4usize {
        for x in 0..4usize {
            let block = (y / 2) * 2 + (x / 2);
            data[y * 4 + x] = [10u8, 20, 30, 40][block];
        }
    }
    let f = frame(4, 4, &data);
    let mut out = vec![0u8; 4];
    f.downscale_into(2, 2, &mut out);
    assert_eq!(out, vec![10, 20, 30, 40]);
}

#[test]
fn downscale_ignores_an_undersized_destination() {
    let data = vec![255u8; 16];
    let f = frame(4, 4, &data);
    let mut out = vec![0u8; 2];
    f.downscale_into(2, 2, &mut out);
    assert_eq!(out, vec![0, 0], "must not write past the buffer");
}

fn video() -> VideoStream {
    VideoStream {
        index: 0,
        codec: "mpeg2video".to_owned(),
        width: 1440,
        height: 1080,
        frame_rate: (30_000, 1_001),
        pixel_format: "yuv420p".to_owned(),
        interlaced: true,
    }
}

#[test]
fn a_reader_knows_its_frames_before_it_starts() {
    let options = FrameReaderOptions {
        select_every: 10,
        start_seconds: Some(micros(1.5)),
        ..FrameReaderOptions::default()
    };
    let reader = FrameReader::open("in.ts", Some(&video()), &options).expect("opens");
    assert_eq!((reader.width(), reader.height()), (1440, 1080));
    assert_eq!(
        reader.seconds_per_frame(),
        FrameSpacing { micros: 10_010_000_000, frames: 30_000 }
    );
    assert_eq!(reader.timestamp(0), micros(1.5));
    assert_eq!(reader.timestamp(3), micros(1.5) + 1_001_000);
    assert_eq!(reader.args[..2], ["-ss".to_owned(), "1.500000".to_owned()]);
    assert!(reader.args.contains(&"passthrough".to_owned()));
    let refused = FrameReader::open("in.ts", None, &options).expect_err("no picture");
    assert_eq!(refused, Error::NoVideoStream { path: "in.ts".to_owned() });
    let mut flat = video();
    flat.height = 0;
    assert!(FrameReader::open("in.ts", Some(&flat), &options).is_err());
}

#[test]
fn parses_valid_rationals_and_rejects_the_unknown_marker() {
    assert_eq!(parse_rational(Some("30000/1001")), Some((30000, 1001)));
    assert_eq!(parse_rational(Some("25/1")), Some((25, 1)));
    assert_eq!(parse_rational(Some("0/0")), None);
    assert_eq!(parse_rational(Some("30")), None);
    assert_eq!(parse_rational(None), None);
}

#[test]
fn dual_mono_is_two_single_channel_streams() {
    let stream = |index, channels| AudioStream {
        index,
        codec: "aac".to_owned(),
        channels,
        sample_rate: 48_000,
        language: None,
    };
    let dual = MediaProbe {
        duration_seconds: Some(micros(60.0)),
        video: None,
        audio: vec![stream(1, 1), stream(2, 1)],
    };
    assert!(dual.is_dual_mono());
    let single = MediaProbe {
        duration_seconds: Some(micros(60.0)),
        video: None,
        audio: vec![stream(1, 2)],
    };
    assert!(!single.is_dual_mono());
}

fn raw(index: u32, kind: &str) -> RawStream {
    RawStream {
        index,
        codec_type: Some(kind.to_owned()),
        codec_name: None,
        width: None,
        height: None,
        avg_frame_rate: None,
        r_frame_rate: None,
        pix_fmt: None,
        field_order: None,
        channels: None,
        sample_rate: None,
        language: None,
    }
}

fn text(value: &str) -> Option<String> {
    Some(value.to_owned())
}

#[test]
fn interprets_an_ffprobe_document() {
    let document = RawProbe {
        streams: vec![
            RawStream {
                codec_name: text("mpeg2video"),
                width: Some(1440),
                height: Some(1080),
                avg_frame_rate: text("30000/1001"),
                r_frame_rate: text("30000/1001"),
                pix_fmt: text("yuv420p"),
                field_order: text("tt"),
                ..raw(0, "video")
            },
            RawStream {
                codec_name: text("aac"),
                channels: Some(2),
                sample_rate: text("48000"),
                language: text("jpn"),
                ..raw(1, "audio")
            },
        ],
        duration: text("1800.5"),
    };
    let probe = interpret(&document);
    assert_eq!(probe.duration_seconds, Some(micros(1800.5)));
    assert_eq!(probe.video, Some(video()));
    assert_eq!(probe.audio.len(), 1);
    assert_eq!(probe.audio[0].codec, "aac");
    assert_eq!(probe.audio[0].language.as_deref(), Some("jpn"));
    assert_eq!(video().fps(), 29_970_030);
    assert_eq!(probe_args("in.ts").last().map(String::as_str), Some("in.ts"));
}

#[test]
fn what_ffprobe_leaves_out_is_filled_in() {
    let document = RawProbe {
        streams: vec![
            raw(0, "data"),
            RawStream {
                width: Some(720),
                height: Some(480),
                avg_frame_rate: text("0/0"),
                ..raw(1, "video")
            },
            RawStream { sample_rate: text("loud"), ..raw(2, "audio") },
        ],
        duration: text("N/A"),
    };
    let probe = interpret(&document);
    assert_eq!(probe.duration_seconds, None);
    let video = probe.video.expect("a video stream");
    assert_eq!(video.frame_rate, (30_000, 1_001));
    assert_eq!(video.codec, "unknown");
    assert_eq!(video.pixel_format, "yuv420p");
    assert!(!video.interlaced);
    assert_eq!((probe.audio[0].channels, probe.audio[0].sample_rate), (2, 48_000));
}

#[test]
fn falls_back_to_the_nominal_rate_when_the_average_is_unknown() {
    assert_eq!(
        parse_rational(Some("0/0")).or_else(|| parse_rational(Some("30000/1001"))),
        Some((30000, 1001))
    );
}

#[test]
fn parses_progress_blocks_into_snapshots() {
    let lines = [
        "frame=10",
        "fps=25.0",
        "out_time_us=400000",
        "speed=1.5x",
        "progress=continue",
        "frame=20",
        "out_time_us=800000",
        "progress=end",
    ];
    let mut progress = Progress::default();
    let mut seen = Vec::new();
    for line in lines {
        if progress.read_line(line) {
            seen.push(progress);
        }
    }
    assert_eq!(seen.len(), 2);
    assert_eq!(seen[0].frame, 10);
    assert_eq!(seen[0].out_time_seconds, micros(0.4));
    assert_eq!(seen[0].speed, Some(1_500_000));
    assert_eq!(seen[0].fps, Some(25_000_000));
    assert_eq!(seen[1].frame, 20);
    assert_eq!(seen[1].out_time_seconds, micros(0.8));
}

#[test]
fn stderr_tail_is_bounded() {
    let mut tail = StderrTail::new();
    for i in 1..=200 {
        tail.push(format!("line{i}"));
    }
    let stderr = tail.text();
    let lines = stderr.lines().count();
    assert!(lines <= STDERR_TAIL_LINES, "kept {lines} lines");
    assert!(stderr.contains("line200"), "the tail must include the end");
    assert!(!stderr.contains("line1\n"), "the head should be dropped");
}

#[test]
fn an_absurd_width_is_clamped_rather_than_honoured() {
    let filter = |width| still_args("in.ts", 0, width)[12].clone();
    assert_eq!(filter(100_000), "scale=w=1920:h=trunc(1920/dar/2)*2,setsar=1");
    assert_eq!(filter(0), "scale=w=160:h=trunc(160/dar/2)*2,setsar=1");
    assert_eq!(filter(320), "scale=w=320:h=trunc(320/dar/2)*2,setsar=1");
}

#[test]
fn a_still_is_sought_before_it_is_decoded() {
    let args = still_args("in.ts", micros(2.0), 160);
    assert_eq!(args[..2], ["-ss".to_owned(), "2.000".to_owned()]);
    assert_eq!(still_args("in.ts", 0, 160)[0], "-fflags");
}

#[test]
fn a_window_may_be_as_long_as_it_likes() {
    let mut builder = EnvelopeBuilder::new(micros(120.0));
    assert_eq!(builder.chunk_size(), 1_920_000);
    assert!(builder.accept(&samples_to_bytes(&vec![0; 960_000])));
    assert!(!builder.accept(&samples_to_bytes(&[i16::MAX; 3])));
    let envelope = builder.finish();
    assert_eq!(envelope.windows, [SILENCE_FLOOR_DBFS, 1_000_000_000_000]);
}

#[test]
fn a_level_is_rounded_down() {
    // A mean square of (1 / 32767)^2, which is 931.37 trillionths.
    assert_eq!(window_level(&samples_to_bytes(&[1; 8])), 931);
    assert_eq!(window_level(&samples_to_bytes(&[i16::MIN; 8])), 1_000_061_037_950);
}
