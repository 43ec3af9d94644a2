use asaborake::analyze::logo::model::LogoData;
use asaborake::analyze::logo::model::Rect;
use asaborake::analyze::logo::track::LogoInterval;
use asaborake::analyze::Analysis;
use asaborake::analyze::AnalysisProgress;
use asaborake::analyze::LogoSummary;
use asaborake::analyze::Stage;
use asaborake::cmcut::plan::CutPlan;
use asaborake::cmcut::plan::Decision;
use asaborake::cmcut::plan::KeepRange;
use asaborake::cmcut::score::LowConfidencePolicy;
use asaborake::cmcut::score::SegmentKind;
use asaborake::cmcut::solve::Segment;
use asaborake::engine::channels::ChannelSettings;
use asaborake::engine::channels::ChannelStore;
use asaborake::engine::chapters::chapters_for;
use asaborake::engine::chapters::is_summable;
use asaborake::engine::chapters::source_to_output;
use asaborake::engine::diagnostics::Diagnostics;
use asaborake::engine::diagnostics::DualMono;
use asaborake::engine::encode::build_command;
use asaborake::engine::encode::encode;
use asaborake::engine::encode::encoded_share;
use asaborake::engine::encode::filter_graph;
use asaborake::engine::encode::select_expression;
use asaborake::engine::encode::AudioPlan;
use asaborake::engine::encode::EncodeRequest;
use asaborake::engine::naming::expand;
use asaborake::engine::naming::rename;
use asaborake::engine::naming::sanitise;
use asaborake::engine::naming::Fields;
use asaborake::engine::naming::RecordedAt;
use asaborake::engine::parts::numbered;
use asaborake::engine::parts::split;
use asaborake::engine::parts::Part;
use asaborake::engine::parts::FOREVER;
use asaborake::engine::pipeline::analysis_progress;
use asaborake::engine::pipeline::are_splits_in_time;
use asaborake::engine::pipeline::begin;
use asaborake::engine::pipeline::check_confidence;
use asaborake::engine::pipeline::decide;
use asaborake::engine::pipeline::describe;
use asaborake::engine::pipeline::done_progress;
use asaborake::engine::pipeline::encode_progress;
use asaborake::engine::pipeline::inspect;
use asaborake::engine::pipeline::is_fit;
use asaborake::engine::pipeline::is_transport_stream;
use asaborake::engine::pipeline::report;
use asaborake::engine::pipeline::retime;
use asaborake::engine::pipeline::sidecar;
use asaborake::engine::pipeline::sidecar_path;
use asaborake::engine::pipeline::JobRequest;
use asaborake::engine::profile::builtin;
use asaborake::engine::profile::AudioSettings;
use asaborake::engine::profile::Container;
use asaborake::engine::profile::FilterSettings;
use asaborake::engine::profile::Profile;
use asaborake::engine::profile::ProfileStore;
use asaborake::engine::profile::StoredProfile;
use asaborake::engine::profile::VideoSettings;
use asaborake::engine::rules::Candidate;
use asaborake::engine::rules::Rule;
use asaborake::engine::rules::RuleSet;
use asaborake::engine::store::accept_stored;
use asaborake::engine::store::logo_files;
use asaborake::engine::store::mark_files;
use asaborake::engine::store::LogoStore;
use asaborake::engine::Error;
use asaborake::media::encode::Chapter;
use asaborake::media::ffmpeg::Ffmpeg;
use asaborake::media::frames::FrameSpacing;
use asaborake::media::probe::AudioStream;
use asaborake::media::probe::MediaProbe;
use asaborake::media::probe::VideoStream;
use asaborake::textmap::TextMap;
use asaborake::ts::AudioComponent;
use asaborake::ts::Caption;
use asaborake::ts::FormatChange;
use asaborake::ts::ProgramInfo;
use asaborake::ts::StreamInfo;
use asaborake::ts::StreamKind;
use asaborake::ts::TsInfo;
use asaborake::ts::TsStats;
use asaborake::ts::VideoFormat;

fn micros(seconds: f64) -> i64 {
    (seconds * 1e6).round() as i64
}

fn text(value: &str) -> Option<String> {
    Some(value.to_owned())
}

fn range(start: f64, end: f64) -> KeepRange {
    KeepRange { start: micros(start), end: micros(end) }
}

// Channels.

#[test]
fn a_channel_nobody_configured_gets_the_old_behaviour() {
    let settings = ChannelStore::new().get("1024");
    assert!(settings.detect_commercials);
    assert_eq!(settings.profile, None);
}

#[test]
fn settings_survive_a_round_trip() {
    let mut store = ChannelStore::new();
    store.set(
        "1024".to_owned(),
        ChannelSettings {
            name: text("NHK総合"),
            detect_commercials: false,
            profile: text("nvenc-hevc"),
        },
    );
    let read = store.get("1024");
    assert!(!read.detect_commercials);
    assert_eq!(read.profile.as_deref(), Some("nvenc-hevc"));
    assert_eq!(read.name.as_deref(), Some("NHK総合"));
    assert!(store.get("1040").detect_commercials);
}

#[test]
fn one_channel_can_be_changed_without_disturbing_the_rest() {
    let mut store = ChannelStore::new();
    store.set("1024".to_owned(), ChannelSettings::default());
    store.set(
        "1040".to_owned(),
        ChannelSettings { detect_commercials: false, ..ChannelSettings::default() },
    );
    assert_eq!(store.all().len(), 2);
    assert!(store.get("1024").detect_commercials);
    assert!(!store.get("1040").detect_commercials);
    assert!(store.remove("1024"));
    assert!(!store.remove("1024"), "already gone");
    assert_eq!(store.all().len(), 1);
}

// Chapters.

fn segment(start: f64, end: f64, kind: SegmentKind) -> Segment {
    Segment { start: micros(start), end: micros(end), kind, confidence: 900_000 }
}

fn segments() -> Vec<Segment> {
    vec![
        segment(0.0, 300.0, SegmentKind::Programme),
        segment(300.0, 390.0, SegmentKind::Commercial),
        segment(390.0, 900.0, SegmentKind::Programme),
    ]
}

fn keep() -> Vec<KeepRange> {
    vec![range(0.0, 300.0), range(390.0, 900.0)]
}

#[test]
fn source_times_map_onto_a_gapless_output_timeline() {
    let keep = keep();
    assert_eq!(source_to_output(&keep, micros(0.0)), Some(micros(0.0)));
    assert_eq!(source_to_output(&keep, micros(150.0)), Some(micros(150.0)));
    assert_eq!(source_to_output(&keep, micros(390.0)), Some(micros(300.0)));
    assert_eq!(source_to_output(&keep, micros(900.0)), Some(micros(810.0)));
}

#[test]
fn a_time_inside_a_removed_stretch_has_no_output_position() {
    let keep = keep();
    assert_eq!(source_to_output(&keep, micros(340.0)), None);
    assert_eq!(source_to_output(&keep, micros(1000.0)), None);
}

#[test]
fn cutting_yields_one_chapter_per_surviving_part() {
    let chapters = chapters_for(&segments(), &keep(), Decision::Cut);
    assert_eq!(
        chapters,
        vec![
            Chapter {
                start_seconds: 0,
                end_seconds: micros(300.0),
                title: "Part 1".to_owned()
            },
            Chapter {
                start_seconds: micros(300.0),
                end_seconds: micros(810.0),
                title: "Part 2".to_owned()
            },
        ]
    );
}

#[test]
fn chapters_are_contiguous_after_cutting() {
    let chapters = chapters_for(&segments(), &keep(), Decision::Cut);
    for pair in chapters.windows(2) {
        assert_eq!(
            pair[1].start_seconds, pair[0].end_seconds,
            "gap between {:?} and {:?}",
            pair[0], pair[1]
        );
    }
}

#[test]
fn keeping_everything_marks_the_commercials_so_they_can_be_skipped() {
    let whole = vec![range(0.0, 900.0)];
    let chapters = chapters_for(&segments(), &whole, Decision::KeepAll);
    assert_eq!(chapters.len(), 3);
    assert_eq!(chapters[0].title, "Part 1");
    assert_eq!(chapters[1].title, "CM 1");
    assert_eq!(chapters[2].title, "Part 2");
    assert_eq!(chapters[1].start_seconds, micros(300.0));
    assert_eq!(chapters[1].end_seconds, micros(390.0));
}

#[test]
fn an_empty_plan_yields_no_chapters() {
    assert!(chapters_for(&[], &[], Decision::Cut).is_empty());
    assert!(chapters_for(&[], &[], Decision::KeepAll).is_empty());
}

#[test]
fn ranges_beyond_reach_are_recognised() {
    assert!(is_summable(&keep()));
    assert!(!is_summable(&[KeepRange { start: 0, end: i64::MAX }]));
    assert!(is_fit(&keep()));
    assert!(!is_fit(&[KeepRange { start: 0, end: i64::MAX }]));
    assert!(!is_fit(&[KeepRange { start: 0, end: 1_000_000_000_000_000 }; 5]));
}

// Diagnostics.

fn scan(stats: TsStats, packets: u64, streams: Vec<StreamInfo>) -> TsInfo {
    TsInfo {
        layout: "Ts188".to_owned(),
        packet_count: packets,
        duration_seconds: micros(1800.0),
        programs: vec![ProgramInfo { program_number: 1024, streams }],
        video_format: Some(VideoFormat {
            width: 1440,
            height: 1080,
            frame_rate: (30000, 1001),
            interlaced: true,
        }),
        format_changes: Vec::new(),
        stats,
    }
}

fn stream(pid: u16, kind: StreamKind) -> StreamInfo {
    StreamInfo { pid, kind, audio: None }
}

/// An audio stream carrying two languages, one per channel.
fn bilingual(pid: u16) -> StreamInfo {
    StreamInfo {
        audio: Some(AudioComponent {
            component_type: 0x02,
            language: text("jpn"),
            second_language: text("eng"),
        }),
        ..stream(pid, StreamKind::AacAudio)
    }
}

fn healthy() -> Vec<StreamInfo> {
    vec![stream(0x0111, StreamKind::Mpeg2Video), stream(0x0112, StreamKind::AacAudio)]
}

#[test]
fn a_clean_recording_has_nothing_to_report() {
    let diagnostics = Diagnostics::from_ts(&scan(TsStats::default(), 1_000_000, healthy()));
    assert!(diagnostics.warnings.is_empty(), "{:?}", diagnostics.warnings);
    assert!(!diagnostics.is_hopeless());
    assert_eq!(diagnostics.audio.len(), 1);
    assert!(!diagnostics.has_captions);
}

#[test]
fn a_mostly_scrambled_recording_is_called_hopeless() {
    let stats = TsStats { scrambled_packets: 600_000, ..TsStats::default() };
    let diagnostics = Diagnostics::from_ts(&scan(stats, 1_000_000, healthy()));
    assert!(diagnostics.is_hopeless());
    assert!(
        diagnostics.warnings.iter().any(|w| w.contains("unwatchable")),
        "{:?}",
        diagnostics.warnings
    );
    assert!(diagnostics.warnings[0].starts_with("60% of the recording"));
}

#[test]
fn a_trace_of_scrambling_is_noted_but_not_fatal() {
    let stats = TsStats { scrambled_packets: 5_000, ..TsStats::default() };
    let diagnostics = Diagnostics::from_ts(&scan(stats, 1_000_000, healthy()));
    assert!(!diagnostics.is_hopeless());
    assert!(
        diagnostics.warnings.iter().any(|w| w.contains("scrambled")),
        "{:?}",
        diagnostics.warnings
    );
    assert!(diagnostics.warnings[0].starts_with("0.5% of packets"));
}

#[test]
fn poor_reception_is_described_in_proportion() {
    let stats = TsStats { dropped_packets: 50_000, ..TsStats::default() };
    let diagnostics = Diagnostics::from_ts(&scan(stats, 1_000_000, healthy()));
    assert!(
        diagnostics.warnings.iter().any(|w| w.contains("reception")),
        "{:?}",
        diagnostics.warnings
    );
    let quiet = Diagnostics::from_ts(&scan(stats, 100_000_000, healthy()));
    assert!(
        !quiet.warnings.iter().any(|w| w.contains("reception")),
        "{:?}",
        quiet.warnings
    );
}

#[test]
fn captions_are_reported_as_a_known_gap() {
    let mut streams = healthy();
    streams.push(stream(0x0114, StreamKind::Caption));
    let diagnostics = Diagnostics::from_ts(&scan(TsStats::default(), 1_000_000, streams));
    assert!(diagnostics.has_captions);
    assert!(
        diagnostics.warnings.iter().any(|w| w.contains("captions")),
        "{:?}",
        diagnostics.warnings
    );
}

#[test]
fn a_second_audio_track_is_reported() {
    let mut streams = healthy();
    streams.push(stream(0x0113, StreamKind::AacAudio));
    let diagnostics = Diagnostics::from_ts(&scan(TsStats::default(), 1_000_000, streams));
    assert_eq!(diagnostics.audio.len(), 2);
    assert!(
        diagnostics.warnings.iter().any(|w| w.contains("audio tracks")),
        "{:?}",
        diagnostics.warnings
    );
}

#[test]
fn a_bilingual_stream_is_recognised_from_the_pmt() {
    let streams = vec![stream(0x0111, StreamKind::Mpeg2Video), bilingual(0x0112)];
    let diagnostics = Diagnostics::from_ts(&scan(TsStats::default(), 1_000_000, streams));
    let dual = diagnostics.dual_mono.as_ref().expect("bilingual");
    assert_eq!(dual.main.as_deref(), Some("jpn"));
    assert_eq!(dual.sub.as_deref(), Some("eng"));
    assert!(
        diagnostics.warnings.iter().any(|w| w.contains("bilingual")),
        "{:?}",
        diagnostics.warnings
    );
    assert_eq!(diagnostics.audio.len(), 1);
    assert!(
        !diagnostics.warnings.iter().any(|w| w.contains("audio tracks")),
        "{:?}",
        diagnostics.warnings
    );
}

#[test]
fn a_telling_word_comes_from_its_counter_or_from_a_language() {
    let named = |language: &str| StreamInfo {
        audio: Some(AudioComponent {
            component_type: 0x02,
            language: text(language),
            second_language: text("eng"),
        }),
        ..stream(0x0112, StreamKind::AacAudio)
    };
    let said = |stats: TsStats, language: &str, word: &str| {
        let streams = vec![stream(0x0111, StreamKind::Mpeg2Video), named(language)];
        let diagnostics = Diagnostics::from_ts(&scan(stats, 1_000, streams));
        diagnostics.warnings.iter().any(|w| w.contains(word))
    };
    let scrambled = TsStats { scrambled_packets: 301, ..TsStats::default() };
    let lost = TsStats { dropped_packets: 11, ..TsStats::default() };
    let corrupt = TsStats { error_packets: 1, ..TsStats::default() };
    for (stats, word) in [(scrambled, "unwatchable"), (lost, "reception"), (corrupt, "corrupt")] {
        assert!(said(stats, "jpn", word), "{word}");
        assert!(!said(TsStats::default(), "jpn", word), "{word}");
        assert!(said(TsStats::default(), word, word), "a language is quoted as it is");
        for other in ["unwatchable", "reception", "corrupt"] {
            assert_eq!(said(stats, "jpn", other), other == word, "{other} beside {word}");
        }
    }
    let barely = TsStats { scrambled_packets: 300, ..TsStats::default() };
    assert!(!said(barely, "jpn", "unwatchable"));
}

#[test]
fn an_ordinary_recording_is_not_called_bilingual() {
    let diagnostics = Diagnostics::from_ts(&scan(TsStats::default(), 1_000_000, healthy()));
    assert_eq!(diagnostics.dual_mono, None);
}

#[test]
fn the_inventory_reads_as_english() {
    let diagnostics = Diagnostics::from_ts(&scan(TsStats::default(), 1_000_000, healthy()));
    assert_eq!(diagnostics.audio, vec!["AAC audio on pid 0x0112"]);
    assert_eq!(diagnostics.video.as_deref(), Some("1440x1080 29.970 fps interlaced"));
}

#[test]
fn only_a_change_of_size_needs_another_file() {
    let mut info = scan(TsStats { error_packets: 3, ..TsStats::default() }, 1_000, healthy());
    let format = |width, rate| VideoFormat {
        width,
        height: 1080,
        frame_rate: (rate, 1),
        interlaced: true,
    };
    info.format_changes = vec![
        FormatChange { seconds: micros(10.0), byte_offset: 188, format: format(1440, 60) },
        FormatChange { seconds: micros(20.0), byte_offset: 376, format: format(1920, 60) },
        FormatChange { seconds: micros(30.0), byte_offset: 564, format: format(1440, 60) },
    ];
    let diagnostics = Diagnostics::from_ts(&info);
    assert_eq!(diagnostics.format_changes.len(), 3);
    assert_eq!(diagnostics.split_points, vec![micros(20.0), micros(30.0)]);
    assert_eq!(diagnostics.split_offsets, vec![376, 564]);
    assert_eq!(
        diagnostics.warnings,
        vec![
            "3 packets arrived corrupt and were discarded",
            "the picture size changes 2 time(s) mid-recording, so the output is written as 3 \
             separate files",
        ]
    );
    assert!(are_splits_in_time(&diagnostics));
}

#[test]
fn proportions_round_halves_to_even_as_they_are_written() {
    let percent = |scrambled, total| {
        let stats = TsStats { scrambled_packets: scrambled, ..TsStats::default() };
        Diagnostics::from_ts(&scan(stats, total, healthy())).warnings[0].clone()
    };
    assert!(percent(5, 8).starts_with("62% "), "{}", percent(5, 8));
    assert!(percent(3, 8).starts_with("38% "), "{}", percent(3, 8));
    assert!(percent(1, 16).starts_with("6.2% "), "{}", percent(1, 16));
}

// Encoding.

fn profile_named(name: &str) -> Profile {
    builtin().remove(name).expect("a shipped profile")
}

fn probe(interlaced: bool, duration: f64) -> MediaProbe {
    probe_with_audio(interlaced, duration, 1)
}

/// A probe carrying `tracks` AAC audio streams, as broadcast does.
fn probe_with_audio(interlaced: bool, duration: f64, tracks: usize) -> MediaProbe {
    MediaProbe {
        duration_seconds: Some(micros(duration)),
        video: Some(VideoStream {
            index: 0,
            codec: "mpeg2video".to_owned(),
            width: 1440,
            height: 1080,
            frame_rate: (30000, 1001),
            pixel_format: "yuv420p".to_owned(),
            interlaced,
        }),
        audio: (0..tracks)
            .map(|index| AudioStream {
                index: index as u32 + 1,
                codec: "aac".to_owned(),
                channels: 2,
                sample_rate: 48_000,
                language: text(if index == 0 { "jpn" } else { "eng" }),
            })
            .collect(),
    }
}

fn request<'a>(
    profile: &'a Profile,
    keep: &'a [KeepRange],
    probe: &'a MediaProbe,
) -> EncodeRequest<'a> {
    EncodeRequest {
        input: "in.ts",
        output: "out.mp4",
        profile,
        keep,
        chapters: &[],
        probe,
        dual_mono: None,
    }
}

#[test]
fn select_expression_escapes_its_commas() {
    let expression = select_expression(&[range(0.0, 300.0), range(360.0, 900.5)]);
    assert_eq!(expression, "between(t\\,0.000\\,300.000)+between(t\\,360.000\\,900.500)");
    assert!(!expression.contains(",t"), "an unescaped comma would truncate the filter");
}

#[test]
fn a_full_length_single_range_is_not_a_cut() {
    let profile = profile_named("x264-cpu");
    let probe = probe(true, 600.0);
    assert!(!request(&profile, &[range(0.0, 600.0)], &probe).is_cutting());
    assert!(request(&profile, &[range(0.0, 500.0)], &probe).is_cutting());
}

#[test]
fn the_graph_omits_selection_when_nothing_is_cut() {
    let profile = profile_named("x264-cpu");
    let probe = probe(true, 600.0);
    let graph = filter_graph(&request(&profile, &[range(0.0, 600.0)], &probe), true);
    assert!(!graph.contains("select"), "{graph}");
    assert!(graph.contains("bwdif"), "{graph}");
    assert!(!graph.contains("[0:a"), "{graph}");
}

fn two_ranges() -> [KeepRange; 2] {
    [range(0.0, 100.0), range(200.0, 300.0)]
}

#[test]
fn selection_runs_after_deinterlacing_and_before_scaling() {
    let profile = profile_named("x264-cpu");
    let probe = probe(true, 600.0);
    let keep = two_ranges();
    let graph = filter_graph(&request(&profile, &keep, &probe), true);
    let deinterlace = graph.find("bwdif").expect("deinterlace present");
    let select = graph.find("select=").expect("select present");
    let scale = graph.find("scale=").expect("scale present");
    assert!(deinterlace < select && select < scale, "unexpected order in {graph}");
    let normalise = graph.find("setpts=N/FRAME_RATE/TB").expect("setpts present");
    assert!(normalise < select, "setpts must precede select in {graph}");
    assert_eq!(
        graph.matches("setpts=N/FRAME_RATE/TB").count(),
        2,
        "once before the cut and once after: {graph}"
    );
    assert_eq!(graph.matches("asetpts=N/SR/TB").count(), 2, "{graph}");
}

#[test]
fn a_progressive_source_puts_selection_first() {
    let profile = profile_named("x264-cpu");
    let probe = probe(false, 600.0);
    let keep = two_ranges();
    let graph = filter_graph(&request(&profile, &keep, &probe), false);
    assert!(graph.starts_with("[0:v]setpts=N/FRAME_RATE/TB,select="), "{graph}");
}

#[test]
fn audio_is_copied_when_nothing_is_being_cut() {
    let profile = profile_named("x264-cpu");
    let probe = probe_with_audio(true, 600.0, 2);
    assert_eq!(
        request(&profile, &[range(0.0, 600.0)], &probe).audio_plan(),
        AudioPlan::Copy
    );
}

#[test]
fn audio_is_re_encoded_when_material_is_removed() {
    let profile = profile_named("x264-cpu");
    let probe = probe_with_audio(true, 600.0, 2);
    assert_eq!(request(&profile, &two_ranges(), &probe).audio_plan(), AudioPlan::Reencode);
}

#[test]
fn every_audio_stream_gets_its_own_chain_when_re_encoding() {
    let profile = profile_named("x264-cpu");
    let probe = probe_with_audio(true, 600.0, 2);
    let keep = two_ranges();
    let graph = filter_graph(&request(&profile, &keep, &probe), true);
    assert!(graph.contains("[0:a:0]"), "{graph}");
    assert!(graph.contains("[a0]"), "{graph}");
    assert!(graph.contains("[0:a:1]"), "{graph}");
    assert!(graph.contains("[a1]"), "{graph}");
    assert_eq!(graph.matches("aselect=").count(), 2, "one per stream: {graph}");
}

#[test]
fn a_copied_stream_never_enters_the_filter_graph() {
    let profile = profile_named("x264-cpu");
    let probe = probe_with_audio(true, 600.0, 2);
    let graph = filter_graph(&request(&profile, &[range(0.0, 600.0)], &probe), true);
    assert!(!graph.contains("0:a"), "{graph}");
    assert!(!graph.contains("anull"), "{graph}");
    assert!(graph.contains("[0:v]"), "the video still needs one: {graph}");
}

#[test]
fn a_container_that_cannot_carry_the_codec_forces_a_re_encode() {
    assert!(Container::Mp4.can_carry("aac"));
    assert!(!Container::Mp4.can_carry("pcm_s16le"));
    assert!(Container::Mkv.can_carry("pcm_s16le"));
    let profile = profile_named("x264-cpu");
    let mut probe = probe_with_audio(true, 600.0, 2);
    probe.audio[1].codec = "pcm_s16le".to_owned();
    assert_eq!(
        request(&profile, &[range(0.0, 600.0)], &probe).audio_plan(),
        AudioPlan::Reencode
    );
}

#[test]
fn output_duration_is_the_sum_of_the_kept_ranges() {
    let profile = profile_named("x264-cpu");
    let probe = probe(true, 1200.0);
    let keep = [range(0.0, 300.0), range(400.0, 900.0)];
    assert_eq!(request(&profile, &keep, &probe).output_seconds(), micros(800.0));
}

fn installation(encoders: &[&str]) -> Ffmpeg {
    let mut listing = vec![" ------".to_owned()];
    listing.extend(encoders.iter().map(|name| format!(" V....D {name}   an encoder")));
    Ffmpeg::describe(
        "ffmpeg".to_owned(),
        "ffprobe".to_owned(),
        "ffmpeg version 6.1.1 Copyright",
        &listing,
    )
    .expect("a usable build")
}

#[test]
fn a_cut_is_one_whole_command() {
    let mut profile = profile_named("x264-cpu");
    profile.video.args = vec!["-crf".to_owned(), "30".to_owned()];
    profile.video.max_height = None;
    let probe = probe(false, 12.0);
    let keep = [range(0.0, 3.0), range(6.0, 9.0)];
    let args = build_command(
        &installation(&["libx264", "aac"]),
        &request(&profile, &keep, &probe),
        Some("out.asaborake-chapters.txt"),
    );
    let expected = [
        "-hide_banner",
        "-nostdin",
        "-loglevel",
        "error",
        "-y",
        "-fflags",
        "+discardcorrupt",
        "-i",
        "in.ts",
        "-i",
        "out.asaborake-chapters.txt",
        "-map_metadata",
        "1",
        "-filter_complex",
        "[0:v]setpts=N/FRAME_RATE/TB,select='between(t\\,0.000\\,3.000)+between(t\\,6.000\\,9.000)',\
         setpts=N/FRAME_RATE/TB[v];[0:a:0]asetpts=N/SR/TB,\
         aselect='between(t\\,0.000\\,3.000)+between(t\\,6.000\\,9.000)',asetpts=N/SR/TB[a0]",
        "-map",
        "[v]",
        "-map",
        "[a0]",
        "-c:v",
        "libx264",
        "-crf",
        "30",
        "-c:a",
        "aac",
        "-b:a",
        "192k",
        "-ac",
        "2",
        "-ar",
        "48000",
        "-metadata:s:a:0",
        "language=jpn",
        "-movflags",
        "+faststart",
        "-f",
        "mp4",
        "-progress",
        "pipe:1",
        "-nostats",
        "out.mp4",
    ];
    assert_eq!(args, expected);
}

#[test]
fn both_audio_tracks_survive_a_cut() {
    let profile = profile_named("x264-cpu");
    let probe = probe_with_audio(true, 12.0, 2);
    let keep = [range(0.0, 3.0), range(6.0, 9.0)];
    let args =
        build_command(&installation(&["libx264", "aac"]), &request(&profile, &keep, &probe), None);
    assert!(args.contains(&"[a0]".to_owned()));
    assert!(args.contains(&"[a1]".to_owned()), "both languages must survive");
    assert!(args.contains(&"language=eng".to_owned()));
}

#[test]
fn audio_is_copied_when_nothing_is_cut() {
    let profile = profile_named("x264-cpu");
    let probe = probe_with_audio(true, 6.0, 2);
    let keep = [range(0.0, 6.0)];
    let args =
        build_command(&installation(&["libx264", "aac"]), &request(&profile, &keep, &probe), None);
    assert!(args.contains(&"0:a:0?".to_owned()));
    assert!(args.contains(&"0:a:1?".to_owned()), "both tracks copied");
    let codec = args.iter().position(|arg| arg == "-c:a").expect("an audio codec");
    assert_eq!(args[codec + 1], "copy");
    assert!(!args.contains(&"-ac".to_owned()));
}

#[test]
fn a_bilingual_programme_comes_out_as_two_single_language_tracks() {
    let profile = profile_named("x264-cpu");
    let mut probe = probe_with_audio(true, 6.0, 1);
    probe.audio[0].language = None;
    let keep = [range(0.0, 6.0)];
    let dual = DualMono { main: text("jpn"), sub: text("eng") };
    let asked = EncodeRequest { dual_mono: Some(&dual), ..request(&profile, &keep, &probe) };
    assert_eq!(asked.audio_plan(), AudioPlan::Reencode);
    assert_eq!(asked.audio_tracks(), 2, "one track per language");
    let graph = filter_graph(&asked, true);
    assert!(graph.contains("[0:a:0]anull,pan=mono|c0=c0[a0]"), "{graph}");
    assert!(graph.contains("[0:a:0]anull,pan=mono|c0=c1[a1]"), "{graph}");
    let args = build_command(&installation(&["libx264", "aac"]), &asked, None);
    let joined = args.join(" ");
    assert!(joined.contains("-map [a0] -map [a1]"), "{joined}");
    assert!(joined.contains("-ac:a:0 1 -ac:a:1 1"), "each language is mono: {joined}");
    assert!(
        joined.contains("-metadata:s:a:0 language=jpn -metadata:s:a:1 language=eng"),
        "{joined}"
    );
}

#[test]
fn a_bilingual_stream_beside_another_keeps_them_both() {
    let profile = profile_named("x264-cpu");
    let mut probe = probe_with_audio(true, 6.0, 2);
    probe.audio[1].language = text("fra");
    let keep = [range(0.0, 6.0)];
    let dual = DualMono { main: text("jpn"), sub: None };
    let asked = EncodeRequest { dual_mono: Some(&dual), ..request(&profile, &keep, &probe) };
    assert_eq!(asked.audio_tracks(), 3);
    let graph = filter_graph(&asked, true);
    assert!(graph.contains("[0:a:1]anull[a2]"), "{graph}");
    let joined = build_command(&installation(&["libx264", "aac"]), &asked, None).join(" ");
    assert!(joined.contains("-metadata:s:a:2 language=fra"), "{joined}");
    assert!(!joined.contains("-metadata:s:a:1"), "{joined}");
}

#[test]
fn a_profile_the_build_cannot_run_fails_before_doing_any_work() {
    let mut profile = profile_named("x264-cpu");
    profile.video.encoder = "definitely_not_an_encoder".to_owned();
    let source = MediaProbe {
        duration_seconds: Some(micros(10.0)),
        video: None,
        audio: Vec::new(),
    };
    let error = encode(&installation(&["libx264", "aac"]), &request(&profile, &[], &source))
        .expect_err("an unavailable encoder must fail");
    assert!(
        error.message().contains("definitely_not_an_encoder"),
        "unhelpful error: {}",
        error.message()
    );
}

#[test]
fn chapters_go_into_a_file_of_their_own() {
    let profile = profile_named("x264-cpu");
    let probe = probe(true, 8.0);
    let keep = [range(0.0, 8.0)];
    let chapters = [Chapter {
        start_seconds: 0,
        end_seconds: micros(4.0),
        title: "Part 1".to_owned(),
    }];
    let asked = EncodeRequest { chapters: &chapters, ..request(&profile, &keep, &probe) };
    let job = encode(&installation(&["libx264", "aac"]), &asked).expect("a job");
    let file = job.chapters.expect("a chapter file");
    assert_eq!(file.path, "out.asaborake-chapters.txt");
    assert!(file.text.contains("title=Part 1"), "{}", file.text);
    assert!(job.args.contains(&file.path));
    assert_eq!(job.total, micros(8.0));
    assert_eq!(encoded_share(micros(2.0), job.total), Some(250_000));
    assert_eq!(encoded_share(micros(20.0), job.total), Some(1_000_000));
    assert_eq!(encoded_share(micros(-1.0), job.total), Some(0));
    assert_eq!(encoded_share(micros(1.0), 0), None);
}

// Naming.

fn fields() -> Fields {
    Fields {
        title: text("ぐるナイ 2時間SP"),
        channel: text("日本テレビ"),
        recorded_at: Some(RecordedAt { year: 2026, month: 8, day: 13, hour: 20, minute: 5 }),
        source: text("recording-1234"),
    }
}

#[test]
fn a_template_becomes_the_programme_it_names() {
    assert_eq!(
        expand("{date} {channel} {title}", &fields()),
        "2026-08-13 日本テレビ ぐるナイ 2時間SP"
    );
}

#[test]
fn a_placeholder_with_nothing_behind_it_leaves_no_trace() {
    let sparse = Fields { title: text("News"), ..Fields::default() };
    assert_eq!(expand("{date} - {channel} - {title}", &sparse), "News");
    assert_eq!(expand("{channel} {title}", &sparse), "News");
}

#[test]
fn a_title_cannot_escape_its_directory() {
    let nasty = Fields { title: text("../../etc/passwd"), ..Fields::default() };
    let expanded = expand("{title}", &nasty);
    assert!(!expanded.contains('/'), "{expanded}");
    assert_eq!(expand("{channel}/{title}", &fields()), "日本テレビ/ぐるナイ 2時間SP");
}

#[test]
fn characters_that_travel_badly_are_replaced() {
    assert_eq!(sanitise("Drama: Part 2"), "Drama_ Part 2");
    assert_eq!(sanitise("a?b*c|d"), "a_b_c_d");
    assert_eq!(sanitise("  .hidden.  "), "hidden");
    assert_eq!(sanitise("   "), "untitled");
}

#[test]
fn renaming_keeps_the_directory_and_the_extension() {
    let renamed = rename(
        "/recordings/whatever-epgstation-called-it.mp4",
        "{date} {title}",
        &fields(),
    );
    assert_eq!(renamed, text("/recordings/2026-08-13 ぐるナイ 2時間SP.mp4"));
}

#[test]
fn a_template_that_expands_to_nothing_leaves_the_path_alone() {
    assert_eq!(rename("/recordings/show.mp4", "{title}", &Fields::default()), None);
}

#[test]
fn a_template_may_build_subdirectories() {
    let renamed = rename("/recordings/x.mp4", "{year}/{channel}/{title}", &fields());
    assert_eq!(renamed, text("/recordings/2026/日本テレビ/ぐるナイ 2時間SP.mp4"));
}

#[test]
fn an_unclosed_brace_is_left_where_it_can_be_seen() {
    let expanded = expand("{title} {broken", &fields());
    assert!(expanded.contains('{'), "{expanded}");
    assert_eq!(expanded, "ぐるナイ 2時間SP {broken");
}

// Parts.

/// Size of the pretend recording every test here splits.
const FILE_SIZE: u64 = 1_800_000_000;

/// Diagnostics whose split points carry a plausible byte offset each.
fn diagnostics(split_points: Vec<f64>) -> Diagnostics {
    let split_offsets =
        split_points.iter().map(|at| (at / 1800.0 * FILE_SIZE as f64) as u64).collect();
    let points: Vec<i64> = split_points.iter().map(|at| micros(*at)).collect();
    Diagnostics {
        duration_seconds: micros(1800.0),
        video: None,
        audio: Vec::new(),
        has_captions: false,
        format_changes: points.clone(),
        split_points: points,
        split_offsets,
        dropped_packets: 0,
        scrambled_packets: 0,
        error_packets: 0,
        total_packets: 1,
        dual_mono: None,
        warnings: Vec::new(),
    }
}

fn split_at(output: &str, points: Vec<f64>) -> Vec<Part> {
    split(output, Some(&diagnostics(points)), micros(1800.0), FILE_SIZE)
}

#[test]
fn an_ordinary_recording_is_one_file_under_the_name_that_was_asked_for() {
    let parts = split_at("/recordings/News.mp4", Vec::new());
    assert_eq!(parts.len(), 1);
    assert_eq!(parts[0].output, "/recordings/News.mp4");
    assert_eq!(parts[0].start, 0);
    assert_eq!(parts[0].end, micros(1800.0));
}

#[test]
fn a_recording_with_no_diagnostics_is_one_file() {
    let parts = split("/recordings/News.mp4", None, micros(1800.0), FILE_SIZE);
    assert_eq!(parts.len(), 1);
}

#[test]
fn a_size_change_becomes_a_second_file() {
    let parts = split_at("/recordings/News.mp4", vec![600.0]);
    assert_eq!(parts.len(), 2);
    assert_eq!(parts[0].output, "/recordings/News.mp4");
    assert_eq!(parts[0].start, 0);
    assert_eq!(parts[0].end, micros(600.0));
    assert_eq!(parts[1].output, "/recordings/News.part2.mp4");
    assert_eq!(parts[1].start, micros(600.0));
    assert_eq!(parts[1].end, micros(1800.0));
    assert_eq!(parts[0].bytes, Some((0, 600_000_000)));
    assert_eq!(parts[1].bytes, Some((600_000_000, FILE_SIZE)));
    assert_eq!(parts[1].duration(), micros(1200.0));
}

#[test]
fn several_changes_become_several_files_in_order() {
    let parts = split_at("/recordings/Show.mkv", vec![1200.0, 400.0]);
    assert_eq!(parts.len(), 3);
    let bounds: Vec<(i64, i64)> = parts.iter().map(|p| (p.start, p.end)).collect();
    assert_eq!(
        bounds,
        vec![
            (0, micros(400.0)),
            (micros(400.0), micros(1200.0)),
            (micros(1200.0), micros(1800.0))
        ]
    );
    assert_eq!(parts[2].output, "/recordings/Show.part3.mkv");
}

#[test]
fn a_change_outside_the_recording_is_ignored() {
    let parts = split_at("/recordings/News.mp4", vec![0.0, 1800.0, 5000.0]);
    assert_eq!(parts.len(), 1, "{parts:?}");
}

#[test]
fn without_a_duration_the_last_part_runs_on() {
    let parts = split("/r/News.mp4", Some(&diagnostics(vec![600.0])), 0, FILE_SIZE);
    assert_eq!(parts.len(), 2);
    assert_eq!(parts[1].end, FOREVER);
    assert_eq!(parts[1].duration(), FOREVER);
    assert_eq!(parts[1].clip(&[range(500.0, 700.0)]), vec![range(0.0, 100.0)]);
}

fn middle_part() -> Part {
    Part {
        output: "x.mp4".to_owned(),
        start: micros(600.0),
        end: micros(1200.0),
        bytes: None,
    }
}

#[test]
fn kept_ranges_are_clipped_to_the_part_and_rebased_onto_its_own_clock() {
    let keep =
        [range(0.0, 300.0), range(500.0, 700.0), range(800.0, 900.0), range(1100.0, 1500.0)];
    assert_eq!(
        middle_part().clip(&keep),
        vec![range(0.0, 100.0), range(200.0, 300.0), range(500.0, 600.0)]
    );
}

#[test]
fn a_part_containing_nothing_kept_yields_no_ranges() {
    assert!(middle_part().clip(&[range(0.0, 300.0)]).is_empty());
}

#[test]
fn a_range_touching_a_boundary_at_one_point_is_dropped() {
    assert!(middle_part().clip(&[range(300.0, 600.0)]).is_empty());
}

#[test]
fn a_file_without_an_extension_still_gets_numbered() {
    assert_eq!(numbered("/recordings/News", 1), "/recordings/News.part2");
}

// The pipeline.

#[test]
fn the_sidecar_sits_beside_the_output() {
    assert_eq!(sidecar_path("/recordings/News.mp4"), "/recordings/News.cut.json");
    assert_eq!(sidecar_path("/recordings/Drama.ep1.mkv"), "/recordings/Drama.ep1.cut.json");
}

#[test]
fn every_stage_has_a_description() {
    for stage in [Stage::Audio, Stage::LocatingLogo, Stage::LearningLogo, Stage::Detecting] {
        assert!(!describe(stage).is_empty());
    }
}

#[test]
fn only_a_transport_stream_is_scanned() {
    let info = scan(TsStats::default(), 1_000_000, healthy());
    assert!(inspect("/recordings/News.mp4", Some(&info)).is_none());
    assert!(inspect("/recordings/News", Some(&info)).is_none());
    assert!(inspect("/recordings/does-not-exist.ts", None).is_none());
    assert!(inspect("/recordings/News.TS", Some(&info)).is_some());
    assert!(is_transport_stream("a.m2ts"));
    assert!(!is_transport_stream("a.mkv"));
}

#[test]
fn a_hopeless_recording_is_refused_only_when_asked() {
    let mut hopeless = diagnostics(Vec::new());
    hopeless.scrambled_packets = 900_000;
    hopeless.total_packets = 1_000_000;
    assert!(report(Some(&hopeless), false).is_ok());
    let error = report(Some(&hopeless), true).expect_err("must refuse");
    assert!(error.message().contains("90%"), "{}", error.message());
    assert!(report(None, true).is_ok());
}

#[test]
fn a_request_defaults_to_learning_logos() {
    let request =
        JobRequest::new("in.ts".to_owned(), "out.mp4".to_owned(), profile_named("x264-cpu"));
    assert!(request.learn_logo);
    assert_eq!(request.cut.low_confidence, LowConfidencePolicy::Keep);
}

fn job() -> JobRequest {
    JobRequest::new(
        "in.ts".to_owned(),
        "/out/News.mp4".to_owned(),
        profile_named("x264-cpu"),
    )
}

fn analysed(duration: f64, with_logo: bool) -> Analysis {
    Analysis {
        duration: micros(duration),
        spacing: FrameSpacing { micros: 1_000_000, frames: 30 },
        logo: if with_logo {
            Some(LogoSummary {
                rect: Rect { x: 0, y: 0, width: 32, height: 32 },
                mean_alpha: 500_000,
                frames_used: 500,
                from_store: false,
            })
        } else {
            None
        },
        learned_logo: None,
        logo_intervals: if with_logo {
            vec![LogoInterval { start: 0, end: micros(duration) }]
        } else {
            Vec::new()
        },
        logo_track: None,
        scene_changes: Vec::new(),
        silent_spans: Vec::new(),
    }
}

#[test]
fn hand_chosen_cuts_replace_the_answer_entirely() {
    let mut request = job();
    request.manual_ranges = Some(vec![range(10.0, 20.0)]);
    let plan = decide(&analysed(600.0, true), &request);
    assert_eq!(plan.keep, vec![range(10.0, 20.0)]);
    assert_eq!(plan.decision, Decision::Cut);
    assert_eq!(plan.confidence, 1_000_000);
    assert_eq!(plan.reason, "cut by hand");
    assert!(plan.segments.is_empty());
}

#[test]
fn a_channel_without_commercials_is_kept_whole() {
    let mut request = job();
    request.detect_commercials = false;
    request.cut.low_confidence = LowConfidencePolicy::Fail;
    let plan = decide(&analysed(600.0, false), &request);
    assert_eq!(plan.keep, vec![range(0.0, 600.0)]);
    assert_eq!(plan.decision, Decision::KeepAll);
    assert!(check_confidence(&plan, &request.cut, false, false).is_ok());
}

#[test]
fn a_recording_with_nothing_to_find_is_not_analysed() {
    let ffmpeg = installation(&["libx264", "aac"]);
    let inspected = |detect: bool, duration: Option<i64>, ranges: Option<Vec<KeepRange>>| {
        let mut request = job();
        request.detect_commercials = detect;
        request.manual_ranges = ranges;
        let mut source = probe(true, 600.0);
        source.duration_seconds = duration;
        begin(&ffmpeg, request)
            .expect("accepted")
            .probed(source)
            .expect("probed")
            .inspected(None, None, false)
            .expect("inspected")
    };
    let length = Some(micros(600.0));
    assert!(inspected(true, length, None).needs_analysis());
    assert!(inspected(false, None, None).needs_analysis(), "its length is not known");
    assert!(inspected(false, length, Some(keep())).needs_analysis(), "for the timeline");
    let skipped = inspected(false, length, None);
    assert!(!skipped.needs_analysis());
    assert!(!skipped.options.find_logo);
    let bare = skipped.bare_analysis();
    assert_eq!(bare.duration, micros(600.0));
    assert!(!bare.has_logo());
    let planned = skipped.analysed(bare, FILE_SIZE).expect("a plan");
    assert_eq!(planned.jobs.len(), 1);
    assert_eq!(planned.jobs[0].keep, vec![range(0.0, 600.0)]);
    assert!(planned.jobs[0].chapters.is_empty());
}

fn doubtful() -> CutPlan {
    CutPlan {
        segments: Vec::new(),
        keep: vec![range(0.0, 600.0)],
        confidence: 100_000,
        decision: Decision::KeepAll,
        reason: "confidence 0.10 is below 0.60".to_owned(),
    }
}

#[test]
fn a_doubtful_plan_is_treated_as_the_policy_says() {
    let mut options = job().cut;
    assert!(check_confidence(&doubtful(), &options, false, false).is_ok());
    options.low_confidence = LowConfidencePolicy::Fail;
    let error = check_confidence(&doubtful(), &options, true, false).expect_err("fails");
    assert_eq!(
        error.message(),
        "commercial detection was not confident enough: confidence 0.10 is below 0.60"
    );
    options.low_confidence = LowConfidencePolicy::Block;
    assert_eq!(
        check_confidence(&doubtful(), &options, false, false),
        Err(Error::NeedsLogo)
    );
    // With a logo, or on a channel known to have none, there is nothing to
    // wait for.
    assert!(check_confidence(&doubtful(), &options, true, false).is_ok());
    assert!(check_confidence(&doubtful(), &options, false, true).is_ok());
    let mut cut = doubtful();
    cut.decision = Decision::Cut;
    options.low_confidence = LowConfidencePolicy::Fail;
    assert!(check_confidence(&cut, &options, false, false).is_ok());
}

#[test]
fn a_job_runs_through_its_phases() {
    let ffmpeg = installation(&["libx264", "aac"]);
    let mut request = job();
    request.channel_id = text("1024");
    request.manual_ranges = Some(vec![range(100.0, 700.0)]);
    let accepted = begin(&ffmpeg, request).expect("a profile that can run");
    let probed = accepted.probed(probe(true, 1800.0)).expect("a picture");
    assert!(probed.needs_scan());
    assert_eq!(probed.frame_size(), (1440, 1080));
    let mut info = scan(TsStats::default(), 1_000_000, healthy());
    info.format_changes = vec![FormatChange {
        seconds: micros(600.0),
        byte_offset: 600_000_000,
        format: VideoFormat { width: 720, height: 480, frame_rate: (30, 1), interlaced: true },
    }];
    let inspected = probed.inspected(Some(&info), None, false).expect("worth doing");
    assert_eq!(inspected.options.logo_name, "1024");
    assert!(inspected.options.find_logo);
    assert!(inspected.options.deinterlace);
    let found = analysed(1800.0, true);
    assert!(!inspected.keeps_logo(&found), "no logo was learned");
    let planned = inspected.analysed(found, FILE_SIZE).expect("a plan");
    assert_eq!(planned.parts, 2);
    assert_eq!(planned.jobs.len(), 2);
    assert_eq!(planned.jobs[0].keep, vec![range(100.0, 600.0)]);
    assert_eq!(planned.jobs[0].slice.as_deref(), Some("/out/News.part.ts"));
    assert_eq!(planned.jobs[0].label, "encoding part 1 of 2");
    assert_eq!(planned.jobs[1].keep, vec![range(0.0, 100.0)]);
    assert_eq!(planned.jobs[1].part.output, "/out/News.part2.mp4");
    assert_eq!(encode_progress(0, &planned.jobs[0], 2, 0).fraction, 350_000);
    assert_eq!(encode_progress(0, &planned.jobs[1], 2, 0).fraction, 675_000);
    assert_eq!(encode_progress(0, &planned.jobs[1], 2, 1_000_000).fraction, 1_000_000);
    assert_eq!(encode_progress(0, &planned.jobs[1], 2, 0).message, "encoding part 2 of 2");
    let written = vec!["/out/News.mp4".to_owned(), "/out/News.part2.mp4".to_owned()];
    let outcome = planned.finished(written.clone(), true);
    assert_eq!(outcome.output, "/out/News.mp4");
    assert_eq!(outcome.outputs, written);
    assert_eq!(outcome.sidecar, "/out/News.cut.json");
    assert!(outcome.logo_learned);
}

#[test]
fn a_job_that_cannot_go_on_says_why() {
    let refused = begin(&installation(&["aac"]), job()).expect_err("no video encoder");
    assert_eq!(
        refused.message(),
        "profile 'x264-cpu' needs the libx264 encoder, which this ffmpeg does not have"
    );
    let ffmpeg = installation(&["libx264", "aac"]);
    let mut radio = probe(true, 60.0);
    radio.video = None;
    let silent = begin(&ffmpeg, job()).expect("accepted").probed(radio).expect_err("no picture");
    assert_eq!(silent.message(), "media error");
    let mut careful = job();
    careful.refuse_damaged = true;
    let stats = TsStats { scrambled_packets: 400_000, ..TsStats::default() };
    let damaged = begin(&ffmpeg, careful)
        .expect("accepted")
        .probed(probe(true, 60.0))
        .expect("probed")
        .inspected(Some(&scan(stats, 1_000_000, healthy())), None, false)
        .expect_err("too damaged");
    assert_eq!(damaged, Error::DamagedSource { scrambled: 400_000, total: 1_000_000 });
    let mut strict = job();
    strict.cut.low_confidence = LowConfidencePolicy::Block;
    strict.cut.confidence_threshold = 2_000_000;
    let waiting = begin(&ffmpeg, strict)
        .expect("accepted")
        .probed(probe(true, 600.0))
        .expect("probed")
        .inspected(None, None, false)
        .expect("inspected")
        .analysed(analysed(0.0, false), FILE_SIZE)
        .expect_err("nothing to go on");
    assert_eq!(waiting, Error::NeedsLogo);
    assert!(waiting.message().contains("logo"));
}

#[test]
fn a_part_with_nothing_kept_is_not_written() {
    let ffmpeg = installation(&["libx264", "aac"]);
    let mut request = job();
    request.manual_ranges = Some(vec![range(700.0, 800.0)]);
    request.diagnostics = Some(diagnostics(vec![600.0]));
    let probed = begin(&ffmpeg, request)
        .expect("accepted")
        .probed(probe(true, 1800.0))
        .expect("probed");
    assert!(!probed.needs_scan(), "it was scanned already");
    let planned = probed
        .inspected(None, None, true)
        .expect("inspected")
        .analysed(analysed(1800.0, false), FILE_SIZE)
        .expect("a plan");
    assert_eq!(planned.parts, 2);
    assert_eq!(planned.jobs.len(), 1);
    assert_eq!(planned.jobs[0].index, 1);
    assert_eq!(planned.jobs[0].keep, vec![range(100.0, 200.0)]);
}

#[test]
fn progress_fills_one_bar() {
    let progress = |fraction| {
        analysis_progress(0, &AnalysisProgress { stage: Stage::Audio, fraction })
    };
    assert_eq!(progress(0).fraction, 0);
    assert_eq!(progress(500_000).fraction, 175_000);
    assert_eq!(progress(1_000_000).fraction, 350_000);
    assert_eq!(progress(0).message, "measuring audio levels");
    assert_eq!(done_progress().fraction, 1_000_000);
    assert_eq!(done_progress().message, "done");
}

#[test]
fn the_bar_stalls_rather_than_jumping_backwards() {
    let located = AnalysisProgress { stage: Stage::LocatingLogo, fraction: 1_000_000 };
    let end = analysis_progress(0, &located);
    assert_eq!(end.fraction, 350_000);
    let next = analysis_progress(
        end.fraction,
        &AnalysisProgress { stage: Stage::LearningLogo, fraction: 0 },
    );
    assert_eq!(next.fraction, 350_000);
    assert_eq!(next.message, "learning the station logo");
    let halfway = AnalysisProgress { stage: Stage::Detecting, fraction: 500_000 };
    let half = analysis_progress(100_000, &halfway);
    assert_eq!(half.fraction, 175_000);
}

#[test]
fn captions_move_with_what_is_kept() {
    let caption = |start: f64, end: f64, words: &str| Caption {
        start_seconds: micros(start),
        end_seconds: micros(end),
        text: words.to_owned(),
    };
    let part = Part {
        output: "x.mp4".to_owned(),
        start: micros(100.0),
        end: micros(1000.0),
        bytes: None,
    };
    let keep = [range(0.0, 300.0), range(390.0, 900.0)];
    let shown = retime(
        &[
            caption(110.0, 112.0, "early"),
            caption(450.0, 455.0, "cut out"),
            caption(399.0, 405.0, "ends in a cut"),
            caption(500.0, 500.0, "brief"),
        ],
        &part,
        &keep,
    );
    assert_eq!(
        shown,
        vec![
            caption(10.0, 12.0, "early"),
            caption(299.0, 305.0, "ends in a cut"),
            caption(310.0, 310.1, "brief"),
        ]
    );
}

#[test]
fn the_sidecar_leaves_the_track_out() {
    let request = job();
    let mut found = analysed(600.0, true);
    found.logo_track = Some(asaborake::analyze::logo::track::LogoTrack {
        spacing: FrameSpacing { micros: 1_000_000, frames: 30 },
        scores: vec![0; 10],
    });
    let record = sidecar("0.1.0".to_owned(), &request, found, doubtful(), None);
    assert!(record.analysis.logo_track.is_none());
    assert!(record.analysis.has_logo());
    assert_eq!(record.input, "in.ts");
    assert_eq!(record.profile, "x264-cpu");
    assert_eq!(record.plan, doubtful());
}

// Profiles.

#[test]
fn every_builtin_profile_parses() {
    let profiles = builtin();
    assert_eq!(profiles.len(), 4);
    for name in ["nvenc-h264", "nvenc-hevc", "x264-cpu", "x265-cpu"] {
        assert!(profiles.contains_key(name), "missing {name}");
    }
}

#[test]
fn deinterlacing_only_applies_to_interlaced_sources() {
    let profile = profile_named("x264-cpu");
    assert!(
        profile.video_filters(true).iter().any(|f| f.contains("bwdif")),
        "interlaced sources must be deinterlaced"
    );
    assert!(
        !profile.video_filters(false).iter().any(|f| f.contains("bwdif")),
        "progressive sources must be left alone"
    );
}

#[test]
fn scaling_never_upscales_and_keeps_the_width_even() {
    let profile = Profile {
        name: "test".to_owned(),
        description: String::new(),
        container: Container::Mp4,
        video: VideoSettings {
            encoder: "libx264".to_owned(),
            args: Vec::new(),
            max_height: Some(720),
        },
        audio: AudioSettings {
            encoder: "aac".to_owned(),
            args: Vec::new(),
            channels: 2,
            sample_rate: 48_000,
            dual_mono_mode: "main".to_owned(),
        },
        filters: FilterSettings { deinterlace: None, extra: Vec::new() },
    };
    let chain = profile.video_filters(false);
    assert_eq!(chain, vec!["scale=-2:'min(720,ih)'".to_owned()]);
}

#[test]
fn extra_filters_come_last() {
    let mut profile = profile_named("x264-cpu");
    profile.filters.extra = vec!["hqdn3d".to_owned()];
    let chain = profile.video_filters(true);
    assert_eq!(chain.last().map(String::as_str), Some("hqdn3d"));
}

#[test]
fn containers_know_their_extension_and_muxer() {
    assert_eq!(Container::Mp4.extension(), ".mp4");
    assert_eq!(Container::Mkv.muxer(), "matroska");
}

#[test]
fn a_stored_profile_joins_the_shipped_ones() {
    assert_eq!(ProfileStore::all(Vec::new()).len(), builtin().len());
    let mut custom = profile_named("x264-cpu");
    custom.name = "my-profile".to_owned();
    let all = ProfileStore::all(vec![custom]);
    assert_eq!(all.len(), builtin().len() + 1);
    assert!(all.contains_key("my-profile"));
    assert!(all.contains_key("x264-cpu"));
}

#[test]
fn a_stored_profile_can_replace_a_shipped_one_and_be_taken_back() {
    let mut changed = profile_named("x264-cpu");
    changed.description = "mine".to_owned();
    let all = ProfileStore::all(vec![changed]);
    assert_eq!(all.get("x264-cpu").expect("there").description, "mine");
    let restored = ProfileStore::all(Vec::new());
    assert_ne!(restored.get("x264-cpu").expect("there").description, "mine");
}

#[test]
fn a_profile_name_cannot_escape_the_store_directory() {
    let store = ProfileStore::open("/profiles".to_owned());
    assert_eq!(store.place("../../etc/passwd", &[]), "/profiles/______etc_passwd.toml");
    assert_eq!(store.place("x264-cpu", &[]), "/profiles/x264-cpu.toml");
    assert_eq!(store.root(), "/profiles");
    assert!(ProfileStore::holds_profile("/profiles/a.toml"));
    assert!(!ProfileStore::holds_profile("/profiles/a.json"));
}

#[test]
fn dual_mono_defaults_to_the_main_language() {
    assert_eq!(profile_named("nvenc-h264").audio.dual_mono_mode, "main");
}

#[test]
fn a_profile_runs_only_where_both_its_encoders_are() {
    let profile = profile_named("nvenc-hevc");
    assert!(profile.is_supported_by(&installation(&["hevc_nvenc", "aac"])));
    assert!(!profile.is_supported_by(&installation(&["hevc_nvenc"])));
    assert!(!profile.is_supported_by(&installation(&["aac"])));
    assert_eq!(profile.duplicate(), profile);
}

// Rules.

fn drama() -> Candidate {
    Candidate {
        channel_id: text("1040"),
        title: text("最終回スペシャル ドラマ"),
        path: text("/recordings/drama-ep12.ts"),
        height: Some(1080),
    }
}

#[test]
fn a_rule_with_no_conditions_matches_anything() {
    assert!(Rule::default().matches(&drama()));
    assert!(Rule::default().matches(&Candidate::default()));
}

#[test]
fn every_condition_has_to_hold() {
    let rule = Rule {
        channel_id: text("1040"),
        title_contains: text("ドラマ"),
        min_height: Some(720),
        ..Rule::default()
    };
    assert!(rule.matches(&drama()));
    let wrong_channel = Candidate { channel_id: text("1024"), ..drama() };
    assert!(!rule.matches(&wrong_channel));
    let standard_definition = Candidate { height: Some(480), ..drama() };
    assert!(!rule.matches(&standard_definition));
}

#[test]
fn matching_ignores_capitalisation() {
    let rule = Rule { title_contains: text("news"), ..Rule::default() };
    let candidate = Candidate { title: text("Evening NEWS at Ten"), ..Candidate::default() };
    assert!(rule.matches(&candidate));
    let accented = Rule { path_contains: text("ÉTÉ"), ..Rule::default() };
    let summer = Candidate { path: text("/r/été.ts"), ..Candidate::default() };
    assert!(accented.matches(&summer));
}

#[test]
fn a_condition_about_something_unknown_does_not_match() {
    let rule = Rule { min_height: Some(720), ..Rule::default() };
    assert!(!rule.matches(&Candidate::default()));
    let rule = Rule { title_contains: text("anything"), ..Rule::default() };
    assert!(!rule.matches(&Candidate::default()));
}

#[test]
fn the_first_matching_rule_is_the_one_that_applies() {
    let mut rules = RuleSet::new(Vec::new());
    rules.replace(vec![
        Rule {
            name: text("HD drama"),
            title_contains: text("ドラマ"),
            min_height: Some(720),
            profile: text("nvenc-hevc"),
            priority: Some(10),
            ..Rule::default()
        },
        Rule {
            name: text("everything else"),
            profile: text("nvenc-h264"),
            ..Rule::default()
        },
    ]);
    let hit = rules.first_match(&drama()).expect("a rule");
    assert_eq!(hit.profile.as_deref(), Some("nvenc-hevc"));
    assert_eq!(hit.priority, Some(10));
    let news =
        Candidate { title: text("ニュース"), height: Some(1080), ..Candidate::default() };
    let hit = rules.first_match(&news).expect("a rule");
    assert_eq!(hit.profile.as_deref(), Some("nvenc-h264"));
}

#[test]
fn no_rules_at_all_is_a_valid_state() {
    let rules = RuleSet::new(Vec::new());
    assert!(rules.all().is_empty());
    assert_eq!(rules.first_match(&drama()), None);
}

// The logo store.

fn logo(channel: &str, width: u32, height: u32) -> LogoData {
    let rect = Rect { x: 4, y: 4, width: 16, height: 16 };
    LogoData {
        name: format!("channel {channel}"),
        channel_id: text(channel),
        source_width: width,
        source_height: height,
        rect,
        a: vec![2.0f32.to_bits(); rect.area() as usize],
        b: vec![(-0.9f32).to_bits(); rect.area() as usize],
        frames_used: 400,
    }
}

#[test]
fn a_stored_logo_comes_back() {
    let bytes = logo("3239123", 1440, 1080).to_bytes().expect("encodes");
    let loaded = accept_stored(&bytes, 1440, 1080).expect("loads");
    assert_eq!(loaded.channel_id.as_deref(), Some("3239123"));
    assert_eq!(loaded.source_width, 1440);
    assert!(accept_stored(b"not a logo", 1440, 1080).is_none());
}

#[test]
fn logos_are_kept_separately_per_resolution() {
    let store = LogoStore::open("/logos".to_owned());
    let hd = logo("101", 1440, 1080);
    let sd = logo("101", 720, 480);
    assert_eq!(store.save_path(&hd), "/logos/101-1440x1080.abl");
    assert_eq!(store.save_path(&sd), "/logos/101-720x480.abl");
    assert_eq!(store.path_for("101", 1440, 1080), store.save_path(&hd));
    // A file that was renamed still only answers for the size it was learned
    // at.
    assert!(accept_stored(&hd.to_bytes().expect("encodes"), 1920, 1080).is_none());
}

#[test]
fn a_channel_id_cannot_escape_the_store_directory() {
    let key = LogoStore::key("../../etc/passwd", 1440, 1080);
    assert!(!key.contains('/'), "{key}");
    assert!(!key.contains(".."), "{key}");
    assert_eq!(key, "______etc_passwd-1440x1080.abl");
}

#[test]
fn saving_twice_replaces_rather_than_accumulates() {
    let store = LogoStore::open("/logos".to_owned());
    let first = logo("55", 1440, 1080);
    let mut updated = logo("55", 1440, 1080);
    updated.frames_used = 9999;
    assert_eq!(store.save_path(&first), store.save_path(&updated));
    let mut nameless = logo("55", 1440, 1080);
    nameless.channel_id = None;
    assert_eq!(store.save_path(&nameless), "/logos/unknown-1440x1080.abl");
    assert_eq!(store.root(), "/logos");
    let paths: Vec<String> = [
        "/logos/55-1440x1080.abl",
        "/logos/b_s.nologo",
        "/logos/notes.txt",
        "/logos/101.nologo",
        "/logos/101-1440x1080.abl",
    ]
    .iter()
    .map(|path| (*path).to_owned())
    .collect();
    assert_eq!(logo_files(&paths), ["/logos/101-1440x1080.abl", "/logos/55-1440x1080.abl"]);
    assert_eq!(mark_files(&paths), ["/logos/101.nologo", "/logos/b_s.nologo"]);
    assert_eq!(LogoStore::open("/logos".to_owned()).mark_for("b/s"), "/logos/b_s.nologo");
}

// The ordered map underneath.

#[test]
fn a_map_lists_its_keys_in_order() {
    let mut map: TextMap<u32> = TextMap::new();
    assert!(map.is_empty());
    for (key, value) in [("b", 2), ("a", 1), ("c", 3), ("a", 10)] {
        map.insert(key.to_owned(), value);
    }
    let listed: Vec<(String, u32)> = (0..map.len())
        .map(|i| {
            let (key, value) = map.entry(i);
            (key.to_owned(), *value)
        })
        .collect();
    assert_eq!(
        listed,
        vec![("a".to_owned(), 10), ("b".to_owned(), 2), ("c".to_owned(), 3)]
    );
    assert_eq!(map.remove("b"), Some(2));
    assert_eq!(map.remove("b"), None);
    assert_eq!(map.get("c"), Some(&3));
}

#[test]
fn a_rooted_template_stays_in_the_directory() {
    assert_eq!(rename("/rec/x.mp4", "/News", &fields()), text("/rec/News.mp4"));
    assert_eq!(rename("/rec/x.mp4", "//a/{year}/b", &fields()), text("/rec/a/2026/b.mp4"));
    assert_eq!(rename("x.mp4", "/News", &fields()), text("News.mp4"));
}

#[test]
fn a_safe_name_ends_in_neither_a_dot_nor_a_space() {
    assert_eq!(sanitise("a ."), "a");
    assert_eq!(sanitise("a . . ."), "a");
    assert_eq!(sanitise(". . ."), "untitled");
    assert_eq!(sanitise("..a b"), "a b");
}

fn stored(path: &str, name: Option<&str>) -> StoredProfile {
    let profile = name.map(|name| {
        let mut profile = profile_named("x264-cpu");
        profile.name = name.to_owned();
        profile
    });
    StoredProfile { path: path.to_owned(), profile }
}

#[test]
fn profiles_with_names_alike_do_not_share_a_file() {
    let store = ProfileStore::open("/profiles".to_owned());
    assert_eq!(store.place("a b", &[]), "/profiles/a_b.toml");
    let one = [stored("/profiles/a_b.toml", Some("a b"))];
    assert_eq!(store.place("a b", &one), "/profiles/a_b.toml");
    assert_eq!(store.place("a_b", &one), "/profiles/a_b~.toml");
    let two = [stored("/profiles/a_b.toml", Some("a b")), stored("/profiles/a_b~.toml", Some("a_b"))];
    assert_eq!(store.place("a_b", &two), "/profiles/a_b~.toml");
    assert_eq!(store.place("a.b", &two), "/profiles/a_b~~.toml");
    assert_eq!(store.files_of("a_b", &two), ["/profiles/a_b~.toml"]);
    assert!(store.files_of("a.b", &two).is_empty());
}

#[test]
fn a_file_that_cannot_be_read_is_written_over() {
    let store = ProfileStore::open("/profiles".to_owned());
    let broken = [stored("/profiles/mine.toml", None)];
    assert_eq!(store.place("mine", &broken), "/profiles/mine.toml");
    assert_eq!(store.files_of("mine", &broken), ["/profiles/mine.toml"]);
    assert!(store.files_of("other", &broken).is_empty());
}

#[test]
fn a_profile_edited_by_hand_is_replaced_where_it_is() {
    let store = ProfileStore::open("/profiles".to_owned());
    let files = [stored("/profiles/old.toml", Some("mine")), stored("/profiles/new.toml", Some("mine"))];
    assert_eq!(store.place("mine", &files), "/profiles/new.toml");
    assert_eq!(store.files_of("mine", &files), ["/profiles/old.toml", "/profiles/new.toml"]);
    assert_eq!(store.place("", &[]), "/profiles/_.toml");
}

#[test]
fn parts_are_written_to_files_of_their_own() {
    let names: Vec<String> = (0..12).map(|i| numbered("/rec/News.mp4", i)).collect();
    assert_eq!(names[0], "/rec/News.mp4");
    assert_eq!(names[1], "/rec/News.part2.mp4");
    for (i, name) in names.iter().enumerate() {
        assert!(!names[..i].contains(name), "{name}");
    }
}
