use asaborake::analyze::logo::model::LogoData;
use asaborake::analyze::logo::model::Rect;
use asaborake::analyze::logo::track::LogoInterval;
use asaborake::analyze::Analysis;
use asaborake::analyze::LogoSummary;
use asaborake::cli::epgstation::Environment;
use asaborake::cli::epgstation::ProgressReporter;
use asaborake::cli::print::describe_outcome;
use asaborake::cli::print::describe_plan;
use asaborake::cli::print::describe_profile;
use asaborake::cli::print::describe_progress;
use asaborake::cli::print::describe_scan;
use asaborake::cli::print::describe_stored_logo;
use asaborake::cli::request::build_request;
use asaborake::cli::request::profile;
use asaborake::cli::request::station_job;
use asaborake::cli::request::RecordingContext;
use asaborake::cmcut::plan::CutPlan;
use asaborake::cmcut::plan::Decision;
use asaborake::cmcut::plan::NEVER;
use asaborake::cmcut::score::LowConfidencePolicy;
use asaborake::cmcut::score::SegmentKind;
use asaborake::cmcut::solve::Segment;
use asaborake::media::frames::FrameSpacing;
use asaborake::ts::FormatChange;
use asaborake::ts::ProgramInfo;
use asaborake::ts::StreamInfo;
use asaborake::ts::StreamKind;
use asaborake::ts::TsInfo;
use asaborake::ts::TsStats;
use asaborake::ts::VideoFormat;

fn pairs(entries: &[(&str, &str)]) -> Vec<(String, String)> {
    entries.iter().map(|(k, v)| ((*k).to_owned(), (*v).to_owned())).collect()
}

#[test]
fn reads_the_variables_epgstation_sets() {
    let env = Environment::from_pairs(&pairs(&[
        ("INPUT", "/recordings/news.ts"),
        ("OUTPUT", "/recordings/news.mp4"),
        ("NAME", "ニュース"),
        ("CHANNELID", "3239123"),
        ("CHANNELNAME", "ＮＨＫ総合"),
        ("HALF_WIDTH_CHANNELNAME", "NHK総合"),
        ("VIDEORESOLUTION", "1080i"),
        ("RECORDEDID", "42"),
    ]));
    assert_eq!(env.input.as_deref(), Some("/recordings/news.ts"));
    assert_eq!(env.output.as_deref(), Some("/recordings/news.mp4"));
    assert_eq!(env.channel_id.as_deref(), Some("3239123"));
    assert_eq!(env.channel_name.as_deref(), Some("NHK総合"));
    assert_eq!(env.recorded_id.as_deref(), Some("42"));
    assert_eq!(env.name.as_deref(), Some("ニュース"));
}

#[test]
fn empty_variables_are_treated_as_absent() {
    let env = Environment::from_pairs(&pairs(&[
        ("INPUT", "/in.ts"),
        ("OUTPUT", ""),
        ("CHANNELID", ""),
    ]));
    assert!(env.output.is_none());
    assert!(env.channel_id.is_none());
}

#[test]
fn a_station_job_needs_an_input_and_an_output() {
    let missing = station_job(&Environment::default()).expect_err("no input");
    assert_eq!(missing, "EPGStation did not set INPUT; is this running as an encoder?");
    let half = Environment::from_pairs(&pairs(&[("INPUT", "/in.ts")]));
    let missing = station_job(&half).expect_err("no output");
    assert_eq!(missing, "EPGStation did not set OUTPUT; the encode entry needs a suffix");
    let whole = Environment::from_pairs(&pairs(&[
        ("INPUT", "/in.ts"),
        ("OUTPUT", "/out.mp4"),
        ("NAME", "News"),
    ]));
    let job = station_job(&whole).expect("a job");
    assert_eq!((job.input.as_str(), job.output.as_str()), ("/in.ts", "/out.mp4"));
    assert_eq!(job.context.title.as_deref(), Some("News"));
}

#[test]
fn progress_lines_match_the_shape_epgstation_parses() {
    let mut reporter = ProgressReporter::new();
    let line = reporter.report(420_000, "encoding").expect("worth writing");
    assert_eq!(line.log, "encoding");
    // A fraction, not a percentage: the client multiplies by 100.
    assert_eq!(line.percent, 420_000);
}

#[test]
fn progress_is_clamped_into_range() {
    let mut reporter = ProgressReporter::new();
    assert_eq!(reporter.report(1_500_000, "over").expect("written").percent, 1_000_000);
    assert_eq!(reporter.report(-500_000, "under").expect("written").percent, 0);
}

#[test]
fn tiny_advances_are_not_reported() {
    let mut reporter = ProgressReporter::new();
    assert!(reporter.report(100_000, "encoding").is_some());
    assert!(!reporter.should_report(100_100, "encoding"), "too small a step");
    assert!(reporter.should_report(110_000, "encoding"), "a visible step");
    assert!(reporter.should_report(100_100, "muxing"));
    assert!(reporter.report(100_100, "encoding").is_none());
}

#[test]
fn the_first_report_always_goes_out() {
    assert!(ProgressReporter::new().should_report(0, "starting"));
}

#[test]
fn an_unknown_profile_lists_the_ones_that_exist() {
    let message = profile("no-such-profile").expect_err("must fail");
    assert!(message.contains("nvenc-h264"), "unhelpful: {message}");
    assert_eq!(
        message,
        "no profile named 'no-such-profile'; available: nvenc-h264, nvenc-hevc, x264-cpu, x265-cpu"
    );
}

#[test]
fn no_cut_suppresses_removal_without_suppressing_detection() {
    let request =
        build_request("in.ts", "out.mp4", "x264-cpu", true, &RecordingContext::default())
            .expect("builds");
    assert_eq!(request.cut.confidence_threshold, NEVER);
    assert_eq!(request.cut.low_confidence, LowConfidencePolicy::Keep);
    assert!(request.learn_logo, "detection still runs");
    assert!(build_request("in.ts", "out.mp4", "nope", true, &RecordingContext::default()).is_err());
}

fn found() -> Analysis {
    Analysis {
        duration: 600_000_000,
        spacing: FrameSpacing { micros: 1_000_000, frames: 30 },
        logo: Some(LogoSummary {
            rect: Rect { x: 10, y: 20, width: 32, height: 16 },
            mean_alpha: 456_000,
            frames_used: 500,
            from_store: false,
        }),
        learned_logo: None,
        logo_intervals: vec![LogoInterval { start: 0, end: 540_000_000 }],
        logo_track: None,
        scene_changes: Vec::new(),
        silent_spans: Vec::new(),
    }
}

fn made() -> CutPlan {
    let segment = |start: i64, end: i64, kind| Segment {
        start: start * 1_000_000,
        end: end * 1_000_000,
        kind,
        confidence: 900_000,
    };
    CutPlan {
        segments: vec![
            segment(0, 540, SegmentKind::Programme),
            segment(540, 600, SegmentKind::Commercial),
        ],
        keep: Vec::new(),
        confidence: 900_000,
        decision: Decision::Cut,
        reason: "1 commercial blocks, confidence 0.90".to_owned(),
    }
}

#[test]
fn a_plan_is_printed_line_by_line() {
    assert_eq!(
        describe_plan(&found(), &made()),
        [
            "duration      600.0s",
            "logo          32x16 at (10, 20), opacity 0.46, 90% present",
            "signals       0 scene changes, 0 silences",
            "confidence    0.90",
            "decision      Cut — 1 commercial blocks, confidence 0.90",
            "       0.0s     540.0s  Programme  0.90",
            "     540.0s     600.0s  CM         0.90",
            "would remove  60.0s of 600.0s",
        ]
    );
    let mut plain = found();
    plain.logo = None;
    assert_eq!(describe_plan(&plain, &made())[1], "logo          not found");
    assert_eq!(describe_outcome(&made()), "removed 60.0s, confidence 0.90");
}

#[test]
fn progress_is_printed_as_a_percentage() {
    assert_eq!(describe_progress(53_400, "encoding"), "  5.3%  encoding");
    assert_eq!(describe_progress(1_000_000, "done"), "100.0%  done");
}

#[test]
fn logos_and_profiles_are_printed_in_columns() {
    let rect = Rect { x: 4, y: 5, width: 2, height: 1 };
    let logo = LogoData {
        name: "x".to_owned(),
        channel_id: Some("1024".to_owned()),
        source_width: 1440,
        source_height: 1080,
        rect,
        a: vec![2.0f32.to_bits(); 2],
        b: vec![(-0.9f32).to_bits(); 2],
        frames_used: 400,
    };
    assert_eq!(
        describe_stored_logo(&logo),
        "1024                     1440x1080  rect 2x1+4+5  opacity 0.50  400 frames"
    );
    let shipped = profile("x264-cpu").expect("shipped");
    assert_eq!(
        describe_profile("x264-cpu", &shipped),
        "x264-cpu     libx264      H.264 on the CPU"
    );
}

#[test]
fn a_scan_is_printed_line_by_line() {
    let format = VideoFormat {
        width: 1440,
        height: 1080,
        frame_rate: (30_000, 1_001),
        interlaced: true,
    };
    let info = TsInfo {
        layout: "Ts188".to_owned(),
        packet_count: 1_000,
        duration_seconds: 12_340_000,
        programs: vec![ProgramInfo {
            program_number: 1024,
            streams: vec![
                StreamInfo { pid: 0x111, kind: StreamKind::Mpeg2Video, audio: None },
                StreamInfo { pid: 0x1ff, kind: StreamKind::Other(6), audio: None },
            ],
        }],
        video_format: Some(format),
        format_changes: vec![FormatChange {
            seconds: 5_000_000,
            byte_offset: 188,
            format: VideoFormat { width: 720, ..format },
        }],
        stats: TsStats { dropped_packets: 1, scrambled_packets: 2, error_packets: 3 },
    };
    assert_eq!(
        describe_scan(&info),
        [
            "layout        Ts188",
            "packets       1000",
            "duration      12.3s",
            "video         1440x1080 @ 29.970 fps interlaced",
            "program 1024",
            "  pid 0x0111  Mpeg2Video",
            "  pid 0x01ff  Other(6)",
            "health        1 dropped, 2 scrambled, 3 errors",
            "note          the picture geometry changes mid-recording",
        ]
    );
}
