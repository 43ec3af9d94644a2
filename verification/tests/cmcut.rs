use asaborake::analyze::logo::model::Rect;
use asaborake::analyze::logo::track::LogoInterval;
use asaborake::analyze::scene::SceneChange;
use asaborake::analyze::scene::DIFFERENCE_UNIT;
use asaborake::analyze::Analysis;
use asaborake::analyze::LogoSummary;
use asaborake::analyze::SilentSpan;
use asaborake::cmcut::boundary::candidates;
use asaborake::cmcut::boundary::Boundary;
use asaborake::cmcut::boundary::BoundaryOptions;
use asaborake::cmcut::plan::confidence_of;
use asaborake::cmcut::plan::decide;
use asaborake::cmcut::plan::merge_kept;
use asaborake::cmcut::plan::plan;
use asaborake::cmcut::plan::Decision;
use asaborake::cmcut::plan::Error;
use asaborake::cmcut::plan::KeepRange;
use asaborake::cmcut::plan::LOGO_FREE_CONFIDENCE_CEILING;
use asaborake::cmcut::plan::NEVER;
use asaborake::cmcut::score::fits_grid;
use asaborake::cmcut::score::segment_confidence;
use asaborake::cmcut::score::segment_score;
use asaborake::cmcut::score::CutOptions;
use asaborake::cmcut::score::LowConfidencePolicy;
use asaborake::cmcut::score::SegmentKind;
use asaborake::cmcut::solve::LogoCoverage;
use asaborake::cmcut::solve::Segment;
use asaborake::media::frames::FrameSpacing;

fn micros(seconds: f64) -> i64 {
    (seconds * 1e6).round() as i64
}

fn near(value: i64, seconds: f64, slack: f64) -> bool {
    (value as f64 / 1e6 - seconds).abs() < slack
}

fn strength(level: f64) -> u32 {
    (level * f64::from(DIFFERENCE_UNIT)).round() as u32
}

fn analysis(
    duration: f64,
    logo: &[(f64, f64)],
    scenes: &[(f64, f64)],
    silences: &[(f64, f64)],
) -> Analysis {
    Analysis {
        duration: micros(duration),
        spacing: FrameSpacing { micros: 1_000_000, frames: 30 },
        logo: None,
        learned_logo: None,
        logo_intervals: logo
            .iter()
            .map(|&(start, end)| LogoInterval { start: micros(start), end: micros(end) })
            .collect(),
        logo_track: None,
        scene_changes: scenes
            .iter()
            .map(|&(at, level)| SceneChange { at: micros(at), strength: strength(level) })
            .collect(),
        silent_spans: silences
            .iter()
            .map(|&(start, end)| SilentSpan { start: micros(start), end: micros(end) })
            .collect(),
    }
}

#[test]
fn always_includes_both_ends_of_the_recording() {
    let a = analysis(100.0, &[], &[], &[]);
    let found = candidates(&a, &BoundaryOptions::default());
    assert_eq!(found.first().expect("start").at, 0);
    assert_eq!(found.last().expect("end").at, micros(100.0));
}

#[test]
fn a_junction_with_all_three_signals_merges_into_one_boundary() {
    let a = analysis(60.0, &[(0.0, 30.0)], &[(30.1, 50.0)], &[(29.9, 30.3)]);
    let found = candidates(&a, &BoundaryOptions::default());
    let junction = found
        .iter()
        .find(|b| near(b.at, 30.0, 0.5))
        .expect("a boundary near 30s");
    assert!(junction.logo_transition, "{junction:?}");
    assert!(junction.scene_change, "{junction:?}");
    assert!(junction.silence, "{junction:?}");
    assert_eq!(junction.quality(), 100);
    // And it lands on the frame-exact scene change, not the logo estimate.
    assert_eq!(junction.at, micros(30.1), "{junction:?}");
}

#[test]
fn a_lone_scene_change_is_worth_little() {
    let a = analysis(60.0, &[], &[(20.0, 90.0)], &[]);
    let found = candidates(&a, &BoundaryOptions::default());
    let lone = found.iter().find(|b| near(b.at, 20.0, 0.1)).expect("the cut");
    assert!(lone.quality() < 30, "{lone:?}");
}

#[test]
fn weak_scene_changes_are_capped_but_supported_ones_always_survive() {
    let mut scenes: Vec<(f64, f64)> =
        (0..1000).map(|i| (10.0 + f64::from(i) * 0.5, 20.0)).collect();
    scenes.push((700.0, 12.5));
    let a = analysis(1000.0, &[], &scenes, &[(699.8, 700.4)]);
    let options = BoundaryOptions::default();
    let found = candidates(&a, &options);
    assert!(
        found.len() <= options.max_scene_candidates + 8,
        "candidate set not capped: {}",
        found.len()
    );
    assert!(
        found.iter().any(|b| near(b.at, 700.0, 0.5) && b.silence),
        "a silence-backed cut must survive the cap"
    );
}

#[test]
fn candidates_outside_the_recording_are_dropped() {
    let a = analysis(60.0, &[(-5.0, 80.0)], &[], &[]);
    let found = candidates(&a, &BoundaryOptions::default());
    assert!(found.iter().all(|b| b.at >= 0 && b.at <= micros(60.0)));
}

#[test]
fn boundaries_come_out_sorted_and_distinct() {
    let a = analysis(
        120.0,
        &[(0.0, 30.0), (60.0, 90.0)],
        &[(30.05, 40.0), (59.9, 45.0)],
        &[(29.8, 30.2), (59.7, 60.1)],
    );
    let found = candidates(&a, &BoundaryOptions::default());
    for pair in found.windows(2) {
        assert!(pair[1].at > pair[0].at, "not strictly increasing: {pair:?}");
    }
}

/// An analysis describing a programme with commercial breaks.
///
/// Each break gets a silence and a scene change at both ends, as broadcast
/// actually produces, and the logo is absent across it.
fn broadcast(duration: f64, breaks: &[(f64, f64)], with_logo: bool) -> Analysis {
    let mut logo = Vec::new();
    let mut scenes = Vec::new();
    let mut silences = Vec::new();
    let mut cursor = 0.0;
    for &(start, end) in breaks {
        if with_logo && start > cursor {
            logo.push((cursor, start));
        }
        for &edge in &[start, end] {
            scenes.push((edge, 90.0));
            silences.push((edge - 0.2, edge + 0.2));
        }
        cursor = end;
    }
    if with_logo && cursor < duration {
        logo.push((cursor, duration));
    }
    // Ordinary cuts inside the programme, which must not be mistaken for block
    // boundaries.
    let mut seconds = 7.0;
    while seconds < duration {
        scenes.push((seconds, 25.0));
        seconds += 13.0;
    }
    scenes.sort_unstable_by(|a, b| a.0.total_cmp(&b.0));
    let mut found = analysis(duration, &logo, &scenes, &silences);
    if with_logo {
        found.logo = Some(LogoSummary {
            rect: Rect { x: 0, y: 0, width: 32, height: 32 },
            mean_alpha: 500_000,
            frames_used: 500,
            from_store: false,
        });
    }
    found
}

fn commercials(segments: &[Segment]) -> Vec<Segment> {
    segments.iter().copied().filter(|s| s.kind == SegmentKind::Commercial).collect()
}

#[test]
fn finds_a_single_commercial_break() {
    let analysis = broadcast(600.0, &[(300.0, 360.0)], true);
    let plan = plan(&analysis, &CutOptions::default());
    assert_eq!(plan.decision, Decision::Cut, "{}", plan.reason);
    let commercials = commercials(&plan.segments);
    assert_eq!(commercials.len(), 1, "{:?}", plan.segments);
    assert!(near(commercials[0].start, 300.0, 1.0), "{commercials:?}");
    assert!(near(commercials[0].end, 360.0, 1.0), "{commercials:?}");
    assert!(plan.confidence > 600_000, "confidence {}", plan.confidence);
}

#[test]
fn finds_several_breaks_and_keeps_the_programme_around_them() {
    let analysis =
        broadcast(1800.0, &[(420.0, 510.0), (960.0, 1050.0), (1500.0, 1560.0)], true);
    let plan = plan(&analysis, &CutOptions::default());
    assert_eq!(plan.decision, Decision::Cut, "{}", plan.reason);
    assert_eq!(commercials(&plan.segments).len(), 3, "{:?}", plan.segments);
    // 90 + 90 + 60 seconds removed.
    assert!(near(plan.cut_seconds() as i64, 240.0, 3.0), "{}", plan.cut_seconds());
    assert!(near(plan.kept_seconds() as i64, 1560.0, 3.0), "{}", plan.kept_seconds());
}

#[test]
fn a_programme_with_no_breaks_is_left_alone() {
    let analysis = broadcast(1800.0, &[], true);
    let plan = plan(&analysis, &CutOptions::default());
    assert_eq!(plan.cut_seconds(), 0, "{:?}", plan.segments);
    assert!(plan.confidence > 800_000, "confidence {}", plan.confidence);
    assert!(!plan.cuts_anything());
}

#[test]
fn segments_tile_the_whole_recording_without_gaps() {
    let analysis = broadcast(1200.0, &[(300.0, 390.0), (800.0, 860.0)], true);
    let plan = plan(&analysis, &CutOptions::default());
    assert_eq!(plan.segments.first().expect("a segment").start, 0);
    assert_eq!(plan.segments.last().expect("a segment").end, micros(1200.0));
    for pair in plan.segments.windows(2) {
        assert_eq!(pair[1].start, pair[0].end, "gap between {:?} and {:?}", pair[0], pair[1]);
        assert_ne!(pair[0].kind, pair[1].kind, "adjacent segments must alternate");
    }
}

#[test]
fn without_a_logo_it_keeps_the_recording_rather_than_guessing() {
    let analysis = broadcast(1800.0, &[(420.0, 510.0), (960.0, 1050.0)], false);
    let plan = plan(&analysis, &CutOptions::default());
    assert_eq!(
        plan.decision,
        Decision::KeepAll,
        "reason: {} confidence: {}",
        plan.reason,
        plan.confidence
    );
    assert_eq!(plan.keep.len(), 1);
    assert_eq!(plan.kept_seconds(), i128::from(micros(1800.0)));
}

#[test]
fn a_convincing_logo_free_plan_still_will_not_cut_on_its_own() {
    let breaks: Vec<(f64, f64)> = (0..12)
        .map(|i| {
            let start = 90.0 + f64::from(i) * 150.0;
            (start, start + 60.0)
        })
        .collect();
    let analysis = broadcast(1900.0, &breaks, false);
    let plan = plan(&analysis, &CutOptions::default());
    assert!(
        plan.confidence <= LOGO_FREE_CONFIDENCE_CEILING,
        "logo-free confidence must stay capped, got {}",
        plan.confidence
    );
    assert_eq!(
        plan.decision,
        Decision::KeepAll,
        "reason: {} confidence: {}",
        plan.reason,
        plan.confidence
    );
    assert!(
        plan.segments.iter().any(|s| s.kind == SegmentKind::Commercial),
        "the reading is still reported, just not applied"
    );
}

#[test]
fn the_cut_anyway_policy_overrides_low_confidence() {
    let analysis = broadcast(1800.0, &[(420.0, 510.0), (960.0, 1050.0)], false);
    let options =
        CutOptions { low_confidence: LowConfidencePolicy::Cut, ..CutOptions::default() };
    let plan = plan(&analysis, &options);
    assert_eq!(plan.decision, Decision::Cut, "{}", plan.reason);
}

#[test]
fn the_fifteen_second_grid_is_what_distinguishes_a_block() {
    let options = CutOptions::default();
    for seconds in [15.0, 30.0, 60.0, 90.0, 120.0] {
        assert!(fits_grid(micros(seconds), &options), "{seconds}s should fit");
    }
    assert!(fits_grid(micros(60.3), &options));
    for seconds in [47.0, 61.0, 22.5] {
        assert!(!fits_grid(micros(seconds), &options), "{seconds}s should not fit");
    }
    assert!(!fits_grid(micros(3.0), &options));
}

#[test]
fn an_empty_analysis_keeps_everything() {
    let mut analysis = analysis(0.0, &[], &[], &[]);
    analysis.spacing = FrameSpacing { micros: 0, frames: 1 };
    let plan = plan(&analysis, &CutOptions::default());
    assert_eq!(plan.decision, Decision::KeepAll);
    assert_eq!(plan.confidence, 0);
}

fn segment(start: f64, end: f64, kind: SegmentKind) -> Segment {
    Segment { start: micros(start), end: micros(end), kind, confidence: 1_000_000 }
}

#[test]
fn keep_ranges_merge_adjacent_programme_segments() {
    let segments = vec![
        segment(0.0, 10.0, SegmentKind::Programme),
        segment(10.0, 20.0, SegmentKind::Commercial),
        segment(20.0, 30.0, SegmentKind::Programme),
    ];
    let keep = merge_kept(&segments);
    assert_eq!(keep.len(), 2);
    assert_eq!(keep[0].duration(), micros(10.0));
    assert_eq!(keep[1].start, micros(20.0));
    // Two that touch become one.
    let touching = vec![
        segment(0.0, 10.0, SegmentKind::Programme),
        segment(10.0, 20.0, SegmentKind::Programme),
    ];
    assert_eq!(merge_kept(&touching), vec![KeepRange { start: 0, end: micros(20.0) }]);
}

#[test]
fn a_break_beyond_the_plausible_maximum_is_penalised_for_its_excess() {
    let strict = CutOptions::default();
    let permissive = CutOptions { maximum_commercial: micros(900.0), ..strict };
    let score = |seconds: f64, options: &CutOptions| {
        segment_score(micros(seconds), 0, SegmentKind::Commercial, true, options)
    };
    let penalised = score(600.0, &strict);
    let unpenalised = score(600.0, &permissive);
    let excess = i128::from(micros(600.0) - strict.maximum_commercial)
        * i128::from(strict.weights.overlong_commercial_penalty);
    assert!(penalised < unpenalised, "{penalised} vs {unpenalised}");
    assert_eq!(unpenalised - penalised, excess);
    assert_eq!(score(120.0, &strict), score(120.0, &permissive));
}

#[test]
fn a_long_logo_bearing_stretch_is_programme_not_a_commercial_block() {
    let options = CutOptions::default();
    let length = micros(600.0);
    let as_commercial = segment_score(length, length, SegmentKind::Commercial, true, &options);
    let as_programme = segment_score(length, length, SegmentKind::Programme, true, &options);
    assert!(
        as_commercial < as_programme,
        "commercial {as_commercial} vs programme {as_programme}"
    );
}

#[test]
fn every_policy_says_what_it_does() {
    let segments =
        vec![segment(0.0, 60.0, SegmentKind::Programme), segment(60.0, 90.0, SegmentKind::Commercial)];
    let mut options = CutOptions::default();
    let threshold = options.confidence_threshold as f64 / 1e6;
    for (policy, decision, said) in [
        (
            LowConfidencePolicy::Keep,
            Decision::KeepAll,
            "; keeping the whole recording and marking chapters",
        ),
        (
            LowConfidencePolicy::Block,
            Decision::KeepAll,
            "; keeping the whole recording and marking chapters",
        ),
        (LowConfidencePolicy::Cut, Decision::Cut, "; cutting anyway as configured"),
        (LowConfidencePolicy::Fail, Decision::KeepAll, "; configured to fail"),
    ] {
        options.low_confidence = policy;
        let (made, reason) = decide(300_000, &segments, true, &options);
        assert_eq!(made, decision);
        assert_eq!(reason, format!("confidence 0.30 is below {threshold:.2}{said}"));
    }
    options.confidence_threshold = NEVER;
    options.low_confidence = LowConfidencePolicy::Keep;
    let (made, reason) = decide(990_000, &segments, false, &options);
    assert_eq!(made, Decision::KeepAll);
    assert_eq!(
        reason,
        "no logo was found, and confidence 0.99 is below inf; keeping the whole recording and \
         marking chapters"
    );
    let (made, reason) = decide(990_000, &segments, true, &CutOptions::default());
    assert_eq!(made, Decision::Cut);
    assert_eq!(reason, "1 commercial blocks, confidence 0.99");
}

#[test]
fn confidence_is_the_weighted_mean_over_the_commercials() {
    let mut segments = vec![
        segment(0.0, 60.0, SegmentKind::Programme),
        segment(60.0, 90.0, SegmentKind::Commercial),
        segment(90.0, 120.0, SegmentKind::Programme),
        segment(120.0, 210.0, SegmentKind::Commercial),
    ];
    segments[1].confidence = 400_000;
    segments[3].confidence = 800_000;
    assert_eq!(confidence_of(&segments, true), 700_000);
    assert_eq!(confidence_of(&segments, false), LOGO_FREE_CONFIDENCE_CEILING);
    assert_eq!(confidence_of(&segments[..1], true), 900_000);
    assert_eq!(confidence_of(&segments[..1], false), 500_000);
}

#[test]
fn a_confident_segment_needs_boundaries_that_are_believed() {
    let options = CutOptions::default();
    let bare = Boundary::bare(0);
    let mut strong = Boundary::bare(micros(60.0));
    strong.logo_transition = true;
    strong.scene_change = true;
    strong.silence = true;
    let weak = segment_confidence(
        micros(60.0), 0, SegmentKind::Commercial, &bare, &bare, true, &options,
    );
    let sure = segment_confidence(
        micros(60.0), 0, SegmentKind::Commercial, &strong, &strong, true, &options,
    );
    assert!(weak < sure, "{weak} vs {sure}");
    assert!((0..=1_000_000).contains(&sure));
}

#[test]
fn coverage_is_measured_between_boundaries() {
    let intervals = [LogoInterval { start: micros(10.0), end: micros(40.0) }];
    let boundaries =
        [Boundary::bare(0), Boundary::bare(micros(20.0)), Boundary::bare(micros(60.0))];
    let coverage = LogoCoverage::new(&intervals, &boundaries);
    assert_eq!(coverage.covered(0, 1, micros(20.0)), micros(10.0));
    assert_eq!(coverage.covered(1, 2, micros(40.0)), micros(20.0));
    assert_eq!(coverage.covered(0, 2, micros(60.0)), micros(30.0));
}

#[test]
fn a_refusal_carries_its_reason() {
    let error = Error::LowConfidence { reason: "confidence 0.30 is below 0.60".to_owned() };
    assert_eq!(
        error.message(),
        "commercial detection was not confident enough: confidence 0.30 is below 0.60"
    );
}

#[test]
fn kinds_are_each_others_other() {
    assert_eq!(SegmentKind::Programme.other(), SegmentKind::Commercial);
    assert_eq!(SegmentKind::Commercial.other(), SegmentKind::Programme);
    assert_eq!(SegmentKind::Commercial.label(), "CM");
}

#[test]
fn a_cut_near_an_end_supports_it_without_moving_it() {
    let a = analysis(100.0, &[], &[(0.1, 50.0), (99.9, 40.0), (50.0, 30.0)], &[]);
    let found = candidates(&a, &BoundaryOptions::default());
    assert_eq!(found.iter().map(|b| b.at).collect::<Vec<_>>(), [0, micros(50.0), micros(100.0)]);
    assert!(found[0].scene_change && found[0].strength == strength(50.0));
    assert!(found[2].scene_change && found[2].strength == strength(40.0));
    let plan = plan(&a, &CutOptions::default());
    assert_eq!(plan.segments.first().expect("a segment").start, 0);
    assert_eq!(plan.segments.last().expect("a segment").end, micros(100.0));
}

#[test]
fn a_recording_shorter_than_the_window_still_has_two_ends() {
    let a = analysis(0.2, &[], &[(0.1, 50.0)], &[]);
    let found = candidates(&a, &BoundaryOptions::default());
    assert_eq!(found.iter().map(|b| b.at).collect::<Vec<_>>(), [0, micros(0.2)]);
    let plan = plan(&a, &CutOptions::default());
    assert_eq!(plan.segments.len(), 1);
    assert_eq!((plan.segments[0].start, plan.segments[0].end), (0, micros(0.2)));
    assert!(candidates(&analysis(-1.0, &[], &[], &[]), &BoundaryOptions::default()).is_empty());
    assert_eq!(candidates(&analysis(0.0, &[], &[], &[]), &BoundaryOptions::default()).len(), 1);
}
