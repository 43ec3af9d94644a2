use asaborake::analyze::fraction_of;
use asaborake::analyze::logo::detect::correlate;
use asaborake::analyze::logo::detect::zero_mean_patch;
use asaborake::analyze::logo::detect::LogoDetector;
use asaborake::analyze::logo::detect::MAX_MASK_POINTS;
use asaborake::analyze::logo::locate::edge_strength;
use asaborake::analyze::logo::locate::union;
use asaborake::analyze::logo::locate::LogoLocator;
use asaborake::analyze::logo::model::LogoData;
use asaborake::analyze::logo::model::LogoError;
use asaborake::analyze::logo::model::Rect;
use asaborake::analyze::logo::scan::fit_line;
use asaborake::analyze::logo::scan::interquartile_mean;
use asaborake::analyze::logo::scan::LogoScanner;
use asaborake::analyze::logo::scan::DEFAULT_FLATNESS_THRESHOLD;
use asaborake::analyze::logo::scan::MINIMUM_FRAMES;
use asaborake::analyze::logo::single::from_fine;
use asaborake::analyze::logo::single::is_finite;
use asaborake::analyze::logo::single::millionths;
use asaborake::analyze::logo::single::FINE;
use asaborake::analyze::logo::track::LogoInterval;
use asaborake::analyze::logo::track::LogoTrack;
use asaborake::analyze::logo::track::TrackOptions;
use asaborake::analyze::passes::after_bootstrap;
use asaborake::analyze::passes::after_locating;
use asaborake::analyze::passes::after_refining;
use asaborake::analyze::passes::assemble;
use asaborake::analyze::passes::begin_learning;
use asaborake::analyze::passes::logo_source;
use asaborake::analyze::passes::silences;
use asaborake::analyze::passes::DetectPass;
use asaborake::analyze::passes::LearnAction;
use asaborake::analyze::passes::LogoSource;
use asaborake::analyze::passes::RefineAction;
use asaborake::analyze::passes::ScanPass;
use asaborake::analyze::report;
use asaborake::analyze::scene::is_local_peak;
use asaborake::analyze::scene::local_median;
use asaborake::analyze::scene::mean_absolute_difference;
use asaborake::analyze::scene::SceneDetector;
use asaborake::analyze::scene::SceneOptions;
use asaborake::analyze::scene::DIFFERENCE_UNIT;
use asaborake::analyze::survey::scan_report;
use asaborake::analyze::Analysis;
use asaborake::analyze::AnalysisOptions;
use asaborake::analyze::AnalysisProgress;
use asaborake::analyze::SilentSpan;
use asaborake::analyze::Stage;
use asaborake::arith::share_of;
use asaborake::media::audio::RmsEnvelope;
use asaborake::media::frames::Frame;
use asaborake::media::frames::FrameSpacing;

fn micros(seconds: f64) -> i64 {
    (seconds * 1e6).round() as i64
}

/// A pixel value between nothing and one, in the library's units.
fn level(value: f32) -> i64 {
    (f64::from(value) * 255e6).round() as i64
}

fn fraction(millionths: i64) -> f64 {
    millionths as f64 / 1e6
}

fn thirty_fps() -> FrameSpacing {
    FrameSpacing { micros: 1_000_000, frames: 30 }
}

fn analysis(duration: f64, intervals: Vec<LogoInterval>) -> Analysis {
    Analysis {
        duration: micros(duration),
        spacing: thirty_fps(),
        logo: None,
        learned_logo: None,
        logo_intervals: intervals,
        logo_track: None,
        scene_changes: Vec::new(),
        silent_spans: Vec::new(),
    }
}

fn interval(start: f64, end: f64) -> LogoInterval {
    LogoInterval { start: micros(start), end: micros(end) }
}

#[test]
fn silent_span_geometry() {
    let span = SilentSpan { start: micros(10.0), end: micros(11.0) };
    assert_eq!(span.centre(), micros(10.5));
    assert_eq!(span.duration(), micros(1.0));
}

#[test]
fn logo_coverage_is_the_fraction_of_the_recording() {
    let analysis = analysis(100.0, vec![interval(0.0, 30.0), interval(60.0, 90.0)]);
    assert!((fraction(analysis.logo_coverage()) - 0.6).abs() < 1e-9);
    assert!(!analysis.has_logo(), "no summary means no usable logo");
}

#[test]
fn coverage_of_an_empty_analysis_is_zero() {
    assert_eq!(analysis(0.0, Vec::new()).logo_coverage(), 0);
}

#[test]
fn progress_fraction_is_bounded() {
    assert_eq!(fraction_of(micros(50.0), micros(100.0)), 500_000);
    assert_eq!(fraction_of(micros(200.0), micros(100.0)), 1_000_000);
    assert_eq!(fraction_of(micros(5.0), 0), 0);
}

#[test]
fn progress_is_reported_every_so_many_frames() {
    let luma = [0u8; 4];
    let mut frame = Frame { index: 64, timestamp: 25_000_000, width: 2, height: 2, luma: &luma };
    assert_eq!(
        report(&frame, Stage::LearningLogo, 100_000_000),
        Some(AnalysisProgress { stage: Stage::LearningLogo, fraction: 250_000 })
    );
    assert_eq!(report(&frame, Stage::Detecting, 100_000_000), None);
    frame.index = 65;
    assert_eq!(report(&frame, Stage::LearningLogo, 100_000_000), None);
}

// Detection.

const DETECT_W: u32 = 96;
const DETECT_H: u32 = 64;

fn detect_rect() -> Rect {
    Rect { x: 8, y: 8, width: 32, height: 24 }
}

/// A logo shaped like a hollow ring, so it has real edges to correlate.
fn ring_logo() -> LogoData {
    let r = detect_rect();
    let mut a = vec![1.0f32.to_bits(); r.area() as usize];
    let mut b = vec![0.0f32.to_bits(); r.area() as usize];
    let (alpha, colour) = (0.6f32, 0.95f32);
    for y in 0..r.height {
        for x in 0..r.width {
            let dx = f32::from(x as u16) - f32::from(r.width as u16) / 2.0;
            let dy = f32::from(y as u16) - f32::from(r.height as u16) / 2.0;
            let radius = dx.hypot(dy);
            if (6.0..9.0).contains(&radius) {
                let index = (y * r.width + x) as usize;
                a[index] = (1.0 / (1.0 - alpha)).to_bits();
                b[index] = (-alpha * colour / (1.0 - alpha)).to_bits();
            }
        }
    }
    LogoData {
        name: "ring".to_owned(),
        channel_id: None,
        source_width: DETECT_W,
        source_height: DETECT_H,
        rect: r,
        a,
        b,
        frames_used: 500,
    }
}

/// A frame of `background`, optionally with the logo composited in, plus some
/// texture so the frame is not perfectly flat.
fn frame_bytes(logo: &LogoData, background: u8, with_logo: bool, texture: bool) -> Vec<u8> {
    let mut luma = vec![background; (DETECT_W * DETECT_H) as usize];
    if texture {
        for (index, value) in luma.iter_mut().enumerate() {
            let wobble = i32::try_from(index % 4096).unwrap_or(0) * 7919 % 21 - 10;
            *value = (i32::from(*value) + wobble).clamp(0, 255) as u8;
        }
    }
    if with_logo {
        let r = logo.rect;
        for y in 0..r.height {
            for x in 0..r.width {
                let index = (y * r.width + x) as usize;
                let at = ((r.y + y) * DETECT_W + r.x + x) as usize;
                let composited = logo.apply(index, i64::from(luma[at]) * 1_000_000);
                luma[at] = (composited as f64 / 1e6).round().clamp(0.0, 255.0) as u8;
            }
        }
    }
    luma
}

fn detect_frame(luma: &[u8]) -> Frame<'_> {
    Frame { index: 0, timestamp: 0, width: DETECT_W, height: DETECT_H, luma }
}

#[test]
fn compiles_a_logo_into_correlation_points() {
    let detector = LogoDetector::new(ring_logo()).expect("a detectable logo");
    assert!(detector.point_count() > 20, "{}", detector.point_count());
    assert!(detector.point_count() as u64 <= MAX_MASK_POINTS);
}

#[test]
fn scores_a_frame_carrying_the_logo_above_one_without() {
    let logo = ring_logo();
    let detector = LogoDetector::new(logo.clone()).expect("a detectable logo");
    for background in [20u8, 80, 140, 200] {
        let with = frame_bytes(&logo, background, true, true);
        let without = frame_bytes(&logo, background, false, true);
        let present = fraction(detector.score(&detect_frame(&with)));
        let absent = fraction(detector.score(&detect_frame(&without)));
        assert!(
            present > absent,
            "background {background}: present {present} should exceed absent {absent}"
        );
        assert!(
            present > 0.2,
            "background {background}: logo should score clearly positive, got {present}"
        );
        assert!(
            absent < 0.2,
            "background {background}: absence should not score high, got {absent}"
        );
    }
}

#[test]
fn separation_holds_across_the_brightness_range() {
    let logo = ring_logo();
    let detector = LogoDetector::new(logo.clone()).expect("a detectable logo");
    let dark = fraction(detector.score(&detect_frame(&frame_bytes(&logo, 16, true, true))));
    let bright = fraction(detector.score(&detect_frame(&frame_bytes(&logo, 230, true, true))));
    assert!(dark > 0.2, "dark background scored {dark}");
    assert!(bright > 0.2, "bright background scored {bright}");
}

#[test]
fn a_rectangle_too_small_for_a_kernel_is_rejected() {
    let mut logo = ring_logo();
    logo.rect = Rect { x: 0, y: 0, width: 4, height: 4 };
    logo.a.truncate(16);
    logo.b.truncate(16);
    assert!(LogoDetector::new(logo).is_none());
}

#[test]
fn a_logo_with_no_shape_is_rejected() {
    let r = detect_rect();
    let flat = LogoData {
        name: "flat".to_owned(),
        channel_id: None,
        source_width: DETECT_W,
        source_height: DETECT_H,
        rect: r,
        a: vec![1.0f32.to_bits(); r.area() as usize],
        b: vec![0.0f32.to_bits(); r.area() as usize],
        frames_used: 500,
    };
    assert!(
        LogoDetector::new(flat).is_none(),
        "a fully transparent logo has nothing to correlate"
    );
}

#[test]
fn an_opaque_pixel_does_not_keep_a_logo_from_being_told() {
    let mut logo = ring_logo();
    let opaque = (0..logo.a.len()).find(|&i| logo.alpha_at(i) > 0).expect("the ring");
    logo.a[opaque] = 250_000.0f32.to_bits();
    logo.b[opaque] = (-0.95f32 * 249_999.0).to_bits();
    assert_eq!(logo.alpha_at(opaque), 999_996);
    let with = frame_bytes(&logo, 90, true, true);
    let without = frame_bytes(&logo, 90, false, true);
    let detector = LogoDetector::new(logo).expect("a detectable logo");
    let present = detector.score(&detect_frame(&with));
    let absent = detector.score(&detect_frame(&without));
    assert!(present > 450_000, "{present}");
    assert!(absent < 0, "{absent}");
}

#[test]
fn zero_mean_patch_sums_to_zero() {
    let image: Vec<i64> = (0..100).map(|i| level(i as f32 / 100.0)).collect();
    let patch = zero_mean_patch(&image, 10, 5, 5);
    assert_eq!(patch.len(), 25);
    let total: i64 = patch.iter().sum();
    assert_eq!(total, 0, "patch mean was {total}");
}

#[test]
fn correlation_ignores_a_uniform_offset() {
    let image: Vec<i64> = (0..100).map(|i| level(((i % 7) as f32) / 7.0)).collect();
    let kernel = zero_mean_patch(&image, 10, 5, 5);
    let (base, _) = correlate(&kernel, &image, 10, 5, 5);
    let brighter: Vec<i64> = image.iter().map(|v| v + level(0.3)).collect();
    let (shifted, sum) = correlate(&kernel, &brighter, 10, 5, 5);
    assert_eq!(base, shifted);
    let mean = sum as f64 / 25.0 / 255e6;
    assert!(mean > 0.3, "the mean should track the offset, got {mean}");
}

// Location.

const LOCATE_W: u32 = 128;
const LOCATE_H: u32 = 96;

fn locate_frame(luma: &[u8]) -> Frame<'_> {
    Frame { index: 0, timestamp: 0, width: LOCATE_W, height: LOCATE_H, luma }
}

/// A frame of moving content, with an optional static bright box standing in
/// for a logo.
fn content(step: u32, logo: Option<Rect>) -> Vec<u8> {
    let mut luma = vec![0u8; (LOCATE_W * LOCATE_H) as usize];
    for y in 0..LOCATE_H {
        for x in 0..LOCATE_W {
            let phase = (x + step * 3) % 16;
            luma[(y * LOCATE_W + x) as usize] = if phase < 8 { 40 } else { 200 };
        }
    }
    if let Some(rect) = logo {
        for y in rect.y..rect.y + rect.height {
            for x in rect.x..rect.x + rect.width {
                luma[(y * LOCATE_W + x) as usize] = 255;
            }
        }
    }
    luma
}

#[test]
fn finds_a_static_box_amid_moving_content() {
    let logo = Rect { x: 10, y: 6, width: 20, height: 12 };
    let mut locator = LogoLocator::new(LOCATE_W, LOCATE_H);
    for step in 0..200 {
        let luma = content(step, Some(logo));
        locator.add_frame(&locate_frame(&luma));
    }
    let found = locator.finish().expect("a logo region");
    assert!(found.x <= logo.x, "found {found:?}");
    assert!(found.y <= logo.y, "found {found:?}");
    assert!(found.x + found.width >= logo.x + logo.width, "found {found:?}");
    assert!(found.y + found.height >= logo.y + logo.height, "found {found:?}");
    assert!(found.fits_within(LOCATE_W, LOCATE_H));
}

#[test]
fn a_logo_made_of_separate_glyphs_is_found_whole() {
    let glyphs = [
        Rect { x: 6, y: 6, width: 6, height: 10 },
        Rect { x: 15, y: 6, width: 6, height: 10 },
        Rect { x: 24, y: 6, width: 6, height: 10 },
    ];
    let mut locator = LogoLocator::new(LOCATE_W, LOCATE_H);
    for step in 0..200 {
        let mut luma = content(step, None);
        for rect in &glyphs {
            for y in rect.y..rect.y + rect.height {
                for x in rect.x..rect.x + rect.width {
                    luma[(y * LOCATE_W + x) as usize] = 255;
                }
            }
        }
        locator.add_frame(&locate_frame(&luma));
    }
    let found = locator.finish().expect("a logo region");
    assert!(found.x <= 6, "should reach the first glyph: {found:?}");
    assert!(found.x + found.width >= 30, "should reach the last glyph: {found:?}");
    assert!(found.fits_within(LOCATE_W, LOCATE_H));
}

#[test]
fn finds_nothing_in_content_with_no_static_element() {
    let mut locator = LogoLocator::new(LOCATE_W, LOCATE_H);
    for step in 0..200 {
        let luma = content(step, None);
        locator.add_frame(&locate_frame(&luma));
    }
    if let Some(found) = locator.finish() {
        assert!(
            found.width < LOCATE_W / 2 && found.height < LOCATE_H / 2,
            "reported scenery as a logo: {found:?}"
        );
    }
}

#[test]
fn refuses_to_guess_from_too_few_frames() {
    let logo = Rect { x: 10, y: 6, width: 20, height: 12 };
    let mut locator = LogoLocator::new(LOCATE_W, LOCATE_H);
    for step in 0..10 {
        let luma = content(step, Some(logo));
        locator.add_frame(&locate_frame(&luma));
    }
    assert!(locator.finish().is_none());
}

#[test]
fn ignores_the_middle_of_the_frame() {
    let middle = Rect { x: 50, y: LOCATE_H / 2 - 6, width: 20, height: 12 };
    let mut locator = LogoLocator::new(LOCATE_W, LOCATE_H);
    for step in 0..200 {
        let luma = content(step, Some(middle));
        locator.add_frame(&locate_frame(&luma));
    }
    if let Some(found) = locator.finish() {
        assert!(
            found.y + found.height < LOCATE_H / 2 || found.y > LOCATE_H / 2,
            "picked up the centre of the frame: {found:?}"
        );
    }
}

#[test]
fn edge_strength_is_zero_on_a_flat_area_and_high_at_a_step() {
    let mut luma = vec![100u8; (LOCATE_W * LOCATE_H) as usize];
    assert_eq!(edge_strength(&locate_frame(&luma), 40, 40), 0);
    for y in 0..LOCATE_H {
        for x in 64..LOCATE_W {
            luma[(y * LOCATE_W + x) as usize] = 200;
        }
    }
    assert!(edge_strength(&locate_frame(&luma), 64, 40) > 50);
}

#[test]
fn frames_of_the_wrong_size_are_ignored() {
    let mut locator = LogoLocator::new(LOCATE_W, LOCATE_H);
    let small = vec![0u8; 16];
    locator.add_frame(&Frame { index: 0, timestamp: 0, width: 4, height: 4, luma: &small });
    assert_eq!(locator.frames(), 0);
}

// The logo itself.

/// A uniform logo of the given opacity and colour.
fn uniform_logo(alpha: f32, colour: f32, width: u32, height: u32) -> LogoData {
    let count = (width * height) as usize;
    let a = 1.0 / (1.0 - alpha);
    let b = -alpha * colour / (1.0 - alpha);
    LogoData {
        name: "test".to_owned(),
        channel_id: None,
        source_width: width * 4,
        source_height: height * 4,
        rect: Rect { x: 0, y: 0, width, height },
        a: vec![f32::to_bits(a); count],
        b: vec![f32::to_bits(b); count],
        frames_used: 200,
    }
}

fn close(value: i64, expected: f64, epsilon: f64) -> bool {
    (fraction(value) - expected).abs() <= epsilon
}

#[test]
fn recovers_the_opacity_and_colour_it_was_built_from() {
    let logo = uniform_logo(0.4, 0.9, 8, 8);
    assert!(close(logo.alpha_at(0), 0.4, 1e-5), "{}", logo.alpha_at(0));
    assert!(close(logo.colour_at(0), 0.9, 1e-5), "{}", logo.colour_at(0));
    assert!(close(logo.mean_alpha(), 0.4, 1e-5), "{}", logo.mean_alpha());
}

#[test]
fn removing_a_composited_logo_returns_the_background() {
    let (alpha, colour) = (0.35f32, 0.8f32);
    let logo = uniform_logo(alpha, colour, 4, 4);
    for background in [0.0f32, 0.25, 0.5, 0.75, 1.0] {
        let observed = (1.0 - alpha) * background + alpha * colour;
        let removed = logo.remove(0, level(observed)) as f64 / 255e6;
        assert!((removed - f64::from(background)).abs() < 1e-5, "{removed} for {background}");
        let applied = logo.apply(0, level(background)) as f64 / 255e6;
        assert!((applied - f64::from(observed)).abs() < 1e-5, "{applied} for {observed}");
    }
}

#[test]
fn a_fully_transparent_fit_reports_no_logo() {
    let mut logo = uniform_logo(0.0, 0.0, 4, 4);
    assert_eq!(logo.alpha_at(0), 0);
    assert!(!logo.is_plausible(), "zero opacity is not a logo");
    logo.a = vec![0.5f32.to_bits(); logo.rect.area() as usize];
    assert_eq!(logo.alpha_at(0), 0);
}

#[test]
fn a_fit_from_too_few_frames_is_not_trusted() {
    let mut logo = uniform_logo(0.5, 1.0, 8, 8);
    assert!(logo.is_plausible());
    logo.frames_used = 10;
    assert!(!logo.is_plausible(), "10 frames is not enough to trust");
}

#[test]
fn round_trips_through_the_abl_form() {
    let logo = uniform_logo(0.45, 0.7, 6, 5);
    let bytes = logo.to_bytes().expect("encodes");
    assert!(bytes.starts_with(b"ABL1"));
    assert_eq!(LogoData::from_bytes(&bytes).expect("decodes"), logo);
}

#[test]
fn rejects_a_file_that_is_not_a_logo() {
    assert!(matches!(LogoData::from_bytes(b"not a logo at all"), Err(LogoError::LogoFormat)));
}

#[test]
fn a_file_that_ends_inside_the_logo_is_rejected() {
    let logo = uniform_logo(0.45, 0.7, 6, 5);
    let mut bytes = logo.to_bytes().expect("encodes");
    bytes.truncate(10);
    assert!(matches!(LogoData::from_bytes(&bytes), Err(LogoError::LogoDecode)));
}

#[test]
fn rejects_a_logo_whose_arrays_do_not_match_its_rectangle() {
    let mut logo = uniform_logo(0.4, 0.9, 4, 4);
    logo.a.truncate(3);
    let bytes = logo.to_bytes().expect("encodes");
    assert!(matches!(LogoData::from_bytes(&bytes), Err(LogoError::LogoGeometry)));
}

#[test]
fn nonphysical_slopes_are_rewritten_as_no_logo() {
    let mut logo = uniform_logo(0.4, 0.9, 4, 4);
    logo.a[0] = (-3.0f32).to_bits();
    logo.b[0] = 0.2f32.to_bits();
    logo.a[1] = 0.5f32.to_bits();
    logo.a[2] = f32::NAN.to_bits();
    logo.canonicalise();
    for index in 0..3 {
        assert_eq!(f32::from_bits(logo.a[index]), 1.0);
        assert_eq!(f32::from_bits(logo.b[index]), 0.0);
        assert_eq!(logo.remove(index, level(0.42)), i128::from(level(0.42)));
        assert_eq!(logo.alpha_at(index), 0);
    }
    assert!(close(logo.alpha_at(3), 0.4, 1e-5));
}

#[test]
fn a_logo_is_only_valid_at_the_resolution_it_was_learned_at() {
    let logo = uniform_logo(0.4, 0.9, 8, 8);
    assert!(logo.matches_frame_size(32, 32));
    assert!(!logo.matches_frame_size(1440, 1080));
}

#[test]
fn a_rectangle_that_would_overflow_does_not_report_as_fitting() {
    let rect = Rect { x: u32::MAX - 1, y: 0, width: 100, height: 10 };
    assert!(!rect.fits_within(u32::MAX, u32::MAX));
    assert!(!rect.is_valid());
    let empty = Rect { x: 0, y: 0, width: 0, height: 10 };
    assert!(!empty.is_valid());
}

#[test]
fn a_logo_whose_rectangle_escapes_its_source_frame_is_rejected() {
    let mut logo = uniform_logo(0.4, 0.9, 4, 4);
    logo.source_width = 2;
    logo.source_height = 2;
    let bytes = logo.to_bytes().expect("encodes");
    assert!(matches!(LogoData::from_bytes(&bytes), Err(LogoError::LogoGeometry)));
}

#[test]
fn loading_scrubs_non_finite_coefficients() {
    let mut logo = uniform_logo(0.4, 0.9, 4, 4);
    logo.a[5] = f32::INFINITY.to_bits();
    logo.b[5] = f32::NAN.to_bits();
    let bytes = logo.to_bytes().expect("encodes");
    let loaded = LogoData::from_bytes(&bytes).expect("decodes");
    assert!(loaded.a.iter().all(|v| f32::from_bits(*v).is_finite()));
    assert!(loaded.b.iter().all(|v| f32::from_bits(*v).is_finite()));
    assert_eq!(loaded.alpha_at(5), 0);
}

#[test]
fn preview_has_one_rgba_quad_per_pixel() {
    let logo = uniform_logo(0.5, 1.0, 3, 2);
    let rgba = logo.to_rgba();
    assert_eq!(rgba.len(), 3 * 2 * 4);
    assert_eq!(rgba[3], 128, "alpha 0.5 renders as mid opacity");
    assert_eq!(rgba[0], 255, "colour 1.0 renders as white");
}

#[test]
fn rectangles_expand_without_leaving_the_frame() {
    let rect = Rect { x: 5, y: 5, width: 10, height: 10 };
    let grown = rect.expanded(3, 100, 100);
    assert_eq!(grown, Rect { x: 2, y: 2, width: 16, height: 16 });
    let corner = Rect { x: 1, y: 1, width: 4, height: 4 };
    let clamped = corner.expanded(10, 8, 8);
    assert_eq!(clamped.x, 0);
    assert_eq!(clamped.y, 0);
    assert!(clamped.fits_within(8, 8), "{clamped:?}");
}

#[test]
fn coefficients_are_read_to_the_nearest_millionth() {
    for value in [0.0f32, 1.0, 2.5, -1.5, 0.333_333, -250.75] {
        let read = millionths(value.to_bits());
        assert!((read as f64 / 1e6 - f64::from(value)).abs() <= 5.0e-7, "{value} read as {read}");
    }
    assert!(!is_finite(f32::NAN.to_bits()));
    assert!(!is_finite(f32::NEG_INFINITY.to_bits()));
    assert!(is_finite(f32::MAX.to_bits()));
}

#[test]
fn coefficients_are_written_as_the_nearest_single() {
    for value in [
        0.0f64,
        1.0,
        2.5,
        -1.5,
        1.0 / 3.0,
        0.999_999_9,
        0.000_012_345,
        // Halfway between two: the even one.
        1.000_000_059_604_644_8,
        1.000_000_178_813_934_3,
        16_777_217.0,
        16_777_219.0,
        // Halfway to a larger exponent.
        1.999_999_970_197_677_6,
        33_554_431.0,
        16_384.0,
        53_985.762_711_864_41,
        -250_000.25,
        123_456_789_012.345_67,
        -98_765_432_109_876_543_210_987.0,
    ] {
        let fine = (value * FINE as f64) as i128;
        let read_back = fine as f64 / FINE as f64;
        assert_eq!(f32::from_bits(from_fine(fine)), read_back as f32, "{value}");
    }
}

#[test]
fn coefficients_are_read_well_beyond_what_a_fit_gives() {
    assert_eq!(millionths(20_000.5f32.to_bits()), 20_000_500_000);
    assert_eq!(millionths((-16_777_216.0f32).to_bits()), -16_777_216_000_000);
    assert_eq!(millionths(100_000_000.0f32.to_bits()), 100_000_000_000_000);
    assert_eq!(millionths(536_870_880.0f32.to_bits()), 536_870_880_000_000);
    assert_eq!(millionths(f32::MAX.to_bits()), 536_870_912_000_000);
}

#[test]
fn shares_of_very_large_wholes_are_exact() {
    let large: u128 = 10_000_000_000_000_000_000_000_000_000_000_000_000;
    assert_eq!(share_of(0, 7), 0);
    assert_eq!(share_of(1, 3), 333_333);
    assert_eq!(share_of(2, 3), 666_667);
    assert_eq!(share_of(large, 3 * large), 333_333);
    assert_eq!(share_of(2 * large, 3 * large), 666_667);
    assert_eq!(share_of(large - 1, large), 1_000_000);
}

// Learning.

const SCAN_W: u32 = 64;
const SCAN_H: u32 = 48;

fn scan_rect() -> Rect {
    Rect { x: 8, y: 8, width: 16, height: 12 }
}

/// A known logo composited over a flat background, its border left clean.
fn synthetic_frame(background: u8, alpha: f32, colour: f32, noise: i32) -> Vec<u8> {
    let mut luma = vec![background; (SCAN_W * SCAN_H) as usize];
    let r = scan_rect();
    for row in 1..r.height - 1 {
        for column in 1..r.width - 1 {
            let index = ((r.y + row) * SCAN_W + r.x + column) as usize;
            let composited = (1.0 - alpha) * f32::from(background) / 255.0 + alpha * colour;
            luma[index] = (composited * 255.0).round().clamp(0.0, 255.0) as u8;
        }
    }
    if noise != 0 {
        for (index, value) in luma.iter_mut().enumerate() {
            let wobble = i32::try_from(index % 4096).unwrap_or(0) * 7919 % (2 * noise + 1) - noise;
            *value = (i32::from(*value) + wobble).clamp(0, 255) as u8;
        }
    }
    luma
}

fn scan_frame(luma: &[u8]) -> Frame<'_> {
    Frame { index: 0, timestamp: 0, width: SCAN_W, height: SCAN_H, luma }
}

/// Feed a spread of backgrounds, as a real programme's fades would.
fn scan_with(alpha: f32, colour: f32, noise: i32, backgrounds: &[u8]) -> LogoScanner {
    let mut scanner = LogoScanner::new(scan_rect(), DEFAULT_FLATNESS_THRESHOLD);
    for round in 0..60 {
        for &background in backgrounds {
            let shifted = background.saturating_add((round % 3) as u8);
            let luma = synthetic_frame(shifted, alpha, colour, noise);
            scanner.add_frame(&scan_frame(&luma));
        }
    }
    scanner
}

fn centre_of(r: Rect) -> usize {
    ((r.height / 2) * r.width + r.width / 2) as usize
}

#[test]
fn a_nearly_opaque_pixel_keeps_the_slope_it_was_fitted() {
    // Every background differs; under the logo only one frame shows through,
    // by a single level, and that one is barely brighter than the mean.
    let r = scan_rect();
    let mut scanner = LogoScanner::new(r, DEFAULT_FLATNESS_THRESHOLD);
    for k in 0..60u8 {
        let mut luma = vec![20 + 3 * k; (SCAN_W * SCAN_H) as usize];
        let at = ((r.y + 5) * SCAN_W + r.x + 7) as usize;
        luma[at] = if k == 30 { 201 } else { 200 };
        assert!(scanner.add_frame(&scan_frame(&luma)));
    }
    let logo = scanner
        .finish_bootstrap("opaque".to_owned(), None, (SCAN_W, SCAN_H))
        .expect("enough frames");
    let index = (5 * r.width + 7) as usize;
    let slope = (90.0 / 59.0 + 107_970.0) / 2.0;
    let intercept = (108.5 - slope * (200.0 + 1.0 / 60.0)) / 255.0;
    assert_eq!(f32::from_bits(logo.a[index]), slope as f32);
    assert_eq!(f32::from_bits(logo.b[index]), intercept as f32);
    assert_eq!(logo.alpha_at(index), 999_981);
    assert!(close(logo.colour_at(index), 0.784, 1e-3), "{}", logo.colour_at(index));
    assert_eq!(f32::from_bits(logo.a[0]), 1.0, "the background beside it is no logo");
}

#[test]
fn recovers_a_known_logo_from_clean_frames() {
    let (alpha, colour) = (0.5f32, 0.9f32);
    let scanner = scan_with(alpha, colour, 0, &[10, 60, 120, 200]);
    assert!(scanner.frames_accepted() >= MINIMUM_FRAMES);
    let logo = scanner
        .finish("test".to_owned(), None, (SCAN_W, SCAN_H))
        .expect("a plausible logo");
    let index = centre_of(scan_rect());
    assert!(close(logo.alpha_at(index), f64::from(alpha), 0.03));
    assert!(close(logo.colour_at(index), f64::from(colour), 0.05));
}

#[test]
fn recovers_a_logo_despite_compression_style_noise() {
    let (alpha, colour) = (0.45f32, 0.85f32);
    let scanner = scan_with(alpha, colour, 3, &[10, 60, 120, 200]);
    let logo = scanner
        .finish("noisy".to_owned(), None, (SCAN_W, SCAN_H))
        .expect("a plausible logo");
    assert!(close(logo.alpha_at(centre_of(scan_rect())), f64::from(alpha), 0.08));
}

#[test]
fn leaves_pixels_outside_the_logo_transparent() {
    let scanner = scan_with(0.5, 0.9, 0, &[10, 60, 120, 200]);
    let logo = scanner
        .finish("test".to_owned(), None, (SCAN_W, SCAN_H))
        .expect("a plausible logo");
    assert!(close(logo.alpha_at(0), 0.0, 0.02));
}

#[test]
fn a_few_stray_pixels_do_not_disqualify_a_flat_border() {
    let mut scanner = LogoScanner::new(scan_rect(), DEFAULT_FLATNESS_THRESHOLD);
    let mut luma = synthetic_frame(80, 0.5, 0.9, 0);
    let r = scan_rect();
    for offset in 0..3u32 {
        let index = ((r.y * SCAN_W) + r.x + offset) as usize;
        luma[index] = 255;
    }
    assert!(
        scanner.add_frame(&scan_frame(&luma)),
        "a handful of outliers must not reject an otherwise flat border"
    );
}

#[test]
fn a_genuinely_varied_border_is_still_rejected() {
    let mut scanner = LogoScanner::new(scan_rect(), DEFAULT_FLATNESS_THRESHOLD);
    let mut luma = synthetic_frame(80, 0.5, 0.9, 0);
    let r = scan_rect();
    for offset in 0..r.width {
        let index = ((r.y * SCAN_W) + r.x + offset) as usize;
        luma[index] = (offset * 8).min(255) as u8;
    }
    assert!(!scanner.add_frame(&scan_frame(&luma)));
}

#[test]
fn rejects_frames_whose_background_is_not_flat() {
    let mut scanner = LogoScanner::new(scan_rect(), DEFAULT_FLATNESS_THRESHOLD);
    let mut luma = vec![0u8; (SCAN_W * SCAN_H) as usize];
    for (index, value) in luma.iter_mut().enumerate() {
        *value = ((index as u32 % SCAN_W) * 4).min(255) as u8;
    }
    assert!(!scanner.add_frame(&scan_frame(&luma)));
    assert_eq!(scanner.frames_accepted(), 0);
}

#[test]
fn refuses_to_fit_when_every_background_was_the_same() {
    let scanner = scan_with(0.5, 0.9, 0, &[10]);
    assert!(scanner.frames_accepted() >= MINIMUM_FRAMES);
    assert!(
        scanner.finish("flat".to_owned(), None, (SCAN_W, SCAN_H)).is_none(),
        "a single background level must not yield a logo"
    );
}

#[test]
fn refuses_to_fit_from_too_few_frames() {
    let mut scanner = LogoScanner::new(scan_rect(), DEFAULT_FLATNESS_THRESHOLD);
    for background in [10u8, 60, 120] {
        let luma = synthetic_frame(background, 0.5, 0.9, 0);
        scanner.add_frame(&scan_frame(&luma));
    }
    assert!(scanner.finish("few".to_owned(), None, (SCAN_W, SCAN_H)).is_none());
}

#[test]
fn reports_no_logo_when_the_flat_frames_carried_none() {
    let scanner = scan_with(0.0, 0.0, 0, &[10, 60, 120, 200]);
    assert!(
        scanner.finish("empty".to_owned(), None, (SCAN_W, SCAN_H)).is_none(),
        "flat frames without a logo must not produce one"
    );
}

#[test]
fn refitting_from_logo_present_frames_only_recovers_the_true_opacity() {
    let (alpha, colour) = (0.5f32, 0.9f32);
    let backgrounds = [10u8, 60, 120, 200];
    let mut frames: Vec<Vec<u8>> = Vec::new();
    for round in 0..60u32 {
        for &background in &backgrounds {
            let shifted = background.saturating_add((round % 3) as u8);
            let present = round % 5 < 3;
            let logo_alpha = if present { alpha } else { 0.0 };
            frames.push(synthetic_frame(shifted, logo_alpha, colour, 0));
        }
    }
    let r = scan_rect();
    let centre = centre_of(r);
    let mut bootstrap = LogoScanner::new(r, DEFAULT_FLATNESS_THRESHOLD);
    for luma in &frames {
        bootstrap.add_frame(&scan_frame(luma));
    }
    let bootstrap = bootstrap
        .finish_bootstrap("bootstrap".to_owned(), None, (SCAN_W, SCAN_H))
        .expect("a bootstrap fit");
    let contaminated = fraction(bootstrap.alpha_at(centre));
    assert!(
        contaminated < f64::from(alpha) - 0.08,
        "the mixed fit should understate opacity, got {contaminated} against {alpha}"
    );
    let gate = LogoDetector::new(bootstrap).expect("a usable bootstrap detector");
    let mut refined = LogoScanner::new(r, DEFAULT_FLATNESS_THRESHOLD);
    for luma in &frames {
        let candidate = scan_frame(luma);
        if gate.score(&candidate) >= 250_000 {
            refined.add_frame(&candidate);
        }
    }
    let refined = refined
        .finish("refined".to_owned(), None, (SCAN_W, SCAN_H))
        .expect("a refined fit");
    let recovered = fraction(refined.alpha_at(centre));
    assert!(
        (recovered - f64::from(alpha)).abs() < 0.08,
        "refined opacity {recovered} should be close to {alpha} (bootstrap gave {contaminated})"
    );
    assert!(recovered > contaminated, "refinement must improve on the bootstrap");
}

#[test]
fn interquartile_mean_ignores_the_extremes() {
    let values = [0u8, 100, 100, 100, 100, 100, 100, 255];
    assert_eq!(interquartile_mean(&values), 100);
}

#[test]
fn line_fit_rejects_a_degenerate_set() {
    assert!(fit_line(10, 10 * 5, 30, 10 * 25, 150).is_none());
}

#[test]
fn line_fit_recovers_a_known_line() {
    // y = 2x + 1 through x = 0..4
    let points: Vec<(i128, i128)> = (0..5).map(|x| (x, 2 * x + 1)).collect();
    let n = points.len() as i128;
    let sum_x: i128 = points.iter().map(|p| p.0).sum();
    let sum_y: i128 = points.iter().map(|p| p.1).sum();
    let sum_squares: i128 = points.iter().map(|p| p.0 * p.0).sum();
    let sum_products: i128 = points.iter().map(|p| p.0 * p.1).sum();
    let line = fit_line(n, sum_x, sum_y, sum_squares, sum_products).expect("a line");
    assert_eq!(line.rise, 2 * line.run);
    assert_eq!(line.offset, line.run);
}

#[test]
fn a_rejected_box_says_why() {
    let scanner = scan_with(0.5, 0.9, 0, &[10]);
    let report = scan_report(&scanner, "box".to_owned(), None, (SCAN_W, SCAN_H));
    assert_eq!(report.frames_used, scanner.frames_accepted());
    assert!(report.logo.is_none());
    assert!(!report.explain().is_empty());
    let good = scan_with(0.5, 0.9, 0, &[10, 60, 120, 200]);
    let report = scan_report(&good, "box".to_owned(), None, (SCAN_W, SCAN_H));
    assert!(report.logo.is_some());
    assert!(report.strong_pixels >= 20);
}

// Presence over time.

/// A track at 30 fps from a description of on/off spans in seconds.
fn track_from(spans: &[(f64, f64, i64)], total: f64) -> LogoTrack {
    let seconds_per_frame = 1.0 / 30.0;
    let frames = (total / seconds_per_frame) as usize;
    let mut scores = vec![-600_000i64; frames];
    for &(start, end, value) in spans {
        let from = (start / seconds_per_frame) as usize;
        let to = ((end / seconds_per_frame) as usize).min(frames);
        for score in scores.get_mut(from..to).unwrap_or_default() {
            *score = value;
        }
    }
    LogoTrack { spacing: thirty_fps(), scores }
}

fn near(value: i64, seconds: f64, slack: f64) -> bool {
    (fraction(value) - seconds).abs() < slack
}

#[test]
fn finds_the_span_the_logo_was_present() {
    let track = track_from(&[(10.0, 40.0, 800_000)], 60.0);
    let intervals = track.intervals(&TrackOptions::default());
    assert_eq!(intervals.len(), 1);
    assert!(near(intervals[0].start, 10.0, 0.6), "{intervals:?}");
    assert!(near(intervals[0].end, 40.0, 0.6), "{intervals:?}");
}

#[test]
fn separates_two_programme_blocks_around_a_commercial() {
    let track = track_from(&[(0.0, 30.0, 800_000), (60.0, 120.0, 800_000)], 120.0);
    let intervals = track.intervals(&TrackOptions::default());
    assert_eq!(intervals.len(), 2, "{intervals:?}");
    assert!(near(intervals[0].end, 30.0, 0.6));
    assert!(near(intervals[1].start, 60.0, 0.6));
}

#[test]
fn a_brief_dropout_does_not_split_a_programme() {
    let track = track_from(&[(0.0, 20.0, 800_000), (20.5, 60.0, 800_000)], 60.0);
    let intervals = track.intervals(&TrackOptions::default());
    assert_eq!(intervals.len(), 1, "a caption must not split it: {intervals:?}");
}

#[test]
fn two_short_spans_around_a_brief_occlusion_survive_as_one() {
    let track = track_from(&[(10.0, 11.8, 800_000), (12.4, 14.2, 800_000)], 30.0);
    let options = TrackOptions { smoothing_radius: 0, ..TrackOptions::default() };
    let intervals = track.intervals(&options);
    assert_eq!(intervals.len(), 1, "{intervals:?}");
    assert!(near(intervals[0].start, 10.0, 0.1), "{intervals:?}");
    assert!(near(intervals[0].end, 14.2, 0.1), "{intervals:?}");
}

#[test]
fn a_short_span_with_no_neighbour_is_still_discarded() {
    let track = track_from(&[(10.0, 11.0, 800_000)], 30.0);
    let options = TrackOptions { smoothing_radius: 0, ..TrackOptions::default() };
    assert!(track.intervals(&options).is_empty());
}

#[test]
fn an_absurd_smoothing_radius_is_clamped_rather_than_overflowing() {
    let track = LogoTrack { spacing: thirty_fps(), scores: vec![500_000; 10] };
    let smoothed = track.smoothed(usize::MAX);
    assert_eq!(smoothed.len(), 10);
}

#[test]
fn discards_a_flash_too_short_to_be_a_programme() {
    let track = track_from(&[(10.0, 10.5, 900_000)], 60.0);
    assert!(track.intervals(&TrackOptions::default()).is_empty());
}

#[test]
fn hysteresis_stops_chatter_at_a_single_threshold() {
    let mut scores = vec![800_000i64; 300];
    for (index, score) in scores.iter_mut().enumerate().skip(300 / 2) {
        *score = if index % 2 == 0 { 300_000 } else { 400_000 };
    }
    let track = LogoTrack { spacing: thirty_fps(), scores };
    let intervals = track.intervals(&TrackOptions::default());
    assert_eq!(
        intervals.len(),
        1,
        "oscillating between thresholds must not chatter: {intervals:?}"
    );
}

#[test]
fn median_smoothing_removes_a_spike_without_moving_an_edge() {
    let mut scores = vec![0i64; 100];
    for score in scores.iter_mut().take(100).skip(50) {
        *score = 1_000_000;
    }
    scores[20] = 1_000_000;
    let track = LogoTrack { spacing: thirty_fps(), scores };
    let smoothed = track.smoothed(5);
    assert_eq!(smoothed[20], 0, "spike survived");
    assert_eq!(smoothed[49], 0);
    assert_eq!(smoothed[55], 1_000_000);
}

#[test]
fn a_logo_present_to_the_end_closes_at_the_end() {
    let track = track_from(&[(30.0, 60.0, 800_000)], 60.0);
    let intervals = track.intervals(&TrackOptions::default());
    assert_eq!(intervals.len(), 1);
    assert!((intervals[0].end - track.duration()).abs() < 100_000, "{intervals:?}");
}

#[test]
fn interval_membership_is_half_open() {
    let interval = interval(1.0, 2.0);
    assert!(interval.contains(micros(1.0)));
    assert!(interval.contains(micros(1.999)));
    assert!(!interval.contains(micros(2.0)));
    assert_eq!(interval.duration(), micros(1.0));
}

// Scene changes.

const SCENE_W: u32 = 128;
const SCENE_H: u32 = 72;

fn scene_frame(luma: &[u8]) -> Frame<'_> {
    Frame { index: 0, timestamp: 0, width: SCENE_W, height: SCENE_H, luma }
}

/// A frame of the given base brightness with a little moving texture.
fn shot(brightness: u8, jitter: u32) -> Vec<u8> {
    (0..(SCENE_W * SCENE_H))
        .map(|i| {
            let wobble = ((i + jitter) % 5) as u8;
            brightness.saturating_add(wobble)
        })
        .collect()
}

#[test]
fn finds_a_hard_cut_between_two_shots() {
    let mut detector = SceneDetector::new(thirty_fps());
    for jitter in 0..60 {
        let luma = shot(40, jitter);
        detector.add_frame(&scene_frame(&luma));
    }
    for jitter in 0..60 {
        let luma = shot(200, jitter);
        detector.add_frame(&scene_frame(&luma));
    }
    let changes = detector.changes(&SceneOptions::default());
    assert_eq!(changes.len(), 1, "{changes:?}");
    assert!(near(changes[0].at, 2.0, 0.05), "{changes:?}");
    assert!(changes[0].strength > 100 * DIFFERENCE_UNIT, "{changes:?}");
}

#[test]
fn reports_nothing_on_a_continuous_shot() {
    let mut detector = SceneDetector::new(thirty_fps());
    for jitter in 0..150 {
        let luma = shot(120, jitter);
        detector.add_frame(&scene_frame(&luma));
    }
    assert!(
        detector.changes(&SceneOptions::default()).is_empty(),
        "gentle motion is not a cut"
    );
}

#[test]
fn a_cut_reports_one_frame_not_a_cluster() {
    let mut detector = SceneDetector::new(thirty_fps());
    for jitter in 0..40 {
        detector.add_frame(&scene_frame(&shot(30, jitter)));
    }
    for jitter in 0..40 {
        detector.add_frame(&scene_frame(&shot(220, jitter)));
    }
    for jitter in 0..40 {
        detector.add_frame(&scene_frame(&shot(30, jitter)));
    }
    let changes = detector.changes(&SceneOptions::default());
    assert_eq!(changes.len(), 2, "expected two cuts, got {changes:?}");
}

#[test]
fn mean_absolute_difference_is_zero_for_identical_frames() {
    let a = vec![10u8, 20, 30];
    assert_eq!(mean_absolute_difference(&a, &a), 0);
    assert_eq!(mean_absolute_difference(&a, &[20, 30, 40]), 10 * DIFFERENCE_UNIT);
    assert_eq!(mean_absolute_difference(&a, &[1, 2]), 0);
}

#[test]
fn local_median_excludes_the_point_being_tested() {
    let values = vec![1u32, 1, 1, 100, 1, 1, 1];
    assert_eq!(local_median(&values, 3, 3), 1);
}

#[test]
fn only_the_peak_frame_of_a_transition_counts() {
    let values = vec![0u32, 5, 20, 5, 0];
    assert!(is_local_peak(&values, 2));
    assert!(!is_local_peak(&values, 1));
    assert!(!is_local_peak(&values, 3));
}

// The passes.

#[test]
fn a_supplied_logo_is_used_and_a_channel_without_one_is_not_searched() {
    let mut options = AnalysisOptions::default();
    assert!(matches!(logo_source(&options), LogoSource::Learned));
    options.find_logo = false;
    assert!(matches!(logo_source(&options), LogoSource::Nowhere));
    options.logo = Some(uniform_logo(0.4, 0.9, 8, 8));
    assert!(matches!(logo_source(&options), LogoSource::Stored));
}

#[test]
fn learning_locates_first_unless_the_place_is_known() {
    let rect = scan_rect();
    assert!(matches!(begin_learning(Some((64, 48)), None), LearnAction::Locate));
    let wide = Rect { width: 65, ..rect };
    assert!(matches!(begin_learning(Some((64, 48)), Some(wide)), LearnAction::Locate));
    let supplied = begin_learning(Some((64, 48)), Some(rect));
    assert_eq!(supplied, LearnAction::Scan { rect, supplied: true });
    assert!(matches!(begin_learning(None, None), LearnAction::Done(None)));
    assert_eq!(after_locating(Some(rect)), LearnAction::Scan { rect, supplied: false });
    assert!(matches!(after_locating(None), LearnAction::Done(None)));
}

#[test]
fn a_bootstrap_fit_is_refined_and_falls_back_to_itself() {
    let scanner = scan_with(0.5, 0.9, 0, &[10, 60, 120, 200]);
    let fit = scanner.finish_bootstrap("fit".to_owned(), None, (SCAN_W, SCAN_H));
    assert!(fit.is_some());
    match after_bootstrap(fit) {
        RefineAction::Refine { bootstrap, .. } => {
            let kept = after_refining(bootstrap.clone(), None);
            assert_eq!(kept, Some(bootstrap));
        },
        RefineAction::Done(_) => panic!("a plausible fit must be refined"),
    }
    assert!(matches!(after_bootstrap(None), RefineAction::Done(None)));
}

#[test]
fn a_scan_pass_takes_only_flat_frames() {
    let mut pass = ScanPass::new(scan_rect(), true, None);
    let flat = synthetic_frame(80, 0.5, 0.9, 0);
    pass.offer(&scan_frame(&flat));
    let varied: Vec<u8> = (0..SCAN_W * SCAN_H).map(|i| ((i % SCAN_W) * 4).min(255) as u8).collect();
    pass.offer(&scan_frame(&varied));
    assert_eq!(pass.frames_accepted(), 1);
    assert!(pass.finish("few".to_owned(), None, (SCAN_W, SCAN_H)).is_none());
}

#[test]
fn one_pass_scores_the_logo_and_finds_the_cuts() {
    let logo = ring_logo();
    let mut pass = DetectPass::new(Some(logo.clone()), true, thirty_fps());
    for index in 0..240u64 {
        let with = index < 120;
        let luma = frame_bytes(&logo, if with { 40 } else { 200 }, with, true);
        pass.offer(&Frame {
            index,
            timestamp: index as i64 * 1_000_000 / 30,
            width: DETECT_W,
            height: DETECT_H,
            luma: &luma,
        });
    }
    assert_eq!(pass.frames(), 240);
    let detected = pass.finish(&AnalysisOptions::default());
    assert_eq!(detected.intervals.len(), 1);
    assert!(near(detected.intervals[0].end, 4.0, 0.6), "{:?}", detected.intervals);
    assert_eq!(detected.scene_changes.len(), 1);
    let summary = detected.summary.expect("a logo summary");
    assert!(summary.from_store);
    assert_eq!(summary.rect, logo.rect);
    let whole = assemble(None, thirty_fps(), Some(logo), true, detected, Vec::new());
    assert_eq!(whole.duration, 8_000_000);
    assert!(whole.has_logo());
    assert!(whole.learned_logo.is_none(), "a stored logo was not learned");
}

#[test]
fn quiet_stretches_become_silent_spans() {
    let mut levels = vec![1_000_000_000_000u64; 100];
    for quiet in levels.iter_mut().skip(40).take(20) {
        *quiet = 1;
    }
    let envelope = RmsEnvelope { window_seconds: 20_000, windows: levels };
    let spans = silences(&envelope, &AnalysisOptions::default());
    assert_eq!(spans, vec![SilentSpan { start: 800_000, end: 1_200_000 }]);
}

#[test]
fn a_fit_of_nothing_is_not_handed_back() {
    let mut nothing = ring_logo();
    nothing.a = vec![1.0f32.to_bits(); nothing.a.len()];
    nothing.b = vec![0.0f32.to_bits(); nothing.b.len()];
    assert!(LogoDetector::new(nothing.clone()).is_none());
    assert!(matches!(after_bootstrap(Some(nothing)), RefineAction::Done(None)));
}

/// A logo on a square just this wide, brighter in its middle.
fn small_logo(side: u32) -> LogoData {
    let mut logo = ring_logo();
    logo.rect = Rect { x: 8, y: 8, width: side, height: side };
    let area = (side * side) as usize;
    logo.a = vec![1.0f32.to_bits(); area];
    logo.b = vec![0.0f32.to_bits(); area];
    logo.a[area / 2] = 2.5f32.to_bits();
    logo.b[area / 2] = (-1.425f32).to_bits();
    logo
}

#[test]
fn a_rectangle_that_just_holds_a_kernel_is_enough() {
    let detector = LogoDetector::new(small_logo(5)).expect("room for one kernel");
    assert_eq!(detector.point_count(), 1);
    assert!(LogoDetector::new(small_logo(4)).is_none());
}

#[test]
fn intervals_exactly_the_gap_apart_are_not_joined() {
    let track = track_from(&[(0.0, 10.0, 800_000), (11.0, 21.0, 800_000)], 30.0);
    let options = TrackOptions { smoothing_radius: 0, ..TrackOptions::default() };
    assert_eq!(options.merge_gap_seconds, micros(1.0));
    let apart = track.intervals(&options);
    assert_eq!(
        apart,
        [
            LogoInterval { start: 0, end: micros(10.0) },
            LogoInterval { start: micros(11.0), end: micros(21.0) },
        ]
    );
    let wider = TrackOptions { merge_gap_seconds: micros(1.0) + 1, ..options };
    assert_eq!(track.intervals(&wider), [LogoInterval { start: 0, end: micros(21.0) }]);
}

#[test]
fn the_union_of_two_boxes_is_the_smallest_that_holds_both() {
    let a = Rect { x: 10, y: 40, width: 5, height: 5 };
    let b = Rect { x: 12, y: 20, width: 30, height: 10 };
    let both = Rect { x: 10, y: 20, width: 32, height: 25 };
    assert_eq!(union(a, b), both);
    assert_eq!(union(b, a), both);
    assert_eq!(union(a, a), a);
    assert_eq!(union(both, a), both);
}
