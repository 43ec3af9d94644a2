//! What the command line prints.

use vstd::prelude::*;
use vstd::string::*;
use crate::analyze::logo::model::LogoData;
use crate::analyze::share_in_range;
use crate::analyze::survey::mean_opacity;
use crate::analyze::total_presence;
use crate::analyze::Analysis;
use crate::arith::nearest_even;
use crate::arith::round_even;
use crate::cmcut::plan::length_of_kind;
use crate::cmcut::plan::CutPlan;
use crate::cmcut::plan::Decision;
use crate::cmcut::score::SegmentKind;
use crate::cmcut::solve::Segment;
use crate::engine::diagnostics::hex_digits;
use crate::engine::diagnostics::push_hex;
use crate::engine::diagnostics::ratio_text;
use crate::engine::diagnostics::size_changes;
use crate::engine::diagnostics::splits;
use crate::engine::diagnostics::thousandths_of;
use crate::engine::profile::Profile;
use crate::text::decimal_digits;
use crate::text::left_aligned;
use crate::text::own;
use crate::text::push_copy;
use crate::text::push_decimal;
use crate::text::push_left;
use crate::text::push_padded;
use crate::text::push_right;
use crate::text::push_signed_one_place;
use crate::text::push_two_places;
use crate::text::push_wide;
use crate::text::right_aligned;
use crate::text::signed_one_place;
use crate::text::text_of;
use crate::text::texts;
use crate::text::two_places;
use crate::ts::ProgramInfo;
use crate::ts::StreamInfo;
use crate::ts::StreamKind;
use crate::ts::TsInfo;
use crate::ts::TsStats;
use crate::ts::VideoFormat;

verus! {

/// One segment of a plan.
pub open spec fn segment_line(segment: Segment) -> Seq<char> {
    "  "@ + right_aligned(signed_one_place(segment.start as int), 8) + "s  "@ + right_aligned(
        signed_one_place(segment.end as int),
        8,
    ) + "s  "@ + left_aligned(segment.kind.spec_label(), 10) + " "@ + two_places(
        segment.confidence as int,
    )
}

/// What is said of the logo.
pub open spec fn logo_summary(analysis: Analysis) -> Seq<char> {
    match analysis.logo {
        Some(logo) => "logo          "@ + decimal_digits(logo.rect.width as nat) + "x"@
            + decimal_digits(logo.rect.height as nat) + " at ("@ + decimal_digits(
            logo.rect.x as nat,
        ) + ", "@ + decimal_digits(logo.rect.y as nat) + "), opacity "@ + two_places(
            logo.mean_alpha as int,
        ) + ", "@ + decimal_digits(
            nearest_even(
                share_in_range(
                    total_presence(analysis.logo_intervals@),
                    analysis.duration as int,
                ),
                10_000,
            ) as nat,
        ) + "% present"@,
        None => "logo          not found"@,
    }
}

/// A decision by its name.
pub open spec fn decision_name(decision: Decision) -> Seq<char> {
    match decision {
        Decision::Cut => "Cut"@,
        Decision::KeepAll => "KeepAll"@,
    }
}

/// What is printed of an analysis and the plan made from it.
pub open spec fn plan_lines(analysis: Analysis, plan: CutPlan) -> Seq<Seq<char>> {
    seq![
        "duration      "@ + signed_one_place(analysis.duration as int) + "s"@,
        logo_summary(analysis),
        "signals       "@ + decimal_digits(analysis.scene_changes@.len()) + " scene changes, "@
            + decimal_digits(analysis.silent_spans@.len()) + " silences"@,
        "confidence    "@ + two_places(plan.confidence as int),
        "decision      "@ + decision_name(plan.decision) + " — "@ + plan.reason@,
    ] + plan.segments@.map_values(|segment: Segment| segment_line(segment)) + seq![
        "would remove  "@ + signed_one_place(
            length_of_kind(plan.segments@, SegmentKind::Commercial),
        ) + "s of "@ + signed_one_place(analysis.duration as int) + "s"@,
    ]
}

fn push_padded_seconds(text: &mut String, micros: i64)
    ensures
        final(text)@ == old(text)@ + right_aligned(signed_one_place(micros as int), 8),
{
    let mut seconds = String::new();
    push_signed_one_place(&mut seconds, micros as i128);
    assert(seconds@ =~= signed_one_place(micros as int));
    push_right(text, seconds.as_str(), 8);
}

fn describe_segment(segment: &Segment) -> (line: String)
    ensures
        line@ == segment_line(*segment),
{
    let mut line = own("  ");
    push_padded_seconds(&mut line, segment.start);
    line.append("s  ");
    push_padded_seconds(&mut line, segment.end);
    line.append("s  ");
    push_left(&mut line, segment.kind.label(), 10);
    line.append(" ");
    push_two_places(&mut line, segment.confidence);
    assert(line@ =~= segment_line(*segment));
    line
}

fn describe_logo(analysis: &Analysis) -> (line: String)
    requires
        analysis.wf(),
    ensures
        line@ == logo_summary(*analysis),
{
    let mut line = own("logo          ");
    match &analysis.logo {
        Some(logo) => {
            push_decimal(&mut line, logo.rect.width as u64);
            line.append("x");
            push_decimal(&mut line, logo.rect.height as u64);
            line.append(" at (");
            push_decimal(&mut line, logo.rect.x as u64);
            line.append(", ");
            push_decimal(&mut line, logo.rect.y as u64);
            line.append("), opacity ");
            push_two_places(&mut line, logo.mean_alpha);
            line.append(", ");
            push_wide(&mut line, round_even(analysis.logo_coverage() as u128, 10_000));
            line.append("% present");
            assert(line@ =~= logo_summary(*analysis));
            line
        },
        None => own("logo          not found"),
    }
}

/// What to print of an analysis and the plan made from it.
#[must_use]
pub fn describe_plan(analysis: &Analysis, plan: &CutPlan) -> (lines: Vec<String>)
    requires
        analysis.wf(),
        plan.wf(),
    ensures
        texts(lines@) == plan_lines(*analysis, *plan),
{
    let mut lines: Vec<String> = Vec::new();
    let mut line = own("duration      ");
    push_signed_one_place(&mut line, analysis.duration as i128);
    line.append("s");
    push_copy(&mut lines, line.as_str());
    push_copy(&mut lines, describe_logo(analysis).as_str());
    let mut line = own("signals       ");
    push_decimal(&mut line, analysis.scene_changes.len() as u64);
    line.append(" scene changes, ");
    push_decimal(&mut line, analysis.silent_spans.len() as u64);
    line.append(" silences");
    push_copy(&mut lines, line.as_str());
    let mut line = own("confidence    ");
    push_two_places(&mut line, plan.confidence);
    push_copy(&mut lines, line.as_str());
    let mut line = own("decision      ");
    line.append(
        match plan.decision {
            Decision::Cut => "Cut",
            Decision::KeepAll => "KeepAll",
        },
    );
    line.append(" — ");
    line.append(plan.reason.as_str());
    push_copy(&mut lines, line.as_str());
    let ghost ahead = texts(lines@);
    let ghost wanted = plan.segments@.map_values(|segment: Segment| segment_line(segment));
    for i in 0..plan.segments.len()
        invariant
            wanted == plan.segments@.map_values(|segment: Segment| segment_line(segment)),
            texts(lines@) =~= ahead + wanted.take(i as int),
    {
        push_copy(&mut lines, describe_segment(&plan.segments[i]).as_str());
        assert(wanted.take(i + 1) =~= wanted.take(i as int).push(wanted[i as int]));
    }
    assert(wanted.take(wanted.len() as int) =~= wanted);
    let mut line = own("would remove  ");
    proof {
        cut_time_is_modest(plan.segments@, plan.segments@.len() as int);
        assert(plan.segments@.take(plan.segments@.len() as int) =~= plan.segments@);
    }
    push_signed_one_place(&mut line, plan.cut_seconds());
    line.append("s of ");
    push_signed_one_place(&mut line, analysis.duration as i128);
    line.append("s");
    push_copy(&mut lines, line.as_str());
    assert(texts(lines@) =~= plan_lines(*analysis, *plan));
    lines
}

proof fn cut_time_is_modest(segments: Seq<Segment>, count: int)
    requires
        0 <= count <= segments.len() <= u32::MAX,
        forall|i: int| 0 <= i < segments.len() ==> (#[trigger] segments[i]).in_time(),
    ensures
        -(count * 2_000_000_000_000_000) <= length_of_kind(
            segments.take(count),
            SegmentKind::Commercial,
        ) <= count * 2_000_000_000_000_000,
    decreases count,
{
    if count > 0 {
        cut_time_is_modest(segments, count - 1);
        assert(segments.take(count).drop_last() =~= segments.take(count - 1));
        assert(segments[count - 1].in_time());
    }
}

/// What is printed of a stored logo.
pub open spec fn stored_logo_line(logo: LogoData) -> Seq<char> {
    left_aligned(
        match text_of(logo.channel_id) {
            Some(id) => id,
            None => "?"@,
        },
        24,
    ) + " "@ + decimal_digits(logo.source_width as nat) + "x"@ + decimal_digits(
        logo.source_height as nat,
    ) + "  rect "@ + decimal_digits(logo.rect.width as nat) + "x"@ + decimal_digits(
        logo.rect.height as nat,
    ) + "+"@ + decimal_digits(logo.rect.x as nat) + "+"@ + decimal_digits(logo.rect.y as nat)
        + "  opacity "@ + two_places(mean_opacity(logo@)) + "  "@ + decimal_digits(
        logo.frames_used as nat,
    ) + " frames"@
}

/// What to print of a stored logo.
#[must_use]
pub fn describe_stored_logo(logo: &LogoData) -> (line: String)
    ensures
        line@ == stored_logo_line(*logo),
{
    let mut line = String::new();
    match &logo.channel_id {
        Some(id) => push_left(&mut line, id.as_str(), 24),
        None => push_left(&mut line, "?", 24),
    }
    line.append(" ");
    push_decimal(&mut line, logo.source_width as u64);
    line.append("x");
    push_decimal(&mut line, logo.source_height as u64);
    line.append("  rect ");
    push_decimal(&mut line, logo.rect.width as u64);
    line.append("x");
    push_decimal(&mut line, logo.rect.height as u64);
    line.append("+");
    push_decimal(&mut line, logo.rect.x as u64);
    line.append("+");
    push_decimal(&mut line, logo.rect.y as u64);
    line.append("  opacity ");
    push_two_places(&mut line, logo.mean_alpha());
    line.append("  ");
    push_decimal(&mut line, logo.frames_used as u64);
    line.append(" frames");
    assert(line@ =~= stored_logo_line(*logo));
    line
}

/// What to print of a profile.
#[must_use]
pub fn describe_profile(name: &str, profile: &Profile) -> (line: String)
    ensures
        line@ == left_aligned(name@, 12) + " "@ + left_aligned(profile@.video_encoder, 12) + " "@
            + profile@.description,
{
    let mut line = String::new();
    push_left(&mut line, name, 12);
    line.append(" ");
    push_left(&mut line, profile.video.encoder.as_str(), 12);
    line.append(" ");
    line.append(profile.description.as_str());
    assert(line@ =~= left_aligned(name@, 12) + " "@ + left_aligned(profile@.video_encoder, 12)
        + " "@ + profile@.description);
    line
}

/// What to print when a job's message changes: how far it is, and the message.
#[must_use]
pub fn describe_progress(fraction: i64, message: &str) -> (line: String)
    ensures
        line@ == right_aligned(signed_one_place(fraction * 100), 5) + "%  "@ + message@,
{
    let mut percent = String::new();
    push_signed_one_place(&mut percent, fraction as i128 * 100);
    assert(percent@ =~= signed_one_place(fraction * 100));
    let mut line = String::new();
    push_right(&mut line, percent.as_str(), 5);
    line.append("%  ");
    line.append(message);
    assert(line@ =~= right_aligned(signed_one_place(fraction * 100), 5) + "%  "@ + message@);
    line
}

/// What to print when a job is done.
#[must_use]
pub fn describe_outcome(plan: &CutPlan) -> (line: String)
    requires
        plan.wf(),
    ensures
        line@ == "removed "@ + signed_one_place(
            length_of_kind(plan.segments@, SegmentKind::Commercial),
        ) + "s, confidence "@ + two_places(plan.confidence as int),
{
    proof {
        cut_time_is_modest(plan.segments@, plan.segments@.len() as int);
        assert(plan.segments@.take(plan.segments@.len() as int) =~= plan.segments@);
    }
    let mut line = own("removed ");
    push_signed_one_place(&mut line, plan.cut_seconds());
    line.append("s, confidence ");
    push_two_places(&mut line, plan.confidence);
    line
}

/// A stream kind by its name in code.
pub open spec fn kind_identifier(kind: StreamKind) -> Seq<char> {
    match kind {
        StreamKind::Mpeg2Video => "Mpeg2Video"@,
        StreamKind::H264Video => "H264Video"@,
        StreamKind::HevcVideo => "HevcVideo"@,
        StreamKind::AacAudio => "AacAudio"@,
        StreamKind::Caption => "Caption"@,
        StreamKind::Superimpose => "Superimpose"@,
        StreamKind::Data => "Data"@,
        StreamKind::Other(stream_type) => "Other("@ + decimal_digits(stream_type as nat) + ")"@,
    }
}

fn push_kind(text: &mut String, kind: StreamKind)
    ensures
        final(text)@ == old(text)@ + kind_identifier(kind),
{
    match kind {
        StreamKind::Mpeg2Video => text.append("Mpeg2Video"),
        StreamKind::H264Video => text.append("H264Video"),
        StreamKind::HevcVideo => text.append("HevcVideo"),
        StreamKind::AacAudio => text.append("AacAudio"),
        StreamKind::Caption => text.append("Caption"),
        StreamKind::Superimpose => text.append("Superimpose"),
        StreamKind::Data => text.append("Data"),
        StreamKind::Other(stream_type) => {
            text.append("Other(");
            push_decimal(text, stream_type as u64);
            text.append(")");
        },
    }
    assert(text@ =~= old(text)@ + kind_identifier(kind));
}

/// What is printed of a stream.
pub open spec fn stream_line(stream: StreamInfo) -> Seq<char> {
    "  pid 0x"@ + hex_digits(stream.pid as nat, 4) + "  "@ + kind_identifier(stream.kind)
}

/// What is printed of the first programmes.
pub open spec fn program_lines(programs: Seq<ProgramInfo>) -> Seq<Seq<char>>
    decreases programs.len(),
{
    if programs.len() == 0 {
        Seq::empty()
    } else {
        program_lines(programs.drop_last()) + seq![
            "program "@ + decimal_digits(programs.last().program_number as nat),
        ] + programs.last().streams@.map_values(|stream: StreamInfo| stream_line(stream))
    }
}

/// What is printed of the picture.
pub open spec fn video_line(format: VideoFormat) -> Seq<char> {
    "video         "@ + decimal_digits(format.width as nat) + "x"@ + decimal_digits(
        format.height as nat,
    ) + " @ "@ + ratio_text(format.frame_rate.0 as nat, format.frame_rate.1 as nat) + " fps"@ + (
    if format.interlaced {
        " interlaced"@
    } else {
        ""@
    })
}

/// What is printed of a scan's counters.
pub open spec fn health_line(stats: TsStats) -> Seq<char> {
    "health        "@ + decimal_digits(stats.dropped_packets as nat) + " dropped, "@
        + decimal_digits(stats.scrambled_packets as nat) + " scrambled, "@ + decimal_digits(
        stats.error_packets as nat,
    ) + " errors"@
}

/// What is printed of a scanned recording.
pub open spec fn scan_lines(info: TsInfo) -> Seq<Seq<char>> {
    seq![
        "layout        "@ + info.layout@,
        "packets       "@ + decimal_digits(info.packet_count as nat),
        "duration      "@ + signed_one_place(info.duration_seconds as int) + "s"@,
    ] + (match info.video_format {
        Some(format) => seq![video_line(format)],
        None => Seq::empty(),
    }) + program_lines(info.programs@) + seq![health_line(info.stats)] + (if size_changes(
        info.video_format,
        info.format_changes@,
    ).len() > 0 {
        seq!["note          the picture geometry changes mid-recording"@]
    } else {
        Seq::empty()
    })
}

fn push_programs(lines: &mut Vec<String>, programs: &[ProgramInfo])
    ensures
        texts(final(lines)@) == texts(old(lines)@) + program_lines(programs@),
{
    let ghost before = texts(lines@);
    assert(programs@.take(0) =~= Seq::empty());
    assert(texts(lines@) =~= before + program_lines(programs@.take(0)));
    for i in 0..programs.len()
        invariant
            texts(lines@) == before + program_lines(programs@.take(i as int)),
    {
        let program = &programs[i];
        assert(programs@.take(i + 1).drop_last() =~= programs@.take(i as int));
        assert(programs@.take(i + 1).last() == *program);
        let mut line = own("program ");
        push_decimal(&mut line, program.program_number as u64);
        push_copy(lines, line.as_str());
        let ghost ahead = texts(lines@);
        let ghost wanted = program.streams@.map_values(|stream: StreamInfo| stream_line(stream));
        for k in 0..program.streams.len()
            invariant
                wanted == program.streams@.map_values(|stream: StreamInfo| stream_line(stream)),
                texts(lines@) =~= ahead + wanted.take(k as int),
        {
            let mut line = own("  pid 0x");
            push_hex(&mut line, program.streams[k].pid, 4);
            line.append("  ");
            push_kind(&mut line, program.streams[k].kind);
            assert(line@ =~= stream_line(program.streams@[k as int]));
            push_copy(lines, line.as_str());
            assert(wanted.take(k + 1) =~= wanted.take(k as int).push(wanted[k as int]));
        }
        assert(wanted.take(wanted.len() as int) =~= wanted);
        assert(texts(lines@) =~= before + program_lines(programs@.take(i + 1)));
    }
    assert(programs@.take(programs@.len() as int) =~= programs@);
}

/// What to print of a scanned recording.
#[must_use]
pub fn describe_scan(info: &TsInfo) -> (lines: Vec<String>)
    ensures
        texts(lines@) == scan_lines(*info),
{
    let mut lines: Vec<String> = Vec::new();
    let mut line = own("layout        ");
    line.append(info.layout.as_str());
    push_copy(&mut lines, line.as_str());
    let mut line = own("packets       ");
    push_decimal(&mut line, info.packet_count);
    push_copy(&mut lines, line.as_str());
    let mut line = own("duration      ");
    push_signed_one_place(&mut line, info.duration_seconds as i128);
    line.append("s");
    push_copy(&mut lines, line.as_str());
    if let Some(format) = &info.video_format {
        let mut line = own("video         ");
        push_decimal(&mut line, format.width as u64);
        line.append("x");
        push_decimal(&mut line, format.height as u64);
        line.append(" @ ");
        let thousandths: u64 = thousandths_of(format.frame_rate.0, format.frame_rate.1);
        push_decimal(&mut line, thousandths / 1_000);
        line.append(".");
        push_padded(&mut line, thousandths % 1_000, 3);
        line.append(" fps");
        line.append(if format.interlaced { " interlaced" } else { "" });
        assert(line@ =~= video_line(*format));
        push_copy(&mut lines, line.as_str());
    }
    push_programs(&mut lines, &info.programs);
    let mut line = own("health        ");
    push_decimal(&mut line, info.stats.dropped_packets);
    line.append(" dropped, ");
    push_decimal(&mut line, info.stats.scrambled_packets);
    line.append(" scrambled, ");
    push_decimal(&mut line, info.stats.error_packets);
    line.append(" errors");
    assert(line@ =~= health_line(info.stats));
    push_copy(&mut lines, line.as_str());
    if splits(info).len() > 0 {
        push_copy(&mut lines, "note          the picture geometry changes mid-recording");
    }
    assert(texts(lines@) =~= scan_lines(*info));
    lines
}

} // verus!
