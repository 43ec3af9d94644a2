//! Building the encode.
//!
//! # How the cuts are applied
//!
//! Cutting by seeking and concatenating means one ffmpeg invocation per kept
//! range plus a concat pass, and every seek lands on a keyframe rather than
//! the frame that was asked for. Broadcast GOPs are half a second long, so
//! that is up to half a second of commercial left in, or half a second of
//! programme taken out, at every join.
//!
//! Frames are instead selected inside a single filter chain:
//!
//! ```text
//! select='between(t,0,300)+between(t,360,900)',setpts=N/FRAME_RATE/TB
//! ```
//!
//! `select` passes only frames inside a kept range, and `setpts` renumbers
//! what survives into a continuous timeline. The decoder still decodes
//! everything, which costs time, but every cut lands on the exact frame and
//! the whole job is one pass.

use vstd::prelude::*;
use vstd::string::*;
use crate::analyze::TIME_LIMIT;
use crate::arith::nearest;
use crate::arith::nearest_even;
use crate::arith::nearest_quotient;
use crate::cmcut::plan::kept_length;
use crate::cmcut::plan::KeepRange;
use crate::engine::chapters::summable;
use crate::engine::diagnostics::languages_of;
use crate::engine::diagnostics::DualMono;
use crate::engine::profile::Container;
use crate::engine::profile::Profile;
use crate::engine::profile::ProfileView;
use crate::engine::Error;
use crate::media::encode::chapter_views;
use crate::media::encode::ffmetadata;
use crate::media::encode::metadata_of;
use crate::media::encode::progress_args;
use crate::media::encode::Chapter;
use crate::media::ffmpeg::Ffmpeg;
use crate::media::probe::AudioStream;
use crate::media::probe::MediaProbe;
use crate::paths::with_extension;
use crate::paths::with_other_extension;
use crate::text::append_texts;
use crate::text::decimal;
use crate::text::decimal_digits;
use crate::text::join;
use crate::text::joined;
use crate::text::own;
use crate::text::padded_digits;
use crate::text::push_copy;
use crate::text::push_signed_three_places;
use crate::text::push_wide;
use crate::text::signed_three_places;
use crate::text::text_of;
use crate::text::texts;
use crate::text::three_places;

verus! {

/// Everything needed to encode one output file.
#[derive(Debug)]
pub struct EncodeRequest<'a> {
    /// Source recording.
    pub input: &'a str,
    /// Where to write the result.
    pub output: &'a str,
    /// How to encode it.
    pub profile: &'a Profile,
    /// Stretches of the source to keep, in order.
    pub keep: &'a [KeepRange],
    /// Chapters to write, already in output time.
    pub chapters: &'a [Chapter],
    /// What ffmpeg reported about the source.
    pub probe: &'a MediaProbe,
    /// The languages of a bilingual source, whose first audio stream carries
    /// one in each channel.
    pub dual_mono: Option<&'a DualMono>,
}

impl EncodeRequest<'_> {
    /// The languages of a bilingual source, read as characters.
    pub open spec fn languages(self) -> Languages {
        match self.dual_mono {
            Some(dual) => languages_of(Some(*dual)),
            None => None,
        }
    }
}

/// The two languages of a bilingual source, where they are known.
pub type Languages = Option<(Option<Seq<char>>, Option<Seq<char>>)>;

/// How the audio streams are carried into the output.
#[derive(Debug, Clone, Copy, PartialEq, Eq, Structural)]
pub enum AudioPlan {
    /// Copied byte for byte.
    ///
    /// Broadcast audio is already AAC, which is what the output container
    /// wants, so re-encoding it only loses quality and spends time. This is
    /// possible whenever nothing is being cut, because the stream is then
    /// passed through untouched.
    Copy,
    /// Decoded, selected and re-encoded.
    ///
    /// Required when material is being removed: the cut has to fall inside the
    /// audio stream, and a coded stream cannot be cut at an arbitrary point
    /// without decoding it.
    Reencode,
}

/// Slack, in microseconds, within which a range counts as reaching an end of
/// the source.
pub const END_SLACK: i64 = 10_000;

/// Material is being removed from a source of this length: there is more than
/// one range, or the only one leaves out an end of the source. A source of
/// unknown length is as long as what is kept of it.
pub open spec fn removes_material(keep: Seq<KeepRange>, source: Option<i64>) -> bool {
    if keep.len() == 0 {
        false
    } else if keep.len() == 1 {
        keep[0].start > END_SLACK || (source matches Some(source) && source > 0 && keep[0].end
            < source - END_SLACK)
    } else {
        true
    }
}

/// How the audio is carried: copied when nothing is removed, no stream is two
/// programmes in one, and the container carries every stream there is;
/// re-encoded otherwise.
pub open spec fn plan_for_audio(
    profile: ProfileView,
    probe: MediaProbe,
    keep: Seq<KeepRange>,
    bilingual: bool,
) -> AudioPlan {
    if removes_material(keep, probe.duration_seconds) || bilingual || probe.audio@.len() == 0 {
        AudioPlan::Reencode
    } else if forall|i: int|
        0 <= i < probe.audio@.len() ==> profile.container.carries((#[trigger] probe.audio@[i])@.codec) {
        AudioPlan::Copy
    } else {
        AudioPlan::Reencode
    }
}

/// How many audio tracks are written: one for every stream, one in any case,
/// and one more where the first stream carries two languages.
pub open spec fn tracks_of(probe: MediaProbe, bilingual: bool) -> nat {
    (if probe.audio@.len() == 0 {
        1nat
    } else {
        probe.audio@.len()
    }) + (if bilingual {
        1nat
    } else {
        0
    })
}

impl EncodeRequest<'_> {
    /// Duration of the output, in microseconds.
    #[must_use]
    pub fn output_seconds(&self) -> (length: i64)
        requires
            summable(self.keep@),
        ensures
            length == kept_length(self.keep@),
    {
        let mut total: i64 = 0;
        assert(kept_length(self.keep@.take(0)) == 0);
        for i in 0..self.keep.len()
            invariant
                summable(self.keep@),
                total == kept_length(self.keep@.take(i as int)),
        {
            let range = self.keep[i];
            assert(self.keep@[i as int].in_time());
            assert(self.keep@.take(i + 1).drop_last() =~= self.keep@.take(i as int));
            assert(-4 * TIME_LIMIT <= kept_length(self.keep@.take(i as int)) <= 4 * TIME_LIMIT);
            total = total + range.duration();
        }
        assert(self.keep@.take(self.keep@.len() as int) =~= self.keep@);
        total
    }

    /// How many audio tracks the output carries.
    ///
    /// Every stream of the source becomes a track. Japanese broadcast routinely
    /// carries two, a bilingual programme's main and sub language, and mapping
    /// only the first silently discards the second. A stream that carries both
    /// languages, one per channel, becomes two tracks.
    #[must_use]
    pub fn audio_tracks(&self) -> (count: u128)
        ensures
            count == tracks_of(*self.probe, self.dual_mono is Some),
    {
        let streams: u128 = self.audio_streams() as u128;
        if self.dual_mono.is_some() {
            streams + 1
        } else {
            streams
        }
    }

    /// How many audio streams the source carries, one at least.
    #[must_use]
    pub fn audio_streams(&self) -> (count: usize)
        ensures
            count == tracks_of(*self.probe, false),
    {
        if self.probe.audio.len() == 0 {
            1
        } else {
            self.probe.audio.len()
        }
    }

    /// Whether the audio can be copied rather than re-encoded.
    #[must_use]
    pub fn audio_plan(&self) -> (plan: AudioPlan)
        ensures
            plan == plan_for_audio(
                self.profile@,
                *self.probe,
                self.keep@,
                self.dual_mono is Some,
            ),
    {
        if self.is_cutting() || self.dual_mono.is_some() || self.probe.audio.len() == 0 {
            return AudioPlan::Reencode;
        }
        // A container that cannot carry the source codec forces a re-encode
        // even when nothing is being cut.
        let audio = &self.probe.audio;
        for i in 0..audio.len()
            invariant
                *audio == self.probe.audio,
                forall|k: int|
                    0 <= k < i ==> self.profile.container.carries((#[trigger] audio@[k])@.codec),
        {
            if !self.profile.container.can_carry(audio[i].codec.as_str()) {
                assert(!self.profile@.container.carries(self.probe.audio@[i as int]@.codec));
                return AudioPlan::Reencode;
            }
        }
        AudioPlan::Copy
    }

    /// Whether any material is actually being removed.
    ///
    /// A single range covering the whole source means the filter chain can be
    /// left out entirely, which is both faster and less to go wrong.
    #[must_use]
    pub fn is_cutting(&self) -> (yes: bool)
        ensures
            yes == removes_material(self.keep@, self.probe.duration_seconds),
    {
        if self.keep.len() == 0 {
            return false;
        }
        if self.keep.len() > 1 {
            return true;
        }
        let only = self.keep[0];
        if only.start > END_SLACK {
            return true;
        }
        match self.probe.duration_seconds {
            Some(source) => source > 0 && only.end < source - END_SLACK,
            None => false,
        }
    }
}

/// The term that selects one kept range.
pub open spec fn between(range: KeepRange) -> Seq<char> {
    "between(t\\,"@ + signed_three_places(range.start as int) + "\\,"@ + signed_three_places(
        range.end as int,
    ) + ")"@
}

/// The expression that selects the kept ranges.
pub open spec fn selection(keep: Seq<KeepRange>) -> Seq<char> {
    joined(keep.map_values(|range: KeepRange| between(range)), "+"@)
}

/// The `between(...)` expression selecting the kept ranges.
///
/// Commas inside the expression are escaped because a filtergraph reads an
/// unescaped comma as the end of one filter and the start of the next.
#[must_use]
pub fn select_expression(keep: &[KeepRange]) -> (expression: String)
    ensures
        expression@ == selection(keep@),
{
    let mut terms: Vec<String> = Vec::new();
    let ghost wanted = keep@.map_values(|range: KeepRange| between(range));
    for i in 0..keep.len()
        invariant
            wanted == keep@.map_values(|range: KeepRange| between(range)),
            texts(terms@) =~= wanted.take(i as int),
    {
        let mut term = own("between(t\\,");
        push_signed_three_places(&mut term, keep[i].start);
        term.append("\\,");
        push_signed_three_places(&mut term, keep[i].end);
        term.append(")");
        assert(term@ =~= between(keep@[i as int]));
        push_copy(&mut terms, term.as_str());
        assert(wanted.take(i + 1) =~= wanted.take(i as int).push(wanted[i as int]));
    }
    assert(wanted.take(keep@.len() as int) =~= wanted);
    join(&terms, "+")
}

/// The video filters.
///
/// Selection happens after deinterlacing so the filter sees whole frames, and
/// before scaling so no work is done on frames that are about to be discarded.
///
/// The timeline is rebuilt from the frame index *before* selecting, so that
/// `t` there means the same thing it meant during analysis: the analysis
/// derives every position by counting decoded frames, not by reading container
/// timestamps, and a source whose timestamps start at an offset would
/// otherwise be cut a constant distance away from where the analysis asked. It
/// is renumbered again afterwards, so what survives is contiguous rather than
/// a timeline full of holes.
pub open spec fn video_chain(
    profile: ProfileView,
    keep: Seq<KeepRange>,
    cutting: bool,
    interlaced: bool,
) -> Seq<Seq<char>> {
    let filters = profile.filters_for(interlaced);
    let at: int = if interlaced && profile.deinterlace is Some { 1 } else { 0 };
    if cutting {
        filters.take(at) + seq![
            "setpts=N/FRAME_RATE/TB"@,
            "select='"@ + selection(keep) + "'"@,
        ] + filters.skip(at) + seq!["setpts=N/FRAME_RATE/TB"@]
    } else if filters.len() == 0 {
        seq!["null"@]
    } else {
        filters
    }
}

/// The audio filters.
pub open spec fn audio_chain(keep: Seq<KeepRange>, cutting: bool) -> Seq<Seq<char>> {
    if cutting {
        seq!["asetpts=N/SR/TB"@, "aselect='"@ + selection(keep) + "'"@, "asetpts=N/SR/TB"@]
    } else {
        seq!["anull"@]
    }
}

/// The stream an audio track is made from. The two languages of a bilingual
/// source are both in the first.
pub open spec fn stream_of(index: nat, bilingual: bool) -> nat {
    if bilingual && index > 0 {
        (index - 1) as nat
    } else {
        index
    }
}

/// What picks one language out of the two channels of a bilingual stream, each
/// becoming a track of one channel.
pub open spec fn channel_filter(index: nat, bilingual: bool) -> Seq<char> {
    if bilingual && index < 2 {
        ",pan=mono|c0=c"@ + decimal_digits(index)
    } else {
        ""@
    }
}

/// The chain of one audio track.
pub open spec fn track_chain(filters: Seq<char>, index: nat, bilingual: bool) -> Seq<char> {
    "[0:a:"@ + decimal_digits(stream_of(index, bilingual)) + "]"@ + filters + channel_filter(
        index,
        bilingual,
    ) + "[a"@ + decimal_digits(index) + "]"@
}

/// One chain for the video, and one for every audio track that is re-encoded.
///
/// The video always goes through a chain. The audio only does when it is being
/// re-encoded: a copied stream never enters the graph, because passing it
/// through a filter would mean decoding it, which is the thing being avoided.
pub open spec fn graph_chains(
    profile: ProfileView,
    probe: MediaProbe,
    keep: Seq<KeepRange>,
    interlaced: bool,
    bilingual: bool,
) -> Seq<Seq<char>> {
    let cutting = removes_material(keep, probe.duration_seconds);
    let filters = joined(audio_chain(keep, cutting), ","@);
    seq!["[0:v]"@ + joined(video_chain(profile, keep, cutting, interlaced), ","@) + "[v]"@] + (
    match plan_for_audio(profile, probe, keep, bilingual) {
        AudioPlan::Copy => Seq::empty(),
        AudioPlan::Reencode => Seq::new(
            tracks_of(probe, bilingual),
            |i: int| track_chain(filters, i as nat, bilingual),
        ),
    })
}

fn video_filters(request: &EncodeRequest<'_>, interlaced: bool) -> (chain: Vec<String>)
    ensures
        texts(chain@) == video_chain(
            request.profile@,
            request.keep@,
            removes_material(request.keep@, request.probe.duration_seconds),
            interlaced,
        ),
{
    let filters = request.profile.video_filters(interlaced);
    let ghost wanted = request.profile@.filters_for(interlaced);
    if request.is_cutting() {
        let at: usize = if interlaced && request.profile.filters.deinterlace.is_some() {
            1
        } else {
            0
        };
        let ranges = select_expression(request.keep);
        let mut select = own("select='");
        select.append(ranges.as_str());
        select.append("'");
        let mut chain: Vec<String> = Vec::new();
        if at > 0 {
            push_copy(&mut chain, filters[0].as_str());
        }
        assert(texts(chain@) =~= wanted.take(at as int)) by {
            if at > 0 {
                assert(texts(filters@)[0] == filters@[0]@);
            }
        }
        push_copy(&mut chain, "setpts=N/FRAME_RATE/TB");
        push_copy(&mut chain, select.as_str());
        let ghost ahead = texts(chain@);
        for i in at..filters.len()
            invariant
                at <= filters@.len(),
                texts(filters@) == wanted,
                texts(chain@) =~= ahead + wanted.subrange(at as int, i as int),
        {
            push_copy(&mut chain, filters[i].as_str());
            assert(texts(filters@)[i as int] == filters@[i as int]@);
            assert(wanted.subrange(at as int, i + 1) =~= wanted.subrange(at as int, i as int).push(
                wanted[i as int],
            ));
        }
        assert(wanted.subrange(at as int, wanted.len() as int) =~= wanted.skip(at as int));
        push_copy(&mut chain, "setpts=N/FRAME_RATE/TB");
        assert(texts(chain@) =~= video_chain(request.profile@, request.keep@, true, interlaced));
        chain
    } else if filters.len() == 0 {
        // A chain must not be empty, and `null` is the documented no-op.
        let mut chain: Vec<String> = Vec::new();
        push_copy(&mut chain, "null");
        assert(texts(chain@) =~= seq!["null"@]);
        assert(texts(filters@).len() == 0);
        chain
    } else {
        assert(texts(filters@).len() > 0);
        filters
    }
}

fn audio_filters(request: &EncodeRequest<'_>) -> (chain: Vec<String>)
    ensures
        texts(chain@) == audio_chain(
            request.keep@,
            removes_material(request.keep@, request.probe.duration_seconds),
        ),
{
    let mut chain: Vec<String> = Vec::new();
    if request.is_cutting() {
        let ranges = select_expression(request.keep);
        let mut select = own("aselect='");
        select.append(ranges.as_str());
        select.append("'");
        push_copy(&mut chain, "asetpts=N/SR/TB");
        push_copy(&mut chain, select.as_str());
        push_copy(&mut chain, "asetpts=N/SR/TB");
    } else {
        push_copy(&mut chain, "anull");
    }
    assert(texts(chain@) =~= audio_chain(
        request.keep@,
        removes_material(request.keep@, request.probe.duration_seconds),
    ));
    chain
}

/// Build the `-filter_complex` graph.
#[must_use]
pub fn filter_graph(request: &EncodeRequest<'_>, interlaced: bool) -> (graph: String)
    ensures
        graph@ == joined(
            graph_chains(
                request.profile@,
                *request.probe,
                request.keep@,
                interlaced,
                request.dual_mono is Some,
            ),
            ";"@,
        ),
{
    let video = join(&video_filters(request, interlaced), ",");
    let mut first = own("[0:v]");
    first.append(video.as_str());
    first.append("[v]");
    let mut chains: Vec<String> = Vec::new();
    push_copy(&mut chains, first.as_str());
    let ghost ahead = texts(chains@);
    if let AudioPlan::Reencode = request.audio_plan() {
        let filters = join(&audio_filters(request), ",");
        let tracks: u128 = request.audio_tracks();
        let bilingual = request.dual_mono.is_some();
        for index in 0..tracks
            invariant
                texts(chains@) =~= ahead + Seq::new(
                    index as nat,
                    |i: int| track_chain(filters@, i as nat, bilingual),
                ),
        {
            let mut chain = own("[0:a:");
            push_wide(&mut chain, if bilingual && index > 0 { index - 1 } else { index });
            chain.append("]");
            chain.append(filters.as_str());
            if bilingual && index < 2 {
                chain.append(",pan=mono|c0=c");
                push_wide(&mut chain, index);
            } else {
                chain.append("");
            }
            chain.append("[a");
            push_wide(&mut chain, index);
            chain.append("]");
            assert(chain@ =~= track_chain(filters@, index as nat, bilingual));
            push_copy(&mut chains, chain.as_str());
        }
    }
    assert(texts(chains@) =~= graph_chains(
        request.profile@,
        *request.probe,
        request.keep@,
        interlaced,
        request.dual_mono is Some,
    ));
    join(&chains, ";")
}

/// What is asked of the inputs.
///
/// Dual-mono decoding is an *input* option and must precede `-i`, or ffmpeg
/// silently ignores it and merges both languages together. Terrestrial
/// recordings routinely contain corrupt packets; dropping them beats aborting
/// a job that is otherwise fine. Global metadata, and therefore the chapters,
/// come from the second input where there is one.
pub open spec fn input_arguments(
    input: Seq<char>,
    profile: ProfileView,
    dual_mono: bool,
    chapters: Option<Seq<char>>,
) -> Seq<Seq<char>> {
    seq!["-hide_banner"@, "-nostdin"@, "-loglevel"@, "error"@, "-y"@] + (if dual_mono {
        seq!["-dual_mono_mode"@, profile.dual_mono_mode]
    } else {
        Seq::empty()
    }) + seq!["-fflags"@, "+discardcorrupt"@, "-i"@, input] + (match chapters {
        Some(path) => seq!["-i"@, path, "-map_metadata"@, "1"@],
        None => Seq::empty(),
    })
}

/// Where an audio track comes from: straight from the source, or out of the
/// filter graph.
pub open spec fn track_source(plan: AudioPlan, index: nat) -> Seq<char> {
    match plan {
        AudioPlan::Copy => "0:a:"@ + decimal_digits(index) + "?"@,
        AudioPlan::Reencode => "[a"@ + decimal_digits(index) + "]"@,
    }
}

/// The maps of the first audio tracks, one each, so a bilingual programme
/// keeps both languages.
pub open spec fn track_maps(plan: AudioPlan, count: nat) -> Seq<Seq<char>>
    decreases count,
{
    if count == 0 {
        Seq::empty()
    } else {
        track_maps(plan, (count - 1) as nat) + seq![
            "-map"@,
            track_source(plan, (count - 1) as nat),
        ]
    }
}

/// What is asked of the encoders.
///
/// Channel and rate conversion only make sense when decoding; with a copy they
/// would contradict the stream being copied. Each language of a bilingual
/// source is mono, not a duplicated stereo pair.
pub open spec fn codec_arguments(
    profile: ProfileView,
    plan: AudioPlan,
    bilingual: bool,
) -> Seq<Seq<char>> {
    seq!["-c:v"@, profile.video_encoder] + profile.video_args + (match plan {
        AudioPlan::Copy => seq!["-c:a"@, "copy"@],
        AudioPlan::Reencode => seq!["-c:a"@, profile.audio_encoder] + profile.audio_args + seq![
            "-ac"@,
            decimal_digits(profile.channels as nat),
            "-ar"@,
            decimal_digits(profile.sample_rate as nat),
        ] + (if bilingual {
            seq!["-ac:a:0"@, "1"@, "-ac:a:1"@, "1"@]
        } else {
            Seq::empty()
        }),
    })
}

/// The languages of the audio streams, as tagged.
pub open spec fn stream_languages(audio: Seq<AudioStream>) -> Seq<Option<Seq<char>>> {
    audio.map_values(|stream: AudioStream| text_of(stream.language))
}

/// The language of every track.
pub open spec fn track_languages(
    audio: Seq<AudioStream>,
    languages: Languages,
) -> Seq<Option<Seq<char>>> {
    match languages {
        Some((main, sub)) => seq![main, sub] + stream_languages(
            audio.skip(if audio.len() == 0 { 0 } else { 1 }),
        ),
        None => stream_languages(audio),
    }
}

/// Each track's language, so a player can offer the choice.
pub open spec fn language_arguments(languages: Seq<Option<Seq<char>>>) -> Seq<Seq<char>>
    decreases languages.len(),
{
    if languages.len() == 0 {
        Seq::empty()
    } else {
        language_arguments(languages.drop_last()) + (match languages.last() {
            Some(language) => seq![
                "-metadata:s:a:"@ + decimal_digits((languages.len() - 1) as nat),
                "language="@ + language,
            ],
            None => Seq::empty(),
        })
    }
}

/// What is asked of the output. The index of an MP4 goes at the front so the
/// file starts playing before it has fully downloaded, which is how it will be
/// watched.
pub open spec fn output_arguments(container: Container, output: Seq<char>) -> Seq<Seq<char>> {
    (match container {
        Container::Mp4 => seq!["-movflags"@, "+faststart"@],
        Container::Mkv => Seq::empty(),
    }) + seq![
        "-f"@,
        container.spec_muxer(),
        "-progress"@,
        "pipe:1"@,
        "-nostats"@,
        output,
    ]
}

/// The whole ffmpeg invocation.
pub open spec fn encode_arguments(
    input: Seq<char>,
    output: Seq<char>,
    profile: ProfileView,
    probe: MediaProbe,
    keep: Seq<KeepRange>,
    chapters: Option<Seq<char>>,
    languages: Languages,
) -> Seq<Seq<char>> {
    let interlaced = probe.video matches Some(video) && video.interlaced;
    let bilingual = languages is Some;
    let plan = plan_for_audio(profile, probe, keep, bilingual);
    input_arguments(input, profile, probe.dual_mono(), chapters) + seq![
        "-filter_complex"@,
        joined(graph_chains(profile, probe, keep, interlaced, bilingual), ";"@),
        "-map"@,
        "[v]"@,
    ] + track_maps(plan, tracks_of(probe, bilingual)) + codec_arguments(profile, plan, bilingual)
        + language_arguments(track_languages(probe.audio@, languages)) + output_arguments(
        profile.container,
        output,
    )
}

fn push_inputs(
    args: &mut Vec<String>,
    ffmpeg: &Ffmpeg,
    request: &EncodeRequest<'_>,
    chapters: Option<&str>,
)
    requires
        old(args)@.len() == 0,
    ensures
        texts(final(args)@) == input_arguments(
            request.input@,
            request.profile@,
            request.probe.dual_mono(),
            match chapters {
                Some(path) => Some(path@),
                None => None,
            },
        ),
{
    append_texts(args, &ffmpeg.command());
    push_copy(args, "-y");
    if request.probe.is_dual_mono() {
        push_copy(args, "-dual_mono_mode");
        push_copy(args, request.profile.audio.dual_mono_mode.as_str());
    }
    push_copy(args, "-fflags");
    push_copy(args, "+discardcorrupt");
    push_copy(args, "-i");
    push_copy(args, request.input);
    if let Some(path) = chapters {
        push_copy(args, "-i");
        push_copy(args, path);
        push_copy(args, "-map_metadata");
        push_copy(args, "1");
    }
    assert(texts(args@) =~= input_arguments(
        request.input@,
        request.profile@,
        request.probe.dual_mono(),
        match chapters {
            Some(path) => Some(path@),
            None => None,
        },
    ));
}

fn push_maps(args: &mut Vec<String>, plan: AudioPlan, tracks: u128)
    ensures
        texts(final(args)@) == texts(old(args)@) + track_maps(plan, tracks as nat),
{
    let ghost ahead = texts(args@);
    assert(texts(args@) =~= ahead + track_maps(plan, 0));
    for index in 0..tracks
        invariant
            texts(args@) == ahead + track_maps(plan, index as nat),
    {
        let mut source = String::new();
        match plan {
            AudioPlan::Copy => {
                source.append("0:a:");
                push_wide(&mut source, index);
                source.append("?");
            },
            AudioPlan::Reencode => {
                source.append("[a");
                push_wide(&mut source, index);
                source.append("]");
            },
        }
        assert(source@ =~= track_source(plan, index as nat));
        push_copy(args, "-map");
        push_copy(args, source.as_str());
        assert(texts(args@) =~= ahead + track_maps(plan, (index + 1) as nat));
    }
}

fn push_codecs(args: &mut Vec<String>, profile: &Profile, plan: AudioPlan, bilingual: bool)
    ensures
        texts(final(args)@) == texts(old(args)@) + codec_arguments(profile@, plan, bilingual),
{
    push_copy(args, "-c:v");
    push_copy(args, profile.video.encoder.as_str());
    append_texts(args, &profile.video.args);
    match plan {
        AudioPlan::Copy => {
            push_copy(args, "-c:a");
            push_copy(args, "copy");
        },
        AudioPlan::Reencode => {
            push_copy(args, "-c:a");
            push_copy(args, profile.audio.encoder.as_str());
            append_texts(args, &profile.audio.args);
            push_copy(args, "-ac");
            push_copy(args, decimal(profile.audio.channels as u64).as_str());
            push_copy(args, "-ar");
            push_copy(args, decimal(profile.audio.sample_rate as u64).as_str());
            if bilingual {
                push_copy(args, "-ac:a:0");
                push_copy(args, "1");
                push_copy(args, "-ac:a:1");
                push_copy(args, "1");
            }
        },
    }
    assert(texts(args@) =~= texts(old(args)@) + codec_arguments(profile@, plan, bilingual));
}

fn push_language(args: &mut Vec<String>, index: u128, language: &Option<String>)
    ensures
        texts(final(args)@) == texts(old(args)@) + (match text_of(*language) {
            Some(language) => seq![
                "-metadata:s:a:"@ + decimal_digits(index as nat),
                "language="@ + language,
            ],
            None => Seq::empty(),
        }),
{
    if let Some(language) = language {
        let mut flag = own("-metadata:s:a:");
        push_wide(&mut flag, index);
        let mut value = own("language=");
        value.append(language.as_str());
        push_copy(args, flag.as_str());
        push_copy(args, value.as_str());
    }
    assert(texts(args@) =~= texts(old(args)@) + (match text_of(*language) {
        Some(language) => seq![
            "-metadata:s:a:"@ + decimal_digits(index as nat),
            "language="@ + language,
        ],
        None => Seq::empty(),
    }));
}

proof fn one_more_language(languages: Seq<Option<Seq<char>>>, count: int)
    requires
        0 <= count < languages.len(),
    ensures
        language_arguments(languages.take(count + 1)) == language_arguments(languages.take(count))
            + (match languages[count] {
            Some(language) => seq![
                "-metadata:s:a:"@ + decimal_digits(count as nat),
                "language="@ + language,
            ],
            None => Seq::empty(),
        }),
{
    assert(languages.take(count + 1).drop_last() =~= languages.take(count));
    assert(languages.take(count + 1).last() == languages[count]);
}

fn push_languages(args: &mut Vec<String>, audio: &[AudioStream], dual_mono: Option<&DualMono>)
    ensures
        texts(final(args)@) == texts(old(args)@) + language_arguments(
            track_languages(
                audio@,
                match dual_mono {
                    Some(dual) => languages_of(Some(*dual)),
                    None => None,
                },
            ),
        ),
{
    let ghost ahead = texts(args@);
    let ghost languages = track_languages(
        audio@,
        match dual_mono {
            Some(dual) => languages_of(Some(*dual)),
            None => None,
        },
    );
    assert(languages.take(0) =~= Seq::empty());
    assert(texts(args@) =~= ahead + language_arguments(languages.take(0)));
    let mut first: usize = 0;
    let mut shift: u128 = 0;
    if let Some(dual) = dual_mono {
        proof {
            one_more_language(languages, 0);
            one_more_language(languages, 1);
        }
        push_language(args, 0, &dual.main);
        assert(texts(args@) =~= ahead + language_arguments(languages.take(1)));
        push_language(args, 1, &dual.sub);
        assert(texts(args@) =~= ahead + language_arguments(languages.take(2)));
        if audio.len() > 0 {
            first = 1;
            shift = 1;
        } else {
            shift = 2;
        }
    }
    for index in first..audio.len()
        invariant
            first <= audio@.len(),
            shift <= 2,
            languages.len() == audio@.len() + shift,
            forall|k: int|
                first <= k < audio@.len() ==> languages[k + shift] == text_of(
                    (#[trigger] audio@[k]).language,
                ),
            audio@.len() == 0 || shift <= 1,
            texts(args@) == ahead + language_arguments(languages.take(index + shift)),
    {
        let ghost before = texts(args@);
        proof {
            one_more_language(languages, index + shift);
            assert(languages[index + shift] == text_of(audio@[index as int].language));
        }
        push_language(args, index as u128 + shift, &audio[index].language);
        assert(texts(args@) =~= ahead + language_arguments(languages.take(index + 1 + shift)));
    }
    assert(languages.take(languages.len() as int) =~= languages);
}

fn push_output(args: &mut Vec<String>, container: Container, output: &str)
    ensures
        texts(final(args)@) == texts(old(args)@) + output_arguments(container, output@),
{
    if let Container::Mp4 = container {
        push_copy(args, "-movflags");
        push_copy(args, "+faststart");
    }
    push_copy(args, "-f");
    push_copy(args, container.muxer());
    let progress = progress_args();
    push_copy(args, progress[0]);
    push_copy(args, progress[1]);
    push_copy(args, progress[2]);
    push_copy(args, output);
    assert(texts(args@) =~= texts(old(args)@) + output_arguments(container, output@));
}

/// Assemble the ffmpeg invocation.
#[must_use]
pub fn build_command(
    ffmpeg: &Ffmpeg,
    request: &EncodeRequest<'_>,
    chapters: Option<&str>,
) -> (args: Vec<String>)
    ensures
        texts(args@) == encode_arguments(
            request.input@,
            request.output@,
            request.profile@,
            *request.probe,
            request.keep@,
            match chapters {
                Some(path) => Some(path@),
                None => None,
            },
            request.languages(),
        ),
{
    let interlaced = match &request.probe.video {
        Some(video) => video.interlaced,
        None => false,
    };
    let plan = request.audio_plan();
    let tracks: u128 = request.audio_tracks();
    let graph = filter_graph(request, interlaced);
    let mut args: Vec<String> = Vec::new();
    push_inputs(&mut args, ffmpeg, request, chapters);
    let ghost inputs = texts(args@);
    push_copy(&mut args, "-filter_complex");
    push_copy(&mut args, graph.as_str());
    push_copy(&mut args, "-map");
    push_copy(&mut args, "[v]");
    assert(texts(args@) =~= inputs + seq!["-filter_complex"@, graph@, "-map"@, "[v]"@]);
    push_maps(&mut args, plan, tracks);
    push_codecs(&mut args, request.profile, plan, request.dual_mono.is_some());
    push_languages(&mut args, &request.probe.audio, request.dual_mono);
    push_output(&mut args, request.profile.container, request.output);
    args
}

/// A file to be written before ffmpeg is run.
#[derive(Debug, Clone, PartialEq, Eq)]
pub struct ChapterFile {
    /// Where to write it.
    pub path: String,
    /// What to write.
    pub text: String,
}

/// The chapter metadata to write beside the output; none where there are no
/// chapters.
#[must_use]
pub fn chapter_file(request: &EncodeRequest<'_>) -> (file: Option<ChapterFile>)
    ensures
        match file {
            Some(file) => request.chapters@.len() > 0 && file.path@ == with_other_extension(
                request.output@,
                "asaborake-chapters.txt"@,
            ) && file.text@ == metadata_of(chapter_views(request.chapters@)),
            None => request.chapters@.len() == 0,
        },
{
    if request.chapters.len() == 0 {
        return None;
    }
    Some(
        ChapterFile {
            path: with_extension(request.output, "asaborake-chapters.txt"),
            text: ffmetadata(request.chapters),
        },
    )
}

/// One encode, ready to run.
#[derive(Debug)]
pub struct EncodeJob {
    /// The chapter metadata, to be written first.
    pub chapters: Option<ChapterFile>,
    /// What to tell ffmpeg.
    pub args: Vec<String>,
    /// How long the output will be, in microseconds.
    pub total: i64,
}

/// Prepare the encode of one output file.
///
/// A profile that needs an encoder this ffmpeg does not have is refused.
pub fn encode(ffmpeg: &Ffmpeg, request: &EncodeRequest<'_>) -> (result: Result<EncodeJob, Error>)
    requires
        summable(request.keep@),
    ensures
        match result {
            Ok(job) => {
                &&& ffmpeg.spec_encoders().contains(request.profile@.video_encoder)
                &&& ffmpeg.spec_encoders().contains(request.profile@.audio_encoder)
                &&& job.chapters is Some <==> request.chapters@.len() > 0
                &&& job.chapters matches Some(file) ==> file.path@ == with_other_extension(
                    request.output@,
                    "asaborake-chapters.txt"@,
                ) && file.text@ == metadata_of(chapter_views(request.chapters@))
                &&& texts(job.args@) == encode_arguments(
                    request.input@,
                    request.output@,
                    request.profile@,
                    *request.probe,
                    request.keep@,
                    match job.chapters {
                        Some(file) => Some(file.path@),
                        None => None,
                    },
                    request.languages(),
                )
                &&& job.total == kept_length(request.keep@)
            },
            Err(error) => {
                &&& !ffmpeg.spec_encoders().contains(request.profile@.video_encoder)
                    || !ffmpeg.spec_encoders().contains(request.profile@.audio_encoder)
                &&& error matches Error::UnsupportedProfile { profile, encoder }
                    && profile@ == request.profile@.name && encoder@
                    == request.profile@.video_encoder
            },
        },
{
    if !request.profile.is_supported_by(ffmpeg) {
        return Err(
            Error::UnsupportedProfile {
                profile: own(request.profile.name.as_str()),
                encoder: own(request.profile.video.encoder.as_str()),
            },
        );
    }
    let chapters = chapter_file(request);
    let args = match &chapters {
        Some(file) => build_command(ffmpeg, request, Some(file.path.as_str())),
        None => build_command(ffmpeg, request, None),
    };
    Ok(EncodeJob { chapters, args, total: request.output_seconds() })
}

/// A share of a whole in millionths, from nothing to all of it.
pub open spec fn share_done(part: int, whole: int) -> int {
    let share = nearest(part * 1_000_000, whole);
    if share < 0 {
        0
    } else if share > 1_000_000 {
        1_000_000
    } else {
        share
    }
}

/// How much of an encode is done, in millionths, once this much of the output
/// has been written. Nothing is said of an output of no length.
#[must_use]
pub fn encoded_share(out_time: i64, total: i64) -> (share: Option<i64>)
    ensures
        match share {
            Some(share) => total > 0 && share == share_done(out_time as int, total as int),
            None => total <= 0,
        },
{
    if total <= 0 {
        return None;
    }
    let share: i128 = nearest_quotient(out_time as i128 * 1_000_000, total as i128);
    Some(
        if share < 0 {
            0
        } else if share > 1_000_000 {
            1_000_000
        } else {
            share as i64
        },
    )
}

/// Every comma has a backslash before it.
pub open spec fn commas_escaped(s: Seq<char>) -> bool {
    forall|i: int| 0 <= i < s.len() && #[trigger] s[i] == ',' ==> i > 0 && s[i - 1] == '\\'
}

proof fn escaping_adds_up(left: Seq<char>, right: Seq<char>)
    requires
        commas_escaped(left),
        commas_escaped(right),
    ensures
        commas_escaped(left + right),
{
    let s = left + right;
    assert forall|i: int| 0 <= i < s.len() && #[trigger] s[i] == ',' implies i > 0 && s[i - 1]
        == '\\' by {
        if i < left.len() {
            assert(left[i] == ',');
        } else {
            assert(right[i - left.len()] == ',');
        }
    }
}

proof fn digits_hold_no_comma(n: nat)
    ensures
        commas_escaped(decimal_digits(n)),
        forall|i: int| 0 <= i < decimal_digits(n).len() ==> #[trigger] decimal_digits(n)[i] != ',',
    decreases n,
{
    if n >= 10 {
        digits_hold_no_comma(n / 10);
        let init = decimal_digits(n / 10);
        assert forall|i: int| 0 <= i < decimal_digits(n).len() implies #[trigger] decimal_digits(
            n,
        )[i] != ',' by {
            if i < init.len() {
                assert(decimal_digits(n)[i] == init[i]);
            }
        }
    }
}

proof fn padding_holds_no_comma(n: nat, width: nat)
    ensures
        commas_escaped(padded_digits(n, width)),
        forall|i: int|
            0 <= i < padded_digits(n, width).len() ==> #[trigger] padded_digits(n, width)[i] != ',',
    decreases width,
{
    if width > 0 {
        padding_holds_no_comma(n / 10, (width - 1) as nat);
        let init = padded_digits(n / 10, (width - 1) as nat);
        assert forall|i: int|
            0 <= i < padded_digits(n, width).len() implies #[trigger] padded_digits(n, width)[i]
            != ',' by {
            if i < init.len() {
                assert(padded_digits(n, width)[i] == init[i]);
            }
        }
    }
}

proof fn moments_hold_no_comma(micros: int)
    ensures
        commas_escaped(signed_three_places(micros)),
{
    let size = (if micros < 0 { -micros } else { micros }) as nat;
    let thousandths = nearest_even(size as int, 1_000) as nat;
    digits_hold_no_comma(thousandths / 1_000);
    padding_holds_no_comma(thousandths % 1_000, 3);
    escaping_adds_up(decimal_digits(thousandths / 1_000), seq!['.']);
    escaping_adds_up(
        decimal_digits(thousandths / 1_000) + seq!['.'],
        padded_digits(thousandths % 1_000, 3),
    );
    escaping_adds_up(seq!['-'], three_places(size));
}

proof fn joining_escapes(parts: Seq<Seq<char>>)
    requires
        forall|i: int| 0 <= i < parts.len() ==> commas_escaped(#[trigger] parts[i]),
    ensures
        commas_escaped(joined(parts, "+"@)),
    decreases parts.len(),
{
    reveal_strlit("+");
    if parts.len() > 1 {
        let shorter = parts.drop_last();
        assert forall|i: int| 0 <= i < shorter.len() implies commas_escaped(
            #[trigger] shorter[i],
        ) by {
            assert(commas_escaped(parts[i]));
        }
        joining_escapes(shorter);
        assert(commas_escaped(parts[parts.len() - 1]));
        escaping_adds_up(joined(shorter, "+"@), "+"@);
        escaping_adds_up(joined(shorter, "+"@) + "+"@, parts.last());
    } else if parts.len() == 1 {
        assert(commas_escaped(parts[0]));
    }
}

/// Every comma inside the selection is escaped, whatever is kept, so the
/// filter is never cut short.
pub proof fn selections_escape_their_commas(keep: Seq<KeepRange>)
    ensures
        commas_escaped(selection(keep)),
{
    let terms = keep.map_values(|range: KeepRange| between(range));
    assert forall|i: int| 0 <= i < terms.len() implies commas_escaped(#[trigger] terms[i]) by {
        reveal_strlit("between(t\\,");
        reveal_strlit("\\,");
        reveal_strlit(")");
        let (start, end) = (
            signed_three_places(keep[i].start as int),
            signed_three_places(keep[i].end as int),
        );
        moments_hold_no_comma(keep[i].start as int);
        moments_hold_no_comma(keep[i].end as int);
        escaping_adds_up("between(t\\,"@, start);
        escaping_adds_up("between(t\\,"@ + start, "\\,"@);
        escaping_adds_up("between(t\\,"@ + start + "\\,"@, end);
        escaping_adds_up("between(t\\,"@ + start + "\\,"@ + end, ")"@);
    }
    joining_escapes(terms);
}

/// A copied stream never enters the filter graph, and audio is only ever
/// copied when nothing is removed and no stream is two programmes in one.
pub proof fn copied_audio_stays_out_of_the_graph(
    profile: ProfileView,
    probe: MediaProbe,
    keep: Seq<KeepRange>,
    interlaced: bool,
    bilingual: bool,
)
    requires
        plan_for_audio(profile, probe, keep, bilingual) == AudioPlan::Copy,
    ensures
        graph_chains(profile, probe, keep, interlaced, bilingual).len() == 1,
        !bilingual,
        !removes_material(keep, probe.duration_seconds),
{
}

/// Every audio stream becomes a track: each has a map of its own, and a chain
/// of its own when it is re-encoded.
pub proof fn every_audio_stream_becomes_a_track(
    profile: ProfileView,
    probe: MediaProbe,
    keep: Seq<KeepRange>,
    interlaced: bool,
    bilingual: bool,
    plan: AudioPlan,
    count: nat,
    i: int,
)
    requires
        0 <= i < count,
    ensures
        track_maps(plan, count).len() == 2 * count,
        track_maps(plan, count)[2 * i + 1] == track_source(plan, i as nat),
        plan_for_audio(profile, probe, keep, bilingual) == AudioPlan::Reencode ==> graph_chains(
            profile,
            probe,
            keep,
            interlaced,
            bilingual,
        ).len() == 1 + tracks_of(probe, bilingual),
    decreases count,
{
    if i < count - 1 {
        every_audio_stream_becomes_a_track(
            profile,
            probe,
            keep,
            interlaced,
            bilingual,
            plan,
            (count - 1) as nat,
            i,
        );
    } else if count > 1 {
        every_audio_stream_becomes_a_track(
            profile,
            probe,
            keep,
            interlaced,
            bilingual,
            plan,
            (count - 1) as nat,
            0,
        );
    } else {
        assert(track_maps(plan, 0) =~= Seq::empty());
    }
}

/// Selection runs after deinterlacing and before everything else, on a
/// timeline rebuilt from the frame index, and what survives is renumbered
/// last.
pub proof fn selection_runs_between_deinterlacing_and_scaling(
    profile: ProfileView,
    keep: Seq<KeepRange>,
    interlaced: bool,
)
    ensures
        ({
            let chain = video_chain(profile, keep, true, interlaced);
            let at: int = if interlaced && profile.deinterlace is Some { 1 } else { 0 };
            &&& chain.len() == profile.filters_for(interlaced).len() + 3
            &&& at == 1 ==> chain[0] == profile.deinterlace->Some_0
            &&& chain[at] == "setpts=N/FRAME_RATE/TB"@
            &&& chain[at + 1] == "select='"@ + selection(keep) + "'"@
            &&& chain.last() == "setpts=N/FRAME_RATE/TB"@
            &&& chain.subrange(at + 2, chain.len() - 1) == profile.filters_for(interlaced).skip(at)
        }),
{
    let chain = video_chain(profile, keep, true, interlaced);
    let filters = profile.filters_for(interlaced);
    let at: int = if interlaced && profile.deinterlace is Some { 1 } else { 0 };
    assert(filters.take(at).len() == at);
    assert(chain.subrange(at + 2, chain.len() - 1) =~= filters.skip(at));
}

} // verus!
