//! What holds of what an encode writes.

use vstd::prelude::*;
use vstd::string::*;
use crate::arith::nearest_is_monotonic;
use crate::arith::nearest_of_multiple;
use crate::cmcut::plan::KeepRange;
use crate::engine::encode::audio_chain;
use crate::engine::encode::between;
use crate::engine::encode::channel_filter;
use crate::engine::encode::codec_arguments;
use crate::engine::encode::encode_arguments;
use crate::engine::encode::every_audio_stream_becomes_a_track;
use crate::engine::encode::graph_chains;
use crate::engine::encode::language_arguments;
use crate::engine::encode::plan_for_audio;
use crate::engine::encode::removes_material;
use crate::engine::encode::selection;
use crate::engine::encode::selection_runs_between_deinterlacing_and_scaling;
use crate::engine::encode::share_done;
use crate::engine::encode::stream_of;
use crate::engine::encode::track_chain;
use crate::engine::encode::track_languages;
use crate::engine::encode::track_maps;
use crate::engine::encode::tracks_of;
use crate::engine::encode::video_chain;
use crate::engine::encode::AudioPlan;
use crate::engine::encode::Languages;
use crate::engine::profile::ProfileView;
use crate::media::probe::AudioStream;
use crate::media::probe::MediaProbe;
use crate::text::decimal_digits;
use crate::text::joined;
use crate::text::occurs_at;
use crate::text::occurs_in;
use crate::text::signed_three_places;
use crate::text::text_of;

verus! {

/// What is not cut is kept whole: where ranges are kept and nothing is removed,
/// there is one range, it begins within ten milliseconds of the beginning of the
/// source, and where the length of the source is known it ends within ten
/// milliseconds of its end.
pub proof fn uncut_recordings_are_whole(keep: Seq<KeepRange>, source: Option<i64>)
    requires
        keep.len() > 0,
        !removes_material(keep, source),
    ensures
        keep.len() == 1,
        keep[0].start <= 10_000,
        source matches Some(length) ==> length > 0 ==> length - keep[0].end <= 10_000,
{
}

/// What leaves something out is cut: a late beginning, an early end, or a gap
/// between two ranges, each on its own.
pub proof fn leaving_something_out_is_cutting(keep: Seq<KeepRange>, source: Option<i64>)
    ensures
        keep.len() > 1 ==> removes_material(keep, source),
        keep.len() > 0 && keep[0].start > 10_000 ==> removes_material(keep, source),
        keep.len() > 0 && source is Some && source->Some_0 > 0 && source->Some_0 - keep.last().end
            > 10_000 ==> removes_material(keep, source),
{
}

/// Nothing is cut without a reason: not where nothing was chosen, nor where one
/// range runs from the beginning to the end, nor where it runs to an end that is
/// not known.
pub proof fn whole_recordings_are_not_cut(keep: Seq<KeepRange>, source: Option<i64>)
    requires
        keep.len() == 0 || (keep.len() == 1 && keep[0].start <= 10_000 && (source is None
            || source->Some_0 <= 0 || keep[0].end >= source->Some_0 - 10_000)),
    ensures
        !removes_material(keep, source),
{
}

proof fn parts_occur(head: Seq<char>, part: Seq<char>, tail: Seq<char>, wanted: Seq<char>)
    requires
        occurs_in(part, wanted),
    ensures
        occurs_in(head + part + tail, wanted),
{
    let at = choose|at: int| occurs_at(part, wanted, at);
    let whole = head + part + tail;
    let moved = head.len() + at;
    assert(whole.subrange(moved, moved + wanted.len()) =~= part.subrange(at, at + wanted.len()));
    assert(occurs_at(whole, wanted, moved));
}

proof fn texts_occur_in_themselves(text: Seq<char>)
    ensures
        occurs_in(text, text),
{
    assert(text.subrange(0, text.len() as int) =~= text);
    assert(occurs_at(text, text, 0));
}

proof fn joined_parts_occur(parts: Seq<Seq<char>>, separator: Seq<char>, i: int)
    requires
        0 <= i < parts.len(),
    ensures
        occurs_in(joined(parts, separator), parts[i]),
    decreases parts.len(),
{
    texts_occur_in_themselves(parts[i]);
    if parts.len() > 1 {
        let before = joined(parts.drop_last(), separator);
        if i == parts.len() - 1 {
            parts_occur(before + separator, parts[i], Seq::empty(), parts[i]);
            assert((before + separator) + parts[i] + Seq::<char>::empty() =~= before + separator
                + parts.last());
        } else {
            joined_parts_occur(parts.drop_last(), separator, i);
            parts_occur(Seq::empty(), before, separator + parts.last(), parts[i]);
            assert(Seq::<char>::empty() + before + (separator + parts.last()) =~= before
                + separator + parts.last());
        }
    }
}

/// Every range that is kept is named in the selection.
pub proof fn every_kept_range_is_selected(keep: Seq<KeepRange>, i: int)
    requires
        0 <= i < keep.len(),
    ensures
        occurs_in(selection(keep), between(keep[i])),
{
    let parts = keep.map_values(|range: KeepRange| between(range));
    assert(parts[i] == between(keep[i]));
    joined_parts_occur(parts, "+"@, i);
}

/// Picture and sound are cut alike: where ranges are kept and something is left
/// out, the graph has a chain for the picture and one for every track, and each
/// selects what is kept.
pub proof fn picture_and_sound_are_cut_alike(
    profile: ProfileView,
    probe: MediaProbe,
    keep: Seq<KeepRange>,
    interlaced: bool,
    bilingual: bool,
    i: int,
)
    requires
        keep.len() > 1 || (keep.len() == 1 && (keep[0].start > 10_000
            || (probe.duration_seconds matches Some(length) && length > 0 && length - keep[0].end
            > 10_000))),
        0 <= i <= tracks_of(probe, bilingual),
    ensures
        ({
            let graph = graph_chains(profile, probe, keep, interlaced, bilingual);
            &&& graph.len() == tracks_of(probe, bilingual) + 1
            &&& occurs_in(graph[i], "select='"@ + selection(keep) + "'"@)
        }),
{
    assert(removes_material(keep, probe.duration_seconds));
    if i == 0 {
        pictures_are_cut(profile, keep, interlaced);
    } else {
        sounds_are_cut(keep, (i - 1) as nat, bilingual);
    }
}

proof fn pictures_are_cut(profile: ProfileView, keep: Seq<KeepRange>, interlaced: bool)
    ensures
        occurs_in(
            "[0:v]"@ + joined(video_chain(profile, keep, true, interlaced), ","@) + "[v]"@,
            "select='"@ + selection(keep) + "'"@,
        ),
{
    let wanted = "select='"@ + selection(keep) + "'"@;
    let chain = video_chain(profile, keep, true, interlaced);
    let at: int = if interlaced && profile.deinterlace is Some { 1 } else { 0 };
    selection_runs_between_deinterlacing_and_scaling(profile, keep, interlaced);
    joined_parts_occur(chain, ","@, at + 1);
    parts_occur("[0:v]"@, joined(chain, ","@), "[v]"@, wanted);
}

proof fn sound_selections_are_selections(rest: Seq<char>)
    ensures
        occurs_in("aselect='"@ + rest, "select='"@ + rest),
{
    let wanted = "select='"@ + rest;
    reveal_strlit("select='");
    reveal_strlit("aselect='");
    assert("aselect='"@ =~= seq!['a'] + "select='"@);
    assert(seq!['a'] + "select='"@ + rest =~= seq!['a'] + wanted + Seq::<char>::empty());
    texts_occur_in_themselves(wanted);
    parts_occur(seq!['a'], wanted, Seq::empty(), wanted);
}

proof fn occurring_carries_over(whole: Seq<char>, part: Seq<char>, wanted: Seq<char>)
    requires
        occurs_in(whole, part),
        occurs_in(part, wanted),
    ensures
        occurs_in(whole, wanted),
{
    let outer = choose|at: int| occurs_at(whole, part, at);
    let inner = choose|at: int| occurs_at(part, wanted, at);
    let at = outer + inner;
    assert(whole.subrange(at, at + wanted.len()) =~= part.subrange(inner, inner + wanted.len()));
    assert(occurs_at(whole, wanted, at));
}

proof fn sounds_are_cut(keep: Seq<KeepRange>, index: nat, bilingual: bool)
    ensures
        occurs_in(
            track_chain(joined(audio_chain(keep, true), ","@), index, bilingual),
            "select='"@ + selection(keep) + "'"@,
        ),
{
    let wanted = "select='"@ + selection(keep) + "'"@;
    let chain = audio_chain(keep, true);
    let filters = joined(chain, ","@);
    let cut = "aselect='"@ + selection(keep) + "'"@;
    assert(chain[1] == cut);
    sound_selections_are_selections(selection(keep) + "'"@);
    assert("aselect='"@ + (selection(keep) + "'"@) =~= cut);
    assert("select='"@ + (selection(keep) + "'"@) =~= wanted);
    joined_parts_occur(chain, ","@, 1);
    occurring_carries_over(filters, cut, wanted);
    let before = "[0:a:"@ + decimal_digits(stream_of(index, bilingual)) + "]"@;
    let after = channel_filter(index, bilingual) + "[a"@ + decimal_digits(index) + "]"@;
    parts_occur(before, filters, after, wanted);
    assert(before + filters + after =~= track_chain(filters, index, bilingual));
}

/// Where nothing is left out the frames pass through unselected: the picture
/// gets the filters of the profile, or none, and nothing else.
pub proof fn uncut_pictures_are_only_filtered(
    profile: ProfileView,
    keep: Seq<KeepRange>,
    interlaced: bool,
)
    ensures
        ({
            let chain = video_chain(profile, keep, false, interlaced);
            &&& profile.filters_for(interlaced).len() > 0 ==> chain == profile.filters_for(
                interlaced,
            )
            &&& profile.filters_for(interlaced).len() == 0 ==> chain == seq!["null"@]
        }),
{
}

/// Sound is passed through untouched exactly where it can be: there is some,
/// nothing is cut from it, it is not two languages in one stream, and the
/// container can hold every stream of it as it is.
pub proof fn sound_is_copied_where_it_can_be(
    profile: ProfileView,
    probe: MediaProbe,
    keep: Seq<KeepRange>,
    bilingual: bool,
)
    ensures
        plan_for_audio(profile, probe, keep, bilingual) == AudioPlan::Copy <==> (
        probe.audio@.len() > 0 && !bilingual && !removes_material(keep, probe.duration_seconds)
            && forall|i: int|
            0 <= i < probe.audio@.len() ==> profile.container.carries(
                (#[trigger] probe.audio@[i])@.codec,
            )),
{
}

/// Every stream of sound ends up in a track, in the order of the source. A
/// stream of two languages becomes the first two tracks, one for each of its
/// channels, and every other stream keeps its own channels.
pub proof fn every_stream_is_heard(probe: MediaProbe, bilingual: bool, stream: nat)
    requires
        stream < probe.audio@.len(),
    ensures
        tracks_of(probe, bilingual) == probe.audio@.len() + (if bilingual { 1nat } else { 0 }),
        !bilingual ==> stream_of(stream, bilingual) == stream && channel_filter(stream, bilingual)
            == Seq::<char>::empty(),
        bilingual ==> stream_of(0, true) == 0 && stream_of(1, true) == 0 && channel_filter(0, true)
            == ",pan=mono|c0=c0"@ && channel_filter(1, true) == ",pan=mono|c0=c1"@,
        bilingual && stream > 0 ==> stream_of((stream + 1) as nat, true) == stream
            && channel_filter((stream + 1) as nat, true) == Seq::<char>::empty(),
        stream_of(stream, bilingual) < probe.audio@.len(),
{
    reveal_strlit("");
    reveal_strlit(",pan=mono|c0=c");
    reveal_strlit(",pan=mono|c0=c0");
    reveal_strlit(",pan=mono|c0=c1");
    assert(""@ =~= Seq::<char>::empty());
    assert(decimal_digits(0) =~= seq!['0']);
    assert(decimal_digits(1) =~= seq!['1']);
    assert(",pan=mono|c0=c"@ + decimal_digits(0) =~= ",pan=mono|c0=c0"@);
    assert(",pan=mono|c0=c"@ + decimal_digits(1) =~= ",pan=mono|c0=c1"@);
}

/// Every track is labelled with the language of the stream that it comes from;
/// the two languages of one stream label the first two tracks, the main one
/// first.
pub proof fn tracks_keep_their_language(audio: Seq<AudioStream>, languages: Languages, track: int)
    requires
        0 <= track < track_languages(audio, languages).len(),
    ensures
        ({
            let labels = track_languages(audio, languages);
            match languages {
                None => labels.len() == audio.len() && labels[track] == text_of(
                    audio[track].language,
                ),
                Some((main, sub)) => {
                    &&& labels[0] == main && labels[1] == sub
                    &&& audio.len() > 0 ==> labels.len() == audio.len() + 1
                    &&& track >= 2 ==> labels[track] == text_of(
                        audio[stream_of(track as nat, true) as int].language,
                    )
                },
            }
        }),
{
}

/// What stands side by side in a command.
pub open spec fn side_by_side(args: Seq<Seq<char>>, option: Seq<char>, value: Seq<char>) -> bool {
    exists|k: int|
        0 <= k < args.len() - 1 && #[trigger] args[k] == option && args[k + 1] == value
}

/// Every language that is known is written, beside the number of its track, and
/// where none is known nothing is.
pub proof fn known_languages_are_written(languages: Seq<Option<Seq<char>>>, track: int)
    requires
        0 <= track < languages.len(),
    ensures
        languages[track] matches Some(language) ==> side_by_side(
            language_arguments(languages),
            "-metadata:s:a:"@ + decimal_digits(track as nat),
            "language="@ + language,
        ),
        (forall|i: int| 0 <= i < languages.len() ==> (#[trigger] languages[i]) is None)
            ==> language_arguments(languages).len() == 0,
    decreases languages.len(),
{
    let before = language_arguments(languages.drop_last());
    let args = language_arguments(languages);
    if languages.len() > 1 {
        known_languages_are_written(languages.drop_last(), 0);
        if forall|i: int| 0 <= i < languages.len() ==> (#[trigger] languages[i]) is None {
            assert forall|i: int| 0 <= i < languages.drop_last().len() implies (
            #[trigger] languages.drop_last()[i]) is None by {
                assert(languages[i] is None);
            }
            assert(languages[languages.len() - 1] is None);
        }
    } else {
        assert(languages.drop_last().len() == 0);
        assert(before.len() == 0);
        assert(languages.last() == languages[0]);
    }
    if let Some(language) = languages[track] {
        if track == languages.len() - 1 {
            assert(args[before.len() as int] == "-metadata:s:a:"@ + decimal_digits(track as nat));
            assert(args[before.len() as int + 1] == "language="@ + language);
        } else {
            known_languages_are_written(languages.drop_last(), track);
            let k = choose|k: int|
                0 <= k < before.len() - 1 && #[trigger] before[k] == "-metadata:s:a:"@
                    + decimal_digits(track as nat) && before[k + 1] == "language="@ + language;
            assert(args[k] == before[k]);
            assert(args[k + 1] == before[k + 1]);
        }
    }
}

/// The command reads the input and nothing after it but the chapters, encodes
/// the picture with the encoder of the profile, and writes the output last.
pub proof fn commands_read_the_input_and_write_the_output(
    input: Seq<char>,
    output: Seq<char>,
    profile: ProfileView,
    probe: MediaProbe,
    keep: Seq<KeepRange>,
    chapters: Option<Seq<char>>,
    languages: Languages,
)
    ensures
        ({
            let args = encode_arguments(input, output, profile, probe, keep, chapters, languages);
            &&& args.last() == output
            &&& side_by_side(args, "-i"@, input)
            &&& chapters matches Some(path) ==> side_by_side(args, "-i"@, path) && side_by_side(
                args,
                "-map_metadata"@,
                "1"@,
            )
            &&& probe.dual_mono() ==> side_by_side(
                args,
                "-dual_mono_mode"@,
                profile.dual_mono_mode,
            )
            &&& side_by_side(
                args,
                "-filter_complex"@,
                joined(
                    graph_chains(
                        profile,
                        probe,
                        keep,
                        probe.video matches Some(video) && video.interlaced,
                        languages is Some,
                    ),
                    ";"@,
                ),
            )
            &&& side_by_side(args, "-map"@, "[v]"@)
            &&& side_by_side(args, "-c:v"@, profile.video_encoder)
            &&& side_by_side(
                args,
                "-c:a"@,
                match plan_for_audio(profile, probe, keep, languages is Some) {
                    AudioPlan::Copy => "copy"@,
                    AudioPlan::Reencode => profile.audio_encoder,
                },
            )
            &&& side_by_side(args, "-f"@, profile.container.spec_muxer())
        }),
{
    let args = encode_arguments(input, output, profile, probe, keep, chapters, languages);
    let plan = plan_for_audio(profile, probe, keep, languages is Some);
    let dual: int = if probe.dual_mono() { 2 } else { 0 };
    let given: int = if chapters is Some { 4 } else { 0 };
    if probe.dual_mono() {
        assert(args[5] == "-dual_mono_mode"@ && args[6] == profile.dual_mono_mode);
    }
    assert(args[7 + dual] == "-i"@ && args[8 + dual] == input);
    if let Some(path) = chapters {
        assert(args[9 + dual] == "-i"@ && args[10 + dual] == path);
        assert(args[11 + dual] == "-map_metadata"@ && args[12 + dual] == "1"@);
    }
    let at = 9 + dual + given;
    assert(args[at] == "-filter_complex"@);
    assert(args[at + 2] == "-map"@ && args[at + 3] == "[v]"@);
    let count = tracks_of(probe, languages is Some);
    every_audio_stream_becomes_a_track(
        profile,
        probe,
        keep,
        false,
        languages is Some,
        plan,
        count,
        0,
    );
    let codec = at + 4 + 2 * count;
    assert(args[codec] == "-c:v"@ && args[codec + 1] == profile.video_encoder);
    let sound = codec + 2 + profile.video_args.len();
    assert(args[sound] == "-c:a"@);
    assert(args[sound + 1] == match plan {
        AudioPlan::Copy => "copy"@,
        AudioPlan::Reencode => profile.audio_encoder,
    });
    assert(args[args.len() - 6] == "-f"@);
    assert(args[args.len() - 5] == profile.container.spec_muxer());
}

/// Progress starts at nothing, ends at the whole, and never runs backwards.
pub proof fn encoding_progress_rises(early: int, late: int, whole: int)
    requires
        whole > 0,
        early <= late,
    ensures
        0 <= share_done(early, whole) <= share_done(late, whole) <= 1_000_000,
        share_done(0, whole) == 0,
        share_done(whole, whole) == 1_000_000,
        2 * early == whole ==> share_done(early, whole) == 500_000,
{
    nearest_is_monotonic(early * 1_000_000, late * 1_000_000, whole);
    nearest_of_multiple(0, whole);
    nearest_of_multiple(1_000_000, whole);
    assert(1_000_000 * whole == whole * 1_000_000);
    if 2 * early == whole {
        nearest_of_multiple(500_000, whole);
        assert(500_000 * whole == early * 1_000_000);
    }
}

/// Sound that is encoded anew has the channels and the rate that the profile
/// asks for; but each of the two programmes of a bilingual stream has one
/// channel.
pub proof fn encoded_sound_is_as_the_profile_asks(profile: ProfileView, bilingual: bool)
    ensures
        ({
            let args = codec_arguments(profile, AudioPlan::Reencode, bilingual);
            let (v, a) = (profile.video_args.len() as int, profile.audio_args.len() as int);
            &&& side_by_side(args, "-ac"@, decimal_digits(profile.channels as nat))
            &&& side_by_side(args, "-ar"@, decimal_digits(profile.sample_rate as nat))
            &&& bilingual ==> side_by_side(args, "-ac:a:0"@, "1"@) && side_by_side(
                args,
                "-ac:a:1"@,
                "1"@,
            )
            &&& args.subrange(2, 2 + v) == profile.video_args
            &&& args.subrange(4 + v, 4 + v + a) == profile.audio_args
            &&& !bilingual ==> args.len() == 8 + v + a
        }),
{
    let args = codec_arguments(profile, AudioPlan::Reencode, bilingual);
    let (v, a) = (profile.video_args.len() as int, profile.audio_args.len() as int);
    assert(args[4 + v + a] == "-ac"@);
    assert(args[4 + v + a + 1] == decimal_digits(profile.channels as nat));
    assert(args[6 + v + a] == "-ar"@);
    assert(args[6 + v + a + 1] == decimal_digits(profile.sample_rate as nat));
    if bilingual {
        assert(args[8 + v + a] == "-ac:a:0"@ && args[8 + v + a + 1] == "1"@);
        assert(args[10 + v + a] == "-ac:a:1"@ && args[10 + v + a + 1] == "1"@);
    }
    assert(args.subrange(2, 2 + v) =~= profile.video_args);
    assert(args.subrange(4 + v, 4 + v + a) =~= profile.audio_args);
}

/// A copied track is taken from the source by its number and an encoded one from
/// the graph, in order, and there is one for each.
pub proof fn tracks_are_taken_in_order(count: nat, i: int)
    requires
        0 <= i < count,
    ensures
        track_maps(AudioPlan::Copy, count)[2 * i] == "-map"@,
        track_maps(AudioPlan::Reencode, count)[2 * i] == "-map"@,
        track_maps(AudioPlan::Copy, count)[2 * i + 1] == "0:a:"@ + decimal_digits(i as nat) + "?"@,
        track_maps(AudioPlan::Reencode, count)[2 * i + 1] == "[a"@ + decimal_digits(i as nat)
            + "]"@,
        track_maps(AudioPlan::Copy, count).len() == 2 * count,
        track_maps(AudioPlan::Reencode, count).len() == 2 * count,
    decreases count,
{
    let less = (count - 1) as nat;
    if i < count - 1 {
        tracks_are_taken_in_order(less, i);
    } else if less > 0 {
        tracks_are_taken_in_order(less, 0);
    } else {
        assert(track_maps(AudioPlan::Copy, 0).len() == 0);
        assert(track_maps(AudioPlan::Reencode, 0).len() == 0);
    }
}

/// A range is selected from its beginning to its end, in that order.
pub proof fn ranges_are_selected_from_start_to_end(range: KeepRange)
    ensures
        ({
            let start = signed_three_places(range.start as int);
            let end = signed_three_places(range.end as int);
            let head = "between(t\\,"@.len() as int;
            let comma = "\\,"@.len() as int;
            &&& occurs_at(between(range), start, head)
            &&& occurs_at(between(range), end, head + start.len() + comma)
        }),
{
    let start = signed_three_places(range.start as int);
    let end = signed_three_places(range.end as int);
    let head = "between(t\\,"@.len() as int;
    let comma = "\\,"@.len() as int;
    let whole = between(range);
    assert(whole.subrange(head, head + start.len()) =~= start);
    let at = head + start.len() + comma;
    assert(whole.subrange(at, at + end.len()) =~= end);
}

} // verus!
