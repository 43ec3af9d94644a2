//! What holds of what a recording is found to be, and of what its output is
//! called.

use vstd::prelude::*;
use vstd::string::*;
use crate::analyze::logo::abl::read_logo;
use crate::analyze::logo::model::LogoData;
use crate::analyze::logo::model::LogoError;
use crate::analyze::logo::model::LogoView;
use crate::analyze::logo::track::LogoInterval;
use crate::analyze::share_in_range;
use crate::analyze::total_presence;
use crate::arith::nearest_is_monotonic;
use crate::arith::nearest_of_multiple;
use crate::engine::diagnostics::audio_texts;
use crate::engine::diagnostics::bilingual_in;
use crate::engine::diagnostics::exceeds;
use crate::engine::diagnostics::hex_digit;
use crate::engine::diagnostics::hex_digits;
use crate::engine::diagnostics::size_changes;
use crate::engine::diagnostics::stream_text;
use crate::engine::diagnostics::Diagnostics;
use crate::engine::naming::cleaned;
use crate::engine::naming::collapsed;
use crate::engine::naming::date_of;
use crate::engine::naming::filled;
use crate::engine::naming::is_forbidden;
use crate::engine::naming::is_separator;
use crate::engine::naming::sanitised;
use crate::engine::naming::substituted;
use crate::engine::naming::time_of;
use crate::engine::naming::without_tail;
use crate::engine::naming::Fields;
use crate::engine::naming::RecordedAt;
use crate::engine::percent_of;
use crate::engine::profile::overridden;
use crate::engine::profile::safe_name;
use crate::engine::profile::Container;
use crate::engine::profile::ProfileView;
use crate::engine::store::accept_stored;
use crate::engine::store::safe_id;
use crate::text::decimal_digits;
use crate::text::digit_char;
use crate::text::first_at;
use crate::text::first_at_is_first;
use crate::text::is_alphanumeric;
use crate::text::is_space;
use crate::text::min_digits;
use crate::text::number_of;
use crate::text::stripped_start;
use crate::text::text_of;
use crate::text::trimmed_end;
use crate::text::trimmed_start;
use crate::ts::FormatChange;
use crate::ts::StreamInfo;
use crate::ts::StreamKind;
use crate::ts::VideoFormat;

verus! {

/// A share is told by what it is a share of: more of the same is never less, and
/// a recording is past saving when more than three tenths of it are scrambled,
/// not before.
pub proof fn damage_is_a_share(diagnostics: Diagnostics, part: u64, more: u64, total: u64, limit: int)
    requires
        part <= more,
        total > 0,
    ensures
        exceeds(part, total, limit) ==> exceeds(more, total, limit),
        exceeds(part, total, limit) <==> part * 1_000 > limit * total,
        diagnostics.total_packets > 0 ==> (diagnostics.hopeless() <==> 10
            * diagnostics.scrambled_packets > 3 * diagnostics.total_packets),
        diagnostics.scrambled_packets == 0 ==> !diagnostics.hopeless(),
{
}

/// A percentage is whole, and no higher than the share.
pub proof fn percentages_are_rounded_down(part: u64, total: u64)
    requires
        0 < total,
        part <= total,
        part * 100 <= u64::MAX,
    ensures
        percent_of(part, total) * total <= part * 100 < (percent_of(part, total) + 1) * total,
        percent_of(total, total) == 100 || total * 100 > u64::MAX,
        percent_of(0, total) == 0,
{
    let (top, bottom) = (part * 100, total as int);
    vstd::arithmetic::div_mod::lemma_fundamental_div_mod(top, bottom);
    vstd::arithmetic::div_mod::lemma_mod_bound(top, bottom);
    vstd::arithmetic::div_mod::lemma_div_multiples_vanish(100, bottom);
    assert(bottom * 100 == total * 100);
    let whole = top / bottom;
    assert(bottom * whole == whole * bottom && (whole + 1) * bottom == whole * bottom + bottom)
        by (nonlinear_arith);
    vstd::arithmetic::div_mod::lemma_div_is_ordered(0, top, bottom);
    assert(0int / bottom == 0) by (nonlinear_arith)
        requires
            bottom > 0,
    ;
}

/// The picture before a change.
pub open spec fn picture_before(
    first: Option<VideoFormat>,
    changes: Seq<FormatChange>,
    i: int,
) -> Option<VideoFormat> {
    if i == 0 {
        first
    } else {
        Some(changes[i - 1].format)
    }
}

/// A change to a picture of another width or another height is one to split at.
pub proof fn other_sizes_split(first: Option<VideoFormat>, changes: Seq<FormatChange>, i: int)
    requires
        0 <= i < changes.len(),
        picture_before(first, changes, i) matches Some(before) && (before.width
            != changes[i].format.width || before.height != changes[i].format.height),
    ensures
        size_changes(first, changes).contains(changes[i]),
    decreases changes.len(),
{
    let before = changes.drop_last();
    let rest = size_changes(first, before);
    let all = size_changes(first, changes);
    if i < changes.len() - 1 {
        assert(before[i] == changes[i]);
        assert(picture_before(first, before, i) == picture_before(first, changes, i));
        other_sizes_split(first, before, i);
        let k = rest.index_of(changes[i]);
        assert(all[k] == changes[i]);
    } else {
        assert(all[all.len() - 1] == changes[i]);
    }
}

/// No other change is: where the picture keeps its size throughout, however else
/// it changes, there is nothing to split at.
pub proof fn the_same_size_does_not_split(
    first: Option<VideoFormat>,
    changes: Seq<FormatChange>,
    k: int,
) -> (i: int)
    requires
        0 <= k < size_changes(first, changes).len(),
    ensures
        0 <= i < changes.len(),
        size_changes(first, changes)[k] == changes[i],
        picture_before(first, changes, i) matches Some(before) && (before.width
            != changes[i].format.width || before.height != changes[i].format.height),
    decreases changes.len(),
{
    let before = changes.drop_last();
    let rest = size_changes(first, before);
    if k < rest.len() {
        let i = the_same_size_does_not_split(first, before, k);
        assert(before[i] == changes[i]);
        assert(picture_before(first, before, i) == picture_before(first, changes, i));
        i
    } else {
        changes.len() - 1
    }
}

/// Every stream of sound is told of, and nothing that is none.
pub proof fn every_sound_is_told_of(streams: Seq<StreamInfo>, next: StreamInfo)
    ensures
        audio_texts(Seq::empty()).len() == 0,
        next.kind == StreamKind::AacAudio ==> audio_texts(streams.push(next)) == audio_texts(
            streams,
        ).push(stream_text(next)),
        next.kind != StreamKind::AacAudio ==> audio_texts(streams.push(next)) == audio_texts(
            streams,
        ),
{
    assert(streams.push(next).drop_last() =~= streams);
}

/// The languages are those of the first stream of sound that is two programmes
/// in one; where there is none there are none.
pub proof fn the_first_bilingual_stream_counts(streams: Seq<StreamInfo>, at: int)
    requires
        forall|i: int|
            0 <= i < at && i < streams.len() ==> !((#[trigger] streams[i]).kind
                == StreamKind::AacAudio && streams[i].audio is Some && (
            streams[i].audio->Some_0).component_type == 2),
        0 <= at <= streams.len(),
        at < streams.len() ==> streams[at].kind == StreamKind::AacAudio && streams[at].audio is Some
            && (streams[at].audio->Some_0).component_type == 2,
    ensures
        at == streams.len() ==> bilingual_in(streams) is None,
        at < streams.len() ==> bilingual_in(streams) == Some(
            (
                text_of((streams[at].audio->Some_0).language),
                text_of((streams[at].audio->Some_0).second_language),
            ),
        ),
    decreases streams.len(),
{
    if at > 0 {
        let rest = streams.skip(1);
        assert(streams[0] == streams[0]);
        assert forall|i: int| 0 <= i < at - 1 && i < rest.len() implies !((#[trigger] rest[i]).kind
            == StreamKind::AacAudio && rest[i].audio is Some && (
        rest[i].audio->Some_0).component_type == 2) by {
            assert(rest[i] == streams[i + 1]);
        }
        if at < streams.len() {
            assert(rest[at - 1] == streams[at]);
        }
        the_first_bilingual_stream_counts(rest, at - 1);
    }
}

/// What a hexadecimal digit stands for.
pub open spec fn hex_value(c: char) -> int {
    if '0' <= c <= '9' {
        c as int - '0' as int
    } else {
        c as int - 'a' as int + 10
    }
}

/// What hexadecimal digits stand for together.
pub open spec fn hex_number(s: Seq<char>) -> int
    decreases s.len(),
{
    if s.len() == 0 {
        0
    } else {
        hex_number(s.drop_last()) * 16 + hex_value(s.last())
    }
}

/// A number of two or four hexadecimal digits reads back as itself.
pub proof fn hexadecimal_reads_back(n: nat, width: nat)
    ensures
        hex_digits(n, width).len() == width,
        width == 2 && n < 256 ==> hex_number(hex_digits(n, width)) == n,
        width == 4 && n < 65_536 ==> hex_number(hex_digits(n, width)) == n,
        width == 1 && n < 16 ==> hex_number(hex_digits(n, width)) == n,
        width == 3 && n < 4_096 ==> hex_number(hex_digits(n, width)) == n,
        width == 0 ==> hex_number(hex_digits(n, width)) == 0,
    decreases width,
{
    if width > 0 {
        hexadecimal_reads_back(n / 16, (width - 1) as nat);
        let s = hex_digits(n, width);
        assert(s.drop_last() =~= hex_digits(n / 16, (width - 1) as nat));
        assert(s.last() == hex_digit(n % 16));
        assert(hex_value(hex_digit(n % 16)) == n % 16);
    }
}

/// Each field fills in what is known of the recording under its own name, and
/// any other name fills in nothing.
pub proof fn fields_fill_in_under_their_name(fields: Fields, key: Seq<char>)
    ensures
        fields.value_of("title"@) == text_of(fields.title),
        fields.value_of("channel"@) == text_of(fields.channel),
        fields.value_of("source"@) == text_of(fields.source),
        fields.recorded_at matches Some(at) ==> {
            &&& fields.value_of("date"@) == Some(date_of(at))
            &&& fields.value_of("time"@) == Some(time_of(at))
            &&& fields.value_of("year"@) == Some(min_digits(at.year as nat, 4))
            &&& fields.value_of("month"@) == Some(min_digits(at.month as nat, 2))
        },
        key != "title"@ && key != "channel"@ && key != "source"@ && key != "date"@ && key
            != "time"@ && key != "year"@ && key != "month"@ ==> fields.value_of(key) is None,
        fields.recorded_at is None && key != "title"@ && key != "channel"@ && key != "source"@
            ==> fields.value_of(key) is None,
{
    reveal_strlit("title");
    reveal_strlit("channel");
    reveal_strlit("source");
    reveal_strlit("date");
    reveal_strlit("time");
    reveal_strlit("year");
    reveal_strlit("month");
    assert("title"@[0] == 't' && "title"@.len() == 5);
    assert("channel"@[0] == 'c');
    assert("source"@[0] == 's');
    assert("date"@[0] == 'd');
    assert("time"@[0] == 't' && "time"@.len() == 4);
    assert("year"@[0] == 'y');
    assert("month"@[0] == 'm');
}

/// A date is year, month and day, and a time is hour and minute, each with its
/// digits.
pub proof fn dates_are_written_in_order(at: RecordedAt)
    requires
        1_000 <= at.year < 10_000,
        at.month < 100,
        at.day < 100,
        at.hour < 100,
        at.minute < 100,
    ensures
        date_of(at).len() == 10,
        number_of(date_of(at).take(4)) == at.year,
        date_of(at)[4] == '-',
        number_of(date_of(at).subrange(5, 7)) == at.month,
        date_of(at)[7] == '-',
        number_of(date_of(at).skip(8)) == at.day,
        time_of(at).len() == 4,
        number_of(time_of(at).take(2)) == at.hour,
        number_of(time_of(at).skip(2)) == at.minute,
{
    two_digits_wide(at.month as nat);
    two_digits_wide(at.day as nat);
    two_digits_wide(at.hour as nat);
    two_digits_wide(at.minute as nat);
    crate::spelling::widened_numbers_read_back(at.year as nat, 4);
    let year = at.year as nat;
    assert(min_digits(year, 4).len() == 4) by {
        assert(min_digits(year, 4) == min_digits(year / 10, 3).push(digit_char(year % 10)));
        assert(min_digits(year / 10, 3) == min_digits(year / 10 / 10, 2).push(
            digit_char(year / 10 % 10),
        ));
        two_digits_wide(year / 10 / 10);
    }
    let date = date_of(at);
    assert(date.take(4) =~= min_digits(year, 4));
    assert(date.subrange(5, 7) =~= min_digits(at.month as nat, 2));
    assert(date.skip(8) =~= min_digits(at.day as nat, 2));
    assert(time_of(at).take(2) =~= min_digits(at.hour as nat, 2));
    assert(time_of(at).skip(2) =~= min_digits(at.minute as nat, 2));
}

proof fn two_digits_wide(n: nat)
    requires
        n < 100,
    ensures
        min_digits(n, 2).len() == 2,
        number_of(min_digits(n, 2)) == n,
{
    crate::spelling::widened_numbers_read_back(n, 2);
    assert(min_digits(n / 10, 1) == decimal_digits(n / 10));
    assert(decimal_digits(n / 10).len() == 1);
    assert(min_digits(n, 2) == min_digits(n / 10, 1).push(digit_char(n % 10)));
}

/// A template is filled in from left to right: what stands between braces gives
/// way to what it names, and what stands outside them stays.
pub proof fn braces_give_way(
    before: Seq<char>,
    key: Seq<char>,
    after: Seq<char>,
    fields: Fields,
)
    requires
        !before.contains('{'),
        !key.contains('}'),
    ensures
        filled(before, fields) == before,
        filled(before.push('{') + key.push('}') + after, fields) == before + substituted(fields, key)
            + filled(after, fields),
{
    first_at_is_first(before, '{');
    let template = before.push('{') + key.push('}') + after;
    first_at_is_first(template, '{');
    let open = before.len() as int;
    assert(template[open] == '{');
    if first_at(template, '{') < open {
        assert(template[first_at(template, '{')] == before[first_at(template, '{')]);
    }
    assert(first_at(template, '{') == open);
    let rest = template.skip(open);
    first_at_is_first(rest, '}');
    let close = (key.len() + 1) as int;
    assert(rest[close] == '}');
    if first_at(rest, '}') < close {
        let i = first_at(rest, '}');
        if i > 0 {
            assert(rest[i] == key[i - 1]);
        }
    }
    assert(first_at(rest, '}') == close);
    assert(rest.subrange(1, close) =~= key);
    assert(rest.skip(close + 1) =~= after);
    assert(template.take(open) =~= before);
}

/// A value that can be a name as it stands is left alone.
pub proof fn good_names_are_left_alone(value: Seq<char>)
    requires
        value.len() > 0,
        forall|i: int| 0 <= i < value.len() ==> !is_forbidden(#[trigger] value[i]),
        !is_space(value[0]),
        !is_space(value.last()),
        value[0] != '.',
        value.last() != '.',
    ensures
        sanitised(value) == value,
{
    assert(cleaned(value) =~= value);
    assert(trimmed_start(value) == value);
    assert(trimmed_end(value) == value);
    assert(value.last() != ' ') by {
        if value.last() == ' ' {
            assert(is_space(' '));
        }
    }
    assert(without_tail(value) == value);
    assert(stripped_start(value, '.') == value);
}

/// A character that no name may hold gives way to an underscore, and any other
/// stays where it is.
pub proof fn forbidden_characters_give_way(value: Seq<char>, i: int)
    requires
        0 <= i < value.len(),
    ensures
        cleaned(value).len() == value.len(),
        is_forbidden(value[i]) ==> cleaned(value)[i] == '_',
        !is_forbidden(value[i]) ==> cleaned(value)[i] == value[i],
        is_forbidden('/') && is_forbidden('\\') && is_forbidden(':') && is_forbidden('\n'),
        !is_forbidden('_'),
{
}

/// Of separators that follow each other the first is kept: no two are left side
/// by side, everything else is left, and a text without two side by side is left
/// alone.
pub proof fn separators_are_not_doubled(s: Seq<char>, c: char)
    ensures
        forall|i: int|
            0 <= i < collapsed(s).len() - 1 ==> !(is_separator(#[trigger] collapsed(s)[i])
                && is_separator(collapsed(s)[i + 1])),
        s.len() > 0 ==> collapsed(s).len() > 0 && collapsed(s)[0] == s[0] && is_separator(
            collapsed(s).last(),
        ) == is_separator(s.last()),
        s.contains(c) && !is_separator(c) ==> collapsed(s).contains(c),
        (forall|i: int|
            0 <= i < s.len() - 1 ==> !(is_separator(#[trigger] s[i]) && is_separator(s[i + 1])))
            ==> collapsed(s) == s,
    decreases s.len(),
{
    if s.len() > 0 {
        let before = s.drop_last();
        separators_are_not_doubled(before, c);
        let rest = collapsed(before);
        let all = collapsed(s);
        if before.len() > 0 {
            assert(before.last() == s[s.len() - 2]);
            assert(before[0] == s[0]);
        } else {
            assert(rest.len() == 0);
        }
        assert forall|i: int| 0 <= i < all.len() - 1 implies !(is_separator(#[trigger] all[i])
            && is_separator(all[i + 1])) by {
            if i + 1 < rest.len() {
                assert(rest[i] == all[i] && rest[i + 1] == all[i + 1]);
                assert(!(is_separator(rest[i]) && is_separator(rest[i + 1])));
            } else {
                assert(all[i] == rest.last());
            }
        }
        if s.contains(c) && !is_separator(c) {
            let k = s.index_of(c);
            if k < s.len() - 1 {
                assert(before[k] == c);
                let j = rest.index_of(c);
                assert(all[j] == c);
            } else {
                assert(all[all.len() - 1] == c);
            }
        }
        if forall|i: int|
            0 <= i < s.len() - 1 ==> !(is_separator(#[trigger] s[i]) && is_separator(s[i + 1])) {
            assert forall|i: int| 0 <= i < before.len() - 1 implies !(is_separator(
                #[trigger] before[i],
            ) && is_separator(before[i + 1])) by {
                assert(before[i] == s[i] && before[i + 1] == s[i + 1]);
                assert(!(is_separator(s[i]) && is_separator(s[i + 1])));
            }
            if s.len() >= 2 {
                assert(!(is_separator(s[s.len() - 2]) && is_separator(s[s.len() - 2 + 1])));
            }
            assert(all =~= s);
        }
    }
}

/// A picture is deinterlaced first, where it is interlaced and the profile says
/// how, and never otherwise; then made no higher than the profile allows; then
/// put through whatever else the profile asks for, in its order.
pub proof fn filters_run_in_order(profile: ProfileView, interlaced: bool)
    ensures
        ({
            let chain = profile.filters_for(interlaced);
            let first: int = if interlaced && profile.deinterlace is Some { 1 } else { 0 };
            let second: int = if profile.max_height is Some { 1 } else { 0 };
            &&& chain.len() == first + second + profile.extra.len()
            &&& first == 1 ==> Some(chain[0]) == profile.deinterlace
            &&& profile.max_height matches Some(height) ==> chain[first] == "scale=-2:'min("@
                + decimal_digits(height as nat) + ",ih)'"@
            &&& chain.skip(first + second) == profile.extra
        }),
{
    let chain = profile.filters_for(interlaced);
    let first: int = if interlaced && profile.deinterlace is Some { 1 } else { 0 };
    let second: int = if profile.max_height is Some { 1 } else { 0 };
    assert(chain.skip(first + second) =~= profile.extra);
}

/// Matroska takes any sound; MP4 takes the kinds it can hold, and a broadcast's
/// own kind is one of them.
pub proof fn containers_take_what_they_can(codec: Seq<char>)
    ensures
        Container::Mkv.carries(codec),
        Container::Mp4.carries("aac"@),
        Container::Mp4.carries("mp3"@),
        Container::Mp4.carries("ac3"@),
        Container::Mp4.carries("eac3"@),
        codec.len() != 3 && codec.len() != 4 ==> !Container::Mp4.carries(codec),
        codec.len() > 0 && codec[0] != 'a' && codec[0] != 'm' && codec[0] != 'e'
            ==> !Container::Mp4.carries(codec),
{
    reveal_strlit("aac");
    reveal_strlit("mp3");
    reveal_strlit("ac3");
    reveal_strlit("eac3");
}

/// The profile that was stored last under a name is the one that counts.
pub proof fn the_last_profile_stored_counts(
    profiles: Map<Seq<char>, ProfileView>,
    stored: Seq<ProfileView>,
    i: int,
)
    requires
        0 <= i < stored.len(),
        forall|k: int| i < k < stored.len() ==> (#[trigger] stored[k]).name != stored[i].name,
    ensures
        overridden(profiles, stored).contains_key(stored[i].name),
        overridden(profiles, stored)[stored[i].name] == stored[i],
    decreases stored.len(),
{
    let before = stored.drop_last();
    if i < stored.len() - 1 {
        assert(stored[stored.len() - 1].name != stored[i].name);
        assert forall|k: int| i < k < before.len() implies (#[trigger] before[k]).name
            != before[i].name by {
            assert(before[k] == stored[k]);
        }
        the_last_profile_stored_counts(profiles, before, i);
    }
}

/// A share of a recording is none of it, all of it or what lies between: half is
/// half, more is never less, and more than all is all.
pub proof fn shares_lie_between_none_and_all(part: int, more: int, whole: int)
    requires
        whole > 0,
        part <= more,
    ensures
        0 <= share_in_range(part, whole) <= share_in_range(more, whole) <= 1_000_000,
        share_in_range(0, whole) == 0,
        share_in_range(whole, whole) == 1_000_000,
        2 * part == whole ==> share_in_range(part, whole) == 500_000,
        part <= 0 ==> share_in_range(part, whole) == 0,
        more >= whole ==> share_in_range(more, whole) == 1_000_000,
        share_in_range(part, 0) == 0,
{
    nearest_is_monotonic(part * 1_000_000, more * 1_000_000, whole);
    nearest_of_multiple(0, whole);
    nearest_of_multiple(1_000_000, whole);
    assert(0 * whole == 0) by (nonlinear_arith);
    if part > 0 {
        nearest_is_monotonic(0, part * 1_000_000, whole);
    }
    if more > 0 {
        nearest_is_monotonic(0, more * 1_000_000, whole);
    }
    if part < whole {
        nearest_is_monotonic(part * 1_000_000, whole * 1_000_000, whole);
    }
    if more < whole {
        nearest_is_monotonic(more * 1_000_000, whole * 1_000_000, whole);
    }
    if 2 * part == whole {
        nearest_of_multiple(500_000, whole);
        assert(500_000 * whole == part * 1_000_000);
    }
}

/// The logo is present for as long as its intervals last together.
pub proof fn presence_adds_up(intervals: Seq<LogoInterval>, next: LogoInterval)
    ensures
        total_presence(Seq::empty()) == 0,
        total_presence(intervals.push(next)) == total_presence(intervals) + next.end - next.start,
{
    assert(intervals.push(next).drop_last() =~= intervals);
}

/// One as a count where something holds, and nought where it does not.
pub open spec fn one_if(holds: bool) -> nat {
    if holds {
        1
    } else {
        0
    }
}

/// There is one warning for each thing that is wrong, and none for what is not:
/// for scrambling from a thousandth on, for loss from a hundredth on, for any
/// corruption, any change of size, captions, more than one track, and two
/// languages in one stream.
pub proof fn each_trouble_is_warned_of_once(diagnostics: Diagnostics)
    requires
        diagnostics.total_packets > 0,
    ensures
        diagnostics.problems().len() == one_if(
            1_000 * diagnostics.scrambled_packets > diagnostics.total_packets,
        ) + one_if(100 * diagnostics.dropped_packets > diagnostics.total_packets) + one_if(
            diagnostics.error_packets > 0,
        ) + one_if(diagnostics.split_points@.len() > 0) + one_if(diagnostics.has_captions) + one_if(
            diagnostics.audio@.len() > 1,
        ) + one_if(diagnostics.dual_mono is Some),
{
}

/// A profile is stored under its own name as far as a file can have it: letters,
/// digits, dashes and underscores stay, and anything else is an underscore. A
/// channel's name loses its dashes too.
pub proof fn file_names_stay_recognisable(name: Seq<char>, i: int)
    requires
        0 <= i < name.len(),
    ensures
        safe_name(name).len() == name.len(),
        safe_id(name).len() == name.len(),
        is_alphanumeric(name[i]) ==> safe_name(name)[i] == name[i] && safe_id(name)[i] == name[i],
        name[i] == '-' ==> safe_name(name)[i] == '-' && safe_id(name)[i] == '_',
        name[i] == '_' ==> safe_name(name)[i] == '_' && safe_id(name)[i] == '_',
        !is_alphanumeric(name[i]) && name[i] != '-' ==> safe_name(name)[i] == '_' && safe_id(
            name,
        )[i] == '_',
        safe_name(Seq::empty()) == seq!['_'],
{
}

/// A stored logo is used only for pictures of the size that it was learned from.
pub proof fn stored_logos_fit_their_picture(
    bytes: &[u8],
    width: u32,
    height: u32,
    logo: Option<LogoData>,
)
    requires
        call_ensures(accept_stored, (bytes, width, height), logo),
    ensures
        logo matches Some(logo) ==> logo.source_width == width && logo.source_height == height
            && read_logo(bytes@) == Ok::<LogoView, LogoError>(logo@),
        read_logo(bytes@) is Err ==> logo is None,
        read_logo(bytes@) matches Ok(stored) ==> stored.source_width == width
            && stored.source_height == height ==> logo is Some,
{
}

/// Spaces, dashes and underscores separate words in a name, and no letter or
/// digit does.
pub proof fn words_in_names_are_separated(c: char)
    ensures
        is_separator(' ') && is_separator('-') && is_separator('_'),
        is_alphanumeric(c) ==> !is_separator(c),
        c != ' ' && c != '-' && c != '_' ==> !is_separator(c),
{
}

} // verus!
