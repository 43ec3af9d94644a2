//! Naming the output after the programme rather than after the file.
//!
//! A recorder hands over a path it chose. Used verbatim, a year of recordings
//! comes out as a flat directory of whatever the recorder called them, when
//! everything needed to file them properly (the programme's title, its
//! channel, when it was on) is already in hand.

use vstd::prelude::*;
use vstd::string::*;
use crate::paths::below;
use crate::paths::extension;
use crate::paths::extension_of;
use crate::paths::join;
use crate::paths::parent;
use crate::paths::parent_of;
use crate::text::chars_of;
use crate::text::find_char;
use crate::text::first_at;
use crate::text::first_at_is_first;
use crate::text::is_space;
use crate::text::min_digits;
use crate::text::part;
use crate::text::push_min_digits;
use crate::text::same;
use crate::text::string_of;
use crate::text::strip_end;
use crate::text::strip_start;
use crate::text::stripped_end;
use crate::text::stripped_start;
use crate::text::stripping_keeps_a_stretch;
use crate::text::text_of;
use crate::text::trim;
use crate::text::trimmed;
use crate::text::trimmed_end;
use crate::text::trimmed_start;
use crate::text::trimming_keeps_a_stretch;

verus! {

/// When a recording started, on the local clock.
#[derive(Debug, Clone, Copy, PartialEq, Eq, Structural)]
pub struct RecordedAt {
    /// Year.
    pub year: u32,
    /// Month, from 1.
    pub month: u32,
    /// Day of the month, from 1.
    pub day: u32,
    /// Hour of the day.
    pub hour: u32,
    /// Minute of the hour.
    pub minute: u32,
}

/// What a template may refer to.
#[derive(Debug, Clone)]
pub struct Fields {
    /// Programme title.
    pub title: Option<String>,
    /// Channel name.
    pub channel: Option<String>,
    /// When the recording started.
    pub recorded_at: Option<RecordedAt>,
    /// The source file's own stem, as a fallback.
    pub source: Option<String>,
}

impl Default for Fields {
    fn default() -> (fields: Fields)
        ensures
            fields.title is None,
            fields.channel is None,
            fields.recorded_at is None,
            fields.source is None,
    {
        Fields { title: None, channel: None, recorded_at: None, source: None }
    }
}

/// The date of a recording.
pub open spec fn date_of(at: RecordedAt) -> Seq<char> {
    min_digits(at.year as nat, 4) + seq!['-'] + min_digits(at.month as nat, 2) + seq!['-']
        + min_digits(at.day as nat, 2)
}

/// The time of a recording.
pub open spec fn time_of(at: RecordedAt) -> Seq<char> {
    min_digits(at.hour as nat, 2) + min_digits(at.minute as nat, 2)
}

impl Fields {
    /// What a placeholder stands for, if anything.
    pub open spec fn value_of(self, key: Seq<char>) -> Option<Seq<char>> {
        if key == "title"@ {
            text_of(self.title)
        } else if key == "channel"@ {
            text_of(self.channel)
        } else if key == "source"@ {
            text_of(self.source)
        } else {
            match self.recorded_at {
                None => None,
                Some(at) => if key == "date"@ {
                    Some(date_of(at))
                } else if key == "time"@ {
                    Some(time_of(at))
                } else if key == "year"@ {
                    Some(min_digits(at.year as nat, 4))
                } else if key == "month"@ {
                    Some(min_digits(at.month as nat, 2))
                } else {
                    None
                },
            }
        }
    }

    /// The value of one placeholder, if it has one.
    fn get(&self, key: &[char]) -> (value: Option<String>)
        ensures
            text_of(value) == self.value_of(key@),
    {
        if same(key, &chars_of("title")) {
            return self.title.clone();
        }
        if same(key, &chars_of("channel")) {
            return self.channel.clone();
        }
        if same(key, &chars_of("source")) {
            return self.source.clone();
        }
        let at = match self.recorded_at {
            Some(at) => at,
            None => {
                return None;
            },
        };
        let mut text = String::new();
        if same(key, &chars_of("date")) {
            push_min_digits(&mut text, at.year as u64, 4);
            text.push('-');
            push_min_digits(&mut text, at.month as u64, 2);
            text.push('-');
            push_min_digits(&mut text, at.day as u64, 2);
            assert(text@ =~= date_of(at));
        } else if same(key, &chars_of("time")) {
            push_min_digits(&mut text, at.hour as u64, 2);
            push_min_digits(&mut text, at.minute as u64, 2);
            assert(text@ =~= time_of(at));
        } else if same(key, &chars_of("year")) {
            push_min_digits(&mut text, at.year as u64, 4);
            assert(text@ =~= min_digits(at.year as nat, 4));
        } else if same(key, &chars_of("month")) {
            push_min_digits(&mut text, at.month as u64, 2);
            assert(text@ =~= min_digits(at.month as nat, 2));
        } else {
            return None;
        }
        Some(text)
    }
}

/// A character a path component may not contain: slash and the
/// Windows-reserved set, because recordings routinely end up on a share that a
/// Windows machine reads, and anything unprintable.
pub open spec fn is_forbidden(c: char) -> bool {
    ||| c == '/'
    ||| c == '\\'
    ||| c == ':'
    ||| c == '*'
    ||| c == '?'
    ||| c == '"'
    ||| c == '<'
    ||| c == '>'
    ||| c == '|'
    ||| (c as u32) < 0x20
    ||| 0x7f <= (c as u32) <= 0x9f
}

fn forbidden(c: char) -> (yes: bool)
    ensures
        yes == is_forbidden(c),
{
    let n: u32 = c as u32;
    c == '/' || c == '\\' || c == ':' || c == '*' || c == '?' || c == '"' || c == '<' || c == '>'
        || c == '|' || n < 0x20 || (0x7f <= n && n <= 0x9f)
}

/// Every forbidden character replaced by an underscore.
pub open spec fn cleaned(value: Seq<char>) -> Seq<char> {
    value.map_values(|c: char| if is_forbidden(c) { '_' } else { c })
}

/// Without the dots and spaces at the back, in whatever order they stand.
pub open spec fn without_tail(s: Seq<char>) -> Seq<char>
    decreases s.len(),
{
    if s.len() > 0 && (s.last() == '.' || s.last() == ' ') {
        without_tail(s.drop_last())
    } else {
        s
    }
}

/// Take the dots and spaces off the back.
fn strip_tail(chars: &[char]) -> (kept: Vec<char>)
    ensures
        kept@ == without_tail(chars@),
{
    let mut to: usize = chars.len();
    assert(chars@.take(to as int) =~= chars@);
    while to > 0 && (chars[to - 1] == '.' || chars[to - 1] == ' ')
        invariant
            to <= chars@.len(),
            without_tail(chars@) == without_tail(chars@.take(to as int)),
        decreases to,
    {
        assert(chars@.take(to as int).drop_last() =~= chars@.take(to - 1));
        to -= 1;
    }
    let kept = part(chars, 0, to);
    assert(kept@ =~= chars@.take(to as int));
    kept
}

proof fn tail_is_gone(s: Seq<char>)
    ensures
        exists|k: int| 0 <= k <= s.len() && without_tail(s) == #[trigger] s.take(k),
        without_tail(s).len() > 0 ==> without_tail(s).last() != '.' && without_tail(s).last()
            != ' ',
    decreases s.len(),
{
    assert(s.take(s.len() as int) =~= s);
    if s.len() > 0 && (s.last() == '.' || s.last() == ' ') {
        tail_is_gone(s.drop_last());
        let k = choose|k: int|
            0 <= k <= s.drop_last().len() && without_tail(s.drop_last())
                == #[trigger] s.drop_last().take(k);
        assert(s.drop_last().take(k) =~= s.take(k));
    }
}

/// A value made safe to write as one path component.
///
/// A leading dot hides the file; trailing dots and spaces are silently dropped
/// by Windows, which turns two distinct names into one.
pub open spec fn sanitised(value: Seq<char>) -> Seq<char> {
    let kept = stripped_start(without_tail(trimmed(cleaned(value))), '.');
    if kept.len() == 0 {
        "untitled"@
    } else {
        kept
    }
}

/// Make one path component safe to write.
///
/// Deliberately not a general sanitiser: it is applied to a *substituted
/// value*, never to the template, so a template may still contain slashes and
/// build a directory tree while a programme title containing one cannot.
#[must_use]
pub fn sanitise(value: &str) -> (safe: String)
    ensures
        safe@ == sanitised(value@),
{
    let chars = chars_of(value);
    let mut clean: Vec<char> = Vec::new();
    for i in 0..chars.len()
        invariant
            chars@ == value@,
            clean@ =~= cleaned(value@).take(i as int),
    {
        let c: char = chars[i];
        clean.push(if forbidden(c) { '_' } else { c });
    }
    assert(clean@ =~= cleaned(value@));
    let kept = strip_start(&strip_tail(&trim(&clean)), '.');
    if kept.len() == 0 {
        crate::text::own("untitled")
    } else {
        string_of(&kept)
    }
}

/// What a placeholder expands to: its value made safe, or nothing.
pub open spec fn substituted(fields: Fields, key: Seq<char>) -> Seq<char> {
    match fields.value_of(key) {
        Some(value) => sanitised(value),
        None => Seq::empty(),
    }
}

/// A template with its placeholders replaced. An unclosed brace is a typo in a
/// configuration file, and everything from it on stands as it was written.
pub open spec fn filled(template: Seq<char>, fields: Fields) -> Seq<char>
    decreases template.len(),
{
    let open = first_at(template, '{');
    let rest = template.skip(open);
    let close = first_at(rest, '}');
    if open < 0 || open >= template.len() || close < 0 || close >= rest.len() {
        template
    } else {
        template.take(open) + substituted(fields, rest.subrange(1, close)) + filled(
            rest.skip(close + 1),
            fields,
        )
    }
}

/// A character that separates the parts of a name.
pub open spec fn is_separator(c: char) -> bool {
    c == ' ' || c == '-' || c == '_'
}

/// Runs of separators reduced to their first.
pub open spec fn collapsed(s: Seq<char>) -> Seq<char>
    decreases s.len(),
{
    if s.len() == 0 {
        Seq::empty()
    } else {
        let before = collapsed(s.drop_last());
        if is_separator(s.last()) && s.len() >= 2 && is_separator(s[s.len() - 2]) {
            before
        } else {
            before.push(s.last())
        }
    }
}

/// A name without the separators an empty placeholder left behind.
pub open spec fn tidied(s: Seq<char>) -> Seq<char> {
    trimmed(stripped_end(stripped_start(trimmed(collapsed(s)), '-'), '-'))
}

/// What a template expands to.
pub open spec fn expansion(template: Seq<char>, fields: Fields) -> Seq<char> {
    tidied(filled(template, fields))
}

/// Collapse the separators left behind by an empty placeholder.
fn tidy(chars: &[char]) -> (kept: Vec<char>)
    ensures
        kept@ == tidied(chars@),
{
    let mut out: Vec<char> = Vec::new();
    let mut previous = false;
    assert(chars@.take(0) =~= Seq::empty());
    for i in 0..chars.len()
        invariant
            out@ == collapsed(chars@.take(i as int)),
            previous == (i > 0 && is_separator(chars@[i - 1])),
    {
        let c: char = chars[i];
        assert(chars@.take(i + 1).drop_last() =~= chars@.take(i as int));
        let separator = c == ' ' || c == '-' || c == '_';
        if !(separator && previous) {
            out.push(c);
        }
        previous = separator;
    }
    assert(chars@.take(chars@.len() as int) =~= chars@);
    trim(&strip_end(&strip_start(&trim(&out), '-'), '-'))
}

/// Expand `{placeholders}` in a template.
///
/// A placeholder with nothing behind it expands to nothing, and the surrounding
/// separators are tidied afterwards, so a template written for a recording that
/// has a channel still reads properly for one that does not.
#[must_use]
pub fn expand(template: &str, fields: &Fields) -> (name: String)
    ensures
        name@ == expansion(template@, *fields),
{
    let mut out: Vec<char> = Vec::new();
    let mut rest = chars_of(template);
    assert(out@ + filled(rest@, *fields) =~= filled(template@, *fields));
    loop
        invariant
            out@ + filled(rest@, *fields) == filled(template@, *fields),
        ensures
            out@ + rest@ == filled(template@, *fields),
        decreases rest@.len(),
    {
        let open: usize = find_char(&rest, '{');
        proof {
            first_at_is_first(rest@, '{');
        }
        if open >= rest.len() {
            break;
        }
        let tail = part(&rest, open, rest.len());
        assert(tail@ =~= rest@.skip(open as int));
        let close: usize = find_char(&tail, '}');
        if close >= tail.len() {
            break;
        }
        assert(tail@[0] == '{');
        proof {
            first_at_is_first(tail@, '}');
        }
        assert(close >= 1);
        let key = part(&tail, 1, close);
        let next = part(&tail, close + 1, tail.len());
        assert(next@ =~= tail@.skip(close + 1));
        let ghost before = out@;
        let mut head = part(&rest, 0, open);
        assert(head@ =~= rest@.take(open as int));
        out.append(&mut head);
        let ghost with_head = out@;
        match fields.get(&key) {
            Some(value) => {
                let mut safe = chars_of(sanitise(value.as_str()).as_str());
                out.append(&mut safe);
            },
            None => {
                assert(with_head =~= with_head + Seq::<char>::empty());
            },
        }
        assert(out@ =~= before + rest@.take(open as int) + substituted(*fields, key@));
        assert(out@ + filled(next@, *fields) =~= before + filled(rest@, *fields));
        rest = next;
    }
    out.append(&mut rest);
    string_of(&tidy(&out))
}

/// The extension of a path with its dot, or nothing.
pub open spec fn suffix_of(path: Seq<char>) -> Seq<char> {
    match extension_of(path) {
        Some(extension) => seq!['.'] + extension,
        None => Seq::empty(),
    }
}

/// Where a job's output goes under a template: below the directory of the
/// output the caller asked for, with its extension; nowhere when the template
/// produces nothing usable. Slashes at the front of a name say nothing: they
/// would otherwise put the output somewhere else altogether.
pub open spec fn renaming(
    output: Seq<char>,
    template: Seq<char>,
    fields: Fields,
) -> Option<Seq<char>> {
    let name = expansion(template, fields);
    let directory = match parent_of(output) {
        Some(parent) => parent,
        None => seq!['.'],
    };
    if trimmed(name).len() == 0 {
        None
    } else {
        Some(below(directory, stripped_start(name, '/') + suffix_of(output)))
    }
}

/// Work out where a job's output should go.
///
/// `template` names the file, not the path: the directory comes from the
/// output the caller asked for, so a deployment that has already decided where
/// recordings live keeps that decision. A template containing slashes builds
/// subdirectories beneath it.
///
/// Returns `None` when the template produces nothing usable, in which case the
/// caller's own path stands.
#[must_use]
pub fn rename(output: &str, template: &str, fields: &Fields) -> (path: Option<String>)
    ensures
        text_of(path) == renaming(output@, template@, *fields),
{
    let expanded = chars_of(expand(template, fields).as_str());
    if trim(&expanded).len() == 0 {
        return None;
    }
    let mut name = string_of(&strip_start(&expanded, '/'));
    let ghost bare = name@;
    match extension(output) {
        Some(extension) => {
            name.push('.');
            name.append(extension.as_str());
            assert(name@ =~= bare + suffix_of(output@));
        },
        None => {
            assert(name@ =~= bare + suffix_of(output@));
        },
    }
    let directory = match parent(output) {
        Some(directory) => directory,
        None => {
            let mut here = String::new();
            here.push('.');
            assert(here@ =~= seq!['.']);
            here
        },
    };
    Some(join(directory.as_str(), name.as_str()))
}

/// A substituted value cannot escape its directory: it holds no slash or any
/// other forbidden character, it is never empty, it does not begin with a dot,
/// and it does not end with a dot or a space.
pub proof fn sanitised_values_stay_put(value: Seq<char>)
    ensures
        forall|i: int|
            0 <= i < sanitised(value).len() ==> !is_forbidden(#[trigger] sanitised(value)[i]),
        sanitised(value).len() > 0,
        sanitised(value)[0] != '.',
        sanitised(value).last() != '.',
        sanitised(value).last() != ' ',
{
    reveal_strlit("untitled");
    let clean = cleaned(value);
    trimming_keeps_a_stretch(clean);
    let front = trimmed_start(clean);
    let a = choose|k: int| 0 <= k <= clean.len() && front == #[trigger] clean.skip(k);
    trimming_keeps_a_stretch(front);
    let middle = trimmed(clean);
    let b = choose|k: int| 0 <= k <= front.len() && middle == #[trigger] front.take(k);
    tail_is_gone(middle);
    let short = without_tail(middle);
    let c = choose|k: int| 0 <= k <= middle.len() && short == #[trigger] middle.take(k);
    stripping_keeps_a_stretch(short, '.');
    let kept = stripped_start(short, '.');
    let d = choose|k: int| 0 <= k <= short.len() && kept == #[trigger] short.skip(k);
    assert forall|i: int| 0 <= i < kept.len() implies !is_forbidden(#[trigger] kept[i]) by {
        assert(kept[i] == clean[i + d + a]);
        assert(clean[i + d + a] == '_' || !is_forbidden(clean[i + d + a]));
    }
}

/// Whatever the template, the output stays below the directory the caller asked
/// for, and keeps the extension.
pub proof fn renamed_outputs_keep_their_directory(
    output: Seq<char>,
    template: Seq<char>,
    fields: Fields,
)
    ensures
        renaming(output, template, fields) is None <==> expansion(template, fields).len() == 0,
        renaming(output, template, fields) matches Some(path) ==> {
            &&& parent_of(output) matches Some(directory) ==> starts_with_directory(
                directory,
                path,
            )
            &&& path.len() >= suffix_of(output).len()
            &&& path.skip(path.len() - suffix_of(output).len()) == suffix_of(output)
        },
{
    let name = expansion(template, fields);
    let filling = trimmed(collapsed(filled(template, fields)));
    trimming_again_changes_nothing(stripped_end(stripped_start(filling, '-'), '-'));
    assert(trimmed(name) == name);
    let directory = match parent_of(output) {
        Some(parent) => parent,
        None => seq!['.'],
    };
    stripping_keeps_a_stretch(name, '/');
    suffix_is_a_suffix(output);
    joined_paths_start_and_end(directory, stripped_start(name, '/'), suffix_of(output));
}

proof fn suffix_is_a_suffix(output: Seq<char>)
    ensures
        suffix_of(output).len() > 0 ==> suffix_of(output)[0] == '.',
{
}

proof fn joined_paths_start_and_end(directory: Seq<char>, bare: Seq<char>, suffix: Seq<char>)
    requires
        bare.len() > 0 ==> bare[0] != '/',
        suffix.len() > 0 ==> suffix[0] != '/',
    ensures
        ({
            let path = below(directory, bare + suffix);
            &&& starts_with_directory(directory, path)
            &&& path.len() >= suffix.len()
            &&& path.skip(path.len() - suffix.len()) == suffix
        }),
{
    let tail = bare + suffix;
    let path = below(directory, tail);
    if tail.len() > 0 {
        assert(tail[0] != '/');
    }
    assert(path.skip(path.len() - suffix.len()) =~= suffix);
    assert(path.take(directory.len() as int) =~= directory);
}

/// A path that begins with a directory: its text, and then a slash unless the
/// directory ends in one or is none at all.
pub open spec fn starts_with_directory(directory: Seq<char>, path: Seq<char>) -> bool {
    &&& path.len() >= directory.len()
    &&& path.take(directory.len() as int) == directory
    &&& directory.len() == 0 ==> !(path.len() > 0 && path[0] == '/')
    &&& directory.len() > 0 && directory.last() != '/' ==> path.len() > directory.len()
        && path[directory.len() as int] == '/'
}

/// A template decides where slashes go, and nothing else does: a forbidden
/// character that the template does not have is not in what it expands to.
pub proof fn slashes_come_from_the_template(template: Seq<char>, fields: Fields, c: char)
    requires
        is_forbidden(c),
        !template.contains(c),
    ensures
        !expansion(template, fields).contains(c),
{
    filling_adds_none(template, fields, c);
    tidying_adds_nothing(filled(template, fields), c);
}

proof fn filling_adds_none(template: Seq<char>, fields: Fields, c: char)
    requires
        is_forbidden(c),
        !template.contains(c),
    ensures
        !filled(template, fields).contains(c),
    decreases template.len(),
{
    let open = first_at(template, '{');
    let rest = template.skip(open);
    let close = first_at(rest, '}');
    first_at_is_first(template, '{');
    first_at_is_first(rest, '}');
    if open < template.len() && close < rest.len() {
        let tail = rest.skip(close + 1);
        assert forall|i: int| 0 <= i < tail.len() implies tail[i] != c by {
            assert(tail[i] == template[i + close + 1 + open]);
        }
        filling_adds_none(tail, fields, c);
        let key = rest.subrange(1, close);
        let value = substituted(fields, key);
        if let Some(found) = fields.value_of(key) {
            sanitised_values_stay_put(found);
        }
        let whole = filled(template, fields);
        if whole.contains(c) {
            let i = choose|i: int| 0 <= i < whole.len() && whole[i] == c;
            if i < open {
                assert(template[i] == c);
            } else if i < open + value.len() {
                assert(value[i - open] == c);
            } else {
                assert(filled(tail, fields)[i - open - value.len()] == c);
            }
        }
    }
}

/// Trimming what is trimmed changes nothing.
proof fn trimming_again_changes_nothing(s: Seq<char>)
    ensures
        trimmed(trimmed(s)) == trimmed(s),
{
    trimming_settles(s);
    let front = trimmed_start(s);
    trimming_settles(front);
    trimming_keeps_a_stretch(front);
    let k = choose|k: int| 0 <= k <= front.len() && trimmed_end(front) == #[trigger] front.take(k);
}

proof fn trimming_settles(s: Seq<char>)
    ensures
        trimmed_start(s).len() > 0 ==> !is_space(trimmed_start(s)[0]),
        trimmed_end(s).len() > 0 ==> !is_space(trimmed_end(s).last()),
    decreases s.len(),
{
    if s.len() > 0 {
        if is_space(s[0]) {
            trimming_settles(s.skip(1));
        }
        if is_space(s.last()) {
            trimming_settles(s.drop_last());
        }
    }
}

/// Nothing is in a tidied name that was not in the name.
proof fn tidying_adds_nothing(s: Seq<char>, c: char)
    requires
        !s.contains(c),
    ensures
        !tidied(s).contains(c),
{
    let once = collapsed(s);
    collapsing_adds_nothing(s, c);
    trimmed_adds_nothing(once, c);
    let inner = trimmed(once);
    stripping_keeps_a_stretch(inner, '-');
    let front = stripped_start(inner, '-');
    let a = choose|k: int| 0 <= k <= inner.len() && front == #[trigger] inner.skip(k);
    assert forall|i: int| 0 <= i < front.len() implies front[i] != c by {
        assert(front[i] == inner[i + a]);
    }
    stripping_keeps_a_stretch(front, '-');
    let both = stripped_end(front, '-');
    let b = choose|k: int| 0 <= k <= front.len() && both == #[trigger] front.take(k);
    assert forall|i: int| 0 <= i < both.len() implies both[i] != c by {
        assert(both[i] == front[i]);
    }
    trimmed_adds_nothing(both, c);
}

proof fn trimmed_adds_nothing(s: Seq<char>, c: char)
    requires
        !s.contains(c),
    ensures
        !trimmed(s).contains(c),
{
    trimming_keeps_a_stretch(s);
    let front = trimmed_start(s);
    let a = choose|k: int| 0 <= k <= s.len() && front == #[trigger] s.skip(k);
    trimming_keeps_a_stretch(front);
    let b = choose|k: int| 0 <= k <= front.len() && trimmed_end(front) == #[trigger] front.take(k);
    assert forall|i: int| 0 <= i < trimmed(s).len() implies trimmed(s)[i] != c by {
        assert(trimmed(s)[i] == s[i + a]);
    }
}

proof fn collapsing_adds_nothing(s: Seq<char>, c: char)
    requires
        !s.contains(c),
    ensures
        !collapsed(s).contains(c),
    decreases s.len(),
{
    if s.len() > 0 {
        let shorter = s.drop_last();
        assert forall|i: int| 0 <= i < shorter.len() implies shorter[i] != c by {
            assert(s[i] != c);
        }
        collapsing_adds_nothing(shorter, c);
        let before = collapsed(shorter);
        assert(s[s.len() - 1] != c);
        assert forall|i: int| 0 <= i < collapsed(s).len() implies collapsed(s)[i] != c by {
            if i < before.len() {
                assert(before[i] != c);
            }
        }
    }
}

} // verus!
