//! Describing the ffmpeg installation that is driven.

use vstd::prelude::*;
use vstd::string::*;
use crate::media::Error;
use crate::text::byte_length;
use crate::text::chars_of;
use crate::text::comes_before;
use crate::text::find_text;
use crate::text::first_occurrence;
use crate::text::first_word;
use crate::text::is_before;
use crate::text::occurs_at;
use crate::text::order_is_transitive;
use crate::text::own;
use crate::text::parse_unsigned;
use crate::text::part;
use crate::text::same;
use crate::text::string_of;
use crate::text::texts;
use crate::text::texts_are_ordered;
use crate::text::trimmed_start;
use crate::text::unsigned_in;
use crate::text::utf8_length;
use crate::text::word_at;

verus! {

/// The oldest ffmpeg supported.
///
/// 5.1 is the release that introduced `-fps_mode`, which the frame readers
/// rely on to keep the frame-index-to-timestamp mapping exact. Older builds
/// would need the deprecated `-vsync`, and silently producing a variable frame
/// rate would misplace every cut point.
pub const MINIMUM_FFMPEG_VERSION: (u32, u32) = (5, 1);

/// The text between the first mark and the next, or the end.
pub open spec fn after_mark(text: Seq<char>, mark: Seq<char>) -> Option<Seq<char>> {
    let at = first_occurrence(text, mark, 0);
    let rest = text.skip(at + mark.len());
    let next = first_occurrence(rest, mark, 0);
    if !occurs_at(text, mark, at) {
        None
    } else if occurs_at(rest, mark, next) {
        Some(rest.take(next))
    } else {
        Some(rest)
    }
}

/// Without the letters `n` at the front, which some distributions put there.
pub open spec fn without_n(s: Seq<char>) -> Seq<char>
    decreases s.len(),
{
    if s.len() > 0 && s[0] == 'n' {
        without_n(s.skip(1))
    } else {
        s
    }
}

/// A character that parts of a version are split at.
pub open spec fn is_split(c: char) -> bool {
    c == '.' || c == '-' || c == '_'
}

/// How far the first part of a version runs.
pub open spec fn part_end(s: Seq<char>) -> int
    decreases s.len(),
{
    if s.len() == 0 || is_split(s[0]) {
        0
    } else {
        1 + part_end(s.skip(1))
    }
}

/// A number from a part of a version.
pub open spec fn part_number(s: Seq<char>) -> Option<nat> {
    unsigned_in(s, u32::MAX as nat)
}

/// The version in a token such as `6.1.1`, `n7.0` or `5.1.4-0+deb12u1`. A
/// token with only a major number is treated as `.0`; one that does not start
/// with a number has no version.
pub open spec fn version_in(token: Seq<char>) -> Option<(u32, u32)> {
    let s = without_n(token);
    let end = part_end(s);
    let rest = s.skip(end + 1);
    match part_number(s.take(end)) {
        None => None,
        Some(major) => {
            let minor = if end < s.len() { part_number(rest.take(part_end(rest))) } else { None };
            Some((major as u32, match minor {
                Some(minor) => minor as u32,
                None => 0,
            }))
        },
    }
}

/// The version an `ffmpeg -version` banner states.
pub open spec fn banner_version(banner: Seq<char>) -> Option<(u32, u32)> {
    match after_mark(banner, "ffmpeg version "@) {
        None => None,
        Some(rest) => match first_word(rest) {
            None => None,
            Some(token) => version_in(token),
        },
    }
}

fn end_of_part(chars: &[char], from: usize) -> (end: usize)
    requires
        from <= chars@.len(),
    ensures
        from <= end <= chars@.len(),
        end == from + part_end(chars@.skip(from as int)),
{
    let ghost s = chars@.skip(from as int);
    let mut end: usize = from;
    assert(s.skip(0) =~= s);
    while end < chars.len() && !(chars[end] == '.' || chars[end] == '-' || chars[end] == '_')
        invariant
            from <= end <= chars@.len(),
            s == chars@.skip(from as int),
            part_end(s) == end - from + part_end(s.skip(end - from)),
        decreases chars@.len() - end,
    {
        assert(s.skip(end - from).skip(1) =~= s.skip(end - from + 1));
        assert(s.skip(end - from)[0] == chars@[end as int]);
        end += 1;
    }
    end
}

/// Read the version out of a token.
fn parse_token(token: &[char]) -> (version: Option<(u32, u32)>)
    ensures
        version == version_in(token@),
{
    let mut from: usize = 0;
    assert(token@.skip(0) =~= token@);
    while from < token.len() && token[from] == 'n'
        invariant
            from <= token@.len(),
            without_n(token@) == without_n(token@.skip(from as int)),
        decreases token@.len() - from,
    {
        assert(token@.skip(from as int).skip(1) =~= token@.skip(from + 1));
        from += 1;
    }
    let ghost s = token@.skip(from as int);
    assert(without_n(token@) == s);
    let end: usize = end_of_part(token, from);
    let head = part(token, from, end);
    assert(head@ =~= s.take(end - from));
    let major: u32 = match parse_unsigned(&head, u32::MAX as u64) {
        Some(major) => major as u32,
        None => {
            return None;
        },
    };
    let mut minor: u32 = 0;
    if end < token.len() {
        let next: usize = end_of_part(token, end + 1);
        let tail = part(token, end + 1, next);
        let ghost rest = s.skip(end - from + 1);
        assert(rest =~= token@.skip(end + 1));
        assert(tail@ =~= rest.take(next - end - 1));
        if let Some(found) = parse_unsigned(&tail, u32::MAX as u64) {
            minor = found as u32;
        }
    }
    Some((major, minor))
}

/// Pull `major.minor` out of the `ffmpeg -version` banner.
///
/// Distribution builds report things like `n6.1.1` or `6.0-static` or a bare
/// git hash; the last of those has no version to find and returns `None`.
#[must_use]
pub fn parse_version(banner: &str) -> (version: Option<(u32, u32)>)
    ensures
        version == banner_version(banner@),
{
    let text = chars_of(banner);
    let mark = chars_of("ffmpeg version ");
    let at: usize = match find_text(&text, &mark, 0) {
        Some(at) => at,
        None => {
            return None;
        },
    };
    let count: usize = text.len();
    let from: usize = at + mark.len();
    let mut rest = part(&text, from, count);
    assert(rest@ =~= text@.skip(at + mark@.len()));
    if let Some(next) = find_text(&rest, &mark, 0) {
        let cut = part(&rest, 0, next);
        assert(cut@ =~= rest@.take(next as int));
        rest = cut;
    }
    assert(rest@.skip(0) =~= rest@);
    let (start, end): (usize, usize) = word_at(&rest, 0);
    if start == end {
        return None;
    }
    let token = part(&rest, start, end);
    parse_token(&token)
}

/// Whether a version is older than the oldest supported.
pub open spec fn too_old(version: (u32, u32)) -> bool {
    version.0 < MINIMUM_FFMPEG_VERSION.0 || (version.0 == MINIMUM_FFMPEG_VERSION.0 && version.1
        < MINIMUM_FFMPEG_VERSION.1)
}

/// What a line of `ffmpeg -encoders` names: entries are indented and prefixed
/// by a six-character capability field, as in
/// `" V....D h264_nvenc  NVIDIA NVENC H.264 encoder"`. The legend above them has
/// the same shape, as in `" V..... = Video"`, and names nothing.
pub open spec fn encoder_on(line: Seq<char>) -> Option<Seq<char>> {
    if line.len() == 0 || line[0] != ' ' {
        None
    } else {
        let rest = trimmed_start(line.skip(1));
        match first_word(line.skip(1)) {
            None => None,
            Some(flags) => if utf8_length(flags) != 6 {
                None
            } else {
                match first_word(rest.skip(flags.len() as int)) {
                    None => None,
                    Some(name) => if name == "="@ {
                        None
                    } else {
                        Some(name)
                    },
                }
            },
        }
    }
}

/// The name a line gives, if it gives one.
fn read_encoder(line: &[char]) -> (name: Option<Vec<char>>)
    ensures
        match name {
            Some(name) => encoder_on(line@) == Some(name@),
            None => encoder_on(line@) is None,
        },
{
    if line.len() == 0 || line[0] != ' ' {
        return None;
    }
    let (from, to): (usize, usize) = word_at(line, 1);
    if from == to {
        return None;
    }
    let flags = part(line, from, to);
    if byte_length(&flags) != 6 {
        return None;
    }
    let ghost rest = trimmed_start(line@.skip(1));
    assert(rest.skip(flags@.len() as int) =~= line@.skip(to as int));
    let (start, end): (usize, usize) = word_at(line, to);
    if start == end {
        return None;
    }
    let name = part(line, start, end);
    if same(&name, &chars_of("=")) {
        return None;
    }
    Some(name)
}

/// A list in order with nothing in it twice.
pub open spec fn in_order(names: Seq<Seq<char>>) -> bool {
    forall|i: int, j: int|
        0 <= i < j < names.len() ==> comes_before(#[trigger] names[i], #[trigger] names[j])
}

/// The encoders the first `count` lines of a listing name.
pub open spec fn encoders_on(lines: Seq<Seq<char>>, count: int) -> Set<Seq<char>>
    decreases count,
{
    if count <= 0 {
        Set::empty()
    } else {
        let before = encoders_on(lines, count - 1);
        match encoder_on(lines[count - 1]) {
            Some(name) => before.insert(name),
            None => before,
        }
    }
}

/// Lists of characters as the texts they are.
pub open spec fn runs_of(list: Seq<Vec<char>>) -> Seq<Seq<char>> {
    list.map_values(|run: Vec<char>| run@)
}

/// Put a name in its place, unless it is there already.
fn place(names: &mut Vec<Vec<char>>, name: Vec<char>)
    requires
        in_order(runs_of(old(names)@)),
    ensures
        in_order(runs_of(final(names)@)),
        runs_of(final(names)@).to_set() == runs_of(old(names)@).to_set().insert(name@),
{
    let ghost before = runs_of(names@);
    let mut at: usize = 0;
    while at < names.len() && is_before(&names[at], &name)
        invariant
            at <= names@.len(),
            before == runs_of(names@),
            forall|i: int| 0 <= i < at ==> comes_before(#[trigger] before[i], name@),
        decreases names@.len() - at,
    {
        assert(before[at as int] == names@[at as int]@);
        at += 1;
    }
    if at < names.len() && same(&names[at], &name) {
        assert(before[at as int] == name@);
        assert(before.contains(name@));
        assert(before.to_set().insert(name@) =~= before.to_set());
        return;
    }
    let ghost wanted = name@;
    names.insert(at, name);
    let ghost after = runs_of(names@);
    assert(after =~= before.insert(at as int, wanted));
    proof {
        assert forall|i: int| at <= i < before.len() implies comes_before(
            wanted,
            #[trigger] before[i],
        ) by {
            texts_are_ordered(before[at as int], wanted);
            if i > at {
                assert(comes_before(before[at as int], before[i]));
                order_is_transitive(wanted, before[at as int], before[i]);
            }
        }
        assert forall|i: int, j: int| 0 <= i < j < after.len() implies comes_before(
            #[trigger] after[i],
            #[trigger] after[j],
        ) by {
            let a = if i < at { i } else { i - 1 };
            let b = if j < at { j } else { j - 1 };
            if i != at && j != at {
                assert(comes_before(before[a], before[b]));
            }
        }
        assert forall|x: Seq<char>| after.to_set().contains(x) <==> before.to_set().insert(
            wanted,
        ).contains(x) by {
            if after.contains(x) {
                let i = choose|i: int| 0 <= i < after.len() && after[i] == x;
                if i != at {
                    assert(before[if i < at { i } else { i - 1 }] == x);
                    assert(before.contains(x));
                }
            }
            if before.contains(x) {
                let i = choose|i: int| 0 <= i < before.len() && before[i] == x;
                assert(after[if i < at { i } else { i + 1 }] == x);
                assert(after.contains(x));
            }
            assert(after[at as int] == wanted);
            assert(after.contains(wanted));
        }
        assert(after.to_set() =~= before.to_set().insert(wanted));
    }
}

/// The encoders a listing names, in order and each once.
#[must_use]
pub fn parse_encoders(lines: &[String]) -> (encoders: Vec<String>)
    ensures
        in_order(texts(encoders@)),
        texts(encoders@).to_set() == encoders_on(texts(lines@), lines@.len() as int),
{
    let mut names: Vec<Vec<char>> = Vec::new();
    assert(runs_of(names@).to_set() =~= Set::empty());
    for i in 0..lines.len()
        invariant
            in_order(runs_of(names@)),
            runs_of(names@).to_set() == encoders_on(texts(lines@), i as int),
    {
        let line = chars_of(lines[i].as_str());
        assert(texts(lines@)[i as int] == line@);
        if let Some(name) = read_encoder(&line) {
            place(&mut names, name);
        }
    }
    let mut encoders: Vec<String> = Vec::new();
    for i in 0..names.len()
        invariant
            texts(encoders@) =~= runs_of(names@).take(i as int),
    {
        let ghost before = texts(encoders@);
        let text = string_of(&names[i]);
        assert(runs_of(names@)[i as int] == text@);
        encoders.push(text);
        assert(texts(encoders@) =~= before.push(text@));
    }
    assert(texts(encoders@) =~= runs_of(names@));
    encoders
}

/// A located ffmpeg installation.
#[derive(Debug)]
pub struct Ffmpeg {
    ffmpeg: String,
    ffprobe: String,
    version: (u32, u32),
    encoders: Vec<String>,
}

impl Ffmpeg {
    /// Path to the `ffmpeg` binary.
    pub closed spec fn spec_ffmpeg(self) -> Seq<char> {
        self.ffmpeg@
    }

    /// Path to the `ffprobe` binary.
    pub closed spec fn spec_ffprobe(self) -> Seq<char> {
        self.ffprobe@
    }

    /// Version of the build.
    pub closed spec fn spec_version(self) -> (u32, u32) {
        self.version
    }

    /// Encoders of the build.
    pub closed spec fn spec_encoders(self) -> Seq<Seq<char>> {
        texts(self.encoders@)
    }

    /// Describe an installation from its version banner and its listing of
    /// encoders. A build whose version cannot be read, or that predates the
    /// oldest supported, is refused.
    pub fn describe(
        ffmpeg: String,
        ffprobe: String,
        banner: &str,
        listing: &[String],
    ) -> (result: Result<Ffmpeg, Error>)
        ensures
            match banner_version(banner@) {
                None => result matches Err(error) && error == (Error::FfmpegUnreadableVersion {
                    path: ffmpeg,
                }),
                Some(version) => if too_old(version) {
                    result matches Err(error) && error == (Error::FfmpegTooOld {
                        found: version,
                        required: MINIMUM_FFMPEG_VERSION,
                    })
                } else {
                    result matches Ok(found) && {
                        &&& found.spec_ffmpeg() == ffmpeg@
                        &&& found.spec_ffprobe() == ffprobe@
                        &&& found.spec_version() == version
                        &&& in_order(found.spec_encoders())
                        &&& found.spec_encoders().to_set() == encoders_on(
                            texts(listing@),
                            listing@.len() as int,
                        )
                    }
                },
            },
    {
        let version: (u32, u32) = match parse_version(banner) {
            None => {
                return Err(Error::FfmpegUnreadableVersion { path: ffmpeg });
            },
            Some(version) => version,
        };
        let minimum: (u32, u32) = MINIMUM_FFMPEG_VERSION;
        if version.0 < minimum.0 || (version.0 == minimum.0 && version.1 < minimum.1) {
            return Err(Error::FfmpegTooOld { found: version, required: minimum });
        }
        Ok(Ffmpeg { ffmpeg, ffprobe, version, encoders: parse_encoders(listing) })
    }

    /// Path to the `ffmpeg` binary.
    #[must_use]
    pub fn ffmpeg_path(&self) -> (path: &str)
        ensures
            path@ == self.spec_ffmpeg(),
    {
        self.ffmpeg.as_str()
    }

    /// Path to the `ffprobe` binary.
    #[must_use]
    pub fn ffprobe_path(&self) -> (path: &str)
        ensures
            path@ == self.spec_ffprobe(),
    {
        self.ffprobe.as_str()
    }

    /// Major and minor version of the ffmpeg build.
    #[must_use]
    pub fn version(&self) -> (version: (u32, u32))
        ensures
            version == self.spec_version(),
    {
        self.version
    }

    /// Whether the build offers the named encoder, e.g. `h264_nvenc`.
    ///
    /// Profiles are checked against this before a job starts, so a missing
    /// NVENC build fails immediately with a clear message rather than after
    /// the analysis pass has already run.
    #[must_use]
    pub fn has_encoder(&self, name: &str) -> (found: bool)
        ensures
            found == self.spec_encoders().contains(name@),
    {
        let wanted = chars_of(name);
        for i in 0..self.encoders.len()
            invariant
                wanted@ == name@,
                forall|k: int| 0 <= k < i ==> #[trigger] self.spec_encoders()[k] != name@,
        {
            if same(&chars_of(self.encoders[i].as_str()), &wanted) {
                assert(self.spec_encoders()[i as int] == name@);
                return true;
            }
            assert(self.spec_encoders()[i as int] == self.encoders@[i as int]@);
        }
        false
    }

    /// Every encoder this build exposes, sorted.
    #[must_use]
    pub fn encoders(&self) -> (encoders: &[String])
        ensures
            texts(encoders@) == self.spec_encoders(),
    {
        &self.encoders
    }

    /// The flags every invocation wants: no banner, no stdin, and errors only
    /// on stderr.
    #[must_use]
    pub fn command(&self) -> (args: Vec<String>)
        ensures
            texts(args@) == seq!["-hide_banner"@, "-nostdin"@, "-loglevel"@, "error"@],
    {
        let mut args: Vec<String> = Vec::new();
        args.push(own("-hide_banner"));
        args.push(own("-nostdin"));
        args.push(own("-loglevel"));
        args.push(own("error"));
        assert(texts(args@) =~= seq!["-hide_banner"@, "-nostdin"@, "-loglevel"@, "error"@]);
        args
    }
}

} // verus!
