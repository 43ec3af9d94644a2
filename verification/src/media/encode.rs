//! Shared pieces of an encode invocation: progress reporting and chapter
//! metadata, which every encode needs regardless of profile.

use vstd::prelude::*;
use vstd::string::*;
use crate::arith::nearest;
use crate::arith::nearest_is;
use crate::text::chars_of;
use crate::text::decimal_digits;
use crate::text::push_decimal;

verus! {

/// Arguments that make ffmpeg report progress on stdout in a parseable form.
///
/// `-nostats` suppresses the human-readable status line, which would otherwise
/// interleave with the key/value output and has to be filtered back out.
#[must_use]
pub fn progress_args() -> (args: [&'static str; 3])
    ensures
        args@[0]@ == "-progress"@,
        args@[1]@ == "pipe:1"@,
        args@[2]@ == "-nostats"@,
{
    ["-progress", "pipe:1", "-nostats"]
}

/// One chapter in the output file.
#[derive(Debug, Clone, PartialEq, Eq)]
pub struct Chapter {
    /// Start of the chapter, in microseconds from the start of the output.
    pub start_seconds: i64,
    /// End of the chapter, in microseconds from the start of the output.
    pub end_seconds: i64,
    /// Title shown by players.
    pub title: String,
}

/// What a chapter is, its title read as characters.
pub ghost struct ChapterView {
    /// Start, in microseconds.
    pub start: int,
    /// End, in microseconds.
    pub end: int,
    /// Title.
    pub title: Seq<char>,
}

impl View for Chapter {
    type V = ChapterView;

    open spec fn view(&self) -> ChapterView {
        ChapterView {
            start: self.start_seconds as int,
            end: self.end_seconds as int,
            title: self.title@,
        }
    }
}

/// The chapters a list holds.
pub open spec fn chapter_views(chapters: Seq<Chapter>) -> Seq<ChapterView> {
    chapters.map_values(|chapter: Chapter| chapter@)
}

/// A moment in whole milliseconds, to the nearest, and never negative.
pub open spec fn in_milliseconds(micros: int) -> nat {
    if micros <= 0 {
        0
    } else {
        nearest(micros, 1_000) as nat
    }
}

fn milliseconds(micros: i64) -> (millis: u64)
    ensures
        millis == in_milliseconds(micros as int),
{
    if micros <= 0 {
        return 0;
    }
    let size: u64 = micros as u64;
    let millis: u64 = size / 1_000 + if size % 1_000 >= 500 { 1 } else { 0 };
    proof {
        nearest_is(micros as int, 1_000, millis as int);
    }
    millis
}

/// The characters ffmetadata treats as syntax.
pub open spec fn is_syntax(c: char) -> bool {
    c == '=' || c == ';' || c == '#' || c == '\\' || c == '\n'
}

/// A character as it stands in a value: syntax escaped, and a newline, which
/// would end the entry, replaced by a space rather than merely escaped.
pub open spec fn escaped_char(c: char) -> Seq<char> {
    let shown = if c == '\n' { ' ' } else { c };
    if is_syntax(c) {
        seq!['\\', shown]
    } else {
        seq![shown]
    }
}

/// A value with ffmetadata's syntax escaped.
pub open spec fn escaped(value: Seq<char>) -> Seq<char>
    decreases value.len(),
{
    if value.len() == 0 {
        Seq::empty()
    } else {
        escaped(value.drop_last()) + escaped_char(value.last())
    }
}

/// Escape the characters ffmetadata treats as syntax.
fn push_escaped(out: &mut String, value: &str)
    ensures
        final(out)@ == old(out)@ + escaped(value@),
{
    let chars = chars_of(value);
    assert(value@.take(0) =~= Seq::empty());
    assert(out@ =~= old(out)@ + escaped(value@.take(0)));
    for i in 0..chars.len()
        invariant
            chars@ == value@,
            out@ == old(out)@ + escaped(value@.take(i as int)),
    {
        let c: char = chars[i];
        assert(value@.take(i + 1).drop_last() =~= value@.take(i as int));
        if c == '=' || c == ';' || c == '#' || c == '\\' || c == '\n' {
            out.push('\\');
        }
        out.push(if c == '\n' { ' ' } else { c });
        assert(out@ =~= old(out)@ + escaped(value@.take(i + 1)));
    }
    assert(value@.take(value@.len() as int) =~= value@);
}

/// One chapter's entry. A millisecond timebase is finer than any chapter
/// needs and avoids the rounding surprises of ffmpeg's default; a chapter
/// never ends before it starts.
pub open spec fn chapter_entry(chapter: ChapterView) -> Seq<char> {
    let start = in_milliseconds(chapter.start);
    let end = in_milliseconds(chapter.end);
    "\n[CHAPTER]\nTIMEBASE=1/1000\nSTART="@ + decimal_digits(start) + "\nEND="@ + decimal_digits(
        if end > start {
            end
        } else {
            start
        },
    ) + "\ntitle="@ + escaped(chapter.title) + "\n"@
}

/// The ffmetadata document for some chapters.
pub open spec fn metadata_of(chapters: Seq<ChapterView>) -> Seq<char>
    decreases chapters.len(),
{
    if chapters.len() == 0 {
        ";FFMETADATA1\n"@
    } else {
        metadata_of(chapters.drop_last()) + chapter_entry(chapters.last())
    }
}

/// Render chapters as an ffmetadata document.
///
/// Chapters are how a viewer navigates a recording that kept its commercials,
/// and how anyone reviews the cuts on one that did not, so they are written
/// either way.
#[must_use]
pub fn ffmetadata(chapters: &[Chapter]) -> (text: String)
    ensures
        text@ == metadata_of(chapter_views(chapters@)),
{
    let mut out = String::new();
    out.append(";FFMETADATA1\n");
    let ghost all = chapter_views(chapters@);
    assert(all.take(0) =~= Seq::empty());
    assert(out@ =~= metadata_of(all.take(0)));
    for i in 0..chapters.len()
        invariant
            all == chapter_views(chapters@),
            out@ == metadata_of(all.take(i as int)),
    {
        let chapter = &chapters[i];
        let ghost before = out@;
        assert(all.take(i + 1).drop_last() =~= all.take(i as int));
        assert(all.take(i + 1).last() == chapter@);
        let start: u64 = milliseconds(chapter.start_seconds);
        let end: u64 = milliseconds(chapter.end_seconds);
        out.append("\n[CHAPTER]\nTIMEBASE=1/1000\nSTART=");
        push_decimal(&mut out, start);
        out.append("\nEND=");
        push_decimal(&mut out, if end > start { end } else { start });
        out.append("\ntitle=");
        push_escaped(&mut out, chapter.title.as_str());
        out.append("\n");
        assert(out@ =~= before + chapter_entry(chapter@));
    }
    assert(all.take(all.len() as int) =~= all);
    out
}

/// An escaped value never holds a newline, so it cannot end its entry early.
pub proof fn escaped_values_stay_on_one_line(value: Seq<char>)
    ensures
        !escaped(value).contains('\n'),
    decreases value.len(),
{
    if value.len() > 0 {
        escaped_values_stay_on_one_line(value.drop_last());
        let before = escaped(value.drop_last());
        let last = escaped_char(value.last());
        assert(!last.contains('\n'));
        let whole = before + last;
        if whole.contains('\n') {
            let i = choose|i: int| 0 <= i < whole.len() && whole[i] == '\n';
            if i < before.len() {
                assert(before[i] == '\n');
                assert(before.contains('\n'));
            } else {
                assert(last[i - before.len()] == '\n');
                assert(last.contains('\n'));
            }
        }
    }
}

} // verus!
