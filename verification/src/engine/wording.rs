//! What the words of a diagnosis stand for.
//!
//! An operator reads a warning for its one telling word. Each of those words
//! turns up exactly when the counter behind it passes its threshold, whatever
//! else there is to report, or when a broadcaster has put it in the name of a
//! language, which is quoted as it is.

use vstd::prelude::*;
use vstd::string::*;
use crate::engine::diagnostics::bilingual_warning;
use crate::engine::diagnostics::caption_warning;
use crate::engine::diagnostics::error_warning;
use crate::engine::diagnostics::exceeds;
use crate::engine::diagnostics::fine_percent;
use crate::engine::diagnostics::language_text;
use crate::engine::diagnostics::languages_of;
use crate::engine::diagnostics::loss_warning;
use crate::engine::diagnostics::scrambling_warning;
use crate::engine::diagnostics::split_warning;
use crate::engine::diagnostics::track_warning;
use crate::engine::diagnostics::whole_percent;
use crate::engine::diagnostics::Diagnostics;
use crate::text::decimal_digits;
use crate::text::digits_are_digits;
use crate::text::occurs_at;
use crate::text::occurs_in;
use crate::text::padded_digits;

verus! {

/// One of the warnings holds a word.
pub open spec fn mentions(warnings: Seq<Seq<char>>, word: Seq<char>) -> bool {
    exists|i: int| 0 <= i < warnings.len() && occurs_in(#[trigger] warnings[i], word)
}

/// A language of bilingual audio holds a word itself.
pub open spec fn a_language_holds(diagnostics: Diagnostics, word: Seq<char>) -> bool {
    languages_of(diagnostics.dual_mono) matches Some((main, sub)) && (occurs_in(
        language_text(main),
        word,
    ) || occurs_in(language_text(sub), word))
}

/// A pair of letters does not stand side by side among the first characters.
spec fn pairless(s: Seq<char>, pair: (char, char), count: int) -> bool
    decreases count,
{
    count < 2 || (pairless(s, pair, count - 1) && !(s[count - 2] == pair.0 && s[count - 1]
        == pair.1))
}

/// A word and a pair of its letters that stand side by side in it.
spec fn is_mark(word: Seq<char>, pair: (char, char), at: int) -> bool {
    0 <= at < word.len() - 1 && word[at] == pair.0 && word[at + 1] == pair.1
}

proof fn pairless_all_along(s: Seq<char>, pair: (char, char), count: int, i: int)
    requires
        pairless(s, pair, count),
        0 <= i < count - 1,
    ensures
        !(s[i] == pair.0 && s[i + 1] == pair.1),
    decreases count,
{
    if i < count - 2 {
        pairless_all_along(s, pair, count - 1, i);
    }
}

/// A text without a pair of a word's letters does not hold the word.
proof fn no_pair_no_word(s: Seq<char>, word: Seq<char>, pair: (char, char), at: int)
    requires
        is_mark(word, pair, at),
        pairless(s, pair, s.len() as int),
    ensures
        !occurs_in(s, word),
{
    if occurs_in(s, word) {
        let k = choose|k: int| occurs_at(s, word, k);
        let found = s.subrange(k, k + word.len());
        assert(found[at] == s[k + at]);
        assert(found[at + 1] == s[k + at + 1]);
        pairless_all_along(s, pair, s.len() as int, k + at);
    }
}

/// A word that is in neither of two texts is not in the two together, where
/// the second begins with something the word does not hold.
proof fn no_word_across(left: Seq<char>, right: Seq<char>, word: Seq<char>)
    requires
        !occurs_in(left, word),
        !occurs_in(right, word),
        right.len() > 0,
        !word.contains(right[0]),
    ensures
        !occurs_in(left + right, word),
{
    let whole = left + right;
    if occurs_in(whole, word) {
        let k = choose|k: int| occurs_at(whole, word, k);
        let n = left.len() as int;
        let found = whole.subrange(k, k + word.len());
        if k + word.len() <= n {
            assert(left.subrange(k, k + word.len()) =~= word);
            assert(occurs_at(left, word, k));
        } else if k >= n {
            assert(right.subrange(k - n, k - n + word.len()) =~= word);
            assert(occurs_at(right, word, k - n));
        } else {
            assert(found[n - k] == right[0]);
            assert(word[n - k] == right[0]);
        }
    }
}

/// The same, where the first ends with something the word does not hold.
proof fn no_word_over(left: Seq<char>, right: Seq<char>, word: Seq<char>)
    requires
        !occurs_in(left, word),
        !occurs_in(right, word),
        left.len() > 0,
        !word.contains(left.last()),
    ensures
        !occurs_in(left + right, word),
{
    let whole = left + right;
    if occurs_in(whole, word) {
        let k = choose|k: int| occurs_at(whole, word, k);
        let n = left.len() as int;
        let found = whole.subrange(k, k + word.len());
        if k + word.len() <= n {
            assert(left.subrange(k, k + word.len()) =~= word);
            assert(occurs_at(left, word, k));
        } else if k >= n {
            assert(right.subrange(k - n, k - n + word.len()) =~= word);
            assert(occurs_at(right, word, k - n));
        } else {
            assert(found[n - 1 - k] == left.last());
            assert(word[n - 1 - k] == left.last());
        }
    }
}

/// One of the telling words, with the pair of letters that marks it. None of
/// them holds anything but small letters.
spec fn is_telling(word: Seq<char>, pair: (char, char), at: int) -> bool {
    &&& is_mark(word, pair, at)
    &&& pair == ('n', 'w') || pair == ('c', 'e') || pair == ('u', 'p')
    &&& forall|i: int| 0 <= i < word.len() ==> 'a' <= #[trigger] word[i] <= 'z'
}

proof fn the_telling_words()
    ensures
        is_telling("unwatchable"@, ('n', 'w'), 1),
        is_telling("reception"@, ('c', 'e'), 2),
        is_telling("corrupt"@, ('u', 'p'), 4),
{
    reveal_strlit("unwatchable");
    reveal_strlit("reception");
    reveal_strlit("corrupt");
}

/// A number holds no word.
proof fn numbers_hold_no_word(n: nat, word: Seq<char>, pair: (char, char), at: int)
    requires
        is_telling(word, pair, at),
    ensures
        !occurs_in(decimal_digits(n), word),
        decimal_digits(n).len() > 0,
        !word.contains(decimal_digits(n)[0]),
        !word.contains(decimal_digits(n).last()),
{
    digits_are_digits(n);
    let digits = decimal_digits(n);
    if occurs_in(digits, word) {
        let k = choose|k: int| occurs_at(digits, word, k);
        let found = digits.subrange(k, k + word.len());
        assert(found[0] == digits[k]);
        assert('a' <= word[0]);
    }
    assert('0' <= digits[0] <= '9');
    assert('0' <= digits[digits.len() - 1] <= '9');
}

/// A percentage with one place holds no word.
proof fn percentages_hold_no_word(
    part: u64,
    total: u64,
    word: Seq<char>,
    pair: (char, char),
    at: int,
)
    requires
        is_telling(word, pair, at),
    ensures
        !occurs_in(fine_percent(part, total), word),
{
    reveal_strlit(".");
    let text = fine_percent(part, total);
    let tenths = crate::arith::nearest_even(
        part * 1_000,
        if total == 0 {
            1
        } else {
            total as int
        },
    ) as nat;
    let whole = decimal_digits(tenths / 10);
    digits_are_digits(tenths / 10);
    reveal_with_fuel(padded_digits, 2);
    let last = padded_digits(tenths % 10, 1);
    assert(last.len() == 1);
    assert('0' <= last[0] <= '9');
    if occurs_in(text, word) {
        let k = choose|k: int| occurs_at(text, word, k);
        let found = text.subrange(k, k + word.len());
        assert(found[0] == text[k]);
        assert('a' <= word[0]);
        if k < whole.len() {
            assert(text[k] == whole[k]);
        } else if k == whole.len() {
            assert(text[k] == '.');
        } else {
            assert(text[k] == last[0]);
        }
    }
}

/// What is said of a hopeless recording holds no word but its own.
proof fn scrambled_words()
    ensures
        pairless("% of the recording is still scrambled — decryption failed, and the result will be unwatchable"@, ('c', 'e'), "% of the recording is still scrambled — decryption failed, and the result will be unwatchable"@.len() as int),
        pairless("% of the recording is still scrambled — decryption failed, and the result will be unwatchable"@, ('u', 'p'), "% of the recording is still scrambled — decryption failed, and the result will be unwatchable"@.len() as int),
{
    reveal_strlit("% of the recording is still scrambled — decryption failed, and the result will be unwatchable");
    reveal_with_fuel(pairless, 94);
}

/// What is said of lost packets holds no word but its own.
proof fn loss_words()
    ensures
        pairless("% of packets were lost — reception was poor, expect glitches"@, ('n', 'w'), "% of packets were lost — reception was poor, expect glitches"@.len() as int),
        pairless("% of packets were lost — reception was poor, expect glitches"@, ('u', 'p'), "% of packets were lost — reception was poor, expect glitches"@.len() as int),
{
    reveal_strlit("% of packets were lost — reception was poor, expect glitches");
    reveal_with_fuel(pairless, 61);
}

/// What is said of corrupt packets holds no word but its own.
proof fn error_words()
    ensures
        pairless(" packets arrived corrupt and were discarded"@, ('n', 'w'), " packets arrived corrupt and were discarded"@.len() as int),
        pairless(" packets arrived corrupt and were discarded"@, ('c', 'e'), " packets arrived corrupt and were discarded"@.len() as int),
{
    reveal_strlit(" packets arrived corrupt and were discarded");
    reveal_with_fuel(pairless, 44);
}

/// These words hold none of the telling ones.
proof fn doubt_words()
    ensures
        pairless("% of packets are scrambled; some of the recording will not decode"@, ('n', 'w'), "% of packets are scrambled; some of the recording will not decode"@.len() as int),
        pairless("% of packets are scrambled; some of the recording will not decode"@, ('c', 'e'), "% of packets are scrambled; some of the recording will not decode"@.len() as int),
        pairless("% of packets are scrambled; some of the recording will not decode"@, ('u', 'p'), "% of packets are scrambled; some of the recording will not decode"@.len() as int),
{
    reveal_strlit("% of packets are scrambled; some of the recording will not decode");
    reveal_with_fuel(pairless, 66);
}

/// These words hold none of the telling ones.
proof fn size_words()
    ensures
        pairless("the picture size changes "@, ('n', 'w'), "the picture size changes "@.len() as int),
        pairless("the picture size changes "@, ('c', 'e'), "the picture size changes "@.len() as int),
        pairless("the picture size changes "@, ('u', 'p'), "the picture size changes "@.len() as int),
{
    reveal_strlit("the picture size changes ");
    reveal_with_fuel(pairless, 26);
}

/// These words hold none of the telling ones.
proof fn times_words()
    ensures
        pairless(" time(s) mid-recording, so the output is written as "@, ('n', 'w'), " time(s) mid-recording, so the output is written as "@.len() as int),
        pairless(" time(s) mid-recording, so the output is written as "@, ('c', 'e'), " time(s) mid-recording, so the output is written as "@.len() as int),
        pairless(" time(s) mid-recording, so the output is written as "@, ('u', 'p'), " time(s) mid-recording, so the output is written as "@.len() as int),
{
    reveal_strlit(" time(s) mid-recording, so the output is written as ");
    reveal_with_fuel(pairless, 53);
}

/// These words hold none of the telling ones.
proof fn files_words()
    ensures
        pairless(" separate files"@, ('n', 'w'), " separate files"@.len() as int),
        pairless(" separate files"@, ('c', 'e'), " separate files"@.len() as int),
        pairless(" separate files"@, ('u', 'p'), " separate files"@.len() as int),
{
    reveal_strlit(" separate files");
    reveal_with_fuel(pairless, 16);
}

/// These words hold none of the telling ones.
proof fn caption_words()
    ensures
        pairless("this recording carries captions, which Asaborake does not yet extract"@, ('n', 'w'), "this recording carries captions, which Asaborake does not yet extract"@.len() as int),
        pairless("this recording carries captions, which Asaborake does not yet extract"@, ('c', 'e'), "this recording carries captions, which Asaborake does not yet extract"@.len() as int),
        pairless("this recording carries captions, which Asaborake does not yet extract"@, ('u', 'p'), "this recording carries captions, which Asaborake does not yet extract"@.len() as int),
{
    reveal_strlit("this recording carries captions, which Asaborake does not yet extract");
    reveal_with_fuel(pairless, 70);
}

/// These words hold none of the telling ones.
proof fn track_words()
    ensures
        pairless(" audio tracks, all carried through to the output"@, ('n', 'w'), " audio tracks, all carried through to the output"@.len() as int),
        pairless(" audio tracks, all carried through to the output"@, ('c', 'e'), " audio tracks, all carried through to the output"@.len() as int),
        pairless(" audio tracks, all carried through to the output"@, ('u', 'p'), " audio tracks, all carried through to the output"@.len() as int),
{
    reveal_strlit(" audio tracks, all carried through to the output");
    reveal_with_fuel(pairless, 49);
}

/// These words hold none of the telling ones.
proof fn bilingual_words()
    ensures
        pairless("bilingual audio ("@, ('n', 'w'), "bilingual audio ("@.len() as int),
        pairless("bilingual audio ("@, ('c', 'e'), "bilingual audio ("@.len() as int),
        pairless("bilingual audio ("@, ('u', 'p'), "bilingual audio ("@.len() as int),
{
    reveal_strlit("bilingual audio (");
    reveal_with_fuel(pairless, 18);
}

/// These words hold none of the telling ones.
proof fn between_words()
    ensures
        pairless(" and "@, ('n', 'w'), " and "@.len() as int),
        pairless(" and "@, ('c', 'e'), " and "@.len() as int),
        pairless(" and "@, ('u', 'p'), " and "@.len() as int),
{
    reveal_strlit(" and ");
    reveal_with_fuel(pairless, 6);
}

/// These words hold none of the telling ones.
proof fn channel_words()
    ensures
        pairless("); the two channels are split into separate tracks"@, ('n', 'w'), "); the two channels are split into separate tracks"@.len() as int),
        pairless("); the two channels are split into separate tracks"@, ('c', 'e'), "); the two channels are split into separate tracks"@.len() as int),
        pairless("); the two channels are split into separate tracks"@, ('u', 'p'), "); the two channels are split into separate tracks"@.len() as int),
{
    reveal_strlit("); the two channels are split into separate tracks");
    reveal_with_fuel(pairless, 51);
}

/// What is said of anything but the counters holds no telling word but those
/// that a language holds.
proof fn the_rest_is_silent(
    diagnostics: Diagnostics,
    word: Seq<char>,
    pair: (char, char),
    at: int,
)
    requires
        is_telling(word, pair, at),
    ensures
        !mentions(split_warning(diagnostics.split_points@.len()), word),
        !mentions(caption_warning(diagnostics.has_captions), word),
        !mentions(track_warning(diagnostics.audio@.len()), word),
        mentions(bilingual_warning(languages_of(diagnostics.dual_mono)), word)
            <==> a_language_holds(diagnostics, word),
{
    splits_are_silent(diagnostics.split_points@.len(), word, pair, at);
    caption_words();
    no_pair_no_word(
        "this recording carries captions, which Asaborake does not yet extract"@,
        word,
        pair,
        at,
    );
    tracks_are_silent(diagnostics.audio@.len(), word, pair, at);
    if let Some((main, sub)) = languages_of(diagnostics.dual_mono) {
        let (first, second) = (language_text(main), language_text(sub));
        if a_language_holds(diagnostics, word) {
            languages_are_quoted(first, second, word);
        } else {
            languages_are_silent(first, second, word, pair, at);
        }
        assert(bilingual_warning(languages_of(diagnostics.dual_mono))[0]
            == "bilingual audio ("@ + first + " and "@ + second
            + "); the two channels are split into separate tracks"@);
    }
}

proof fn splits_are_silent(count: nat, word: Seq<char>, pair: (char, char), at: int)
    requires
        is_telling(word, pair, at),
    ensures
        !mentions(split_warning(count), word),
{
    size_words();
    times_words();
    files_words();
    numbers_hold_no_word(count, word, pair, at);
    numbers_hold_no_word(count + 1, word, pair, at);
    let first = "the picture size changes "@;
    let second = " time(s) mid-recording, so the output is written as "@;
    let third = " separate files"@;
    no_pair_no_word(first, word, pair, at);
    no_pair_no_word(second, word, pair, at);
    no_pair_no_word(third, word, pair, at);
    reveal_strlit(" time(s) mid-recording, so the output is written as ");
    reveal_strlit(" separate files");
    assert(second[0] == ' ');
    assert(third[0] == ' ');
    let a = first + decimal_digits(count);
    no_word_across(first, decimal_digits(count), word);
    let b = a + second;
    no_word_across(a, second, word);
    let c = b + decimal_digits(count + 1);
    no_word_across(b, decimal_digits(count + 1), word);
    no_word_across(c, third, word);
}

proof fn tracks_are_silent(count: nat, word: Seq<char>, pair: (char, char), at: int)
    requires
        is_telling(word, pair, at),
    ensures
        !mentions(track_warning(count), word),
{
    track_words();
    numbers_hold_no_word(count, word, pair, at);
    let words = " audio tracks, all carried through to the output"@;
    no_pair_no_word(words, word, pair, at);
    no_word_over(decimal_digits(count), words, word);
}

proof fn languages_are_silent(
    main: Seq<char>,
    sub: Seq<char>,
    word: Seq<char>,
    pair: (char, char),
    at: int,
)
    requires
        is_telling(word, pair, at),
        !occurs_in(main, word),
        !occurs_in(sub, word),
    ensures
        !occurs_in(
            "bilingual audio ("@ + main + " and "@ + sub
                + "); the two channels are split into separate tracks"@,
            word,
        ),
{
    bilingual_words();
    between_words();
    channel_words();
    let first = "bilingual audio ("@;
    let second = " and "@;
    let third = "); the two channels are split into separate tracks"@;
    no_pair_no_word(first, word, pair, at);
    no_pair_no_word(second, word, pair, at);
    no_pair_no_word(third, word, pair, at);
    reveal_strlit("bilingual audio (");
    reveal_strlit(" and ");
    reveal_strlit("); the two channels are split into separate tracks");
    assert(first.last() == '(');
    assert(second[0] == ' ' && second.last() == ' ');
    assert(third[0] == ')');
    no_word_over(first, main, word);
    let a = first + main;
    no_word_across(a, second, word);
    let b = a + second;
    assert(b.last() == ' ');
    no_word_over(b, sub, word);
    no_word_across(b + sub, third, word);
}

/// A word that a part holds, the whole holds.
proof fn the_whole_holds_it(head: Seq<char>, part: Seq<char>, tail: Seq<char>, word: Seq<char>)
    requires
        occurs_in(part, word),
    ensures
        occurs_in(head + part + tail, word),
{
    let k = choose|k: int| occurs_at(part, word, k);
    let whole = head + part + tail;
    let start = head.len() + k;
    assert(whole.subrange(start, start + word.len()) =~= part.subrange(k, k + word.len()));
    assert(occurs_at(whole, word, start));
}

proof fn languages_are_quoted(main: Seq<char>, sub: Seq<char>, word: Seq<char>)
    requires
        occurs_in(main, word) || occurs_in(sub, word),
    ensures
        occurs_in(
            "bilingual audio ("@ + main + " and "@ + sub
                + "); the two channels are split into separate tracks"@,
            word,
        ),
{
    let first = "bilingual audio ("@;
    let second = " and "@;
    let third = "); the two channels are split into separate tracks"@;
    if occurs_in(main, word) {
        the_whole_holds_it(first, main, second + sub + third, word);
        assert(first + main + (second + sub + third) =~= first + main + second + sub + third);
    } else {
        the_whole_holds_it(first + main + second, sub, third, word);
    }
}

/// What is said of scrambling holds no telling word but its own.
proof fn scrambling_is_silent(
    scrambled: u64,
    total: u64,
    word: Seq<char>,
    pair: (char, char),
    at: int,
)
    requires
        is_telling(word, pair, at),
        exceeds(scrambled, total, 300) ==> pair != ('n', 'w'),
    ensures
        !mentions(scrambling_warning(scrambled, total), word),
{
    if exceeds(scrambled, total, 300) {
        scrambled_words();
        let n = crate::arith::nearest_even(
            scrambled * 100,
            if total == 0 {
                1
            } else {
                total as int
            },
        ) as nat;
        numbers_hold_no_word(n, word, pair, at);
        let words =
            "% of the recording is still scrambled — decryption failed, and the result will be unwatchable"@;
        no_pair_no_word(words, word, pair, at);
        no_word_over(whole_percent(scrambled, total), words, word);
    } else if exceeds(scrambled, total, 1) {
        doubt_words();
        percentages_hold_no_word(scrambled, total, word, pair, at);
        let words = "% of packets are scrambled; some of the recording will not decode"@;
        no_pair_no_word(words, word, pair, at);
        reveal_strlit("% of packets are scrambled; some of the recording will not decode");
        assert(words[0] == '%');
        no_word_across(fine_percent(scrambled, total), words, word);
    }
}

/// What is said of lost packets holds no telling word but its own.
proof fn loss_is_silent(dropped: u64, total: u64, word: Seq<char>, pair: (char, char), at: int)
    requires
        is_telling(word, pair, at),
        exceeds(dropped, total, 10) ==> pair != ('c', 'e'),
    ensures
        !mentions(loss_warning(dropped, total), word),
{
    if exceeds(dropped, total, 10) {
        loss_words();
        percentages_hold_no_word(dropped, total, word, pair, at);
        let words = "% of packets were lost — reception was poor, expect glitches"@;
        no_pair_no_word(words, word, pair, at);
        reveal_strlit("% of packets were lost — reception was poor, expect glitches");
        assert(words[0] == '%');
        no_word_across(fine_percent(dropped, total), words, word);
    }
}

/// What is said of corrupt packets holds no telling word but its own.
proof fn errors_are_silent(errors: u64, word: Seq<char>, pair: (char, char), at: int)
    requires
        is_telling(word, pair, at),
        errors > 0 ==> pair != ('u', 'p'),
    ensures
        !mentions(error_warning(errors), word),
{
    if errors > 0 {
        error_words();
        numbers_hold_no_word(errors as nat, word, pair, at);
        let words = " packets arrived corrupt and were discarded"@;
        no_pair_no_word(words, word, pair, at);
        no_word_over(decimal_digits(errors as nat), words, word);
    }
}

/// Each counter past its threshold is spoken of by its word.
proof fn the_words_are_there(diagnostics: Diagnostics)
    ensures
        diagnostics.hopeless() ==> mentions(
            scrambling_warning(diagnostics.scrambled_packets, diagnostics.total_packets),
            "unwatchable"@,
        ),
        exceeds(diagnostics.dropped_packets, diagnostics.total_packets, 10) ==> mentions(
            loss_warning(diagnostics.dropped_packets, diagnostics.total_packets),
            "reception"@,
        ),
        diagnostics.error_packets > 0 ==> mentions(
            error_warning(diagnostics.error_packets),
            "corrupt"@,
        ),
{
    if diagnostics.hopeless() {
        let head = whole_percent(diagnostics.scrambled_packets, diagnostics.total_packets);
        let words =
            "% of the recording is still scrambled — decryption failed, and the result will be unwatchable"@;
        reveal_strlit(
            "% of the recording is still scrambled — decryption failed, and the result will be unwatchable",
        );
        reveal_strlit("unwatchable");
        assert(words.skip(words.len() - 11) =~= "unwatchable"@);
        word_inside(head, words, "unwatchable"@, words.len() - 11);
        let said = scrambling_warning(diagnostics.scrambled_packets, diagnostics.total_packets);
        assert(said[0] == head + words);
    }
    if exceeds(diagnostics.dropped_packets, diagnostics.total_packets, 10) {
        let head = fine_percent(diagnostics.dropped_packets, diagnostics.total_packets);
        let words = "% of packets were lost — reception was poor, expect glitches"@;
        reveal_strlit("% of packets were lost — reception was poor, expect glitches");
        reveal_strlit("reception");
        assert(words.subrange(25, 34) =~= "reception"@);
        word_inside(head, words, "reception"@, 25);
        let said = loss_warning(diagnostics.dropped_packets, diagnostics.total_packets);
        assert(said[0] == head + words);
    }
    if diagnostics.error_packets > 0 {
        let head = decimal_digits(diagnostics.error_packets as nat);
        let words = " packets arrived corrupt and were discarded"@;
        reveal_strlit(" packets arrived corrupt and were discarded");
        reveal_strlit("corrupt");
        assert(words.subrange(17, 24) =~= "corrupt"@);
        word_inside(head, words, "corrupt"@, 17);
        let said = error_warning(diagnostics.error_packets);
        assert(said[0] == head + words);
    }
}

proof fn word_inside(head: Seq<char>, words: Seq<char>, word: Seq<char>, at: int)
    requires
        0 <= at,
        at + word.len() <= words.len(),
        words.subrange(at, at + word.len()) == word,
    ensures
        occurs_in(head + words, word),
{
    let k = head.len() + at;
    assert((head + words).subrange(k, k + word.len()) =~= words.subrange(at, at + word.len()));
    assert(occurs_at(head + words, word, k));
}

/// What a diagnosis mentions, one of its parts does.
proof fn mentions_come_from_a_part(diagnostics: Diagnostics, word: Seq<char>)
    ensures
        mentions(diagnostics.problems(), word) <==> {
            ||| mentions(
                scrambling_warning(diagnostics.scrambled_packets, diagnostics.total_packets),
                word,
            )
            ||| mentions(
                loss_warning(diagnostics.dropped_packets, diagnostics.total_packets),
                word,
            )
            ||| mentions(error_warning(diagnostics.error_packets), word)
            ||| mentions(split_warning(diagnostics.split_points@.len()), word)
            ||| mentions(caption_warning(diagnostics.has_captions), word)
            ||| mentions(track_warning(diagnostics.audio@.len()), word)
            ||| mentions(bilingual_warning(languages_of(diagnostics.dual_mono)), word)
        },
{
    let a = scrambling_warning(diagnostics.scrambled_packets, diagnostics.total_packets);
    let b = loss_warning(diagnostics.dropped_packets, diagnostics.total_packets);
    let c = error_warning(diagnostics.error_packets);
    let d = split_warning(diagnostics.split_points@.len());
    let e = caption_warning(diagnostics.has_captions);
    let f = track_warning(diagnostics.audio@.len());
    let g = bilingual_warning(languages_of(diagnostics.dual_mono));
    mentions_of_both(a, b, word);
    mentions_of_both(a + b, c, word);
    mentions_of_both(a + b + c, d, word);
    mentions_of_both(a + b + c + d, e, word);
    mentions_of_both(a + b + c + d + e, f, word);
    mentions_of_both(a + b + c + d + e + f, g, word);
}

proof fn mentions_of_both(left: Seq<Seq<char>>, right: Seq<Seq<char>>, word: Seq<char>)
    ensures
        mentions(left + right, word) <==> mentions(left, word) || mentions(right, word),
{
    let both = left + right;
    if mentions(both, word) {
        let i = choose|i: int| 0 <= i < both.len() && occurs_in(#[trigger] both[i], word);
        if i < left.len() {
            assert(both[i] == left[i]);
        } else {
            assert(both[i] == right[i - left.len()]);
        }
    }
    if mentions(left, word) {
        let i = choose|i: int| 0 <= i < left.len() && occurs_in(#[trigger] left[i], word);
        assert(both[i] == left[i]);
    }
    if mentions(right, word) {
        let i = choose|i: int| 0 <= i < right.len() && occurs_in(#[trigger] right[i], word);
        assert(both[i + left.len()] == right[i]);
    }
}

/// The warnings say what the counters do. "unwatchable" is said exactly of a
/// hopeless recording, which is one with more than three tenths of its packets
/// scrambled; "reception" exactly when more than a hundredth were lost, a
/// proportion and never a count; "corrupt" exactly when any arrived so. Each
/// stands apart from the others. The only other place one of these words can
/// come from is the name of a language of bilingual audio, which is quoted.
pub proof fn warnings_say_what_the_counters_do(diagnostics: Diagnostics)
    ensures
        ({
            let total = if diagnostics.total_packets == 0 {
                1
            } else {
                diagnostics.total_packets as int
            };
            &&& diagnostics.hopeless() <==> diagnostics.scrambled_packets * 10 > total * 3
            &&& mentions(diagnostics.problems(), "unwatchable"@) <==> (
            diagnostics.scrambled_packets * 10 > total * 3 || a_language_holds(
                diagnostics,
                "unwatchable"@,
            ))
            &&& mentions(diagnostics.problems(), "reception"@) <==> (diagnostics.dropped_packets
                * 100 > total || a_language_holds(diagnostics, "reception"@))
            &&& mentions(diagnostics.problems(), "corrupt"@) <==> (diagnostics.error_packets > 0
                || a_language_holds(diagnostics, "corrupt"@))
        }),
{
    the_telling_words();
    the_words_are_there(diagnostics);
    let (scrambled, dropped, total) = (
        diagnostics.scrambled_packets,
        diagnostics.dropped_packets,
        diagnostics.total_packets,
    );
    mentions_come_from_a_part(diagnostics, "unwatchable"@);
    the_rest_is_silent(diagnostics, "unwatchable"@, ('n', 'w'), 1);
    loss_is_silent(dropped, total, "unwatchable"@, ('n', 'w'), 1);
    errors_are_silent(diagnostics.error_packets, "unwatchable"@, ('n', 'w'), 1);
    if !diagnostics.hopeless() {
        scrambling_is_silent(scrambled, total, "unwatchable"@, ('n', 'w'), 1);
    }
    mentions_come_from_a_part(diagnostics, "reception"@);
    the_rest_is_silent(diagnostics, "reception"@, ('c', 'e'), 2);
    scrambling_is_silent(scrambled, total, "reception"@, ('c', 'e'), 2);
    errors_are_silent(diagnostics.error_packets, "reception"@, ('c', 'e'), 2);
    if !exceeds(dropped, total, 10) {
        loss_is_silent(dropped, total, "reception"@, ('c', 'e'), 2);
    }
    mentions_come_from_a_part(diagnostics, "corrupt"@);
    the_rest_is_silent(diagnostics, "corrupt"@, ('u', 'p'), 4);
    scrambling_is_silent(scrambled, total, "corrupt"@, ('u', 'p'), 4);
    loss_is_silent(dropped, total, "corrupt"@, ('u', 'p'), 4);
    if diagnostics.error_packets == 0 {
        errors_are_silent(diagnostics.error_packets, "corrupt"@, ('u', 'p'), 4);
    }
}

} // verus!
