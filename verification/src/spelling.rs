//! What holds of texts that are written, read back and taken apart.

use vstd::prelude::*;
use crate::arith::nearest_even;
use crate::paths::below;
use crate::paths::dot_before_an_extension;
use crate::paths::extension_in;
use crate::paths::extension_of;
use crate::paths::is_name;
use crate::paths::name_of;
use crate::paths::names_below_are_last;
use crate::paths::stem_in;
use crate::paths::stem_of;
use crate::text::all_digits;
use crate::text::comes_before;
use crate::text::decimal_digits;
use crate::text::decimal_in;
use crate::text::decimal_parts;
use crate::text::digit_char;
use crate::text::digits_are_digits;
use crate::text::first_at;
use crate::text::first_at_is_first;
use crate::text::first_occurrence;
use crate::text::first_word;
use crate::text::is_digit;
use crate::text::is_space;
use crate::text::joined;
use crate::text::min_digits;
use crate::text::nth_word;
use crate::text::number_of;
use crate::text::occurs_at;
use crate::text::one_place;
use crate::text::padded_digits;
use crate::text::pow10;
use crate::text::scaled;
use crate::text::signed_digits;
use crate::text::signed_in;
use crate::text::six_places;
use crate::text::split_at_first;
use crate::text::three_places;
use crate::text::trimmed;
use crate::text::trimmed_end;
use crate::text::trimmed_start;
use crate::text::two_places;
use crate::text::unsigned_in;
use crate::text::utf8_length;
use crate::text::word_end;

verus! {

/// A digit stands for its number.
pub proof fn digits_stand_for_numbers(digit: nat)
    requires
        digit < 10,
    ensures
        is_digit(digit_char(digit)),
        digit_char(digit) as nat - '0' as nat == digit,
{
}

/// A number written out reads back as itself.
pub proof fn numbers_read_back(n: nat)
    ensures
        number_of(decimal_digits(n)) == n,
        all_digits(decimal_digits(n)),
    decreases n,
{
    digits_are_digits(n);
    if n < 10 {
        let s = decimal_digits(n);
        assert(s.drop_last() =~= Seq::<char>::empty());
        assert(number_of(s.drop_last()) == 0);
        digits_stand_for_numbers(n);
    } else {
        numbers_read_back(n / 10);
        digits_stand_for_numbers(n % 10);
        let s = decimal_digits(n);
        assert(s.drop_last() =~= decimal_digits(n / 10));
        assert(s.last() == digit_char(n % 10));
    }
}

/// A number within the limit is read, one beyond it is not, and a number with a
/// sign reads back with the same sign.
pub proof fn written_numbers_are_read(n: nat, limit: nat, signed: int)
    requires
        -0x8000_0000_0000_0000 <= signed <= 0x7fff_ffff_ffff_ffff,
    ensures
        n <= limit ==> unsigned_in(decimal_digits(n), limit) == Some(n),
        n > limit ==> unsigned_in(decimal_digits(n), limit) is None,
        signed_in(signed_digits(signed)) == Some(signed),
{
    numbers_read_back(n);
    digits_are_digits(n);
    if signed < 0 {
        let size = (-signed) as nat;
        numbers_read_back(size);
        assert(signed_digits(signed).skip(1) =~= decimal_digits(size));
    } else {
        numbers_read_back(signed as nat);
        digits_are_digits(signed as nat);
    }
}

/// Ten to a power: one, and ten times as much for each place.
pub proof fn places_are_tenfold(places: nat)
    ensures
        pow10(0) == 1,
        pow10(places + 1) == 10 * pow10(places),
        pow10(places) >= 1,
    decreases places,
{
    if places > 0 {
        places_are_tenfold((places - 1) as nat);
    }
}

/// A padded number is as wide as asked, all digits, and reads back as itself
/// where it fits.
pub proof fn padding_fills_the_width(n: nat, width: nat)
    ensures
        padded_digits(n, width).len() == width,
        forall|i: int| 0 <= i < width ==> is_digit(#[trigger] padded_digits(n, width)[i]),
        n < pow10(width) ==> number_of(padded_digits(n, width)) == n,
    decreases width,
{
    if width > 0 {
        let less = (width - 1) as nat;
        padding_fills_the_width(n / 10, less);
        places_are_tenfold(less);
        digits_stand_for_numbers(n % 10);
        let s = padded_digits(n, width);
        assert(s.drop_last() =~= padded_digits(n / 10, less));
        assert(s.last() == digit_char(n % 10));
    }
}

/// A number of a least width is that wide at least, and reads back as itself.
pub proof fn widened_numbers_read_back(n: nat, width: nat)
    ensures
        min_digits(n, width).len() >= width,
        number_of(min_digits(n, width)) == n,
        all_digits(min_digits(n, width)),
        n < 10 && width == 2 ==> min_digits(n, width) == seq!['0', digit_char(n)],
    decreases width,
{
    if width <= 1 {
        digits_are_digits(n);
        numbers_read_back(n);
    } else {
        let less = (width - 1) as nat;
        widened_numbers_read_back(n / 10, less);
        digits_stand_for_numbers(n % 10);
        let s = min_digits(n, width);
        assert(s.drop_last() =~= min_digits(n / 10, less));
        assert(s.last() == digit_char(n % 10));
        if n < 10 && width == 2 {
            assert(min_digits(0, 1) =~= seq!['0']);
            assert(s =~= seq!['0', digit_char(n)]);
        }
    }
}

proof fn numbers_follow_on(left: Seq<char>, right: Seq<char>)
    ensures
        number_of(left + right) == number_of(left) * pow10(right.len()) + number_of(right),
    decreases right.len(),
{
    if right.len() == 0 {
        assert(left + right =~= left);
    } else {
        let shorter = right.drop_last();
        numbers_follow_on(left, shorter);
        assert((left + right).drop_last() =~= left + shorter);
        places_are_tenfold(shorter.len());
        let (n, p, m) = (number_of(left) as int, pow10(shorter.len()), number_of(shorter) as int);
        assert((n * p + m) * 10 == n * (10 * p) + m * 10) by (nonlinear_arith);
    }
}

proof fn decimals_read_back(whole: nat, rest: nat, places: nat)
    requires
        1 <= places <= 6,
        rest < pow10(places),
        (whole * pow10(places) + rest) * pow10((6 - places) as nat) <= 0x7fff_ffff_ffff_ffff,
    ensures
        decimal_in(decimal_digits(whole) + seq!['.'] + padded_digits(rest, places)) == Some(
            (whole * pow10(places) + rest) * pow10((6 - places) as nat),
        ),
{
    let left = decimal_digits(whole);
    let right = padded_digits(rest, places);
    let s = left + seq!['.'] + right;
    digits_are_digits(whole);
    numbers_read_back(whole);
    padding_fills_the_width(rest, places);
    assert forall|i: int| 0 <= i < s.len() implies s[i] != 'e' && s[i] != 'E' by {
        if i < left.len() {
            assert(s[i] == left[i]);
        } else if i > left.len() {
            assert(s[i] == right[i - left.len() - 1]);
            assert(is_digit(right[i - left.len() - 1]));
        }
    }
    first_at_is_first(s, 'e');
    first_at_is_first(s, 'E');
    assert(first_at(s, 'e') == s.len() && first_at(s, 'E') == s.len());
    assert(s.take(s.len() as int) =~= s);
    first_at_is_first(s, '.');
    let point = left.len() as int;
    assert(s[point] == '.');
    if first_at(s, '.') < point {
        assert(s[first_at(s, '.')] == left[first_at(s, '.')]);
    }
    assert(first_at(s, '.') == point);
    assert(s.take(point) =~= left);
    assert(s.skip(point + 1) =~= right);
    let digits = left + right;
    assert forall|i: int| 0 <= i < digits.len() implies is_digit(#[trigger] digits[i]) by {
        if i < left.len() {
            assert(digits[i] == left[i]);
        } else {
            assert(digits[i] == right[i - left.len()]);
        }
    }
    assert(s[0] == left[0]);
    assert(decimal_parts(s) == Some((digits, places as int, 0int)));
    numbers_follow_on(left, right);
    assert(number_of(digits) == whole * pow10(places) + rest);
    assert(scaled(digits, 6 - places) == number_of(digits) * pow10((6 - places) as nat));
}

proof fn small_powers()
    ensures
        pow10(0) == 1,
        pow10(1) == 10,
        pow10(2) == 100,
        pow10(3) == 1_000,
        pow10(4) == 10_000,
        pow10(5) == 100_000,
        pow10(6) == 1_000_000,
{
    places_are_tenfold(0);
    places_are_tenfold(1);
    places_are_tenfold(2);
    places_are_tenfold(3);
    places_are_tenfold(4);
    places_are_tenfold(5);
}

/// A moment written to the microsecond reads back as itself.
pub proof fn moments_read_back(micros: nat)
    requires
        micros <= 0x7fff_ffff_ffff_ffff,
    ensures
        decimal_in(six_places(micros)) == Some(micros as int),
{
    small_powers();
    decimals_read_back(micros / 1_000_000, micros % 1_000_000, 6);
}

/// What is written to three places reads back as the nearest that can be.
pub proof fn thousandths_read_back(micros: nat)
    requires
        micros <= 0x7fff_ffff_ffff_0000,
    ensures
        decimal_in(three_places(micros)) matches Some(read) && -500 <= read - micros <= 500
            && read % 1_000 == 0,
{
    small_powers();
    rounding_is_off_by_a_half_at_most(micros as int, 1_000);
    let count = nearest_even(micros as int, 1_000) as nat;
    let (whole, rest) = (count / 1_000, count % 1_000);
    let read = (whole * pow10(3) + rest) * pow10(3);
    assert(whole * 1_000 + rest == count);
    assert(read == count * 1_000);
    decimals_read_back(whole, rest, 3);
    assert(three_places(micros) =~= decimal_digits(whole) + seq!['.'] + padded_digits(rest, 3));
}

/// What is written to two places reads back as the nearest that can be.
pub proof fn hundredths_read_back(micros: nat)
    requires
        micros <= 0x7fff_ffff_ffff_0000,
    ensures
        decimal_in(two_places(micros as int)) matches Some(read) && -5_000 <= read - micros <= 5_000
            && read % 10_000 == 0,
{
    small_powers();
    rounding_is_off_by_a_half_at_most(micros as int, 10_000);
    let count = nearest_even(micros as int, 10_000) as nat;
    let (whole, rest) = (count / 100, count % 100);
    let read = (whole * pow10(2) + rest) * pow10(4);
    assert(whole * 100 + rest == count);
    assert(read == count * 10_000);
    decimals_read_back(whole, rest, 2);
    assert(two_places(micros as int) =~= decimal_digits(whole) + seq!['.'] + padded_digits(rest, 2));
}

/// What is written to one place reads back as the nearest that can be.
pub proof fn tenths_read_back(micros: nat)
    requires
        micros <= 0x7fff_ffff_ffff_0000,
    ensures
        decimal_in(one_place(micros)) matches Some(read) && -50_000 <= read - micros <= 50_000
            && read % 100_000 == 0,
{
    small_powers();
    rounding_is_off_by_a_half_at_most(micros as int, 100_000);
    let count = nearest_even(micros as int, 100_000) as nat;
    let (whole, rest) = (count / 10, count % 10);
    let read = (whole * pow10(1) + rest) * pow10(5);
    assert(whole * 10 + rest == count);
    assert(read == count * 100_000);
    decimals_read_back(whole, rest, 1);
    assert(one_place(micros) =~= decimal_digits(whole) + seq!['.'] + padded_digits(rest, 1));
}

/// Rounding to the nearest is off by a half at most, and by exactly a half only
/// where that makes the result even.
pub proof fn rounding_is_off_by_a_half_at_most(numerator: int, denominator: int)
    requires
        denominator > 0,
        numerator >= 0,
    ensures
        ({
            let whole = nearest_even(numerator, denominator);
            let off = 2 * (whole * denominator) - 2 * numerator;
            &&& -denominator <= off <= denominator
            &&& off == denominator || off == -denominator ==> whole % 2 == 0
        }),
{
    let whole = numerator / denominator;
    let rest = numerator % denominator;
    vstd::arithmetic::div_mod::lemma_fundamental_div_mod(numerator, denominator);
    vstd::arithmetic::div_mod::lemma_mod_bound(numerator, denominator);
    assert(denominator * whole == whole * denominator) by (nonlinear_arith);
    assert((whole + 1) * denominator == whole * denominator + denominator) by (nonlinear_arith);
}

/// Trimming takes space from both ends and nothing else: what is left neither
/// begins nor ends with any, and only space was taken.
pub proof fn trimming_takes_only_space(s: Seq<char>) -> (bounds: (int, int))
    ensures
        0 <= bounds.0 <= bounds.1 <= s.len(),
        trimmed(s) == s.subrange(bounds.0, bounds.1),
        forall|i: int| 0 <= i < bounds.0 || bounds.1 <= i < s.len() ==> is_space(#[trigger] s[i]),
        trimmed(s).len() > 0 ==> !is_space(trimmed(s)[0]) && !is_space(trimmed(s).last()),
{
    let from = trimming_the_start(s);
    let rest = trimmed_start(s);
    let to = trimming_the_end(rest);
    assert(trimmed(s) =~= s.subrange(from, from + to));
    assert forall|i: int| 0 <= i < from || from + to <= i < s.len() implies is_space(
        #[trigger] s[i],
    ) by {
        if i >= from {
            assert(rest[i - from] == s[i]);
        }
    }
    (from, from + to)
}

proof fn trimming_the_start(s: Seq<char>) -> (from: int)
    ensures
        0 <= from <= s.len(),
        trimmed_start(s) == s.skip(from),
        forall|i: int| 0 <= i < from ==> is_space(#[trigger] s[i]),
        trimmed_start(s).len() > 0 ==> !is_space(trimmed_start(s)[0]),
    decreases s.len(),
{
    if s.len() > 0 && is_space(s[0]) {
        let from = trimming_the_start(s.skip(1));
        assert(s.skip(1).skip(from) =~= s.skip(from + 1));
        assert forall|i: int| 0 <= i < from + 1 implies is_space(#[trigger] s[i]) by {
            if i > 0 {
                assert(s.skip(1)[i - 1] == s[i]);
            }
        }
        from + 1
    } else {
        assert(s.skip(0) =~= s);
        0
    }
}

proof fn trimming_the_end(s: Seq<char>) -> (to: int)
    ensures
        0 <= to <= s.len(),
        trimmed_end(s) == s.take(to),
        forall|i: int| to <= i < s.len() ==> is_space(#[trigger] s[i]),
        trimmed_end(s).len() > 0 ==> !is_space(trimmed_end(s).last()),
    decreases s.len(),
{
    if s.len() > 0 && is_space(s.last()) {
        let to = trimming_the_end(s.drop_last());
        assert(s.drop_last().take(to) =~= s.take(to));
        assert forall|i: int| to <= i < s.len() implies is_space(#[trigger] s[i]) by {
            if i < s.len() - 1 {
                assert(s.drop_last()[i] == s[i]);
            }
        }
        to
    } else {
        assert(s.take(s.len() as int) =~= s);
        s.len() as int
    }
}

/// A text is split at the first separator: the two halves and the separator
/// between them are the text, and the first half holds none.
pub proof fn halves_make_the_whole(s: Seq<char>, c: char)
    ensures
        match split_at_first(s, c) {
            Some((left, right)) => s == left.push(c) + right && !left.contains(c),
            None => !s.contains(c),
        },
{
    first_at_is_first(s, c);
    if let Some((left, right)) = split_at_first(s, c) {
        assert(s =~= left.push(c) + right);
        assert forall|i: int| 0 <= i < left.len() implies left[i] != c by {
            assert(left[i] == s[i]);
        }
    }
}

/// Joining adds a separator between every two parts and nothing else: one part
/// is itself, and one more follows on a separator.
pub proof fn joining_adds_separators(
    parts: Seq<Seq<char>>,
    next: Seq<char>,
    separator: Seq<char>,
)
    ensures
        joined(Seq::empty(), separator) == Seq::<char>::empty(),
        joined(seq![next], separator) == next,
        parts.len() > 0 ==> joined(parts.push(next), separator) == joined(parts, separator)
            + separator + next,
{
    assert(parts.push(next).drop_last() =~= parts);
}

/// A text comes before every longer one that begins with it, and before every
/// one that has a higher character where they first differ.
pub proof fn texts_are_ordered_by_their_first_difference(
    common: Seq<char>,
    low: char,
    high: char,
    left: Seq<char>,
    right: Seq<char>,
)
    requires
        low < high,
    ensures
        comes_before(common, common.push(low) + left),
        comes_before(common.push(low) + left, common.push(high) + right),
        !comes_before(common.push(high) + right, common.push(low) + left),
    decreases common.len(),
{
    let (a, b) = (common.push(low) + left, common.push(high) + right);
    if common.len() > 0 {
        let rest = common.skip(1);
        texts_are_ordered_by_their_first_difference(rest, low, high, left, right);
        assert(a.skip(1) =~= rest.push(low) + left);
        assert(b.skip(1) =~= rest.push(high) + right);
        assert(a[0] == common[0] && b[0] == common[0]);
    } else {
        assert(a[0] == low && b[0] == high);
    }
}

/// A name with an extension is its stem, a dot and the extension, and the
/// extension holds no dot.
pub proof fn names_are_stem_and_extension(stem: Seq<char>, extension: Seq<char>)
    requires
        stem.len() > 0,
        !extension.contains('.'),
    ensures
        stem_in(stem.push('.') + extension) == stem,
        extension_in(stem.push('.') + extension) == Some(extension),
{
    let name = stem.push('.') + extension;
    let dot = stem.len() as int;
    assert(name[dot] == '.');
    assert forall|i: int| dot < i < name.len() implies name[i] != '.' by {
        assert(name[i] == extension[i - dot - 1]);
    }
    dot_before_an_extension(name, dot);
    assert(name.take(dot) =~= stem);
    assert(name.skip(dot + 1) =~= extension);
}

/// A file put in a directory is found there under its own name, with its stem
/// and its extension.
pub proof fn files_keep_their_name(directory: Seq<char>, stem: Seq<char>, extension: Seq<char>)
    requires
        stem.len() > 0,
        !stem.contains('/'),
        !extension.contains('/'),
        !extension.contains('.'),
        is_name(stem.push('.') + extension),
    ensures
        ({
            let path = below(directory, stem.push('.') + extension);
            &&& name_of(path) == Some(stem.push('.') + extension)
            &&& stem_of(path) == Some(stem)
            &&& extension_of(path) == Some(extension)
        }),
{
    let name = stem.push('.') + extension;
    assert forall|i: int| 0 <= i < name.len() implies name[i] != '/' by {
        if i < stem.len() {
            assert(name[i] == stem[i]);
        } else if i > stem.len() {
            assert(name[i] == extension[i - stem.len() - 1]);
        }
    }
    names_below_are_last(directory, name);
    names_are_stem_and_extension(stem, extension);
}

proof fn words_end_at_a_space(word: Seq<char>, rest: Seq<char>)
    requires
        forall|i: int| 0 <= i < word.len() ==> !is_space(#[trigger] word[i]),
        rest.len() > 0 ==> is_space(rest[0]),
    ensures
        word_end(word + rest) == word.len(),
    decreases word.len(),
{
    let s = word + rest;
    if word.len() > 0 {
        assert(s[0] == word[0]);
        assert(s.skip(1) =~= word.skip(1) + rest);
        assert forall|i: int| 0 <= i < word.skip(1).len() implies !is_space(
            #[trigger] word.skip(1)[i],
        ) by {
            assert(word.skip(1)[i] == word[i + 1]);
        }
        words_end_at_a_space(word.skip(1), rest);
    } else {
        assert(s =~= rest);
    }
}

/// Words are what stands between spaces, counted from the first: space before
/// them does not count, and the one after a word is the next.
pub proof fn words_are_counted(space: char, word: Seq<char>, rest: Seq<char>, n: nat)
    requires
        is_space(space),
        word.len() > 0,
        forall|i: int| 0 <= i < word.len() ==> !is_space(#[trigger] word[i]),
        rest.len() > 0 ==> is_space(rest[0]),
    ensures
        nth_word(word + rest, 0) == Some(word),
        first_word(word + rest) == Some(word),
        nth_word(word + rest, n + 1) == nth_word(rest, n),
        nth_word(seq![space] + rest, n) == nth_word(rest, n),
        nth_word(Seq::empty(), n) is None,
{
    let s = word + rest;
    words_end_at_a_space(word, rest);
    assert(s[0] == word[0]);
    assert(trimmed_start(s) == s);
    assert(s.take(word.len() as int) =~= word);
    assert(s.skip(word.len() as int) =~= rest);
    let spaced = seq![space] + rest;
    assert(spaced[0] == space);
    assert(spaced.skip(1) =~= rest);
    assert(trimmed_start(spaced) == trimmed_start(rest));
}

/// Plain letters take one byte each.
pub proof fn plain_letters_take_a_byte(s: Seq<char>)
    requires
        forall|i: int| 0 <= i < s.len() ==> (#[trigger] s[i] as u32) < 0x80,
    ensures
        utf8_length(s) == s.len(),
    decreases s.len(),
{
    if s.len() > 0 {
        assert forall|i: int| 0 <= i < s.drop_last().len() implies (
        #[trigger] s.drop_last()[i] as u32) < 0x80 by {
            assert(s.drop_last()[i] == s[i]);
        }
        plain_letters_take_a_byte(s.drop_last());
        assert(s.last() == s[s.len() - 1]);
    }
}

/// Text is found where it first occurs: nowhere before that does it occur.
pub proof fn the_first_occurrence_is_the_first(text: Seq<char>, wanted: Seq<char>, from: int, k: int)
    requires
        0 <= from,
        from <= k < first_occurrence(text, wanted, from),
    ensures
        !occurs_at(text, wanted, k),
    decreases text.len() + 1 - from,
{
    if from + wanted.len() <= text.len() && !occurs_at(text, wanted, from) && k > from {
        the_first_occurrence_is_the_first(text, wanted, from + 1, k);
    }
}

/// Blanks, tabs and ends of lines are space, and so is the wide space of
/// Japanese text; nothing that can be seen in plain text is.
pub proof fn blanks_are_space(c: char)
    ensures
        is_space(' ') && is_space('\t') && is_space('\n') && is_space('\r'),
        is_space('\u{3000}') && is_space('\u{a0}') && is_space('\u{2003}') && is_space('\u{85}'),
        is_space('\u{2028}') && is_space('\u{202f}') && is_space('\u{205f}') && is_space('\u{1680}'),
        '!' <= c <= '~' ==> !is_space(c),
        c > '\u{3000}' ==> !is_space(c),
{
}

} // verus!
