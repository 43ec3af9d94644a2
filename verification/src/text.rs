//! Building and taking apart text.
//!
//! Everything here works on the characters of a string, so a contract can say
//! exactly which characters come out.

use vstd::prelude::*;
use vstd::string::*;
use crate::arith::nearest;
use crate::arith::nearest_even;
use crate::arith::round_even;

verus! {

/// `String::push` appends one character to the end.
pub assume_specification[ String::push ](text: &mut String, c: char)
    ensures
        final(text)@ == old(text)@.push(c),
;

/// The characters of a string, in order.
pub fn chars_of(text: &str) -> (chars: Vec<char>)
    ensures
        chars@ == text@,
{
    let mut chars: Vec<char> = Vec::new();
    for c in iter: text.chars()
        invariant
            iter.seq() == text@,
            chars@ == text@.take(iter.index()),
    {
        chars.push(c);
        assert(text@.take(iter.index() + 1) =~= text@.take(iter.index()).push(c));
    }
    assert(text@.take(text@.len() as int) =~= text@);
    chars
}

/// The string made of these characters.
pub fn string_of(chars: &[char]) -> (text: String)
    ensures
        text@ == chars@,
{
    let mut text = String::new();
    let mut i: usize = 0;
    while i < chars.len()
        invariant
            i <= chars@.len(),
            text@ == chars@.take(i as int),
        decreases chars@.len() - i,
    {
        text.push(chars[i]);
        assert(chars@.take(i + 1) =~= chars@.take(i as int).push(chars@[i as int]));
        i += 1;
    }
    assert(chars@.take(i as int) =~= chars@);
    text
}

/// The character for one decimal digit.
pub open spec fn digit_char(digit: nat) -> char {
    (('0' as nat) + digit) as char
}

/// A number in base ten, most significant digit first, with no leading zeros.
pub open spec fn decimal_digits(n: nat) -> Seq<char>
    decreases n,
{
    if n < 10 {
        seq![digit_char(n)]
    } else {
        decimal_digits(n / 10).push(digit_char(n % 10))
    }
}

/// A number is written in digits, and at least one.
pub proof fn digits_are_digits(n: nat)
    ensures
        forall|i: int|
            0 <= i < decimal_digits(n).len() ==> '0' <= #[trigger] decimal_digits(n)[i] <= '9',
        decimal_digits(n).len() > 0,
    decreases n,
{
    if n >= 10 {
        digits_are_digits(n / 10);
        let init = decimal_digits(n / 10);
        assert forall|i: int| 0 <= i < decimal_digits(n).len() implies '0'
            <= #[trigger] decimal_digits(n)[i] <= '9' by {
            if i < init.len() {
                assert(decimal_digits(n)[i] == init[i]);
            }
        }
    }
}

/// Digits stand for one number.
pub proof fn digits_name_one_number(left: nat, right: nat)
    requires
        decimal_digits(left) == decimal_digits(right),
    ensures
        left == right,
    decreases left,
{
    let l = decimal_digits(left);
    let r = decimal_digits(right);
    if left >= 10 {
        digits_are_digits(left / 10);
    }
    if right >= 10 {
        digits_are_digits(right / 10);
    }
    assert(l.last() == digit_char(left % 10)) by {
        if left < 10 {
            assert(left % 10 == left);
        }
    }
    assert(r.last() == digit_char(right % 10)) by {
        if right < 10 {
            assert(right % 10 == right);
        }
    }
    assert(left % 10 == right % 10);
    if left >= 10 && right >= 10 {
        assert(l.drop_last() =~= decimal_digits(left / 10));
        assert(r.drop_last() =~= decimal_digits(right / 10));
        digits_name_one_number(left / 10, right / 10);
    }
}

/// Append a number in base ten.
pub fn push_decimal(text: &mut String, n: u64)
    ensures
        final(text)@ == old(text)@ + decimal_digits(n as nat),
    decreases n,
{
    if n >= 10 {
        push_decimal(text, n / 10);
    }
    let digit: u8 = (n % 10) as u8;
    text.push((48 + digit) as char);
    assert(text@ =~= old(text)@ + decimal_digits(n as nat));
}

/// A number in base ten, with a minus sign in front where it is negative.
pub open spec fn signed_digits(n: int) -> Seq<char> {
    if n < 0 {
        seq!['-'] + decimal_digits((-n) as nat)
    } else {
        decimal_digits(n as nat)
    }
}

/// Append a number of either sign.
pub fn push_signed(text: &mut String, n: i64)
    ensures
        final(text)@ == old(text)@ + signed_digits(n as int),
{
    if n < 0 {
        text.push('-');
        push_decimal(text, (-(n as i128)) as u64);
    } else {
        push_decimal(text, n as u64);
    }
    assert(text@ =~= old(text)@ + signed_digits(n as int));
}

/// The last `width` digits of a number in base ten, padded with zeros.
pub open spec fn padded_digits(n: nat, width: nat) -> Seq<char>
    decreases width,
{
    if width == 0 {
        Seq::empty()
    } else {
        padded_digits(n / 10, (width - 1) as nat).push(digit_char(n % 10))
    }
}

/// Append the last `width` digits of a number, padded with zeros.
pub fn push_padded(text: &mut String, n: u64, width: usize)
    ensures
        final(text)@ == old(text)@ + padded_digits(n as nat, width as nat),
    decreases width,
{
    if width > 0 {
        push_padded(text, n / 10, width - 1);
        let digit: u8 = (n % 10) as u8;
        text.push((48 + digit) as char);
    }
    assert(text@ =~= old(text)@ + padded_digits(n as nat, width as nat));
}

/// A whole number as text.
pub fn decimal(n: u64) -> (text: String)
    ensures
        text@ == decimal_digits(n as nat),
{
    let mut text = String::new();
    push_decimal(&mut text, n);
    assert(text@ =~= decimal_digits(n as nat));
    text
}

/// Millionths written with two decimal places, rounded to the nearest.
pub open spec fn two_places(millionths: int) -> Seq<char> {
    let size = if millionths < 0 { -millionths } else { millionths };
    let hundredths = nearest_even(size, 10_000) as nat;
    (if millionths < 0 { seq!['-'] } else { Seq::empty() }) + decimal_digits(hundredths / 100)
        + seq!['.'] + padded_digits(hundredths % 100, 2)
}

/// Append millionths written with two decimal places.
pub fn push_two_places(text: &mut String, millionths: i64)
    ensures
        final(text)@ == old(text)@ + two_places(millionths as int),
{
    let size: u64 = if millionths < 0 {
        text.push('-');
        (-(millionths as i128)) as u64
    } else {
        millionths as u64
    };
    let ghost signed = text@;
    let hundredths: u64 = round_even(size as u128, 10_000) as u64;
    push_decimal(text, hundredths / 100);
    text.push('.');
    push_padded(text, hundredths % 100, 2);
    assert(text@ =~= old(text)@ + two_places(millionths as int));
}

/// A text of its own.
pub fn own(text: &str) -> (copy: String)
    ensures
        copy@ == text@,
{
    text.to_owned()
}

/// The texts a list holds.
pub open spec fn texts(list: Seq<String>) -> Seq<Seq<char>> {
    list.map_values(|text: String| text@)
}

/// What an optional text holds.
pub open spec fn text_of(text: Option<String>) -> Option<Seq<char>> {
    match text {
        Some(text) => Some(text@),
        None => None,
    }
}

/// The texts one after the other, with a separator between.
pub open spec fn joined(parts: Seq<Seq<char>>, separator: Seq<char>) -> Seq<char>
    decreases parts.len(),
{
    if parts.len() == 0 {
        Seq::empty()
    } else if parts.len() == 1 {
        parts[0]
    } else {
        joined(parts.drop_last(), separator) + separator + parts.last()
    }
}

/// Join texts with a separator between.
pub fn join(parts: &[String], separator: &str) -> (text: String)
    ensures
        text@ == joined(texts(parts@), separator@),
{
    let mut text = String::new();
    let ghost all = texts(parts@);
    assert(all.take(0) =~= Seq::empty());
    for i in 0..parts.len()
        invariant
            all == texts(parts@),
            text@ == joined(all.take(i as int), separator@),
    {
        let ghost before = all.take(i as int);
        assert(all.take(i + 1).drop_last() =~= before);
        assert(all.take(i + 1).last() == parts@[i as int]@);
        if i > 0 {
            text.append(separator);
        }
        text.append(parts[i].as_str());
        if i == 0 {
            assert(text@ =~= parts@[0]@);
        }
    }
    assert(all.take(all.len() as int) =~= all);
    text
}

/// A character that Unicode counts as white space.
pub open spec fn is_space(c: char) -> bool {
    let n = c as u32;
    ||| 0x9 <= n <= 0xd
    ||| n == 0x20
    ||| n == 0x85
    ||| n == 0xa0
    ||| n == 0x1680
    ||| 0x2000 <= n <= 0x200a
    ||| n == 0x2028
    ||| n == 0x2029
    ||| n == 0x202f
    ||| n == 0x205f
    ||| n == 0x3000
}

/// Whether a character is white space.
pub fn space(c: char) -> (yes: bool)
    ensures
        yes == is_space(c),
{
    let n: u32 = c as u32;
    (0x9 <= n && n <= 0xd) || n == 0x20 || n == 0x85 || n == 0xa0 || n == 0x1680 || (0x2000 <= n && n
        <= 0x200a) || n == 0x2028 || n == 0x2029 || n == 0x202f || n == 0x205f || n == 0x3000
}

/// Without the white space at the front.
pub open spec fn trimmed_start(s: Seq<char>) -> Seq<char>
    decreases s.len(),
{
    if s.len() > 0 && is_space(s[0]) {
        trimmed_start(s.skip(1))
    } else {
        s
    }
}

/// Without the white space at the back.
pub open spec fn trimmed_end(s: Seq<char>) -> Seq<char>
    decreases s.len(),
{
    if s.len() > 0 && is_space(s.last()) {
        trimmed_end(s.drop_last())
    } else {
        s
    }
}

/// Without the white space at either end.
pub open spec fn trimmed(s: Seq<char>) -> Seq<char> {
    trimmed_end(trimmed_start(s))
}

/// The characters without white space at either end.
pub fn trim(chars: &[char]) -> (kept: Vec<char>)
    ensures
        kept@ == trimmed(chars@),
        kept@.len() <= chars@.len(),
{
    let mut from: usize = 0;
    assert(chars@.skip(0) =~= chars@);
    while from < chars.len() && space(chars[from])
        invariant
            from <= chars@.len(),
            trimmed_start(chars@) == trimmed_start(chars@.skip(from as int)),
        decreases chars@.len() - from,
    {
        assert(chars@.skip(from as int).skip(1) =~= chars@.skip(from + 1));
        from += 1;
    }
    let ghost rest = chars@.skip(from as int);
    assert(trimmed_start(chars@) == rest);
    let mut to: usize = chars.len();
    assert(rest.take(to - from) =~= rest);
    while to > from && space(chars[to - 1])
        invariant
            from <= to <= chars@.len(),
            rest == chars@.skip(from as int),
            trimmed_end(rest) == trimmed_end(rest.take(to - from)),
        decreases to,
    {
        assert(rest.take(to - from).drop_last() =~= rest.take(to - from - 1));
        assert(rest.take(to - from).last() == chars@[to - 1]);
        to -= 1;
    }
    assert(trimmed_end(rest) == rest.take(to - from));
    let mut kept: Vec<char> = Vec::new();
    for i in from..to
        invariant
            from <= to <= chars@.len(),
            kept@ =~= chars@.subrange(from as int, i as int),
    {
        kept.push(chars[i]);
    }
    assert(kept@ =~= rest.take(to - from));
    kept
}

/// Part of a list of characters.
pub fn part(chars: &[char], from: usize, to: usize) -> (kept: Vec<char>)
    requires
        from <= to <= chars@.len(),
    ensures
        kept@ == chars@.subrange(from as int, to as int),
{
    let mut kept: Vec<char> = Vec::new();
    for i in from..to
        invariant
            from <= to <= chars@.len(),
            kept@ =~= chars@.subrange(from as int, i as int),
    {
        kept.push(chars[i]);
    }
    kept
}

/// Where a character first occurs.
pub open spec fn first_at(s: Seq<char>, c: char) -> int
    decreases s.len(),
{
    if s.len() == 0 || s[0] == c {
        0
    } else {
        1 + first_at(s.skip(1), c)
    }
}

/// What comes before and after the first occurrence of a character.
pub open spec fn split_at_first(s: Seq<char>, c: char) -> Option<(Seq<char>, Seq<char>)> {
    let at = first_at(s, c);
    if at >= s.len() {
        None
    } else {
        Some((s.take(at), s.skip(at + 1)))
    }
}

/// The first place a character occurs has it, and none before does.
pub proof fn first_at_is_first(s: Seq<char>, c: char)
    ensures
        0 <= first_at(s, c) <= s.len(),
        first_at(s, c) < s.len() ==> s[first_at(s, c)] == c,
        forall|i: int| 0 <= i < first_at(s, c) ==> s[i] != c,
    decreases s.len(),
{
    if s.len() > 0 && s[0] != c {
        first_at_is_first(s.skip(1), c);
        assert forall|i: int| 0 <= i < first_at(s, c) implies s[i] != c by {
            if i > 0 {
                assert(s.skip(1)[i - 1] == s[i]);
            }
        }
    }
}

/// Where a character first occurs, or the length where it does not.
pub fn find_char(chars: &[char], c: char) -> (at: usize)
    ensures
        at == first_at(chars@, c),
        at <= chars@.len(),
{
    let mut at: usize = 0;
    while at < chars.len() && chars[at] != c
        invariant
            at <= chars@.len(),
            forall|i: int| 0 <= i < at ==> chars@[i] != c,
        decreases chars@.len() - at,
    {
        at += 1;
    }
    proof {
        first_at_is_first(chars@, c);
        let first = first_at(chars@, c);
        if first < at {
            assert(chars@[first] != c);
        }
    }
    at
}

/// A decimal digit.
pub open spec fn is_digit(c: char) -> bool {
    '0' <= c <= '9'
}

/// One or more digits and nothing else.
pub open spec fn all_digits(s: Seq<char>) -> bool {
    s.len() >= 1 && forall|i: int| 0 <= i < s.len() ==> is_digit(#[trigger] s[i])
}

/// The number some digits make.
pub open spec fn number_of(s: Seq<char>) -> nat
    decreases s.len(),
{
    if s.len() == 0 {
        0
    } else {
        number_of(s.drop_last()) * 10 + (s.last() as nat - '0' as nat) as nat
    }
}

/// The number a text of digits names, no larger than a limit. A plus sign in
/// front is allowed.
pub open spec fn unsigned_in(s: Seq<char>, limit: nat) -> Option<nat> {
    let body = if s.len() > 0 && s[0] == '+' { s.skip(1) } else { s };
    if all_digits(body) && number_of(body) <= limit {
        Some(number_of(body))
    } else {
        None
    }
}

/// The number a text of digits names, with either sign in front.
pub open spec fn signed_in(s: Seq<char>) -> Option<int> {
    if s.len() > 0 && s[0] == '-' {
        let body = s.skip(1);
        if all_digits(body) && number_of(body) <= 0x8000_0000_0000_0000 {
            Some(-(number_of(body) as int))
        } else {
            None
        }
    } else {
        match unsigned_in(s, 0x7fff_ffff_ffff_ffff) {
            Some(n) => Some(n as int),
            None => None,
        }
    }
}

/// More digits never make a smaller number.
proof fn numbers_grow(s: Seq<char>, count: int)
    requires
        0 <= count <= s.len(),
    ensures
        number_of(s.take(count)) <= number_of(s),
    decreases s.len() - count,
{
    if count < s.len() {
        numbers_grow(s, count + 1);
        assert(s.take(count + 1).drop_last() =~= s.take(count));
    } else {
        assert(s.take(count) =~= s);
    }
}

/// Read a run of digits, no larger than a limit.
fn read_digits(chars: &[char], from: usize, limit: u64) -> (value: Option<u64>)
    requires
        from <= chars@.len(),
    ensures
        value == (if all_digits(chars@.skip(from as int)) && number_of(chars@.skip(from as int))
            <= limit {
            Some(number_of(chars@.skip(from as int)) as u64)
        } else {
            None
        }),
{
    let ghost body = chars@.skip(from as int);
    if from >= chars.len() {
        return None;
    }
    let mut value: u64 = 0;
    for i in from..chars.len()
        invariant
            from <= chars@.len(),
            body == chars@.skip(from as int),
            value == number_of(body.take(i - from)),
            value <= limit,
            forall|k: int| 0 <= k < i - from ==> is_digit(#[trigger] body[k]),
    {
        let c: char = chars[i];
        assert(body[i - from] == c);
        if !('0' <= c && c <= '9') {
            assert(!is_digit(body[i - from]));
            return None;
        }
        let digit: u64 = (c as u32 - '0' as u32) as u64;
        let next: u128 = value as u128 * 10 + digit as u128;
        assert(body.take(i - from + 1).drop_last() =~= body.take(i - from));
        assert(next == number_of(body.take(i - from + 1)));
        if next > limit as u128 {
            proof {
                numbers_grow(body, i - from + 1);
            }
            return None;
        }
        value = next as u64;
    }
    assert(body.take(body.len() as int) =~= body);
    Some(value)
}

/// Read an unsigned number no larger than a limit.
pub fn parse_unsigned(chars: &[char], limit: u64) -> (value: Option<u64>)
    ensures
        value == (match unsigned_in(chars@, limit as nat) {
            Some(n) => Some(n as u64),
            None => None,
        }),
{
    assert(chars@.skip(0) =~= chars@);
    if chars.len() > 0 && chars[0] == '+' {
        read_digits(chars, 1, limit)
    } else {
        read_digits(chars, 0, limit)
    }
}

/// Read a signed number.
pub fn parse_signed(chars: &[char]) -> (value: Option<i64>)
    ensures
        value == (match signed_in(chars@) {
            Some(n) => Some(n as i64),
            None => None,
        }),
{
    if chars.len() > 0 && chars[0] == '-' {
        match read_digits(chars, 1, 0x8000_0000_0000_0000) {
            Some(size) => Some((-(size as i128)) as i64),
            None => None,
        }
    } else {
        match parse_unsigned(chars, 0x7fff_ffff_ffff_ffff) {
            Some(size) => Some(size as i64),
            None => None,
        }
    }
}

/// One text occurs in another at a place.
pub open spec fn occurs_at(text: Seq<char>, wanted: Seq<char>, at: int) -> bool {
    0 <= at && at + wanted.len() <= text.len() && text.subrange(at, at + wanted.len()) == wanted
}

/// One text occurs in another.
pub open spec fn occurs_in(text: Seq<char>, wanted: Seq<char>) -> bool {
    exists|at: int| occurs_at(text, wanted, at)
}

/// Whether two runs of characters are the same.
pub fn same(left: &[char], right: &[char]) -> (yes: bool)
    ensures
        yes == (left@ == right@),
{
    if left.len() != right.len() {
        return false;
    }
    for i in 0..left.len()
        invariant
            left@.len() == right@.len(),
            left@.take(i as int) =~= right@.take(i as int),
    {
        if left[i] != right[i] {
            assert(left@[i as int] != right@[i as int]);
            return false;
        }
        assert(left@.take(i + 1) =~= left@.take(i as int).push(left@[i as int]));
        assert(right@.take(i + 1) =~= right@.take(i as int).push(right@[i as int]));
    }
    assert(left@.take(left@.len() as int) =~= left@);
    assert(right@.take(right@.len() as int) =~= right@);
    true
}

/// Whether a text occurs at a place.
pub fn found_at(text: &[char], wanted: &[char], at: usize) -> (yes: bool)
    ensures
        yes == occurs_at(text@, wanted@, at as int),
{
    let count: usize = text.len();
    if at > count || wanted.len() > count - at {
        return false;
    }
    for i in 0..wanted.len()
        invariant
            count == text@.len(),
            at + wanted@.len() <= count,
            forall|k: int| 0 <= k < i ==> text@[at + k] == #[trigger] wanted@[k],
    {
        if text[at + i] != wanted[i] {
            assert(text@.subrange(at as int, at + wanted@.len())[i as int] != wanted@[i as int]);
            return false;
        }
    }
    assert(text@.subrange(at as int, at + wanted@.len()) =~= wanted@);
    true
}

/// Whether one text occurs in another.
pub fn contains(text: &[char], wanted: &[char]) -> (yes: bool)
    ensures
        yes == occurs_in(text@, wanted@),
{
    if wanted.len() > text.len() {
        return false;
    }
    let last: usize = text.len() - wanted.len();
    let mut at: usize = 0;
    while at <= last
        invariant
            at <= last + 1,
            last == text@.len() - wanted@.len(),
            forall|i: int| 0 <= i < at ==> !occurs_at(text@, wanted@, i),
        decreases last + 1 - at,
    {
        if found_at(text, wanted, at) {
            return true;
        }
        if at == last {
            assert forall|i: int| !occurs_at(text@, wanted@, i) by {}
            return false;
        }
        at += 1;
    }
    false
}

/// Millionths written out in full, with six decimal places.
pub open spec fn six_places(millionths: nat) -> Seq<char> {
    decimal_digits(millionths / 1_000_000) + seq!['.'] + padded_digits(millionths % 1_000_000, 6)
}

/// Append millionths written out in full.
pub fn push_six_places(text: &mut String, millionths: u64)
    ensures
        final(text)@ == old(text)@ + six_places(millionths as nat),
{
    push_decimal(text, millionths / 1_000_000);
    text.push('.');
    push_padded(text, millionths % 1_000_000, 6);
    assert(text@ =~= old(text)@ + six_places(millionths as nat));
}

/// Millionths written with three decimal places, rounded to the nearest.
pub open spec fn three_places(millionths: nat) -> Seq<char> {
    let thousandths = nearest_even(millionths as int, 1_000) as nat;
    decimal_digits(thousandths / 1_000) + seq!['.'] + padded_digits(thousandths % 1_000, 3)
}

/// Append millionths written with three decimal places.
pub fn push_three_places(text: &mut String, millionths: u64)
    ensures
        final(text)@ == old(text)@ + three_places(millionths as nat),
{
    let thousandths: u64 = round_even(millionths as u128, 1_000) as u64;
    push_decimal(text, thousandths / 1_000);
    text.push('.');
    push_padded(text, thousandths % 1_000, 3);
    assert(text@ =~= old(text)@ + three_places(millionths as nat));
}

/// Millionths written with one decimal place, rounded to the nearest.
pub open spec fn one_place(millionths: nat) -> Seq<char> {
    let tenths = nearest_even(millionths as int, 100_000) as nat;
    decimal_digits(tenths / 10) + seq!['.'] + padded_digits(tenths % 10, 1)
}

/// Append millionths written with one decimal place.
pub fn push_one_place(text: &mut String, millionths: u128)
    ensures
        final(text)@ == old(text)@ + one_place(millionths as nat),
{
    let tenths: u128 = round_even(millionths, 100_000);
    push_wide(text, tenths / 10);
    text.push('.');
    push_padded(text, (tenths % 10) as u64, 1);
    assert(text@ =~= old(text)@ + one_place(millionths as nat));
}

/// Ten to a power.
pub open spec fn pow10(exponent: nat) -> int
    decreases exponent,
{
    if exponent == 0 {
        1
    } else {
        10 * pow10((exponent - 1) as nat)
    }
}

/// The whole-number part, the places after the point, and the exponent of a
/// decimal such as `25`, `1.5` or `1e+03`, sign apart: the digits on either
/// side of the point run together, how many came after it, and the exponent.
pub open spec fn decimal_parts(s: Seq<char>) -> Option<(Seq<char>, int, int)> {
    let e = if first_at(s, 'e') < first_at(s, 'E') { first_at(s, 'e') } else { first_at(s, 'E') };
    let mantissa = s.take(e);
    let power = if e < s.len() { exponent_in(s.skip(e + 1)) } else { Some(0int) };
    let point = first_at(mantissa, '.');
    let whole = mantissa.take(point);
    let fraction = if point < mantissa.len() { mantissa.skip(point + 1) } else { Seq::empty() };
    let digits = whole + fraction;
    if all_digits(digits) && power is Some {
        Some((digits, fraction.len() as int, power->Some_0))
    } else {
        None
    }
}

/// An exponent, with either sign in front.
pub open spec fn exponent_in(s: Seq<char>) -> Option<int> {
    let signed = s.len() > 0 && (s[0] == '+' || s[0] == '-');
    let body = if signed { s.skip(1) } else { s };
    if all_digits(body) {
        Some(if signed && s[0] == '-' { -(number_of(body) as int) } else { number_of(body) as int })
    } else {
        None
    }
}

/// Digits scaled by a power of ten, to the nearest.
pub open spec fn scaled(digits: Seq<char>, places: int) -> int {
    let n = number_of(digits) as int;
    if places >= 0 {
        n * pow10(places as nat)
    } else {
        nearest(n, pow10((-places) as nat))
    }
}

/// The size of a decimal in millionths, to the nearest, where that is a number
/// of sixty-four bits.
pub open spec fn size_in_millionths(parts: (Seq<char>, int, int)) -> Option<int> {
    let size = scaled(parts.0, 6 - parts.1 + parts.2);
    if size <= 0x7fff_ffff_ffff_ffff {
        Some(size)
    } else {
        None
    }
}

/// A decimal in millionths: digits with a point and an exponent where wanted,
/// and a sign in front.
pub open spec fn decimal_in(s: Seq<char>) -> Option<int> {
    let signed = s.len() > 0 && (s[0] == '+' || s[0] == '-');
    let body = if signed { s.skip(1) } else { s };
    match decimal_parts(body) {
        None => None,
        Some(parts) => match size_in_millionths(parts) {
            None => None,
            Some(size) => Some(if signed && s[0] == '-' { -size } else { size }),
        },
    }
}

fn power_of_ten(exponent: usize) -> (power: u64)
    requires
        exponent <= 18,
    ensures
        power == pow10(exponent as nat),
        1 <= power <= 1_000_000_000_000_000_000,
{
    reveal_with_fuel(pow10, 20);
    match exponent {
        0 => 1,
        1 => 10,
        2 => 100,
        3 => 1_000,
        4 => 10_000,
        5 => 100_000,
        6 => 1_000_000,
        7 => 10_000_000,
        8 => 100_000_000,
        9 => 1_000_000_000,
        10 => 10_000_000_000,
        11 => 100_000_000_000,
        12 => 1_000_000_000_000,
        13 => 10_000_000_000_000,
        14 => 100_000_000_000_000,
        15 => 1_000_000_000_000_000,
        16 => 10_000_000_000_000_000,
        17 => 100_000_000_000_000_000,
        _ => 1_000_000_000_000_000_000,
    }
}

/// An exponent further from nothing than this is as good as this one: no text
/// has digits enough to make up for it.
pub const FAR: i128 = 1_000_000_000_000_000_000_000_000;

/// A number, or the limit where it is more.
pub open spec fn at_most(n: int, limit: int) -> int {
    if n > limit {
        limit
    } else {
        n
    }
}

/// Read an exponent, as far as it matters.
fn parse_exponent(chars: &[char]) -> (value: Option<i128>)
    ensures
        match value {
            Some(n) => exponent_in(chars@) matches Some(exponent) && n == (if exponent < 0 {
                -at_most(-exponent, FAR as int)
            } else {
                at_most(exponent, FAR as int)
            }),
            None => exponent_in(chars@) is None,
        },
        value matches Some(n) ==> -FAR <= n <= FAR,
{
    let signed = chars.len() > 0 && (chars[0] == '+' || chars[0] == '-');
    let body = part(chars, if signed { 1 } else { 0 }, chars.len());
    assert(body@ =~= if signed { chars@.skip(1) } else { chars@ });
    if !are_digits(&body) {
        return None;
    }
    let mut size: i128 = 0;
    assert(body@.take(0) =~= Seq::empty());
    for i in 0..body.len()
        invariant
            all_digits(body@),
            0 <= size <= FAR,
            size == at_most(number_of(body@.take(i as int)) as int, FAR as int),
    {
        assert(is_digit(body@[i as int]));
        assert(body@.take(i + 1).drop_last() =~= body@.take(i as int));
        assert(body@.take(i + 1).last() == body@[i as int]);
        let digit: i128 = (body[i] as u32 - '0' as u32) as i128;
        let next: i128 = size * 10 + digit;
        size = if next > FAR { FAR } else { next };
    }
    assert(body@.take(body@.len() as int) =~= body@);
    Some(if signed && chars[0] == '-' { -size } else { size })
}

proof fn pow10_grows(few: nat, more: nat)
    requires
        few <= more,
    ensures
        1 <= pow10(few) <= pow10(more),
    decreases more,
{
    if few < more {
        pow10_grows(few, (more - 1) as nat);
    } else if few > 0 {
        pow10_grows((few - 1) as nat, (more - 1) as nat);
    }
}

/// A number is less than the power of ten that has one more digit.
proof fn numbers_are_bounded(s: Seq<char>)
    requires
        forall|i: int| 0 <= i < s.len() ==> is_digit(#[trigger] s[i]),
    ensures
        number_of(s) < pow10(s.len()),
    decreases s.len(),
{
    if s.len() > 0 {
        let shorter = s.drop_last();
        assert forall|i: int| 0 <= i < shorter.len() implies is_digit(#[trigger] shorter[i]) by {
            assert(shorter[i] == s[i]);
        }
        numbers_are_bounded(shorter);
        assert(is_digit(s[s.len() - 1]));
    }
}

/// The digits at the back of a number are worth what they are, and those at
/// the front a power of ten more.
proof fn numbers_split(s: Seq<char>, keep: int)
    requires
        0 <= keep <= s.len(),
        forall|i: int| 0 <= i < s.len() ==> is_digit(#[trigger] s[i]),
    ensures
        number_of(s) == number_of(s.take(keep)) * pow10((s.len() - keep) as nat) + number_of(
            s.skip(keep),
        ),
    decreases s.len(),
{
    if keep == s.len() {
        assert(s.take(keep) =~= s);
        assert(s.skip(keep) =~= Seq::empty());
        assert(pow10(0) == 1);
        assert(number_of(s) * 1 == number_of(s));
    } else {
        let shorter = s.drop_last();
        assert forall|i: int| 0 <= i < shorter.len() implies is_digit(#[trigger] shorter[i]) by {
            assert(shorter[i] == s[i]);
        }
        numbers_split(shorter, keep);
        assert(shorter.take(keep) =~= s.take(keep));
        assert(s.skip(keep).drop_last() =~= shorter.skip(keep));
        assert(s.skip(keep).last() == s.last());
        let head = number_of(s.take(keep)) as int;
        let fewer = (shorter.len() - keep) as nat;
        let power = pow10(fewer);
        assert(pow10((s.len() - keep) as nat) == 10 * power);
        assert((head * power) * 10 == head * (10 * power)) by (nonlinear_arith);
        assert(is_digit(s[s.len() - 1]));
        let digit = s.last() as int - '0' as int;
        assert(number_of(s) == number_of(shorter) * 10 + digit);
        assert(number_of(s.skip(keep)) == number_of(shorter.skip(keep)) * 10 + digit);
        assert(number_of(shorter) == head * power + number_of(shorter.skip(keep)));
    }
}

/// Rounding to the nearest looks at one digit: the first of those dropped.
proof fn rounding_looks_at_one_digit(digits: Seq<char>, keep: int)
    requires
        all_digits(digits),
        0 <= keep < digits.len(),
    ensures
        scaled(digits, keep - digits.len()) == number_of(digits.take(keep)) + (if digits[keep]
            >= '5' {
            1int
        } else {
            0
        }),
{
    let m = (digits.len() - keep) as nat;
    let tail = digits.skip(keep);
    let rest = tail.skip(1);
    numbers_split(digits, keep);
    assert forall|i: int| 0 <= i < tail.len() implies is_digit(#[trigger] tail[i]) by {
        assert(tail[i] == digits[i + keep]);
    }
    numbers_split(tail, 1);
    assert forall|i: int| 0 <= i < rest.len() implies is_digit(#[trigger] rest[i]) by {
        assert(rest[i] == tail[i + 1]);
    }
    numbers_are_bounded(rest);
    reveal_with_fuel(number_of, 2);
    let first = number_of(tail.take(1)) as int;
    assert(tail.take(1).drop_last() =~= Seq::empty());
    assert(tail.take(1).last() == digits[keep]);
    assert(is_digit(digits[keep]));
    assert(first == digits[keep] as int - '0' as int);
    let unit = pow10((m - 1) as nat);
    assert(pow10(m) == 10 * unit);
    pow10_grows(0, (m - 1) as nat);
    let head = number_of(digits.take(keep)) as int;
    let up: int = if digits[keep] >= '5' { 1 } else { 0 };
    let whole = head + up;
    let n = number_of(digits) as int;
    assert(2 * (whole * pow10(m)) <= 2 * n + pow10(m) && 2 * n + pow10(m) < 2 * (whole * pow10(m))
        + 2 * pow10(m)) by (nonlinear_arith)
        requires
            n == head * pow10(m) + (first * unit + number_of(rest)),
            0 <= number_of(rest) < unit,
            pow10(m) == 10 * unit,
            unit >= 1,
            0 <= first <= 9,
            whole == head + up,
            up == 1 && first >= 5 || up == 0 && first < 5,
    ;
    crate::arith::nearest_is(n, pow10(m), whole);
}

/// Dropping more digits than there are leaves nothing.
proof fn scaled_to_nothing(digits: Seq<char>, places: int)
    requires
        all_digits(digits),
        places < -digits.len(),
    ensures
        scaled(digits, places) == 0,
{
    numbers_are_bounded(digits);
    let m = (-places) as nat;
    pow10_grows(digits.len() + 1, m);
    assert(pow10(digits.len() + 1) == 10 * pow10(digits.len()));
    crate::arith::nearest_is(number_of(digits) as int, pow10(m), 0);
}

/// Scaling anything by so much is out of reach.
proof fn scaled_out_of_reach(digits: Seq<char>, places: int)
    requires
        number_of(digits) > 0,
        places > 18,
    ensures
        scaled(digits, places) > 0x7fff_ffff_ffff_ffff,
{
    reveal_with_fuel(pow10, 21);
    assert(pow10(19) == 10_000_000_000_000_000_000);
    pow10_grows(19, places as nat);
    let n = number_of(digits) as int;
    let power = pow10(places as nat);
    assert(n * power >= power) by (nonlinear_arith)
        requires
            n >= 1,
            power >= 1,
    ;
}

/// Scaling does not make a number smaller.
proof fn scaled_is_no_less(n: int, places: nat)
    requires
        n >= 0,
    ensures
        n * pow10(places) >= n,
        n == 0 ==> n * pow10(places) == 0,
{
    pow10_grows(0, places);
    let power = pow10(places);
    assert(n * power >= n) by (nonlinear_arith)
        requires
            n >= 0,
            power >= 1,
    ;
}

/// Scale digits by a power of ten, to the nearest.
fn scale_digits(digits: &[char], places: i128) -> (size: Option<i64>)
    requires
        all_digits(digits@),
        -2 * FAR <= places <= 2 * FAR,
    ensures
        match size {
            Some(size) => size == scaled(digits@, places as int),
            None => scaled(digits@, places as int) > 0x7fff_ffff_ffff_ffff,
        },
        size matches Some(size) ==> size >= 0,
{
    let count: usize = digits.len();
    assert(digits@.skip(0) =~= digits@);
    if places >= 0 {
        let n: u64 = match read_digits(digits, 0, 0x7fff_ffff_ffff_ffff) {
            Some(n) => n,
            None => {
                proof {
                    scaled_is_no_less(number_of(digits@) as int, places as nat);
                }
                return None;
            },
        };
        if n == 0 {
            proof {
                scaled_is_no_less(0, places as nat);
            }
            return Some(0);
        }
        if places > 18 {
            proof {
                scaled_out_of_reach(digits@, places as int);
            }
            return None;
        }
        return scale_by_ten(n, places as usize);
    }
    let dropped: i128 = -places;
    if dropped > count as i128 {
        proof {
            scaled_to_nothing(digits@, places as int);
        }
        return Some(0);
    }
    let keep: usize = count - dropped as usize;
    proof {
        rounding_looks_at_one_digit(digits@, keep as int);
    }
    let up: u64 = if digits[keep] >= '5' { 1 } else { 0 };
    let head = part(digits, 0, keep);
    assert(head@ =~= digits@.take(keep as int));
    assert(head@.skip(0) =~= head@);
    let mut n: u64 = 0;
    if keep > 0 {
        assert(all_digits(head@)) by {
            assert forall|i: int| 0 <= i < head@.len() implies is_digit(#[trigger] head@[i]) by {
                assert(head@[i] == digits@[i]);
            }
        }
        n = match read_digits(&head, 0, 0x7fff_ffff_ffff_ffff) {
            Some(n) => n,
            None => {
                return None;
            },
        };
    }
    if n + up > 0x7fff_ffff_ffff_ffff {
        None
    } else {
        Some((n + up) as i64)
    }
}

/// Scale a whole number up by a power of ten.
fn scale_by_ten(n: u64, places: usize) -> (size: Option<i64>)
    requires
        n <= 0x7fff_ffff_ffff_ffff,
        places <= 18,
    ensures
        match size {
            Some(size) => size == n * pow10(places as nat),
            None => n * pow10(places as nat) > 0x7fff_ffff_ffff_ffff,
        },
        size matches Some(size) ==> size >= 0,
{
    let scale: u64 = power_of_ten(places);
    assert(0 <= n * scale <= 0x7fff_ffff_ffff_ffff * 1_000_000_000_000_000_000)
        by (nonlinear_arith)
        requires
            0 <= n <= 0x7fff_ffff_ffff_ffff,
            1 <= scale <= 1_000_000_000_000_000_000,
    ;
    let product: u128 = n as u128 * scale as u128;
    if product > 0x7fff_ffff_ffff_ffff {
        None
    } else {
        Some(product as i64)
    }
}

/// Take a decimal without its sign apart.
fn parse_parts(body: &[char]) -> (parts: Option<(Vec<char>, usize, i128)>)
    ensures
        match parts {
            Some(parts) => decimal_parts(body@) matches Some(wanted) && {
                &&& parts.0@ == wanted.0
                &&& all_digits(parts.0@)
                &&& parts.1 == wanted.1
                &&& parts.2 == (if wanted.2 < 0 {
                    -at_most(-wanted.2, FAR as int)
                } else {
                    at_most(wanted.2, FAR as int)
                })
                &&& -FAR <= parts.2 <= FAR
            },
            None => decimal_parts(body@) is None,
        },
{
    let lower: usize = find_char(body, 'e');
    let upper: usize = find_char(body, 'E');
    let e: usize = if lower < upper { lower } else { upper };
    let mantissa = part(body, 0, e);
    assert(mantissa@ =~= body@.take(e as int));
    let exponent: i128 = if e < body.len() {
        let tail = part(body, e + 1, body.len());
        assert(tail@ =~= body@.skip(e + 1));
        match parse_exponent(&tail) {
            Some(exponent) => exponent,
            None => {
                return None;
            },
        }
    } else {
        0
    };
    let point: usize = find_char(&mantissa, '.');
    let mut digits = part(&mantissa, 0, point);
    assert(digits@ =~= mantissa@.take(point as int));
    let mut places: usize = 0;
    if point < mantissa.len() {
        let mut fraction = part(&mantissa, point + 1, mantissa.len());
        assert(fraction@ =~= mantissa@.skip(point + 1));
        places = fraction.len();
        digits.append(&mut fraction);
    } else {
        assert(digits@ =~= digits@ + Seq::<char>::empty());
    }
    if !are_digits(&digits) {
        return None;
    }
    Some((digits, places, exponent))
}

/// Whether there are one or more digits and nothing else.
pub fn are_digits(chars: &[char]) -> (yes: bool)
    ensures
        yes == all_digits(chars@),
{
    for i in 0..chars.len()
        invariant
            forall|k: int| 0 <= k < i ==> is_digit(#[trigger] chars@[k]),
    {
        let c: char = chars[i];
        if !('0' <= c && c <= '9') {
            assert(!is_digit(chars@[i as int]));
            return false;
        }
    }
    chars.len() > 0
}

/// Read a decimal as millionths.
pub fn parse_decimal(chars: &[char]) -> (value: Option<i64>)
    ensures
        value == (match decimal_in(chars@) {
            Some(n) => Some(n as i64),
            None => None,
        }),
        decimal_in(chars@) matches Some(n) ==> i64::MIN <= n <= i64::MAX,
{
    let signed = chars.len() > 0 && (chars[0] == '+' || chars[0] == '-');
    let body = part(chars, if signed { 1 } else { 0 }, chars.len());
    assert(body@ =~= if signed { chars@.skip(1) } else { chars@ });
    let (digits, places, exponent) = match parse_parts(&body) {
        Some(parts) => parts,
        None => {
            return None;
        },
    };
    let net: i128 = 6 - places as i128 + exponent;
    let count: usize = digits.len();
    proof {
        assert(count <= 0xffff_ffff_ffff_ffff);
        let parts = decimal_parts(body@)->Some_0;
        let wanted = 6 - parts.1 + parts.2;
        if wanted != net {
            far_exponents_are_alike(digits@, wanted, net as int);
        }
    }
    match scale_digits(&digits, net) {
        Some(size) => Some(if signed && chars[0] == '-' { -size } else { size }),
        None => None,
    }
}

/// So far out, one exponent does what another does.
proof fn far_exponents_are_alike(digits: Seq<char>, left: int, right: int)
    requires
        all_digits(digits),
        (left > 18 && right > 18) || (left < -digits.len() && right < -digits.len()),
    ensures
        scaled(digits, left) == scaled(digits, right) || (scaled(digits, left)
            > 0x7fff_ffff_ffff_ffff && scaled(digits, right) > 0x7fff_ffff_ffff_ffff),
{
    if left > 18 {
        if number_of(digits) > 0 {
            scaled_out_of_reach(digits, left);
            scaled_out_of_reach(digits, right);
        } else {
            scaled_is_no_less(0, left as nat);
            scaled_is_no_less(0, right as nat);
        }
    } else {
        scaled_to_nothing(digits, left);
        scaled_to_nothing(digits, right);
    }
}

/// Where a text first occurs in another, or past the end where it does not.
pub open spec fn first_occurrence(text: Seq<char>, wanted: Seq<char>, from: int) -> int
    decreases text.len() + 1 - from,
{
    if from + wanted.len() > text.len() || occurs_at(text, wanted, from) {
        from
    } else {
        first_occurrence(text, wanted, from + 1)
    }
}

/// Where a text first occurs in another at or after a place; `None` where it
/// does not.
pub fn find_text(text: &[char], wanted: &[char], from: usize) -> (at: Option<usize>)
    requires
        from <= text@.len(),
    ensures
        match at {
            Some(at) => {
                &&& at == first_occurrence(text@, wanted@, from as int)
                &&& occurs_at(text@, wanted@, at as int)
                &&& at + wanted@.len() <= text@.len()
                &&& from <= at
            },
            None => !occurs_at(
                text@,
                wanted@,
                first_occurrence(text@, wanted@, from as int),
            ),
        },
{
    let count: usize = text.len();
    let mut at: usize = from;
    while at <= count && wanted.len() <= count - at
        invariant
            count == text@.len(),
            from <= at <= count,
            first_occurrence(text@, wanted@, from as int) == first_occurrence(
                text@,
                wanted@,
                at as int,
            ),
        decreases count - at,
    {
        if found_at(text, wanted, at) {
            return Some(at);
        }
        if at == count {
            assert(wanted@.len() == 0);
            assert(text@.subrange(at as int, at as int) =~= wanted@);
            return None;
        }
        at += 1;
    }
    None
}

/// The first run of characters that are not white space, if there is one.
pub open spec fn first_word(s: Seq<char>) -> Option<Seq<char>> {
    let rest = trimmed_start(s);
    if rest.len() == 0 {
        None
    } else {
        Some(rest.take(word_end(rest)))
    }
}

/// How many characters there are before the first white space.
pub open spec fn word_end(s: Seq<char>) -> int
    decreases s.len(),
{
    if s.len() == 0 || is_space(s[0]) {
        0
    } else {
        1 + word_end(s.skip(1))
    }
}

proof fn word_end_is_within(s: Seq<char>)
    ensures
        0 <= word_end(s) <= s.len(),
    decreases s.len(),
{
    if s.len() > 0 && !is_space(s[0]) {
        word_end_is_within(s.skip(1));
    }
}

/// Where the first word at or after a place begins, and where it ends; the
/// two are the same when there is none.
pub fn word_at(chars: &[char], start: usize) -> (bounds: (usize, usize))
    requires
        start <= chars@.len(),
    ensures
        start <= bounds.0 <= bounds.1 <= chars@.len(),
        match first_word(chars@.skip(start as int)) {
            Some(word) => bounds.0 < bounds.1 && word == chars@.subrange(
                bounds.0 as int,
                bounds.1 as int,
            ) && trimmed_start(chars@.skip(start as int)) == chars@.skip(bounds.0 as int),
            None => bounds.0 == bounds.1,
        },
{
    let ghost s = chars@.skip(start as int);
    let mut from: usize = start;
    while from < chars.len() && space(chars[from])
        invariant
            start <= from <= chars@.len(),
            s == chars@.skip(start as int),
            trimmed_start(s) == trimmed_start(chars@.skip(from as int)),
        decreases chars@.len() - from,
    {
        assert(chars@.skip(from as int).skip(1) =~= chars@.skip(from + 1));
        from += 1;
    }
    let ghost rest = chars@.skip(from as int);
    assert(trimmed_start(s) == rest);
    let mut to: usize = from;
    assert(rest.skip(0) =~= rest);
    while to < chars.len() && !space(chars[to])
        invariant
            from <= to <= chars@.len(),
            rest == chars@.skip(from as int),
            word_end(rest) == to - from + word_end(rest.skip(to - from)),
        decreases chars@.len() - to,
    {
        assert(rest.skip(to - from).skip(1) =~= rest.skip(to - from + 1));
        assert(rest.skip(to - from)[0] == chars@[to as int]);
        to += 1;
    }
    assert(word_end(rest) == to - from);
    assert(rest.take(to - from) =~= chars@.subrange(from as int, to as int));
    (from, to)
}

/// How many bytes a character takes as UTF-8.
pub open spec fn utf8_width(c: char) -> int {
    let n = c as u32;
    if n < 0x80 {
        1
    } else if n < 0x800 {
        2
    } else if n < 0x1_0000 {
        3
    } else {
        4
    }
}

/// How many bytes some characters take as UTF-8.
pub open spec fn utf8_length(s: Seq<char>) -> int
    decreases s.len(),
{
    if s.len() == 0 {
        0
    } else {
        utf8_length(s.drop_last()) + utf8_width(s.last())
    }
}

/// How many bytes some characters take as UTF-8.
pub fn byte_length(chars: &[char]) -> (length: u128)
    ensures
        length == utf8_length(chars@),
{
    let mut length: u128 = 0;
    for i in 0..chars.len()
        invariant
            length == utf8_length(chars@.take(i as int)),
            length <= 4 * i,
    {
        assert(chars@.take(i + 1).drop_last() =~= chars@.take(i as int));
        let n: u32 = chars[i] as u32;
        length += if n < 0x80 {
            1
        } else if n < 0x800 {
            2
        } else if n < 0x1_0000 {
            3
        } else {
            4
        };
    }
    assert(chars@.take(chars@.len() as int) =~= chars@);
    length
}

/// One text comes before another: at the first character where they differ,
/// or by being a shorter beginning of it.
pub open spec fn comes_before(left: Seq<char>, right: Seq<char>) -> bool
    decreases left.len(),
{
    if right.len() == 0 {
        false
    } else if left.len() == 0 {
        true
    } else if left[0] != right[0] {
        left[0] < right[0]
    } else {
        comes_before(left.skip(1), right.skip(1))
    }
}

/// Whether one text comes before another.
pub fn is_before(left: &[char], right: &[char]) -> (yes: bool)
    ensures
        yes == comes_before(left@, right@),
{
    let mut i: usize = 0;
    assert(left@.skip(0) =~= left@);
    assert(right@.skip(0) =~= right@);
    while i < left.len() && i < right.len()
        invariant
            i <= left@.len(),
            i <= right@.len(),
            comes_before(left@, right@) == comes_before(
                left@.skip(i as int),
                right@.skip(i as int),
            ),
        decreases left@.len() - i,
    {
        assert(left@.skip(i as int)[0] == left@[i as int]);
        assert(right@.skip(i as int)[0] == right@[i as int]);
        if left[i] != right[i] {
            return left[i] < right[i];
        }
        assert(left@.skip(i as int).skip(1) =~= left@.skip(i + 1));
        assert(right@.skip(i as int).skip(1) =~= right@.skip(i + 1));
        i += 1;
    }
    i < right.len()
}

/// A text never comes before itself, and of two different texts exactly one
/// comes before the other.
pub proof fn texts_are_ordered(left: Seq<char>, right: Seq<char>)
    ensures
        left == right ==> !comes_before(left, right),
        left != right ==> (comes_before(left, right) <==> !comes_before(right, left)),
    decreases left.len(),
{
    if left.len() > 0 && right.len() > 0 && left[0] == right[0] {
        texts_are_ordered(left.skip(1), right.skip(1));
        if left.skip(1) == right.skip(1) {
            assert(left =~= seq![left[0]] + left.skip(1));
            assert(right =~= seq![right[0]] + right.skip(1));
        }
    } else if left.len() == 0 && right.len() == 0 {
        assert(left =~= right);
    }
}

/// The order of texts is transitive.
pub proof fn order_is_transitive(a: Seq<char>, b: Seq<char>, c: Seq<char>)
    requires
        comes_before(a, b),
        comes_before(b, c),
    ensures
        comes_before(a, c),
    decreases a.len(),
{
    if a.len() > 0 && a[0] == b[0] && b[0] == c[0] {
        order_is_transitive(a.skip(1), b.skip(1), c.skip(1));
    }
}

/// A number in base ten, with zeros in front to make up a width.
pub open spec fn min_digits(n: nat, width: nat) -> Seq<char>
    decreases width,
{
    if width <= 1 {
        decimal_digits(n)
    } else {
        min_digits(n / 10, (width - 1) as nat).push(digit_char(n % 10))
    }
}

/// Append a number, with zeros in front to make up a width.
pub fn push_min_digits(text: &mut String, n: u64, width: usize)
    ensures
        final(text)@ == old(text)@ + min_digits(n as nat, width as nat),
    decreases width,
{
    if width <= 1 {
        push_decimal(text, n);
    } else {
        push_min_digits(text, n / 10, width - 1);
        let digit: u8 = (n % 10) as u8;
        text.push((48 + digit) as char);
    }
    assert(text@ =~= old(text)@ + min_digits(n as nat, width as nat));
}

/// Without a character at the front, however often it is there.
pub open spec fn stripped_start(s: Seq<char>, c: char) -> Seq<char>
    decreases s.len(),
{
    if s.len() > 0 && s[0] == c {
        stripped_start(s.skip(1), c)
    } else {
        s
    }
}

/// Without a character at the back, however often it is there.
pub open spec fn stripped_end(s: Seq<char>, c: char) -> Seq<char>
    decreases s.len(),
{
    if s.len() > 0 && s.last() == c {
        stripped_end(s.drop_last(), c)
    } else {
        s
    }
}

/// Take a character off the front, however often it is there.
pub fn strip_start(chars: &[char], c: char) -> (kept: Vec<char>)
    ensures
        kept@ == stripped_start(chars@, c),
{
    let mut from: usize = 0;
    assert(chars@.skip(0) =~= chars@);
    while from < chars.len() && chars[from] == c
        invariant
            from <= chars@.len(),
            stripped_start(chars@, c) == stripped_start(chars@.skip(from as int), c),
        decreases chars@.len() - from,
    {
        assert(chars@.skip(from as int).skip(1) =~= chars@.skip(from + 1));
        from += 1;
    }
    let kept = part(chars, from, chars.len());
    assert(kept@ =~= chars@.skip(from as int));
    kept
}

/// Take a character off the back, however often it is there.
pub fn strip_end(chars: &[char], c: char) -> (kept: Vec<char>)
    ensures
        kept@ == stripped_end(chars@, c),
{
    let mut to: usize = chars.len();
    assert(chars@.take(to as int) =~= chars@);
    while to > 0 && chars[to - 1] == c
        invariant
            to <= chars@.len(),
            stripped_end(chars@, c) == stripped_end(chars@.take(to as int), c),
        decreases to,
    {
        assert(chars@.take(to as int).drop_last() =~= chars@.take(to - 1));
        to -= 1;
    }
    let kept = part(chars, 0, to);
    assert(kept@ =~= chars@.take(to as int));
    kept
}

/// What is left after stripping is a stretch of what was there, and neither
/// begins nor ends with what was stripped.
pub proof fn stripping_keeps_a_stretch(s: Seq<char>, c: char)
    ensures
        exists|k: int| 0 <= k <= s.len() && stripped_start(s, c) == #[trigger] s.skip(k),
        exists|k: int| 0 <= k <= s.len() && stripped_end(s, c) == #[trigger] s.take(k),
        stripped_start(s, c).len() > 0 ==> stripped_start(s, c)[0] != c,
        stripped_end(s, c).len() > 0 ==> stripped_end(s, c).last() != c,
    decreases s.len(),
{
    assert(s.skip(0) =~= s);
    assert(s.take(s.len() as int) =~= s);
    if s.len() > 0 {
        if s[0] == c {
            stripping_keeps_a_stretch(s.skip(1), c);
            let k = choose|k: int|
                0 <= k <= s.skip(1).len() && stripped_start(s.skip(1), c) == #[trigger] s.skip(
                    1,
                ).skip(k);
            assert(s.skip(1).skip(k) =~= s.skip(k + 1));
        }
        if s.last() == c {
            stripping_keeps_a_stretch(s.drop_last(), c);
            let k = choose|k: int|
                0 <= k <= s.drop_last().len() && stripped_end(s.drop_last(), c)
                    == #[trigger] s.drop_last().take(k);
            assert(s.drop_last().take(k) =~= s.take(k));
        }
    }
}

/// What is left after trimming is a stretch of what was there.
pub proof fn trimming_keeps_a_stretch(s: Seq<char>)
    ensures
        exists|k: int| 0 <= k <= s.len() && trimmed_start(s) == #[trigger] s.skip(k),
        exists|k: int| 0 <= k <= s.len() && trimmed_end(s) == #[trigger] s.take(k),
    decreases s.len(),
{
    assert(s.skip(0) =~= s);
    assert(s.take(s.len() as int) =~= s);
    if s.len() > 0 {
        if is_space(s[0]) {
            trimming_keeps_a_stretch(s.skip(1));
            let k = choose|k: int|
                0 <= k <= s.skip(1).len() && trimmed_start(s.skip(1)) == #[trigger] s.skip(1).skip(
                    k,
                );
            assert(s.skip(1).skip(k) =~= s.skip(k + 1));
        }
        if is_space(s.last()) {
            trimming_keeps_a_stretch(s.drop_last());
            let k = choose|k: int|
                0 <= k <= s.drop_last().len() && trimmed_end(s.drop_last())
                    == #[trigger] s.drop_last().take(k);
            assert(s.drop_last().take(k) =~= s.take(k));
        }
    }
}

/// A text in lower case, as Unicode has it.
pub uninterp spec fn lowered(text: Seq<char>) -> Seq<char>;

/// `str::to_lowercase`. Claimed: its result is a function of the text alone,
/// whatever the locale.
#[verifier::external_body]
pub(crate) fn lower(text: &str) -> (lower: String)
    ensures
        lower@ == lowered(text@),
{
    text.to_lowercase()
}

/// An ASCII letter in lower case; any other character as it is.
pub open spec fn ascii_lowered(c: char) -> char {
    if 'A' <= c <= 'Z' {
        (c as u32 + 32) as char
    } else {
        c
    }
}

/// A text with its ASCII letters in lower case.
pub open spec fn ascii_lower_of(s: Seq<char>) -> Seq<char> {
    s.map_values(|c: char| ascii_lowered(c))
}

/// Put the ASCII letters of a text in lower case.
pub fn ascii_lower(text: &str) -> (lower: Vec<char>)
    ensures
        lower@ == ascii_lower_of(text@),
{
    let chars = chars_of(text);
    let mut lower: Vec<char> = Vec::new();
    for i in 0..chars.len()
        invariant
            chars@ == text@,
            lower@ =~= ascii_lower_of(text@).take(i as int),
    {
        let c: char = chars[i];
        if 'A' <= c && c <= 'Z' {
            let code: u8 = c as u8;
            lower.push((code + 32) as char);
        } else {
            lower.push(c);
        }
    }
    assert(lower@ =~= ascii_lower_of(text@));
    lower
}

/// A letter or digit of ASCII.
pub open spec fn is_alphanumeric(c: char) -> bool {
    'a' <= c <= 'z' || 'A' <= c <= 'Z' || '0' <= c <= '9'
}

/// Whether two texts are the same.
pub fn same_text(left: &str, right: &str) -> (yes: bool)
    ensures
        yes == (left@ == right@),
{
    same(&chars_of(left), &chars_of(right))
}

/// Whether an optional text is this one.
pub fn same_option(left: &Option<String>, right: &str) -> (yes: bool)
    ensures
        yes == (text_of(*left) == Some(right@)),
{
    match left {
        Some(left) => same_text(left.as_str(), right),
        None => false,
    }
}

/// Append a copy of a text to a list.
pub fn push_copy(list: &mut Vec<String>, text: &str)
    ensures
        texts(final(list)@) == texts(old(list)@).push(text@),
{
    list.push(own(text));
    assert(texts(list@) =~= texts(old(list)@).push(text@));
}

/// Append copies of some texts to a list.
pub fn append_texts(list: &mut Vec<String>, more: &[String])
    ensures
        texts(final(list)@) == texts(old(list)@) + texts(more@),
{
    let ghost ahead = texts(list@);
    for i in 0..more.len()
        invariant
            texts(list@) =~= ahead + texts(more@).take(i as int),
    {
        push_copy(list, more[i].as_str());
        assert(texts(more@).take(i + 1) =~= texts(more@).take(i as int).push(more@[i as int]@));
    }
    assert(texts(more@).take(more@.len() as int) =~= texts(more@));
}

/// Copy a list of texts.
pub fn copy_texts(list: &[String]) -> (copy: Vec<String>)
    ensures
        texts(copy@) == texts(list@),
{
    let mut copy: Vec<String> = Vec::new();
    append_texts(&mut copy, list);
    assert(texts(copy@) =~= texts(list@));
    copy
}

/// Copy an optional text.
pub fn copy_option(text: &Option<String>) -> (copy: Option<String>)
    ensures
        text_of(copy) == text_of(*text),
{
    match text {
        Some(text) => Some(own(text.as_str())),
        None => None,
    }
}

/// Millionths, of either sign, written with three decimal places.
pub open spec fn signed_three_places(millionths: int) -> Seq<char> {
    if millionths < 0 {
        seq!['-'] + three_places((-millionths) as nat)
    } else {
        three_places(millionths as nat)
    }
}

/// Append millionths, of either sign, written with three decimal places.
pub fn push_signed_three_places(text: &mut String, millionths: i64)
    ensures
        final(text)@ == old(text)@ + signed_three_places(millionths as int),
{
    if millionths < 0 {
        text.push('-');
        push_three_places(text, (-(millionths as i128)) as u64);
    } else {
        push_three_places(text, millionths as u64);
    }
    assert(text@ =~= old(text)@ + signed_three_places(millionths as int));
}

/// Append a large number in base ten.
pub fn push_wide(text: &mut String, n: u128)
    ensures
        final(text)@ == old(text)@ + decimal_digits(n as nat),
    decreases n,
{
    if n >= 10 {
        push_wide(text, n / 10);
    }
    let digit: u8 = (n % 10) as u8;
    text.push((48 + digit) as char);
    assert(text@ =~= old(text)@ + decimal_digits(n as nat));
}

/// A word by its place, counting from zero.
pub open spec fn nth_word(s: Seq<char>, n: nat) -> Option<Seq<char>>
    decreases n,
{
    let rest = trimmed_start(s);
    if rest.len() == 0 {
        None
    } else if n == 0 {
        Some(rest.take(word_end(rest)))
    } else {
        nth_word(rest.skip(word_end(rest)), (n - 1) as nat)
    }
}

/// Find a word by its place, counting from zero.
pub fn word(chars: &[char], n: usize) -> (word: Option<Vec<char>>)
    ensures
        (match word {
            Some(word) => Some(word@),
            None => None,
        }) == nth_word(chars@, n as nat),
{
    let mut start: usize = 0;
    let mut left: usize = n;
    assert(chars@.skip(0) =~= chars@);
    loop
        invariant
            start <= chars@.len(),
            nth_word(chars@, n as nat) == nth_word(chars@.skip(start as int), left as nat),
        decreases left,
    {
        let (from, to): (usize, usize) = word_at(chars, start);
        let ghost rest = trimmed_start(chars@.skip(start as int));
        if from == to {
            return None;
        }
        proof {
            word_end_is_within(rest);
            assert(rest == chars@.skip(from as int));
            assert(rest.take(word_end(rest)) == chars@.subrange(from as int, to as int));
            assert(rest.take(word_end(rest)).len() == to - from);
            assert(rest.skip(word_end(rest)) =~= chars@.skip(to as int));
        }
        if left == 0 {
            return Some(part(chars, from, to));
        }
        start = to;
        left -= 1;
    }
}

/// Millionths, of either sign, written with one decimal place.
pub open spec fn signed_one_place(millionths: int) -> Seq<char> {
    if millionths < 0 {
        seq!['-'] + one_place((-millionths) as nat)
    } else {
        one_place(millionths as nat)
    }
}

/// Append millionths, of either sign, written with one decimal place.
pub fn push_signed_one_place(text: &mut String, millionths: i128)
    requires
        millionths > i128::MIN,
    ensures
        final(text)@ == old(text)@ + signed_one_place(millionths as int),
{
    if millionths < 0 {
        text.push('-');
        push_one_place(text, (-millionths) as u128);
    } else {
        push_one_place(text, millionths as u128);
    }
    assert(text@ =~= old(text)@ + signed_one_place(millionths as int));
}

/// So many spaces.
pub open spec fn spaces(count: int) -> Seq<char> {
    Seq::new(if count > 0 { count as nat } else { 0 }, |i: int| ' ')
}

/// A text with spaces in front to make up a width.
pub open spec fn right_aligned(s: Seq<char>, width: int) -> Seq<char> {
    spaces(width - s.len()) + s
}

/// A text with spaces behind to make up a width.
pub open spec fn left_aligned(s: Seq<char>, width: int) -> Seq<char> {
    s + spaces(width - s.len())
}

fn push_spaces(text: &mut String, count: usize)
    ensures
        final(text)@ == old(text)@ + spaces(count as int),
{
    let ghost before = text@;
    for i in 0..count
        invariant
            text@ =~= before + spaces(i as int),
    {
        text.push(' ');
    }
}

/// Append a text with spaces in front to make up a width.
pub fn push_right(text: &mut String, more: &str, width: usize)
    ensures
        final(text)@ == old(text)@ + right_aligned(more@, width as int),
{
    let length: usize = chars_of(more).len();
    if length < width {
        push_spaces(text, width - length);
    }
    text.append(more);
    assert(text@ =~= old(text)@ + right_aligned(more@, width as int));
}

/// Append a text with spaces behind to make up a width.
pub fn push_left(text: &mut String, more: &str, width: usize)
    ensures
        final(text)@ == old(text)@ + left_aligned(more@, width as int),
{
    let length: usize = chars_of(more).len();
    text.append(more);
    if length < width {
        push_spaces(text, width - length);
    }
    assert(text@ =~= old(text)@ + left_aligned(more@, width as int));
}

} // verus!
