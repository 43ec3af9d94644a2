//! How much room is left where the output is going.
//!
//! An encode that runs out of disk half way through has cost an hour of GPU
//! time and leaves a truncated file that looks like a real one until somebody
//! plays it. The check is cheap and the failure is expensive, so it happens
//! before the job starts rather than being discovered during it.

use vstd::prelude::*;
use vstd::string::*;
use crate::arith::nearest_even;
use crate::arith::round_even;
use crate::text::chars_of;
use crate::text::decimal_digits;
use crate::text::find_char;
use crate::text::first_at_is_first;
use crate::text::nth_word;
use crate::text::padded_digits;
use crate::text::parse_unsigned;
use crate::text::part;
use crate::text::push_padded;
use crate::text::push_wide;
use crate::text::split_at_first;
use crate::text::unsigned_in;
use crate::text::word;

verus! {

/// Always keep this much free, whatever the recording needs: two gibibytes.
///
/// A transport stream that changes picture size is cut into temporary slices
/// beside the output, and the database and its write-ahead log live on the
/// same disk in most deployments. Filling it to the last byte breaks more than
/// the job that did it.
pub const HEADROOM: u64 = 2_147_483_648;

/// The part of the source a transcode is assumed to need: a quarter.
///
/// Broadcast MPEG-2 to H.264 at the shipped profiles lands around a quarter of
/// the original. It is an estimate, not a measurement, so it is deliberately
/// generous: refusing a job that would have fitted is a smaller harm than
/// filling the disk, and both are announced.
pub const EXPECTED_SHARE: u64 = 4;

/// The second line of a text, or what there is of it.
pub open spec fn second_line(text: Seq<char>) -> Seq<char> {
    match split_at_first(text, '\n') {
        Some((_, rest)) => match split_at_first(rest, '\n') {
            Some((line, _)) => line,
            None => rest,
        },
        None => Seq::empty(),
    }
}

/// The free bytes in what `df -Pk` prints: a header, then the filesystem, whose
/// fourth word is how many kibibytes are available.
pub open spec fn available_in(text: Seq<char>) -> Option<nat> {
    match nth_word(second_line(text), 3) {
        Some(word) => match unsigned_in(word, u64::MAX as nat) {
            Some(kibibytes) => if kibibytes * 1_024 <= u64::MAX {
                Some(kibibytes * 1_024)
            } else {
                None
            },
            None => None,
        },
        None => None,
    }
}

/// The second line of a text.
fn line_below(chars: &[char]) -> (line: Vec<char>)
    ensures
        line@ == second_line(chars@),
{
    let first: usize = find_char(chars, '\n');
    proof {
        first_at_is_first(chars@, '\n');
    }
    if first == chars.len() {
        return Vec::new();
    }
    let rest = part(chars, first + 1, chars.len());
    assert(rest@ =~= chars@.skip(first + 1));
    let second: usize = find_char(&rest, '\n');
    proof {
        first_at_is_first(rest@, '\n');
    }
    let line = part(&rest, 0, second);
    assert(line@ =~= second_line(chars@));
    line
}

/// Read the free bytes out of what `df -Pk` prints, when they can be
/// determined.
///
/// `-P` forces one line per filesystem, which is the only part of df's output
/// that is portable. `-k` fixes the unit at 1024 bytes.
#[must_use]
pub fn free_bytes(output: &str) -> (free: Option<u64>)
    ensures
        match free {
            Some(free) => available_in(output@) == Some(free as nat),
            None => available_in(output@) is None,
        },
{
    let line = line_below(&chars_of(output));
    match word(&line, 3) {
        Some(word) => match parse_unsigned(&word, u64::MAX) {
            Some(kibibytes) => if kibibytes <= 0x3f_ffff_ffff_ffff {
                Some(kibibytes * 1_024)
            } else {
                None
            },
            None => None,
        },
        None => None,
    }
}

/// What a transcode of a source of this size is taken to need.
pub open spec fn needed_for(source_size: u64) -> int {
    source_size as int / 4 + HEADROOM
}

/// How much room is missing for a transcode.
///
/// Nothing is missing where there is room, or where free space could not be
/// determined, which must not stop a job: an unusual filesystem is not a
/// reason to refuse to work.
#[must_use]
pub fn shortfall(free: Option<u64>, source_size: u64) -> (short: Option<u64>)
    ensures
        match short {
            Some(short) => free is Some && short == needed_for(source_size) - free->Some_0 && short
                > 0,
            None => free matches Some(free) ==> free >= needed_for(source_size),
        },
{
    match free {
        Some(free) => {
            let needed: u64 = source_size / EXPECTED_SHARE + HEADROOM;
            if needed > free {
                Some(needed - free)
            } else {
                None
            }
        },
        None => None,
    }
}

/// A size as a person reads it.
pub open spec fn size_text(bytes: u64) -> Seq<char> {
    if bytes >= 1_073_741_824 {
        let tenths = nearest_even(bytes * 10, 1_073_741_824) as nat;
        decimal_digits(tenths / 10) + "."@ + padded_digits(tenths % 10, 1) + " GiB"@
    } else {
        decimal_digits(nearest_even(bytes as int, 1_048_576) as nat) + " MiB"@
    }
}

/// A size a person can read.
#[must_use]
pub fn describe(bytes: u64) -> (text: String)
    ensures
        text@ == size_text(bytes),
{
    let mut text = String::new();
    if bytes >= 1_073_741_824 {
        let tenths: u128 = round_even(bytes as u128 * 10, 1_073_741_824);
        push_wide(&mut text, tenths / 10);
        text.append(".");
        push_padded(&mut text, (tenths % 10) as u64, 1);
        text.append(" GiB");
    } else {
        push_wide(&mut text, round_even(bytes as u128, 1_048_576));
        text.append(" MiB");
    }
    assert(text@ =~= size_text(bytes));
    text
}

} // verus!
