//! Which recordings the logo tool is allowed to look at.
//!
//! The tool serves frames out of recordings so a browser can show what one
//! looks like. That means a path arrives over HTTP and is handed to ffmpeg,
//! and `../../etc/shadow` is a perfectly good path. Nothing outside the
//! configured directories is readable, and the check is done on the
//! *canonical* path so a symlink cannot be used to step outside one either.

use vstd::prelude::*;
use vstd::string::*;
use crate::order::is_stable_order;
use crate::order::precedes;
use crate::order::ranking;
use crate::order::stable_order;
use crate::order::stable_order_exists;
use crate::paths::extension;
use crate::paths::extension_of;
use crate::text::ascii_lower;
use crate::text::ascii_lower_of;
use crate::text::chars_of;
use crate::text::comes_before;
use crate::text::is_before;
use crate::text::order_is_transitive;
use crate::text::same;
use crate::text::texts;
use crate::text::texts_are_ordered;

verus! {

/// A recording, going by its name. Anything else is not offered.
pub open spec fn is_recording_name(path: Seq<char>) -> bool {
    extension_of(path) matches Some(extension) && {
        let lower = ascii_lower_of(extension);
        lower == "ts"@ || lower == "m2ts"@ || lower == "mts"@ || lower == "tsv"@ || lower
            == "mp4"@ || lower == "mkv"@
    }
}

/// Whether the path looks like something worth offering.
#[must_use]
pub fn is_recording(path: &str) -> (yes: bool)
    ensures
        yes == is_recording_name(path@),
{
    match extension(path) {
        Some(extension) => {
            let lower = ascii_lower(extension.as_str());
            same(&lower, &chars_of("ts")) || same(&lower, &chars_of("m2ts")) || same(
                &lower,
                &chars_of("mts"),
            ) || same(&lower, &chars_of("tsv")) || same(&lower, &chars_of("mp4")) || same(
                &lower,
                &chars_of("mkv"),
            )
        },
        None => false,
    }
}

/// A canonical path lies inside a canonical directory, or is it: it goes on
/// from the directory with a slash.
pub open spec fn lies_inside(root: Seq<char>, path: Seq<char>) -> bool {
    &&& root.len() <= path.len()
    &&& path.take(root.len() as int) == root
    &&& path.len() == root.len() || (root.len() > 0 && root.last() == '/') || path[root.len() as int]
        == '/'
}

/// Whether a canonical path lies inside a canonical directory.
fn is_inside(root: &str, path: &str) -> (yes: bool)
    ensures
        yes == lies_inside(root@, path@),
{
    let directory = chars_of(root);
    let file = chars_of(path);
    let length: usize = directory.len();
    if length > file.len() {
        return false;
    }
    for i in 0..length
        invariant
            directory@ == root@,
            file@ == path@,
            length == directory@.len(),
            length <= file@.len(),
            file@.take(i as int) =~= directory@.take(i as int),
    {
        if directory[i] != file[i] {
            assert(path@.take(length as int)[i as int] != root@[i as int]);
            return false;
        }
    }
    assert(directory@.take(length as int) =~= directory@);
    file.len() == length || (length > 0 && directory[length - 1] == '/') || file[length] == '/'
}

/// A path may be shown: it is a file, a recording, and inside one of the
/// directories.
pub open spec fn is_admitted(roots: Seq<Seq<char>>, path: Seq<char>, is_file: bool) -> bool {
    &&& is_file
    &&& is_recording_name(path)
    &&& exists|i: int| 0 <= i < roots.len() && lies_inside(#[trigger] roots[i], path)
}

/// Whether a path the client asked for may be shown.
///
/// Both the path and the directories are canonical, which is what defeats both
/// `..` and symlinks: they are resolved before the comparison rather than
/// after. No more than a yes or no is given, because reporting the difference
/// between a refusal and a missing file would let a caller probe the
/// filesystem for what is there.
#[must_use]
pub fn resolve(roots: &[String], path: &str, is_file: bool) -> (admitted: bool)
    ensures
        admitted == is_admitted(texts(roots@), path@, is_file),
{
    if !is_file || !is_recording(path) {
        return false;
    }
    for i in 0..roots.len()
        invariant
            is_file,
            is_recording_name(path@),
            forall|k: int| 0 <= k < i ==> !lies_inside(#[trigger] texts(roots@)[k], path@),
    {
        assert(texts(roots@)[i as int] == roots@[i as int]@);
        if is_inside(roots[i].as_str(), path) {
            assert(lies_inside(texts(roots@)[i as int], path@));
            return true;
        }
    }
    false
}

/// One recording an operator can pick.
#[derive(Debug, Clone, PartialEq, Eq)]
pub struct Recording {
    /// Absolute path, which is what the frame and scan endpoints take back.
    pub path: String,
    /// Just the file name, for display.
    pub name: String,
    /// Size in bytes, so an obviously truncated recording is visible.
    pub size: u64,
}

/// A recording that was found, and when it was last written to, when that is
/// known.
#[derive(Debug)]
pub struct Found {
    /// Nanoseconds since the epoch.
    pub modified: Option<i128>,
    /// The recording.
    pub recording: Recording,
}

/// One recording is listed ahead of another: the newer first, one of unknown
/// age last, and by name where they are of an age. The recording someone wants
/// to aim at is almost always the one that just finished.
pub open spec fn listed_before(a: Found, b: Found) -> bool {
    match (a.modified, b.modified) {
        (Some(x), Some(y)) => x > y || (x == y && comes_before(a.recording.name@, b.recording.name@)),
        (Some(_), None) => true,
        (None, Some(_)) => false,
        (None, None) => comes_before(a.recording.name@, b.recording.name@),
    }
}

fn is_listed_before(a: &Found, b: &Found) -> (yes: bool)
    ensures
        yes == listed_before(*a, *b),
{
    match (a.modified, b.modified) {
        (Some(x), Some(y)) => x > y || (x == y && is_before(
            &chars_of(a.recording.name.as_str()),
            &chars_of(b.recording.name.as_str()),
        )),
        (Some(_), None) => true,
        (None, Some(_)) => false,
        (None, None) => is_before(
            &chars_of(a.recording.name.as_str()),
            &chars_of(b.recording.name.as_str()),
        ),
    }
}

/// How many of the first `count` recordings are listed ahead of one.
pub open spec fn ahead_of(found: Seq<Found>, one: Found, count: nat) -> nat
    decreases count,
{
    if count == 0 {
        0
    } else {
        ahead_of(found, one, (count - 1) as nat) + if listed_before(found[count - 1], one) {
            1nat
        } else {
            0
        }
    }
}

/// How many recordings are listed ahead of each.
pub open spec fn standings(found: Seq<Found>) -> Seq<i128> {
    Seq::new(found.len(), |i: int| ahead_of(found, found[i], found.len()) as i128)
}

/// In which order to list recordings, newest first.
#[must_use]
pub fn list_order(found: &[Found]) -> (order: Vec<usize>)
    ensures
        order@ == ranking(standings(found@)),
        is_stable_order(standings(found@), order@),
{
    let mut keys: Vec<i128> = Vec::new();
    for i in 0..found.len()
        invariant
            keys@ =~= standings(found@).take(i as int),
    {
        let mut ahead: usize = 0;
        for k in 0..found.len()
            invariant
                i < found@.len(),
                ahead == ahead_of(found@, found@[i as int], k as nat),
                ahead <= k,
        {
            if is_listed_before(&found[k], &found[i]) {
                ahead += 1;
            }
        }
        keys.push(ahead as i128);
        assert(standings(found@).take(i + 1) =~= standings(found@).take(i as int).push(
            ahead as i128,
        ));
    }
    assert(keys@ =~= standings(found@));
    stable_order(&keys)
}

/// Being listed ahead carries over.
proof fn listing_is_transitive(a: Found, b: Found, c: Found)
    requires
        listed_before(a, b),
        listed_before(b, c),
    ensures
        listed_before(a, c),
{
    if comes_before(a.recording.name@, b.recording.name@) && comes_before(
        b.recording.name@,
        c.recording.name@,
    ) {
        order_is_transitive(a.recording.name@, b.recording.name@, c.recording.name@);
    }
}

proof fn ahead_is_monotonic(found: Seq<Found>, a: Found, b: Found, count: nat)
    requires
        count <= found.len(),
        listed_before(a, b),
    ensures
        ahead_of(found, a, count) <= ahead_of(found, b, count),
        forall|k: int|
            0 <= k < count && (#[trigger] found[k]) == a ==> ahead_of(found, a, count) < ahead_of(
                found,
                b,
                count,
            ),
        ahead_of(found, b, count) <= count,
    decreases count,
{
    if count > 0 {
        let before = (count - 1) as nat;
        ahead_is_monotonic(found, a, b, before);
        let last = found[count - 1];
        if listed_before(last, a) {
            listing_is_transitive(last, a, b);
        }
        assert forall|k: int| 0 <= k < count && (#[trigger] found[k]) == a implies ahead_of(
            found,
            a,
            count,
        ) < ahead_of(found, b, count) by {
            if k == count - 1 {
                texts_are_ordered(a.recording.name@, a.recording.name@);
                assert(!listed_before(a, a));
            }
        }
    }
}

/// Recordings are listed newest first: one listed ahead of another comes
/// before it in the order.
pub proof fn newer_recordings_come_first(found: Seq<Found>, i: int, j: int)
    requires
        found.len() <= usize::MAX,
        0 <= i < found.len(),
        0 <= j < found.len(),
        listed_before(
            found[ranking(standings(found))[i] as int],
            found[ranking(standings(found))[j] as int],
        ),
    ensures
        i < j,
{
    let keys = standings(found);
    let order = ranking(keys);
    stable_order_exists(keys);
    assert(is_stable_order(keys, order));
    let a = order[i] as int;
    let b = order[j] as int;
    ahead_is_monotonic(found, found[a], found[b], found.len());
    assert(found[a] == found[a]);
    assert(keys[a] < keys[b]);
    if j < i {
        assert(precedes(keys, order[j], order[i]));
    }
    if i == j {
        assert(a == b);
    }
}

} // verus!
