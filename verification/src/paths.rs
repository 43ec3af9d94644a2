//! File paths as text, taken apart the way Unix takes them apart.
//!
//! A path is components separated by slashes. Slashes at the end, repeated
//! slashes and components of a single dot say nothing and are looked past.

use vstd::prelude::*;
use vstd::string::*;
use crate::text::chars_of;
use crate::text::part;
use crate::text::string_of;
use crate::text::text_of;

verus! {

/// A path without what says nothing at its end.
pub open spec fn without_end(s: Seq<char>) -> Seq<char>
    decreases s.len(),
{
    if s.len() >= 1 && s.last() == '/' {
        without_end(s.drop_last())
    } else if s.len() >= 2 && s.last() == '.' && s[s.len() - 2] == '/' {
        without_end(s.drop_last())
    } else {
        s
    }
}

/// Where the last component begins: just past the last slash.
pub open spec fn last_start(s: Seq<char>) -> int
    decreases s.len(),
{
    if s.len() == 0 || s.last() == '/' {
        s.len() as int
    } else {
        last_start(s.drop_last())
    }
}

/// The last component.
pub open spec fn last_component(s: Seq<char>) -> Seq<char> {
    without_end(s).skip(last_start(without_end(s)))
}

/// A component that names something, rather than here or the level above.
pub open spec fn is_name(component: Seq<char>) -> bool {
    &&& component.len() > 0
    &&& component != seq!['.']
    &&& component != seq!['.', '.']
}

/// The name at the end of a path, if it ends in one.
pub open spec fn name_of(s: Seq<char>) -> Option<Seq<char>> {
    if is_name(last_component(s)) {
        Some(last_component(s))
    } else {
        None
    }
}

/// Where the extension of a name begins: at its last dot, unless that is its
/// first character or there is none.
pub open spec fn last_dot(name: Seq<char>) -> int
    decreases name.len(),
{
    if name.len() == 0 {
        0
    } else if name.last() == '.' {
        name.len() - 1
    } else {
        last_dot(name.drop_last())
    }
}

/// A name without its extension.
pub open spec fn stem_in(name: Seq<char>) -> Seq<char> {
    if last_dot(name) > 0 {
        name.take(last_dot(name))
    } else {
        name
    }
}

/// The extension of a name, without the dot.
pub open spec fn extension_in(name: Seq<char>) -> Option<Seq<char>> {
    if last_dot(name) > 0 {
        Some(name.skip(last_dot(name) + 1))
    } else {
        None
    }
}

/// The stem of a path.
pub open spec fn stem_of(s: Seq<char>) -> Option<Seq<char>> {
    match name_of(s) {
        Some(name) => Some(stem_in(name)),
        None => None,
    }
}

/// The extension of a path.
pub open spec fn extension_of(s: Seq<char>) -> Option<Seq<char>> {
    match name_of(s) {
        Some(name) => extension_in(name),
        None => None,
    }
}

/// The directory a path lies in; none for the root or nothing at all.
pub open spec fn parent_of(s: Seq<char>) -> Option<Seq<char>> {
    let whole = without_end(s);
    let start = last_start(whole);
    if whole.len() == 0 {
        None
    } else if start == 0 {
        Some(Seq::empty())
    } else {
        let above = without_end(whole.take(start));
        Some(if above.len() == 0 { seq!['/'] } else { above })
    }
}

/// A path below a directory; one that starts at the root stands for itself.
pub open spec fn below(directory: Seq<char>, path: Seq<char>) -> Seq<char> {
    if path.len() > 0 && path[0] == '/' {
        path
    } else if directory.len() > 0 && directory.last() != '/' {
        directory + seq!['/'] + path
    } else {
        directory + path
    }
}

/// A path with another name in place of the one at its end.
pub open spec fn renamed(s: Seq<char>, name: Seq<char>) -> Seq<char> {
    match (name_of(s), parent_of(s)) {
        (Some(_), Some(parent)) => below(parent, name),
        _ => below(s, name),
    }
}

/// A path with another extension in place of its own; one without a name is
/// left alone.
pub open spec fn with_other_extension(s: Seq<char>, extension: Seq<char>) -> Seq<char> {
    let whole = without_end(s);
    match stem_of(s) {
        None => s,
        Some(stem) => whole.take(last_start(whole)) + stem + if extension.len() == 0 {
            Seq::empty()
        } else {
            seq!['.'] + extension
        },
    }
}

/// How long a path is without what says nothing at its end.
fn meaningful_length(chars: &[char]) -> (length: usize)
    ensures
        length <= chars@.len(),
        chars@.take(length as int) == without_end(chars@),
{
    let mut length: usize = chars.len();
    assert(chars@.take(length as int) =~= chars@);
    while (length >= 1 && chars[length - 1] == '/') || (length >= 2 && chars[length - 1] == '.'
        && chars[length - 2] == '/')
        invariant
            length <= chars@.len(),
            without_end(chars@) == without_end(chars@.take(length as int)),
        decreases length,
    {
        assert(chars@.take(length as int).drop_last() =~= chars@.take(length - 1));
        length -= 1;
    }
    length
}

/// Where the last component of the first `length` characters begins.
fn component_start(chars: &[char], length: usize) -> (start: usize)
    requires
        length <= chars@.len(),
    ensures
        start == last_start(chars@.take(length as int)),
        start <= length,
{
    let mut start: usize = length;
    while start > 0 && chars[start - 1] != '/'
        invariant
            start <= length <= chars@.len(),
            last_start(chars@.take(length as int)) == last_start(chars@.take(start as int)),
        decreases start,
    {
        assert(chars@.take(start as int).drop_last() =~= chars@.take(start - 1));
        start -= 1;
    }
    start
}

/// Where the name of a path begins and ends, if it has one.
fn name_bounds(chars: &[char]) -> (bounds: Option<(usize, usize)>)
    ensures
        match bounds {
            Some((start, end)) => {
                &&& start < end <= chars@.len()
                &&& name_of(chars@) == Some(chars@.subrange(start as int, end as int))
                &&& without_end(chars@) == chars@.take(end as int)
                &&& last_start(without_end(chars@)) == start
            },
            None => name_of(chars@) is None,
        },
{
    let end: usize = meaningful_length(chars);
    let start: usize = component_start(chars, end);
    let ghost component = chars@.subrange(start as int, end as int);
    assert(last_component(chars@) =~= component);
    let here = end - start == 1 && chars[start] == '.';
    let above = end - start == 2 && chars[start] == '.' && chars[start + 1] == '.';
    assert(here == (component == seq!['.'])) by {
        if here {
            assert(component =~= seq!['.']);
        }
        if component == seq!['.'] {
            assert(component.len() == 1 && component[0] == '.');
        }
    }
    assert(above == (component == seq!['.', '.'])) by {
        if above {
            assert(component =~= seq!['.', '.']);
        }
        if component == seq!['.', '.'] {
            assert(component.len() == 2 && component[0] == '.' && component[1] == '.');
        }
    }
    if start == end || here || above {
        None
    } else {
        Some((start, end))
    }
}

/// Where the last dot of a name is, or its start where it has none.
fn dot_in(name: &[char]) -> (dot: usize)
    ensures
        dot == last_dot(name@),
        name@.len() > 0 ==> dot < name@.len(),
{
    let mut end: usize = name.len();
    assert(name@.take(end as int) =~= name@);
    while end > 0 && name[end - 1] != '.'
        invariant
            end <= name@.len(),
            last_dot(name@) == last_dot(name@.take(end as int)),
        decreases end,
    {
        assert(name@.take(end as int).drop_last() =~= name@.take(end - 1));
        end -= 1;
    }
    if end > 0 {
        end - 1
    } else {
        0
    }
}

/// The name at the end of a path.
#[must_use]
pub fn file_name(path: &str) -> (name: Option<String>)
    ensures
        text_of(name) == name_of(path@),
{
    let chars = chars_of(path);
    match name_bounds(&chars) {
        Some((start, end)) => Some(string_of(&part(&chars, start, end))),
        None => None,
    }
}

/// The name at the end of a path, without its extension.
#[must_use]
pub fn file_stem(path: &str) -> (stem: Option<String>)
    ensures
        text_of(stem) == stem_of(path@),
{
    let chars = chars_of(path);
    let (start, end): (usize, usize) = match name_bounds(&chars) {
        Some(bounds) => bounds,
        None => {
            return None;
        },
    };
    let name = part(&chars, start, end);
    let dot: usize = dot_in(&name);
    if dot > 0 {
        let stem = part(&name, 0, dot);
        assert(stem@ =~= name@.take(dot as int));
        Some(string_of(&stem))
    } else {
        Some(string_of(&name))
    }
}

/// The extension at the end of a path, without the dot.
#[must_use]
pub fn extension(path: &str) -> (extension: Option<String>)
    ensures
        text_of(extension) == extension_of(path@),
{
    let chars = chars_of(path);
    let (start, end): (usize, usize) = match name_bounds(&chars) {
        Some(bounds) => bounds,
        None => {
            return None;
        },
    };
    let name = part(&chars, start, end);
    let dot: usize = dot_in(&name);
    if dot > 0 {
        let found = part(&name, dot + 1, name.len());
        assert(found@ =~= name@.skip(dot + 1));
        Some(string_of(&found))
    } else {
        None
    }
}

/// The directory a path lies in.
#[must_use]
pub fn parent(path: &str) -> (parent: Option<String>)
    ensures
        text_of(parent) == parent_of(path@),
{
    let chars = chars_of(path);
    let length: usize = meaningful_length(&chars);
    if length == 0 {
        return None;
    }
    let start: usize = component_start(&chars, length);
    let above = part(&chars, 0, start);
    assert(above@ =~= chars@.take(length as int).take(start as int));
    if start == 0 {
        assert(above@ =~= Seq::empty());
        return Some(string_of(&above));
    }
    let kept: usize = meaningful_length(&above);
    if kept == 0 {
        let mut root: Vec<char> = Vec::new();
        root.push('/');
        assert(root@ =~= seq!['/']);
        return Some(string_of(&root));
    }
    let directory = part(&above, 0, kept);
    assert(directory@ =~= above@.take(kept as int));
    Some(string_of(&directory))
}

/// A path below a directory.
#[must_use]
pub fn join(directory: &str, path: &str) -> (joined: String)
    ensures
        joined@ == below(directory@, path@),
{
    let below_it = chars_of(path);
    if below_it.len() > 0 && below_it[0] == '/' {
        return string_of(&below_it);
    }
    let above = chars_of(directory);
    let mut joined = string_of(&above);
    if above.len() > 0 && above[above.len() - 1] != '/' {
        joined.push('/');
    }
    joined.append(path);
    assert(joined@ =~= below(directory@, path@));
    joined
}

/// A path with another name in place of the one at its end.
#[must_use]
pub fn with_file_name(path: &str, name: &str) -> (other: String)
    ensures
        other@ == renamed(path@, name@),
{
    if file_name(path).is_some() {
        match parent(path) {
            Some(directory) => join(directory.as_str(), name),
            None => join(path, name),
        }
    } else {
        join(path, name)
    }
}

/// A path with another extension in place of its own.
#[must_use]
pub fn with_extension(path: &str, extension: &str) -> (other: String)
    ensures
        other@ == with_other_extension(path@, extension@),
{
    let chars = chars_of(path);
    let (start, end): (usize, usize) = match name_bounds(&chars) {
        Some(bounds) => bounds,
        None => {
            return string_of(&chars);
        },
    };
    let name = part(&chars, start, end);
    let dot: usize = dot_in(&name);
    let stem_end: usize = if dot > 0 { start + dot } else { end };
    let kept = part(&chars, 0, stem_end);
    assert(kept@ =~= chars@.take(end as int).take(start as int) + stem_in(name@));
    let mut other = string_of(&kept);
    if chars_of(extension).len() > 0 {
        other.push('.');
        other.append(extension);
    }
    assert(other@ =~= with_other_extension(path@, extension@));
    other
}

/// A name put below a directory stays directly below it: a name with no slash
/// in it cannot climb out.
pub proof fn names_stay_inside(directory: Seq<char>, name: Seq<char>)
    requires
        !name.contains('/'),
        name.len() > 0,
    ensures
        directory.len() == 0 ==> below(directory, name) == name,
        directory.len() > 0 ==> below(directory, name) == directory + (if directory.last() == '/' {
            Seq::<char>::empty()
        } else {
            seq!['/']
        }) + name,
{
    if name[0] == '/' {
        assert(name.contains('/'));
    }
    assert(below(directory, name) =~= directory + (if directory.len() == 0 || directory.last()
        == '/' {
        Seq::<char>::empty()
    } else {
        seq!['/']
    }) + name);
    if directory.len() == 0 {
        assert(below(directory, name) =~= name);
    }
}

/// A name put below a directory is the last of the path that comes of it.
pub proof fn names_below_are_last(directory: Seq<char>, name: Seq<char>)
    requires
        !name.contains('/'),
        is_name(name),
    ensures
        name_of(below(directory, name)) == Some(name),
{
    names_stay_inside(directory, name);
    let path = below(directory, name);
    let start = path.len() - name.len();
    assert(path.skip(start) =~= name);
    assert(path.last() == name.last());
    assert(name.contains(name.last()));
    if name.len() == 1 {
        assert(name =~= seq![name[0]]);
    } else {
        assert(path[path.len() - 2] == name[name.len() - 2]);
        assert(name.contains(name[name.len() - 2]));
    }
    assert(without_end(path) == path);
    assert forall|i: int| start <= i < path.len() implies path[i] != '/' by {
        assert(path[i] == name[i - start]);
    }
    last_start_is_past_a_slash(path, start);
}

proof fn last_start_is_past_a_slash(s: Seq<char>, start: int)
    requires
        0 <= start <= s.len(),
        start == 0 || s[start - 1] == '/',
        forall|i: int| start <= i < s.len() ==> s[i] != '/',
    ensures
        last_start(s) == start,
    decreases s.len(),
{
    if s.len() > start {
        let shorter = s.drop_last();
        assert forall|i: int| start <= i < shorter.len() implies shorter[i] != '/' by {
            assert(shorter[i] == s[i]);
        }
        last_start_is_past_a_slash(shorter, start);
    }
}

/// A name holds no slash.
pub proof fn names_hold_no_slash(path: Seq<char>)
    ensures
        name_of(path) matches Some(name) ==> !name.contains('/'),
{
    let whole = without_end(path);
    last_start_is_the_last(whole);
    let name = last_component(path);
    assert forall|i: int| 0 <= i < name.len() implies name[i] != '/' by {
        assert(name[i] == whole[i + last_start(whole)]);
    }
}

proof fn last_start_is_the_last(s: Seq<char>)
    ensures
        0 <= last_start(s) <= s.len(),
        forall|i: int| last_start(s) <= i < s.len() ==> s[i] != '/',
    decreases s.len(),
{
    if s.len() > 0 && s.last() != '/' {
        let shorter = s.drop_last();
        last_start_is_the_last(shorter);
        assert forall|i: int| last_start(s) <= i < s.len() implies s[i] != '/' by {
            if i < shorter.len() {
                assert(shorter[i] == s[i]);
            }
        }
    }
}

/// The last dot of a name is where no other follows it.
pub proof fn dot_before_an_extension(name: Seq<char>, dot: int)
    requires
        0 <= dot < name.len(),
        name[dot] == '.',
        forall|i: int| dot < i < name.len() ==> name[i] != '.',
    ensures
        last_dot(name) == dot,
    decreases name.len(),
{
    if name.len() > dot + 1 {
        let shorter = name.drop_last();
        assert forall|i: int| dot < i < shorter.len() implies shorter[i] != '.' by {
            assert(shorter[i] == name[i]);
        }
        dot_before_an_extension(shorter, dot);
    }
}

} // verus!
