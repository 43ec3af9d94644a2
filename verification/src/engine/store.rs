//! The logo store.
//!
//! Learning a logo costs three extra decoding passes over the recording. Doing
//! that once per channel instead of once per recording is the difference
//! between an analysis that takes minutes and one that takes seconds, so the
//! result is kept.
//!
//! Logos are keyed by channel *and* frame size, because the rectangle is in
//! pixels: a channel that switches between 1440x1080 and 1920x1080 needs a
//! logo for each, and using one at the other resolution samples the wrong part
//! of the picture entirely.

use vstd::prelude::*;
use vstd::string::*;
use crate::analyze::logo::abl::read_logo;
use crate::analyze::logo::model::LogoData;
use crate::analyze::logo::scan::logo_view;
use crate::paths::below;
use crate::paths::extension;
use crate::paths::extension_of;
use crate::paths::join;
use crate::text::chars_of;
use crate::text::comes_before;
use crate::text::decimal_digits;
use crate::text::digits_are_digits;
use crate::text::digits_name_one_number;
use crate::text::is_alphanumeric;
use crate::text::own;
use crate::text::push_decimal;
use crate::text::same_option;
use crate::text::string_of;
use crate::text::text_of;
use crate::textmap::entries_are_the_keys_in_order;
use crate::textmap::TextMap;

verus! {

/// A channel id made safe to use in a file name.
pub open spec fn safe_id(channel_id: Seq<char>) -> Seq<char> {
    channel_id.map_values(|c: char| if is_alphanumeric(c) { c } else { '_' })
}

/// The name a logo is stored under.
pub open spec fn store_key(channel_id: Seq<char>, width: u32, height: u32) -> Seq<char> {
    safe_id(channel_id) + "-"@ + decimal_digits(width as nat) + "x"@ + decimal_digits(
        height as nat,
    ) + ".abl"@
}

/// The name of the file that marks a channel as carrying no logo.
pub open spec fn mark_name(channel_id: Seq<char>) -> Seq<char> {
    safe_id(channel_id) + ".nologo"@
}

/// Make a channel id safe to use in a file name.
#[must_use]
pub fn safe_channel(channel_id: &str) -> (safe: String)
    ensures
        safe@ == safe_id(channel_id@),
{
    let chars = chars_of(channel_id);
    let mut safe: Vec<char> = Vec::new();
    for i in 0..chars.len()
        invariant
            chars@ == channel_id@,
            safe@ =~= safe_id(channel_id@).take(i as int),
    {
        let c: char = chars[i];
        let plain = ('a' <= c && c <= 'z') || ('A' <= c && c <= 'Z') || ('0' <= c && c <= '9');
        safe.push(if plain { c } else { '_' });
    }
    assert(safe@ =~= safe_id(channel_id@));
    string_of(&safe)
}

/// A directory of learned logos.
#[derive(Debug, Clone)]
pub struct LogoStore {
    root: String,
}

impl LogoStore {
    /// The directory being used.
    pub closed spec fn spec_root(self) -> Seq<char> {
        self.root@
    }

    /// A store in this directory.
    #[must_use]
    pub fn open(root: String) -> (store: LogoStore)
        ensures
            store.spec_root() == root@,
    {
        LogoStore { root }
    }

    /// The directory being used.
    #[must_use]
    pub fn root(&self) -> (root: &str)
        ensures
            root@ == self.spec_root(),
    {
        self.root.as_str()
    }

    /// The filename a logo for this channel and frame size is stored under.
    ///
    /// Channel ids come from `EPGStation` and are numeric in practice, but the
    /// value reaches us through an environment variable, so it is sanitised
    /// rather than trusted to be path-safe.
    #[must_use]
    pub fn key(channel_id: &str, width: u32, height: u32) -> (key: String)
        ensures
            key@ == store_key(channel_id@, width, height),
    {
        let mut key = safe_channel(channel_id);
        key.append("-");
        push_decimal(&mut key, width as u64);
        key.append("x");
        push_decimal(&mut key, height as u64);
        key.append(".abl");
        assert(key@ =~= store_key(channel_id@, width, height));
        key
    }

    /// Where the logo for a channel at a frame size is kept.
    #[must_use]
    pub fn path_for(&self, channel_id: &str, width: u32, height: u32) -> (path: String)
        ensures
            path@ == below(self.spec_root(), store_key(channel_id@, width, height)),
    {
        let key = LogoStore::key(channel_id, width, height);
        join(self.root.as_str(), key.as_str())
    }

    /// Where a logo is kept: under its channel, or as unknown, at the size it
    /// was learned at.
    #[must_use]
    pub fn save_path(&self, logo: &LogoData) -> (path: String)
        ensures
            path@ == below(
                self.spec_root(),
                store_key(
                    match text_of(logo.channel_id) {
                        Some(channel) => channel,
                        None => "unknown"@,
                    },
                    logo.source_width,
                    logo.source_height,
                ),
            ),
    {
        match &logo.channel_id {
            Some(channel) => self.path_for(
                channel.as_str(),
                logo.source_width,
                logo.source_height,
            ),
            None => self.path_for("unknown", logo.source_width, logo.source_height),
        }
    }

    /// Where a channel is marked as carrying no logo. The mark is of the
    /// channel, whatever the picture size.
    #[must_use]
    pub fn mark_for(&self, channel_id: &str) -> (path: String)
        ensures
            path@ == below(self.spec_root(), mark_name(channel_id@)),
    {
        let mut name = safe_channel(channel_id);
        name.append(".nologo");
        join(self.root.as_str(), name.as_str())
    }
}

/// A path is among some paths.
pub open spec fn is_among(paths: Seq<String>, path: Seq<char>) -> bool {
    exists|k: int| 0 <= k < paths.len() && (#[trigger] paths[k])@ == path
}

/// The files of a directory with an extension, in order of their paths.
pub open spec fn are_files_with(files: Seq<String>, paths: Seq<String>, wanted: Seq<char>) -> bool {
    &&& forall|i: int, j: int|
        0 <= i < j < files.len() ==> comes_before((#[trigger] files[i])@, (#[trigger] files[j])@)
    &&& forall|path: Seq<char>| #[trigger]
        is_among(files, path) <==> is_among(paths, path) && extension_of(path) == Some(wanted)
}

/// The files of a directory that hold logos, in order of their paths.
#[must_use]
pub fn logo_files(paths: &[String]) -> (files: Vec<String>)
    ensures
        are_files_with(files@, paths@, "abl"@),
{
    files_with(paths, "abl")
}

/// The files of a directory that mark a channel as carrying no logo, in order
/// of their paths.
#[must_use]
pub fn mark_files(paths: &[String]) -> (files: Vec<String>)
    ensures
        are_files_with(files@, paths@, "nologo"@),
{
    files_with(paths, "nologo")
}

fn files_with(paths: &[String], wanted: &str) -> (files: Vec<String>)
    ensures
        are_files_with(files@, paths@, wanted@),
{
    let mut found: TextMap<()> = TextMap::new();
    for i in 0..paths.len()
        invariant
            found.wf(),
            forall|path: Seq<char>| #[trigger]
                found@.contains_key(path) <==> extension_of(path) == Some(wanted@) && exists|k: int|
                    0 <= k < i && (#[trigger] paths@[k])@ == path,
    {
        let ghost before = found@;
        if same_option(&extension(paths[i].as_str()), wanted) {
            found.insert(own(paths[i].as_str()), ());
        }
        assert forall|path: Seq<char>| #[trigger]
            found@.contains_key(path) <==> extension_of(path) == Some(wanted@) && exists|k: int|
                0 <= k < i + 1 && (#[trigger] paths@[k])@ == path by {
            if found@.contains_key(path) && path != paths@[i as int]@ {
                assert(before.contains_key(path));
            }
            if extension_of(path) == Some(wanted@) && exists|k: int|
                0 <= k < i + 1 && (#[trigger] paths@[k])@ == path {
                let k = choose|k: int| 0 <= k < i + 1 && (#[trigger] paths@[k])@ == path;
                if k < i {
                    assert(before.contains_key(path));
                }
            }
        }
    }
    proof {
        entries_are_the_keys_in_order(found);
    }
    let mut files: Vec<String> = Vec::new();
    let count: usize = found.len();
    for i in 0..count
        invariant
            found.wf(),
            count == found.spec_len(),
            files@.len() == i,
            forall|k: int| 0 <= k < i ==> (#[trigger] files@[k])@ == found.key_at(k),
    {
        let (path, _) = found.entry(i);
        files.push(own(path));
    }
    assert forall|path: Seq<char>| #[trigger]
        is_among(files@, path) <==> is_among(paths@, path) && extension_of(path) == Some(wanted@) by {
        if is_among(files@, path) {
            let k = choose|k: int| 0 <= k < files@.len() && (#[trigger] files@[k])@ == path;
            assert(found.key_at(k) == path);
            assert(found@.contains_key(path));
            let m = choose|m: int| 0 <= m < paths@.len() && (#[trigger] paths@[m])@ == path;
            assert(is_among(paths@, path));
        }
        if is_among(paths@, path) && extension_of(path) == Some(wanted@) {
            assert(found@.contains_key(path));
            let k = choose|k: int| 0 <= k < found.spec_len() && #[trigger] found.key_at(k) == path;
            assert(files@[k]@ == path);
        }
    }
    assert forall|i: int, j: int| 0 <= i < j < files@.len() implies comes_before(
        (#[trigger] files@[i])@,
        (#[trigger] files@[j])@,
    ) by {
        assert(comes_before(found.key_at(i), found.key_at(j)));
    }
    files
}

/// The logo a stored file gives for frames of a size: none when the file
/// cannot be read as a logo, or when it was recorded at another size than its
/// name says. Ignoring it means the logo is relearned, which is correct and
/// cheap.
pub fn accept_stored(bytes: &[u8], width: u32, height: u32) -> (logo: Option<LogoData>)
    ensures
        logo_view(logo) == (match read_logo(bytes@) {
            Ok(logo) => if logo.source_width == width && logo.source_height == height {
                Some(logo)
            } else {
                None
            },
            Err(_) => None,
        }),
{
    match LogoData::from_bytes(bytes) {
        Ok(logo) => if logo.matches_frame_size(width, height) {
            Some(logo)
        } else {
            None
        },
        Err(_) => None,
    }
}

/// Whatever the channel id, the key cannot escape the store's directory: it
/// holds no slash, and no two dots together.
pub proof fn keys_stay_in_the_store(channel_id: Seq<char>, width: u32, height: u32)
    ensures
        !store_key(channel_id, width, height).contains('/'),
        forall|i: int|
            0 <= i < store_key(channel_id, width, height).len() - 1 ==> !(#[trigger] store_key(
                channel_id,
                width,
                height,
            )[i] == '.' && store_key(channel_id, width, height)[i + 1] == '.'),
{
    reveal_strlit("-");
    reveal_strlit("x");
    reveal_strlit(".abl");
    let key = store_key(channel_id, width, height);
    let safe = safe_id(channel_id);
    digits_are_digits(width as nat);
    digits_are_digits(height as nat);
    let w = decimal_digits(width as nat);
    let h = decimal_digits(height as nat);
    let a = safe.len() as int;
    let b = a + 1 + w.len();
    let c = b + 1 + h.len();
    assert forall|i: int| 0 <= i < key.len() implies #[trigger] key[i] != '/' && (key[i] == '.'
        ==> i == c) by {
        if i < a {
            assert(key[i] == safe[i]);
        } else if i == a {
            assert(key[i] == "-"@[0]);
        } else if i < b {
            assert(key[i] == w[i - a - 1]);
        } else if i == b {
            assert(key[i] == "x"@[0]);
        } else if i < c {
            assert(key[i] == h[i - b - 1]);
        } else {
            assert(key[i] == ".abl"@[i - c]);
        }
    }
}

/// A channel that switches between picture sizes has a logo for each: at
/// another size the key is another.
pub proof fn sizes_are_kept_apart(
    channel_id: Seq<char>,
    width: u32,
    height: u32,
    other_width: u32,
    other_height: u32,
)
    requires
        store_key(channel_id, width, height) == store_key(channel_id, other_width, other_height),
    ensures
        width == other_width,
        height == other_height,
{
    reveal_strlit("-");
    reveal_strlit("x");
    reveal_strlit(".abl");
    let key = store_key(channel_id, width, height);
    let start = safe_id(channel_id).len() + 1;
    let (w, h) = (decimal_digits(width as nat), decimal_digits(height as nat));
    let (v, g) = (decimal_digits(other_width as nat), decimal_digits(other_height as nat));
    digits_are_digits(width as nat);
    digits_are_digits(height as nat);
    digits_are_digits(other_width as nat);
    digits_are_digits(other_height as nat);
    let other = store_key(channel_id, other_width, other_height);
    assert(key[start + w.len() as int] == 'x');
    assert(other[start + v.len() as int] == 'x');
    if w.len() < v.len() {
        assert(other[start + w.len() as int] == v[w.len() as int]);
    }
    if v.len() < w.len() {
        assert(key[start + v.len() as int] == w[v.len() as int]);
    }
    assert(w =~= key.subrange(start as int, (start + w.len()) as int));
    assert(v =~= other.subrange(start as int, (start + v.len()) as int));
    let next = start + w.len() + 1;
    assert(h =~= key.subrange(next as int, key.len() - 4));
    assert(g =~= other.subrange(next as int, other.len() - 4));
    digits_name_one_number(width as nat, other_width as nat);
    digits_name_one_number(height as nat, other_height as nat);
}

/// Channels are kept apart too: where the ids are letters and digits, one key
/// is the key of one channel at one size.
pub proof fn channels_are_kept_apart(
    channel_id: Seq<char>,
    width: u32,
    height: u32,
    other_id: Seq<char>,
    other_width: u32,
    other_height: u32,
)
    requires
        forall|i: int| 0 <= i < channel_id.len() ==> is_alphanumeric(#[trigger] channel_id[i]),
        forall|i: int| 0 <= i < other_id.len() ==> is_alphanumeric(#[trigger] other_id[i]),
        store_key(channel_id, width, height) == store_key(other_id, other_width, other_height),
    ensures
        channel_id == other_id,
        width == other_width,
        height == other_height,
{
    reveal_strlit("-");
    let key = store_key(channel_id, width, height);
    let other = store_key(other_id, other_width, other_height);
    let (n, m) = (channel_id.len() as int, other_id.len() as int);
    assert(safe_id(channel_id) =~= channel_id);
    assert(safe_id(other_id) =~= other_id);
    assert(key[n] == '-');
    assert(other[m] == '-');
    if n < m {
        assert(other[n] == other_id[n]);
    }
    if m < n {
        assert(key[m] == channel_id[m]);
    }
    assert(key.take(n) =~= channel_id);
    assert(other.take(m) =~= other_id);
    sizes_are_kept_apart(channel_id, width, height, other_width, other_height);
}

} // verus!
