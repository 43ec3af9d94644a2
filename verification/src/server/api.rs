//! What the HTTP API decides and renders.
//!
//! Deliberately small: jobs, logos, profiles, and a stream of updates. The web
//! app is the only client, and everything it needs to render is either a list
//! or a subscription.

use vstd::arithmetic::div_mod::lemma_fundamental_div_mod_converse;
use vstd::prelude::*;
use vstd::string::*;
use crate::analyze::logo::model::LogoData;
use crate::analyze::logo::preview::png_of;
use crate::cmcut::plan::KeepRange;
use crate::engine::channels::ChannelSettings;
use crate::engine::profile::Profile;
use crate::engine::rules::Rule;
use crate::paths::extension;
use crate::paths::extension_of;
use crate::paths::file_stem;
use crate::paths::renamed;
use crate::paths::stem_of;
use crate::paths::with_file_name;
use crate::server::db::Job;
use crate::server::db::NewJob;
use crate::server::worker::missing_profile;
use crate::server::worker::no_profile;
use crate::text::chars_of;
use crate::text::copy_option;
use crate::text::own;
use crate::text::text_of;
use crate::text::trim;
use crate::text::trimmed;
use crate::textmap::TextMap;

verus! {

/// What went wrong, in a shape the client can render.
#[derive(Debug, PartialEq, Eq)]
pub struct ApiError {
    /// HTTP status.
    pub status: u16,
    /// What to show.
    pub message: String,
}

/// The status of a request that cannot be met as it stands.
pub const BAD_REQUEST: u16 = 400;

/// The status of a request for something that may not be read.
pub const FORBIDDEN: u16 = 403;

/// The status of a request for something that does not exist.
pub const NOT_FOUND: u16 = 404;

impl ApiError {
    /// An error with this status and message.
    #[must_use]
    pub fn new(status: u16, message: &str) -> (error: ApiError)
        ensures
            error.status == status,
            error.message@ == message@,
    {
        ApiError { status, message: own(message) }
    }

    /// An error that says something does not exist.
    #[must_use]
    pub fn not_found(what: &str) -> (error: ApiError)
        ensures
            error.status == NOT_FOUND,
            error.message@ == what@ + " not found"@,
    {
        let mut message = own(what);
        message.append(" not found");
        ApiError { status: NOT_FOUND, message }
    }
}

/// How many jobs are listed unless a number is asked for.
#[must_use]
pub fn default_limit() -> (limit: i64)
    ensures
        limit == 100,
{
    100
}

/// How wide a frame is rendered unless a width is asked for.
#[must_use]
pub fn default_frame_width() -> (width: u32)
    ensures
        width == 960,
{
    960
}

/// The character for six bits.
pub open spec fn symbol(bits: int) -> char {
    if bits < 26 {
        (65 + bits) as char
    } else if bits < 52 {
        (97 + bits - 26) as char
    } else if bits < 62 {
        (48 + bits - 52) as char
    } else if bits == 62 {
        '+'
    } else {
        '/'
    }
}

/// A byte of a group, nothing where it has ended.
pub open spec fn byte_at(bytes: Seq<u8>, i: int) -> int {
    if i < bytes.len() {
        bytes[i] as int
    } else {
        0
    }
}

/// The first three bytes as one number.
pub open spec fn triple_of(bytes: Seq<u8>) -> int {
    byte_at(bytes, 0) * 65_536 + byte_at(bytes, 1) * 256 + byte_at(bytes, 2)
}

/// The first three bytes as four characters of six bits each, those past the
/// end written as padding.
pub open spec fn group_of(bytes: Seq<u8>) -> Seq<char> {
    let triple = triple_of(bytes);
    seq![
        symbol(triple / 262_144),
        symbol(triple / 4_096 % 64),
        if bytes.len() >= 2 { symbol(triple / 64 % 64) } else { '=' },
        if bytes.len() >= 3 { symbol(triple % 64) } else { '=' },
    ]
}

/// Bytes in base 64.
pub open spec fn base64_of(bytes: Seq<u8>) -> Seq<char>
    decreases bytes.len(),
{
    if bytes.len() == 0 {
        Seq::empty()
    } else if bytes.len() <= 3 {
        group_of(bytes)
    } else {
        group_of(bytes.take(3)) + base64_of(bytes.skip(3))
    }
}

fn symbol_for(bits: u32) -> (c: char)
    requires
        bits < 64,
    ensures
        c == symbol(bits as int),
{
    if bits < 26 {
        (65 + bits as u8) as char
    } else if bits < 52 {
        (71 + bits as u8) as char
    } else if bits < 62 {
        (bits as u8 - 4) as char
    } else if bits == 62 {
        '+'
    } else {
        '/'
    }
}

/// Bytes in base 64, by the standard alphabet and with padding.
#[must_use]
pub fn base64(bytes: &[u8]) -> (text: String)
    ensures
        text@ == base64_of(bytes@),
{
    let mut text = String::new();
    let mut at: usize = 0;
    assert(bytes@.skip(0) =~= bytes@);
    while at < bytes.len()
        invariant
            at <= bytes@.len(),
            text@ + base64_of(bytes@.skip(at as int)) == base64_of(bytes@),
        decreases bytes@.len() - at,
    {
        let left: usize = bytes.len() - at;
        let ghost rest = bytes@.skip(at as int);
        let ghost group = if left > 3 { rest.take(3) } else { rest };
        let first: u32 = bytes[at] as u32;
        let second: u32 = if left > 1 { bytes[at + 1] as u32 } else { 0 };
        let third: u32 = if left > 2 { bytes[at + 2] as u32 } else { 0 };
        let triple: u32 = first * 65_536 + second * 256 + third;
        let ghost before = text@;
        assert(triple == triple_of(group));
        text.push(symbol_for(triple / 262_144));
        text.push(symbol_for(triple / 4_096 % 64));
        text.push(if left > 1 { symbol_for(triple / 64 % 64) } else { '=' });
        text.push(if left > 2 { symbol_for(triple % 64) } else { '=' });
        assert(text@ =~= before + group_of(group));
        let step: usize = if left > 3 { 3 } else { left };
        if left > 3 {
            assert(rest.skip(3) =~= bytes@.skip(at + 3));
            assert(base64_of(rest) =~= group_of(group) + base64_of(bytes@.skip(at + 3)));
        } else {
            assert(bytes@.skip(at + left) =~= Seq::empty());
            assert(base64_of(bytes@.skip(at + left)) =~= Seq::empty());
        }
        assert(before + base64_of(rest) =~= text@ + base64_of(bytes@.skip(at + step)));
        at += step;
    }
    assert(bytes@.skip(at as int) =~= Seq::empty());
    assert(text@ + base64_of(bytes@.skip(at as int)) =~= text@);
    text
}

/// The six bits a character stands for.
pub open spec fn bits_of(c: char) -> int {
    if 'A' <= c <= 'Z' {
        c as int - 65
    } else if 'a' <= c <= 'z' {
        c as int - 97 + 26
    } else if '0' <= c <= '9' {
        c as int - 48 + 52
    } else if c == '+' {
        62
    } else if c == '/' {
        63
    } else {
        0
    }
}

/// The bytes four characters stand for.
pub open spec fn ungrouped(text: Seq<char>) -> Seq<u8> {
    let triple = bits_of(text[0]) * 262_144 + bits_of(text[1]) * 4_096 + bits_of(text[2]) * 64
        + bits_of(text[3]);
    let all = seq![(triple / 65_536) as u8, (triple / 256 % 256) as u8, (triple % 256) as u8];
    if text[2] == '=' {
        all.take(1)
    } else if text[3] == '=' {
        all.take(2)
    } else {
        all
    }
}

/// The bytes a text in base 64 stands for.
pub open spec fn unbase64(text: Seq<char>) -> Seq<u8>
    decreases text.len(),
{
    if text.len() < 4 {
        Seq::empty()
    } else {
        ungrouped(text.take(4)) + unbase64(text.skip(4))
    }
}

proof fn symbols_are_distinct(bits: int)
    requires
        0 <= bits < 64,
    ensures
        bits_of(symbol(bits)) == bits,
        symbol(bits) != '=',
{
}

/// Six bits at a time and eight bits at a time are the same bits.
proof fn same_bits(a: int, b: int, c: int)
    requires
        0 <= a < 256,
        0 <= b < 256,
        0 <= c < 256,
    ensures
        ({
            let triple = a * 65_536 + b * 256 + c;
            &&& 0 <= triple / 262_144 < 64
            &&& triple == (triple / 262_144) * 262_144 + (triple / 4_096 % 64) * 4_096 + (triple
                / 64 % 64) * 64 + triple % 64
            &&& triple / 65_536 == a
            &&& triple / 256 % 256 == b
            &&& triple % 256 == c
            &&& b == 0 && c == 0 ==> triple / 64 % 64 == 0
            &&& c == 0 ==> triple % 64 == 0
        }),
{
    let triple = a * 65_536 + b * 256 + c;
    let w = a / 4;
    let x = (a % 4) * 16 + b / 16;
    let y = (b % 16) * 4 + c / 64;
    let z = c % 64;
    assert(triple == w * 262_144 + x * 4_096 + y * 64 + z);
    lemma_fundamental_div_mod_converse(triple, 262_144, w, x * 4_096 + y * 64 + z);
    lemma_fundamental_div_mod_converse(triple, 4_096, w * 64 + x, y * 64 + z);
    lemma_fundamental_div_mod_converse(w * 64 + x, 64, w, x);
    lemma_fundamental_div_mod_converse(triple, 64, w * 4_096 + x * 64 + y, z);
    lemma_fundamental_div_mod_converse(w * 4_096 + x * 64 + y, 64, w * 64 + x, y);
    lemma_fundamental_div_mod_converse(triple, 65_536, a, b * 256 + c);
    lemma_fundamental_div_mod_converse(triple, 256, a * 256 + b, c);
    lemma_fundamental_div_mod_converse(a * 256 + b, 256, a, b);
}

proof fn groups_can_be_undone(bytes: Seq<u8>)
    requires
        1 <= bytes.len() <= 3,
    ensures
        group_of(bytes).len() == 4,
        ungrouped(group_of(bytes)) == bytes,
{
    let triple = triple_of(bytes);
    let group = group_of(bytes);
    same_bits(byte_at(bytes, 0), byte_at(bytes, 1), byte_at(bytes, 2));
    let (w, x, y, z) = (triple / 262_144, triple / 4_096 % 64, triple / 64 % 64, triple % 64);
    assert(group[0] == symbol(w));
    assert(group[1] == symbol(x));
    assert(group[2] == (if bytes.len() >= 2 { symbol(y) } else { '=' }));
    assert(group[3] == (if bytes.len() >= 3 { symbol(z) } else { '=' }));
    undone(bytes, group, w, x, y, z);
}

proof fn undone(bytes: Seq<u8>, group: Seq<char>, w: int, x: int, y: int, z: int)
    requires
        1 <= bytes.len() <= 3,
        group.len() == 4,
        0 <= w < 64,
        0 <= x < 64,
        0 <= y < 64,
        0 <= z < 64,
        group[0] == symbol(w),
        group[1] == symbol(x),
        group[2] == (if bytes.len() >= 2 { symbol(y) } else { '=' }),
        group[3] == (if bytes.len() >= 3 { symbol(z) } else { '=' }),
        bytes.len() < 2 ==> y == 0,
        bytes.len() < 3 ==> z == 0,
        (w * 262_144 + x * 4_096 + y * 64 + z) / 65_536 == byte_at(bytes, 0),
        (w * 262_144 + x * 4_096 + y * 64 + z) / 256 % 256 == byte_at(bytes, 1),
        (w * 262_144 + x * 4_096 + y * 64 + z) % 256 == byte_at(bytes, 2),
    ensures
        ungrouped(group) == bytes,
{
    symbols_are_distinct(w);
    symbols_are_distinct(x);
    symbols_are_distinct(y);
    symbols_are_distinct(z);
    assert(bits_of('=') == 0);
    assert(ungrouped(group) =~= bytes);
}

/// Base 64 loses nothing: the bytes can be had back from the text.
pub proof fn base64_can_be_undone(bytes: Seq<u8>)
    ensures
        unbase64(base64_of(bytes)) == bytes,
    decreases bytes.len(),
{
    let text = base64_of(bytes);
    if bytes.len() == 0 {
    } else if bytes.len() <= 3 {
        groups_can_be_undone(bytes);
        assert(text.take(4) =~= text);
        assert(text.skip(4) =~= Seq::empty());
        assert(unbase64(text.skip(4)) =~= Seq::empty());
        assert(unbase64(text) =~= bytes);
    } else {
        groups_can_be_undone(bytes.take(3));
        base64_can_be_undone(bytes.skip(3));
        assert(text.take(4) =~= group_of(bytes.take(3)));
        assert(text.skip(4) =~= base64_of(bytes.skip(3)));
        assert(bytes.take(3) + bytes.skip(3) =~= bytes);
    }
}

/// A PNG file as an address that holds it.
pub open spec fn data_uri(png: Seq<u8>) -> Seq<char> {
    "data:image/png;base64,"@ + base64_of(png)
}

/// A PNG file as an address that holds it.
#[must_use]
pub fn png_uri(png: &[u8]) -> (uri: String)
    ensures
        uri@ == data_uri(png@),
{
    let mut uri = own("data:image/png;base64,");
    uri.append(base64(png).as_str());
    uri
}

/// Render a logo as a PNG data URI.
///
/// Inlined rather than served from its own endpoint because the list is short
/// and the previews are small; one request beats one per logo.
#[must_use]
pub fn preview_data_uri(logo: &LogoData) -> (uri: Option<String>)
    requires
        4 * logo.rect.spec_area() <= usize::MAX,
    ensures
        text_of(uri) == (match png_of(logo.rect.width, logo.rect.height, logo@.preview()) {
            Some(png) => Some(data_uri(png)),
            None => None,
        }),
{
    match logo.to_png() {
        Some(png) => Some(png_uri(&png)),
        None => None,
    }
}

/// There is nothing in a text but white space.
pub open spec fn is_blank(text: Seq<char>) -> bool {
    trimmed(text).len() == 0
}

/// Whether a job may be queued. It needs an input, an output and a profile
/// that exists.
pub fn check_submission(request: &NewJob, profiles: &TextMap<Profile>) -> (result: Result<
    (),
    ApiError,
>)
    requires
        profiles.wf(),
    ensures
        if is_blank(request.input@) || is_blank(request.output@) {
            result matches Err(error) && error.status == BAD_REQUEST && error.message@
                == "input and output are both required"@
        } else if !profiles@.contains_key(request.profile@) {
            result matches Err(error) && error.status == BAD_REQUEST && error.message@
                == missing_profile(request.profile@)
        } else {
            result is Ok
        },
{
    if trim(&chars_of(request.input.as_str())).len() == 0 || trim(
        &chars_of(request.output.as_str()),
    ).len() == 0 {
        return Err(ApiError::new(BAD_REQUEST, "input and output are both required"));
    }
    check_profile(Some(request.profile.as_str()), profiles)
}

/// Whether a profile that is named exists.
///
/// One that does not would fail every job that uses it at the moment it
/// starts, which is a slow way to find out about a typo.
pub fn check_profile(name: Option<&str>, profiles: &TextMap<Profile>) -> (result: Result<
    (),
    ApiError,
>)
    requires
        profiles.wf(),
    ensures
        match name {
            Some(name) => if profiles@.contains_key(name@) {
                result is Ok
            } else {
                result matches Err(error) && error.status == BAD_REQUEST && error.message@
                    == missing_profile(name@)
            },
            None => result is Ok,
        },
{
    match name {
        Some(name) => if profiles.contains_key(name) {
            Ok(())
        } else {
            Err(ApiError { status: BAD_REQUEST, message: no_profile(name) })
        },
        None => Ok(()),
    }
}

/// A rule names no profile, or one that exists.
pub open spec fn is_usable(rule: Rule, profiles: Map<Seq<char>, Profile>) -> bool {
    rule.profile matches Some(profile) ==> profiles.contains_key(profile@)
}

/// Whether a list of rules may replace the one there is: each names no
/// profile, or one that exists. The first that does not is reported.
pub fn check_rules(rules: &[Rule], profiles: &TextMap<Profile>) -> (result: Result<(), ApiError>)
    requires
        profiles.wf(),
    ensures
        result is Ok <==> forall|i: int|
            0 <= i < rules@.len() ==> is_usable(#[trigger] rules@[i], profiles@),
        result matches Err(error) ==> exists|i: int|
            {
                &&& 0 <= i < rules@.len()
                &&& !is_usable(#[trigger] rules@[i], profiles@)
                &&& forall|k: int| 0 <= k < i ==> is_usable(#[trigger] rules@[k], profiles@)
                &&& error.status == BAD_REQUEST
                &&& error.message@ == missing_profile(rules@[i].profile->Some_0@)
            },
{
    for i in 0..rules.len()
        invariant
            profiles.wf(),
            forall|k: int| 0 <= k < i ==> is_usable(#[trigger] rules@[k], profiles@),
    {
        let checked = match &rules[i].profile {
            Some(profile) => check_profile(Some(profile.as_str()), profiles),
            None => Ok(()),
        };
        if let Err(error) = checked {
            assert(!is_usable(rules@[i as int], profiles@));
            return Err(error);
        }
        assert(is_usable(rules@[i as int], profiles@));
    }
    Ok(())
}

/// Whether a channel's settings may be stored: they name no profile, or one
/// that exists.
pub fn check_settings(settings: &ChannelSettings, profiles: &TextMap<Profile>) -> (result: Result<
    (),
    ApiError,
>)
    requires
        profiles.wf(),
    ensures
        match settings.profile {
            Some(profile) => if profiles@.contains_key(profile@) {
                result is Ok
            } else {
                result matches Err(error) && error.status == BAD_REQUEST && error.message@
                    == missing_profile(profile@)
            },
            None => result is Ok,
        },
{
    match &settings.profile {
        Some(profile) => check_profile(Some(profile.as_str()), profiles),
        None => check_profile(None, profiles),
    }
}

/// A new request says what a job says, but for where the result goes and how
/// urgent it is.
pub open spec fn is_copy_of(request: NewJob, job: Job) -> bool {
    &&& request.input@ == job.input@
    &&& request.profile@ == job.profile@
    &&& text_of(request.title) == text_of(job.title)
    &&& text_of(request.channel_id) == text_of(job.channel_id)
    &&& text_of(request.channel_name) == text_of(job.channel_name)
}

/// A request to run a job again with the same settings.
///
/// A new job rather than a reset of the old one, so the history of what was
/// attempted survives.
#[must_use]
pub fn retry_of(job: &Job) -> (request: NewJob)
    ensures
        is_copy_of(request, *job),
        request.output@ == job.output@,
        request.priority == job.priority,
{
    NewJob {
        input: own(job.input.as_str()),
        output: own(job.output.as_str()),
        profile: own(job.profile.as_str()),
        title: copy_option(&job.title),
        channel_id: copy_option(&job.channel_id),
        channel_name: copy_option(&job.channel_name),
        priority: job.priority,
    }
}

/// A stretch to keep, said by hand: absent where it is no finite moment.
#[derive(Debug, Clone, Copy, PartialEq, Eq)]
pub struct KeepSpan {
    /// Start, in microseconds.
    pub start: Option<i64>,
    /// End, in microseconds.
    pub end: Option<i64>,
}

impl KeepSpan {
    /// The range this span means: one that ends after it starts.
    pub open spec fn range(self) -> Option<KeepRange> {
        match (self.start, self.end) {
            (Some(start), Some(end)) => if end > start {
                Some(KeepRange { start, end })
            } else {
                None
            },
            _ => None,
        }
    }
}

/// Where a recording cut by hand goes: beside the original rather than over
/// it, since the first result may well be the one somebody wants to keep after
/// seeing the second.
pub open spec fn recut_path(output: Seq<char>) -> Seq<char> {
    renamed(
        output,
        (match stem_of(output) {
            Some(stem) => stem,
            None => "recut"@,
        }) + ".recut"@ + (match extension_of(output) {
            Some(extension) => "."@ + extension,
            None => ""@,
        }),
    )
}

/// A job with cuts somebody chose.
#[derive(Debug)]
pub struct Recut {
    /// The job.
    pub request: NewJob,
    /// What it keeps.
    pub ranges: Vec<KeepRange>,
}

/// Re-encode a recording with cuts somebody chose.
///
/// A detection that got it wrong is a lost recording only if there is no way
/// to correct it. A new job rather than an edit of the old one, so what was
/// originally decided is still there to compare against; and an urgent one,
/// since somebody is sitting there waiting for it.
pub fn recut_of(job: &Job, keep: &[KeepSpan]) -> (result: Result<Recut, ApiError>)
    requires
        job.priority <= i64::MAX - 10,
    ensures
        match result {
            Ok(recut) => {
                &&& keep@.len() > 0
                &&& recut.ranges@.len() == keep@.len()
                &&& forall|i: int|
                    0 <= i < keep@.len() ==> (#[trigger] keep@[i]).range() == Some(
                        recut.ranges@[i],
                    )
                &&& is_copy_of(recut.request, *job)
                &&& recut.request.output@ == recut_path(job.output@)
                &&& recut.request.priority == job.priority + 10
            },
            Err(error) => {
                &&& error.status == BAD_REQUEST
                &&& if keep@.len() == 0 {
                    error.message@ == "nothing was kept, so there would be nothing to encode"@
                } else {
                    &&& error.message@ == "every kept stretch must end after it starts"@
                    &&& exists|i: int|
                        0 <= i < keep@.len() && (#[trigger] keep@[i]).range() is None
                }
            },
        },
{
    if keep.len() == 0 {
        return Err(
            ApiError::new(BAD_REQUEST, "nothing was kept, so there would be nothing to encode"),
        );
    }
    let mut ranges: Vec<KeepRange> = Vec::new();
    for i in 0..keep.len()
        invariant
            keep@.len() > 0,
            ranges@.len() == i,
            forall|k: int| 0 <= k < i ==> (#[trigger] keep@[k]).range() == Some(ranges@[k]),
    {
        let span = keep[i];
        let range = match (span.start, span.end) {
            (Some(start), Some(end)) => if end > start {
                Some(KeepRange { start, end })
            } else {
                None
            },
            _ => None,
        };
        match range {
            Some(range) => {
                assert(keep@[i as int].range() == Some(range));
                ranges.push(range);
            },
            None => {
                assert(keep@[i as int].range() is None);
                return Err(
                    ApiError::new(BAD_REQUEST, "every kept stretch must end after it starts"),
                );
            },
        }
    }
    let output = job.output.as_str();
    let mut name = match file_stem(output) {
        Some(stem) => stem,
        None => own("recut"),
    };
    name.append(".recut");
    match extension(output) {
        Some(extension) => {
            name.append(".");
            name.append(extension.as_str());
        },
        None => {
            name.append("");
        },
    }
    assert(name@ =~= (match stem_of(output@) {
        Some(stem) => stem,
        None => "recut"@,
    }) + ".recut"@ + (match extension_of(output@) {
        Some(extension) => "."@ + extension,
        None => ""@,
    }));
    let mut request = retry_of(job);
    request.output = with_file_name(output, name.as_str());
    request.priority = job.priority + 10;
    Ok(Recut { request, ranges })
}

/// What a logo learned by hand is called: by its name, or its channel.
#[must_use]
pub fn scan_name(name: &Option<String>, channel_id: &Option<String>) -> (text: String)
    ensures
        text@ == (match text_of(*name) {
            Some(name) => name,
            None => match text_of(*channel_id) {
                Some(id) => id,
                None => "unnamed"@,
            },
        }),
{
    match name {
        Some(name) => own(name.as_str()),
        None => match channel_id {
            Some(id) => own(id.as_str()),
            None => own("unnamed"),
        },
    }
}

/// Whether a logo may be learned from a rectangle of a recording.
///
/// There has to be somewhere to keep the result, the recording has to be one
/// that may be read, and the rectangle has to have an area.
pub fn check_scan(
    has_store: bool,
    readable: bool,
    rect: &crate::analyze::logo::model::Rect,
) -> (result: Result<(), ApiError>)
    ensures
        if !has_store {
            result matches Err(error) && error.status == BAD_REQUEST && error.message@
                == "no logo store is configured, so there is nowhere to keep the result"@
        } else if !readable {
            result matches Err(error) && error.status == FORBIDDEN && error.message@
                == "that path is not inside a configured recordings directory"@
        } else if !rect.valid() {
            result matches Err(error) && error.status == BAD_REQUEST && error.message@
                == "the rectangle has no area"@
        } else {
            result is Ok
        },
{
    if !has_store {
        return Err(
            ApiError::new(
                BAD_REQUEST,
                "no logo store is configured, so there is nowhere to keep the result",
            ),
        );
    }
    if !readable {
        return Err(
            ApiError::new(
                FORBIDDEN,
                "that path is not inside a configured recordings directory",
            ),
        );
    }
    if !rect.is_valid() {
        return Err(ApiError::new(BAD_REQUEST, "the rectangle has no area"));
    }
    Ok(())
}

} // verus!
