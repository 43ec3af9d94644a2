//! Encoding profiles.
//!
//! A profile is the whole of what an operator normally wants to change: which
//! encoder, at what quality, to what container, at what resolution. Everything
//! else, how the cuts are applied, how chapters are written, how progress is
//! reported, is fixed, because getting those wrong produces broken output
//! rather than differently-shaped output.

use vstd::prelude::*;
use vstd::set_lib::lemma_int_range;
use vstd::set_lib::lemma_len_subset;
use vstd::set_lib::set_int_range;
use vstd::string::*;
use crate::media::ffmpeg::Ffmpeg;
use crate::paths::below;
use crate::paths::dot_before_an_extension;
use crate::paths::extension;
use crate::paths::extension_of;
use crate::paths::join;
use crate::paths::names_below_are_last;
use crate::seqs::filter_ends;
use crate::seqs::filter_step;
use crate::text::append_texts;
use crate::text::chars_of;
use crate::text::copy_option;
use crate::text::copy_texts;
use crate::text::decimal_digits;
use crate::text::is_alphanumeric;
use crate::text::own;
use crate::text::push_copy;
use crate::text::push_decimal;
use crate::text::same_option;
use crate::text::same_text;
use crate::text::string_of;
use crate::text::text_of;
use crate::text::texts;
use crate::textmap::TextMap;

verus! {

/// Output container.
#[derive(Debug, Clone, Copy, PartialEq, Eq, Structural)]
pub enum Container {
    /// MP4, which every player and every browser handles.
    Mp4,
    /// Matroska, for when chapters and multiple audio tracks matter more than
    /// universal playback.
    Mkv,
}

impl Container {
    /// The file extension, with the dot.
    pub open spec fn spec_extension(self) -> Seq<char> {
        match self {
            Container::Mp4 => ".mp4"@,
            Container::Mkv => ".mkv"@,
        }
    }

    /// ffmpeg's name for the muxer.
    pub open spec fn spec_muxer(self) -> Seq<char> {
        match self {
            Container::Mp4 => "mp4"@,
            Container::Mkv => "matroska"@,
        }
    }

    /// An audio codec this container takes as-is.
    ///
    /// MP4 is fussy: AAC and the MPEG audio family, and little else that a
    /// broadcast recording would contain. Matroska takes essentially anything.
    pub open spec fn carries(self, codec: Seq<char>) -> bool {
        match self {
            Container::Mp4 => codec == "aac"@ || codec == "mp3"@ || codec == "ac3"@ || codec
                == "eac3"@,
            Container::Mkv => true,
        }
    }

    /// The file extension, with the dot.
    #[must_use]
    pub fn extension(self) -> (extension: &'static str)
        ensures
            extension@ == self.spec_extension(),
    {
        match self {
            Container::Mp4 => ".mp4",
            Container::Mkv => ".mkv",
        }
    }

    /// ffmpeg's name for the muxer.
    #[must_use]
    pub fn muxer(self) -> (muxer: &'static str)
        ensures
            muxer@ == self.spec_muxer(),
    {
        match self {
            Container::Mp4 => "mp4",
            Container::Mkv => "matroska",
        }
    }

    /// Whether this container can carry an audio codec as-is.
    ///
    /// Broadcast audio is AAC and both containers take it, so the usual answer
    /// is yes, which is what makes copying rather than re-encoding possible.
    #[must_use]
    pub fn can_carry(self, codec: &str) -> (yes: bool)
        ensures
            yes == self.carries(codec@),
    {
        match self {
            Container::Mp4 => same_text(codec, "aac") || same_text(codec, "mp3") || same_text(
                codec,
                "ac3",
            ) || same_text(codec, "eac3"),
            Container::Mkv => true,
        }
    }
}

/// Video encoding settings.
#[derive(Debug, Clone, PartialEq, Eq)]
pub struct VideoSettings {
    /// ffmpeg encoder name, e.g. `h264_nvenc`.
    pub encoder: String,
    /// Encoder arguments, passed through verbatim.
    pub args: Vec<String>,
    /// Scale down to at most this height, keeping the aspect ratio.
    ///
    /// Japanese HD broadcast is 1440x1080 with a 16:9 display aspect, so the
    /// scale filter must compute width from height rather than the reverse.
    pub max_height: Option<u32>,
}

/// Audio encoding settings.
#[derive(Debug, Clone, PartialEq, Eq)]
pub struct AudioSettings {
    /// ffmpeg encoder name, e.g. `aac`.
    pub encoder: String,
    /// Encoder arguments, passed through verbatim.
    pub args: Vec<String>,
    /// Output channel count.
    pub channels: u32,
    /// Output sample rate.
    pub sample_rate: u32,
    /// Which side of a dual-mono programme to keep.
    ///
    /// Japanese broadcast carries bilingual audio as dual mono; without this
    /// ffmpeg merges both languages into one track and the result is
    /// unwatchable.
    pub dual_mono_mode: String,
}

/// Channel count a profile uses unless it says otherwise.
pub const DEFAULT_CHANNELS: u32 = 2;

/// Sample rate a profile uses unless it says otherwise.
pub const DEFAULT_SAMPLE_RATE: u32 = 48_000;

/// The side of a dual-mono programme a profile keeps unless it says otherwise.
#[must_use]
pub fn default_dual_mono() -> (mode: String)
    ensures
        mode@ == "main"@,
{
    own("main")
}

/// Filtering applied before encoding.
#[derive(Debug, Clone, PartialEq, Eq)]
pub struct FilterSettings {
    /// Deinterlacer to apply to interlaced sources, or `None` to leave alone.
    pub deinterlace: Option<String>,
    /// Extra filters, appended to the chain.
    pub extra: Vec<String>,
}

/// The deinterlacer a profile uses unless it says otherwise.
///
/// Broadcast is 1080i; bwdif is yadif's successor and keeps more of the fine
/// detail that survives a downscale. Optional because a profile may set it to
/// nothing to leave interlaced sources alone.
#[must_use]
pub fn default_deinterlace() -> (deinterlace: Option<String>)
    ensures
        text_of(deinterlace) == Some("bwdif=mode=send_frame:parity=auto:deint=all"@),
{
    Some(own("bwdif=mode=send_frame:parity=auto:deint=all"))
}

impl Default for FilterSettings {
    fn default() -> (filters: FilterSettings)
        ensures
            text_of(filters.deinterlace) == Some("bwdif=mode=send_frame:parity=auto:deint=all"@),
            filters.extra@.len() == 0,
    {
        FilterSettings { deinterlace: default_deinterlace(), extra: Vec::new() }
    }
}

/// A complete encoding profile.
#[derive(Debug, Clone, PartialEq, Eq)]
pub struct Profile {
    /// Name used to select the profile.
    pub name: String,
    /// What the profile is for, shown in the web UI.
    pub description: String,
    /// Output container.
    pub container: Container,
    /// Video settings.
    pub video: VideoSettings,
    /// Audio settings.
    pub audio: AudioSettings,
    /// Filter settings.
    pub filters: FilterSettings,
}

/// A profile with its text read as characters.
pub ghost struct ProfileView {
    /// Name used to select the profile.
    pub name: Seq<char>,
    /// What the profile is for.
    pub description: Seq<char>,
    /// Output container.
    pub container: Container,
    /// Video encoder.
    pub video_encoder: Seq<char>,
    /// Arguments of the video encoder.
    pub video_args: Seq<Seq<char>>,
    /// Greatest height of the output.
    pub max_height: Option<u32>,
    /// Audio encoder.
    pub audio_encoder: Seq<char>,
    /// Arguments of the audio encoder.
    pub audio_args: Seq<Seq<char>>,
    /// Output channel count.
    pub channels: u32,
    /// Output sample rate.
    pub sample_rate: u32,
    /// Which side of a dual-mono programme to keep.
    pub dual_mono_mode: Seq<char>,
    /// Deinterlacer for interlaced sources.
    pub deinterlace: Option<Seq<char>>,
    /// Extra filters.
    pub extra: Seq<Seq<char>>,
}

impl View for Profile {
    type V = ProfileView;

    open spec fn view(&self) -> ProfileView {
        ProfileView {
            name: self.name@,
            description: self.description@,
            container: self.container,
            video_encoder: self.video.encoder@,
            video_args: texts(self.video.args@),
            max_height: self.video.max_height,
            audio_encoder: self.audio.encoder@,
            audio_args: texts(self.audio.args@),
            channels: self.audio.channels,
            sample_rate: self.audio.sample_rate,
            dual_mono_mode: self.audio.dual_mono_mode@,
            deinterlace: text_of(self.filters.deinterlace),
            extra: texts(self.filters.extra@),
        }
    }
}

impl ProfileView {
    /// The video filters, in order: deinterlace, scale, and then whatever else
    /// the profile asks for.
    ///
    /// `-2` keeps the width even, which every codec requires, and `min` leaves
    /// smaller sources alone rather than upscaling them.
    pub open spec fn filters_for(self, interlaced: bool) -> Seq<Seq<char>> {
        (match self.deinterlace {
            Some(deinterlace) => if interlaced {
                seq![deinterlace]
            } else {
                Seq::empty()
            },
            None => Seq::empty(),
        }) + (match self.max_height {
            Some(height) => seq!["scale=-2:'min("@ + decimal_digits(height as nat) + ",ih)'"@],
            None => Seq::empty(),
        }) + self.extra
    }
}

impl Profile {
    /// A profile that says the same thing.
    #[must_use]
    pub fn duplicate(&self) -> (copy: Profile)
        ensures
            copy@ == self@,
    {
        Profile {
            name: own(self.name.as_str()),
            description: own(self.description.as_str()),
            container: self.container,
            video: VideoSettings {
                encoder: own(self.video.encoder.as_str()),
                args: copy_texts(&self.video.args),
                max_height: self.video.max_height,
            },
            audio: AudioSettings {
                encoder: own(self.audio.encoder.as_str()),
                args: copy_texts(&self.audio.args),
                channels: self.audio.channels,
                sample_rate: self.audio.sample_rate,
                dual_mono_mode: own(self.audio.dual_mono_mode.as_str()),
            },
            filters: FilterSettings {
                deinterlace: copy_option(&self.filters.deinterlace),
                extra: copy_texts(&self.filters.extra),
            },
        }
    }

    /// Whether the ffmpeg build can run this profile.
    ///
    /// Checked before a job starts so a missing NVENC build fails immediately
    /// rather than after the analysis pass has already burned a few minutes.
    #[must_use]
    pub fn is_supported_by(&self, ffmpeg: &Ffmpeg) -> (yes: bool)
        ensures
            yes == (ffmpeg.spec_encoders().contains(self@.video_encoder)
                && ffmpeg.spec_encoders().contains(self@.audio_encoder)),
    {
        ffmpeg.has_encoder(self.video.encoder.as_str()) && ffmpeg.has_encoder(
            self.audio.encoder.as_str(),
        )
    }

    /// The video filter chain, given whether the source is interlaced.
    #[must_use]
    pub fn video_filters(&self, interlaced: bool) -> (chain: Vec<String>)
        ensures
            texts(chain@) == self@.filters_for(interlaced),
    {
        let mut chain: Vec<String> = Vec::new();
        if interlaced {
            if let Some(deinterlace) = &self.filters.deinterlace {
                chain.push(own(deinterlace.as_str()));
            }
        }
        if let Some(height) = self.video.max_height {
            let mut scale = own("scale=-2:'min(");
            push_decimal(&mut scale, height as u64);
            scale.append(",ih)'");
            chain.push(scale);
        }
        append_texts(&mut chain, &self.filters.extra);
        assert(texts(chain@) =~= self@.filters_for(interlaced));
        chain
    }
}

/// A shipped profile: H.264 or HEVC, in MP4, at most 1080 lines, with stereo
/// AAC at 48 kHz, the main language of a bilingual programme, and interlaced
/// sources deinterlaced.
pub open spec fn shipped(
    name: Seq<char>,
    description: Seq<char>,
    encoder: Seq<char>,
    args: Seq<Seq<char>>,
) -> ProfileView {
    ProfileView {
        name,
        description,
        container: Container::Mp4,
        video_encoder: encoder,
        video_args: args,
        max_height: Some(1_080),
        audio_encoder: "aac"@,
        audio_args: seq!["-b:a"@, "192k"@],
        channels: 2,
        sample_rate: 48_000,
        dual_mono_mode: "main"@,
        deinterlace: Some("bwdif=mode=send_frame:parity=auto:deint=all"@),
        extra: Seq::empty(),
    }
}

/// H.264 on the graphics card.
pub open spec fn nvenc_h264() -> ProfileView {
    shipped(
        "nvenc-h264"@,
        "H.264 on an NVIDIA GPU"@,
        "h264_nvenc"@,
        seq!["-preset"@, "p5"@, "-rc"@, "vbr"@, "-cq"@, "23"@, "-pix_fmt"@, "yuv420p"@],
    )
}

/// HEVC on the graphics card.
pub open spec fn nvenc_hevc() -> ProfileView {
    shipped(
        "nvenc-hevc"@,
        "HEVC on an NVIDIA GPU"@,
        "hevc_nvenc"@,
        seq!["-preset"@, "p5"@, "-rc"@, "vbr"@, "-cq"@, "26"@, "-tag:v"@, "hvc1"@],
    )
}

/// H.264 on the processor.
pub open spec fn x264_cpu() -> ProfileView {
    shipped(
        "x264-cpu"@,
        "H.264 on the CPU"@,
        "libx264"@,
        seq!["-preset"@, "medium"@, "-crf"@, "21"@, "-pix_fmt"@, "yuv420p"@],
    )
}

/// HEVC on the processor.
pub open spec fn x265_cpu() -> ProfileView {
    shipped(
        "x265-cpu"@,
        "HEVC on the CPU"@,
        "libx265"@,
        seq!["-preset"@, "medium"@, "-crf"@, "24"@, "-tag:v"@, "hvc1"@],
    )
}

fn ship(name: &str, description: &str, encoder: &str, args: Vec<String>) -> (profile: Profile)
    ensures
        profile@ == shipped(name@, description@, encoder@, texts(args@)),
{
    let mut audio_args: Vec<String> = Vec::new();
    audio_args.push(own("-b:a"));
    audio_args.push(own("192k"));
    let profile = Profile {
        name: own(name),
        description: own(description),
        container: Container::Mp4,
        video: VideoSettings { encoder: own(encoder), args, max_height: Some(1_080) },
        audio: AudioSettings {
            encoder: own("aac"),
            args: audio_args,
            channels: DEFAULT_CHANNELS,
            sample_rate: DEFAULT_SAMPLE_RATE,
            dual_mono_mode: default_dual_mono(),
        },
        filters: FilterSettings::default(),
    };
    assert(profile@.audio_args =~= seq!["-b:a"@, "192k"@]);
    assert(profile@.extra =~= Seq::empty());
    profile
}

/// Rate-control arguments: a flag and a value each.
fn three_options(a: (&str, &str), b: (&str, &str), c: (&str, &str)) -> (args: Vec<String>)
    ensures
        texts(args@) == seq![a.0@, a.1@, b.0@, b.1@, c.0@, c.1@],
{
    let mut args: Vec<String> = Vec::new();
    args.push(own(a.0));
    args.push(own(a.1));
    args.push(own(b.0));
    args.push(own(b.1));
    args.push(own(c.0));
    args.push(own(c.1));
    assert(texts(args@) =~= seq![a.0@, a.1@, b.0@, b.1@, c.0@, c.1@]);
    args
}

/// What the shipped profiles look like, by name.
pub open spec fn shipped_views() -> Map<Seq<char>, ProfileView> {
    Map::empty().insert("nvenc-h264"@, nvenc_h264()).insert("nvenc-hevc"@, nvenc_hevc()).insert(
        "x264-cpu"@,
        x264_cpu(),
    ).insert("x265-cpu"@, x265_cpu())
}

/// What the profiles of a map look like.
pub open spec fn profile_views(profiles: Map<Seq<char>, Profile>) -> Map<Seq<char>, ProfileView> {
    profiles.map_values(|profile: Profile| profile@)
}

/// The four shipped names are four names.
proof fn shipped_names_differ()
    ensures
        "nvenc-h264"@ != "nvenc-hevc"@,
        "nvenc-h264"@ != "x264-cpu"@,
        "nvenc-h264"@ != "x265-cpu"@,
        "nvenc-hevc"@ != "x264-cpu"@,
        "nvenc-hevc"@ != "x265-cpu"@,
        "x264-cpu"@ != "x265-cpu"@,
{
    reveal_strlit("nvenc-h264");
    reveal_strlit("nvenc-hevc");
    reveal_strlit("x264-cpu");
    reveal_strlit("x265-cpu");
    assert("nvenc-h264"@[7] == '2');
    assert("nvenc-hevc"@[7] == 'e');
    assert("x264-cpu"@[2] == '6');
    assert("x264-cpu"@[3] == '4');
    assert("x265-cpu"@[3] == '5');
    assert("x264-cpu"@.len() == 8);
    assert("x265-cpu"@.len() == 8);
    assert("nvenc-h264"@.len() == 10);
    assert("nvenc-hevc"@.len() == 10);
}

/// The profiles the engine ships with.
///
/// NVENC first, because that is what the hardware in a recording box has and
/// what leaves the CPU free for the analysis pass; the software profiles exist
/// so the pipeline runs on a laptop and in CI, where there is no GPU.
#[must_use]
pub fn builtin() -> (profiles: TextMap<Profile>)
    ensures
        profiles.wf(),
        profiles.spec_len() == 4,
        profile_views(profiles@) == shipped_views(),
{
    proof {
        shipped_names_differ();
    }
    let mut args = three_options(("-preset", "p5"), ("-rc", "vbr"), ("-cq", "23"));
    push_copy(&mut args, "-pix_fmt");
    push_copy(&mut args, "yuv420p");
    assert(texts(args@) =~= nvenc_h264().video_args);
    let h264 = ship("nvenc-h264", "H.264 on an NVIDIA GPU", "h264_nvenc", args);
    let mut args = three_options(("-preset", "p5"), ("-rc", "vbr"), ("-cq", "26"));
    push_copy(&mut args, "-tag:v");
    push_copy(&mut args, "hvc1");
    assert(texts(args@) =~= nvenc_hevc().video_args);
    let hevc = ship("nvenc-hevc", "HEVC on an NVIDIA GPU", "hevc_nvenc", args);
    let args = three_options(("-preset", "medium"), ("-crf", "21"), ("-pix_fmt", "yuv420p"));
    let x264 = ship("x264-cpu", "H.264 on the CPU", "libx264", args);
    let args = three_options(("-preset", "medium"), ("-crf", "24"), ("-tag:v", "hvc1"));
    let x265 = ship("x265-cpu", "HEVC on the CPU", "libx265", args);
    let mut profiles: TextMap<Profile> = TextMap::new();
    profiles.insert(own("nvenc-h264"), h264);
    profiles.insert(own("nvenc-hevc"), hevc);
    profiles.insert(own("x264-cpu"), x264);
    profiles.insert(own("x265-cpu"), x265);
    assert(profile_views(profiles@) =~= shipped_views());
    profiles
}

/// A profile name made safe to use in a file name.
pub open spec fn safe_name(name: Seq<char>) -> Seq<char> {
    if name.len() == 0 {
        seq!['_']
    } else {
        name.map_values(
            |c: char|
                if is_alphanumeric(c) || c == '-' || c == '_' {
                    c
                } else {
                    '_'
                },
        )
    }
}

/// The name of one of a profile's files, without the directory.
pub open spec fn candidate_name(name: Seq<char>, attempt: nat) -> Seq<char> {
    safe_name(name) + Seq::new(attempt, |i: int| '~') + ".toml"@
}

/// Profiles with some of them replaced or added by name, a later one over an
/// earlier one.
pub open spec fn overridden(
    profiles: Map<Seq<char>, ProfileView>,
    stored: Seq<ProfileView>,
) -> Map<Seq<char>, ProfileView>
    decreases stored.len(),
{
    if stored.len() == 0 {
        profiles
    } else {
        overridden(profiles, stored.drop_last()).insert(stored.last().name, stored.last())
    }
}

/// What some profiles say.
pub open spec fn all_views(stored: Seq<Profile>) -> Seq<ProfileView> {
    stored.map_values(|profile: Profile| profile@)
}

/// A file of the store, and the profile it holds where it can be read.
#[derive(Debug, Clone)]
pub struct StoredProfile {
    /// Where the file is.
    pub path: String,
    /// The profile in it.
    pub profile: Option<Profile>,
}

/// What a file of the store says.
#[verifier::ext_equal]
pub ghost struct StoredView {
    /// Where the file is.
    pub path: Seq<char>,
    /// The profile in it.
    pub profile: Option<ProfileView>,
}

impl View for StoredProfile {
    type V = StoredView;

    open spec fn view(&self) -> StoredView {
        StoredView {
            path: self.path@,
            profile: match self.profile {
                Some(profile) => Some(profile@),
                None => None,
            },
        }
    }
}

impl StoredView {
    /// The file holds the profile of this name.
    pub open spec fn holds(self, name: Seq<char>) -> bool {
        self.profile matches Some(profile) && profile.name == name
    }
}

/// What the files of the store say.
pub open spec fn stored_views(stored: Seq<StoredProfile>) -> Seq<StoredView> {
    stored.map_values(|file: StoredProfile| file@)
}

/// The profiles that can be read, in the order of their files.
pub open spec fn readable(stored: Seq<StoredView>) -> Seq<ProfileView>
    decreases stored.len(),
{
    if stored.len() == 0 {
        Seq::empty()
    } else {
        match stored.last().profile {
            Some(profile) => readable(stored.drop_last()).push(profile),
            None => readable(stored.drop_last()),
        }
    }
}

/// Every profile there is when these are the files of the store.
pub open spec fn profiles_with(stored: Seq<StoredView>) -> Map<Seq<char>, ProfileView> {
    overridden(shipped_views(), readable(stored))
}

/// The last file that holds the profile of a name, which is the one that
/// counts; less than nothing where there is none.
pub open spec fn holder(stored: Seq<StoredView>, name: Seq<char>) -> int
    decreases stored.len(),
{
    if stored.len() == 0 {
        -1
    } else if stored.last().holds(name) {
        stored.len() - 1
    } else {
        holder(stored.drop_last(), name)
    }
}

/// Where in the list a file is; less than nothing where it is not there.
pub open spec fn file_at(stored: Seq<StoredView>, path: Seq<char>) -> int
    decreases stored.len(),
{
    if stored.len() == 0 {
        -1
    } else if stored.last().path == path {
        stored.len() - 1
    } else {
        file_at(stored.drop_last(), path)
    }
}

/// A file holds a profile.
pub open spec fn taken(stored: Seq<StoredView>, path: Seq<char>) -> bool {
    exists|i: int|
        0 <= i < stored.len() && (#[trigger] stored[i]).path == path && stored[i].profile is Some
}

/// No file is listed twice.
pub open spec fn distinct_files(stored: Seq<StoredView>) -> bool {
    forall|i: int, j: int|
        0 <= i < j < stored.len() ==> (#[trigger] stored[i]).path != (#[trigger] stored[j]).path
}

/// The files of the store after a profile is written to one of them.
pub open spec fn written(
    stored: Seq<StoredView>,
    path: Seq<char>,
    profile: ProfileView,
) -> Seq<StoredView> {
    let file = StoredView { path, profile: Some(profile) };
    if file_at(stored, path) >= 0 {
        stored.update(file_at(stored, path), file)
    } else {
        stored.push(file)
    }
}

/// Profiles a deployment has added or changed, on top of the shipped ones.
///
/// Kept as TOML files in a directory because a profile *is* a TOML document:
/// the format an operator can read, copy and mail to somebody. Editing one in
/// a browser and editing one with a text editor stay the same act.
#[derive(Debug, Clone)]
pub struct ProfileStore {
    root: String,
}

impl ProfileStore {
    /// The directory being used.
    pub closed spec fn spec_root(self) -> Seq<char> {
        self.root@
    }

    /// The store at `root`, which need not exist.
    #[must_use]
    pub fn open(root: String) -> (store: ProfileStore)
        ensures
            store.spec_root() == root@,
    {
        ProfileStore { root }
    }

    /// The directory being used.
    #[must_use]
    pub fn root(&self) -> (root: &str)
        ensures
            root@ == self.spec_root(),
    {
        self.root.as_str()
    }

    /// The files a profile may be kept in, the one to prefer first.
    ///
    /// The name arrives over HTTP, so it is sanitised rather than trusted to
    /// stay inside the directory. That can give two profiles one file name, and
    /// the ones that follow tell them apart.
    pub open spec fn candidate(self, name: Seq<char>, attempt: nat) -> Seq<char> {
        below(self.spec_root(), candidate_name(name, attempt))
    }

    /// Where a profile is to be written: over the file that holds the profile
    /// of that name, or else to the first of its files that no other profile
    /// is kept in.
    pub open spec fn is_place(
        self,
        name: Seq<char>,
        stored: Seq<StoredView>,
        path: Seq<char>,
    ) -> bool {
        let at = holder(stored, name);
        if at >= 0 {
            path == stored[at].path
        } else {
            exists|attempt: nat| #[trigger] self.is_first_free(name, stored, attempt) && path
                == self.candidate(name, attempt)
        }
    }

    /// No other profile is kept in this one of a profile's files, and one is
    /// kept in each that comes before it.
    pub open spec fn is_first_free(
        self,
        name: Seq<char>,
        stored: Seq<StoredView>,
        attempt: nat,
    ) -> bool {
        &&& !taken(stored, self.candidate(name, attempt))
        &&& forall|earlier: nat|
            earlier < attempt ==> taken(stored, #[trigger] self.candidate(name, earlier))
    }

    /// One of the files a profile may be kept in.
    fn candidate_path(&self, name: &str, attempt: usize) -> (path: String)
        ensures
            path@ == self.candidate(name@, attempt as nat),
    {
        let chars = chars_of(name);
        let mut safe: Vec<char> = Vec::new();
        for i in 0..chars.len()
            invariant
                chars@ == name@,
                safe@ =~= safe_name(name@).take(i as int),
        {
            let c: char = chars[i];
            let plain = ('a' <= c && c <= 'z') || ('A' <= c && c <= 'Z') || ('0' <= c && c <= '9')
                || c == '-' || c == '_';
            safe.push(if plain { c } else { '_' });
        }
        if chars.len() == 0 {
            safe.push('_');
        }
        assert(safe@ =~= safe_name(name@));
        for i in 0..attempt
            invariant
                safe@ =~= safe_name(name@) + Seq::new(i as nat, |i: int| '~'),
        {
            safe.push('~');
        }
        let mut file = string_of(&safe);
        file.append(".toml");
        assert(file@ =~= candidate_name(name@, attempt as nat));
        join(self.root.as_str(), file.as_str())
    }

    /// Where a profile is to be written, given the files that are there.
    /// Storing a profile replaces the one of the same name and no other.
    #[must_use]
    pub fn place(&self, name: &str, stored: &[StoredProfile]) -> (path: String)
        ensures
            self.is_place(name@, stored_views(stored@), path@),
    {
        let ghost files = stored_views(stored@);
        let mut at: usize = stored.len();
        assert(files.take(at as int) =~= files);
        while at > 0
            invariant
                at <= stored@.len(),
                files == stored_views(stored@),
                holder(files, name@) == holder(files.take(at as int), name@),
            decreases at,
        {
            assert(files.take(at as int).drop_last() =~= files.take(at - 1));
            assert(files.take(at as int).last() == stored@[at - 1]@);
            if let Some(profile) = &stored[at - 1].profile {
                if same_text(profile.name.as_str(), name) {
                    return own(stored[at - 1].path.as_str());
                }
            }
            at -= 1;
        }
        let count: usize = stored.len();
        let mut attempt: usize = 0;
        loop
            invariant
                count == stored@.len(),
                files == stored_views(stored@),
                holder(files, name@) < 0,
                attempt <= stored@.len(),
                forall|earlier: nat|
                    earlier < attempt ==> taken(files, #[trigger] self.candidate(name@, earlier)),
            decreases stored@.len() - attempt,
        {
            let path = self.candidate_path(name, attempt);
            if !is_taken(stored, path.as_str()) {
                assert(self.is_first_free(name@, files, attempt as nat));
                return path;
            }
            proof {
                a_file_is_free(*self, name@, files, attempt as nat);
            }
            attempt += 1;
        }
    }

    /// The files to remove so that a stored profile is forgotten: those that
    /// hold it, and the one it would be kept in where that cannot be read.
    pub open spec fn goes_with(self, name: Seq<char>) -> spec_fn(StoredView) -> bool {
        |file: StoredView|
            file.holds(name) || (file.profile is None && file.path == self.candidate(name, 0))
    }

    /// The files to remove so that a stored profile is forgotten. There was
    /// none where there are none.
    #[must_use]
    pub fn files_of(&self, name: &str, stored: &[StoredProfile]) -> (paths: Vec<String>)
        ensures
            texts(paths@) == stored_views(stored@).filter(self.goes_with(name@)).map_values(
                |file: StoredView| file.path,
            ),
    {
        let ghost files = stored_views(stored@);
        let ghost goes = self.goes_with(name@);
        let usual = self.candidate_path(name, 0);
        let mut paths: Vec<String> = Vec::new();
        proof {
            filter_ends(files, goes);
        }
        for i in 0..stored.len()
            invariant
                files == stored_views(stored@),
                goes == self.goes_with(name@),
                usual@ == self.candidate(name@, 0),
                texts(paths@) =~= files.take(i as int).filter(goes).map_values(
                    |file: StoredView| file.path,
                ),
        {
            proof {
                filter_step(files, goes, i as int);
            }
            let file = &stored[i];
            assert(files[i as int] == file@);
            let gone = match &file.profile {
                Some(profile) => same_text(profile.name.as_str(), name),
                None => same_text(file.path.as_str(), usual.as_str()),
            };
            if gone {
                push_copy(&mut paths, file.path.as_str());
            }
        }
        paths
    }

    /// Whether a file in the directory holds a profile, going by its name.
    #[must_use]
    pub fn holds_profile(path: &str) -> (yes: bool)
        ensures
            yes == (extension_of(path@) == Some("toml"@)),
    {
        same_option(&extension(path), "toml")
    }

    /// Every profile: the shipped ones, with the stored ones replacing or
    /// adding to them by name.
    #[must_use]
    pub fn all(stored: Vec<Profile>) -> (profiles: TextMap<Profile>)
        ensures
            profiles.wf(),
            profile_views(profiles@) == overridden(shipped_views(), all_views(stored@)),
    {
        let mut profiles = builtin();
        let ghost views = all_views(stored@);
        assert(views.take(0) =~= Seq::empty());
        for i in 0..stored.len()
            invariant
                views == all_views(stored@),
                profiles.wf(),
                profile_views(profiles@) == overridden(shipped_views(), views.take(i as int)),
        {
            let profile = stored[i].duplicate();
            let ghost before = profiles@;
            proof {
                assert(views.take(i + 1).drop_last() =~= views.take(i as int));
                assert(views.take(i + 1).last() == stored@[i as int]@);
                assert(profile_views(before.insert(profile.name@, profile)) =~= profile_views(
                    before,
                ).insert(profile.name@, profile@));
                assert(profile.name@ == profile@.name);
            }
            profiles.insert(own(profile.name.as_str()), profile);
        }
        assert(views.take(views.len() as int) =~= views);
        profiles
    }
}

/// Whether a file holds a profile.
fn is_taken(stored: &[StoredProfile], path: &str) -> (yes: bool)
    ensures
        yes == taken(stored_views(stored@), path@),
{
    let ghost files = stored_views(stored@);
    for i in 0..stored.len()
        invariant
            files == stored_views(stored@),
            forall|k: int|
                0 <= k < i ==> !((#[trigger] files[k]).path == path@ && files[k].profile is Some),
    {
        assert(files[i as int] == stored@[i as int]@);
        if stored[i].profile.is_some() && same_text(stored[i].path.as_str(), path) {
            return true;
        }
    }
    false
}

/// A profile's files all have names of different lengths.
proof fn candidates_differ(store: ProfileStore, name: Seq<char>, one: nat, other: nat)
    requires
        store.candidate(name, one) == store.candidate(name, other),
    ensures
        one == other,
{
    candidate_is_a_name(name, one);
    candidate_is_a_name(name, other);
    assert(store.candidate(name, one).len() - one == store.candidate(name, other).len() - other);
}

proof fn candidate_is_a_name(name: Seq<char>, attempt: nat)
    ensures
        !candidate_name(name, attempt).contains('/'),
        candidate_name(name, attempt).len() == safe_name(name).len() + attempt + 5,
        candidate_name(name, attempt)[0] != '/',
{
    reveal_strlit(".toml");
    let file = candidate_name(name, attempt);
    let stem = safe_name(name).len() + attempt;
    assert forall|i: int| 0 <= i < file.len() implies file[i] != '/' by {
        if i >= stem {
            assert(file[i] == ".toml"@[i - stem]);
        }
    }
}

/// Among more of a profile's files than the store has, one is free.
proof fn a_file_is_free(
    store: ProfileStore,
    name: Seq<char>,
    stored: Seq<StoredView>,
    last: nat,
)
    requires
        forall|attempt: nat|
            attempt <= last ==> taken(stored, #[trigger] store.candidate(name, attempt)),
    ensures
        last < stored.len(),
{
    let places = Seq::new(
        last + 1,
        |k: int|
            choose|i: int|
                0 <= i < stored.len() && (#[trigger] stored[i]).path == store.candidate(
                    name,
                    k as nat,
                ) && stored[i].profile is Some,
    );
    assert forall|k: int| 0 <= k < places.len() implies 0 <= #[trigger] places[k] < stored.len()
        && stored[places[k]].path == store.candidate(name, k as nat) by {
        assert(taken(stored, store.candidate(name, k as nat)));
    }
    assert(places.no_duplicates()) by {
        assert forall|i: int, j: int|
            0 <= i < places.len() && 0 <= j < places.len() && i != j implies places[i]
            != places[j] by {
            if places[i] == places[j] {
                candidates_differ(store, name, i as nat, j as nat);
            }
        }
    }
    places.unique_seq_to_set();
    lemma_int_range(0, stored.len() as int);
    assert(places.to_set().subset_of(set_int_range(0, stored.len() as int)));
    lemma_len_subset(places.to_set(), set_int_range(0, stored.len() as int));
}

/// The file of a profile stays in the store's directory, whatever the name: it
/// holds no slash. And it is one of those that are looked into.
pub proof fn profile_files_stay_in_the_store(store: ProfileStore, name: Seq<char>, attempt: nat)
    ensures
        store.candidate(name, attempt) == below(store.spec_root(), candidate_name(name, attempt)),
        !candidate_name(name, attempt).contains('/'),
        extension_of(store.candidate(name, attempt)) == Some("toml"@),
{
    reveal_strlit(".toml");
    reveal_strlit("toml");
    candidate_is_a_name(name, attempt);
    let file = candidate_name(name, attempt);
    let stem = (safe_name(name).len() + attempt) as int;
    assert(file.skip(stem) =~= ".toml"@);
    assert(file[stem] == '.');
    assert(file[stem + 1] == 't');
    assert(file[stem + 2] == 'o');
    assert(file[stem + 3] == 'm');
    assert(file[stem + 4] == 'l');
    assert(file.len() >= 6);
    names_below_are_last(store.spec_root(), file);
    dot_before_an_extension(file, stem);
    assert(file.skip(stem + 1) =~= "toml"@);
}

/// A stored profile never hides one of another name.
pub proof fn stored_profiles_only_override_their_own_name(
    profiles: Map<Seq<char>, ProfileView>,
    stored: Seq<ProfileView>,
    name: Seq<char>,
)
    requires
        forall|i: int| 0 <= i < stored.len() ==> (#[trigger] stored[i]).name != name,
    ensures
        overridden(profiles, stored).contains_key(name) == profiles.contains_key(name),
        profiles.contains_key(name) ==> overridden(profiles, stored)[name] == profiles[name],
    decreases stored.len(),
{
    if stored.len() > 0 {
        stored_profiles_only_override_their_own_name(profiles, stored.drop_last(), name);
        assert(stored.last() == stored[stored.len() - 1]);
    }
}

/// What a file holds decides what there is under a name: the last file that
/// holds it, or what was shipped.
proof fn the_holder_counts(stored: Seq<StoredView>, name: Seq<char>)
    ensures
        -1 <= holder(stored, name) < stored.len(),
        holder(stored, name) >= 0 ==> {
            &&& stored[holder(stored, name)].holds(name)
            &&& profiles_with(stored).contains_key(name)
            &&& Some(profiles_with(stored)[name]) == stored[holder(stored, name)].profile
        },
        holder(stored, name) < 0 ==> {
            &&& profiles_with(stored).contains_key(name) == shipped_views().contains_key(name)
            &&& shipped_views().contains_key(name) ==> profiles_with(stored)[name]
                == shipped_views()[name]
        },
        forall|i: int|
            holder(stored, name) < i < stored.len() ==> !(#[trigger] stored[i]).holds(name),
    decreases stored.len(),
{
    if stored.len() > 0 {
        let shorter = stored.drop_last();
        the_holder_counts(shorter, name);
        assert forall|i: int| holder(stored, name) < i < stored.len() implies !(
        #[trigger] stored[i]).holds(name) by {
            if i < shorter.len() {
                assert(shorter[i] == stored[i]);
            }
        }
        if let Some(profile) = stored.last().profile {
            assert(readable(stored).drop_last() =~= readable(shorter));
        }
    }
}

/// The last file that holds a name is the last file that holds it.
proof fn the_holder_is_last(stored: Seq<StoredView>, name: Seq<char>, at: int)
    requires
        -1 <= at < stored.len(),
        at >= 0 ==> stored[at].holds(name),
        forall|i: int| at < i < stored.len() ==> !(#[trigger] stored[i]).holds(name),
    ensures
        holder(stored, name) == at,
{
    the_holder_counts(stored, name);
    let found = holder(stored, name);
    if found > at {
        assert(stored[found].holds(name));
    }
    if at > found {
        assert(stored[at].holds(name));
    }
}

proof fn files_are_found(stored: Seq<StoredView>, path: Seq<char>)
    ensures
        -1 <= file_at(stored, path) < stored.len(),
        file_at(stored, path) >= 0 ==> stored[file_at(stored, path)].path == path,
        file_at(stored, path) < 0 ==> forall|i: int|
            0 <= i < stored.len() ==> (#[trigger] stored[i]).path != path,
    decreases stored.len(),
{
    if stored.len() > 0 {
        let shorter = stored.drop_last();
        files_are_found(shorter, path);
        if file_at(stored, path) < 0 {
            assert forall|i: int| 0 <= i < stored.len() implies (#[trigger] stored[i]).path
                != path by {
                if i < shorter.len() {
                    assert(shorter[i] == stored[i]);
                }
            }
        }
    }
}

/// Storing a profile replaces the one of the same name, or adds it, and leaves
/// every other profile as it was.
pub proof fn saving_replaces_only_the_same_name(
    store: ProfileStore,
    stored: Seq<StoredView>,
    path: Seq<char>,
    profile: ProfileView,
)
    requires
        distinct_files(stored),
        store.is_place(profile.name, stored, path),
    ensures
        profiles_with(written(stored, path, profile)) == profiles_with(stored).insert(
            profile.name,
            profile,
        ),
{
    let after = written(stored, path, profile);
    let at = file_at(stored, path);
    files_are_found(stored, path);
    the_holder_counts(stored, profile.name);
    let held = holder(stored, profile.name);
    let place = if at >= 0 { at } else { stored.len() as int };
    assert(after[place].profile == Some(profile));
    if held >= 0 {
        assert(at == held) by {
            if at < held {
                assert(stored[at].path != stored[held].path);
            }
            if held < at {
                assert(stored[held].path != stored[at].path);
            }
        }
    } else if at >= 0 {
        assert(stored[at].profile is None) by {
            let attempt = choose|attempt: nat| #[trigger]
                store.is_first_free(profile.name, stored, attempt) && path == store.candidate(
                    profile.name,
                    attempt,
                );
            assert(!taken(stored, path));
        }
    }
    assert forall|name: Seq<char>|
        #![trigger profiles_with(after).contains_key(name)]
        {
            let wanted = profiles_with(stored).insert(profile.name, profile);
            &&& profiles_with(after).contains_key(name) == wanted.contains_key(name)
            &&& wanted.contains_key(name) ==> profiles_with(after)[name] == wanted[name]
        } by {
        the_holder_counts(stored, name);
        the_holder_counts(after, name);
        if name == profile.name {
            assert forall|i: int| place < i < after.len() implies !(#[trigger] after[i]).holds(
                name,
            ) by {
                assert(after[i] == stored[i]);
            }
            the_holder_is_last(after, name, place);
        } else {
            let found = holder(stored, name);
            if at >= 0 {
                assert(!stored[at].holds(name));
            }
            if found >= 0 {
                assert(after[found] == stored[found]);
            }
            assert forall|i: int| found < i < after.len() implies !(#[trigger] after[i]).holds(
                name,
            ) by {
                if i != place {
                    assert(after[i] == stored[i]);
                }
            }
            the_holder_is_last(after, name, found);
        }
    }
    assert(profiles_with(after) =~= profiles_with(stored).insert(profile.name, profile));
}

/// The files that stay when a profile is forgotten.
pub open spec fn stays_without(
    store: ProfileStore,
    name: Seq<char>,
) -> spec_fn(StoredView) -> bool {
    |file: StoredView| !(store.goes_with(name))(file)
}

/// Forgetting a stored profile restores the shipped one, where there is one,
/// and leaves every profile of another name as it was.
pub proof fn forgetting_restores_what_was_shipped(
    store: ProfileStore,
    stored: Seq<StoredView>,
    name: Seq<char>,
    other: Seq<char>,
)
    requires
        other != name,
    ensures
        ({
            let after = profiles_with(stored.filter(stays_without(store, name)));
            &&& after.contains_key(name) == shipped_views().contains_key(name)
            &&& shipped_views().contains_key(name) ==> after[name] == shipped_views()[name]
            &&& after.contains_key(other) == profiles_with(stored).contains_key(other)
            &&& after.contains_key(other) ==> after[other] == profiles_with(stored)[other]
        }),
    decreases stored.len(),
{
    reveal(Seq::filter);
    let stays = stays_without(store, name);
    if stored.len() > 0 {
        let shorter = stored.drop_last();
        let last = stored.last();
        forgetting_restores_what_was_shipped(store, shorter, name, other);
        if let Some(profile) = last.profile {
            assert(readable(stored).drop_last() =~= readable(shorter));
        }
        if stays(last) {
            let kept = stored.filter(stays);
            assert(kept.drop_last() =~= shorter.filter(stays));
            assert(kept.last() == last);
            if let Some(profile) = last.profile {
                assert(readable(kept).drop_last() =~= readable(shorter.filter(stays)));
            }
        }
    }
}

} // verus!
