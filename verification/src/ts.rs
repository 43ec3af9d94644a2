//! What a scan of a transport stream reports.

use vstd::prelude::*;
use vstd::string::*;

verus! {

/// What an elementary stream carries.
#[derive(Debug, Clone, Copy, PartialEq, Eq, Structural)]
pub enum StreamKind {
    /// MPEG-2 video.
    Mpeg2Video,
    /// H.264 video.
    H264Video,
    /// HEVC video.
    HevcVideo,
    /// AAC audio.
    AacAudio,
    /// ARIB captions.
    Caption,
    /// ARIB superimposed text.
    Superimpose,
    /// Data broadcasting.
    Data,
    /// Anything else, by its stream type.
    Other(u8),
}

/// What a programme's tables say of an audio stream.
#[derive(Debug, Clone, PartialEq, Eq)]
pub struct AudioComponent {
    /// How the channels are used.
    pub component_type: u8,
    /// Language of the stream, or of its left channel.
    pub language: Option<String>,
    /// Language of the right channel of a bilingual stream.
    pub second_language: Option<String>,
}

/// One elementary stream.
#[derive(Debug, Clone, PartialEq, Eq)]
pub struct StreamInfo {
    /// Packet identifier.
    pub pid: u16,
    /// What it carries.
    pub kind: StreamKind,
    /// What the tables say of it, for an audio stream.
    pub audio: Option<AudioComponent>,
}

/// The component type of two independent mono programmes, one per channel.
pub const DUAL_MONO: u8 = 2;

impl StreamInfo {
    /// The two channels are two programmes rather than left and right.
    pub open spec fn dual_mono(self) -> bool {
        self.audio matches Some(component) && component.component_type == DUAL_MONO
    }

    /// Whether the two channels are two programmes rather than left and right.
    #[must_use]
    pub fn is_dual_mono(&self) -> (yes: bool)
        ensures
            yes == self.dual_mono(),
    {
        match &self.audio {
            Some(component) => component.component_type == DUAL_MONO,
            None => false,
        }
    }
}

/// One programme.
#[derive(Debug, Clone, PartialEq, Eq)]
pub struct ProgramInfo {
    /// Its number.
    pub program_number: u16,
    /// Its elementary streams.
    pub streams: Vec<StreamInfo>,
}

/// The shape of the picture.
#[derive(Debug, Clone, Copy, PartialEq, Eq)]
pub struct VideoFormat {
    /// Width in pixels.
    pub width: u32,
    /// Height in pixels.
    pub height: u32,
    /// Frame rate as an exact rational.
    pub frame_rate: (u32, u32),
    /// Whether the picture is interlaced.
    pub interlaced: bool,
}

impl VideoFormat {
    /// The other picture is of another size.
    pub open spec fn other_size(self, other: VideoFormat) -> bool {
        self.width != other.width || self.height != other.height
    }

    /// Whether a change to another format needs another output file. A
    /// frame-rate change is re-timed by the encoder; a size change is not,
    /// because a video track has one size for its whole length.
    #[must_use]
    pub fn requires_split(&self, other: &VideoFormat) -> (yes: bool)
        ensures
            yes == self.other_size(*other),
    {
        self.width != other.width || self.height != other.height
    }
}

/// A change of format.
#[derive(Debug, Clone, Copy, PartialEq, Eq)]
pub struct FormatChange {
    /// When it happens, in microseconds.
    pub seconds: i64,
    /// Where in the file it happens.
    pub byte_offset: u64,
    /// The format from then on.
    pub format: VideoFormat,
}

/// Counters of what went wrong.
#[derive(Debug, Clone, Copy, PartialEq, Eq)]
pub struct TsStats {
    /// Packets lost, inferred from continuity counters.
    pub dropped_packets: u64,
    /// Packets still scrambled.
    pub scrambled_packets: u64,
    /// Packets flagged as uncorrectable.
    pub error_packets: u64,
}

impl Default for TsStats {
    fn default() -> (stats: TsStats)
        ensures
            stats == (TsStats { dropped_packets: 0, scrambled_packets: 0, error_packets: 0 }),
    {
        TsStats { dropped_packets: 0, scrambled_packets: 0, error_packets: 0 }
    }
}

/// What a scan found.
#[derive(Debug, PartialEq, Eq)]
pub struct TsInfo {
    /// How its packets are laid out, by name.
    pub layout: String,
    /// Packets read.
    pub packet_count: u64,
    /// Duration in microseconds.
    pub duration_seconds: i64,
    /// The programmes in the stream.
    pub programs: Vec<ProgramInfo>,
    /// Picture format at the start.
    pub video_format: Option<VideoFormat>,
    /// Every later change of it.
    pub format_changes: Vec<FormatChange>,
    /// What went wrong.
    pub stats: TsStats,
}

/// One caption.
#[derive(Debug, Clone, PartialEq, Eq)]
pub struct Caption {
    /// When it appears, in microseconds.
    pub start_seconds: i64,
    /// When it disappears, in microseconds.
    pub end_seconds: i64,
    /// What it says.
    pub text: String,
}

} // verus!
