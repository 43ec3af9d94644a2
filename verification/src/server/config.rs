//! Server configuration.

use vstd::prelude::*;
use vstd::string::*;
use crate::cmcut::score::LowConfidencePolicy;
use crate::server::schedule::RunHours;
use crate::text::own;

verus! {

/// Server configuration.
#[derive(Debug, Clone, PartialEq, Eq)]
pub struct Config {
    /// Address to listen on.
    pub listen: String,
    /// Where the job database lives.
    pub database: String,
    /// Where learned logos live.
    pub logo_dir: String,
    /// Where added and changed profiles live.
    pub profile_dir: String,
    /// Where per-channel settings live.
    pub channels: String,
    /// Where the selection rules live.
    pub rules: String,
    /// How many jobs to run at once.
    pub concurrency: usize,
    /// What to do when the commercials cannot be found confidently.
    ///
    /// `keep` transcodes the whole recording, which is the safe default.
    /// `block` holds the job instead, so it can be run again once the
    /// channel's logo has been taught rather than quietly producing an uncut
    /// file nobody notices.
    pub on_low_confidence: LowConfidencePolicy,
    /// Hours during which jobs may run.
    pub run_hours: RunHours,
    /// How to name outputs, when not by what was asked for.
    pub output_template: Option<String>,
    /// Directories the logo tool may read recordings from.
    ///
    /// The engine serves frames out of these so a browser can show what a
    /// recording looks like. Nothing outside them is readable, because a path
    /// arriving over HTTP is not to be trusted with the filesystem. Empty by
    /// default, which disables frame serving entirely.
    pub recording_dirs: Vec<String>,
    /// Path to ffmpeg, when it is not on `PATH`.
    pub ffmpeg: Option<String>,
    /// Path to ffprobe, when it is not on `PATH`.
    pub ffprobe: Option<String>,
}

/// The address listened on unless another is given.
///
/// Loopback: the engine has no authentication of its own; the web app is what
/// faces the network, and it proxies to this.
#[must_use]
pub fn default_listen() -> (listen: String)
    ensures
        listen@ == "127.0.0.1:8081"@,
{
    own("127.0.0.1:8081")
}

/// Where the job database lives unless said otherwise.
#[must_use]
pub fn default_database() -> (path: String)
    ensures
        path@ == "/var/lib/asaborake/jobs.db"@,
{
    own("/var/lib/asaborake/jobs.db")
}

/// Where learned logos live unless said otherwise.
#[must_use]
pub fn default_logo_dir() -> (path: String)
    ensures
        path@ == "/var/lib/asaborake/logos"@,
{
    own("/var/lib/asaborake/logos")
}

/// How many jobs run at once unless said otherwise.
///
/// One job saturates a GPU encoder and most of a CPU during analysis. Two lets
/// a short job past a long one without thrashing.
#[must_use]
pub fn default_concurrency() -> (count: usize)
    ensures
        count == 2,
{
    2
}

impl Default for Config {
    fn default() -> (config: Config)
        ensures
            config.listen@ == "127.0.0.1:8081"@,
            config.database@ == "/var/lib/asaborake/jobs.db"@,
            config.logo_dir@ == "/var/lib/asaborake/logos"@,
            config.profile_dir@ == "/var/lib/asaborake/profiles"@,
            config.channels@ == "/var/lib/asaborake/channels.json"@,
            config.rules@ == "/var/lib/asaborake/rules.json"@,
            config.concurrency == 2,
            config.on_low_confidence == LowConfidencePolicy::Keep,
            config.run_hours@ == Seq::<u32>::empty(),
            config.run_hours.wf(),
            config.output_template is None,
            config.recording_dirs@.len() == 0,
            config.ffmpeg is None,
            config.ffprobe is None,
    {
        Config {
            listen: default_listen(),
            database: default_database(),
            logo_dir: default_logo_dir(),
            profile_dir: own("/var/lib/asaborake/profiles"),
            channels: own("/var/lib/asaborake/channels.json"),
            rules: own("/var/lib/asaborake/rules.json"),
            concurrency: default_concurrency(),
            on_low_confidence: LowConfidencePolicy::Keep,
            run_hours: RunHours::default(),
            output_template: None,
            recording_dirs: Vec::new(),
            ffmpeg: None,
            ffprobe: None,
        }
    }
}

} // verus!
