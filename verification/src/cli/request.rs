//! What the command line asks the engine for.

use vstd::prelude::*;
use vstd::string::*;
use crate::cli::epgstation::Environment;
use crate::cmcut::plan::NEVER;
use crate::cmcut::score::CutOptions;
use crate::cmcut::score::LowConfidencePolicy;
use crate::engine::pipeline::JobRequest;
use crate::engine::profile::builtin;
use crate::engine::profile::profile_views;
use crate::engine::profile::shipped_views;
use crate::engine::profile::Profile;
use crate::text::copy_option;
use crate::text::own;
use crate::text::text_of;

verus! {

/// Details about the recording that improve detection when they are known.
#[derive(Debug, Clone)]
pub struct RecordingContext {
    /// Channel id, used as the logo store key.
    pub channel_id: Option<String>,
    /// Channel name, used to label a newly learned logo.
    pub channel_name: Option<String>,
    /// Programme title, for logs and the cut record.
    pub title: Option<String>,
}

impl Default for RecordingContext {
    fn default() -> (context: RecordingContext)
        ensures
            context == (RecordingContext { channel_id: None, channel_name: None, title: None }),
    {
        RecordingContext { channel_id: None, channel_name: None, title: None }
    }
}

/// What is said of a profile that does not exist, with those that do.
pub open spec fn unknown_profile(name: Seq<char>) -> Seq<char> {
    "no profile named '"@ + name + "'; available: nvenc-h264, nvenc-hevc, x264-cpu, x265-cpu"@
}

/// Look up a profile by name. Fails with the names there are.
pub fn profile(name: &str) -> (result: Result<Profile, String>)
    ensures
        match result {
            Ok(profile) => shipped_views().contains_key(name@) && profile@
                == shipped_views()[name@],
            Err(message) => !shipped_views().contains_key(name@) && message@ == unknown_profile(
                name@,
            ),
        },
{
    let mut profiles = builtin();
    let ghost all = profiles@;
    match profiles.remove(name) {
        Some(profile) => {
            assert(profile_views(all).contains_key(name@));
            assert(profile_views(all)[name@] == profile@);
            Ok(profile)
        },
        None => {
            assert(!profile_views(all).contains_key(name@));
            let mut message = own("no profile named '");
            message.append(name);
            message.append("'; available: nvenc-h264, nvenc-hevc, x264-cpu, x265-cpu");
            Err(message)
        },
    }
}

/// A request is for the job as it was described.
pub open spec fn is_request_for(
    request: JobRequest,
    input: Seq<char>,
    output: Seq<char>,
    no_cut: bool,
    context: RecordingContext,
) -> bool {
    &&& request.wf()
    &&& request.input@ == input
    &&& request.output@ == output
    &&& text_of(request.channel_id) == text_of(context.channel_id)
    &&& text_of(request.channel_name) == text_of(context.channel_name)
    &&& text_of(request.title) == text_of(context.title)
    &&& request.logo_rect is None
    &&& exists|defaults: CutOptions|
        call_ensures(CutOptions::default, (), defaults) && request.cut == (if no_cut {
            CutOptions {
                low_confidence: LowConfidencePolicy::Keep,
                confidence_threshold: NEVER,
                ..defaults
            }
        } else {
            defaults
        })
    &&& request.detect_commercials
    &&& request.learn_logo
    &&& !request.refuse_damaged
    &&& request.manual_ranges is None
    &&& request.diagnostics is None
}

/// Assemble a job request. Fails when there is no such profile.
///
/// Without cutting, detection still runs, and its result still becomes
/// chapters; only the removal is suppressed.
pub fn build_request(
    input: &str,
    output: &str,
    profile_name: &str,
    no_cut: bool,
    context: &RecordingContext,
) -> (result: Result<JobRequest, String>)
    ensures
        match result {
            Ok(request) => {
                &&& shipped_views().contains_key(profile_name@)
                &&& request.profile@ == shipped_views()[profile_name@]
                &&& is_request_for(request, input@, output@, no_cut, *context)
            },
            Err(message) => !shipped_views().contains_key(profile_name@) && message@
                == unknown_profile(profile_name@),
        },
{
    let profile = match profile(profile_name) {
        Ok(profile) => profile,
        Err(message) => {
            return Err(message);
        },
    };
    let mut request = JobRequest::new(own(input), own(output), profile);
    let ghost defaults = request.cut;
    request.channel_id = copy_option(&context.channel_id);
    request.channel_name = copy_option(&context.channel_name);
    request.title = copy_option(&context.title);
    if no_cut {
        request.cut.low_confidence = LowConfidencePolicy::Keep;
        request.cut.confidence_threshold = NEVER;
        assert(request.cut == (CutOptions {
            low_confidence: LowConfidencePolicy::Keep,
            confidence_threshold: NEVER,
            ..defaults
        }));
    }
    assert(call_ensures(CutOptions::default, (), defaults));
    Ok(request)
}

/// What `EPGStation` says a job is.
#[derive(Debug)]
pub struct StationJob {
    /// Source recording.
    pub input: String,
    /// Where the result goes.
    pub output: String,
    /// What is known about it.
    pub context: RecordingContext,
}

/// The job `EPGStation` describes. Fails when it names no input or no output.
pub fn station_job(environment: &Environment) -> (result: Result<StationJob, String>)
    ensures
        match result {
            Ok(job) => {
                &&& text_of(environment.input) == Some(job.input@)
                &&& text_of(environment.output) == Some(job.output@)
                &&& text_of(job.context.channel_id) == text_of(environment.channel_id)
                &&& text_of(job.context.channel_name) == text_of(environment.channel_name)
                &&& text_of(job.context.title) == text_of(environment.name)
            },
            Err(message) => if environment.input is None {
                message@ == "EPGStation did not set INPUT; is this running as an encoder?"@
            } else {
                environment.output is None && message@
                    == "EPGStation did not set OUTPUT; the encode entry needs a suffix"@
            },
        },
{
    let input = match &environment.input {
        Some(input) => own(input.as_str()),
        None => {
            return Err(own("EPGStation did not set INPUT; is this running as an encoder?"));
        },
    };
    let output = match &environment.output {
        Some(output) => own(output.as_str()),
        None => {
            return Err(own("EPGStation did not set OUTPUT; the encode entry needs a suffix"));
        },
    };
    let context = RecordingContext {
        channel_id: copy_option(&environment.channel_id),
        channel_name: copy_option(&environment.channel_name),
        title: copy_option(&environment.name),
    };
    Ok(StationJob { input, output, context })
}

} // verus!
