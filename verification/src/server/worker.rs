//! What a worker decides about a job.
//!
//! A job is minutes to hours of CPU and GPU work driving child processes. What
//! stands here is everything around that work: how a recording is to be
//! treated, whether it can start, and what its outcome means.

use vstd::prelude::*;
use vstd::string::*;
use crate::cmcut::plan::length_of_kind;
use crate::cmcut::plan::CutPlan;
use crate::cmcut::plan::Decision;
use crate::cmcut::score::CutOptions;
use crate::cmcut::score::LowConfidencePolicy;
use crate::cmcut::score::SegmentKind;
use crate::engine::channels::ChannelSettings;
use crate::engine::channels::ChannelStore;
use crate::engine::naming::rename;
use crate::engine::naming::renaming;
use crate::engine::naming::Fields;
use crate::engine::naming::RecordedAt;
use crate::engine::pipeline::JobRequest;
use crate::engine::profile::Profile;
use crate::engine::rules::first_of;
use crate::engine::rules::Candidate;
use crate::engine::rules::CandidateView;
use crate::engine::rules::Rule;
use crate::engine::rules::RuleSet;
use crate::paths::file_stem;
use crate::paths::stem_of;
use crate::server::db::Job;
use crate::server::db::JobStatus;
use crate::server::disk::describe;
use crate::server::disk::size_text;
use crate::text::chars_of;
use crate::text::contains;
use crate::text::copy_option;
use crate::text::occurs_in;
use crate::text::one_place;
use crate::text::own;
use crate::text::push_one_place;
use crate::text::push_two_places;
use crate::text::same_text;
use crate::text::text_of;
use crate::text::texts;
use crate::text::two_places;
use crate::textmap::TextMap;

verus! {

/// What an idle worker does next.
#[derive(Debug, Clone, Copy, PartialEq, Eq, Structural)]
pub enum Step {
    /// Wait, saying so if it has not been said yet.
    Rest {
        /// Whether to say so.
        announce: bool,
    },
    /// Look for a job.
    Claim,
}

/// What to do next, given whether work may start now and whether the worker
/// was already waiting.
///
/// Outside its hours the queue does not stop accepting work, it stops starting
/// it. Anything already running is left alone: killing an encode at 07:00
/// wastes the six hours it has already had.
#[must_use]
pub fn next_step(allowed: bool, resting: bool) -> (step: Step)
    ensures
        step == (if allowed {
            Step::Claim
        } else {
            Step::Rest { announce: !resting }
        }),
{
    if allowed {
        Step::Claim
    } else {
        Step::Rest { announce: !resting }
    }
}

/// How many workers are started: one at least.
#[must_use]
pub fn pool_size(count: usize) -> (workers: usize)
    ensures
        workers == (if count == 0 {
            1
        } else {
            count
        }),
{
    if count == 0 {
        1
    } else {
        count
    }
}

/// What is known of a job's recording when the rules are consulted.
///
/// The picture size is not known until the source is probed, so rules that ask
/// about it do not fire.
pub open spec fn candidate_for(job: Job) -> CandidateView {
    CandidateView {
        channel_id: text_of(job.channel_id),
        title: text_of(job.title),
        path: Some(job.input@),
        height: None,
    }
}

/// Settings with what a rule says in their place.
pub open spec fn is_overridden(
    channel: ChannelSettings,
    rule: Option<Rule>,
    settings: ChannelSettings,
) -> bool {
    &&& text_of(settings.name) == text_of(channel.name)
    &&& text_of(settings.profile) == (match rule {
        Some(rule) => match text_of(rule.profile) {
            Some(profile) => Some(profile),
            None => text_of(channel.profile),
        },
        None => text_of(channel.profile),
    })
    &&& settings.detect_commercials == (match rule {
        Some(rule) => match rule.detect_commercials {
            Some(detect) => detect,
            None => channel.detect_commercials,
        },
        None => channel.detect_commercials,
    })
}

/// How a channel is set, unset where nobody set it.
pub open spec fn channel_setting(
    channels: Map<Seq<char>, ChannelSettings>,
    id: Option<Seq<char>>,
) -> ChannelSettings {
    let key = match id {
        Some(id) => id,
        None => ""@,
    };
    if channels.contains_key(key) {
        channels[key]
    } else {
        ChannelSettings::unset()
    }
}

/// How one recording is to be treated.
#[derive(Debug)]
pub struct Treatment {
    /// The settings that hold.
    pub settings: ChannelSettings,
    /// What to log about a rule that matched.
    pub note: Option<String>,
}

/// How this recording should be treated, from the channel and the rules.
///
/// The channel is the general case and a rule is the particular one, so a
/// matching rule has the last word.
#[must_use]
pub fn settings_for(channels: &ChannelStore, rules: &RuleSet, job: &Job) -> (treatment: Treatment)
    requires
        channels.wf(),
    ensures
        is_overridden(
            channel_setting(channels@, text_of(job.channel_id)),
            first_of(rules.rules@, candidate_for(*job)),
            treatment.settings,
        ),
        text_of(treatment.note) == (match first_of(rules.rules@, candidate_for(*job)) {
            Some(rule) => Some(
                "matched the rule '"@ + (match text_of(rule.name) {
                    Some(name) => name,
                    None => "(unnamed)"@,
                }) + "'"@,
            ),
            None => None,
        }),
{
    let mut settings = match &job.channel_id {
        Some(id) => channels.get(id.as_str()),
        None => channels.get(""),
    };
    let candidate = Candidate {
        channel_id: copy_option(&job.channel_id),
        title: copy_option(&job.title),
        path: Some(own(job.input.as_str())),
        height: None,
    };
    assert(candidate@ == candidate_for(*job));
    match rules.first_match(&candidate) {
        Some(rule) => {
            if let Some(profile) = &rule.profile {
                settings.profile = Some(own(profile.as_str()));
            }
            if let Some(detect) = rule.detect_commercials {
                settings.detect_commercials = detect;
            }
            let mut note = own("matched the rule '");
            match &rule.name {
                Some(name) => note.append(name.as_str()),
                None => note.append("(unnamed)"),
            }
            note.append("'");
            Treatment { settings, note: Some(note) }
        },
        None => Treatment { settings, note: None },
    }
}

/// The name of the profile a job is encoded with.
pub open spec fn wanted_profile(settings: ChannelSettings, job: Job) -> Seq<char> {
    match text_of(settings.profile) {
        Some(profile) => profile,
        None => job.profile@,
    }
}

/// The profile a job is encoded with.
#[derive(Debug)]
pub struct Choice {
    /// The profile.
    pub profile: Profile,
    /// What to log when it is not the one the job asked for.
    pub note: Option<String>,
}

/// What is said of a profile that does not exist.
pub open spec fn missing_profile(name: Seq<char>) -> Seq<char> {
    "no profile named '"@ + name + "'"@
}

/// Say that there is no profile of a name.
#[must_use]
pub fn no_profile(name: &str) -> (message: String)
    ensures
        message@ == missing_profile(name@),
{
    let mut message = own("no profile named '");
    message.append(name);
    message.append("'");
    message
}

/// Choose the profile for a job: the channel's, or the one that was asked for.
/// Fails, saying why, when there is no such profile.
pub fn choose_profile(
    profiles: &TextMap<Profile>,
    settings: &ChannelSettings,
    job: &Job,
) -> (result: Result<Choice, String>)
    requires
        profiles.wf(),
    ensures
        ({
            let wanted = wanted_profile(*settings, *job);
            match result {
                Ok(choice) => {
                    &&& profiles@.contains_key(wanted)
                    &&& choice.profile@ == profiles@[wanted]@
                    &&& text_of(choice.note) == (if wanted == job.profile@ {
                        None
                    } else {
                        Some(
                            "using '"@ + wanted + "' for this channel instead of '"@ + job.profile@
                                + "'"@,
                        )
                    })
                },
                Err(message) => !profiles@.contains_key(wanted) && message@ == missing_profile(
                    wanted,
                ),
            }
        }),
{
    let wanted = match &settings.profile {
        Some(profile) => profile.as_str(),
        None => job.profile.as_str(),
    };
    match profiles.get(wanted) {
        Some(profile) => {
            let note = if same_text(wanted, job.profile.as_str()) {
                None
            } else {
                let mut note = own("using '");
                note.append(wanted);
                note.append("' for this channel instead of '");
                note.append(job.profile.as_str());
                note.append("'");
                Some(note)
            };
            Ok(Choice { profile: profile.duplicate(), note })
        },
        None => Err(no_profile(wanted)),
    }
}

/// What is known about a job for naming its output.
#[must_use]
pub fn fields_for(job: &Job, recorded_at: Option<RecordedAt>) -> (fields: Fields)
    ensures
        text_of(fields.title) == text_of(job.title),
        text_of(fields.channel) == (match text_of(job.channel_name) {
            Some(name) => Some(name),
            None => text_of(job.channel_id),
        }),
        fields.recorded_at == recorded_at,
        text_of(fields.source) == stem_of(job.input@),
{
    Fields {
        title: copy_option(&job.title),
        channel: match &job.channel_name {
            Some(name) => Some(own(name.as_str())),
            None => copy_option(&job.channel_id),
        },
        recorded_at,
        source: file_stem(job.input.as_str()),
    }
}

/// Where the output goes instead, when a template says how to name it after
/// the programme and that is somewhere else.
#[must_use]
pub fn renamed_output(job: &Job, template: Option<&str>, fields: &Fields) -> (path: Option<String>)
    ensures
        text_of(path) == (match template {
            Some(template) => match renaming(job.output@, template@, *fields) {
                Some(path) => if path == job.output@ {
                    None
                } else {
                    Some(path)
                },
                None => None,
            },
            None => None,
        }),
{
    match template {
        Some(template) => match rename(job.output.as_str(), template, fields) {
            Some(path) => if same_text(path.as_str(), job.output.as_str()) {
                None
            } else {
                Some(path)
            },
            None => None,
        },
        None => None,
    }
}

/// What to log when the output goes somewhere else.
#[must_use]
pub fn rename_note(renamed: &str, asked: &str) -> (note: String)
    ensures
        note@ == "writing to "@ + renamed@ + " rather than "@ + asked@,
{
    let mut note = own("writing to ");
    note.append(renamed);
    note.append(" rather than ");
    note.append(asked);
    note
}

/// Why a job cannot start for lack of disk.
///
/// An encode that runs out of room half way through has cost an hour of GPU
/// time and leaves a truncated file that looks real until somebody plays it.
#[must_use]
pub fn no_room_for(shortfall: Option<u64>) -> (message: Option<String>)
    ensures
        text_of(message) == (match shortfall {
            Some(short) => Some(
                "not enough room where the output goes — about "@ + size_text(short)
                    + " short of what this recording is likely to need"@,
            ),
            None => None,
        }),
{
    match shortfall {
        Some(short) => {
            let mut message = own("not enough room where the output goes — about ");
            message.append(describe(short).as_str());
            message.append(" short of what this recording is likely to need");
            Some(message)
        },
        None => None,
    }
}

/// The request that runs a job.
///
/// Where there are no commercials to find, nothing is looked for: no logo
/// pass, no segmentation, and the recording is transcoded whole.
#[must_use]
pub fn request_for(
    job: &Job,
    profile: Profile,
    settings: &ChannelSettings,
    policy: LowConfidencePolicy,
) -> (request: JobRequest)
    ensures
        request.wf(),
        request.input@ == job.input@,
        request.output@ == job.output@,
        request.profile == profile,
        text_of(request.channel_id) == text_of(job.channel_id),
        text_of(request.channel_name) == text_of(job.channel_name),
        text_of(request.title) == text_of(job.title),
        request.logo_rect is None,
        exists|defaults: CutOptions|
            call_ensures(CutOptions::default, (), defaults) && request.cut == (CutOptions {
                low_confidence: policy,
                ..defaults
            }),
        request.detect_commercials == settings.detect_commercials,
        request.learn_logo == settings.detect_commercials,
        !request.refuse_damaged,
        request.manual_ranges is None,
        request.diagnostics is None,
{
    let mut request = JobRequest::new(
        own(job.input.as_str()),
        own(job.output.as_str()),
        profile,
    );
    let ghost defaults = request.cut;
    request.channel_id = copy_option(&job.channel_id);
    request.channel_name = copy_option(&job.channel_name);
    request.title = copy_option(&job.title);
    request.cut.low_confidence = policy;
    if !settings.detect_commercials {
        request.learn_logo = false;
        request.detect_commercials = false;
    }
    assert(request.cut == (CutOptions { low_confidence: policy, ..defaults }));
    request
}

/// An error together with everything underneath it: each cause after the first
/// message, unless what is already there says the same.
pub open spec fn explained(messages: Seq<Seq<char>>) -> Seq<char>
    decreases messages.len(),
{
    if messages.len() == 0 {
        Seq::empty()
    } else if messages.len() == 1 {
        messages[0]
    } else {
        let before = explained(messages.drop_last());
        let cause = messages.last();
        if occurs_in(before, cause) {
            before
        } else {
            before + ": "@ + cause
        }
    }
}

/// Render an error together with everything underneath it.
///
/// An error's own message alone reaches the operator as the words "analysis
/// error", which says nothing at all. Walking the causes is what turns it back
/// into something that can be acted on. Some layers restate their child rather
/// than adding to it; repeating that back makes the line harder to read, not
/// easier.
#[must_use]
pub fn explain(messages: &[String]) -> (message: String)
    ensures
        message@ == explained(texts(messages@)),
{
    let mut message = String::new();
    let ghost all = texts(messages@);
    assert(all.take(0) =~= Seq::empty());
    for i in 0..messages.len()
        invariant
            all == texts(messages@),
            message@ == explained(all.take(i as int)),
    {
        assert(all.take(i + 1).drop_last() =~= all.take(i as int));
        assert(all.take(i + 1).last() == messages@[i as int]@);
        if i == 0 {
            message.append(messages[0].as_str());
            assert(message@ =~= messages@[0]@);
        } else if !contains(&chars_of(message.as_str()), &chars_of(messages[i].as_str())) {
            message.append(": ");
            message.append(messages[i].as_str());
        }
    }
    assert(all.take(all.len() as int) =~= all);
    message
}

/// How a finished job is summed up.
///
/// What was labelled commercial and what was actually removed are different
/// numbers whenever confidence was too low to cut, and saying "removed" for
/// the first is simply wrong.
pub open spec fn summary_of(plan: CutPlan) -> Seq<char> {
    let length = length_of_kind(plan.segments@, SegmentKind::Commercial);
    let seconds = one_place((if length > 0 { length } else { 0 }) as nat);
    if plan.decision == Decision::Cut {
        "done: removed "@ + seconds + "s, confidence "@ + two_places(plan.confidence as int)
    } else {
        "done: kept whole, "@ + seconds + "s marked as commercial in the chapters, confidence "@
            + two_places(plan.confidence as int)
    }
}

/// Sum up a finished job.
#[must_use]
pub fn summarise(plan: &CutPlan) -> (line: String)
    requires
        plan.wf(),
    ensures
        line@ == summary_of(*plan),
{
    let length: i128 = plan.cut_seconds();
    let positive: u128 = if length > 0 { length as u128 } else { 0 };
    let mut line = String::new();
    if plan.decision == Decision::Cut {
        line.append("done: removed ");
        push_one_place(&mut line, positive);
        line.append("s, confidence ");
    } else {
        line.append("done: kept whole, ");
        push_one_place(&mut line, positive);
        line.append("s marked as commercial in the chapters, confidence ");
    }
    push_two_places(&mut line, plan.confidence);
    assert(line@ =~= summary_of(*plan));
    line
}

/// How the work on a job ended.
#[derive(Debug)]
pub enum Ending {
    /// It was done, by this plan.
    Done(CutPlan),
    /// It needs its channel's logo, and says so.
    NeedsLogo(String),
    /// It failed, with the messages of the error and of its causes.
    Failed(Vec<String>),
    /// The work itself stopped short. That is a defect, and the job must not
    /// look successful.
    Stopped(String),
}

/// What to record of a job that ended.
#[derive(Debug)]
pub struct Record {
    /// The status it is left in.
    pub status: JobStatus,
    /// Why it did not complete, where it did not.
    pub error: Option<String>,
    /// How the log line is to be taken.
    pub level: String,
    /// What to log.
    pub line: String,
}

/// What is recorded of a job that ended.
///
/// Waiting for a logo is not a failure and must not be coloured as one:
/// nothing went wrong, and the queue is telling you what it needs.
pub open spec fn is_record_of(record: Record, ending: Ending) -> bool {
    match ending {
        Ending::Done(plan) => {
            &&& record.status == JobStatus::Completed
            &&& record.error is None
            &&& record.level@ == "info"@
            &&& record.line@ == summary_of(plan)
        },
        Ending::NeedsLogo(message) => {
            &&& record.status == JobStatus::Blocked
            &&& text_of(record.error) == Some(message@)
            &&& record.level@ == "warn"@
            &&& record.line@ == message@
        },
        Ending::Failed(messages) => {
            &&& record.status == JobStatus::Failed
            &&& text_of(record.error) == Some(explained(texts(messages@)))
            &&& record.level@ == "error"@
            &&& record.line@ == explained(texts(messages@))
        },
        Ending::Stopped(error) => {
            &&& record.status == JobStatus::Failed
            &&& text_of(record.error) == Some("worker stopped: "@ + error@)
            &&& record.level@ == "error"@
            &&& record.line@ == "worker stopped: "@ + error@
        },
    }
}

/// What to record of a job that ended, given whether it was cancelled while it
/// ran. A cancellation is honoured even if the work was finished, because the
/// output is not what the operator asked for: nothing is recorded over it.
#[must_use]
pub fn conclude(cancelled: bool, ending: &Ending) -> (record: Option<Record>)
    requires
        ending matches Ending::Done(plan) ==> plan.wf(),
    ensures
        match record {
            Some(record) => !cancelled && is_record_of(record, *ending),
            None => cancelled,
        },
{
    if cancelled {
        None
    } else {
        Some(record(ending))
    }
}

/// What to record of a job that ended.
#[must_use]
pub fn record(ending: &Ending) -> (record: Record)
    requires
        ending matches Ending::Done(plan) ==> plan.wf(),
    ensures
        is_record_of(record, *ending),
{
    match ending {
        Ending::Done(plan) => Record {
            status: JobStatus::Completed,
            error: None,
            level: own("info"),
            line: summarise(plan),
        },
        Ending::NeedsLogo(message) => Record {
            status: JobStatus::Blocked,
            error: Some(own(message.as_str())),
            level: own("warn"),
            line: own(message.as_str()),
        },
        Ending::Failed(messages) => {
            let line = explain(messages);
            Record {
                status: JobStatus::Failed,
                error: Some(own(line.as_str())),
                level: own("error"),
                line,
            }
        },
        Ending::Stopped(error) => {
            let mut line = own("worker stopped: ");
            line.append(error.as_str());
            Record {
                status: JobStatus::Failed,
                error: Some(own(line.as_str())),
                level: own("error"),
                line,
            }
        },
    }
}

/// A rule has the last word on what it speaks of, and leaves the rest to the
/// channel.
pub proof fn rules_have_the_last_word(
    channel: ChannelSettings,
    rule: Rule,
    settings: ChannelSettings,
    job: Job,
)
    requires
        is_overridden(channel, Some(rule), settings),
    ensures
        rule.profile is Some ==> wanted_profile(settings, job) == rule.profile->Some_0@,
        rule.profile is None ==> wanted_profile(settings, job) == wanted_profile(channel, job),
        rule.detect_commercials is Some ==> settings.detect_commercials
            == rule.detect_commercials->Some_0,
        rule.detect_commercials is None ==> settings.detect_commercials
            == channel.detect_commercials,
{
}

} // verus!
