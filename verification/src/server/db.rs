//! The job store.
//!
//! What jobs there are, where each has got to, and which runs next. Every
//! change is one step on the whole table, so two workers racing for the last
//! queued job cannot both win.

use vstd::prelude::*;
use vstd::string::*;
use crate::cmcut::plan::KeepRange;
use crate::order::is_stable_order;
use crate::order::ranking;
use crate::order::stable_order;
use crate::text::own;
use crate::text::same_text;
use crate::text::text_of;

verus! {

/// Where a job has got to.
#[derive(Debug, Clone, Copy, PartialEq, Eq, Structural)]
pub enum JobStatus {
    /// Waiting for a worker.
    Queued,
    /// Being analysed or encoded.
    Running,
    /// Waiting for its channel's logo to be taught.
    Blocked,
    /// Finished successfully.
    Completed,
    /// Finished unsuccessfully.
    Failed,
    /// Stopped on request.
    Cancelled,
}

impl JobStatus {
    /// The string stored in the database.
    pub open spec fn stored(self) -> Seq<char> {
        match self {
            JobStatus::Queued => "queued"@,
            JobStatus::Running => "running"@,
            JobStatus::Blocked => "blocked"@,
            JobStatus::Completed => "completed"@,
            JobStatus::Failed => "failed"@,
            JobStatus::Cancelled => "cancelled"@,
        }
    }

    /// The string stored in the database.
    #[must_use]
    pub fn as_str(self) -> (stored: &'static str)
        ensures
            stored@ == self.stored(),
    {
        match self {
            JobStatus::Queued => "queued",
            JobStatus::Running => "running",
            JobStatus::Blocked => "blocked",
            JobStatus::Completed => "completed",
            JobStatus::Failed => "failed",
            JobStatus::Cancelled => "cancelled",
        }
    }

    /// What a stored form means; `Failed` for anything unknown.
    pub open spec fn meant_by(value: Seq<char>) -> JobStatus {
        if value == "queued"@ {
            JobStatus::Queued
        } else if value == "running"@ {
            JobStatus::Running
        } else if value == "blocked"@ {
            JobStatus::Blocked
        } else if value == "completed"@ {
            JobStatus::Completed
        } else if value == "cancelled"@ {
            JobStatus::Cancelled
        } else {
            JobStatus::Failed
        }
    }

    /// Parse the stored form, defaulting to `Failed` for anything unknown.
    ///
    /// An unrecognised status means the row was written by another version;
    /// treating it as failed keeps it out of the queue rather than having a
    /// worker pick up something it cannot interpret. Infallible by design,
    /// which is why this is not `FromStr`.
    #[must_use]
    pub fn parse(value: &str) -> (status: JobStatus)
        ensures
            status == JobStatus::meant_by(value@),
    {
        if same_text(value, "queued") {
            JobStatus::Queued
        } else if same_text(value, "running") {
            JobStatus::Running
        } else if same_text(value, "blocked") {
            JobStatus::Blocked
        } else if same_text(value, "completed") {
            JobStatus::Completed
        } else if same_text(value, "cancelled") {
            JobStatus::Cancelled
        } else {
            JobStatus::Failed
        }
    }

    /// The job has stopped, one way or another.
    pub open spec fn stopped(self) -> bool {
        self == JobStatus::Completed || self == JobStatus::Failed || self == JobStatus::Cancelled
    }

    /// Whether the job has stopped, one way or another.
    #[must_use]
    pub fn is_finished(self) -> (yes: bool)
        ensures
            yes == self.stopped(),
    {
        match self {
            JobStatus::Completed | JobStatus::Failed | JobStatus::Cancelled => true,
            _ => false,
        }
    }
}

/// A status survives being stored.
pub proof fn statuses_survive_storage(status: JobStatus)
    ensures
        JobStatus::meant_by(status.stored()) == status,
{
    reveal_strlit("queued");
    reveal_strlit("running");
    reveal_strlit("blocked");
    reveal_strlit("completed");
    reveal_strlit("failed");
    reveal_strlit("cancelled");
    assert("queued"@[0] == 'q');
    assert("running"@[0] == 'r');
    assert("blocked"@[0] == 'b');
    assert("completed"@[1] == 'o');
    assert("cancelled"@[1] == 'a');
    assert("completed"@[0] == 'c');
    assert("cancelled"@[0] == 'c');
    assert("failed"@[0] == 'f');
}

/// One job, as the API presents it.
#[derive(Debug, Clone, PartialEq, Eq)]
pub struct Job {
    /// Identifier, assigned on submission.
    pub id: String,
    /// Source recording.
    pub input: String,
    /// Where the result goes.
    pub output: String,
    /// Encoding profile name.
    pub profile: String,
    /// Programme title, when known.
    pub title: Option<String>,
    /// Channel id, when known.
    pub channel_id: Option<String>,
    /// Channel name, when known.
    pub channel_name: Option<String>,
    /// Where the job has got to.
    pub status: JobStatus,
    /// Higher runs first.
    pub priority: i64,
    /// Completion, in millionths.
    pub progress: i64,
    /// What is happening right now.
    pub message: String,
    /// Why it failed, if it did.
    pub error: Option<String>,
    /// When it was submitted, in microseconds since the epoch.
    pub created_at: i64,
    /// When a worker picked it up.
    pub started_at: Option<i64>,
    /// When it stopped.
    pub finished_at: Option<i64>,
}

/// A request to queue a job.
#[derive(Debug, Clone, PartialEq, Eq)]
pub struct NewJob {
    /// Source recording.
    pub input: String,
    /// Where the result goes.
    pub output: String,
    /// Encoding profile name.
    pub profile: String,
    /// Programme title.
    pub title: Option<String>,
    /// Channel id, which keys the logo store.
    pub channel_id: Option<String>,
    /// Channel name.
    pub channel_name: Option<String>,
    /// Higher runs first.
    pub priority: i64,
}

/// One logged line from a job.
#[derive(Debug, Clone, PartialEq, Eq)]
pub struct JobEvent {
    /// Monotonic id, for resuming a log tail.
    pub id: i64,
    /// When it happened, in microseconds since the epoch.
    pub at: i64,
    /// `info`, `warn` or `error`.
    pub level: String,
    /// The line itself.
    pub message: String,
}

/// What a finished job left behind, each as the JSON it was stored as.
///
/// Held as text rather than parsed because the server only forwards these to
/// the browser; parsing them here would cost a round trip and risk rejecting a
/// document an older version wrote.
#[derive(Debug, Clone, PartialEq, Eq)]
pub struct Artifacts {
    /// What analysis found.
    pub analysis: Option<String>,
    /// What was decided.
    pub plan: Option<String>,
    /// What the recording contained and what was wrong with it.
    pub diagnostics: Option<String>,
}

impl Default for Artifacts {
    fn default() -> (artifacts: Artifacts)
        ensures
            artifacts == (Artifacts { analysis: None, plan: None, diagnostics: None }),
    {
        Artifacts { analysis: None, plan: None, diagnostics: None }
    }
}

/// A time written as RFC 3339, in microseconds since the epoch.
pub uninterp spec fn rfc3339_micros(text: Seq<char>) -> Option<i64>;

/// `chrono::DateTime::parse_from_rfc3339` and `timestamp_micros`. Claimed: what
/// a text means is a function of the text alone.
#[verifier::external_body]
fn read_rfc3339(text: &str) -> (micros: Option<i64>)
    ensures
        micros == rfc3339_micros(text@),
{
    chrono::DateTime::parse_from_rfc3339(text).ok().map(|time| time.timestamp_micros())
}

/// `uuid::Uuid::new_v4` and its text form. Claimed: the text is of the length
/// of a hyphenated UUID. Which one it is, chance decides.
#[verifier::external_body]
fn random_id() -> (id: String)
    ensures
        id@.len() == 36,
{
    uuid::Uuid::new_v4().to_string()
}

/// Parse an RFC 3339 timestamp from the database.
#[must_use]
pub fn parse_time(value: Option<&str>) -> (time: Option<i64>)
    ensures
        time == (match value {
            Some(text) => rfc3339_micros(text@),
            None => None,
        }),
{
    match value {
        Some(text) => read_rfc3339(text),
        None => None,
    }
}

/// A text that says something: an empty one is as good as none.
pub open spec fn said(text: Option<Seq<char>>) -> Option<Seq<char>> {
    match text {
        Some(text) => if text.len() > 0 {
            Some(text)
        } else {
            None
        },
        None => None,
    }
}

/// A text as it is kept: an empty one is kept as none.
pub open spec fn spoken(value: Option<String>) -> Option<String> {
    match value {
        Some(text) => if text@.len() > 0 {
            Some(text)
        } else {
            None
        },
        None => None,
    }
}

/// Read a nullable text column, treating an empty string as absent.
///
/// The two are the same thing to every caller (an unknown title is an unknown
/// title) and collapsing them here means the API never has to present both.
#[must_use]
pub fn optional(value: Option<String>) -> (text: Option<String>)
    ensures
        text == spoken(value),
{
    match value {
        Some(text) => if text.as_str().unicode_len() > 0 {
            Some(text)
        } else {
            None
        },
        None => None,
    }
}

/// A row as it is stored, each column absent where it could not be read.
#[derive(Debug)]
pub struct Row {
    /// Identifier.
    pub id: Option<String>,
    /// Source recording.
    pub input: Option<String>,
    /// Where the result goes.
    pub output: Option<String>,
    /// Encoding profile name.
    pub profile: Option<String>,
    /// Programme title.
    pub title: Option<String>,
    /// Channel id.
    pub channel_id: Option<String>,
    /// Channel name.
    pub channel_name: Option<String>,
    /// Where the job had got to.
    pub status: Option<String>,
    /// Priority.
    pub priority: Option<i64>,
    /// Completion, in millionths.
    pub progress: Option<i64>,
    /// What was happening.
    pub message: Option<String>,
    /// Why it failed.
    pub error: Option<String>,
    /// When it was submitted.
    pub created_at: Option<String>,
    /// When a worker picked it up.
    pub started_at: Option<String>,
    /// When it stopped.
    pub finished_at: Option<String>,
}

fn text_or_empty(value: Option<String>) -> (text: String)
    ensures
        value is Some ==> text == value->Some_0,
        value is None ==> text@ == ""@,
{
    match value {
        Some(text) => text,
        None => own(""),
    }
}

fn time_in(value: &Option<String>) -> (time: Option<i64>)
    ensures
        time == (match text_of(*value) {
            Some(text) => rfc3339_micros(text),
            None => None,
        }),
{
    match value {
        Some(text) => parse_time(Some(text.as_str())),
        None => parse_time(None),
    }
}

/// What a column holds, or nothing.
pub open spec fn column(value: Option<String>) -> Seq<char> {
    match value {
        Some(text) => text@,
        None => ""@,
    }
}

/// Build a job from a row, defaulting anything unreadable.
///
/// A row written by a future version must not take the whole listing down, so
/// individual columns fall back rather than propagating an error.
#[must_use]
pub fn row_to_job(row: Row, now: i64) -> (job: Job)
    ensures
        job.id@ == column(row.id),
        job.input@ == column(row.input),
        job.output@ == column(row.output),
        job.profile@ == column(row.profile),
        text_of(job.title) == said(text_of(row.title)),
        text_of(job.channel_id) == said(text_of(row.channel_id)),
        text_of(job.channel_name) == said(text_of(row.channel_name)),
        job.status == JobStatus::meant_by(column(row.status)),
        job.priority == (match row.priority {
            Some(priority) => priority,
            None => 0,
        }),
        job.progress == (match row.progress {
            Some(progress) => progress,
            None => 0,
        }),
        job.message@ == column(row.message),
        text_of(job.error) == said(text_of(row.error)),
        job.created_at == (match row.created_at {
            Some(text) => match rfc3339_micros(text@) {
                Some(time) => time,
                None => now,
            },
            None => now,
        }),
        job.started_at == (match row.started_at {
            Some(text) => rfc3339_micros(text@),
            None => None,
        }),
        job.finished_at == (match row.finished_at {
            Some(text) => rfc3339_micros(text@),
            None => None,
        }),
{
    let status = text_or_empty(row.status);
    let created_at: i64 = match time_in(&row.created_at) {
        Some(time) => time,
        None => now,
    };
    Job {
        id: text_or_empty(row.id),
        input: text_or_empty(row.input),
        output: text_or_empty(row.output),
        profile: text_or_empty(row.profile),
        title: optional(row.title),
        channel_id: optional(row.channel_id),
        channel_name: optional(row.channel_name),
        status: JobStatus::parse(status.as_str()),
        priority: match row.priority {
            Some(priority) => priority,
            None => 0,
        },
        progress: match row.progress {
            Some(progress) => progress,
            None => 0,
        },
        message: text_or_empty(row.message),
        error: optional(row.error),
        created_at,
        started_at: time_in(&row.started_at),
        finished_at: time_in(&row.finished_at),
    }
}

/// A job and what it left behind.
#[derive(Debug)]
pub struct Entry {
    /// The job.
    pub job: Job,
    /// Cuts chosen by hand, where somebody chose them.
    pub ranges: Option<Vec<KeepRange>>,
    /// What it left behind.
    pub artifacts: Artifacts,
}

/// A line of some job's log.
#[derive(Debug)]
pub struct LoggedLine {
    /// Which job logged it.
    pub job_id: String,
    /// The line.
    pub event: JobEvent,
}

/// The jobs and their logs.
#[derive(Debug)]
pub struct Store {
    entries: Vec<Entry>,
    lines: Vec<LoggedLine>,
}

/// No two jobs have the same id.
pub open spec fn ids_differ(entries: Seq<Entry>) -> bool {
    forall|i: int, j: int|
        0 <= i < j < entries.len() ==> (#[trigger] entries[i]).job.id@ != (
        #[trigger] entries[j]).job.id@
}

/// A job none of whose optional texts is empty.
pub open spec fn says_or_is_silent(job: Job) -> bool {
    &&& spoken(job.title) == job.title
    &&& spoken(job.channel_id) == job.channel_id
    &&& spoken(job.channel_name) == job.channel_name
    &&& spoken(job.error) == job.error
}

/// No job has an empty text where none is meant.
pub open spec fn no_empty_texts(entries: Seq<Entry>) -> bool {
    forall|i: int| 0 <= i < entries.len() ==> says_or_is_silent((#[trigger] entries[i]).job)
}

/// Log lines are numbered from one, in the order they were logged.
pub open spec fn lines_numbered(lines: Seq<LoggedLine>) -> bool {
    forall|i: int| 0 <= i < lines.len() ==> (#[trigger] lines[i]).event.id == i + 1
}

/// A job as it is queued. A title, channel id or channel name that says nothing
/// is kept as none.
pub open spec fn is_queued_as(entry: Entry, id: String, request: NewJob, now: i64) -> bool {
    &&& entry.job.id == id
    &&& entry.job.input == request.input
    &&& entry.job.output == request.output
    &&& entry.job.profile == request.profile
    &&& entry.job.title == spoken(request.title)
    &&& entry.job.channel_id == spoken(request.channel_id)
    &&& entry.job.channel_name == spoken(request.channel_name)
    &&& entry.job.status == JobStatus::Queued
    &&& entry.job.priority == request.priority
    &&& entry.job.progress == 0
    &&& entry.job.message@ == ""@
    &&& entry.job.error is None
    &&& entry.job.created_at == now
    &&& entry.job.started_at is None
    &&& entry.job.finished_at is None
    &&& entry.artifacts == (Artifacts { analysis: None, plan: None, diagnostics: None })
}

/// A job that runs ahead of another: of higher priority, or no later.
pub open spec fn runs_ahead(a: Job, b: Job) -> bool {
    a.priority > b.priority || (a.priority == b.priority && a.created_at <= b.created_at)
}

/// The next job to run: the first submitted of those of the highest priority
/// that wait.
pub open spec fn is_next(entries: Seq<Entry>, at: int) -> bool {
    &&& 0 <= at < entries.len()
    &&& entries[at].job.status == JobStatus::Queued
    &&& forall|k: int|
        0 <= k < entries.len() && (#[trigger] entries[k]).job.status == JobStatus::Queued
            ==> runs_ahead(entries[at].job, entries[k].job)
    &&& forall|k: int|
        0 <= k < at && (#[trigger] entries[k]).job.status == JobStatus::Queued ==> !runs_ahead(
            entries[k].job,
            entries[at].job,
        )
}

/// The jobs once a worker has claimed one of them.
pub open spec fn claimed_at(entries: Seq<Entry>, at: int, now: i64) -> Seq<Entry> {
    entries.update(
        at,
        Entry {
            job: Job {
                status: JobStatus::Running,
                started_at: Some(now),
                ..entries[at].job
            },
            ..entries[at]
        },
    )
}

/// The jobs once one of them has been put back in the queue.
pub open spec fn released(entries: Seq<Entry>, at: int) -> Seq<Entry> {
    entries.update(
        at,
        Entry {
            job: Job { status: JobStatus::Queued, started_at: None, ..entries[at].job },
            ..entries[at]
        },
    )
}

/// What jobs are listed by: the most recent first.
pub open spec fn recency(entries: Seq<Entry>) -> Seq<i128> {
    entries.map_values(|entry: Entry| (-(entry.job.created_at as int)) as i128)
}

/// How many jobs a listing is kept to.
pub open spec fn listing_limit(limit: i64) -> int {
    if limit < 1 {
        1
    } else if limit > 500 {
        500
    } else {
        limit as int
    }
}

/// The lines of one job's log after a place.
pub open spec fn log_after(lines: Seq<LoggedLine>, id: Seq<char>, after: i64) -> Seq<JobEvent>
    decreases lines.len(),
{
    if lines.len() == 0 {
        Seq::empty()
    } else {
        let rest = log_after(lines.drop_last(), id, after);
        let last = lines.last();
        if last.job_id@ == id && last.event.id > after && rest.len() < 1_000 {
            rest.push(last.event)
        } else {
            rest
        }
    }
}

/// A job put back in the queue after a restart.
pub open spec fn is_requeued(before: Entry, after: Entry) -> bool {
    &&& after == (Entry {
        job: Job {
            status: JobStatus::Queued,
            started_at: None,
            progress: 0,
            message: after.job.message,
            ..before.job
        },
        ..before
    })
    &&& after.job.message@ == "requeued after restart"@
}

/// How many jobs are running.
pub open spec fn running_count(entries: Seq<Entry>) -> nat
    decreases entries.len(),
{
    if entries.len() == 0 {
        0
    } else {
        running_count(entries.drop_last()) + if entries.last().job.status == JobStatus::Running {
            1nat
        } else {
            0
        }
    }
}

impl Store {
    /// The jobs, in the order they were submitted.
    pub closed spec fn entries(self) -> Seq<Entry> {
        self.entries@
    }

    /// Everything that was logged, in order.
    pub closed spec fn lines(self) -> Seq<LoggedLine> {
        self.lines@
    }

    /// No two jobs have the same id, none has an empty text where none is
    /// meant, and the log is in order.
    pub open spec fn wf(self) -> bool {
        &&& ids_differ(self.entries())
        &&& no_empty_texts(self.entries())
        &&& lines_numbered(self.lines())
    }

    /// There is a job with this id.
    pub open spec fn knows(self, id: Seq<char>) -> bool {
        exists|i: int| 0 <= i < self.entries().len() && (#[trigger] self.entries()[i]).job.id@ == id
    }

    /// There is a job whose id is as long as the ids that are made for jobs, and
    /// so might be made again.
    pub open spec fn has_long_id(self) -> bool {
        exists|i: int|
            0 <= i < self.entries().len() && (#[trigger] self.entries()[i]).job.id@.len() == 36
    }

    /// Where the job with this id is.
    pub open spec fn place_of(self, id: Seq<char>) -> int {
        choose|i: int| 0 <= i < self.entries().len() && (#[trigger] self.entries()[i]).job.id@ == id
    }

    /// A store with nothing in it.
    #[must_use]
    pub fn new() -> (store: Store)
        ensures
            store.wf(),
            store.entries() == Seq::<Entry>::empty(),
            store.lines() == Seq::<LoggedLine>::empty(),
    {
        Store { entries: Vec::new(), lines: Vec::new() }
    }

    fn find(&self, id: &str) -> (place: Option<usize>)
        requires
            self.wf(),
        ensures
            match place {
                Some(i) => self.knows(id@) && i == self.place_of(id@) && i < self.entries().len()
                    && self.entries()[i as int].job.id@ == id@,
                None => !self.knows(id@),
            },
    {
        for i in 0..self.entries.len()
            invariant
                self.wf(),
                forall|k: int| 0 <= k < i ==> (#[trigger] self.entries()[k]).job.id@ != id@,
        {
            if same_text(self.entries[i].job.id.as_str(), id) {
                proof {
                    assert(self.entries()[i as int].job.id@ == id@);
                    let other = self.place_of(id@);
                    if other < i {
                        assert(self.entries()[other].job.id@ != self.entries()[i as int].job.id@);
                    } else if i < other {
                        assert(self.entries()[i as int].job.id@ != self.entries()[other].job.id@);
                    }
                }
                return Some(i);
            }
        }
        None
    }

    /// Record progress against a job, which is kept between nothing and all.
    pub fn set_progress(&mut self, id: &str, progress: i64, message: String)
        requires
            old(self).wf(),
        ensures
            final(self).wf(),
            final(self).lines() == old(self).lines(),
            final(self).entries() == (if old(self).knows(id@) {
                let at = old(self).place_of(id@);
                let before = old(self).entries()[at];
                old(self).entries().update(
                    at,
                    Entry {
                        job: Job {
                            progress: if progress < 0 {
                                0
                            } else if progress > 1_000_000 {
                                1_000_000
                            } else {
                                progress
                            },
                            message,
                            ..before.job
                        },
                        ..before
                    },
                )
            } else {
                old(self).entries()
            }),
            old(self).knows(id@) ==> {
                let after = final(self).entries()[old(self).place_of(id@)].job;
                &&& 0 <= after.progress <= 1_000_000
                &&& 0 <= progress <= 1_000_000 ==> after.progress == progress
                &&& after.message@ == message@
                &&& after.id@ == id@
            },
    {
        if let Some(at) = self.find(id) {
            self.entries[at].job.progress = if progress < 0 {
                0
            } else if progress > 1_000_000 {
                1_000_000
            } else {
                progress
            };
            self.entries[at].job.message = message;
            assert(self.entries() =~= old(self).entries().update(
                at as int,
                self.entries()[at as int],
            ));
        }
    }

    /// The job with this id, changed; everything else as it was.
    pub open spec fn with(self, id: Seq<char>, entry: Entry) -> Seq<Entry> {
        self.entries().update(self.place_of(id), entry)
    }

    /// Queue a job under an id, unless the id is taken.
    pub fn enqueue(
        &mut self,
        id: String,
        request: NewJob,
        ranges: Option<Vec<KeepRange>>,
        now: i64,
    ) -> (queued: bool)
        requires
            old(self).wf(),
        ensures
            final(self).wf(),
            final(self).lines() == old(self).lines(),
            queued == !old(self).knows(id@),
            !queued ==> final(self).entries() == old(self).entries(),
            queued ==> {
                &&& final(self).entries().len() == old(self).entries().len() + 1
                &&& final(self).entries().drop_last() == old(self).entries()
                &&& is_queued_as(final(self).entries().last(), id, request, now)
                &&& final(self).entries().last().ranges == ranges
            },
    {
        if self.find(id.as_str()).is_some() {
            return false;
        }
        let job = Job {
            id,
            input: request.input,
            output: request.output,
            profile: request.profile,
            title: optional(request.title),
            channel_id: optional(request.channel_id),
            channel_name: optional(request.channel_name),
            status: JobStatus::Queued,
            priority: request.priority,
            progress: 0,
            message: own(""),
            error: None,
            created_at: now,
            started_at: None,
            finished_at: None,
        };
        self.entries.push(Entry { job, ranges, artifacts: Artifacts::default() });
        proof {
            assert(self.entries().drop_last() =~= old(self).entries());
            assert forall|i: int, j: int| 0 <= i < j < self.entries().len() implies (
            #[trigger] self.entries()[i]).job.id@ != (#[trigger] self.entries()[j]).job.id@ by {
                if j < old(self).entries().len() {
                    assert(old(self).entries()[i].job.id@ != old(self).entries()[j].job.id@);
                } else {
                    assert(old(self).entries()[i] == self.entries()[i]);
                }
            }
        }
        true
    }

    /// Queue a job under an id made for it, returning the id.
    ///
    /// Nothing is queued should chance give an id that is taken.
    pub fn submit(&mut self, request: NewJob, now: i64) -> (id: Option<String>)
        requires
            old(self).wf(),
        ensures
            final(self).wf(),
            final(self).lines() == old(self).lines(),
            match id {
                Some(id) => {
                    &&& !old(self).knows(id@)
                    &&& final(self).entries().len() == old(self).entries().len() + 1
                    &&& final(self).entries().drop_last() == old(self).entries()
                    &&& final(self).entries().last().job.id@ == id@
                    &&& is_queued_as(
                        final(self).entries().last(),
                        final(self).entries().last().job.id,
                        request,
                        now,
                    )
                    &&& final(self).entries().last().ranges is None
                },
                None => final(self).entries() == old(self).entries() && old(self).has_long_id(),
            },
    {
        let id = random_id();
        let copy = own(id.as_str());
        proof {
            if self.knows(id@) {
                assert(self.entries()[self.place_of(id@)].job.id@.len() == 36);
            }
        }
        if self.enqueue(id, request, None, now) {
            Some(copy)
        } else {
            None
        }
    }

    /// Queue a job with cuts chosen by hand, returning its id.
    pub fn submit_with_ranges(
        &mut self,
        request: NewJob,
        ranges: Vec<KeepRange>,
        now: i64,
    ) -> (id: Option<String>)
        requires
            old(self).wf(),
        ensures
            final(self).wf(),
            final(self).lines() == old(self).lines(),
            match id {
                Some(id) => {
                    &&& !old(self).knows(id@)
                    &&& final(self).entries().len() == old(self).entries().len() + 1
                    &&& final(self).entries().drop_last() == old(self).entries()
                    &&& final(self).entries().last().job.id@ == id@
                    &&& is_queued_as(
                        final(self).entries().last(),
                        final(self).entries().last().job.id,
                        request,
                        now,
                    )
                    &&& final(self).entries().last().ranges == Some(ranges)
                },
                None => final(self).entries() == old(self).entries() && old(self).has_long_id(),
            },
    {
        let id = random_id();
        let copy = own(id.as_str());
        proof {
            if self.knows(id@) {
                assert(self.entries()[self.place_of(id@)].job.id@.len() == 36);
            }
        }
        if self.enqueue(id, request, Some(ranges), now) {
            Some(copy)
        } else {
            None
        }
    }

    /// Put back a job that was stored earlier, unless its id is taken. Its
    /// empty texts are taken as none.
    pub fn restore(&mut self, entry: Entry) -> (restored: bool)
        requires
            old(self).wf(),
        ensures
            final(self).wf(),
            final(self).lines() == old(self).lines(),
            restored == !old(self).knows(entry.job.id@),
            final(self).entries() == (if restored {
                old(self).entries().push(
                    Entry {
                        job: Job {
                            title: spoken(entry.job.title),
                            channel_id: spoken(entry.job.channel_id),
                            channel_name: spoken(entry.job.channel_name),
                            error: spoken(entry.job.error),
                            ..entry.job
                        },
                        ..entry
                    },
                )
            } else {
                old(self).entries()
            }),
    {
        if self.find(entry.job.id.as_str()).is_some() {
            return false;
        }
        let mut entry = entry;
        entry.job.title = optional(entry.job.title);
        entry.job.channel_id = optional(entry.job.channel_id);
        entry.job.channel_name = optional(entry.job.channel_name);
        entry.job.error = optional(entry.job.error);
        self.entries.push(entry);
        proof {
            assert forall|i: int, j: int| 0 <= i < j < self.entries().len() implies (
            #[trigger] self.entries()[i]).job.id@ != (#[trigger] self.entries()[j]).job.id@ by {
                if j < old(self).entries().len() {
                    assert(old(self).entries()[i].job.id@ != old(self).entries()[j].job.id@);
                } else {
                    assert(old(self).entries()[i] == self.entries()[i]);
                }
            }
        }
        true
    }

    /// Claim the next job for a worker, marking it running; none when nothing
    /// waits.
    pub fn claim_next(&mut self, now: i64) -> (claimed: Option<usize>)
        requires
            old(self).wf(),
        ensures
            final(self).wf(),
            final(self).lines() == old(self).lines(),
            match claimed {
                Some(at) => {
                    &&& is_next(old(self).entries(), at as int)
                    &&& final(self).entries() == claimed_at(old(self).entries(), at as int, now)
                },
                None => {
                    &&& final(self).entries() == old(self).entries()
                    &&& forall|k: int|
                        0 <= k < old(self).entries().len() ==> (
                        #[trigger] old(self).entries()[k]).job.status != JobStatus::Queued
                },
            },
    {
        let mut best: Option<usize> = None;
        for i in 0..self.entries.len()
            invariant
                *self == *old(self),
                match best {
                    Some(at) => at < i && is_next(self.entries().take(i as int), at as int),
                    None => forall|k: int|
                        0 <= k < i ==> (#[trigger] self.entries()[k]).job.status
                            != JobStatus::Queued,
                },
        {
            let ghost seen = self.entries().take(i as int);
            let ghost next = self.entries().take(i + 1);
            assert(next.drop_last() =~= seen);
            assert forall|k: int| 0 <= k < i implies #[trigger] next[k] == seen[k] by {}
            if self.entries[i].job.status == JobStatus::Queued {
                match best {
                    Some(at) => {
                        let a = &self.entries[at].job;
                        let b = &self.entries[i].job;
                        let stays = a.priority > b.priority || (a.priority == b.priority
                            && a.created_at <= b.created_at);
                        if !stays {
                            proof {
                                assert forall|k: int|
                                    0 <= k < next.len() && (#[trigger] next[k]).job.status
                                        == JobStatus::Queued implies runs_ahead(
                                    next[i as int].job,
                                    next[k].job,
                                ) by {
                                    if k < i {
                                        assert(runs_ahead(seen[at as int].job, seen[k].job));
                                    }
                                }
                                assert forall|k: int|
                                    0 <= k < i && (#[trigger] next[k]).job.status
                                        == JobStatus::Queued implies !runs_ahead(
                                    next[k].job,
                                    next[i as int].job,
                                ) by {
                                    assert(runs_ahead(seen[at as int].job, seen[k].job));
                                }
                            }
                            best = Some(i);
                        } else {
                            assert forall|k: int|
                                0 <= k < next.len() && (#[trigger] next[k]).job.status
                                    == JobStatus::Queued implies runs_ahead(
                                next[at as int].job,
                                next[k].job,
                            ) by {
                                if k < i {
                                    assert(runs_ahead(seen[at as int].job, seen[k].job));
                                }
                            }
                            assert forall|k: int|
                                0 <= k < at && (#[trigger] next[k]).job.status
                                    == JobStatus::Queued implies !runs_ahead(
                                next[k].job,
                                next[at as int].job,
                            ) by {
                                assert(seen[k].job.status == JobStatus::Queued);
                            }
                        }
                    },
                    None => {
                        assert forall|k: int|
                            0 <= k < i implies (#[trigger] next[k]).job.status
                                != JobStatus::Queued by {
                            assert(self.entries()[k].job.status != JobStatus::Queued);
                        }
                        best = Some(i);
                    },
                }
            } else if let Some(at) = best {
                assert forall|k: int|
                    0 <= k < next.len() && (#[trigger] next[k]).job.status
                        == JobStatus::Queued implies runs_ahead(
                    next[at as int].job,
                    next[k].job,
                ) by {
                    assert(k < i);
                    assert(runs_ahead(seen[at as int].job, seen[k].job));
                }
                assert forall|k: int|
                    0 <= k < at && (#[trigger] next[k]).job.status
                        == JobStatus::Queued implies !runs_ahead(
                    next[k].job,
                    next[at as int].job,
                ) by {
                    assert(seen[k].job.status == JobStatus::Queued);
                }
            }
        }
        assert(self.entries().take(self.entries().len() as int) =~= self.entries());
        if let Some(at) = best {
            self.entries[at].job.status = JobStatus::Running;
            self.entries[at].job.started_at = Some(now);
            assert(self.entries() =~= old(self).entries().update(
                at as int,
                self.entries()[at as int],
            ));
        }
        best
    }

    /// Put a job that was claimed back in the queue, for when the claim could
    /// not be kept.
    pub fn release(&mut self, at: usize)
        requires
            old(self).wf(),
            at < old(self).entries().len(),
        ensures
            final(self).wf(),
            final(self).lines() == old(self).lines(),
            final(self).entries() == released(old(self).entries(), at as int),
    {
        self.entries[at].job.status = JobStatus::Queued;
        self.entries[at].job.started_at = None;
        assert(self.entries() =~= released(old(self).entries(), at as int));
        proof {
            assert forall|i: int, j: int| 0 <= i < j < self.entries().len() implies (
            #[trigger] self.entries()[i]).job.id@ != (#[trigger] self.entries()[j]).job.id@ by {
                assert(old(self).entries()[i].job.id@ != old(self).entries()[j].job.id@);
            }
        }
    }

    /// The entry at a place.
    #[must_use]
    pub fn entry(&self, at: usize) -> (entry: &Entry)
        requires
            at < self.entries().len(),
        ensures
            *entry == self.entries()[at as int],
    {
        &self.entries[at]
    }

    /// How many jobs there are.
    #[must_use]
    pub fn len(&self) -> (count: usize)
        ensures
            count == self.entries().len(),
    {
        self.entries.len()
    }

    /// Fetch one job.
    #[must_use]
    pub fn get(&self, id: &str) -> (job: Option<&Job>)
        requires
            self.wf(),
        ensures
            match job {
                Some(job) => self.knows(id@) && *job == self.entries()[self.place_of(id@)].job,
                None => !self.knows(id@),
            },
    {
        match self.find(id) {
            Some(at) => Some(&self.entries[at].job),
            None => None,
        }
    }

    /// Everything a job produced besides the file itself, as raw JSON.
    #[must_use]
    pub fn artifacts(&self, id: &str) -> (artifacts: Option<&Artifacts>)
        requires
            self.wf(),
        ensures
            match artifacts {
                Some(artifacts) => self.knows(id@) && *artifacts == self.entries()[self.place_of(
                    id@,
                )].artifacts,
                None => !self.knows(id@),
            },
    {
        match self.find(id) {
            Some(at) => Some(&self.entries[at].artifacts),
            None => None,
        }
    }

    /// List jobs, most recent first, as places in the store.
    #[must_use]
    pub fn list(&self, limit: i64) -> (places: Vec<usize>)
        ensures
            is_stable_order(recency(self.entries()), ranking(recency(self.entries()))),
            places@ == ranking(recency(self.entries())).take(
                if listing_limit(limit) < self.entries().len() {
                    listing_limit(limit)
                } else {
                    self.entries().len() as int
                },
            ),
    {
        let mut keys: Vec<i128> = Vec::new();
        for i in 0..self.entries.len()
            invariant
                keys@ =~= recency(self.entries()).take(i as int),
        {
            keys.push(-(self.entries[i].job.created_at as i128));
        }
        assert(keys@ =~= recency(self.entries()));
        let order = stable_order(&keys);
        let most: usize = if limit < 1 {
            1
        } else if limit > 500 {
            500
        } else {
            limit as usize
        };
        let count: usize = if most < order.len() { most } else { order.len() };
        let mut places: Vec<usize> = Vec::new();
        for i in 0..count
            invariant
                count <= order@.len(),
                places@ =~= order@.take(i as int),
        {
            places.push(order[i]);
        }
        places
    }

    /// Record what the source recording contained, as JSON.
    ///
    /// Written when the job starts rather than when it finishes, so a job that
    /// fails still says what it was working from, which is the case where a
    /// damaged recording explains the failure.
    pub fn set_diagnostics(&mut self, id: &str, diagnostics: String)
        requires
            old(self).wf(),
        ensures
            final(self).wf(),
            final(self).lines() == old(self).lines(),
            final(self).entries() == (if old(self).knows(id@) {
                let before = old(self).entries()[old(self).place_of(id@)];
                old(self).with(
                    id@,
                    Entry {
                        artifacts: Artifacts {
                            diagnostics: Some(diagnostics),
                            ..before.artifacts
                        },
                        ..before
                    },
                )
            } else {
                old(self).entries()
            }),
    {
        if let Some(at) = self.find(id) {
            self.entries[at].artifacts.diagnostics = Some(diagnostics);
            assert(self.entries() =~= old(self).with(id@, self.entries()[at as int]));
        }
    }

    /// Record where the result goes after all.
    pub fn set_output(&mut self, id: &str, output: String)
        requires
            old(self).wf(),
        ensures
            final(self).wf(),
            final(self).lines() == old(self).lines(),
            final(self).entries() == (if old(self).knows(id@) {
                let before = old(self).entries()[old(self).place_of(id@)];
                old(self).with(id@, Entry { job: Job { output, ..before.job }, ..before })
            } else {
                old(self).entries()
            }),
    {
        if let Some(at) = self.find(id) {
            self.entries[at].job.output = output;
            assert(self.entries() =~= old(self).with(id@, self.entries()[at as int]));
        }
    }

    /// Mark a job finished, with its outcome. An error that says nothing is
    /// kept as none.
    ///
    /// Deliberately does not touch the diagnostics: those are written when the
    /// job starts, and clearing them here would lose them on exactly the
    /// failed jobs where they explain what happened.
    pub fn finish(
        &mut self,
        id: &str,
        status: JobStatus,
        error: Option<String>,
        analysis: Option<String>,
        plan: Option<String>,
        now: i64,
    )
        requires
            old(self).wf(),
        ensures
            final(self).wf(),
            final(self).lines() == old(self).lines(),
            final(self).entries() == (if old(self).knows(id@) {
                let before = old(self).entries()[old(self).place_of(id@)];
                old(self).with(
                    id@,
                    Entry {
                        job: Job {
                            status,
                            error: spoken(error),
                            finished_at: Some(now),
                            progress: if status == JobStatus::Completed {
                                1_000_000
                            } else {
                                before.job.progress
                            },
                            ..before.job
                        },
                        artifacts: Artifacts { analysis, plan, ..before.artifacts },
                        ..before
                    },
                )
            } else {
                old(self).entries()
            }),
            old(self).knows(id@) ==> {
                let before = old(self).entries()[old(self).place_of(id@)].job;
                let after = final(self).entries()[old(self).place_of(id@)].job;
                &&& after.id@ == id@ && after.status == status && after.finished_at == Some(now)
                &&& status == JobStatus::Completed ==> after.progress == 1_000_000
                &&& status != JobStatus::Completed ==> after.progress == before.progress
            },
    {
        if let Some(at) = self.find(id) {
            self.entries[at].job.status = status;
            self.entries[at].job.error = optional(error);
            self.entries[at].job.finished_at = Some(now);
            if status == JobStatus::Completed {
                self.entries[at].job.progress = 1_000_000;
            }
            self.entries[at].artifacts.analysis = analysis;
            self.entries[at].artifacts.plan = plan;
            assert(self.entries() =~= old(self).with(id@, self.entries()[at as int]));
        }
    }

    /// A job has yet to stop.
    pub open spec fn can_cancel(self, id: Seq<char>) -> bool {
        self.knows(id) && {
            let status = self.entries()[self.place_of(id)].job.status;
            status == JobStatus::Queued || status == JobStatus::Running
        }
    }

    /// Ask for a job to stop, or drop it from the queue if it has not started.
    ///
    /// Returns whether anything changed.
    pub fn cancel(&mut self, id: &str, now: i64) -> (changed: bool)
        requires
            old(self).wf(),
        ensures
            final(self).wf(),
            final(self).lines() == old(self).lines(),
            changed == old(self).can_cancel(id@),
            final(self).entries() == (if changed {
                let before = old(self).entries()[old(self).place_of(id@)];
                old(self).with(
                    id@,
                    Entry {
                        job: Job {
                            status: JobStatus::Cancelled,
                            finished_at: Some(now),
                            ..before.job
                        },
                        ..before
                    },
                )
            } else {
                old(self).entries()
            }),
            changed ==> {
                let after = final(self).entries()[old(self).place_of(id@)].job;
                after.id@ == id@ && after.status == JobStatus::Cancelled && after.finished_at
                    == Some(now)
            },
    {
        if let Some(at) = self.find(id) {
            let status = self.entries[at].job.status;
            if status == JobStatus::Queued || status == JobStatus::Running {
                self.entries[at].job.status = JobStatus::Cancelled;
                self.entries[at].job.finished_at = Some(now);
                assert(self.entries() =~= old(self).with(id@, self.entries()[at as int]));
                return true;
            }
        }
        false
    }

    /// Whether a job has been asked to stop.
    ///
    /// Polled by the worker between phases, since a job in the middle of an
    /// ffmpeg run cannot be interrupted at an arbitrary point.
    #[must_use]
    pub fn is_cancelled(&self, id: &str) -> (yes: bool)
        requires
            self.wf(),
        ensures
            yes == (self.knows(id@) && self.entries()[self.place_of(id@)].job.status
                == JobStatus::Cancelled),
    {
        match self.find(id) {
            Some(at) => self.entries[at].job.status == JobStatus::Cancelled,
            None => false,
        }
    }

    /// Put every job that was running back in the queue, returning how many.
    ///
    /// Called at startup: a job marked running when the process starts was
    /// interrupted by a restart, since nothing else could have left it that
    /// way. Requeuing is safe because the pipeline writes its output only at
    /// the end.
    pub fn requeue_interrupted(&mut self) -> (count: usize)
        requires
            old(self).wf(),
        ensures
            final(self).wf(),
            final(self).lines() == old(self).lines(),
            count == running_count(old(self).entries()),
            final(self).entries().len() == old(self).entries().len(),
            forall|i: int|
                0 <= i < old(self).entries().len() ==> {
                    let before = #[trigger] old(self).entries()[i];
                    let after = final(self).entries()[i];
                    if before.job.status == JobStatus::Running {
                        is_requeued(before, after)
                    } else {
                        after == before
                    }
                },
    {
        let mut count: usize = 0;
        let total: usize = self.entries.len();
        assert(old(self).entries().take(0) =~= Seq::empty());
        for i in 0..total
            invariant
                total == self.entries().len(),
                total == old(self).entries().len(),
                old(self).wf(),
                self.lines() == old(self).lines(),
                count == running_count(old(self).entries().take(i as int)),
                count <= i,
                forall|k: int|
                    0 <= k < i ==> {
                        let before = #[trigger] old(self).entries()[k];
                        let after = self.entries()[k];
                        if before.job.status == JobStatus::Running {
                            is_requeued(before, after)
                        } else {
                            after == before
                        }
                    },
                forall|k: int|
                    i <= k < total ==> self.entries()[k] == #[trigger] old(self).entries()[k],
        {
            let ghost all = old(self).entries();
            assert(all.take(i + 1).drop_last() =~= all.take(i as int));
            assert(all.take(i + 1).last() == all[i as int]);
            assert(self.entries()[i as int] == all[i as int]);
            if self.entries[i].job.status == JobStatus::Running {
                let ghost before = self.entries();
                self.entries[i].job.status = JobStatus::Queued;
                self.entries[i].job.started_at = None;
                self.entries[i].job.progress = 0;
                self.entries[i].job.message = own("requeued after restart");
                count += 1;
                assert(self.entries() =~= before.update(i as int, self.entries()[i as int]));
                assert(is_requeued(all[i as int], self.entries()[i as int]));
            }
        }
        assert(old(self).entries().take(total as int) =~= old(self).entries());
        proof {
            assert forall|i: int, j: int| 0 <= i < j < self.entries().len() implies (
            #[trigger] self.entries()[i]).job.id@ != (#[trigger] self.entries()[j]).job.id@ by {
                assert(old(self).entries()[i].job.id@ != old(self).entries()[j].job.id@);
            }
            assert forall|i: int| 0 <= i < self.entries().len() implies says_or_is_silent(
                (#[trigger] self.entries()[i]).job,
            ) by {
                assert(says_or_is_silent(old(self).entries()[i].job));
            }
        }
        count
    }

    /// Append a log line to a job, returning its number. Nothing is logged once
    /// the numbers run out.
    pub fn log(
        &mut self,
        id: String,
        level: String,
        message: String,
        now: i64,
    ) -> (number: Option<i64>)
        requires
            old(self).wf(),
        ensures
            final(self).wf(),
            final(self).entries() == old(self).entries(),
            match number {
                Some(number) => {
                    &&& number == old(self).lines().len() + 1
                    &&& final(self).lines() == old(self).lines().push(
                        LoggedLine {
                            job_id: id,
                            event: JobEvent { id: number, at: now, level, message },
                        },
                    )
                },
                None => old(self).lines().len() >= i64::MAX && final(self).lines() == old(
                    self,
                ).lines(),
            },
    {
        if self.lines.len() as u64 >= i64::MAX as u64 {
            return None;
        }
        let number: i64 = self.lines.len() as i64 + 1;
        self.lines.push(
            LoggedLine { job_id: id, event: JobEvent { id: number, at: now, level, message } },
        );
        Some(number)
    }

    /// Read a job's log, from `after` onwards, a thousand lines at a time.
    #[must_use]
    pub fn events(&self, id: &str, after: i64) -> (events: Vec<&JobEvent>)
        ensures
            events@.len() == log_after(self.lines(), id@, after).len(),
            forall|i: int|
                0 <= i < events@.len() ==> *(#[trigger] events@[i]) == log_after(
                    self.lines(),
                    id@,
                    after,
                )[i],
    {
        let mut events: Vec<&JobEvent> = Vec::new();
        assert(self.lines().take(0) =~= Seq::empty());
        for i in 0..self.lines.len()
            invariant
                events@.len() == log_after(self.lines().take(i as int), id@, after).len(),
                forall|k: int|
                    0 <= k < events@.len() ==> *(#[trigger] events@[k]) == log_after(
                        self.lines().take(i as int),
                        id@,
                        after,
                    )[k],
        {
            let line = &self.lines[i];
            assert(self.lines().take(i + 1).drop_last() =~= self.lines().take(i as int));
            assert(self.lines().take(i + 1).last() == *line);
            if same_text(line.job_id.as_str(), id) && line.event.id > after && events.len()
                < 1_000 {
                events.push(&line.event);
            }
        }
        assert(self.lines().take(self.lines().len() as int) =~= self.lines());
        events
    }
}

/// An unknown title is an unknown title: whatever is read of a job that was
/// queued, a title, channel id, channel name or error is absent or says
/// something, and one that was given empty is absent.
pub proof fn empty_texts_read_back_as_absent(store: Store, id: Seq<char>)
    requires
        store.wf(),
        store.knows(id),
    ensures
        ({
            let job = store.entries()[store.place_of(id)].job;
            &&& text_of(job.title) == said(text_of(job.title))
            &&& text_of(job.channel_id) == said(text_of(job.channel_id))
            &&& text_of(job.channel_name) == said(text_of(job.channel_name))
            &&& text_of(job.error) == said(text_of(job.error))
        }),
        forall|given: Option<String>|
            text_of(#[trigger] spoken(given)) == said(text_of(given)),
{
    assert(says_or_is_silent(store.entries()[store.place_of(id)].job));
}

/// A job is claimed once: what has been claimed no longer waits, so the next
/// claim takes another job or none.
pub proof fn a_job_is_claimed_once(
    before: Seq<Entry>,
    at: int,
    now: i64,
    again: int,
)
    requires
        is_next(before, at),
        is_next(claimed_at(before, at, now), again),
    ensures
        again != at,
        runs_ahead(before[at].job, before[again].job),
{
}

/// A claim that is taken back leaves everything as it was: the job waits as
/// before, and is the next to run.
pub proof fn releasing_undoes_a_claim(before: Seq<Entry>, at: int, now: i64)
    requires
        is_next(before, at),
        before[at].job.started_at is None,
    ensures
        released(claimed_at(before, at, now), at) == before,
{
    assert(released(claimed_at(before, at, now), at) =~= before);
}

/// Only a job that waits is ever claimed: not one that is running, that was
/// cancelled, that waits for its logo, or that has ended.
pub proof fn only_waiting_jobs_are_claimed(entries: Seq<Entry>, at: int)
    requires
        is_next(entries, at),
    ensures
        entries[at].job.status == JobStatus::Queued,
        !entries[at].job.status.stopped(),
        forall|k: int|
            0 <= k < entries.len() && (#[trigger] entries[k]).job.status == JobStatus::Queued
                ==> entries[k].job.priority <= entries[at].job.priority,
{
    assert forall|k: int|
        0 <= k < entries.len() && (#[trigger] entries[k]).job.status
            == JobStatus::Queued implies entries[k].job.priority <= entries[at].job.priority by {
        assert(runs_ahead(entries[at].job, entries[k].job));
    }
}

/// At any moment there is one next job at most.
pub proof fn the_next_job_is_one_job(entries: Seq<Entry>, a: int, b: int)
    requires
        is_next(entries, a),
        is_next(entries, b),
    ensures
        a == b,
{
    if a < b {
        assert(runs_ahead(entries[a].job, entries[b].job));
    }
    if b < a {
        assert(runs_ahead(entries[b].job, entries[a].job));
    }
}

/// A log can be tailed: reading on from a line gives what was logged after it.
pub proof fn tails_follow_the_cursor(lines: Seq<LoggedLine>, id: Seq<char>, after: i64)
    ensures
        log_after(lines, id, after).len() <= 1_000,
        forall|i: int|
            0 <= i < log_after(lines, id, after).len() ==> (#[trigger] log_after(
                lines,
                id,
                after,
            )[i]).id > after,
    decreases lines.len(),
{
    if lines.len() > 0 {
        tails_follow_the_cursor(lines.drop_last(), id, after);
    }
}

} // verus!
