//! What holds of how jobs and recordings are treated.

use vstd::prelude::*;
use vstd::string::*;
use crate::analyze::logo::model::Rect;
use crate::arith::nearest_even;
use crate::cmcut::plan::length_of_kind;
use crate::cmcut::plan::CutPlan;
use crate::cmcut::plan::Decision;
use crate::cmcut::score::LowConfidencePolicy;
use crate::cmcut::score::SegmentKind;
use crate::engine::channels::ChannelSettings;
use crate::engine::naming::Fields;
use crate::engine::naming::RecordedAt;
use crate::engine::parts::dots_are_within;
use crate::engine::pipeline::JobRequest;
use crate::engine::profile::Profile;
use crate::engine::rules::Rule;
use crate::order::is_stable_order;
use crate::order::ranking;
use crate::order::stable_order_exists;
use crate::paths::extension_of;
use crate::paths::is_name;
use crate::paths::last_dot;
use crate::paths::name_of;
use crate::paths::names_below_are_last;
use crate::paths::names_hold_no_slash;
use crate::paths::parent_of;
use crate::paths::stem_of;
use crate::server::api::check_rules;
use crate::server::api::check_scan;
use crate::server::api::check_submission;
use crate::server::api::recut_of;
use crate::server::api::recut_path;
use crate::server::api::retry_of;
use crate::server::api::ApiError;
use crate::server::api::KeepSpan;
use crate::server::api::Recut;
use crate::server::db::is_next;
use crate::server::db::listing_limit;
use crate::server::db::log_after;
use crate::server::db::recency;
use crate::server::db::running_count;
use crate::server::db::Entry;
use crate::server::db::Job;
use crate::server::db::JobStatus;
use crate::server::db::LoggedLine;
use crate::server::db::NewJob;
use crate::server::db::Store;
use crate::server::disk::needed_for;
use crate::server::disk::available_in;
use crate::server::disk::shortfall;
use crate::server::disk::size_text;
use crate::server::schedule::runs_of;
use crate::server::schedule::tidied;
use crate::server::schedule::tidying_keeps_hours;
use crate::server::schedule::RunHours;
use crate::server::sources::is_recording_name;
use crate::server::sources::lies_inside;
use crate::server::sources::listed_before;
use crate::server::sources::newer_recordings_come_first;
use crate::server::sources::standings;
use crate::server::sources::Found;
use crate::server::worker::choose_profile;
use crate::server::worker::conclude;
use crate::server::worker::explained;
use crate::server::worker::fields_for;
use crate::server::worker::next_step;
use crate::server::worker::pool_size;
use crate::server::worker::renamed_output;
use crate::server::worker::request_for;
use crate::server::worker::summary_of;
use crate::server::worker::wanted_profile;
use crate::server::worker::Choice;
use crate::server::worker::Ending;
use crate::server::worker::Record;
use crate::server::worker::Step;
use crate::spelling::written_numbers_are_read;
use crate::text::ascii_lower_of;
use crate::text::comes_before;
use crate::text::decimal_digits;
use crate::text::first_at;
use crate::text::first_at_is_first;
use crate::text::nth_word;
use crate::text::occurs_at;
use crate::text::occurs_in;
use crate::text::one_place;
use crate::text::padded_digits;
use crate::text::split_at_first;
use crate::text::text_of;
use crate::text::trimmed;
use crate::textmap::TextMap;

verus! {

/// The job that runs next is the most urgent that waits; of those as urgent as
/// each other the one that has waited longest; and of those the one that came
/// first.
pub proof fn the_most_urgent_job_runs_next(entries: Seq<Entry>, at: int, k: int)
    requires
        is_next(entries, at),
        0 <= k < entries.len(),
        entries[k].job.status == JobStatus::Queued,
    ensures
        entries[at].job.status == JobStatus::Queued,
        entries[k].job.priority <= entries[at].job.priority,
        entries[k].job.priority == entries[at].job.priority ==> entries[at].job.created_at
            <= entries[k].job.created_at,
        entries[k].job.priority == entries[at].job.priority && entries[k].job.created_at
            == entries[at].job.created_at ==> at <= k,
{
}

/// Jobs are listed newest first, as many as were asked for, between one and five
/// hundred.
pub proof fn the_newest_jobs_are_listed_first(entries: Seq<Entry>, limit: i64, i: int, j: int)
    requires
        entries.len() <= usize::MAX,
        0 <= i < j < entries.len(),
    ensures
        entries[ranking(recency(entries))[i] as int].job.created_at >= entries[ranking(
            recency(entries),
        )[j] as int].job.created_at,
        1 <= listing_limit(limit) <= 500,
        1 <= limit <= 500 ==> listing_limit(limit) == limit,
        limit > 500 ==> listing_limit(limit) == 500,
{
    let keys = recency(entries);
    stable_order_exists(keys);
    let order = ranking(keys);
    assert(is_stable_order(keys, order));
    assert(keys[order[i] as int] <= keys[order[j] as int]);
}

/// A job can be stopped while it waits or runs, and not once it is over.
pub proof fn jobs_can_be_stopped_until_they_are_over(store: Store, id: Seq<char>)
    ensures
        !store.knows(id) ==> !store.can_cancel(id),
        store.knows(id) ==> {
            let status = store.entries()[store.place_of(id)].job.status;
            &&& status == JobStatus::Queued || status == JobStatus::Running ==> store.can_cancel(id)
            &&& status == JobStatus::Completed || status == JobStatus::Failed || status
                == JobStatus::Cancelled || status == JobStatus::Blocked ==> !store.can_cancel(id)
        },
{
}

/// Running jobs are counted one by one.
pub proof fn running_jobs_are_counted(entries: Seq<Entry>, next: Entry)
    ensures
        running_count(Seq::empty()) == 0,
        next.job.status == JobStatus::Running ==> running_count(entries.push(next))
            == running_count(entries) + 1,
        next.job.status != JobStatus::Running ==> running_count(entries.push(next))
            == running_count(entries),
{
    assert(entries.push(next).drop_last() =~= entries);
}

/// A job's log is what was logged for it and for no other, after the cursor; and
/// none of the first thousand such lines is left out.
pub proof fn logs_hold_what_was_logged(lines: Seq<LoggedLine>, id: Seq<char>, after: i64, k: int)
    requires
        0 <= k < lines.len() <= 1_000,
    ensures
        lines[k].job_id@ == id && lines[k].event.id > after ==> log_after(
            lines,
            id,
            after,
        ).contains(lines[k].event),
        log_after(lines, id, after).len() <= lines.len(),
        (forall|i: int| 0 <= i < lines.len() ==> (#[trigger] lines[i]).job_id@ != id) ==> log_after(
            lines,
            id,
            after,
        ).len() == 0,
    decreases lines.len(),
{
    let before = lines.drop_last();
    let rest = log_after(before, id, after);
    let all = log_after(lines, id, after);
    assert(lines[lines.len() - 1] == lines.last());
    assert forall|i: int| 0 <= i < before.len() implies #[trigger] before[i] == lines[i] by {}
    if lines.len() > 1 {
        logs_hold_what_was_logged(before, id, after, if k < lines.len() - 1 { k } else { 0 });
    } else {
        assert(before.len() == 0);
        assert(rest.len() == 0);
    }
    if lines[k].job_id@ == id && lines[k].event.id > after {
        if k < lines.len() - 1 {
            let j = rest.index_of(lines[k].event);
            assert(all[j] == lines[k].event);
        } else {
            assert(all[all.len() - 1] == lines[k].event);
        }
    }
}

/// A recording needs a quarter of its size, and two gibibytes beside; a larger
/// one never needs less.
pub proof fn larger_recordings_need_more_room(small: u64, large: u64)
    requires
        small <= large,
    ensures
        4 * (needed_for(small) - 2_147_483_648) <= small < 4 * (needed_for(small) - 2_147_483_648)
            + 4,
        needed_for(small) <= needed_for(large),
{
}

/// Work is done in the hours that were named, and in no other; where none of the
/// day was named it is done at any.
pub proof fn work_is_done_in_the_named_hours(schedule: RunHours, hours: Seq<u32>, hour: u32)
    requires
        schedule@ == tidied(hours, 24),
        hour < 24,
    ensures
        hours.contains(hour) ==> schedule.allows(hour),
        !hours.contains(hour) && (exists|other: u32| other < 24 && #[trigger] hours.contains(other))
            ==> !schedule.allows(hour),
        (forall|other: u32| other < 24 ==> !#[trigger] hours.contains(other)) ==> schedule.allows(
            hour,
        ),
{
    tidying_keeps_hours(hours, 24);
    let tidy = tidied(hours, 24);
    if exists|other: u32| other < 24 && #[trigger] hours.contains(other) {
        let other = choose|other: u32| other < 24 && #[trigger] hours.contains(other);
        assert(tidy.contains(other));
        assert(tidy.contains(hour) <==> hours.contains(hour));
    } else {
        if tidy.len() > 0 {
            assert(tidy.contains(tidy[0]));
        }
    }
}

/// Hours that follow each other are told as one span: between two spans lies an
/// hour that was not named.
pub proof fn spans_are_told_apart(hours: Seq<u32>, i: int, j: int)
    requires
        forall|a: int, b: int| 0 <= a < b < hours.len() ==> #[trigger] hours[a] < #[trigger] hours[b],
        forall|a: int| 0 <= a < hours.len() ==> #[trigger] hours[a] < 24,
        0 <= i < j < runs_of(hours).len(),
    ensures
        runs_of(hours)[i].1 < runs_of(hours)[j].0,
    decreases hours.len(),
{
    spans_ascend(hours);
}

proof fn spans_ascend(hours: Seq<u32>)
    requires
        forall|a: int, b: int| 0 <= a < b < hours.len() ==> #[trigger] hours[a] < #[trigger] hours[b],
        forall|a: int| 0 <= a < hours.len() ==> #[trigger] hours[a] < 24,
    ensures
        hours.len() > 0 ==> runs_of(hours).len() > 0 && runs_of(hours).last().1 == hours.last() + 1,
        forall|i: int|
            0 <= i < runs_of(hours).len() ==> (#[trigger] runs_of(hours)[i]).0 < runs_of(hours)[i].1,
        forall|i: int, j: int|
            0 <= i < j < runs_of(hours).len() ==> (#[trigger] runs_of(hours)[i]).1 < (
            #[trigger] runs_of(hours)[j]).0,
    decreases hours.len(),
{
    if hours.len() > 0 {
        let before = hours.drop_last();
        assert forall|a: int, b: int| 0 <= a < b < before.len() implies #[trigger] before[a]
            < #[trigger] before[b] by {
            assert(hours[a] < hours[b]);
        }
        assert forall|a: int| 0 <= a < before.len() implies #[trigger] before[a] < 24 by {
            assert(hours[a] < 24);
        }
        spans_ascend(before);
        let rest = runs_of(before);
        let all = runs_of(hours);
        assert(hours[hours.len() - 1] < 24);
        if before.len() > 0 {
            assert(hours[before.len() - 1] < hours[hours.len() - 1]);
        }
        assert forall|i: int, j: int| 0 <= i < j < all.len() implies (#[trigger] all[i]).1 < (
        #[trigger] all[j]).0 by {
            if j < rest.len() {
                assert(rest[i].1 < rest[j].0);
            } else {
                assert(rest[i].1 <= rest.last().1) by {
                    if i < rest.len() - 1 {
                        assert(rest[i].1 < rest[rest.len() - 1].0);
                    }
                }
            }
        }
    }
}

/// A path lies in a directory when it is the directory or goes on below it; one
/// whose name merely begins like the directory's does not.
pub proof fn neighbours_are_outside(root: Seq<char>, rest: Seq<char>, c: char)
    requires
        root.len() > 0,
        root.last() != '/',
        c != '/',
    ensures
        lies_inside(root, root),
        lies_inside(root, root.push('/') + rest),
        !lies_inside(root, root.push(c) + rest),
{
    assert(root.take(root.len() as int) =~= root);
    assert((root.push('/') + rest).take(root.len() as int) =~= root);
    assert((root.push('/') + rest)[root.len() as int] == '/');
    assert((root.push(c) + rest)[root.len() as int] == c);
}

/// What lies in a directory begins with it.
pub proof fn what_lies_inside_begins_alike(root: Seq<char>, path: Seq<char>, i: int)
    requires
        lies_inside(root, path),
        0 <= i < root.len(),
    ensures
        i < path.len(),
        path[i] == root[i],
{
    assert(path.take(root.len() as int)[i] == path[i]);
}

/// Whether a file is a recording does not depend on how its extension is
/// capitalised.
pub proof fn capitals_make_no_difference(one: Seq<char>, other: Seq<char>)
    requires
        extension_of(one) is Some,
        extension_of(other) is Some,
        ascii_lower_of(extension_of(one)->Some_0) == ascii_lower_of(extension_of(other)->Some_0),
    ensures
        is_recording_name(one) == is_recording_name(other),
{
}

/// Recordings are listed by when they were last written, newest first, those
/// without a date last; and where that does not tell them apart by name.
pub proof fn recordings_are_listed_by_date_then_name(found: Seq<Found>, i: int, j: int)
    requires
        found.len() <= usize::MAX,
        0 <= i < found.len(),
        0 <= j < found.len(),
    ensures
        ({
            let a = found[ranking(standings(found))[i] as int];
            let b = found[ranking(standings(found))[j] as int];
            &&& a.modified is Some && b.modified is Some && a.modified->Some_0 > b.modified->Some_0
                ==> i < j
            &&& a.modified is Some && b.modified is None ==> i < j
            &&& a.modified == b.modified && comes_before(a.recording.name@, b.recording.name@)
                ==> i < j
        }),
{
    let a = found[ranking(standings(found))[i] as int];
    let b = found[ranking(standings(found))[j] as int];
    if listed_before(a, b) {
        newer_recordings_come_first(found, i, j);
    }
}

/// An explanation tells everything that went wrong: it begins with the first
/// message, and every one of them can be read in it.
pub proof fn explanations_tell_everything(messages: Seq<Seq<char>>, i: int)
    requires
        0 <= i < messages.len(),
    ensures
        occurs_in(explained(messages), messages[i]),
        occurs_at(explained(messages), messages[0], 0),
    decreases messages.len(),
{
    let before = explained(messages.drop_last());
    let all = explained(messages);
    if messages.len() == 1 {
        assert(all.subrange(0, messages[0].len() as int) =~= messages[0]);
        assert(occurs_at(all, messages[0], 0));
    } else {
        let k = if i < messages.len() - 1 { i } else { 0 };
        explanations_tell_everything(messages.drop_last(), k);
        assert(messages.drop_last()[0] == messages[0]);
        assert(messages.drop_last()[k] == messages[k]);
        let cause = messages.last();
        if !occurs_in(before, cause) {
            assert(all =~= before + ": "@ + cause);
            assert(all.subrange(0, messages[0].len() as int) =~= before.subrange(
                0,
                messages[0].len() as int,
            ));
            let at = choose|at: int| occurs_at(before, messages[k], at);
            assert(all.subrange(at, at + messages[k].len()) =~= before.subrange(
                at,
                at + messages[k].len(),
            ));
            assert(occurs_at(all, messages[k], at));
            let tail = (before.len() + ": "@.len()) as int;
            assert(all.subrange(tail, tail + cause.len()) =~= cause);
            assert(occurs_at(all, cause, tail));
        }
    }
}

/// A channel's profile is used in place of the one a job asked for, and where
/// the channel has none the job's own is.
pub proof fn channels_choose_the_profile(settings: ChannelSettings, job: Job)
    ensures
        settings.profile is None ==> wanted_profile(settings, job) == job.profile@,
        settings.profile matches Some(profile) ==> wanted_profile(settings, job) == profile@,
        wanted_profile(settings, job) == job.profile@ || text_of(settings.profile) == Some(
            wanted_profile(settings, job),
        ),
{
}

/// A stretch to keep has a beginning and an end, the end after the beginning;
/// and whatever has, is one.
pub proof fn stretches_run_forward(span: KeepSpan)
    ensures
        span.range() is Some <==> span.start is Some && span.end is Some && span.start->Some_0
            < span.end->Some_0,
        span.range() matches Some(range) ==> span.start == Some(range.start) && span.end == Some(
            range.end,
        ),
{
}

/// What is short is what is missing: where there is too little room, what is
/// free and what is short are together what is needed; where there is enough, or
/// nothing is known of the room, nothing is short.
pub proof fn what_is_short_is_what_is_missing(
    free: Option<u64>,
    source_size: u64,
    short: Option<u64>,
)
    requires
        call_ensures(shortfall, (free, source_size), short),
    ensures
        free is None ==> short is None,
        free matches Some(free) ==> {
            &&& 4 * (free - 2_147_483_648) < source_size - 3 ==> short is Some
            &&& 4 * (free - 2_147_483_648) >= source_size ==> short is None
            &&& short matches Some(short) ==> short > 0 && free + short == needed_for(source_size)
        },
{
}

/// A worker that may work looks for a job, and one that may not rests and says
/// so once; there is one worker at least.
pub proof fn workers_work_when_they_may(
    allowed: bool,
    resting: bool,
    step: Step,
    count: usize,
    workers: usize,
)
    requires
        call_ensures(next_step, (allowed, resting), step),
        call_ensures(pool_size, (count,), workers),
    ensures
        allowed <==> step is Claim,
        !allowed && !resting ==> step == (Step::Rest { announce: true }),
        !allowed && resting ==> step == (Step::Rest { announce: false }),
        workers >= 1,
        count >= 1 ==> workers == count,
{
}

/// Only what differs from what was asked is a renaming, and nothing is renamed
/// without a template.
pub proof fn renamings_change_the_name(
    job: Job,
    template: Option<&str>,
    fields: Fields,
    path: Option<String>,
)
    requires
        call_ensures(renamed_output, (&job, template, &fields), path),
    ensures
        template is None ==> path is None,
        path matches Some(path) ==> path@ != job.output@,
{
}

/// A job is recorded as what became of it, and one that was stopped is not
/// recorded at all.
pub proof fn jobs_are_recorded_as_what_became_of_them(
    cancelled: bool,
    ending: Ending,
    record: Option<Record>,
)
    requires
        call_ensures(conclude, (cancelled, &ending), record),
    ensures
        cancelled <==> record is None,
        record matches Some(record) ==> {
            &&& record.status == JobStatus::Completed <==> ending is Done
            &&& record.status == JobStatus::Blocked <==> ending is NeedsLogo
            &&& record.status == JobStatus::Failed <==> ending is Failed || ending is Stopped
            &&& record.error is None <==> ending is Done
        },
{
}

proof fn recut_names_are_names(output: Seq<char>, name: Seq<char>)
    requires
        name == (match stem_of(output) {
            Some(stem) => stem,
            None => "recut"@,
        }) + ".recut"@ + (match extension_of(output) {
            Some(extension) => "."@ + extension,
            None => ""@,
        }),
    ensures
        is_name(name),
        !name.contains('/'),
        name_of(output) matches Some(found) ==> name.len() > found.len(),
{
    reveal_strlit(".recut");
    reveal_strlit("recut");
    reveal_strlit(".");
    reveal_strlit("");
    names_hold_no_slash(output);
    let stem = match stem_of(output) {
        Some(stem) => stem,
        None => "recut"@,
    };
    let ending = match extension_of(output) {
        Some(extension) => "."@ + extension,
        None => ""@,
    };
    if let Some(found) = name_of(output) {
        dots_are_within(found);
        assert forall|i: int| 0 <= i < stem.len() implies stem[i] != '/' by {
            assert(stem[i] == found[i]);
            assert(found.contains(found[i]));
        }
        assert forall|i: int| 0 <= i < ending.len() implies ending[i] != '/' by {
            if i > 0 {
                assert(ending[i] == found[i + last_dot(found)]);
                assert(found.contains(found[i + last_dot(found)]));
            }
        }
    }
    assert forall|i: int| 0 <= i < name.len() implies name[i] != '/' by {
        if i < stem.len() {
            assert(name[i] == stem[i]);
        } else if i < stem.len() + 6 {
            assert(name[i] == ".recut"@[i - stem.len()]);
        } else {
            assert(name[i] == ending[i - stem.len() - 6]);
        }
    }
    assert(name.len() == stem.len() + 6 + ending.len());
    assert(name.len() != seq!['.'].len() && name.len() != seq!['.', '.'].len());
}

/// A recording that is cut again is not written over what was written before.
pub proof fn recuts_go_to_a_file_of_their_own(output: Seq<char>)
    ensures
        recut_path(output) != output,
{
    let name = (match stem_of(output) {
        Some(stem) => stem,
        None => "recut"@,
    }) + ".recut"@ + (match extension_of(output) {
        Some(extension) => "."@ + extension,
        None => ""@,
    });
    recut_names_are_names(output, name);
    let directory = match (name_of(output), parent_of(output)) {
        (Some(_), Some(parent)) => parent,
        _ => output,
    };
    names_below_are_last(directory, name);
    if recut_path(output) == output {
        assert(name_of(output) == Some(name));
    }
}

/// A recut is made of stretches that all run forward, and runs ahead of the job
/// that it cuts again.
pub proof fn recuts_run_forward_and_ahead(
    job: Job,
    keep: &[KeepSpan],
    result: Result<Recut, ApiError>,
    i: int,
)
    requires
        call_ensures(recut_of, (&job, keep), result),
        0 <= i < keep@.len(),
    ensures
        result matches Ok(recut) ==> {
            &&& recut.ranges@.len() == keep@.len()
            &&& keep@[i].start == Some(recut.ranges@[i].start)
            &&& keep@[i].end == Some(recut.ranges@[i].end)
            &&& recut.ranges@[i].start < recut.ranges@[i].end
            &&& recut.request.priority > job.priority
            &&& recut.request.input@ == job.input@
            &&& recut.request.output@ != job.output@
        },
        result is Err ==> exists|k: int|
            0 <= k < keep@.len() && ((#[trigger] keep@[k]).start is None || keep@[k].end is None
                || keep@[k].end->Some_0 <= keep@[k].start->Some_0),
{
    recuts_go_to_a_file_of_their_own(job.output@);
    if let Ok(recut) = result {
        assert(keep@[i].range() == Some(recut.ranges@[i]));
    } else {
        let k = choose|k: int| 0 <= k < keep@.len() && (#[trigger] keep@[k]).range() is None;
        assert(keep@[k].start is None || keep@[k].end is None || keep@[k].end->Some_0
            <= keep@[k].start->Some_0);
    }
}

/// A job is taken on exactly where something is to be read, somewhere to write
/// and the profile is known.
pub proof fn complete_submissions_are_taken_on(
    request: NewJob,
    profiles: TextMap<Profile>,
    result: Result<(), ApiError>,
)
    requires
        call_ensures(check_submission, (&request, &profiles), result),
    ensures
        result is Ok <==> trimmed(request.input@).len() > 0 && trimmed(request.output@).len() > 0
            && profiles@.contains_key(request.profile@),
        result matches Err(error) ==> error.status == 400,
{
}

/// A scan is made only where its result can be kept, of a recording that may be
/// read, inside a box with something in it.
pub proof fn scans_are_made_where_they_can_be(
    has_store: bool,
    readable: bool,
    rect: Rect,
    result: Result<(), ApiError>,
)
    requires
        call_ensures(check_scan, (has_store, readable, &rect), result),
    ensures
        result is Ok <==> has_store && readable && rect.valid(),
        has_store && !readable ==> (result matches Err(error) && error.status == 403),
{
}

/// The free room is read from the fourth word of the second line, in kibibytes;
/// where that is no number, or too large a one, nothing is known of it.
pub proof fn free_room_is_told_in_kibibytes(
    heading: Seq<char>,
    line: Seq<char>,
    rest: Seq<char>,
    kibibytes: nat,
)
    requires
        !heading.contains('\n'),
        !line.contains('\n'),
        nth_word(line, 3) == Some(decimal_digits(kibibytes)),
    ensures
        ({
            let text = heading.push('\n') + line.push('\n') + rest;
            available_in(text) == (if kibibytes * 1_024 <= u64::MAX {
                Some(kibibytes * 1_024)
            } else {
                None
            })
        }),
        available_in(heading) is None,
{
    let text = heading.push('\n') + line.push('\n') + rest;
    splits_at_the_first(heading, '\n', line.push('\n') + rest);
    assert(text =~= heading.push('\n') + (line.push('\n') + rest));
    splits_at_the_first(line, '\n', rest);
    written_numbers_are_read(kibibytes, u64::MAX as nat, 0);
    first_at_is_first(heading, '\n');
    assert(split_at_first(heading, '\n') is None) by {
        if first_at(heading, '\n') < heading.len() {
            assert(heading[first_at(heading, '\n')] == '\n');
            assert(heading.contains('\n'));
        }
    }
    assert(nth_word(Seq::empty(), 3) is None);
}

proof fn splits_at_the_first(left: Seq<char>, c: char, right: Seq<char>)
    requires
        !left.contains(c),
    ensures
        split_at_first(left.push(c) + right, c) == Some((left, right)),
{
    let s = left.push(c) + right;
    first_at_is_first(s, c);
    let at = left.len() as int;
    assert(s[at] == c);
    if first_at(s, c) < at {
        assert(s[first_at(s, c)] == left[first_at(s, c)]);
    }
    assert(s.take(at) =~= left);
    assert(s.skip(at + 1) =~= right);
}

/// A profile that is known is used, and one that is not is told of by its name;
/// nothing is remarked where it is the one that was asked for.
pub proof fn known_profiles_are_used(
    profiles: TextMap<Profile>,
    settings: ChannelSettings,
    job: Job,
    result: Result<Choice, String>,
)
    requires
        call_ensures(choose_profile, (&profiles, &settings, &job), result),
    ensures
        result is Ok <==> profiles@.contains_key(wanted_profile(settings, job)),
        result matches Ok(choice) ==> choice.profile@ == profiles@[wanted_profile(
            settings,
            job,
        )]@ && (settings.profile is None ==> choice.note is None),
{
}

/// A channel is called by its name, and by its number only for want of one.
pub proof fn channels_are_called_by_their_name(
    job: Job,
    at: Option<RecordedAt>,
    fields: Fields,
)
    requires
        call_ensures(fields_for, (&job, at), fields),
    ensures
        job.channel_name is Some ==> text_of(fields.channel) == text_of(job.channel_name),
        job.channel_name is None ==> text_of(fields.channel) == text_of(job.channel_id),
        text_of(fields.title) == text_of(job.title),
        fields.recorded_at == at,
{
}

/// A job's own settings reach the request: what is read and written, whether
/// commercials are looked for, and what is done in doubt. A logo is learned only
/// where commercials are looked for.
pub proof fn requests_follow_the_settings(
    job: Job,
    profile: Profile,
    settings: ChannelSettings,
    policy: LowConfidencePolicy,
    request: JobRequest,
)
    requires
        call_ensures(request_for, (&job, profile, &settings, policy), request),
    ensures
        request.input@ == job.input@ && request.output@ == job.output@,
        request.detect_commercials == settings.detect_commercials,
        !settings.detect_commercials ==> !request.learn_logo,
        request.cut.low_confidence == policy,
        request.manual_ranges is None,
{
}

/// A retry is the same job again.
pub proof fn retries_are_the_same_job_again(job: Job, request: NewJob)
    requires
        call_ensures(retry_of, (&job,), request),
    ensures
        request.input@ == job.input@,
        request.output@ == job.output@,
        request.profile@ == job.profile@,
        request.priority == job.priority,
        text_of(request.title) == text_of(job.title),
        text_of(request.channel_id) == text_of(job.channel_id),
{
}

/// Rules are accepted exactly where every profile that they name is known.
pub proof fn rules_must_name_known_profiles(
    rules: &[Rule],
    profiles: TextMap<Profile>,
    result: Result<(), ApiError>,
    i: int,
)
    requires
        call_ensures(check_rules, (rules, &profiles), result),
        0 <= i < rules@.len(),
        rules@[i].profile is Some,
    ensures
        result is Ok ==> profiles@.contains_key((rules@[i].profile->Some_0)@),
        !profiles@.contains_key((rules@[i].profile->Some_0)@) ==> result is Err,
{
    if result is Ok {
        assert(crate::server::api::is_usable(rules@[i], profiles@));
    }
}

/// The last line of a job says whether anything was removed, and how much was
/// found to be commercial either way.
pub proof fn summaries_say_what_was_done(plan: CutPlan)
    requires
        length_of_kind(plan.segments@, SegmentKind::Commercial) >= 0,
    ensures
        ({
            let found = one_place(
                length_of_kind(plan.segments@, SegmentKind::Commercial) as nat,
            );
            &&& plan.decision == Decision::Cut ==> occurs_at(summary_of(plan), "done: removed "@, 0)
                && occurs_at(summary_of(plan), found, "done: removed "@.len() as int)
            &&& plan.decision == Decision::KeepAll ==> occurs_at(
                summary_of(plan),
                "done: kept whole, "@,
                0,
            ) && occurs_at(summary_of(plan), found, "done: kept whole, "@.len() as int)
        }),
{
    let found = one_place(length_of_kind(plan.segments@, SegmentKind::Commercial) as nat);
    let head = if plan.decision == Decision::Cut {
        "done: removed "@
    } else {
        "done: kept whole, "@
    };
    let line = summary_of(plan);
    assert(line.subrange(0, head.len() as int) =~= head);
    assert(line.subrange(head.len() as int, (head.len() + found.len()) as int) =~= found);
}

/// Room is told in gibibytes from one of them on, and in mebibytes below that.
pub proof fn room_is_told_in_fitting_units(bytes: u64, whole: nat)
    ensures
        bytes == whole * 1_073_741_824 && whole >= 1 ==> size_text(bytes) == decimal_digits(whole)
            + "."@ + padded_digits(0, 1) + " GiB"@,
        bytes == whole * 1_048_576 && whole < 1_024 ==> size_text(bytes) == decimal_digits(whole)
            + " MiB"@,
{
    if bytes == whole * 1_073_741_824 && whole >= 1 {
        let tenths = nearest_even(bytes * 10, 1_073_741_824);
        assert(bytes * 10 == (whole * 10) * 1_073_741_824);
        assert(tenths == whole * 10);
    }
    if bytes == whole * 1_048_576 && whole < 1_024 {
        assert(nearest_even(bytes as int, 1_048_576) == whole);
    }
}

} // verus!
