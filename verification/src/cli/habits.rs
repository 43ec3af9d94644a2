//! What holds of how the command line is answered.

use vstd::prelude::*;
use vstd::string::*;
use crate::cli::epgstation::either;
use crate::cli::epgstation::first_value;
use crate::cli::epgstation::variable;
use crate::cli::epgstation::Environment;
use crate::cli::epgstation::ProgressReporter;
use crate::cli::request::is_request_for;
use crate::cli::request::station_job;
use crate::cli::request::RecordingContext;
use crate::cli::request::StationJob;
use crate::cmcut::plan::decision_for;
use crate::cmcut::plan::Decision;
use crate::engine::pipeline::JobRequest;
use crate::text::text_of;

verus! {

/// Progress is reported when it says something else, or has moved on by half a
/// percent, and not before.
pub proof fn small_steps_are_not_reported(
    reporter: ProgressReporter,
    fraction: i64,
    message: Seq<char>,
)
    ensures
        message != reporter.message() ==> reporter.is_news(fraction, message),
        message == reporter.message() ==> (reporter.is_news(fraction, message) <==> fraction
            >= reporter.reported() + 5_000),
{
}

/// A variable is what was first set under its name; one that was never set, or
/// was set to nothing, is not there.
pub proof fn variables_are_what_was_set(pairs: Seq<(String, String)>, at: int, key: Seq<char>)
    requires
        0 <= at <= pairs.len(),
        forall|i: int| 0 <= i < at ==> (#[trigger] pairs[i]).0@ != key,
        at < pairs.len() ==> pairs[at].0@ == key,
    ensures
        at == pairs.len() ==> variable(pairs, key) is None && first_value(pairs, key) is None,
        at < pairs.len() ==> first_value(pairs, key) == Some(pairs[at].1@),
        at < pairs.len() && pairs[at].1@.len() > 0 ==> variable(pairs, key) == Some(pairs[at].1@),
        at < pairs.len() && pairs[at].1@.len() == 0 ==> variable(pairs, key) is None,
    decreases pairs.len(),
{
    if at > 0 {
        let rest = pairs.skip(1);
        assert(pairs[0].0@ != key);
        assert forall|i: int| 0 <= i < at - 1 implies (#[trigger] rest[i]).0@ != key by {
            assert(rest[i] == pairs[i + 1]);
        }
        if at < pairs.len() {
            assert(rest[at - 1] == pairs[at]);
        }
        variables_are_what_was_set(rest, at - 1, key);
    }
}

/// Of two names for a variable the first is preferred, and the second is asked
/// only for want of it.
pub proof fn the_first_name_is_preferred(
    pairs: Seq<(String, String)>,
    key: Seq<char>,
    other: Seq<char>,
)
    ensures
        variable(pairs, key) is Some ==> either(pairs, key, other) == variable(pairs, key),
        variable(pairs, key) is None ==> either(pairs, key, other) == variable(pairs, other),
{
}

/// A job from the recorder is taken on exactly where it says what to read and
/// where to write.
pub proof fn complete_jobs_are_taken_on(
    environment: Environment,
    result: Result<StationJob, String>,
)
    requires
        call_ensures(station_job, (&environment,), result),
    ensures
        result is Ok <==> environment.input is Some && environment.output is Some,
        result matches Ok(job) ==> Some(job.input@) == text_of(environment.input) && Some(
            job.output@,
        ) == text_of(environment.output) && text_of(job.context.title) == text_of(environment.name),
{
}

/// A request not to cut is kept: whatever commercials are found in it, and
/// however sure that is, the recording stays whole.
pub proof fn requests_not_to_cut_are_kept(
    request: JobRequest,
    input: Seq<char>,
    output: Seq<char>,
    context: RecordingContext,
    confidence: int,
    commercials: nat,
)
    requires
        is_request_for(request, input, output, true, context),
        confidence <= 1_000_000,
        commercials > 0,
    ensures
        decision_for(confidence, commercials, request.cut) == Decision::KeepAll,
{
}

} // verus!
