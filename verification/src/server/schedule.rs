//! When the queue is allowed to work.
//!
//! A recording box is usually somebody's home server, and an encode saturates
//! a GPU and most of a CPU for an hour. So work may be kept to some hours of
//! the day, and the machine is quiet while anybody is using it, or watching
//! television on it, which is the same machine.
//!
//! Deliberately hours rather than a cron expression. The question being
//! answered is "may I start something now", asked every couple of seconds, and
//! an hour is the finest granularity that question deserves.

use chrono::Timelike;
use vstd::prelude::*;
use vstd::string::*;
use crate::text::join;
use crate::text::joined;
use crate::text::min_digits;
use crate::text::push_min_digits;
use crate::text::push_copy;
use crate::text::texts;

verus! {

/// `chrono::Local::now().hour()`: the hour by the machine's own clock and time
/// zone. Claimed: it is an hour of the day.
#[verifier::external_body]
fn local_hour() -> (hour: u32)
    ensures
        hour < 24,
{
    chrono::Local::now().hour()
}

/// The hours before `limit` that a list names, in order and each once.
pub open spec fn tidied(hours: Seq<u32>, limit: nat) -> Seq<u32>
    decreases limit,
{
    if limit == 0 {
        Seq::empty()
    } else {
        let rest = tidied(hours, (limit - 1) as nat);
        if hours.contains((limit - 1) as u32) {
            rest.push((limit - 1) as u32)
        } else {
            rest
        }
    }
}

/// Hours in runs: each from its first hour to the end of its last.
pub open spec fn runs_of(hours: Seq<u32>) -> Seq<(u32, u32)>
    decreases hours.len(),
{
    if hours.len() == 0 {
        Seq::empty()
    } else {
        let rest = runs_of(hours.drop_last());
        let hour = hours.last();
        if rest.len() > 0 && rest.last().1 == hour {
            rest.drop_last().push((rest.last().0, (hour + 1) as u32))
        } else {
            rest.push((hour, (hour + 1) as u32))
        }
    }
}

/// A run as it is written: from its first hour to the end of its last.
pub open spec fn span_text(run: (u32, u32)) -> Seq<char> {
    min_digits(run.0 as nat, 2) + ":00-"@ + min_digits(run.1 as nat, 2) + ":00"@
}

/// The hours during which jobs may run.
#[derive(Debug, Clone, PartialEq, Eq)]
pub struct RunHours {
    hours: Vec<u32>,
}

impl View for RunHours {
    type V = Seq<u32>;

    closed spec fn view(&self) -> Seq<u32> {
        self.hours@
    }
}

impl Default for RunHours {
    fn default() -> (schedule: RunHours)
        ensures
            schedule@ == Seq::<u32>::empty(),
            schedule.wf(),
    {
        proof {
            tidying_keeps_hours(Seq::empty(), 24);
            let tidy = tidied(Seq::empty(), 24);
            if tidy.len() > 0 {
                assert(tidy.contains(tidy[0]));
            }
            assert(tidy =~= Seq::empty());
        }
        RunHours { hours: Vec::new() }
    }
}

fn names(hours: &[u32], hour: u32) -> (found: bool)
    ensures
        found == hours@.contains(hour),
{
    for i in 0..hours.len()
        invariant
            forall|k: int| 0 <= k < i ==> hours@[k] != hour,
    {
        if hours[i] == hour {
            return true;
        }
    }
    false
}

impl RunHours {
    /// Hours of the day, in order.
    pub open spec fn wf(self) -> bool {
        self@ == tidied(self@, 24)
    }

    /// A schedule allowing the given hours.
    ///
    /// It arrives from a hand-edited configuration file, so it is put in
    /// order, repeats count once, and an impossible hour is dropped rather
    /// than wrapped into a real one it was never meant to name.
    #[must_use]
    pub fn new(hours: &[u32]) -> (schedule: RunHours)
        ensures
            schedule@ == tidied(hours@, 24),
            schedule.wf(),
    {
        let mut tidy: Vec<u32> = Vec::new();
        for hour in 0..24u32
            invariant
                tidy@ == tidied(hours@, hour as nat),
        {
            if names(hours, hour) {
                tidy.push(hour);
            }
        }
        let schedule = RunHours { hours: tidy };
        proof {
            tidying_keeps_hours(hours@, 24);
            tidying_is_idempotent(hours@, schedule@, 24);
        }
        schedule
    }

    /// Whether any restriction applies at all.
    #[must_use]
    pub fn is_unrestricted(&self) -> (yes: bool)
        ensures
            yes == (self@.len() == 0),
    {
        self.hours.len() == 0
    }

    /// Work may start at an hour.
    pub open spec fn allows(self, hour: u32) -> bool {
        self@.len() == 0 || self@.contains(hour)
    }

    /// Whether work may start at `hour`.
    #[must_use]
    pub fn allows_hour(&self, hour: u32) -> (yes: bool)
        ensures
            yes == self.allows(hour),
    {
        self.is_unrestricted() || names(&self.hours, hour)
    }

    /// Whether work may start now, by the machine's own clock.
    ///
    /// Local time rather than UTC: somebody setting "01 to 06" means the small
    /// hours where they live, not in Greenwich.
    #[must_use]
    pub fn allows_now(&self) -> (yes: bool)
        ensures
            exists|hour: u32| hour < 24 && yes == #[trigger] self.allows(hour),
    {
        let hour: u32 = local_hour();
        self.allows_hour(hour)
    }

    /// The hours, in order, for reporting.
    #[must_use]
    pub fn hours(&self) -> (hours: &[u32])
        ensures
            hours@ == self@,
    {
        &self.hours
    }

    /// The schedule in words: spans rather than a list of twenty numbers.
    pub open spec fn description(self) -> Seq<char> {
        if self@.len() == 0 {
            "any time"@
        } else {
            joined(
                runs_of(self@).map_values(|run: (u32, u32)| span_text(run)),
                ", "@,
            )
        }
    }

    /// A description an operator can check against what they meant.
    #[must_use]
    pub fn describe(&self) -> (text: String)
        requires
            self.wf(),
        ensures
            text@ == self.description(),
    {
        if self.is_unrestricted() {
            return "any time".to_owned();
        }
        proof {
            tidying_keeps_hours(self@, 24);
        }
        let mut runs: Vec<(u32, u32)> = Vec::new();
        assert(self@.take(0) =~= Seq::empty());
        for i in 0..self.hours.len()
            invariant
                forall|k: int| 0 <= k < self@.len() ==> #[trigger] self@[k] < 24,
                runs@ == runs_of(self@.take(i as int)),
        {
            let hour: u32 = self.hours[i];
            assert(self@[i as int] == hour);
            assert(self@.take(i + 1).drop_last() =~= self@.take(i as int));
            assert(self@.take(i + 1).last() == hour);
            let count: usize = runs.len();
            if count > 0 && runs[count - 1].1 == hour {
                let start: u32 = runs[count - 1].0;
                runs.set(count - 1, (start, hour + 1));
                assert(runs@ =~= runs_of(self@.take(i + 1)));
            } else {
                runs.push((hour, hour + 1));
            }
        }
        assert(self@.take(self@.len() as int) =~= self@);
        let ghost wanted = runs_of(self@).map_values(|run: (u32, u32)| span_text(run));
        let mut spans: Vec<String> = Vec::new();
        for i in 0..runs.len()
            invariant
                runs@ == runs_of(self@),
                wanted == runs_of(self@).map_values(|run: (u32, u32)| span_text(run)),
                texts(spans@) =~= wanted.take(i as int),
        {
            let mut span = String::new();
            push_min_digits(&mut span, runs[i].0 as u64, 2);
            span.append(":00-");
            push_min_digits(&mut span, runs[i].1 as u64, 2);
            span.append(":00");
            assert(span@ =~= span_text(runs@[i as int]));
            push_copy(&mut spans, span.as_str());
            assert(wanted.take(i + 1) =~= wanted.take(i as int).push(wanted[i as int]));
        }
        assert(wanted.take(wanted.len() as int) =~= wanted);
        join(&spans, ", ")
    }
}

/// A tidied list names exactly the hours before the limit that the list named,
/// in order and each once.
pub proof fn tidying_keeps_hours(hours: Seq<u32>, limit: nat)
    requires
        limit <= 24,
    ensures
        forall|hour: u32|
            #[trigger] tidied(hours, limit).contains(hour) <==> hours.contains(hour) && hour
                < limit,
        forall|i: int|
            0 <= i < tidied(hours, limit).len() ==> #[trigger] tidied(hours, limit)[i] < limit,
        forall|i: int, j: int|
            0 <= i < j < tidied(hours, limit).len() ==> #[trigger] tidied(hours, limit)[i]
                < #[trigger] tidied(hours, limit)[j],
    decreases limit,
{
    if limit > 0 {
        let before = (limit - 1) as nat;
        tidying_keeps_hours(hours, before);
        let rest = tidied(hours, before);
        let all = tidied(hours, limit);
        assert forall|hour: u32| #[trigger] all.contains(hour) <==> hours.contains(hour) && hour
            < limit by {
            if all.contains(hour) {
                let i = choose|i: int| 0 <= i < all.len() && all[i] == hour;
                if i < rest.len() {
                    assert(rest[i] == hour);
                    assert(rest.contains(hour));
                }
            }
            if hours.contains(hour) && hour < limit {
                if hour < before {
                    assert(rest.contains(hour));
                    let i = choose|i: int| 0 <= i < rest.len() && rest[i] == hour;
                    assert(all[i] == hour);
                } else {
                    assert(all.last() == hour);
                }
            }
        }
    }
}

/// Two lists that name the same hours before a limit are tidied alike.
proof fn tidying_is_idempotent(left: Seq<u32>, right: Seq<u32>, limit: nat)
    requires
        limit <= 24,
        forall|hour: u32| hour < limit ==> (left.contains(hour) <==> #[trigger] right.contains(
            hour,
        )),
    ensures
        tidied(left, limit) == tidied(right, limit),
    decreases limit,
{
    if limit > 0 {
        tidying_is_idempotent(left, right, (limit - 1) as nat);
        assert(left.contains((limit - 1) as u32) <==> right.contains((limit - 1) as u32));
    }
}

/// An hour lies in one of the runs.
pub open spec fn in_a_run(runs: Seq<(u32, u32)>, hour: u32) -> bool {
    exists|i: int| 0 <= i < runs.len() && (#[trigger] runs[i]).0 <= hour < runs[i].1
}

/// A schedule reads back as the hours somebody meant: an hour lies in one of
/// the spans exactly when it is one of the hours.
pub proof fn spans_cover_the_hours(hours: Seq<u32>, hour: u32)
    requires
        forall|i: int| 0 <= i < hours.len() ==> #[trigger] hours[i] < 24,
    ensures
        in_a_run(runs_of(hours), hour) <==> hours.contains(hour),
        forall|i: int|
            0 <= i < runs_of(hours).len() ==> (#[trigger] runs_of(hours)[i]).0
                < runs_of(hours)[i].1 <= 24,
    decreases hours.len(),
{
    if hours.len() > 0 {
        let shorter = hours.drop_last();
        assert forall|i: int| 0 <= i < shorter.len() implies #[trigger] shorter[i] < 24 by {
            assert(hours[i] < 24);
        }
        spans_cover_the_hours(shorter, hour);
        let rest = runs_of(shorter);
        let all = runs_of(hours);
        let last = hours[hours.len() - 1];
        if in_a_run(all, hour) {
            let i = choose|i: int| 0 <= i < all.len() && (#[trigger] all[i]).0 <= hour < all[i].1;
            if hour == last {
                assert(hours.contains(hour));
            } else {
                assert(rest[i].0 <= hour < rest[i].1);
                assert(in_a_run(rest, hour));
                let k = choose|k: int| 0 <= k < shorter.len() && shorter[k] == hour;
                assert(hours[k] == hour);
            }
        }
        if hours.contains(hour) {
            let k = choose|k: int| 0 <= k < hours.len() && hours[k] == hour;
            if k == hours.len() - 1 {
                assert(all[all.len() - 1].0 <= hour < all[all.len() - 1].1) by {
                    if rest.len() > 0 {
                        assert(rest[rest.len() - 1].0 < rest[rest.len() - 1].1);
                    }
                }
            } else {
                assert(shorter[k] == hour);
                assert(in_a_run(rest, hour));
                let i = choose|i: int|
                    0 <= i < rest.len() && (#[trigger] rest[i]).0 <= hour < rest[i].1;
                assert(all[i].0 <= hour < all[i].1);
            }
        }
        assert forall|i: int| 0 <= i < all.len() implies (#[trigger] all[i]).0 < all[i].1
            <= 24 by {
            if i < rest.len() {
                assert(rest[i].0 < rest[i].1 <= 24);
            }
        }
    } else {
        assert(runs_of(hours) =~= Seq::empty());
    }
}

} // verus!
