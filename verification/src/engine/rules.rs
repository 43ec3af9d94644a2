//! Choosing how to treat a recording, from what is known about it.
//!
//! Per-channel settings cover the case where a whole channel wants treating
//! differently. Rules cover the rest: a drama in high definition deserves a
//! better profile than a five-minute news bulletin, and a programme somebody
//! is waiting for deserves to jump the queue.
//!
//! First match wins, in file order, so the file reads as a list of exceptions
//! with the general case last, which is how somebody writing one thinks.

use vstd::prelude::*;
use vstd::string::*;
use crate::text::chars_of;
use crate::text::contains;
use crate::text::lower;
use crate::text::lowered;
use crate::text::occurs_in;
use crate::text::same_option;
use crate::text::text_of;

verus! {

/// What is known about a recording when the rules are consulted.
#[derive(Debug, Clone)]
pub struct Candidate {
    /// Channel id, as `EPGStation` sends it.
    pub channel_id: Option<String>,
    /// Programme title.
    pub title: Option<String>,
    /// Source path.
    pub path: Option<String>,
    /// Coded picture height, once the source has been probed.
    pub height: Option<u32>,
}

/// What is known about a recording, its text read as characters.
pub ghost struct CandidateView {
    /// Channel id.
    pub channel_id: Option<Seq<char>>,
    /// Programme title.
    pub title: Option<Seq<char>>,
    /// Source path.
    pub path: Option<Seq<char>>,
    /// Coded picture height.
    pub height: Option<u32>,
}

impl View for Candidate {
    type V = CandidateView;

    open spec fn view(&self) -> CandidateView {
        CandidateView {
            channel_id: text_of(self.channel_id),
            title: text_of(self.title),
            path: text_of(self.path),
            height: self.height,
        }
    }
}

impl Default for Candidate {
    fn default() -> (candidate: Candidate)
        ensures
            candidate == (Candidate { channel_id: None, title: None, path: None, height: None }),
    {
        Candidate { channel_id: None, title: None, path: None, height: None }
    }
}

/// One rule: what to match, and what to do about it.
///
/// Every condition left unset matches anything, so a rule with no conditions
/// is the catch-all: useful as the last entry, and a mistake anywhere else.
#[derive(Debug, Clone, PartialEq, Eq)]
pub struct Rule {
    /// What this rule is for, so a file of them can be read.
    pub name: Option<String>,
    /// Match only this channel.
    pub channel_id: Option<String>,
    /// Match when the title contains this, ignoring case.
    pub title_contains: Option<String>,
    /// Match when the source path contains this, ignoring case.
    pub path_contains: Option<String>,
    /// Match only pictures at least this tall.
    pub min_height: Option<u32>,
    /// Encoding profile to use.
    pub profile: Option<String>,
    /// Queue priority; higher runs first.
    pub priority: Option<i64>,
    /// Whether to look for commercials.
    pub detect_commercials: Option<bool>,
}

impl Default for Rule {
    fn default() -> (rule: Rule)
        ensures
            rule == (Rule {
                name: None,
                channel_id: None,
                title_contains: None,
                path_contains: None,
                min_height: None,
                profile: None,
                priority: None,
                detect_commercials: None,
            }),
    {
        Rule {
            name: None,
            channel_id: None,
            title_contains: None,
            path_contains: None,
            min_height: None,
            profile: None,
            priority: None,
            detect_commercials: None,
        }
    }
}

/// A text is known and contains another, ignoring case.
///
/// A title is written by a broadcaster and a rule by a person, and neither is
/// thinking about the other's capitalisation.
pub open spec fn mentions(text: Option<Seq<char>>, wanted: Seq<char>) -> bool {
    text matches Some(text) && occurs_in(lowered(text), lowered(wanted))
}

fn does_mention(text: &Option<String>, wanted: &String) -> (yes: bool)
    ensures
        yes == mentions(text_of(*text), wanted@),
{
    match text {
        Some(text) => contains(
            &chars_of(lower(text.as_str()).as_str()),
            &chars_of(lower(wanted.as_str()).as_str()),
        ),
        None => false,
    }
}

impl Rule {
    /// Every condition that is set holds. One about something unknown does
    /// not: better to fall through to a more general rule than to guess.
    pub open spec fn applies_to(self, candidate: CandidateView) -> bool {
        &&& self.channel_id matches Some(channel) ==> candidate.channel_id == Some(channel@)
        &&& self.title_contains matches Some(wanted) ==> mentions(candidate.title, wanted@)
        &&& self.path_contains matches Some(wanted) ==> mentions(candidate.path, wanted@)
        &&& self.min_height matches Some(minimum) ==> (candidate.height matches Some(height)
            && height >= minimum)
    }

    /// Whether this rule applies to `candidate`.
    #[must_use]
    pub fn matches(&self, candidate: &Candidate) -> (applies: bool)
        ensures
            applies == self.applies_to(candidate@),
    {
        if let Some(channel) = &self.channel_id {
            if !same_option(&candidate.channel_id, channel.as_str()) {
                return false;
            }
        }
        if let Some(wanted) = &self.title_contains {
            if !does_mention(&candidate.title, wanted) {
                return false;
            }
        }
        if let Some(wanted) = &self.path_contains {
            if !does_mention(&candidate.path, wanted) {
                return false;
            }
        }
        if let Some(minimum) = self.min_height {
            match candidate.height {
                Some(height) => {
                    if height < minimum {
                        return false;
                    }
                },
                None => {
                    return false;
                },
            }
        }
        true
    }
}

/// The first rule that applies.
pub open spec fn first_of(rules: Seq<Rule>, candidate: CandidateView) -> Option<Rule>
    decreases rules.len(),
{
    if rules.len() == 0 {
        None
    } else if rules[0].applies_to(candidate) {
        Some(rules[0])
    } else {
        first_of(rules.skip(1), candidate)
    }
}

/// The rules, in the order they are tried.
#[derive(Debug, Clone)]
pub struct RuleSet {
    /// The rules, in the order they are tried.
    pub rules: Vec<Rule>,
}

impl RuleSet {
    /// Rules in this order.
    #[must_use]
    pub fn new(rules: Vec<Rule>) -> (set: RuleSet)
        ensures
            set.rules == rules,
    {
        RuleSet { rules }
    }

    /// Every rule, in order.
    #[must_use]
    pub fn all(&self) -> (rules: &[Rule])
        ensures
            rules@ == self.rules@,
    {
        &self.rules
    }

    /// The first rule that applies, if any.
    #[must_use]
    pub fn first_match(&self, candidate: &Candidate) -> (found: Option<&Rule>)
        ensures
            (match found {
                Some(rule) => Some(*rule),
                None => None,
            }) == first_of(self.rules@, candidate@),
    {
        assert(self.rules@.skip(0) =~= self.rules@);
        for i in 0..self.rules.len()
            invariant
                first_of(self.rules@, candidate@) == first_of(
                    self.rules@.skip(i as int),
                    candidate@,
                ),
        {
            assert(self.rules@.skip(i as int)[0] == self.rules@[i as int]);
            assert(self.rules@.skip(i as int).skip(1) =~= self.rules@.skip(i + 1));
            if self.rules[i].matches(candidate) {
                return Some(&self.rules[i]);
            }
        }
        assert(self.rules@.skip(self.rules@.len() as int) =~= Seq::empty());
        None
    }

    /// Replace the whole list.
    ///
    /// All of them at once because their *order* is part of their meaning, and
    /// editing one in isolation cannot express a change of order.
    pub fn replace(&mut self, rules: Vec<Rule>)
        ensures
            final(self).rules == rules,
    {
        self.rules = rules;
    }
}

/// A text holds another, which stands in it at some place.
pub open spec fn stands_in(text: Seq<char>, wanted: Seq<char>) -> bool {
    exists|at: int|
        0 <= at <= text.len() - wanted.len() && #[trigger] text.subrange(at, at + wanted.len())
            == wanted
}

proof fn occurring_is_standing_in(text: Seq<char>, wanted: Seq<char>)
    ensures
        occurs_in(text, wanted) <==> stands_in(text, wanted),
{
    if occurs_in(text, wanted) {
        let k = choose|k: int| crate::text::occurs_at(text, wanted, k);
        assert(text.subrange(k, k + wanted.len()) == wanted);
    }
    if stands_in(text, wanted) {
        let k = choose|k: int|
            0 <= k <= text.len() - wanted.len() && #[trigger] text.subrange(k, k + wanted.len())
                == wanted;
        assert(crate::text::occurs_at(text, wanted, k));
    }
}

/// A rule asks for what it asks for: one that names a channel applies to no
/// other, one that asks for a text in the title or in the path applies only
/// where that text stands in it, ignoring case, and one that asks for a height
/// applies only to pictures that are as tall. Of something unknown nothing that
/// is asked holds.
pub proof fn rules_apply_only_where_they_should(rule: Rule, candidate: CandidateView)
    requires
        rule.applies_to(candidate),
    ensures
        rule.channel_id matches Some(channel) ==> (candidate.channel_id matches Some(known)
            && known == channel@),
        rule.title_contains matches Some(wanted) ==> (candidate.title matches Some(title)
            && stands_in(lowered(title), lowered(wanted@))),
        rule.path_contains matches Some(wanted) ==> (candidate.path matches Some(path) && stands_in(
            lowered(path),
            lowered(wanted@),
        )),
        rule.min_height matches Some(minimum) ==> (candidate.height matches Some(height) && minimum
            <= height),
{
    if let (Some(wanted), Some(title)) = (rule.title_contains, candidate.title) {
        occurring_is_standing_in(lowered(title), lowered(wanted@));
    }
    if let (Some(wanted), Some(path)) = (rule.path_contains, candidate.path) {
        occurring_is_standing_in(lowered(path), lowered(wanted@));
    }
}

/// A rule applies wherever everything it asks for is there, whatever else is
/// known of the recording.
pub proof fn rules_apply_wherever_they_should(rule: Rule, candidate: CandidateView)
    requires
        rule.channel_id matches Some(channel) ==> candidate.channel_id == Some(channel@),
        rule.title_contains matches Some(wanted) ==> (candidate.title matches Some(title)
            && stands_in(lowered(title), lowered(wanted@))),
        rule.path_contains matches Some(wanted) ==> (candidate.path matches Some(path) && stands_in(
            lowered(path),
            lowered(wanted@),
        )),
        rule.min_height matches Some(minimum) ==> (candidate.height matches Some(height) && minimum
            <= height),
    ensures
        rule.applies_to(candidate),
{
    if let (Some(wanted), Some(title)) = (rule.title_contains, candidate.title) {
        occurring_is_standing_in(lowered(title), lowered(wanted@));
    }
    if let (Some(wanted), Some(path)) = (rule.path_contains, candidate.path) {
        occurring_is_standing_in(lowered(path), lowered(wanted@));
    }
}

/// Asking for less matches more: a rule with one of its conditions left out
/// applies wherever it did with it. What the rule is called and what it does
/// have no part in whether it applies.
pub proof fn asking_less_matches_more(rule: Rule, other: Rule, candidate: CandidateView)
    requires
        rule.applies_to(candidate),
    ensures
        (Rule { channel_id: None, ..rule }).applies_to(candidate),
        (Rule { title_contains: None, ..rule }).applies_to(candidate),
        (Rule { path_contains: None, ..rule }).applies_to(candidate),
        (Rule { min_height: None, ..rule }).applies_to(candidate),
        (Rule {
            name: other.name,
            profile: other.profile,
            priority: other.priority,
            detect_commercials: other.detect_commercials,
            ..rule
        }).applies_to(candidate),
{
}

/// The rule that is taken is the first that applies: it stands in the list, it
/// applies, and none before it does. None is taken only where none applies.
pub proof fn the_first_match_wins(rules: Seq<Rule>, candidate: CandidateView)
    ensures
        match first_of(rules, candidate) {
            Some(rule) => exists|i: int|
                0 <= i < rules.len() && #[trigger] rules[i] == rule && rule.applies_to(candidate)
                    && forall|k: int| 0 <= k < i ==> !(#[trigger] rules[k]).applies_to(candidate),
            None => forall|k: int|
                0 <= k < rules.len() ==> !(#[trigger] rules[k]).applies_to(candidate),
        },
    decreases rules.len(),
{
    if rules.len() > 0 && !rules[0].applies_to(candidate) {
        let rest = rules.skip(1);
        the_first_match_wins(rest, candidate);
        match first_of(rules, candidate) {
            Some(rule) => {
                let i = choose|i: int|
                    0 <= i < rest.len() && #[trigger] rest[i] == rule && rule.applies_to(candidate)
                        && forall|k: int|
                        0 <= k < i ==> !(#[trigger] rest[k]).applies_to(candidate);
                assert(rules[i + 1] == rule);
                assert forall|k: int| 0 <= k < i + 1 implies !(#[trigger] rules[k]).applies_to(
                    candidate,
                ) by {
                    if k > 0 {
                        assert(rest[k - 1] == rules[k]);
                    }
                }
            },
            None => {
                assert forall|k: int| 0 <= k < rules.len() implies !(
                #[trigger] rules[k]).applies_to(candidate) by {
                    if k > 0 {
                        assert(rest[k - 1] == rules[k]);
                    }
                }
            },
        }
    } else if rules.len() > 0 {
        assert(rules[0].applies_to(candidate));
    }
}

/// A rule with no conditions matches anything.
pub proof fn the_catch_all_matches_anything(rule: Rule, candidate: CandidateView)
    requires
        rule.channel_id is None,
        rule.title_contains is None,
        rule.path_contains is None,
        rule.min_height is None,
    ensures
        rule.applies_to(candidate),
{
}

/// A catch-all anywhere but last hides everything after it: with one in the
/// list, some rule always applies, and none beyond it ever does.
pub proof fn a_catch_all_hides_what_follows(
    rules: Seq<Rule>,
    later: Seq<Rule>,
    catch_all: Rule,
    candidate: CandidateView,
)
    requires
        catch_all.channel_id is None,
        catch_all.title_contains is None,
        catch_all.path_contains is None,
        catch_all.min_height is None,
    ensures
        first_of(rules.push(catch_all) + later, candidate) is Some,
        first_of(rules.push(catch_all) + later, candidate) == first_of(
            rules.push(catch_all),
            candidate,
        ),
    decreases rules.len(),
{
    let all = rules.push(catch_all) + later;
    let short = rules.push(catch_all);
    assert(all[0] == short[0]);
    if rules.len() == 0 {
        assert(all[0] == catch_all);
    } else {
        a_catch_all_hides_what_follows(rules.skip(1), later, catch_all, candidate);
        assert(all.skip(1) =~= rules.skip(1).push(catch_all) + later);
        assert(short.skip(1) =~= rules.skip(1).push(catch_all));
    }
}

} // verus!
