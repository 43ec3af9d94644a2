//! A map keyed by text, kept in order of its keys.

use vstd::prelude::*;
use vstd::string::*;
use crate::text::chars_of;
use crate::text::comes_before;
use crate::text::is_before;
use crate::text::order_is_transitive;
use crate::text::same;
use crate::text::texts_are_ordered;

verus! {

/// A map keyed by text, kept in order of its keys.
#[derive(Debug, Clone)]
pub struct TextMap<V> {
    entries: Vec<(String, V)>,
}

/// Keys in order, and so none of them twice.
pub open spec fn keys_in_order<V>(entries: Seq<(String, V)>) -> bool {
    forall|i: int, j: int|
        0 <= i < j < entries.len() ==> comes_before(
            (#[trigger] entries[i]).0@,
            (#[trigger] entries[j]).0@,
        )
}

/// The map some entries make.
pub open spec fn map_of<V>(entries: Seq<(String, V)>) -> Map<Seq<char>, V>
    decreases entries.len(),
{
    if entries.len() == 0 {
        Map::empty()
    } else {
        map_of(entries.drop_last()).insert(entries.last().0@, entries.last().1)
    }
}

/// What a map holds is exactly what its entries say.
proof fn map_matches_entries<V>(entries: Seq<(String, V)>)
    requires
        keys_in_order(entries),
    ensures
        forall|i: int|
            0 <= i < entries.len() ==> map_of(entries).contains_key((#[trigger] entries[i]).0@)
                && map_of(entries)[entries[i].0@] == entries[i].1,
        forall|key: Seq<char>| #[trigger]
            map_of(entries).contains_key(key) ==> exists|i: int|
                0 <= i < entries.len() && (#[trigger] entries[i]).0@ == key,
    decreases entries.len(),
{
    if entries.len() > 0 {
        let shorter = entries.drop_last();
        let n = entries.len() - 1;
        assert forall|i: int, j: int| 0 <= i < j < shorter.len() implies comes_before(
            (#[trigger] shorter[i]).0@,
            (#[trigger] shorter[j]).0@,
        ) by {
            assert(comes_before(entries[i].0@, entries[j].0@));
        }
        map_matches_entries(shorter);
        assert forall|i: int| 0 <= i < entries.len() implies map_of(entries).contains_key(
            (#[trigger] entries[i]).0@,
        ) && map_of(entries)[entries[i].0@] == entries[i].1 by {
            if i < n {
                assert(shorter[i] == entries[i]);
                assert(comes_before(entries[i].0@, entries[n].0@));
                texts_are_ordered(entries[i].0@, entries[n].0@);
            }
        }
        assert forall|key: Seq<char>| #[trigger] map_of(entries).contains_key(
            key,
        ) implies exists|i: int| 0 <= i < entries.len() && (#[trigger] entries[i]).0@ == key by {
            if key == entries[n].0@ {
                assert(entries[n].0@ == key);
            } else {
                assert(map_of(shorter).contains_key(key));
                let i = choose|i: int| 0 <= i < shorter.len() && (#[trigger] shorter[i]).0@ == key;
                assert(entries[i].0@ == key);
            }
        }
    }
}

impl<V> View for TextMap<V> {
    type V = Map<Seq<char>, V>;

    closed spec fn view(&self) -> Map<Seq<char>, V> {
        map_of(self.entries@)
    }
}

impl<V> TextMap<V> {
    /// The keys are in order.
    pub closed spec fn wf(self) -> bool {
        keys_in_order(self.entries@)
    }

    /// How many keys there are.
    pub closed spec fn spec_len(self) -> nat {
        self.entries@.len()
    }

    /// The key at a place.
    pub closed spec fn key_at(self, i: int) -> Seq<char> {
        self.entries@[i].0@
    }

    /// A map with nothing in it.
    #[must_use]
    pub fn new() -> (map: TextMap<V>)
        ensures
            map.wf(),
            map@ == Map::<Seq<char>, V>::empty(),
            map.spec_len() == 0,
    {
        TextMap { entries: Vec::new() }
    }

    /// How many keys there are.
    #[must_use]
    pub fn len(&self) -> (count: usize)
        ensures
            count == self.spec_len(),
    {
        self.entries.len()
    }

    /// Whether there are no keys.
    #[must_use]
    pub fn is_empty(&self) -> (empty: bool)
        ensures
            empty == (self.spec_len() == 0),
    {
        self.entries.len() == 0
    }

    /// The entry at a place, in order of key.
    #[must_use]
    pub fn entry(&self, i: usize) -> (entry: (&str, &V))
        requires
            self.wf(),
            i < self.spec_len(),
        ensures
            entry.0@ == self.key_at(i as int),
            self@.contains_key(entry.0@),
            *entry.1 == self@[entry.0@],
    {
        proof {
            map_matches_entries(self.entries@);
        }
        (self.entries[i].0.as_str(), &self.entries[i].1)
    }

    /// Where a key is, or where it would go.
    fn place(&self, key: &str) -> (place: (usize, bool))
        requires
            self.wf(),
        ensures
            place.0 <= self.entries@.len(),
            place.1 == self@.contains_key(key@),
            place.1 ==> place.0 < self.entries@.len() && self.entries@[place.0 as int].0@ == key@,
            forall|i: int|
                0 <= i < place.0 ==> comes_before((#[trigger] self.entries@[i]).0@, key@),
            !place.1 ==> forall|i: int|
                place.0 <= i < self.entries@.len() ==> comes_before(
                    key@,
                    (#[trigger] self.entries@[i]).0@,
                ),
    {
        let wanted = chars_of(key);
        let mut at: usize = 0;
        while at < self.entries.len() && is_before(
            &chars_of(self.entries[at].0.as_str()),
            &wanted,
        )
            invariant
                at <= self.entries@.len(),
                wanted@ == key@,
                forall|i: int| 0 <= i < at ==> comes_before((#[trigger] self.entries@[i]).0@, key@),
            decreases self.entries@.len() - at,
        {
            at += 1;
        }
        let found = at < self.entries.len() && same(
            &chars_of(self.entries[at].0.as_str()),
            &wanted,
        );
        proof {
            map_matches_entries(self.entries@);
            if found {
                assert(self@.contains_key(self.entries@[at as int].0@));
            } else {
                assert forall|i: int| at <= i < self.entries@.len() implies comes_before(
                    key@,
                    (#[trigger] self.entries@[i]).0@,
                ) by {
                    texts_are_ordered(self.entries@[at as int].0@, key@);
                    if i > at {
                        assert(comes_before(self.entries@[at as int].0@, self.entries@[i].0@));
                        order_is_transitive(
                            key@,
                            self.entries@[at as int].0@,
                            self.entries@[i].0@,
                        );
                    }
                }
                if self@.contains_key(key@) {
                    let i = choose|i: int|
                        0 <= i < self.entries@.len() && (#[trigger] self.entries@[i]).0@ == key@;
                    texts_are_ordered(self.entries@[i].0@, key@);
                }
            }
        }
        (at, found)
    }

    /// Whether a key is there.
    #[must_use]
    pub fn contains_key(&self, key: &str) -> (found: bool)
        requires
            self.wf(),
        ensures
            found == self@.contains_key(key@),
    {
        self.place(key).1
    }

    /// What a key maps to.
    #[must_use]
    pub fn get(&self, key: &str) -> (value: Option<&V>)
        requires
            self.wf(),
        ensures
            match value {
                Some(value) => self@.contains_key(key@) && *value == self@[key@],
                None => !self@.contains_key(key@),
            },
    {
        let (at, found) = self.place(key);
        if found {
            proof {
                map_matches_entries(self.entries@);
            }
            Some(&self.entries[at].1)
        } else {
            None
        }
    }

    /// Map a key to a value, in place of whatever it mapped to.
    pub fn insert(&mut self, key: String, value: V)
        requires
            old(self).wf(),
        ensures
            final(self).wf(),
            final(self)@ == old(self)@.insert(key@, value),
            final(self).spec_len() == old(self).spec_len() + if old(self)@.contains_key(key@) {
                0nat
            } else {
                1
            },
    {
        let (at, found) = self.place(key.as_str());
        let ghost before = self.entries@;
        let ghost wanted = key@;
        proof {
            map_matches_entries(before);
        }
        if found {
            self.entries.set(at, (key, value));
        } else {
            self.entries.insert(at, (key, value));
        }
        let ghost after = self.entries@;
        proof {
            assert forall|i: int, j: int| 0 <= i < j < after.len() implies comes_before(
                (#[trigger] after[i]).0@,
                (#[trigger] after[j]).0@,
            ) by {
                if found {
                    assert(comes_before(before[i].0@, before[j].0@));
                } else {
                    let a = if i < at { i } else { i - 1 };
                    let b = if j < at { j } else { j - 1 };
                    if i != at && j != at {
                        assert(comes_before(before[a].0@, before[b].0@));
                    }
                }
            }
            map_matches_entries(after);
            let left = map_of(after);
            let right = map_of(before).insert(wanted, value);
            assert(after[at as int].0@ == wanted);
            assert forall|k: Seq<char>| #[trigger] left.contains_key(k) <==> right.contains_key(
                k,
            ) by {
                if left.contains_key(k) {
                    let i = choose|i: int| 0 <= i < after.len() && (#[trigger] after[i]).0@ == k;
                    if i != at {
                        let b = if found || i < at { i } else { i - 1 };
                        assert(before[b].0@ == k);
                    }
                }
                if map_of(before).contains_key(k) {
                    let i = choose|i: int| 0 <= i < before.len() && (#[trigger] before[i]).0@ == k;
                    let a = if found || i < at { i } else { i + 1 };
                    assert(after[a].0@ == k);
                }
            }
            assert forall|k: Seq<char>| #[trigger] left.contains_key(k) implies left[k]
                == right[k] by {
                let i = choose|i: int| 0 <= i < after.len() && (#[trigger] after[i]).0@ == k;
                if i != at {
                    let b = if found || i < at { i } else { i - 1 };
                    assert(before[b] == after[i]);
                    if k == wanted {
                        if i < at {
                            assert(comes_before(after[i].0@, after[at as int].0@));
                        } else {
                            assert(comes_before(after[at as int].0@, after[i].0@));
                        }
                        texts_are_ordered(k, k);
                    }
                }
            }
            assert(left =~= right);
        }
    }

    /// Forget a key, returning what it mapped to.
    pub fn remove(&mut self, key: &str) -> (value: Option<V>)
        requires
            old(self).wf(),
        ensures
            final(self).wf(),
            final(self)@ == old(self)@.remove(key@),
            match value {
                Some(value) => old(self)@.contains_key(key@) && value == old(self)@[key@],
                None => !old(self)@.contains_key(key@),
            },
            final(self).spec_len() + (if old(self)@.contains_key(key@) {
                1nat
            } else {
                0
            }) == old(self).spec_len(),
    {
        let (at, found) = self.place(key);
        let ghost before = self.entries@;
        proof {
            map_matches_entries(before);
        }
        if !found {
            assert(map_of(before) =~= map_of(before).remove(key@));
            return None;
        }
        let (_key, value) = self.entries.remove(at);
        let ghost after = self.entries@;
        proof {
            assert forall|i: int, j: int| 0 <= i < j < after.len() implies comes_before(
                (#[trigger] after[i]).0@,
                (#[trigger] after[j]).0@,
            ) by {
                let a = if i < at { i } else { i + 1 };
                let b = if j < at { j } else { j + 1 };
                assert(comes_before(before[a].0@, before[b].0@));
            }
            map_matches_entries(after);
            let left = map_of(after);
            let right = map_of(before).remove(key@);
            assert forall|k: Seq<char>| #[trigger] left.contains_key(k) <==> right.contains_key(
                k,
            ) by {
                if left.contains_key(k) {
                    let i = choose|i: int| 0 <= i < after.len() && (#[trigger] after[i]).0@ == k;
                    let b = if i < at { i } else { i + 1 };
                    assert(before[b].0@ == k);
                    if b < at {
                        assert(comes_before(before[b].0@, before[at as int].0@));
                    } else {
                        assert(comes_before(before[at as int].0@, before[b].0@));
                    }
                    texts_are_ordered(key@, key@);
                }
                if right.contains_key(k) {
                    let i = choose|i: int| 0 <= i < before.len() && (#[trigger] before[i]).0@ == k;
                    let a = if i < at { i } else { i - 1 };
                    assert(after[a].0@ == k);
                }
            }
            assert forall|k: Seq<char>| #[trigger] left.contains_key(k) implies left[k]
                == right[k] by {
                let i = choose|i: int| 0 <= i < after.len() && (#[trigger] after[i]).0@ == k;
                let b = if i < at { i } else { i + 1 };
                assert(before[b] == after[i]);
            }
            assert(left =~= right);
        }
        Some(value)
    }
}

/// The entries of a map are its keys, each once and in order.
pub proof fn entries_are_the_keys_in_order<V>(map: TextMap<V>)
    requires
        map.wf(),
    ensures
        forall|i: int|
            0 <= i < map.spec_len() ==> map@.contains_key(#[trigger] map.key_at(i)),
        forall|key: Seq<char>| #[trigger]
            map@.contains_key(key) ==> exists|i: int|
                0 <= i < map.spec_len() && #[trigger] map.key_at(i) == key,
        forall|i: int, j: int|
            0 <= i < j < map.spec_len() ==> comes_before(
                #[trigger] map.key_at(i),
                #[trigger] map.key_at(j),
            ),
{
    map_matches_entries(map.entries@);
    assert forall|key: Seq<char>| #[trigger] map@.contains_key(key) implies exists|i: int|
        0 <= i < map.spec_len() && #[trigger] map.key_at(i) == key by {
        let i = choose|i: int|
            0 <= i < map.entries@.len() && (#[trigger] map.entries@[i]).0@ == key;
        assert(map.key_at(i) == key);
    }
}

} // verus!
