//! Small facts about sequences that loops building one lean on.

use vstd::prelude::*;

verus! {

/// Filtering one more element appends it or leaves the result alone.
pub proof fn filter_step<T>(s: Seq<T>, keep: spec_fn(T) -> bool, i: int)
    requires
        0 <= i < s.len(),
    ensures
        s.take(i + 1).filter(keep) == if keep(s[i]) {
            s.take(i).filter(keep).push(s[i])
        } else {
            s.take(i).filter(keep)
        },
{
    reveal(Seq::filter);
    assert(s.take(i + 1).drop_last() =~= s.take(i));
    assert(s.take(i + 1).last() == s[i]);
}

/// Filtering nothing leaves nothing, and filtering everything is filtering.
pub proof fn filter_ends<T>(s: Seq<T>, keep: spec_fn(T) -> bool)
    ensures
        s.take(0).filter(keep) == Seq::<T>::empty(),
        s.take(s.len() as int) == s,
{
    reveal(Seq::filter);
    assert(s.take(s.len() as int) =~= s);
}

/// Everything a filter keeps was there before and passes, and a filter keeps
/// everything that was there and passes.
pub proof fn filter_contents<T>(s: Seq<T>, keep: spec_fn(T) -> bool)
    ensures
        s.filter(keep).len() <= s.len(),
        forall|i: int|
            0 <= i < s.filter(keep).len() ==> keep(#[trigger] s.filter(keep)[i]) && s.contains(
                s.filter(keep)[i],
            ),
        forall|i: int|
            0 <= i < s.len() && keep(#[trigger] s[i]) ==> s.filter(keep).contains(s[i]),
    decreases s.len(),
{
    reveal(Seq::filter);
    if s.len() > 0 {
        let shorter = s.drop_last();
        filter_contents(shorter, keep);
        let kept = shorter.filter(keep);
        assert forall|i: int| 0 <= i < s.filter(keep).len() implies keep(
            #[trigger] s.filter(keep)[i],
        ) && s.contains(s.filter(keep)[i]) by {
            if i < kept.len() {
                assert(s.filter(keep)[i] == kept[i]);
                assert(shorter.contains(kept[i]));
                let p = choose|p: int| 0 <= p < shorter.len() && shorter[p] == kept[i];
                assert(s[p] == kept[i]);
            } else {
                assert(s.filter(keep)[i] == s[s.len() - 1]);
            }
        }
        assert forall|i: int| 0 <= i < s.len() && keep(#[trigger] s[i]) implies s.filter(
            keep,
        ).contains(s[i]) by {
            if i < shorter.len() {
                assert(shorter[i] == s[i]);
                assert(kept.contains(s[i]));
                let p = choose|p: int| 0 <= p < kept.len() && kept[p] == s[i];
                assert(s.filter(keep)[p] == s[i]);
            } else {
                assert(s.filter(keep)[kept.len() as int] == s[i]);
            }
        }
    }
}

/// What a filter keeps and what its opposite keeps add up.
pub proof fn filter_splits<T>(s: Seq<T>, keep: spec_fn(T) -> bool, drop: spec_fn(T) -> bool)
    requires
        forall|x: T| #[trigger] keep(x) != #[trigger] drop(x),
    ensures
        s.filter(keep).len() + s.filter(drop).len() == s.len(),
    decreases s.len(),
{
    reveal(Seq::filter);
    if s.len() > 0 {
        filter_splits(s.drop_last(), keep, drop);
    }
}

} // verus!
