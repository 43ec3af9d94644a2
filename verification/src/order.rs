//! Putting things in order.
//!
//! One stable sort serves every caller: it orders the *indices* of a list of
//! keys, and the caller reads its own items through them.

use vstd::prelude::*;

verus! {

/// Index `a` comes before index `b`: by key, and by position where keys tie.
pub open spec fn precedes(keys: Seq<i128>, a: usize, b: usize) -> bool {
    keys[a as int] < keys[b as int] || (keys[a as int] == keys[b as int] && a < b)
}

/// `order` lists every index in `lo..hi` exactly once, by ascending key, with
/// equal keys in their original order.
pub open spec fn orders_range(keys: Seq<i128>, order: Seq<usize>, lo: int, hi: int) -> bool {
    &&& order.len() == hi - lo
    &&& forall|i: int| 0 <= i < order.len() ==> lo <= #[trigger] order[i] < hi
    &&& forall|x: usize| lo <= x < hi ==> #[trigger] order.contains(x)
    &&& forall|i: int, j: int|
        0 <= i < j < order.len() ==> precedes(keys, #[trigger] order[i], #[trigger] order[j])
}

/// `order` is the stable ascending order of all the keys.
pub open spec fn is_stable_order(keys: Seq<i128>, order: Seq<usize>) -> bool {
    orders_range(keys, order, 0, keys.len() as int)
}

/// The stable ascending order of the keys.
pub open spec fn ranking(keys: Seq<i128>) -> Seq<usize> {
    choose|order: Seq<usize>| is_stable_order(keys, order)
}

/// There is only one stable order.
pub proof fn stable_order_is_unique(keys: Seq<i128>, left: Seq<usize>, right: Seq<usize>)
    requires
        is_stable_order(keys, left),
        is_stable_order(keys, right),
    ensures
        left == right,
{
    assert forall|i: int| 0 <= i < left.len() implies left[i] == right[i] by {
        agree_at(keys, left, right, i);
    }
    assert(left =~= right);
}

proof fn agree_at(keys: Seq<i128>, left: Seq<usize>, right: Seq<usize>, i: int)
    requires
        is_stable_order(keys, left),
        is_stable_order(keys, right),
        0 <= i < left.len(),
    ensures
        left[i] == right[i],
    decreases i,
{
    assert forall|j: int| 0 <= j < i implies left[j] == right[j] by {
        agree_at(keys, left, right, j);
    }
    if left[i] != right[i] {
        assert(right.contains(left[i]));
        assert(left.contains(right[i]));
        let p = choose|p: int| 0 <= p < right.len() && right[p] == left[i];
        let q = choose|q: int| 0 <= q < left.len() && left[q] == right[i];
        // Neither can lie before `i`, where the two agree.
        if p < i {
            assert(left[p] == left[i]);
            assert(precedes(keys, left[p], left[i]));
        }
        if q < i {
            assert(right[q] == right[i]);
            assert(precedes(keys, right[q], right[i]));
        }
        assert(precedes(keys, left[i], left[q]));
        assert(precedes(keys, right[i], right[p]));
    }
}

/// Every list short enough to index has a stable order.
pub proof fn stable_order_exists(keys: Seq<i128>)
    requires
        keys.len() <= usize::MAX,
    ensures
        is_stable_order(keys, ranking(keys)),
{
    let order = order_by_insertion(keys, keys.len());
    assert(is_stable_order(keys, order));
}

/// An order of the first `count` keys, made by putting each in its place.
proof fn order_by_insertion(keys: Seq<i128>, count: nat) -> (order: Seq<usize>)
    requires
        count <= keys.len() <= usize::MAX,
    ensures
        orders_range(keys, order, 0, count as int),
    decreases count,
{
    if count == 0 {
        Seq::empty()
    } else {
        let shorter = order_by_insertion(keys, (count - 1) as nat);
        let last = (count - 1) as usize;
        let place = place_for(keys, shorter, last, shorter.len());
        let order = shorter.insert(place, last);
        assert forall|i: int| 0 <= i < order.len() implies 0 <= #[trigger] order[i] < count by {
            if i < place {
                assert(order[i] == shorter[i]);
            } else if i > place {
                assert(order[i] == shorter[i - 1]);
            }
        }
        assert forall|x: usize| 0 <= x < count implies #[trigger] order.contains(x) by {
            if x == last {
                assert(order[place] == x);
            } else {
                assert(shorter.contains(x));
                let p = choose|p: int| 0 <= p < shorter.len() && shorter[p] == x;
                if p < place {
                    assert(order[p] == x);
                } else {
                    assert(order[p + 1] == x);
                }
            }
        }
        assert forall|i: int, j: int| 0 <= i < j < order.len() implies precedes(
            keys,
            #[trigger] order[i],
            #[trigger] order[j],
        ) by {
            let a = if i < place { i } else { i - 1 };
            let b = if j < place { j } else { j - 1 };
            if i != place && j != place {
                assert(precedes(keys, shorter[a], shorter[b]));
            }
        }
        order
    }
}

/// Where an index belongs among others that are in order: after all that come
/// before it, and before the rest.
proof fn place_for(keys: Seq<i128>, order: Seq<usize>, x: usize, count: nat) -> (place: int)
    requires
        count <= order.len(),
        forall|i: int| 0 <= i < order.len() ==> #[trigger] order[i] < x,
        forall|i: int, j: int|
            0 <= i < j < order.len() ==> precedes(keys, #[trigger] order[i], #[trigger] order[j]),
    ensures
        0 <= place <= count,
        forall|i: int| 0 <= i < place ==> precedes(keys, #[trigger] order[i], x),
        forall|i: int| place <= i < count ==> precedes(keys, x, #[trigger] order[i]),
    decreases count,
{
    if count == 0 {
        0
    } else if precedes(keys, order[count - 1], x) {
        assert forall|i: int| 0 <= i < count implies precedes(keys, #[trigger] order[i], x) by {
            if i < count - 1 {
                assert(precedes(keys, order[i], order[count - 1]));
            }
        }
        count as int
    } else {
        place_for(keys, order, x, (count - 1) as nat)
    }
}

/// The stable ascending order of the keys, as indices.
pub fn stable_order(keys: &[i128]) -> (order: Vec<usize>)
    ensures
        order@ == ranking(keys@),
        is_stable_order(keys@, order@),
{
    let order = order_range(keys, 0, keys.len());
    assert(is_stable_order(keys@, order@));
    proof {
        stable_order_is_unique(keys@, order@, ranking(keys@));
    }
    order
}

fn order_range(keys: &[i128], lo: usize, hi: usize) -> (order: Vec<usize>)
    requires
        lo <= hi <= keys@.len(),
    ensures
        orders_range(keys@, order@, lo as int, hi as int),
    decreases hi - lo,
{
    if hi - lo <= 1 {
        let mut order: Vec<usize> = Vec::new();
        if lo < hi {
            order.push(lo);
            assert(order@[0] == lo);
        }
        return order;
    }
    let mid: usize = lo + (hi - lo) / 2;
    let left = order_range(keys, lo, mid);
    let right = order_range(keys, mid, hi);
    interleave(keys, &left, &right, lo, mid, hi)
}

/// Merge the orders of two adjacent ranges.
fn interleave(
    keys: &[i128],
    left: &Vec<usize>,
    right: &Vec<usize>,
    lo: usize,
    mid: usize,
    hi: usize,
) -> (order: Vec<usize>)
    requires
        lo <= mid <= hi <= keys@.len(),
        orders_range(keys@, left@, lo as int, mid as int),
        orders_range(keys@, right@, mid as int, hi as int),
    ensures
        orders_range(keys@, order@, lo as int, hi as int),
{
    let mut order: Vec<usize> = Vec::new();
    let mut i: usize = 0;
    let mut j: usize = 0;
    while i < left.len() || j < right.len()
        invariant
            lo <= mid <= hi <= keys@.len(),
            orders_range(keys@, left@, lo as int, mid as int),
            orders_range(keys@, right@, mid as int, hi as int),
            i <= left@.len(),
            j <= right@.len(),
            order@.len() == i + j,
            forall|p: int| 0 <= p < order@.len() ==> lo <= #[trigger] order@[p] < hi,
            forall|p: int| 0 <= p < i ==> order@.contains(#[trigger] left@[p]),
            forall|p: int| 0 <= p < j ==> order@.contains(#[trigger] right@[p]),
            forall|p: int, q: int|
                0 <= p < q < order@.len() ==> precedes(
                    keys@,
                    #[trigger] order@[p],
                    #[trigger] order@[q],
                ),
            forall|p: int, q: int|
                0 <= p < order@.len() && i <= q < left@.len() ==> precedes(
                    keys@,
                    #[trigger] order@[p],
                    #[trigger] left@[q],
                ),
            forall|p: int, q: int|
                0 <= p < order@.len() && j <= q < right@.len() ==> precedes(
                    keys@,
                    #[trigger] order@[p],
                    #[trigger] right@[q],
                ),
        decreases left@.len() - i + right@.len() - j,
    {
        let ghost before = order@;
        let from_left = j >= right.len() || (i < left.len() && keys[left[i]] <= keys[right[j]]);
        let next: usize = if from_left { left[i] } else { right[j] };
        order.push(next);
        assert forall|x: usize| before.contains(x) implies order@.contains(x) by {
            let p = choose|p: int| 0 <= p < before.len() && before[p] == x;
            assert(order@[p] == x);
        }
        assert(order@[before.len() as int] == next);
        if from_left {
            i += 1;
        } else {
            j += 1;
        }
    }
    assert forall|x: usize| lo <= x < hi implies order@.contains(x) by {
        if x < mid {
            assert(left@.contains(x));
            let p = choose|p: int| 0 <= p < left@.len() && left@[p] == x;
            assert(order@.contains(left@[p]));
        } else {
            assert(right@.contains(x));
            let p = choose|p: int| 0 <= p < right@.len() && right@[p] == x;
            assert(order@.contains(right@[p]));
        }
    }
    order
}

/// The keys, in ascending order.
pub open spec fn sorted(keys: Seq<i128>) -> Seq<i128> {
    Seq::new(keys.len(), |i: int| keys[ranking(keys)[i] as int])
}

/// Sort a list of keys.
pub fn sort(keys: &[i128]) -> (ascending: Vec<i128>)
    ensures
        ascending@ == sorted(keys@),
        ascending@.len() == keys@.len(),
        forall|i: int| 0 <= i < keys@.len() ==> keys@.contains(#[trigger] ascending@[i]),
        forall|i: int, j: int|
            0 <= i <= j < keys@.len() ==> #[trigger] ascending@[i] <= #[trigger] ascending@[j],
{
    let order = stable_order(keys);
    proof {
        sorted_ascends(keys@, order@);
    }
    let mut ascending: Vec<i128> = Vec::new();
    for i in 0..order.len()
        invariant
            is_stable_order(keys@, order@),
            ascending@ =~= Seq::new(i as nat, |j: int| keys@[order@[j] as int]),
    {
        ascending.push(keys[order[i]]);
    }
    assert(ascending@ =~= sorted(keys@));
    ascending
}

/// Places in a list, all different.
pub open spec fn different_places(places: Seq<int>, len: int) -> bool {
    &&& forall|i: int| 0 <= i < places.len() ==> 0 <= #[trigger] places[i] < len
    &&& forall|i: int, j: int|
        0 <= i < j < places.len() ==> #[trigger] places[i] != #[trigger] places[j]
}

/// So many places of a list hold nothing greater than a value.
pub open spec fn so_many_at_most(keys: Seq<i128>, value: int, count: int) -> bool {
    exists|places: Seq<int>| #[trigger]
        different_places(places, keys.len() as int) && places.len() == count && forall|i: int|
            0 <= i < count ==> keys[#[trigger] places[i]] <= value
}

/// So many places of a list hold nothing smaller than a value.
pub open spec fn so_many_at_least(keys: Seq<i128>, value: int, count: int) -> bool {
    exists|places: Seq<int>| #[trigger]
        different_places(places, keys.len() as int) && places.len() == count && forall|i: int|
            0 <= i < count ==> keys[#[trigger] places[i]] >= value
}

/// What stands at a place of the sorted list is one of the list: as many as the
/// place, and it itself, are no greater, and all the rest are no smaller.
pub proof fn sorted_places_count(keys: Seq<i128>, at: int)
    requires
        keys.len() <= usize::MAX,
        0 <= at < keys.len(),
    ensures
        keys.contains(sorted(keys)[at]),
        so_many_at_most(keys, sorted(keys)[at] as int, at + 1),
        so_many_at_least(keys, sorted(keys)[at] as int, keys.len() - at),
{
    stable_order_exists(keys);
    let order = ranking(keys);
    sorted_ascends(keys, order);
    let value = sorted(keys)[at];
    let below = Seq::new((at + 1) as nat, |i: int| order[i] as int);
    let above = Seq::new((keys.len() - at) as nat, |i: int| order[at + i] as int);
    assert forall|i: int, j: int| 0 <= i < j < below.len() implies #[trigger] below[i]
        != #[trigger] below[j] by {
        assert(precedes(keys, order[i], order[j]));
    }
    assert forall|i: int, j: int| 0 <= i < j < above.len() implies #[trigger] above[i]
        != #[trigger] above[j] by {
        assert(precedes(keys, order[at + i], order[at + j]));
    }
    assert forall|i: int| 0 <= i < at + 1 implies keys[#[trigger] below[i]] <= value by {
        assert(sorted(keys)[i] <= sorted(keys)[at]);
    }
    assert forall|i: int| 0 <= i < keys.len() - at implies keys[#[trigger] above[i]] >= value by {
        assert(sorted(keys)[at] <= sorted(keys)[at + i]);
    }
    assert(different_places(below, keys.len() as int));
    assert(different_places(above, keys.len() as int));
}

/// A sorted list ascends, and holds what the list held.
pub proof fn sorted_ascends(keys: Seq<i128>, order: Seq<usize>)
    requires
        is_stable_order(keys, order),
    ensures
        sorted(keys).len() == keys.len(),
        forall|i: int, j: int|
            0 <= i <= j < keys.len() ==> #[trigger] sorted(keys)[i] <= #[trigger] sorted(keys)[j],
        forall|i: int|
            0 <= i < keys.len() ==> keys.contains(#[trigger] sorted(keys)[i]),
        keys.len() <= usize::MAX ==> forall|i: int|
            0 <= i < keys.len() ==> sorted(keys).contains(#[trigger] keys[i]),
{
    let chosen = ranking(keys);
    assert(is_stable_order(keys, chosen));
    assert forall|i: int, j: int| 0 <= i <= j < keys.len() implies #[trigger] sorted(keys)[i]
        <= #[trigger] sorted(keys)[j] by {
        if i < j {
            assert(precedes(keys, chosen[i], chosen[j]));
        }
    }
    assert forall|i: int| 0 <= i < keys.len() implies keys.contains(#[trigger] sorted(keys)[i]) by {
        assert(keys[chosen[i] as int] == sorted(keys)[i]);
    }
    if keys.len() <= usize::MAX {
        assert forall|i: int| 0 <= i < keys.len() implies sorted(keys).contains(
            #[trigger] keys[i],
        ) by {
            assert(chosen.contains(i as usize));
            let p = choose|p: int| 0 <= p < chosen.len() && chosen[p] == i as usize;
            assert(sorted(keys)[p] == keys[i]);
        }
    }
}

} // verus!
