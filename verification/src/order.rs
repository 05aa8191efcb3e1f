//! Sorting by a number, where equal items keep their places.

use vstd::prelude::*;

verus! {

/// Whether item `a` comes before item `b`: by key, and where the keys are equal by
/// place.
pub open spec fn comes_before(keys: Seq<usize>, a: usize, b: usize) -> bool {
    ||| keys[a as int] < keys[b as int]
    ||| keys[a as int] == keys[b as int] && a < b
}

/// Whether `order` lists the places `from..to`, each once, in the order of the keys.
pub open spec fn orders(keys: Seq<usize>, order: Seq<usize>, from: int, to: int) -> bool {
    &&& forall|i: int| 0 <= i < order.len() ==> from <= #[trigger] order[i] < to
    &&& forall|i: int, j: int|
        0 <= i < j < order.len() ==> comes_before(keys, #[trigger] order[i], #[trigger] order[j])
    &&& forall|p: usize| from <= p < to ==> #[trigger] order.contains(p)
}

/// Whether `order` is the stable order of the keys: all places, each once, by key and
/// then by place.
pub open spec fn is_stable_order(keys: Seq<usize>, order: Seq<usize>) -> bool {
    orders(keys, order, 0, keys.len() as int)
}

/// The items in the order that a list of places gives.
pub open spec fn arranged<T>(items: Seq<T>, order: Seq<usize>) -> Seq<T> {
    order.map_values(|p: usize| items[p as int])
}

/// There is only one stable order.
pub proof fn law_stable_order_is_unique(keys: Seq<usize>, a: Seq<usize>, b: Seq<usize>)
    requires
        is_stable_order(keys, a),
        is_stable_order(keys, b),
    ensures
        a == b,
{
    lemma_same_prefix(keys, a, b, a.len() as int);
    lemma_same_prefix(keys, b, a, b.len() as int);
    assert(a =~= b);
}

proof fn lemma_same_prefix(keys: Seq<usize>, a: Seq<usize>, b: Seq<usize>, n: int)
    requires
        is_stable_order(keys, a),
        is_stable_order(keys, b),
        0 <= n <= a.len(),
    ensures
        n <= b.len(),
        forall|i: int| 0 <= i < n ==> a[i] == b[i],
    decreases n,
{
    if n > 0 {
        lemma_same_prefix(keys, a, b, n - 1);
        let k = n - 1;
        let x = a[k];
        assert(b.contains(x));
        let m = choose|m: int| 0 <= m < b.len() && b[m] == x;
        if m < k {
            assert(a[m] == x);
            assert(comes_before(keys, a[m], a[k]));
        }
        let y = b[k];
        if y != x {
            assert(a.contains(y));
            let l = choose|l: int| 0 <= l < a.len() && a[l] == y;
            if l < k {
                assert(b[l] == y);
                assert(comes_before(keys, b[l], b[k]));
            }
            assert(comes_before(keys, a[k], a[l]));
            assert(comes_before(keys, b[k], b[m]));
        }
    }
}

fn before(keys: &Vec<usize>, a: usize, b: usize) -> (r: bool)
    requires
        a < keys@.len(),
        b < keys@.len(),
    ensures
        r == comes_before(keys@, a, b),
{
    keys[a] < keys[b] || (keys[a] == keys[b] && a < b)
}

fn merge(
    keys: &Vec<usize>,
    left: &Vec<usize>,
    right: &Vec<usize>,
    Ghost(from): Ghost<int>,
    Ghost(mid): Ghost<int>,
    Ghost(to): Ghost<int>,
) -> (r: Vec<usize>)
    requires
        0 <= from <= mid <= to <= keys@.len(),
        orders(keys@, left@, from, mid),
        orders(keys@, right@, mid, to),
    ensures
        orders(keys@, r@, from, to),
{
    let mut out: Vec<usize> = Vec::new();
    let mut i: usize = 0;
    let mut j: usize = 0;
    while i < left.len() || j < right.len()
        invariant
            0 <= from <= mid <= to <= keys@.len(),
            orders(keys@, left@, from, mid),
            orders(keys@, right@, mid, to),
            i <= left@.len(),
            j <= right@.len(),
            forall|k: int| 0 <= k < out@.len() ==> from <= #[trigger] out@[k] < to,
            forall|k: int, l: int|
                0 <= k < l < out@.len() ==> comes_before(
                    keys@,
                    #[trigger] out@[k],
                    #[trigger] out@[l],
                ),
            forall|k: int, l: int|
                0 <= k < out@.len() && i <= l < left@.len() ==> comes_before(
                    keys@,
                    #[trigger] out@[k],
                    #[trigger] left@[l],
                ),
            forall|k: int, l: int|
                0 <= k < out@.len() && j <= l < right@.len() ==> comes_before(
                    keys@,
                    #[trigger] out@[k],
                    #[trigger] right@[l],
                ),
            forall|l: int| 0 <= l < i ==> out@.contains(#[trigger] left@[l]),
            forall|l: int| 0 <= l < j ==> out@.contains(#[trigger] right@[l]),
        decreases left@.len() - i + right@.len() - j,
    {
        let ghost done = out@;
        let take_left = if i >= left.len() {
            false
        } else if j >= right.len() {
            true
        } else {
            before(keys, left[i], right[j])
        };
        let next: usize = if take_left {
            left[i]
        } else {
            right[j]
        };
        proof {
            assert(done.push(next)[done.len() as int] == next);
            assert forall|p: usize| #[trigger] done.contains(p) implies done.push(next).contains(
                p,
            ) by {
                let q = choose|q: int| 0 <= q < done.len() && done[q] == p;
                assert(done.push(next)[q] == p);
            }
            if take_left {
                if j < right@.len() {
                    assert forall|l: int| j <= l < right@.len() implies comes_before(
                        keys@,
                        next,
                        #[trigger] right@[l],
                    ) by {
                        if l > j {
                            assert(comes_before(keys@, right@[j as int], right@[l]));
                        }
                    }
                }
            } else {
                if i < left@.len() {
                    assert(comes_before(keys@, right@[j as int], left@[i as int]));
                    assert forall|l: int| i <= l < left@.len() implies comes_before(
                        keys@,
                        next,
                        #[trigger] left@[l],
                    ) by {
                        if l > i {
                            assert(comes_before(keys@, left@[i as int], left@[l]));
                        }
                    }
                }
            }
        }
        out.push(next);
        if take_left {
            i = i + 1;
        } else {
            j = j + 1;
        }
    }
    proof {
        assert forall|p: usize| from <= p < to implies #[trigger] out@.contains(p) by {
            if p < mid {
                assert(left@.contains(p));
                let l = choose|l: int| 0 <= l < left@.len() && left@[l] == p;
                assert(out@.contains(left@[l]));
            } else {
                assert(right@.contains(p));
                let l = choose|l: int| 0 <= l < right@.len() && right@[l] == p;
                assert(out@.contains(right@[l]));
            }
        }
    }
    out
}

fn order_range(keys: &Vec<usize>, from: usize, to: usize) -> (r: Vec<usize>)
    requires
        from <= to <= keys@.len(),
    ensures
        orders(keys@, r@, from as int, to as int),
    decreases to - from,
{
    if to - from == 0 {
        return Vec::new();
    }
    if to - from == 1 {
        let mut one: Vec<usize> = Vec::new();
        one.push(from);
        assert(one@[0] == from);
        return one;
    }
    let mid: usize = from + (to - from) / 2;
    let left = order_range(keys, from, mid);
    let right = order_range(keys, mid, to);
    merge(keys, &left, &right, Ghost(from as int), Ghost(mid as int), Ghost(to as int))
}

/// The places of the keys in their stable order.
pub fn stable_order(keys: &Vec<usize>) -> (r: Vec<usize>)
    ensures
        is_stable_order(keys@, r@),
{
    order_range(keys, 0, keys.len())
}

/// In a stable order the keys never fall.
pub proof fn law_stable_order_sorts(keys: Seq<usize>, order: Seq<usize>, i: int, j: int)
    requires
        is_stable_order(keys, order),
        0 <= i <= j < order.len(),
    ensures
        keys[order[i] as int] <= keys[order[j] as int],
{
    if i < j {
        assert(comes_before(keys, order[i], order[j]));
    }
}

/// A stable order has as many places as there are keys, and none twice.
pub proof fn law_order_has_all_places(keys: Seq<usize>, order: Seq<usize>)
    requires
        is_stable_order(keys, order),
        keys.len() <= usize::MAX,
    ensures
        order.len() == keys.len(),
        order.no_duplicates(),
{
    let all = Seq::new(keys.len(), |i: int| i as usize);
    assert(order.no_duplicates()) by {
        assert forall|i: int, j: int|
            0 <= i < order.len() && 0 <= j < order.len() && i != j implies order[i] != order[j] by {
            if i < j {
                assert(comes_before(keys, order[i], order[j]));
            } else {
                assert(comes_before(keys, order[j], order[i]));
            }
        }
    }
    assert(all.no_duplicates());
    order.unique_seq_to_set();
    all.unique_seq_to_set();
    assert(order.to_set() =~= all.to_set()) by {
        assert forall|p: usize| #[trigger] order.to_set().contains(p) implies all.to_set().contains(
            p,
        ) by {
            assert(all[p as int] == p);
        }
        assert forall|p: usize| #[trigger] all.to_set().contains(p) implies order.to_set().contains(
            p,
        ) by {
            let i = choose|i: int| 0 <= i < all.len() && all[i] == p;
            assert(order.contains(p));
        }
    }
}

/// The items in the order that a list of distinct places gives.
pub fn arrange<T>(items: Vec<T>, order: &Vec<usize>) -> (r: Vec<T>)
    requires
        order@.no_duplicates(),
        forall|i: int| 0 <= i < order@.len() ==> (#[trigger] order@[i]) < items@.len(),
    ensures
        r@ == arranged(items@, order@),
{
    let ghost source = items@;
    let mut slots: Vec<Option<T>> = Vec::new();
    for item in it: items
        invariant
            it.seq() == source,
            slots@.len() == it.index(),
            forall|k: int| 0 <= k < slots@.len() ==> #[trigger] slots@[k] == Some(source[k]),
    {
        slots.push(Some(item));
    }
    let mut out: Vec<T> = Vec::new();
    let mut i: usize = 0;
    while i < order.len()
        invariant
            i <= order@.len(),
            order@.no_duplicates(),
            forall|k: int| 0 <= k < order@.len() ==> (#[trigger] order@[k]) < source.len(),
            slots@.len() == source.len(),
            forall|k: int|
                i <= k < order@.len() ==> slots@[(#[trigger] order@[k]) as int] == Some(
                    source[order@[k] as int],
                ),
            out@.len() == i,
            forall|k: int| 0 <= k < i ==> #[trigger] out@[k] == source[order@[k] as int],
        decreases order@.len() - i,
    {
        let p: usize = order[i];
        let item = slots[p].take();
        assert(item == Some(source[p as int]));
        out.push(item.unwrap());
        i = i + 1;
    }
    assert(out@ =~= arranged(source, order@));
    out
}

/// A stable order lists each place of the keys and no other place, the smaller key before
/// the larger one, and of two equal keys the one that stands first before the other.
pub proof fn law_what_a_stable_order_is(keys: Seq<usize>, order: Seq<usize>, i: int, j: int)
    requires
        is_stable_order(keys, order),
        keys.len() <= usize::MAX,
        0 <= i < j < keys.len(),
    ensures
        order.len() == keys.len(),
        order[i] < keys.len(),
        order.contains(i as usize),
        keys[order[i] as int] <= keys[order[j] as int],
        keys[order[i] as int] == keys[order[j] as int] ==> order[i] < order[j],
{
    law_order_has_all_places(keys, order);
    assert(comes_before(keys, order[i], order[j]));
}

/// Items are arranged one for each place of the order, and at each place stands the item
/// that the order names.
pub proof fn law_items_stand_where_the_order_says<T>(items: Seq<T>, order: Seq<usize>, i: int)
    requires
        0 <= i < order.len(),
    ensures
        arranged(items, order).len() == order.len(),
        arranged(items, order)[i] == items[order[i] as int],
{
}

} // verus!
