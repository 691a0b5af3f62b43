//! Stable ordering by an integer key.
//!
//! The order of a list of keys is the list of their positions, arranged so
//! that keys ascend and equal keys keep the order in which they were given.

use vstd::prelude::*;

verus! {

/// `order` with position `i` entered behind every position whose key is not
/// greater than the key at `i`.
pub open spec fn entered(order: Seq<usize>, keys: Seq<i64>, i: usize) -> Seq<usize>
    decreases order.len(),
{
    if order.len() == 0 || keys[order.last() as int] <= keys[i as int] {
        order.push(i)
    } else {
        entered(order.drop_last(), keys, i).push(order.last())
    }
}

/// The positions of `keys` in ascending order of key, equal keys in the order
/// given.
pub open spec fn stable_order(keys: Seq<i64>) -> Seq<usize>
    decreases keys.len(),
{
    if keys.len() == 0 {
        Seq::empty()
    } else {
        entered(stable_order(keys.drop_last()), keys, (keys.len() - 1) as usize)
    }
}

/// The positions of `keys` in descending order of key, and among equal keys
/// the one given last first.
pub open spec fn latest_first(keys: Seq<i64>) -> Seq<usize> {
    stable_order(keys).reverse()
}

/// Whether position `a` comes before position `b`: by key, then by position.
pub open spec fn precedes(keys: Seq<i64>, a: usize, b: usize) -> bool {
    keys[a as int] < keys[b as int] || (keys[a as int] == keys[b as int] && a < b)
}

/// Whether `order` lists positions below `bound` in strictly ascending order
/// of key and position.
pub open spec fn strictly_ordered(order: Seq<usize>, keys: Seq<i64>, bound: int) -> bool {
    &&& forall|j: int| 0 <= j < order.len() ==> (#[trigger] order[j]) < bound
    &&& forall|a: int, b: int|
        0 <= a < b < order.len() ==> precedes(keys, #[trigger] order[a], #[trigger] order[b])
}

/// Entering a position at the place where the greater keys begin is what
/// `entered` does.
proof fn lemma_entered_at(order: Seq<usize>, keys: Seq<i64>, i: usize, at: int)
    requires
        0 <= at <= order.len(),
        forall|j: int| at <= j < order.len() ==> keys[#[trigger] order[j] as int] > keys[i as int],
        at == 0 || keys[order[at - 1] as int] <= keys[i as int],
    ensures
        entered(order, keys, i) == order.insert(at, i),
    decreases order.len(),
{
    if at == order.len() {
        assert(order.push(i) =~= order.insert(at, i));
    } else {
        let front = order.drop_last();
        assert(keys[order[order.len() - 1] as int] > keys[i as int]);
        lemma_entered_at(front, keys, i, at);
        assert(front.insert(at, i).push(order.last()) =~= order.insert(at, i));
    }
}

/// Entering a new last position keeps the order strict and adds one element.
proof fn lemma_entered_keeps_order(order: Seq<usize>, keys: Seq<i64>, i: usize)
    requires
        strictly_ordered(order, keys, i as int),
        i < keys.len(),
    ensures
        strictly_ordered(entered(order, keys, i), keys, i + 1),
        entered(order, keys, i).len() == order.len() + 1,
        entered(order, keys, i).contains(i),
        forall|p: usize| order.contains(p) ==> entered(order, keys, i).contains(p),
    decreases order.len(),
{
    let result = entered(order, keys, i);
    if order.len() == 0 || keys[order.last() as int] <= keys[i as int] {
        assert(result[order.len() as int] == i);
        assert forall|p: usize| order.contains(p) implies result.contains(p) by {
            let j = choose|j: int| 0 <= j < order.len() && order[j] == p;
            assert(result[j] == p);
        }
        assert forall|a: int, b: int| 0 <= a < b < result.len() implies precedes(
            keys,
            #[trigger] result[a],
            #[trigger] result[b],
        ) by {
            if b == order.len() {
                assert(precedes(keys, order[a], order[order.len() - 1]) || a == order.len() - 1);
            }
        }
    } else {
        let front = order.drop_last();
        let last = order.last();
        assert(strictly_ordered(front, keys, i as int));
        lemma_entered_keeps_order(front, keys, i);
        let inner = entered(front, keys, i);
        assert(result == inner.push(last));
        let at = choose|k: int| 0 <= k < inner.len() && inner[k] == i;
        assert(result[at] == i);
        assert forall|p: usize| order.contains(p) implies result.contains(p) by {
            let j = choose|j: int| 0 <= j < order.len() && order[j] == p;
            if j == order.len() - 1 {
                assert(result[inner.len() as int] == p);
            } else {
                assert(front[j] == p);
                assert(front.contains(p));
                let k = choose|k: int| 0 <= k < inner.len() && inner[k] == p;
                assert(result[k] == p);
            }
        }
        assert forall|a: int, b: int| 0 <= a < b < result.len() implies precedes(
            keys,
            #[trigger] result[a],
            #[trigger] result[b],
        ) by {
            if b == inner.len() {
                lemma_entered_members(front, keys, i, inner[a]);
                if inner[a] != i {
                    let j = choose|j: int| 0 <= j < front.len() && front[j] == inner[a];
                    assert(precedes(keys, order[j], order[order.len() - 1]));
                }
            }
        }
    }
}

/// `entered` holds the new position and the old ones, nothing else.
proof fn lemma_entered_members(order: Seq<usize>, keys: Seq<i64>, i: usize, p: usize)
    requires
        entered(order, keys, i).contains(p),
    ensures
        p == i || order.contains(p),
    decreases order.len(),
{
    let result = entered(order, keys, i);
    let k = choose|k: int| 0 <= k < result.len() && result[k] == p;
    if order.len() == 0 || keys[order.last() as int] <= keys[i as int] {
        if k < order.len() {
            assert(order[k] == p);
        }
    } else {
        let front = order.drop_last();
        let inner = entered(front, keys, i);
        if k < inner.len() {
            assert(inner[k] == p);
            assert(inner.contains(p));
            lemma_entered_members(front, keys, i, p);
            if p != i {
                let j = choose|j: int| 0 <= j < front.len() && front[j] == p;
                assert(order[j] == p);
            }
        } else {
            assert(order[order.len() - 1] == p);
        }
    }
}

/// The stable order of a list that fits in memory lists every position
/// exactly once, keys ascending and equal keys in the order given.
pub proof fn lemma_stable_order_sorts(keys: Seq<i64>)
    requires
        keys.len() <= usize::MAX,
    ensures
        stable_order(keys).len() == keys.len(),
        strictly_ordered(stable_order(keys), keys, keys.len() as int),
        forall|p: usize| p < keys.len() ==> stable_order(keys).contains(p),
    decreases keys.len(),
{
    if keys.len() > 0 {
        let front = keys.drop_last();
        let last = (keys.len() - 1) as usize;
        lemma_stable_order_sorts(front);
        let order = stable_order(front);
        assert(strictly_ordered(order, keys, last as int)) by {
            assert forall|a: int, b: int| 0 <= a < b < order.len() implies precedes(
                keys,
                #[trigger] order[a],
                #[trigger] order[b],
            ) by {
                assert(precedes(front, order[a], order[b]));
            }
        }
        lemma_entered_keeps_order(order, keys, last);
        assert forall|p: usize| p < keys.len() implies stable_order(keys).contains(p) by {
            if p < last {
                assert(order.contains(p));
            }
        }
    }
}

/// Whether a list of numbers ascends strictly.
pub open spec fn ascends(list: Seq<int>) -> bool {
    forall|i: int, j: int| 0 <= i < j < list.len() ==> list[i] < list[j]
}

/// Two strictly ascending lists with the same members are the same list.
pub proof fn lemma_ascending_lists_agree(first: Seq<int>, second: Seq<int>)
    requires
        ascends(first),
        ascends(second),
        forall|x: int| first.contains(x) <==> second.contains(x),
    ensures
        first == second,
    decreases first.len(),
{
    if first.len() == 0 {
        if second.len() > 0 {
            assert(second.contains(second[0]));
            assert(first.contains(second[0]));
        }
        assert(first =~= second);
    } else {
        let top = first.last();
        assert(first[first.len() - 1] == top);
        assert(first.contains(top));
        assert(second.contains(top));
        let at = choose|j: int| 0 <= j < second.len() && second[j] == top;
        let other = second.last();
        assert(second[second.len() - 1] == other);
        assert(second.contains(other));
        assert(first.contains(other));
        let back = choose|i: int| 0 <= i < first.len() && first[i] == other;
        assert(top == other) by {
            if at < second.len() - 1 {
                assert(second[at] < second[second.len() - 1]);
            }
            if back < first.len() - 1 {
                assert(first[back] < first[first.len() - 1]);
            }
        }
        let shorter = first.drop_last();
        let rest = second.drop_last();
        assert forall|x: int| shorter.contains(x) <==> rest.contains(x) by {
            if shorter.contains(x) {
                let i = choose|i: int| 0 <= i < shorter.len() && shorter[i] == x;
                assert(first[i] == x);
                assert(first[i] < first[first.len() - 1]);
                assert(first.contains(x));
                assert(second.contains(x));
                let j = choose|j: int| 0 <= j < second.len() && second[j] == x;
                assert(j < second.len() - 1);
                assert(rest[j] == x);
            }
            if rest.contains(x) {
                let j = choose|j: int| 0 <= j < rest.len() && rest[j] == x;
                assert(second[j] == x);
                assert(second[j] < second[second.len() - 1]);
                assert(second.contains(x));
                assert(first.contains(x));
                let i = choose|i: int| 0 <= i < first.len() && first[i] == x;
                assert(i < first.len() - 1);
                assert(shorter[i] == x);
            }
        }
        assert(ascends(shorter)) by {
            assert forall|i: int, j: int| 0 <= i < j < shorter.len() implies shorter[i]
                < shorter[j] by {
                assert(first[i] < first[j]);
            }
        }
        assert(ascends(rest)) by {
            assert forall|i: int, j: int| 0 <= i < j < rest.len() implies rest[i] < rest[j] by {
                assert(second[i] < second[j]);
            }
        }
        lemma_ascending_lists_agree(shorter, rest);
        assert(first =~= shorter.push(top));
        assert(second =~= rest.push(other));
    }
}

/// Whether `ids` lists the values that occur in `keys`, each once, in
/// ascending order.
pub open spec fn lists_distinct(ids: Seq<i32>, keys: Seq<i32>) -> bool {
    &&& forall|a: int, b: int| 0 <= a < b < ids.len() ==> ids[a] < ids[b]
    &&& forall|j: int| 0 <= j < ids.len() ==> keys.contains(#[trigger] ids[j])
    &&& forall|i: int| 0 <= i < keys.len() ==> ids.contains(#[trigger] keys[i])
}

/// The values that occur in `keys`, each once, ascending.
pub fn distinct_ascending(keys: &Vec<i32>) -> (ids: Vec<i32>)
    ensures
        lists_distinct(ids@, keys@),
{
    let n = keys.len();
    let mut ids: Vec<i32> = Vec::new();
    let mut i: usize = 0;
    while i < n
        invariant
            i <= n,
            n == keys@.len(),
            lists_distinct(ids@, keys@.take(i as int)),
        decreases n - i,
    {
        let key = keys[i];
        let mut at: usize = 0;
        while at < ids.len() && ids[at] < key
            invariant
                at <= ids@.len(),
                forall|k: int| 0 <= k < at ==> ids@[k] < key,
            decreases ids@.len() - at,
        {
            at = at + 1;
        }
        let ghost before = ids@;
        let ghost seen = keys@.take(i as int);
        let ghost more = keys@.take(i + 1);
        assert(more[i as int] == key);
        if at == ids.len() || ids[at] != key {
            ids.insert(at, key);
            proof {
                assert(ids@[at as int] == key);
                assert forall|j: int| 0 <= j < ids@.len() implies more.contains(
                    #[trigger] ids@[j],
                ) by {
                    if j < at {
                        assert(ids@[j] == before[j]);
                        assert(seen.contains(before[j]));
                        let k = choose|k: int| 0 <= k < seen.len() && seen[k] == before[j];
                        assert(more[k] == ids@[j]);
                    } else if j > at {
                        assert(ids@[j] == before[j - 1]);
                        assert(seen.contains(before[j - 1]));
                        let k = choose|k: int| 0 <= k < seen.len() && seen[k] == before[j - 1];
                        assert(more[k] == ids@[j]);
                    }
                }
                assert forall|k: int| 0 <= k < more.len() implies ids@.contains(
                    #[trigger] more[k],
                ) by {
                    if k < i {
                        assert(seen[k] == more[k]);
                        assert(before.contains(seen[k]));
                        let j = choose|j: int| 0 <= j < before.len() && before[j] == seen[k];
                        if j < at {
                            assert(ids@[j] == before[j]);
                        } else {
                            assert(ids@[j + 1] == before[j]);
                        }
                    } else {
                        assert(ids@[at as int] == more[k]);
                    }
                }
            }
        } else {
            proof {
                assert forall|j: int| 0 <= j < ids@.len() implies more.contains(
                    #[trigger] ids@[j],
                ) by {
                    assert(seen.contains(ids@[j]));
                    let k = choose|k: int| 0 <= k < seen.len() && seen[k] == ids@[j];
                    assert(more[k] == ids@[j]);
                }
                assert forall|k: int| 0 <= k < more.len() implies ids@.contains(
                    #[trigger] more[k],
                ) by {
                    if k < i {
                        assert(seen[k] == more[k]);
                    } else {
                        assert(ids@[at as int] == more[k]);
                    }
                }
            }
        }
        i = i + 1;
    }
    assert(keys@.take(n as int) =~= keys@);
    ids
}

/// Computes the stable order of `keys`.
pub fn stable_order_of(keys: &Vec<i64>) -> (order: Vec<usize>)
    ensures
        order@ == stable_order(keys@),
        order@.len() == keys@.len(),
        forall|j: int| 0 <= j < order@.len() ==> (#[trigger] order@[j]) < keys@.len(),
{
    let n = keys.len();
    let mut order: Vec<usize> = Vec::new();
    let mut i: usize = 0;
    while i < n
        invariant
            i <= n,
            n == keys@.len(),
            order@ == stable_order(keys@.take(i as int)),
            order@.len() == i,
            forall|j: int| 0 <= j < order@.len() ==> (#[trigger] order@[j]) < i,
        decreases n - i,
    {
        let key = keys[i];
        let mut at: usize = order.len();
        while at > 0 && keys[order[at - 1]] > key
            invariant
                at <= order@.len(),
                order@.len() == i,
                i < n,
                n == keys@.len(),
                key == keys@[i as int],
                forall|j: int| 0 <= j < order@.len() ==> (#[trigger] order@[j]) < i,
                forall|j: int| at <= j < order@.len() ==> keys@[#[trigger] order@[j] as int] > key,
            decreases at,
        {
            at = at - 1;
        }
        proof {
            let prefix = keys@.take(i + 1);
            assert(prefix.drop_last() =~= keys@.take(i as int));
            lemma_entered_at(order@, prefix, i, at as int);
        }
        order.insert(at, i);
        i = i + 1;
    }
    assert(keys@.take(n as int) =~= keys@);
    order
}

} // verus!
