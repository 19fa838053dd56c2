//! Stable sorting.
use vstd::prelude::*;

verus! {

/// Puts an item into a sorted sequence, behind everything that it may stand behind.
pub open spec fn insert_sorted<A>(sorted: Seq<A>, item: A, le: spec_fn(A, A) -> bool) -> Seq<A>
    decreases sorted.len(),
{
    if sorted.len() == 0 || le(sorted.last(), item) {
        sorted.push(item)
    } else {
        insert_sorted(sorted.drop_last(), item, le).push(sorted.last())
    }
}

/// The items in the order `le`; items that are equal in it stay in the order in which they came.
pub open spec fn stable_sort<A>(items: Seq<A>, le: spec_fn(A, A) -> bool) -> Seq<A>
    decreases items.len(),
{
    if items.len() == 0 {
        Seq::empty()
    } else {
        insert_sorted(stable_sort(items.drop_last(), le), items.last(), le)
    }
}

/// Whether any two items are related by `le`, and `le` is transitive.
pub open spec fn is_total_preorder<A>(le: spec_fn(A, A) -> bool) -> bool {
    &&& forall|a: A, b: A| #[trigger] le(a, b) || le(b, a)
    &&& forall|a: A, b: A, c: A| #[trigger] le(a, b) && #[trigger] le(b, c) ==> le(a, c)
}

/// Whether the item at `p` belongs before the one at `q`: it is less, or equal and came first.
pub open spec fn belongs_before<A>(items: Seq<A>, le: spec_fn(A, A) -> bool, p: int, q: int) -> bool {
    le(items[p], items[q]) && (p < q || !le(items[q], items[p]))
}

/// Whether `order` names the places of all items, each where it belongs.
pub open spec fn is_stable_order<A>(
    items: Seq<A>,
    le: spec_fn(A, A) -> bool,
    order: Seq<int>,
) -> bool {
    &&& order.len() == items.len()
    &&& forall|i: int| 0 <= i < order.len() ==> 0 <= #[trigger] order[i] < items.len()
    &&& forall|p: int| 0 <= p < items.len() ==> #[trigger] order.contains(p)
    &&& forall|i: int, j: int|
        0 <= i < j < order.len() ==> belongs_before(items, le, #[trigger] order[i], #[trigger] order[j])
}

/// The items at the places that `order` names.
pub open spec fn rearranged<A>(items: Seq<A>, order: Seq<int>) -> Seq<A> {
    Seq::new(order.len(), |i: int| items[order[i]])
}

/// Where an item comes to stand that everything in `front` may stand before, and nothing in
/// `back`.
proof fn lemma_insert_between<A>(
    front: Seq<A>,
    back: Seq<A>,
    item: A,
    le: spec_fn(A, A) -> bool,
)
    requires
        front.len() > 0 ==> le(front.last(), item),
        forall|i: int| 0 <= i < back.len() ==> !le(#[trigger] back[i], item),
    ensures
        insert_sorted(front + back, item, le) == front.push(item) + back,
    decreases back.len(),
{
    let all = front + back;
    if back.len() == 0 {
        assert(all == front);
        assert(front.push(item) + back == front.push(item));
    } else {
        assert(all.last() == back.last());
        assert(!le(back[back.len() - 1], item));
        assert(all.drop_last() == front + back.drop_last());
        lemma_insert_between(front, back.drop_last(), item, le);
        assert((front.push(item) + back.drop_last()).push(back.last()) == front.push(item) + back);
    }
}

/// There is only one way to sort stably.
proof fn lemma_stable_order_sorts<A>(items: Seq<A>, le: spec_fn(A, A) -> bool, order: Seq<int>)
    requires
        is_stable_order(items, le, order),
    ensures
        rearranged(items, order) == stable_sort(items, le),
    decreases items.len(),
{
    let n = items.len() as int;
    if n == 0 {
        assert(rearranged(items, order) =~= Seq::empty());
    } else {
        assert(order.contains(n - 1));
        let k = choose|k: int| 0 <= k < order.len() && order[k] == n - 1;
        let rest = order.remove(k);
        let fewer = items.drop_last();
        assert forall|i: int| 0 <= i < rest.len() implies 0 <= #[trigger] rest[i] < fewer.len() by {
            let from = if i < k {
                i
            } else {
                i + 1
            };
            assert(rest[i] == order[from]);
            if order[from] == n - 1 {
                if from < k {
                    assert(belongs_before(items, le, order[from], order[k]));
                } else {
                    assert(belongs_before(items, le, order[k], order[from]));
                }
            }
        }
        assert forall|p: int| 0 <= p < fewer.len() implies #[trigger] rest.contains(p) by {
            assert(order.contains(p));
            let i = choose|i: int| 0 <= i < order.len() && order[i] == p;
            if i < k {
                assert(rest[i] == p);
            } else {
                assert(rest[i - 1] == p);
            }
        }
        assert forall|i: int, j: int| 0 <= i < j < rest.len() implies belongs_before(
            fewer,
            le,
            #[trigger] rest[i],
            #[trigger] rest[j],
        ) by {
            let a = if i < k {
                i
            } else {
                i + 1
            };
            let b = if j < k {
                j
            } else {
                j + 1
            };
            assert(rest[i] == order[a] && rest[j] == order[b]);
            assert(belongs_before(items, le, order[a], order[b]));
            assert(0 <= rest[i] < fewer.len() && 0 <= rest[j] < fewer.len());
        }
        lemma_stable_order_sorts(fewer, le, rest);
        let all = rearranged(items, order);
        let front = all.take(k);
        let back = all.skip(k + 1);
        assert(rearranged(fewer, rest) =~= front + back) by {
            assert forall|i: int| 0 <= i < rest.len() implies rearranged(fewer, rest)[i] == (front
                + back)[i] by {
                assert(0 <= rest[i] < fewer.len());
            }
        }
        if k > 0 {
            assert(belongs_before(items, le, order[k - 1], order[k]));
        }
        assert forall|i: int| 0 <= i < back.len() implies !le(#[trigger] back[i], items.last()) by {
            assert(belongs_before(items, le, order[k], order[k + 1 + i]));
            assert(0 <= order[k + 1 + i] < items.len());
        }
        lemma_insert_between(front, back, items.last(), le);
        assert(all =~= front.push(items.last()) + back);
    }
}

/// The law of stable sorting: the sorted sequence is a rearrangement of the items in which
/// each stands where it belongs, before all that is greater and all equal ones that came later.
pub proof fn law_stable_sort<A>(items: Seq<A>, le: spec_fn(A, A) -> bool) -> (order: Seq<int>)
    requires
        is_total_preorder(le),
    ensures
        is_stable_order(items, le, order),
        stable_sort(items, le) == rearranged(items, order),
    decreases items.len(),
{
    if items.len() == 0 {
        let order = Seq::<int>::empty();
        assert(rearranged(items, order) =~= Seq::empty());
        order
    } else {
        let n = items.len() as int;
        let fewer = items.drop_last();
        let rest = law_stable_sort(fewer, le);
        let k = insertion_place(items, le, rest, rest.len() as int);
        let order = rest.insert(k, n - 1);
        lemma_insertion_place(items, le, rest, rest.len() as int);
        assert forall|i: int| 0 <= i < order.len() implies 0 <= #[trigger] order[i] < items.len() by {
            if i < k {
                assert(order[i] == rest[i]);
            } else if i > k {
                assert(order[i] == rest[i - 1]);
            }
        }
        assert forall|p: int| 0 <= p < items.len() implies #[trigger] order.contains(p) by {
            if p == n - 1 {
                assert(order[k] == p);
            } else {
                assert(rest.contains(p));
                let i = choose|i: int| 0 <= i < rest.len() && rest[i] == p;
                if i < k {
                    assert(order[i] == p);
                } else {
                    assert(order[i + 1] == p);
                }
            }
        }
        assert forall|i: int, j: int| 0 <= i < j < order.len() implies belongs_before(
            items,
            le,
            #[trigger] order[i],
            #[trigger] order[j],
        ) by {
            let a = if i < k {
                i
            } else {
                i - 1
            };
            let b = if j < k {
                j
            } else {
                j - 1
            };
            if i != k && j != k {
                assert(order[i] == rest[a] && order[j] == rest[b]);
                assert(belongs_before(fewer, le, rest[a], rest[b]));
            } else if j == k {
                assert(order[i] == rest[a]);
                if a < k - 1 {
                    assert(belongs_before(fewer, le, rest[a], rest[k - 1]));
                    assert(le(items[rest[a]], items[rest[k - 1]]));
                    assert(le(items[rest[k - 1]], items[n - 1]));
                }
                assert(le(items[rest[a]], items[n - 1]));
            } else {
                assert(order[j] == rest[b]);
                assert(!le(items[rest[b]], items[n - 1]));
                assert(le(items[n - 1], items[rest[b]]) || le(items[rest[b]], items[n - 1]));
            }
        }
        lemma_stable_order_sorts(items, le, order);
        order
    }
}

/// The place in `order` behind the last item, of the first `limit`, that the last of `items` may
/// stand behind.
spec fn insertion_place<A>(
    items: Seq<A>,
    le: spec_fn(A, A) -> bool,
    order: Seq<int>,
    limit: int,
) -> int
    decreases limit,
{
    if limit <= 0 || le(items[order[limit - 1]], items.last()) {
        limit
    } else {
        insertion_place(items, le, order, limit - 1)
    }
}

proof fn lemma_insertion_place<A>(
    items: Seq<A>,
    le: spec_fn(A, A) -> bool,
    order: Seq<int>,
    limit: int,
)
    requires
        0 <= limit <= order.len(),
    ensures
        ({
            let k = insertion_place(items, le, order, limit);
            &&& 0 <= k <= limit
            &&& k > 0 ==> le(items[order[k - 1]], items.last())
            &&& forall|i: int| k <= i < limit ==> !le(items[#[trigger] order[i]], items.last())
        }),
    decreases limit,
{
    if !(limit <= 0 || le(items[order[limit - 1]], items.last())) {
        lemma_insertion_place(items, le, order, limit - 1);
    }
}

/// A key to sort by.
pub trait SortKey: Sized {
    /// Whether the key is less than another one or equal to it.
    spec fn at_most(self, other: Self) -> bool;

    /// Any two keys are in order one way or the other.
    proof fn lemma_total(a: Self, b: Self)
        ensures
            a.at_most(b) || b.at_most(a),
    ;

    /// The order of keys is transitive.
    proof fn lemma_transitive(a: Self, b: Self, c: Self)
        requires
            a.at_most(b),
            b.at_most(c),
        ensures
            a.at_most(c),
    ;

    /// Whether the key is less than another one or equal to it.
    fn not_after(&self, other: &Self) -> (not_after: bool)
        ensures
            not_after == self.at_most(*other),
    ;
}

/// The order of keys as a relation.
pub open spec fn key_order<K: SortKey>() -> spec_fn(K, K) -> bool {
    |a: K, b: K| a.at_most(b)
}

/// Whether `order` names the places from `low` up to `high`, each where it belongs.
spec fn is_order_of_range<K: SortKey>(keys: Seq<K>, order: Seq<usize>, low: int, high: int) -> bool {
    &&& order.len() == high - low
    &&& forall|i: int| 0 <= i < order.len() ==> low <= #[trigger] order[i] < high
    &&& forall|p: usize| low <= p < high ==> #[trigger] order.contains(p)
    &&& ascends(keys, order)
}

spec fn ascends<K: SortKey>(keys: Seq<K>, order: Seq<usize>) -> bool {
    forall|i: int, j: int|
        0 <= i < j < order.len() ==> belongs_before(
            keys,
            key_order(),
            #[trigger] order[i] as int,
            #[trigger] order[j] as int,
        )
}

proof fn lemma_belongs_before_transitive<K: SortKey>(keys: Seq<K>, p: int, q: int, r: int)
    requires
        belongs_before(keys, key_order(), p, q),
        belongs_before(keys, key_order(), q, r),
    ensures
        belongs_before(keys, key_order(), p, r),
{
    K::lemma_transitive(keys[p], keys[q], keys[r]);
    if keys[r].at_most(keys[p]) {
        K::lemma_transitive(keys[r], keys[p], keys[q]);
        K::lemma_transitive(keys[q], keys[r], keys[p]);
    }
}

/// What a merge has done so far: `merged` holds the first `i` of `left` and the first `j` of
/// `right`, where they belong, and all that is left belongs behind them.
spec fn is_partial_merge<K: SortKey>(
    keys: Seq<K>,
    left: Seq<usize>,
    right: Seq<usize>,
    i: int,
    j: int,
    merged: Seq<usize>,
) -> bool {
    &&& merged.len() == i + j
    &&& ascends(keys, merged)
    &&& forall|k: int|
        0 <= k < merged.len() ==> left.contains(#[trigger] merged[k]) || right.contains(merged[k])
    &&& forall|k: int| 0 <= k < i ==> merged.contains(#[trigger] left[k])
    &&& forall|k: int| 0 <= k < j ==> merged.contains(#[trigger] right[k])
    &&& forall|k: int, l: int|
        0 <= k < merged.len() && i <= l < left.len() ==> belongs_before(
            keys,
            key_order(),
            #[trigger] merged[k] as int,
            #[trigger] left[l] as int,
        )
    &&& forall|k: int, l: int|
        0 <= k < merged.len() && j <= l < right.len() ==> belongs_before(
            keys,
            key_order(),
            #[trigger] merged[k] as int,
            #[trigger] right[l] as int,
        )
}

/// Moves the next place of one side over: `next` belongs before all that is left on both sides.
proof fn lemma_merge_step<K: SortKey>(
    keys: Seq<K>,
    left: Seq<usize>,
    right: Seq<usize>,
    i: int,
    j: int,
    merged: Seq<usize>,
    from_left: bool,
)
    requires
        0 <= i <= left.len(),
        0 <= j <= right.len(),
        ascends(keys, left),
        ascends(keys, right),
        is_partial_merge(keys, left, right, i, j, merged),
        from_left ==> i < left.len() && (j < right.len() ==> belongs_before(
            keys,
            key_order(),
            left[i] as int,
            right[j] as int,
        )),
        !from_left ==> j < right.len() && (i < left.len() ==> belongs_before(
            keys,
            key_order(),
            right[j] as int,
            left[i] as int,
        )),
    ensures
        from_left ==> is_partial_merge(keys, left, right, i + 1, j, merged.push(left[i])),
        !from_left ==> is_partial_merge(keys, left, right, i, j + 1, merged.push(right[j])),
{
    let next = if from_left {
        left[i]
    } else {
        right[j]
    };
    let after = merged.push(next);
    let i2 = if from_left {
        i + 1
    } else {
        i
    };
    let j2 = if from_left {
        j
    } else {
        j + 1
    };
    assert forall|k: int, l: int| 0 <= k < l < after.len() implies belongs_before(
        keys,
        key_order(),
        #[trigger] after[k] as int,
        #[trigger] after[l] as int,
    ) by {
        assert(after[k] == merged[k]);
        if l < merged.len() {
            assert(after[l] == merged[l]);
        }
    }
    assert forall|k: int| 0 <= k < i2 implies after.contains(#[trigger] left[k]) by {
        if k < i {
            assert(merged.contains(left[k]));
            let at = choose|at: int| 0 <= at < merged.len() && merged[at] == left[k];
            assert(after[at] == left[k]);
        } else {
            assert(after[merged.len() as int] == left[k]);
        }
    }
    assert forall|k: int| 0 <= k < j2 implies after.contains(#[trigger] right[k]) by {
        if k < j {
            assert(merged.contains(right[k]));
            let at = choose|at: int| 0 <= at < merged.len() && merged[at] == right[k];
            assert(after[at] == right[k]);
        } else {
            assert(after[merged.len() as int] == right[k]);
        }
    }
    assert forall|k: int, l: int| 0 <= k < after.len() && i2 <= l < left.len() implies belongs_before(
        keys,
        key_order(),
        #[trigger] after[k] as int,
        #[trigger] left[l] as int,
    ) by {
        if k < merged.len() {
            assert(after[k] == merged[k]);
        } else if from_left {
            assert(belongs_before(keys, key_order(), left[i] as int, left[l] as int));
        } else if l > i {
            assert(belongs_before(keys, key_order(), left[i] as int, left[l] as int));
            lemma_belongs_before_transitive(keys, right[j] as int, left[i] as int, left[l] as int);
        }
    }
    assert forall|k: int, l: int| 0 <= k < after.len() && j2 <= l < right.len() implies belongs_before(
        keys,
        key_order(),
        #[trigger] after[k] as int,
        #[trigger] right[l] as int,
    ) by {
        if k < merged.len() {
            assert(after[k] == merged[k]);
        } else if !from_left {
            assert(belongs_before(keys, key_order(), right[j] as int, right[l] as int));
        } else if l > j {
            assert(belongs_before(keys, key_order(), right[j] as int, right[l] as int));
            lemma_belongs_before_transitive(keys, left[i] as int, right[j] as int, right[l] as int);
        }
    }
}

/// Merges the orders of two neighbouring ranges.
fn merge_orders<K: SortKey>(
    keys: &Vec<K>,
    left: &Vec<usize>,
    right: &Vec<usize>,
    Ghost(low): Ghost<int>,
    Ghost(middle): Ghost<int>,
    Ghost(high): Ghost<int>,
) -> (merged: Vec<usize>)
    requires
        0 <= low <= middle <= high <= keys@.len(),
        is_order_of_range(keys@, left@, low, middle),
        is_order_of_range(keys@, right@, middle, high),
    ensures
        is_order_of_range(keys@, merged@, low, high),
{
    let mut merged: Vec<usize> = Vec::new();
    let mut i: usize = 0;
    let mut j: usize = 0;
    while i < left.len() || j < right.len()
        invariant
            0 <= low <= middle <= high <= keys@.len(),
            is_order_of_range(keys@, left@, low, middle),
            is_order_of_range(keys@, right@, middle, high),
            i <= left.len(),
            j <= right.len(),
            is_partial_merge(keys@, left@, right@, i as int, j as int, merged@),
        decreases left.len() - i + right.len() - j,
    {
        let from_left = if j >= right.len() {
            true
        } else if i >= left.len() {
            false
        } else {
            assert(low <= left@[i as int] < middle);
            assert(middle <= right@[j as int] < high);
            keys[left[i]].not_after(&keys[right[j]])
        };
        proof {
            if i < left@.len() && j < right@.len() {
                K::lemma_total(keys@[left@[i as int] as int], keys@[right@[j as int] as int]);
            }
            lemma_merge_step(
                keys@,
                left@,
                right@,
                i as int,
                j as int,
                merged@,
                from_left,
            );
        }
        if from_left {
            merged.push(left[i]);
            i = i + 1;
        } else {
            merged.push(right[j]);
            j = j + 1;
        }
    }
    proof {
        assert forall|k: int| 0 <= k < merged@.len() implies low <= #[trigger] merged@[k] < high by {
            if left@.contains(merged@[k]) {
                let l = choose|l: int| 0 <= l < left@.len() && left@[l] == merged@[k];
                assert(low <= left@[l] < middle);
            } else {
                let l = choose|l: int| 0 <= l < right@.len() && right@[l] == merged@[k];
                assert(middle <= right@[l] < high);
            }
        }
        assert forall|p: usize| low <= p < high implies #[trigger] merged@.contains(p) by {
            if p < middle {
                assert(left@.contains(p));
                let l = choose|l: int| 0 <= l < left@.len() && left@[l] == p;
                assert(merged@.contains(left@[l]));
            } else {
                assert(right@.contains(p));
                let l = choose|l: int| 0 <= l < right@.len() && right@[l] == p;
                assert(merged@.contains(right@[l]));
            }
        }
    }
    merged
}

/// The order of the keys from `low` up to `high`.
fn order_range<K: SortKey>(keys: &Vec<K>, low: usize, high: usize) -> (order: Vec<usize>)
    requires
        low <= high <= keys@.len(),
    ensures
        is_order_of_range(keys@, order@, low as int, high as int),
    decreases high - low,
{
    if high - low == 0 {
        Vec::new()
    } else if high - low == 1 {
        let mut order: Vec<usize> = Vec::new();
        order.push(low);
        assert(order@[0] == low);
        order
    } else {
        let middle = low + (high - low) / 2;
        let left = order_range(keys, low, middle);
        let right = order_range(keys, middle, high);
        merge_orders(
            keys,
            &left,
            &right,
            Ghost(low as int),
            Ghost(middle as int),
            Ghost(high as int),
        )
    }
}

/// Places as mathematical integers.
pub open spec fn places(order: Seq<usize>) -> Seq<int> {
    Seq::new(order.len(), |i: int| order[i] as int)
}

/// The order in which the keys are sorted: the place of the least one first, equal ones in the
/// order in which they stand.
pub fn stable_order<K: SortKey>(keys: &Vec<K>) -> (order: Vec<usize>)
    ensures
        is_stable_order(keys@, key_order(), places(order@)),
{
    let order = order_range(keys, 0, keys.len());
    proof {
        let named = places(order@);
        assert forall|i: int| 0 <= i < named.len() implies 0 <= #[trigger] named[i] < keys@.len() by {
            assert(0 <= order@[i] < keys@.len());
        }
        assert forall|p: int| 0 <= p < keys@.len() implies #[trigger] named.contains(p) by {
            assert(order@.contains(p as usize));
            let i = choose|i: int| 0 <= i < order@.len() && order@[i] == p as usize;
            assert(named[i] == p);
        }
        assert forall|i: int, j: int| 0 <= i < j < named.len() implies belongs_before(
            keys@,
            key_order(),
            #[trigger] named[i],
            #[trigger] named[j],
        ) by {
            assert(belongs_before(keys@, key_order(), order@[i] as int, order@[j] as int));
        }
    }
    order
}

/// Items in the order of their keys are stably sorted.
pub proof fn lemma_sorted_by_keys<K: SortKey, A>(
    keys: Seq<K>,
    order: Seq<int>,
    items: Seq<A>,
    le: spec_fn(A, A) -> bool,
)
    requires
        is_stable_order(keys, key_order(), order),
        items.len() == keys.len(),
        forall|p: int, q: int|
            0 <= p < keys.len() && 0 <= q < keys.len() ==> (#[trigger] keys[p].at_most(keys[q])
                == le(items[p], items[q])),
    ensures
        rearranged(items, order) == stable_sort(items, le),
{
    assert forall|i: int, j: int| 0 <= i < j < order.len() implies belongs_before(
        items,
        le,
        #[trigger] order[i],
        #[trigger] order[j],
    ) by {
        let p = order[i];
        let q = order[j];
        assert(belongs_before(keys, key_order(), p, q));
        assert(keys[p].at_most(keys[q]) == le(items[p], items[q]));
        assert(keys[q].at_most(keys[p]) == le(items[q], items[p]));
    }
    lemma_stable_order_sorts(items, le, order);
}

} // verus!
