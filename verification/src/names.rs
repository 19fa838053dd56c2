//! Sets of names, in order.
use crate::text::{
    lemma_text_lt_irreflexive, lemma_text_lt_total, lemma_text_lt_transitive, same_text, text_lt,
    text_precedes,
};
use crate::views::seq_view;
use vstd::prelude::*;

verus! {

/// Whether each name comes before all that follow it, so that none occurs twice.
pub open spec fn names_ascend(names: Seq<Seq<char>>) -> bool {
    forall|i: int, j: int|
        0 <= i < j < names.len() ==> text_lt(#[trigger] names[i], #[trigger] names[j])
}

/// Puts a name into a set of names in order, if it is not there.
pub open spec fn insert_name(names: Seq<Seq<char>>, name: Seq<char>) -> Seq<Seq<char>>
    decreases names.len(),
{
    if names.len() == 0 || text_lt(names.last(), name) {
        names.push(name)
    } else if names.last() == name {
        names
    } else {
        insert_name(names.drop_last(), name).push(names.last())
    }
}

/// The names that occur, each once and in order.
pub open spec fn name_set(names: Seq<Seq<char>>) -> Seq<Seq<char>>
    decreases names.len(),
{
    if names.len() == 0 {
        Seq::empty()
    } else {
        insert_name(name_set(names.drop_last()), names.last())
    }
}

proof fn lemma_insert_name(names: Seq<Seq<char>>, name: Seq<char>)
    requires
        names_ascend(names),
    ensures
        names_ascend(insert_name(names, name)),
        forall|n: Seq<char>| #[trigger]
            insert_name(names, name).contains(n) == (n == name || names.contains(n)),
        names.len() <= insert_name(names, name).len(),
    decreases names.len(),
{
    let after = insert_name(names, name);
    if names.len() == 0 || text_lt(names.last(), name) {
        assert forall|i: int, j: int| 0 <= i < j < after.len() implies text_lt(
            #[trigger] after[i],
            #[trigger] after[j],
        ) by {
            if j == names.len() && i < names.len() - 1 {
                assert(text_lt(names[i], names[names.len() - 1]));
                lemma_text_lt_transitive(names[i], names.last(), name);
            }
        }
        assert forall|n: Seq<char>| #[trigger]
            after.contains(n) == (n == name || names.contains(n)) by {
            if names.contains(n) {
                let i = choose|i: int| 0 <= i < names.len() && names[i] == n;
                assert(after[i] == n);
            }
            assert(after[names.len() as int] == name);
        }
    } else if names.last() == name {
        assert(names.contains(name)) by {
            assert(names[names.len() - 1] == name);
        }
    } else {
        let fewer = names.drop_last();
        let inner = insert_name(fewer, name);
        lemma_insert_name(fewer, name);
        lemma_text_lt_total(names.last(), name);
        assert forall|i: int, j: int| 0 <= i < j < after.len() implies text_lt(
            #[trigger] after[i],
            #[trigger] after[j],
        ) by {
            if j == inner.len() {
                assert(after[j] == names.last());
                assert(inner.contains(inner[i]));
                if inner[i] != name {
                    let k = choose|k: int| 0 <= k < fewer.len() && fewer[k] == inner[i];
                    assert(text_lt(names[k], names[names.len() - 1]));
                }
            }
        }
        assert forall|n: Seq<char>| #[trigger]
            after.contains(n) == (n == name || names.contains(n)) by {
            if after.contains(n) {
                let i = choose|i: int| 0 <= i < after.len() && after[i] == n;
                if i < inner.len() {
                    assert(inner.contains(n));
                    if n != name {
                        let k = choose|k: int| 0 <= k < fewer.len() && fewer[k] == n;
                        assert(names[k] == n);
                    }
                } else {
                    assert(names[names.len() - 1] == n);
                }
            }
            if n == name || fewer.contains(n) {
                assert(inner.contains(n));
                let i = choose|i: int| 0 <= i < inner.len() && inner[i] == n;
                assert(after[i] == n);
            }
            if names.contains(n) && !fewer.contains(n) {
                let k = choose|k: int| 0 <= k < names.len() && names[k] == n;
                if k < fewer.len() {
                    assert(fewer[k] == n);
                }
                assert(after[inner.len() as int] == n);
            }
        }
    }
}

/// A name that is put into names in ascending order is there then, once and in its place, and
/// nothing else changes.
pub proof fn law_insert_name(names: Seq<Seq<char>>, name: Seq<char>)
    requires
        names_ascend(names),
    ensures
        forall|i: int, j: int|
            0 <= i < j < insert_name(names, name).len() ==> text_lt(
                #[trigger] insert_name(names, name)[i],
                #[trigger] insert_name(names, name)[j],
            ),
        forall|n: Seq<char>| #[trigger]
            insert_name(names, name).contains(n) <==> n == name || names.contains(n),
{
    lemma_insert_name(names, name);
}

/// The law of name sets: a name set is in ascending order, so that no name occurs twice, and
/// holds the names that occur and no others.
pub proof fn law_name_set(names: Seq<Seq<char>>)
    ensures
        names_ascend(name_set(names)),
        forall|n: Seq<char>| #[trigger] name_set(names).contains(n) == names.contains(n),
    decreases names.len(),
{
    if names.len() > 0 {
        let fewer = names.drop_last();
        law_name_set(fewer);
        lemma_insert_name(name_set(fewer), names.last());
        assert forall|n: Seq<char>| #[trigger] name_set(names).contains(n) == names.contains(n) by {
            if names.contains(n) {
                let k = choose|k: int| 0 <= k < names.len() && names[k] == n;
                if k < fewer.len() {
                    assert(fewer[k] == n);
                }
            }
            if fewer.contains(n) {
                let k = choose|k: int| 0 <= k < fewer.len() && fewer[k] == n;
                assert(names[k] == n);
            }
            if n == names.last() {
                assert(names[names.len() - 1] == n);
            }
        }
    }
}

/// There is only one way to put a set of names in order.
pub proof fn lemma_ascending_names_unique(a: Seq<Seq<char>>, b: Seq<Seq<char>>)
    requires
        names_ascend(a),
        names_ascend(b),
        forall|n: Seq<char>| #[trigger] a.contains(n) == b.contains(n),
    ensures
        a == b,
    decreases a.len(),
{
    if a.len() == 0 || b.len() == 0 {
        if a.len() > 0 {
            assert(a.contains(a[0]));
        }
        if b.len() > 0 {
            assert(a.contains(b[0]) == b.contains(b[0]));
        }
        assert(a =~= b);
    } else {
        let x = a.last();
        let y = b.last();
        assert(a[a.len() - 1] == x && b[b.len() - 1] == y);
        assert(a.contains(x) == b.contains(x));
        assert(a.contains(y) == b.contains(y));
        let i = choose|i: int| 0 <= i < b.len() && b[i] == x;
        let j = choose|j: int| 0 <= j < a.len() && a[j] == y;
        if x != y {
            assert(text_lt(b[i], b[b.len() - 1]));
            assert(text_lt(a[j], a[a.len() - 1]));
            lemma_text_lt_total(x, y);
        }
        let a1 = a.drop_last();
        let b1 = b.drop_last();
        assert forall|n: Seq<char>| #[trigger] a1.contains(n) == b1.contains(n) by {
            if a1.contains(n) {
                let k = choose|k: int| 0 <= k < a1.len() && a1[k] == n;
                assert(text_lt(a[k], a[a.len() - 1]));
                lemma_text_lt_irreflexive(x);
                assert(a[k] == n);
                assert(a.contains(n));
                let l = choose|l: int| 0 <= l < b.len() && b[l] == n;
                assert(b1[l] == n);
            }
            if b1.contains(n) {
                let k = choose|k: int| 0 <= k < b1.len() && b1[k] == n;
                assert(text_lt(b[k], b[b.len() - 1]));
                lemma_text_lt_irreflexive(y);
                assert(b[k] == n);
                assert(a.contains(n) == b.contains(n));
                let l = choose|l: int| 0 <= l < a.len() && a[l] == n;
                assert(a1[l] == n);
            }
        }
        lemma_ascending_names_unique(a1, b1);
        assert(a =~= a1.push(x));
        assert(b =~= b1.push(y));
    }
}

/// Where a name comes to stand before `back`.
proof fn lemma_insert_name_before(front: Seq<Seq<char>>, back: Seq<Seq<char>>, name: Seq<char>)
    requires
        forall|i: int| 0 <= i < back.len() ==> text_lt(name, #[trigger] back[i]),
    ensures
        insert_name(front + back, name) == insert_name(front, name) + back,
    decreases back.len(),
{
    let all = front + back;
    if back.len() == 0 {
        assert(all == front);
        assert(insert_name(front, name) + back == insert_name(front, name));
    } else {
        assert(all.last() == back[back.len() - 1]);
        lemma_text_lt_total(name, all.last());
        lemma_text_lt_irreflexive(name);
        assert(all.drop_last() == front + back.drop_last());
        lemma_insert_name_before(front, back.drop_last(), name);
        assert((insert_name(front, name) + back.drop_last()).push(back.last()) == insert_name(
            front,
            name,
        ) + back);
    }
}

/// Puts a name into a set of names in order, if it is not there.
pub fn add_name(names: &mut Vec<String>, name: &str)
    ensures
        seq_view(final(names)@) == insert_name(seq_view(old(names)@), name@),
{
    let mut at: usize = names.len();
    while at > 0 && text_precedes(name, names[at - 1].as_str())
        invariant
            at <= names.len(),
            names@ == old(names)@,
            forall|i: int| at <= i < names@.len() ==> text_lt(name@, #[trigger] names@[i]@),
        decreases at,
    {
        at = at - 1;
    }
    let ghost before = seq_view(names@);
    let ghost front = before.take(at as int);
    let ghost back = before.skip(at as int);
    proof {
        assert(before == front + back);
        lemma_insert_name_before(front, back, name@);
        if at > 0 {
            assert(front.last() == names@[at - 1]@);
            lemma_text_lt_total(front.last(), name@);
            lemma_text_lt_irreflexive(name@);
        }
    }
    if at > 0 && same_text(names[at - 1].as_str(), name) {
        return;
    }
    names.insert(at, name.to_owned());
    assert(seq_view(names@) =~= front.push(name@) + back);
}

} // verus!
