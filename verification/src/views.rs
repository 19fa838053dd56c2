//! What collections hold, and copies that hold the same.
use vstd::prelude::*;

verus! {

/// What an optional value holds.
pub open spec fn option_view<T: View>(value: Option<T>) -> Option<T::V> {
    match value {
        Some(v) => Some(v@),
        None => None,
    }
}

/// What the items of a sequence hold.
pub open spec fn seq_view<T: View>(items: Seq<T>) -> Seq<T::V> {
    Seq::new(items.len(), |i: int| items[i]@)
}

/// A type of which a copy can be made that holds the same.
pub trait Duplicate: View + Sized {
    /// A copy that holds the same.
    fn duplicate(&self) -> (copy: Self)
        ensures
            copy@ == self@,
    ;
}

impl Duplicate for String {
    fn duplicate(&self) -> (copy: String) {
        self.clone()
    }
}

/// A copy of an optional value.
pub fn duplicate_option<T: Duplicate>(value: &Option<T>) -> (copy: Option<T>)
    ensures
        option_view(copy) == option_view(*value),
{
    match value {
        Some(v) => Some(v.duplicate()),
        None => None,
    }
}

/// A copy of a vector.
pub fn duplicate_vec<T: Duplicate>(items: &Vec<T>) -> (copy: Vec<T>)
    ensures
        seq_view(copy@) == seq_view(items@),
{
    let mut copy: Vec<T> = Vec::new();
    let mut i: usize = 0;
    while i < items.len()
        invariant
            i <= items.len(),
            seq_view(copy@) == seq_view(items@.take(i as int)),
        decreases items.len() - i,
    {
        copy.push(items[i].duplicate());
        i = i + 1;
        proof {
            lemma_seq_view_push(items@.take(i - 1), items@[i - 1]);
            lemma_seq_view_push(copy@.drop_last(), copy@.last());
            assert(items@.take(i as int) == items@.take(i - 1).push(items@[i - 1]));
            assert(copy@ == copy@.drop_last().push(copy@.last()));
        }
    }
    assert(items@.take(i as int) == items@);
    copy
}

/// What a sequence holds that one more item was put to.
pub proof fn lemma_seq_view_push<T: View>(items: Seq<T>, item: T)
    ensures
        seq_view(items.push(item)) == seq_view(items).push(item@),
{
    assert(seq_view(items.push(item)) =~= seq_view(items).push(item@));
}

} // verus!
