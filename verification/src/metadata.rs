//! Metadata: values of several kinds under string keys.
use crate::date::{DateView, NaiveDate};
use crate::holdings::{Amount, AmountView};
use crate::number::{Number, NumberView};
use crate::text::{lemma_text_lt_irreflexive, lemma_text_lt_total, lemma_text_lt_transitive};
use crate::text::{same_text, text_lt, text_precedes};
use crate::views::Duplicate;
use vstd::prelude::*;

verus! {

/// What a [`MetaValue`] holds.
pub enum MetaValueView {
    String(Seq<char>),
    Number(NumberView),
    Int(i64),
    Date(DateView),
    Bool(bool),
    Amount(AmountView),
    Account(Seq<char>),
    Currency(Seq<char>),
    Tag(Seq<char>),
    Link(Seq<char>),
    Empty,
}

/// A metadata value.
#[derive(Debug, PartialEq, Eq)]
pub enum MetaValue {
    String(String),
    Number(Number),
    Int(i64),
    Date(NaiveDate),
    Bool(bool),
    Amount(Amount),
    Account(String),
    Currency(String),
    Tag(String),
    Link(String),
    Empty,
}

impl View for MetaValue {
    type V = MetaValueView;

    open spec fn view(&self) -> MetaValueView {
        match self {
            MetaValue::String(s) => MetaValueView::String(s@),
            MetaValue::Number(n) => MetaValueView::Number(n@),
            MetaValue::Int(i) => MetaValueView::Int(*i),
            MetaValue::Date(d) => MetaValueView::Date(d@),
            MetaValue::Bool(b) => MetaValueView::Bool(*b),
            MetaValue::Amount(a) => MetaValueView::Amount(a@),
            MetaValue::Account(a) => MetaValueView::Account(a@),
            MetaValue::Currency(c) => MetaValueView::Currency(c@),
            MetaValue::Tag(t) => MetaValueView::Tag(t@),
            MetaValue::Link(l) => MetaValueView::Link(l@),
            MetaValue::Empty => MetaValueView::Empty,
        }
    }
}

impl Duplicate for MetaValue {
    fn duplicate(&self) -> (copy: MetaValue) {
        match self {
            MetaValue::String(s) => MetaValue::String(s.duplicate()),
            MetaValue::Number(n) => MetaValue::Number(*n),
            MetaValue::Int(i) => MetaValue::Int(*i),
            MetaValue::Date(d) => MetaValue::Date(*d),
            MetaValue::Bool(b) => MetaValue::Bool(*b),
            MetaValue::Amount(a) => MetaValue::Amount(a.duplicate()),
            MetaValue::Account(a) => MetaValue::Account(a.duplicate()),
            MetaValue::Currency(c) => MetaValue::Currency(c.duplicate()),
            MetaValue::Tag(t) => MetaValue::Tag(t.duplicate()),
            MetaValue::Link(l) => MetaValue::Link(l.duplicate()),
            MetaValue::Empty => MetaValue::Empty,
        }
    }
}

#[derive(Debug, PartialEq, Eq)]
struct MetaEntry {
    key: String,
    value: MetaValue,
}

/// The values under a set of keys.
#[derive(Debug, PartialEq, Eq)]
pub struct Metadata {
    entries: Vec<MetaEntry>,
}

/// Whether the keys stand in ascending order, so that none occurs twice.
spec fn keys_ascend(entries: Seq<MetaEntry>) -> bool {
    forall|i: int, j: int|
        0 <= i < j < entries.len() ==> text_lt(#[trigger] entries[i].key@, #[trigger] entries[j].key@)
}

/// Whether `key` stands at `i`.
spec fn stands_at(entries: Seq<MetaEntry>, key: Seq<char>, i: int) -> bool {
    0 <= i < entries.len() && entries[i].key@ == key
}

/// The value under each key.
spec fn entries_map(entries: Seq<MetaEntry>) -> Map<Seq<char>, MetaValueView> {
    Map::new(
        |key: Seq<char>| exists|i: int| stands_at(entries, key, i),
        |key: Seq<char>| entries[choose|i: int| stands_at(entries, key, i)].value@,
    )
}

/// A key that stands at `i` leads to the value there.
proof fn lemma_entry_found(entries: Seq<MetaEntry>, i: int)
    requires
        keys_ascend(entries),
        0 <= i < entries.len(),
    ensures
        entries_map(entries).contains_key(entries[i].key@),
        entries_map(entries)[entries[i].key@] == entries[i].value@,
{
    let key = entries[i].key@;
    assert(stands_at(entries, key, i));
    let j = choose|j: int| stands_at(entries, key, j);
    assert(stands_at(entries, key, j));
    lemma_text_lt_irreflexive(key);
    if i < j {
        assert(text_lt(entries[i].key@, entries[j].key@));
    } else if j < i {
        assert(text_lt(entries[j].key@, entries[i].key@));
    }
}

impl View for Metadata {
    type V = Map<Seq<char>, MetaValueView>;

    closed spec fn view(&self) -> Map<Seq<char>, MetaValueView> {
        entries_map(self.entries@)
    }
}

/// The value that `meta` has under `key`.
pub open spec fn meta_entry(meta: Map<Seq<char>, MetaValueView>, key: Seq<char>) -> Option<
    MetaValueView,
> {
    if meta.contains_key(key) {
        Some(meta[key])
    } else {
        None
    }
}

impl Metadata {
    #[verifier::type_invariant]
    closed spec fn keys_in_order(self) -> bool {
        keys_ascend(self.entries@)
    }

    /// No values.
    pub fn new() -> (meta: Metadata)
        ensures
            meta@ == Map::<Seq<char>, MetaValueView>::empty(),
    {
        let meta = Metadata { entries: Vec::new() };
        assert(meta@ =~= Map::empty());
        meta
    }

    /// The value under `key`.
    pub fn get(&self, key: &str) -> (value: Option<&MetaValue>)
        ensures
            match value {
                Some(v) => meta_entry(self@, key@) == Some(v@),
                None => meta_entry(self@, key@) is None,
            },
    {
        proof {
            use_type_invariant(self);
        }
        let mut i: usize = 0;
        while i < self.entries.len()
            invariant
                keys_ascend(self.entries@),
                i <= self.entries.len(),
                forall|j: int| 0 <= j < i ==> #[trigger] self.entries@[j].key@ != key@,
            decreases self.entries.len() - i,
        {
            if same_text(self.entries[i].key.as_str(), key) {
                proof {
                    lemma_entry_found(self.entries@, i as int);
                }
                return Some(&self.entries[i].value);
            }
            i = i + 1;
        }
        None
    }

    /// Whether there is a value under `key`.
    pub fn contains_key(&self, key: &str) -> (contains: bool)
        ensures
            contains == self@.contains_key(key@),
    {
        self.get(key).is_some()
    }

    /// Puts `value` under `key`, in place of what was there.
    pub fn insert(&mut self, key: String, value: MetaValue)
        ensures
            final(self)@ == old(self)@.insert(key@, value@),
    {
        proof {
            use_type_invariant(&*self);
        }
        let ghost before = self.entries@;
        let mut entries: Vec<MetaEntry> = Vec::new();
        std::mem::swap(&mut entries, &mut self.entries);
        let mut at: usize = 0;
        while at < entries.len() && text_precedes(entries[at].key.as_str(), key.as_str())
            invariant
                entries@ == before,
                keys_ascend(before),
                at <= entries.len(),
                forall|j: int| 0 <= j < at ==> text_lt(#[trigger] before[j].key@, key@),
            decreases entries.len() - at,
        {
            at = at + 1;
        }
        let replaces = at < entries.len() && same_text(entries[at].key.as_str(), key.as_str());
        if replaces {
            entries.remove(at);
        }
        entries.insert(at, MetaEntry { key, value });
        proof {
            lemma_inserted(before, at as int, replaces, entries@[at as int]);
        }
        self.entries = entries;
    }
}

/// The map after an entry was put at its place, over the entry that stood there or before it.
proof fn lemma_inserted(before: Seq<MetaEntry>, at: int, replaces: bool, entry: MetaEntry)
    requires
        keys_ascend(before),
        0 <= at <= before.len(),
        forall|j: int| 0 <= j < at ==> text_lt(#[trigger] before[j].key@, entry.key@),
        at < before.len() ==> !text_lt(before[at].key@, entry.key@),
        replaces == (at < before.len() && before[at].key@ == entry.key@),
    ensures
        ({
            let rest = if replaces {
                before.remove(at)
            } else {
                before
            };
            let after = rest.insert(at, entry);
            &&& keys_ascend(after)
            &&& entries_map(after) == entries_map(before).insert(entry.key@, entry.value@)
        }),
{
    let rest = if replaces {
        before.remove(at)
    } else {
        before
    };
    let after = rest.insert(at, entry);
    let shift: int = if replaces {
        0
    } else {
        1
    };
    let k = entry.key@;
    assert forall|j: int| at < j < after.len() implies text_lt(k, #[trigger] after[j].key@) by {
        let b = before[j - shift].key@;
        assert(after[j] == before[j - shift]);
        lemma_text_lt_total(before[at].key@, k);
        if j - shift > at {
            assert(text_lt(before[at].key@, b));
            if before[at].key@ != k {
                lemma_text_lt_transitive(k, before[at].key@, b);
            }
        }
    }
    assert(after[at] == entry);
    assert forall|i: int, j: int| 0 <= i < j < after.len() implies text_lt(
        #[trigger] after[i].key@,
        #[trigger] after[j].key@,
    ) by {
        if j < at {
            assert(after[i] == before[i] && after[j] == before[j]);
        } else if i < at && j == at {
            assert(after[i] == before[i]);
        } else if i < at {
            assert(after[i] == before[i]);
            lemma_text_lt_transitive(after[i].key@, k, after[j].key@);
        } else if i > at {
            assert(after[i] == before[i - shift] && after[j] == before[j - shift]);
        }
    }
    assert(keys_ascend(after));
    let expected = entries_map(before).insert(k, entry.value@);
    assert forall|key: Seq<char>| #[trigger]
        entries_map(after).contains_key(key) == expected.contains_key(key) && (expected.contains_key(
        key,
    ) ==> entries_map(after)[key] == expected[key]) by {
        lemma_entry_found(after, at);
        if key != k {
            if entries_map(after).contains_key(key) {
                let i = choose|i: int| stands_at(after, key, i);
                assert(stands_at(after, key, i));
                let from = if i < at {
                    i
                } else {
                    i - shift
                };
                assert(after[i] == before[from]);
                lemma_entry_found(before, from);
                lemma_entry_found(after, i);
            }
            if entries_map(before).contains_key(key) {
                let i = choose|i: int| stands_at(before, key, i);
                assert(stands_at(before, key, i));
                let to = if i < at {
                    i
                } else {
                    i + shift
                };
                assert(after[to] == before[i]);
                lemma_entry_found(before, i);
                lemma_entry_found(after, to);
            }
        }
    }
    assert(entries_map(after) =~= expected);
}

impl Duplicate for Metadata {
    fn duplicate(&self) -> (copy: Metadata) {
        proof {
            use_type_invariant(self);
        }
        let mut entries: Vec<MetaEntry> = Vec::new();
        let mut i: usize = 0;
        while i < self.entries.len()
            invariant
                i <= self.entries.len(),
                entries.len() == i,
                forall|j: int|
                    0 <= j < i ==> #[trigger] entries@[j].key@ == self.entries@[j].key@
                        && entries@[j].value@ == self.entries@[j].value@,
            decreases self.entries.len() - i,
        {
            let entry = &self.entries[i];
            let ghost copied = entries@;
            entries.push(
                MetaEntry { key: entry.key.duplicate(), value: entry.value.duplicate() },
            );
            assert forall|j: int| 0 <= j < i + 1 implies #[trigger] entries@[j].key@
                == self.entries@[j].key@ && entries@[j].value@ == self.entries@[j].value@ by {
                if j < i {
                    assert(entries@[j] == copied[j]);
                }
            }
            i = i + 1;
        }
        proof {
            let from = self.entries@;
            let to = entries@;
            assert forall|i: int, j: int| 0 <= i < j < to.len() implies text_lt(
                #[trigger] to[i].key@,
                #[trigger] to[j].key@,
            ) by {
                assert(text_lt(from[i].key@, from[j].key@));
            }
            assert forall|key: Seq<char>| #[trigger]
                entries_map(to).contains_key(key) == entries_map(from).contains_key(key) && (
            entries_map(from).contains_key(key) ==> entries_map(to)[key] == entries_map(from)[key]) by {
                if entries_map(to).contains_key(key) {
                    let i = choose|i: int| stands_at(to, key, i);
                    assert(stands_at(from, key, i));
                    lemma_entry_found(from, i);
                    lemma_entry_found(to, i);
                }
                if entries_map(from).contains_key(key) {
                    let i = choose|i: int| stands_at(from, key, i);
                    assert(to[i].key@ == from[i].key@);
                    assert(stands_at(to, key, i));
                    lemma_entry_found(from, i);
                    lemma_entry_found(to, i);
                }
            }
            assert(entries_map(to) =~= entries_map(from));
        }
        Metadata { entries }
    }
}

} // verus!
