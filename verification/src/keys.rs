//! What the rows of a table are sorted by.
use crate::date::{DateView, NaiveDate};
use crate::sorting::SortKey;
use crate::text::{
    lemma_text_lt_irreflexive, lemma_text_lt_total, lemma_text_lt_transitive, same_text, text_lt,
    text_precedes,
};
use vstd::prelude::*;

verus! {

/// What a [`RowKey`] holds.
pub struct RowKeyView {
    pub date: DateView,
    pub name: Seq<char>,
    pub detail: Seq<char>,
}

impl RowKeyView {
    /// Whether this key comes before another one: by date, then by name, then by detail.
    pub open spec fn precedes(self, other: RowKeyView) -> bool {
        if self.date != other.date {
            self.date.precedes(other.date)
        } else if self.name != other.name {
            text_lt(self.name, other.name)
        } else {
            text_lt(self.detail, other.detail)
        }
    }

    /// Whether this key comes before another one or is equal to it.
    pub open spec fn at_most(self, other: RowKeyView) -> bool {
        self == other || self.precedes(other)
    }
}

/// The date of a row, the name that rows of one date are sorted by, and what rows of one name
/// are sorted by then.
pub struct RowKey<'a> {
    pub date: NaiveDate,
    pub name: &'a str,
    pub detail: &'a str,
}

impl<'a> View for RowKey<'a> {
    type V = RowKeyView;

    open spec fn view(&self) -> RowKeyView {
        RowKeyView { date: self.date@, name: self.name@, detail: self.detail@ }
    }
}

/// Any two row keys are in order one way or the other.
pub proof fn lemma_row_keys_total(a: RowKeyView, b: RowKeyView)
    ensures
        a.at_most(b) || b.at_most(a),
        a.at_most(b) && b.at_most(a) ==> a == b,
{
    lemma_text_lt_total(a.name, b.name);
    lemma_text_lt_total(a.detail, b.detail);
}

/// The order of row keys is transitive.
pub proof fn lemma_row_keys_transitive(a: RowKeyView, b: RowKeyView, c: RowKeyView)
    requires
        a.at_most(b),
        b.at_most(c),
    ensures
        a.at_most(c),
{
    if a != b && b != c {
        lemma_text_lt_total(a.name, b.name);
        lemma_text_lt_total(b.name, c.name);
        if text_lt(a.name, b.name) && text_lt(b.name, c.name) {
            lemma_text_lt_transitive(a.name, b.name, c.name);
            lemma_text_lt_irreflexive(a.name);
        }
        if text_lt(a.detail, b.detail) && text_lt(b.detail, c.detail) {
            lemma_text_lt_transitive(a.detail, b.detail, c.detail);
        }
    }
}

impl<'a> SortKey for RowKey<'a> {
    open spec fn at_most(self, other: RowKey<'a>) -> bool {
        self@.at_most(other@)
    }

    proof fn lemma_total(a: RowKey<'a>, b: RowKey<'a>) {
        lemma_row_keys_total(a@, b@);
    }

    proof fn lemma_transitive(a: RowKey<'a>, b: RowKey<'a>, c: RowKey<'a>) {
        lemma_row_keys_transitive(a@, b@, c@);
    }

    fn not_after(&self, other: &RowKey<'a>) -> (not_after: bool) {
        proof {
            lemma_text_lt_total(self.name@, other.name@);
            lemma_text_lt_total(self.detail@, other.detail@);
        }
        if self.date.precedes(&other.date) {
            true
        } else if other.date.precedes(&self.date) {
            false
        } else if !same_text(self.name, other.name) {
            text_precedes(self.name, other.name)
        } else {
            !text_precedes(other.detail, self.detail)
        }
    }
}

/// A row that is sorted by a name alone.
pub struct NameKey<'a> {
    pub name: &'a str,
}

/// Whether a name comes before another one or is equal to it.
pub open spec fn name_at_most(a: Seq<char>, b: Seq<char>) -> bool {
    a == b || text_lt(a, b)
}

impl<'a> SortKey for NameKey<'a> {
    open spec fn at_most(self, other: NameKey<'a>) -> bool {
        name_at_most(self.name@, other.name@)
    }

    proof fn lemma_total(a: NameKey<'a>, b: NameKey<'a>) {
        lemma_text_lt_total(a.name@, b.name@);
    }

    proof fn lemma_transitive(a: NameKey<'a>, b: NameKey<'a>, c: NameKey<'a>) {
        if a.name@ != b.name@ && b.name@ != c.name@ {
            lemma_text_lt_transitive(a.name@, b.name@, c.name@);
        }
    }

    fn not_after(&self, other: &NameKey<'a>) -> (not_after: bool) {
        proof {
            lemma_text_lt_total(self.name@, other.name@);
            lemma_text_lt_irreflexive(self.name@);
        }
        !text_precedes(other.name, self.name)
    }
}

} // verus!
