//! Tables whose rows are made of items, one each, and sorted.
use crate::keys::{RowKey, RowKeyView};
use crate::sorting::{lemma_sorted_by_keys, places, rearranged, stable_order, stable_sort, SortKey};
use crate::value::{Table, TableView, Value, ValueView};
use crate::views::{lemma_seq_view_push, option_view, seq_view};
use vstd::prelude::*;

verus! {

/// What string slices hold.
pub open spec fn texts_view(texts: Seq<&str>) -> Seq<Seq<char>> {
    Seq::new(texts.len(), |i: int| texts[i]@)
}

/// A table without rows.
pub fn empty_table(columns: Vec<&str>) -> (table: Table)
    ensures
        table@ == (TableView {
            columns: texts_view(columns@),
            rows: Seq::<Seq<ValueView>>::empty(),
        }),
{
    let mut names: Vec<String> = Vec::new();
    let mut i: usize = 0;
    while i < columns.len()
        invariant
            i <= columns.len(),
            names.len() == i,
            forall|k: int| 0 <= k < i ==> #[trigger] names@[k]@ == columns@[k]@,
        decreases columns.len() - i,
    {
        names.push(columns[i].to_owned());
        i = i + 1;
    }
    assert(seq_view(names@) =~= texts_view(columns@));
    Table::new(names)
}

/// What `pick` takes from the items, in their order.
pub open spec fn picked<A, B>(items: Seq<A>, pick: spec_fn(A) -> Option<B>) -> Seq<B>
    decreases items.len(),
{
    if items.len() == 0 {
        Seq::empty()
    } else {
        let before = picked(items.drop_last(), pick);
        match pick(items.last()) {
            Some(item) => before.push(item),
            None => before,
        }
    }
}

/// One more item.
pub proof fn lemma_picked_next<A, B>(items: Seq<A>, pick: spec_fn(A) -> Option<B>, n: int)
    requires
        0 <= n < items.len(),
    ensures
        picked(items.take(n + 1), pick) == (match pick(items[n]) {
            Some(item) => picked(items.take(n), pick).push(item),
            None => picked(items.take(n), pick),
        }),
{
    assert(items.take(n + 1).drop_last() == items.take(n));
}

/// An item that is found in some of the sources.
pub trait PickedFrom<S: View>: View + Sized {
    /// What is found in a source.
    spec fn picking() -> spec_fn(S::V) -> Option<Self::V>;

    /// The item in the source, where there is one.
    fn pick(source: &S) -> (item: Option<&Self>)
        ensures
            option_view(item) == Self::picking()(source@),
    ;
}

/// The items in the sources, in their order.
pub fn pick_all<S: View, T: PickedFrom<S>>(sources: &Vec<S>) -> (items: Vec<&T>)
    ensures
        seq_view(items@) == picked(seq_view(sources@), T::picking()),
{
    let ghost models = seq_view(sources@);
    let mut items: Vec<&T> = Vec::new();
    assert(seq_view(items@) =~= picked(models.take(0), T::picking()));
    let mut i: usize = 0;
    while i < sources.len()
        invariant
            i <= sources.len(),
            models == seq_view(sources@),
            seq_view(items@) == picked(models.take(i as int), T::picking()),
        decreases sources.len() - i,
    {
        proof {
            assert(models[i as int] == sources@[i as int]@);
            lemma_picked_next(models, T::picking(), i as int);
        }
        if let Some(item) = T::pick(&sources[i]) {
            proof {
                lemma_seq_view_push(items@, item);
            }
            items.push(item);
        }
        i = i + 1;
    }
    assert(models.take(i as int) == models);
    items
}

/// The cells of a row, and what it is sorted by.
pub struct KeyedRow {
    pub key: RowKeyView,
    pub cells: Seq<ValueView>,
}

/// The order of items by the keys of their rows.
pub open spec fn by_row_key<A>(row: spec_fn(A) -> KeyedRow) -> spec_fn(A, A) -> bool {
    |a: A, b: A| row(a).key.at_most(row(b).key)
}

/// A row for each item, sorted by their keys; items with equal keys stay in their order.
pub open spec fn sorted_rows<A>(items: Seq<A>, row: spec_fn(A) -> KeyedRow) -> Seq<Seq<ValueView>> {
    stable_sort(items, by_row_key(row)).map_values(|item: A| row(item).cells)
}

/// An item that makes a row of a table.
pub trait TableRow: View {
    /// The row, with what it is sorted by.
    spec fn keyed_row() -> spec_fn(Self::V) -> KeyedRow;

    /// What the row is sorted by.
    fn row_key(&self) -> (key: RowKey<'_>)
        ensures
            key@ == Self::keyed_row()(self@).key,
    ;

    /// The cells of the row.
    fn cells(&self) -> (cells: Vec<Value>)
        ensures
            seq_view(cells@) == Self::keyed_row()(self@).cells,
    ;
}

/// The table with a row for each item, in order of their keys.
pub fn sorted_table<T: TableRow>(columns: Vec<&str>, items: Vec<&T>) -> (table: Table)
    ensures
        table@ == (TableView {
            columns: texts_view(columns@),
            rows: sorted_rows(seq_view(items@), T::keyed_row()),
        }),
{
    let ghost models = seq_view(items@);
    let ghost row = T::keyed_row();
    let mut keys: Vec<RowKey<'_>> = Vec::new();
    let mut i: usize = 0;
    while i < items.len()
        invariant
            i <= items.len(),
            keys.len() == i,
            models == seq_view(items@),
            row == T::keyed_row(),
            forall|k: int| 0 <= k < i ==> #[trigger] keys@[k]@ == row(models[k]).key,
        decreases items.len() - i,
    {
        assert(models[i as int] == items@[i as int]@);
        keys.push(items[i].row_key());
        i = i + 1;
    }
    let order = stable_order(&keys);
    let ghost sorted = stable_sort(models, by_row_key(row));
    proof {
        assert forall|p: int, q: int| 0 <= p < keys@.len() && 0 <= q < keys@.len() implies (
        #[trigger] keys@[p].at_most(keys@[q]) == by_row_key(row)(models[p], models[q])) by {
            assert(keys@[p]@ == row(models[p]).key);
            assert(keys@[q]@ == row(models[q]).key);
        }
        lemma_sorted_by_keys(keys@, places(order@), models, by_row_key(row));
    }
    let mut table = empty_table(columns);
    let ghost rows = sorted.map_values(|item: T::V| row(item).cells);
    let mut j: usize = 0;
    while j < order.len()
        invariant
            j <= order.len(),
            models == seq_view(items@),
            row == T::keyed_row(),
            sorted == rearranged(models, places(order@)),
            rows == sorted.map_values(|item: T::V| row(item).cells),
            forall|k: int| 0 <= k < order@.len() ==> 0 <= #[trigger] places(order@)[k] < models.len(),
            table@.columns == texts_view(columns@),
            table@.rows == rows.take(j as int),
        decreases order.len() - j,
    {
        assert(0 <= places(order@)[j as int] < models.len());
        let item = items[order[j]];
        table.add_row(item.cells());
        proof {
            assert(item@ == models[order@[j as int] as int]);
            assert(sorted[j as int] == item@);
            assert(rows[j as int] == row(item@).cells);
            assert(rows.take(j + 1) == rows.take(j as int).push(rows[j as int]));
        }
        j = j + 1;
    }
    assert(rows.take(j as int) == rows);
    table
}

} // verus!
