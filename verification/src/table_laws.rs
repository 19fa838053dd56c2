//! What holds of the built-in tables, whatever the ledger.
use crate::accounts::accounts_table;
use crate::entries::entries_table;
use crate::executor::{ExecutorView, PriceEntryView};
use crate::keys::{lemma_row_keys_total, lemma_row_keys_transitive, RowKeyView};
use crate::ledger::{DirectiveView, TransactionView};
use crate::postings::{postings_table, ColumnNeeds};
use crate::sorting::{
    belongs_before, insert_sorted, is_total_preorder, law_stable_sort, rearranged, stable_sort,
};
use crate::system_tables::{
    as_balance, as_commodity, as_document, as_event, as_explicit_price, as_note, as_transaction,
    balance_row, balances_table, commodities_table, commodity_row, document_row, documents_table,
    event_row, events_table, note_row, notes_table, price_row, prices_table, transaction_row,
    transactions_table,
};
use crate::tables::{by_row_key, lemma_picked_next, picked, sorted_rows, KeyedRow};
use crate::value::ValueView;
use vstd::prelude::*;

verus! {

/// The key of what `pick` takes from the item at a place.
pub open spec fn key_at<A, B>(
    items: Seq<A>,
    pick: spec_fn(A) -> Option<B>,
    row: spec_fn(B) -> KeyedRow,
    place: int,
) -> RowKeyView {
    row(pick(items[place])->0).key
}

/// Whether the rows are those of the items that `pick` takes: each row is that of the item at
/// its place in `source`, each item has one row, and the rows are in order of their keys, those
/// with equal keys in the order of the items.
pub open spec fn is_listing<A, B>(
    rows: Seq<Seq<ValueView>>,
    items: Seq<A>,
    pick: spec_fn(A) -> Option<B>,
    row: spec_fn(B) -> KeyedRow,
    source: Seq<int>,
) -> bool {
    &&& source.len() == rows.len()
    &&& forall|i: int|
        0 <= i < source.len() ==> {
            &&& 0 <= #[trigger] source[i] < items.len()
            &&& pick(items[source[i]]) is Some
            &&& rows[i] == row(pick(items[source[i]])->0).cells
        }
    &&& forall|p: int|
        0 <= p < items.len() && pick(#[trigger] items[p]) is Some ==> source.contains(p)
    &&& forall|i: int, j: int|
        0 <= i < j < source.len() ==> {
            let a = key_at(items, pick, row, #[trigger] source[i]);
            let b = key_at(items, pick, row, #[trigger] source[j]);
            &&& source[i] != source[j]
            &&& a.at_most(b)
            &&& a == b ==> source[i] < source[j]
        }
}

/// Whether the rows are those of the items that `pick` takes, one for each and in order.
pub open spec fn lists<A, B>(
    rows: Seq<Seq<ValueView>>,
    items: Seq<A>,
    pick: spec_fn(A) -> Option<B>,
    row: spec_fn(B) -> KeyedRow,
) -> bool {
    exists|source: Seq<int>| is_listing(rows, items, pick, row, source)
}

/// The places of the items that `pick` takes, in their order.
spec fn picked_places<A, B>(items: Seq<A>, pick: spec_fn(A) -> Option<B>) -> Seq<int>
    decreases items.len(),
{
    if items.len() == 0 {
        Seq::empty()
    } else {
        let before = picked_places(items.drop_last(), pick);
        if pick(items.last()) is Some {
            before.push(items.len() - 1)
        } else {
            before
        }
    }
}

proof fn lemma_picked_places<A, B>(items: Seq<A>, pick: spec_fn(A) -> Option<B>)
    ensures
        picked_places(items, pick).len() == picked(items, pick).len(),
        forall|k: int|
            0 <= k < picked(items, pick).len() ==> {
                &&& 0 <= #[trigger] picked_places(items, pick)[k] < items.len()
                &&& pick(items[picked_places(items, pick)[k]]) == Some(picked(items, pick)[k])
            },
        forall|k: int, l: int|
            0 <= k < l < picked(items, pick).len() ==> #[trigger] picked_places(items, pick)[k]
                < #[trigger] picked_places(items, pick)[l],
        forall|p: int|
            0 <= p < items.len() && pick(#[trigger] items[p]) is Some ==> picked_places(
                items,
                pick,
            ).contains(p),
    decreases items.len(),
{
    if items.len() > 0 {
        let fewer = items.drop_last();
        lemma_picked_places(fewer, pick);
        let before = picked_places(fewer, pick);
        let all = picked_places(items, pick);
        assert forall|k: int| 0 <= k < picked(items, pick).len() implies {
            &&& 0 <= #[trigger] all[k] < items.len()
            &&& pick(items[all[k]]) == Some(picked(items, pick)[k])
        } by {
            if k < before.len() {
                assert(all[k] == before[k]);
                assert(fewer[before[k]] == items[before[k]]);
            }
        }
        assert forall|k: int, l: int| 0 <= k < l < picked(items, pick).len() implies #[trigger] all[k]
            < #[trigger] all[l] by {
            assert(all[k] == before[k]);
            if l < before.len() {
                assert(all[l] == before[l]);
            }
        }
        assert forall|p: int| 0 <= p < items.len() && pick(#[trigger] items[p]) is Some implies
            all.contains(p) by {
            if p < fewer.len() {
                assert(fewer[p] == items[p]);
                let k = choose|k: int| 0 <= k < before.len() && before[k] == p;
                assert(all[k] == p);
            } else {
                assert(all[before.len() as int] == p);
            }
        }
    }
}

/// Rows are ordered by their keys.
proof fn lemma_row_order<A>(row: spec_fn(A) -> KeyedRow)
    ensures
        is_total_preorder(by_row_key(row)),
{
    let le = by_row_key(row);
    assert forall|a: A, b: A| #[trigger] le(a, b) || le(b, a) by {
        lemma_row_keys_total(row(a).key, row(b).key);
    }
    assert forall|a: A, b: A, c: A| #[trigger] le(a, b) && #[trigger] le(b, c) implies le(a, c) by {
        lemma_row_keys_transitive(row(a).key, row(b).key, row(c).key);
    }
}

/// A sorted table has as many rows as there are items.
pub proof fn law_sorted_rows_keep_count<A>(items: Seq<A>, row: spec_fn(A) -> KeyedRow)
    ensures
        sorted_rows(items, row).len() == items.len(),
{
    lemma_row_order(row);
    let _ = law_stable_sort(items, by_row_key(row));
}

/// The law of sorted tables: they have one row for each item that `pick` takes and no others,
/// in order of the keys; where two keys are equal, the item that comes first has its row first.
pub proof fn law_sorted_rows_list<A, B>(
    items: Seq<A>,
    pick: spec_fn(A) -> Option<B>,
    row: spec_fn(B) -> KeyedRow,
)
    ensures
        lists(sorted_rows(picked(items, pick), row), items, pick, row),
{
    let taken = picked(items, pick);
    let rows = sorted_rows(taken, row);
    let from = picked_places(items, pick);
    lemma_picked_places(items, pick);
    lemma_row_order(row);
    let order = law_stable_sort(taken, by_row_key(row));
    assert(stable_sort(taken, by_row_key(row)) == rearranged(taken, order));
    let source = Seq::new(order.len(), |i: int| from[order[i]]);
    assert forall|i: int| 0 <= i < source.len() implies {
        &&& 0 <= #[trigger] source[i] < items.len()
        &&& pick(items[source[i]]) is Some
        &&& rows[i] == row(pick(items[source[i]])->0).cells
    } by {
        assert(0 <= order[i] < taken.len());
        assert(0 <= from[order[i]] < items.len());
    }
    assert forall|p: int| 0 <= p < items.len() && pick(#[trigger] items[p]) is Some implies
        source.contains(p) by {
        let k = choose|k: int| 0 <= k < from.len() && from[k] == p;
        assert(order.contains(k));
        let i = choose|i: int| 0 <= i < order.len() && order[i] == k;
        assert(source[i] == p);
    }
    assert forall|i: int, j: int| 0 <= i < j < source.len() implies {
        let a = key_at(items, pick, row, #[trigger] source[i]);
        let b = key_at(items, pick, row, #[trigger] source[j]);
        &&& source[i] != source[j]
        &&& a.at_most(b)
        &&& a == b ==> source[i] < source[j]
    } by {
        let p = order[i];
        let q = order[j];
        assert(0 <= p < taken.len() && 0 <= q < taken.len());
        assert(belongs_before(taken, by_row_key(row), p, q));
        assert(0 <= from[p] < items.len() && 0 <= from[q] < items.len());
        if p == q {
            assert(by_row_key(row)(taken[q], taken[p]));
        } else if p < q {
            assert(from[p] < from[q]);
        } else {
            assert(from[q] < from[p]);
        }
    }
    assert(is_listing(rows, items, pick, row, source));
}

/// The tables of single kinds of directives have one row for each directive of their kind, or
/// for each explicit price, and no others. The rows are in order of date, then of the columns
/// that the table names; rows that are equal in these are in the order of the ledger.
pub proof fn law_tables_list_their_kind(executor: ExecutorView)
    ensures
        lists(
            prices_table(executor).rows,
            executor.prices,
            as_explicit_price(),
            price_row(),
        ),
        lists(
            balances_table(executor).rows,
            executor.directives,
            as_balance(),
            balance_row(),
        ),
        lists(
            commodities_table(executor).rows,
            executor.directives,
            as_commodity(),
            commodity_row(),
        ),
        lists(
            events_table(executor).rows,
            executor.directives,
            as_event(),
            event_row(),
        ),
        lists(
            notes_table(executor).rows,
            executor.directives,
            as_note(),
            note_row(),
        ),
        lists(
            documents_table(executor).rows,
            executor.directives,
            as_document(),
            document_row(),
        ),
        lists(
            transactions_table(executor).rows,
            executor.directives,
            as_transaction(),
            transaction_row(),
        ),
{
    law_sorted_rows_list(executor.prices, as_explicit_price(), price_row());
    law_sorted_rows_list(executor.directives, as_balance(), balance_row());
    law_sorted_rows_list(executor.directives, as_commodity(), commodity_row());
    law_sorted_rows_list(executor.directives, as_event(), event_row());
    law_sorted_rows_list(executor.directives, as_note(), note_row());
    law_sorted_rows_list(executor.directives, as_document(), document_row());
    law_sorted_rows_list(executor.directives, as_transaction(), transaction_row());
}

/// The first cells of a row, as far as they are what the table is sorted by: a date, and up to
/// two strings.
pub open spec fn leading_key(cells: Seq<ValueView>, width: nat) -> RowKeyView {
    RowKeyView {
        date: cells[0]->Date_0,
        name: if width >= 2 {
            cells[1]->String_0
        } else {
            Seq::empty()
        },
        detail: if width >= 3 {
            cells[2]->String_0
        } else {
            Seq::empty()
        },
    }
}

/// Whether rows are in order of their first `width` cells.
pub open spec fn rows_ascend(rows: Seq<Seq<ValueView>>, width: nat) -> bool {
    forall|i: int, j: int|
        0 <= i < j < rows.len() ==> leading_key(#[trigger] rows[i], width).at_most(
            leading_key(#[trigger] rows[j], width),
        )
}

proof fn lemma_sorted_rows_ascend<A>(items: Seq<A>, row: spec_fn(A) -> KeyedRow, width: nat)
    requires
        forall|a: A| (#[trigger] row(a)).key == leading_key(row(a).cells, width),
    ensures
        rows_ascend(sorted_rows(items, row), width),
{
    let rows = sorted_rows(items, row);
    lemma_row_order(row);
    let order = law_stable_sort(items, by_row_key(row));
    let sorted = rearranged(items, order);
    assert forall|i: int, j: int| 0 <= i < j < rows.len() implies leading_key(
        #[trigger] rows[i],
        width,
    ).at_most(leading_key(#[trigger] rows[j], width)) by {
        assert(belongs_before(items, by_row_key(row), order[i], order[j]));
        assert(rows[i] == row(sorted[i]).cells && rows[j] == row(sorted[j]).cells);
    }
}

/// The rows of the tables are in order of what they show: `#prices`, `#balances`,
/// `#commodities`, `#events` and `#notes` of their first two columns, `#documents` of its first
/// three, `#transactions` of the date.
pub proof fn law_tables_in_order(executor: ExecutorView)
    ensures
        rows_ascend(prices_table(executor).rows, 2),
        rows_ascend(balances_table(executor).rows, 2),
        rows_ascend(commodities_table(executor).rows, 2),
        rows_ascend(events_table(executor).rows, 2),
        rows_ascend(notes_table(executor).rows, 2),
        rows_ascend(documents_table(executor).rows, 3),
        rows_ascend(transactions_table(executor).rows, 1),
{
    let directives = executor.directives;
    lemma_sorted_rows_ascend(picked(executor.prices, as_explicit_price()), price_row(), 2);
    lemma_sorted_rows_ascend(picked(directives, as_balance()), balance_row(), 2);
    lemma_sorted_rows_ascend(picked(directives, as_commodity()), commodity_row(), 2);
    lemma_sorted_rows_ascend(picked(directives, as_event()), event_row(), 2);
    lemma_sorted_rows_ascend(picked(directives, as_note()), note_row(), 2);
    lemma_sorted_rows_ascend(picked(directives, as_document()), document_row(), 3);
    lemma_sorted_rows_ascend(picked(directives, as_transaction()), transaction_row(), 1);
}

proof fn lemma_rows_have_width<A>(items: Seq<A>, row: spec_fn(A) -> KeyedRow, width: nat)
    requires
        forall|a: A| (#[trigger] row(a)).cells.len() == width,
    ensures
        forall|i: int|
            0 <= i < sorted_rows(items, row).len() ==> #[trigger] sorted_rows(items, row)[i].len()
                == width,
{
    let sorted = stable_sort(items, by_row_key(row));
    assert forall|i: int| 0 <= i < sorted_rows(items, row).len() implies #[trigger] sorted_rows(
        items,
        row,
    )[i].len() == width by {
        assert(sorted_rows(items, row)[i] == row(sorted[i]).cells);
    }
}

/// Every row of every table has a value for each column.
pub proof fn law_tables_rectangular(executor: ExecutorView, needs: ColumnNeeds)
    ensures
        prices_table(executor).is_rectangular(),
        balances_table(executor).is_rectangular(),
        commodities_table(executor).is_rectangular(),
        events_table(executor).is_rectangular(),
        notes_table(executor).is_rectangular(),
        documents_table(executor).is_rectangular(),
        transactions_table(executor).is_rectangular(),
        accounts_table(executor).is_rectangular(),
        entries_table(executor).is_rectangular(),
        postings_table(executor, needs).is_rectangular(),
{
    let directives = executor.directives;
    lemma_rows_have_width(picked(executor.prices, as_explicit_price()), price_row(), 3);
    lemma_rows_have_width(picked(directives, as_balance()), balance_row(), 3);
    lemma_rows_have_width(picked(directives, as_commodity()), commodity_row(), 2);
    lemma_rows_have_width(picked(directives, as_event()), event_row(), 3);
    lemma_rows_have_width(picked(directives, as_note()), note_row(), 3);
    lemma_rows_have_width(picked(directives, as_document()), document_row(), 5);
    lemma_rows_have_width(picked(directives, as_transaction()), transaction_row(), 7);
}

/// The `#entries` table has one row for each directive, in their order and numbered from zero.
/// What only a transaction has is `NULL` or an empty set in the rows of the others.
pub proof fn law_entries_rows(executor: ExecutorView, i: int)
    requires
        0 <= i < executor.directives.len(),
    ensures
        entries_table(executor).rows.len() == executor.directives.len(),
        ({
            let row = entries_table(executor).rows[i];
            &&& row[0] == ValueView::Integer(i as i64)
            &&& row[4] == ValueView::Date(executor.directives[i].date())
            &&& row[1] == ValueView::String("transaction"@) <==> executor.directives[i] is Transaction
            &&& !(executor.directives[i] is Transaction) ==> {
                &&& row[5] is Null && row[6] is Null && row[7] is Null
                &&& row[8] == ValueView::StringSet(Seq::empty())
                &&& row[9] == ValueView::StringSet(Seq::empty())
                &&& row[10] == ValueView::StringSet(Seq::empty())
            }
        }),
{
    reveal_strlit("transaction");
    reveal_strlit("balance");
    reveal_strlit("open");
    reveal_strlit("close");
    reveal_strlit("commodity");
    reveal_strlit("pad");
    reveal_strlit("event");
    reveal_strlit("query");
    reveal_strlit("note");
    reveal_strlit("document");
    reveal_strlit("price");
    reveal_strlit("custom");
    assert("transaction"@.len() == 11);
}

proof fn lemma_picked_add<A, B>(a: Seq<A>, b: Seq<A>, pick: spec_fn(A) -> Option<B>)
    ensures
        picked(a + b, pick) == picked(a, pick) + picked(b, pick),
    decreases b.len(),
{
    if b.len() == 0 {
        assert(a + b == a);
        assert(picked(a, pick) + picked(b, pick) == picked(a, pick));
    } else {
        lemma_picked_add(a, b.drop_last(), pick);
        assert((a + b).drop_last() == a + b.drop_last());
    }
}

proof fn lemma_picked_insert<A, B>(items: Seq<A>, place: int, item: A, pick: spec_fn(A) -> Option<B>)
    requires
        0 <= place <= items.len(),
        pick(item) is None,
    ensures
        picked(items.insert(place, item), pick) == picked(items, pick),
{
    let front = items.take(place);
    let back = items.skip(place);
    let middle = seq![item];
    assert(items == front + back);
    assert(items.insert(place, item) == front + middle + back);
    assert(middle.drop_last() == Seq::<A>::empty());
    assert(picked(middle.drop_last(), pick) == Seq::<B>::empty());
    assert(picked(middle, pick) == Seq::<B>::empty());
    lemma_picked_add(front, back, pick);
    lemma_picked_add(front, middle, pick);
    lemma_picked_add(front + middle, back, pick);
    assert(picked(front, pick) + Seq::<B>::empty() == picked(front, pick));
}

/// A price that was derived from a transaction leaves the `#prices` table as it is, wherever it
/// stands.
pub proof fn law_derived_prices_stay_out(executor: ExecutorView, place: int, price: PriceEntryView)
    requires
        0 <= place <= executor.prices.len(),
        !price.explicit,
    ensures
        prices_table(
            ExecutorView { prices: executor.prices.insert(place, price), ..executor },
        ) == prices_table(executor),
{
    lemma_picked_insert(executor.prices, place, price, as_explicit_price());
}

/// A directive of another kind leaves a table of one kind as it is, wherever it stands.
pub proof fn law_other_kinds_stay_out(executor: ExecutorView, place: int, directive: DirectiveView)
    requires
        0 <= place <= executor.directives.len(),
    ensures
        ({
            let more = ExecutorView {
                directives: executor.directives.insert(place, directive),
                ..executor
            };
            &&& !(directive is Balance) ==> balances_table(more) == balances_table(executor)
            &&& !(directive is Commodity) ==> commodities_table(more) == commodities_table(executor)
            &&& !(directive is Event) ==> events_table(more) == events_table(executor)
            &&& !(directive is Note) ==> notes_table(more) == notes_table(executor)
            &&& !(directive is Document) ==> documents_table(more) == documents_table(executor)
            &&& !(directive is Transaction) ==> transactions_table(more) == transactions_table(
                executor,
            )
            &&& prices_table(more) == prices_table(executor)
        }),
{
    let all = executor.directives;
    if !(directive is Balance) {
        lemma_picked_insert(all, place, directive, as_balance());
    }
    if !(directive is Commodity) {
        lemma_picked_insert(all, place, directive, as_commodity());
    }
    if !(directive is Event) {
        lemma_picked_insert(all, place, directive, as_event());
    }
    if !(directive is Note) {
        lemma_picked_insert(all, place, directive, as_note());
    }
    if !(directive is Document) {
        lemma_picked_insert(all, place, directive, as_document());
    }
    if !(directive is Transaction) {
        lemma_picked_insert(all, place, directive, as_transaction());
    }
}

/// What is picked from a rearrangement is a rearrangement of what is picked.
proof fn lemma_picked_rearranged<A, B>(a: Seq<A>, b: Seq<A>, pick: spec_fn(A) -> Option<B>)
    requires
        a.to_multiset() == b.to_multiset(),
    ensures
        picked(a, pick).to_multiset() == picked(b, pick).to_multiset(),
    decreases a.len(),
{
    broadcast use vstd::multiset::group_multiset_axioms;
    broadcast use vstd::seq_lib::group_to_multiset_ensures;

    assert(a.len() == a.to_multiset().len() && b.len() == b.to_multiset().len());
    if a.len() > 0 {
        let n = a.len() - 1;
        let x = a[n];
        assert(a.contains(x));
        assert(b.to_multiset().count(x) > 0);
        let k = choose|k: int| 0 <= k < b.len() && b[k] == x;
        assert(a.drop_last() == a.remove(n));
        lemma_picked_rearranged(a.drop_last(), b.remove(k), pick);
        let front = b.take(k);
        let back = b.skip(k + 1);
        let one = seq![x];
        assert(b == front + one + back);
        assert(b.remove(k) == front + back);
        lemma_picked_add(front, one, pick);
        lemma_picked_add(front + one, back, pick);
        lemma_picked_add(front, back, pick);
        assert(one.drop_last() == Seq::<A>::empty());
        assert(picked(one.drop_last(), pick) == Seq::<B>::empty());
        vstd::seq_lib::lemma_multiset_commutative(picked(front, pick), picked(one, pick));
        vstd::seq_lib::lemma_multiset_commutative(
            picked(front, pick) + picked(one, pick),
            picked(back, pick),
        );
        vstd::seq_lib::lemma_multiset_commutative(picked(front, pick), picked(back, pick));
        match pick(x) {
            Some(item) => {
                assert(picked(one, pick) == Seq::<B>::empty().push(item));
                assert(picked(b, pick).to_multiset() =~= picked(
                    b.remove(k),
                    pick,
                ).to_multiset().insert(item));
            },
            None => {
                assert(picked(front, pick) + picked(one, pick) == picked(front, pick));
            },
        }
    } else {
        assert(a == b);
    }
}

/// Sorting keeps the items, whatever is looked at in them.
proof fn lemma_sorted_multiset<A, B>(items: Seq<A>, le: spec_fn(A, A) -> bool, f: spec_fn(A) -> B)
    ensures
        stable_sort(items, le).map_values(f).to_multiset() == items.map_values(f).to_multiset(),
    decreases items.len(),
{
    if items.len() > 0 {
        let fewer = items.drop_last();
        lemma_sorted_multiset(fewer, le, f);
        lemma_inserted_multiset(stable_sort(fewer, le), items.last(), le, f);
        assert(items.map_values(f) == fewer.map_values(f).push(f(items.last())));
        vstd::seq_lib::to_multiset_build(fewer.map_values(f), f(items.last()));
    } else {
        assert(stable_sort(items, le) == items);
    }
}

proof fn lemma_inserted_multiset<A, B>(
    sorted: Seq<A>,
    item: A,
    le: spec_fn(A, A) -> bool,
    f: spec_fn(A) -> B,
)
    ensures
        insert_sorted(sorted, item, le).map_values(f).to_multiset() == sorted.map_values(
            f,
        ).to_multiset().insert(f(item)),
    decreases sorted.len(),
{
    broadcast use vstd::multiset::group_multiset_axioms;

    let after = insert_sorted(sorted, item, le);
    if sorted.len() == 0 || le(sorted.last(), item) {
        assert(after.map_values(f) == sorted.map_values(f).push(f(item)));
        vstd::seq_lib::to_multiset_build(sorted.map_values(f), f(item));
    } else {
        let fewer = sorted.drop_last();
        let inner = insert_sorted(fewer, item, le);
        lemma_inserted_multiset(fewer, item, le, f);
        assert(after.map_values(f) == inner.map_values(f).push(f(sorted.last())));
        assert(sorted.map_values(f) == fewer.map_values(f).push(f(sorted.last())));
        vstd::seq_lib::to_multiset_build(inner.map_values(f), f(sorted.last()));
        vstd::seq_lib::to_multiset_build(fewer.map_values(f), f(sorted.last()));
        assert(after.map_values(f).to_multiset() =~= sorted.map_values(f).to_multiset().insert(
            f(item),
        ));
    }
}

/// The keys of the rows of a sorted table do not depend on the order of the items.
proof fn lemma_sorted_keys_rearranged<A>(a: Seq<A>, b: Seq<A>, row: spec_fn(A) -> KeyedRow)
    requires
        a.map_values(|item: A| row(item).key).to_multiset() == b.map_values(
            |item: A| row(item).key,
        ).to_multiset(),
    ensures
        stable_sort(a, by_row_key(row)).map_values(|item: A| row(item).key) == stable_sort(
            b,
            by_row_key(row),
        ).map_values(|item: A| row(item).key),
{
    let key = |item: A| row(item).key;
    let le = |x: RowKeyView, y: RowKeyView| x.at_most(y);
    lemma_sorted_multiset(a, by_row_key(row), key);
    lemma_sorted_multiset(b, by_row_key(row), key);
    lemma_sorted_keys_ascend(a, row);
    lemma_sorted_keys_ascend(b, row);
    assert forall|x: RowKeyView, y: RowKeyView| #[trigger] le(x, y) || le(y, x) by {
        lemma_row_keys_total(x, y);
    }
    assert forall|x: RowKeyView, y: RowKeyView| #[trigger] le(x, y) && #[trigger] le(y, x) implies x
        == y by {
        lemma_row_keys_total(x, y);
    }
    assert forall|x: RowKeyView, y: RowKeyView, z: RowKeyView| #[trigger]
        le(x, y) && #[trigger] le(y, z) implies le(x, z) by {
        lemma_row_keys_transitive(x, y, z);
    }
    vstd::seq_lib::lemma_sorted_unique(
        stable_sort(a, by_row_key(row)).map_values(key),
        stable_sort(b, by_row_key(row)).map_values(key),
        le,
    );
}

proof fn lemma_sorted_keys_ascend<A>(items: Seq<A>, row: spec_fn(A) -> KeyedRow)
    ensures
        vstd::relations::sorted_by(
            stable_sort(items, by_row_key(row)).map_values(|item: A| row(item).key),
            |x: RowKeyView, y: RowKeyView| x.at_most(y),
        ),
{
    let le = |x: RowKeyView, y: RowKeyView| x.at_most(y);
    lemma_row_order(row);
    let order = law_stable_sort(items, by_row_key(row));
    let keys = stable_sort(items, by_row_key(row)).map_values(|item: A| row(item).key);
    assert forall|i: int, j: int| 0 <= i < j < keys.len() implies #[trigger] le(keys[i], keys[j]) by {
        assert(belongs_before(items, by_row_key(row), order[i], order[j]));
    }
}

/// Whether rows with equal keys are equal.
pub open spec fn keys_fix_rows<A, B>(
    items: Seq<A>,
    pick: spec_fn(A) -> Option<B>,
    row: spec_fn(B) -> KeyedRow,
) -> bool {
    forall|p: int, q: int|
        0 <= p < items.len() && 0 <= q < items.len() && pick(#[trigger] items[p]) is Some && pick(
            #[trigger] items[q],
        ) is Some && key_at(items, pick, row, p) == key_at(items, pick, row, q) ==> row(
            pick(items[p])->0,
        ).cells == row(pick(items[q])->0).cells
}

/// The key of what `pick` takes.
spec fn picked_key<A, B>(
    pick: spec_fn(A) -> Option<B>,
    row: spec_fn(B) -> KeyedRow,
) -> spec_fn(A) -> Option<RowKeyView> {
    |item: A|
        match pick(item) {
            Some(b) => Some(row(b).key),
            None => None,
        }
}

proof fn lemma_picked_keys<A, B>(
    items: Seq<A>,
    pick: spec_fn(A) -> Option<B>,
    row: spec_fn(B) -> KeyedRow,
)
    ensures
        picked(items, pick).map_values(|b: B| row(b).key) == picked(items, picked_key(pick, row)),
    decreases items.len(),
{
    let key = |b: B| row(b).key;
    if items.len() > 0 {
        lemma_picked_keys(items.drop_last(), pick, row);
        let before = picked(items.drop_last(), pick);
        if let Some(b) = pick(items.last()) {
            assert(before.push(b).map_values(key) =~= before.map_values(key).push(key(b)));
        }
    } else {
        assert(picked(items, pick).map_values(key) =~= Seq::empty());
    }
}

/// What stands in the sorted sequence was taken from one of the items.
proof fn lemma_sorted_from<A, B>(
    items: Seq<A>,
    pick: spec_fn(A) -> Option<B>,
    row: spec_fn(B) -> KeyedRow,
    i: int,
) -> (p: int)
    requires
        0 <= i < stable_sort(picked(items, pick), by_row_key(row)).len(),
    ensures
        0 <= p < items.len(),
        pick(items[p]) == Some(stable_sort(picked(items, pick), by_row_key(row))[i]),
{
    let taken = picked(items, pick);
    lemma_row_order(row);
    lemma_picked_places(items, pick);
    let order = law_stable_sort(taken, by_row_key(row));
    assert(0 <= order[i] < taken.len());
    picked_places(items, pick)[order[i]]
}

/// A sorted table does not depend on the order of the items, as long as rows with equal keys
/// are equal.
pub proof fn law_sorted_rows_in_any_order<A, B>(
    a: Seq<A>,
    b: Seq<A>,
    pick: spec_fn(A) -> Option<B>,
    row: spec_fn(B) -> KeyedRow,
)
    requires
        a.to_multiset() == b.to_multiset(),
        keys_fix_rows(a, pick, row),
    ensures
        sorted_rows(picked(a, pick), row) == sorted_rows(picked(b, pick), row),
{
    let key = |item: B| row(item).key;
    lemma_picked_keys(a, pick, row);
    lemma_picked_keys(b, pick, row);
    lemma_picked_rearranged(a, b, picked_key(pick, row));
    lemma_sorted_keys_rearranged(picked(a, pick), picked(b, pick), row);
    let sorted = stable_sort(picked(a, pick), by_row_key(row));
    let other = stable_sort(picked(b, pick), by_row_key(row));
    assert(sorted.map_values(key) == other.map_values(key));
    assert(sorted.len() == sorted.map_values(key).len());
    assert(other.len() == other.map_values(key).len());
    let rows = sorted_rows(picked(a, pick), row);
    let other_rows = sorted_rows(picked(b, pick), row);
    assert forall|i: int| 0 <= i < rows.len() implies rows[i] == other_rows[i] by {
        assert(sorted.map_values(key)[i] == other.map_values(key)[i]);
        assert(key(sorted[i]) == key(other[i]));
        let p = lemma_sorted_from(a, pick, row, i);
        let r = lemma_sorted_from(b, pick, row, i);
        vstd::seq_lib::to_multiset_contains(a, b[r]);
        vstd::seq_lib::to_multiset_contains(b, b[r]);
        assert(b.contains(b[r]));
        let q = choose|q: int| 0 <= q < a.len() && a[q] == b[r];
        assert(pick(a[p]) is Some && pick(a[q]) is Some);
    }
    assert(rows =~= other_rows);
}

/// The `#commodities` table does not depend on the order of the directives: it shows nothing
/// but what it is sorted by.
pub proof fn law_commodities_in_any_order(a: ExecutorView, b: ExecutorView)
    requires
        a.directives.to_multiset() == b.directives.to_multiset(),
    ensures
        commodities_table(a) == commodities_table(b),
{
    law_sorted_rows_in_any_order(a.directives, b.directives, as_commodity(), commodity_row());
}

/// The `#prices` table does not depend on the order of the prices, as long as those explicit
/// prices that have the same date and currency are equal.
pub proof fn law_prices_in_any_order(a: ExecutorView, b: ExecutorView)
    requires
        a.prices.to_multiset() == b.prices.to_multiset(),
        keys_fix_rows(a.prices, as_explicit_price(), price_row()),
    ensures
        prices_table(a) == prices_table(b),
{
    law_sorted_rows_in_any_order(a.prices, b.prices, as_explicit_price(), price_row());
}

/// The tables of the other single kinds do not depend on the order of the directives, as long
/// as those of their rows that are equal in what they are sorted by are equal altogether.
pub proof fn law_tables_in_any_order(a: ExecutorView, b: ExecutorView)
    requires
        a.directives.to_multiset() == b.directives.to_multiset(),
    ensures
        keys_fix_rows(a.directives, as_balance(), balance_row()) ==> balances_table(a)
            == balances_table(b),
        keys_fix_rows(a.directives, as_event(), event_row()) ==> events_table(a) == events_table(b),
        keys_fix_rows(a.directives, as_note(), note_row()) ==> notes_table(a) == notes_table(b),
        keys_fix_rows(a.directives, as_document(), document_row()) ==> documents_table(a)
            == documents_table(b),
        keys_fix_rows(a.directives, as_transaction(), transaction_row()) ==> transactions_table(a)
            == transactions_table(b),
{
    let x = a.directives;
    let y = b.directives;
    if keys_fix_rows(x, as_balance(), balance_row()) {
        law_sorted_rows_in_any_order(x, y, as_balance(), balance_row());
    }
    if keys_fix_rows(x, as_event(), event_row()) {
        law_sorted_rows_in_any_order(x, y, as_event(), event_row());
    }
    if keys_fix_rows(x, as_note(), note_row()) {
        law_sorted_rows_in_any_order(x, y, as_note(), note_row());
    }
    if keys_fix_rows(x, as_document(), document_row()) {
        law_sorted_rows_in_any_order(x, y, as_document(), document_row());
    }
    if keys_fix_rows(x, as_transaction(), transaction_row()) {
        law_sorted_rows_in_any_order(x, y, as_transaction(), transaction_row());
    }
}

/// What `#transactions` shows of a row of `#entries`: the cells from the date to the accounts,
/// where the row is that of a transaction.
pub open spec fn as_transaction_cells() -> spec_fn(Seq<ValueView>) -> Option<Seq<ValueView>> {
    |row: Seq<ValueView>|
        if row[1] == ValueView::String("transaction"@) {
            Some(row.subrange(4, 11))
        } else {
            None
        }
}

/// The order of rows by the date in their first cell.
pub open spec fn by_first_date() -> spec_fn(Seq<ValueView>, Seq<ValueView>) -> bool {
    |a: Seq<ValueView>, b: Seq<ValueView>| leading_key(a, 1).at_most(leading_key(b, 1))
}

proof fn lemma_sort_of_mapped<A, B>(
    items: Seq<A>,
    le: spec_fn(A, A) -> bool,
    f: spec_fn(A) -> B,
    mapped_le: spec_fn(B, B) -> bool,
)
    requires
        forall|a: A, b: A| #[trigger] le(a, b) == mapped_le(f(a), f(b)),
    ensures
        stable_sort(items.map_values(f), mapped_le) == stable_sort(items, le).map_values(f),
    decreases items.len(),
{
    let mapped = items.map_values(f);
    if items.len() > 0 {
        let fewer = items.drop_last();
        lemma_sort_of_mapped(fewer, le, f, mapped_le);
        assert(mapped.drop_last() == fewer.map_values(f));
        lemma_insert_of_mapped(stable_sort(fewer, le), items.last(), le, f, mapped_le);
    } else {
        assert(stable_sort(items, le).map_values(f) =~= Seq::empty());
    }
}

proof fn lemma_insert_of_mapped<A, B>(
    sorted: Seq<A>,
    item: A,
    le: spec_fn(A, A) -> bool,
    f: spec_fn(A) -> B,
    mapped_le: spec_fn(B, B) -> bool,
)
    requires
        forall|a: A, b: A| #[trigger] le(a, b) == mapped_le(f(a), f(b)),
    ensures
        insert_sorted(sorted.map_values(f), f(item), mapped_le) == insert_sorted(
            sorted,
            item,
            le,
        ).map_values(f),
    decreases sorted.len(),
{
    let mapped = sorted.map_values(f);
    if sorted.len() == 0 || le(sorted.last(), item) {
        assert(sorted.push(item).map_values(f) =~= mapped.push(f(item)));
    } else {
        let fewer = sorted.drop_last();
        lemma_insert_of_mapped(fewer, item, le, f, mapped_le);
        assert(mapped.drop_last() == fewer.map_values(f));
        assert(insert_sorted(fewer, item, le).push(sorted.last()).map_values(f) =~= insert_sorted(
            fewer,
            item,
            le,
        ).map_values(f).push(f(sorted.last())));
    }
}

proof fn lemma_entries_of_transactions(executor: ExecutorView, n: int)
    requires
        0 <= n <= executor.directives.len(),
    ensures
        picked(entries_table(executor).rows.take(n), as_transaction_cells()) == picked(
            executor.directives.take(n),
            as_transaction(),
        ).map_values(|t: TransactionView| transaction_row()(t).cells),
    decreases n,
{
    let cells = |t: TransactionView| transaction_row()(t).cells;
    let rows = entries_table(executor).rows;
    if n == 0 {
        assert(picked(rows.take(0), as_transaction_cells()) =~= picked(
            executor.directives.take(0),
            as_transaction(),
        ).map_values(cells));
    } else {
        lemma_entries_of_transactions(executor, n - 1);
        lemma_picked_next(rows, as_transaction_cells(), n - 1);
        lemma_picked_next(executor.directives, as_transaction(), n - 1);
        law_entries_rows(executor, n - 1);
        let before = picked(executor.directives.take(n - 1), as_transaction());
        if let DirectiveView::Transaction(t) = executor.directives[n - 1] {
            assert(rows[n - 1].subrange(4, 11) =~= cells(t));
            assert(before.push(t).map_values(cells) =~= before.map_values(cells).push(cells(t)));
        }
    }
}

/// The `#transactions` table is what `#entries` shows of the transactions, sorted by date;
/// transactions of one day stay in the order of the ledger.
pub proof fn law_transactions_are_sorted_entries(executor: ExecutorView)
    ensures
        transactions_table(executor).rows == stable_sort(
            picked(entries_table(executor).rows, as_transaction_cells()),
            by_first_date(),
        ),
{
    let cells = |t: TransactionView| transaction_row()(t).cells;
    let n = executor.directives.len() as int;
    lemma_entries_of_transactions(executor, n);
    assert(entries_table(executor).rows.take(n) == entries_table(executor).rows);
    assert(executor.directives.take(n) == executor.directives);
    lemma_sort_of_mapped(
        picked(executor.directives, as_transaction()),
        by_row_key(transaction_row()),
        cells,
        by_first_date(),
    );
}

} // verus!
