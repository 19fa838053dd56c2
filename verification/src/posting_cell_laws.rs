//! What the `#postings` table shows of each posting, cell by cell.
//!
//! The row of posting `p` of directive `d` comes after the rows of all postings of the
//! directives before `d` and of the `p` postings before it in its transaction.
use crate::ast::SelectQuery;
use crate::executor::{posting_count, ContextView, ExecutorView};
use crate::ledger::{DirectiveView, LocationView, PostingView, TransactionView};
use crate::metadata::MetaValueView;
use crate::names::law_name_set;
use crate::number::NumberView;
use crate::posting_laws::law_other_accounts;
use crate::postings::{
    collection_cells, column_needs, entry_cells, other_accounts, own_cells, parent_cells,
    posting_row, posting_rows, postings_table, ColumnNeeds,
};
use crate::system_tables::{account_set, posting_accounts};
use crate::text::{int_text, text_lt};
use crate::value::{EntryView, ValueView};
use crate::views::seq_view;
use vstd::prelude::*;

verus! {

/// Whether directive `d` is a transaction with a posting `p`.
pub open spec fn is_posting(executor: ExecutorView, d: int, p: int) -> bool {
    &&& 0 <= d < executor.directives.len()
    &&& executor.directives[d] is Transaction
    &&& 0 <= p < executor.directives[d]->Transaction_0.postings.len()
}

/// The transaction that directive `d` is.
pub open spec fn transaction_at(executor: ExecutorView, d: int) -> TransactionView {
    executor.directives[d]->Transaction_0
}

/// The posting `p` of directive `d`.
pub open spec fn posting_at(executor: ExecutorView, d: int, p: int) -> PostingView {
    executor.directives[d]->Transaction_0.postings[p]
}

/// How many postings stand before posting `p` of directive `d`.
pub open spec fn place_at(executor: ExecutorView, d: int, p: int) -> int {
    posting_count(executor.directives.take(d)) + p
}

/// The place of directive `d` in the source.
pub open spec fn directive_place(executor: ExecutorView, d: int) -> Option<LocationView> {
    if d < executor.locations.len() {
        executor.locations[d]
    } else {
        None
    }
}

/// The place of posting `p` of directive `d`: its own, or else that of the directive.
pub open spec fn posting_place(executor: ExecutorView, d: int, p: int) -> Option<LocationView> {
    if posting_at(executor, d, p).location is Some {
        posting_at(executor, d, p).location
    } else {
        directive_place(executor, d)
    }
}

/// The row of posting `p` of directive `d`.
pub open spec fn row_at(executor: ExecutorView, query: &SelectQuery, d: int, p: int) -> Seq<
    ValueView,
> {
    postings_table(executor, column_needs(query)).rows[place_at(executor, d, p)]
}

/// What a query reads: the columns that it names, and every column where a target is `*`.
pub proof fn law_what_a_query_reads(query: &SelectQuery, column: Seq<char>)
    ensures
        query.reads(column) <==> {
            ||| exists|i: int|
                0 <= i < query.targets@.len() && (#[trigger] query.targets@[i]).expr is Wildcard
            ||| exists|i: int| 0 <= i < query.columns@.len() && #[trigger] query.columns@[i]@
                == column
        },
        query.selects_all() <==> exists|i: int|
            0 <= i < query.targets@.len() && (#[trigger] query.targets@[i]).expr is Wildcard,
        query.references(column) <==> exists|i: int|
            0 <= i < query.columns@.len() && #[trigger] query.columns@[i]@ == column,
{
    let names = seq_view(query.columns@);
    if names.contains(column) {
        let i = choose|i: int| 0 <= i < names.len() && names[i] == column;
        assert(query.columns@[i]@ == column);
    }
    if exists|i: int| 0 <= i < query.columns@.len() && #[trigger] query.columns@[i]@ == column {
        let i = choose|i: int| 0 <= i < query.columns@.len() && #[trigger] query.columns@[i]@
            == column;
        assert(names[i] == column);
    }
}

/// Postings are counted over all transactions, and nothing else is counted.
pub proof fn law_posting_count(directives: Seq<DirectiveView>, directive: DirectiveView)
    ensures
        posting_count(Seq::empty()) == 0,
        posting_count(directives.push(directive)) == posting_count(directives) + (
        if directive is Transaction {
            directive->Transaction_0.postings.len()
        } else {
            0
        }),
{
    assert(directives.push(directive).drop_last() == directives);
}

/// Where a scan has a posting, and what it says of it: the transaction, the place of the
/// posting in it, the number of the directive, and the balances after the posting, as far as
/// they were asked for and are known.
pub proof fn law_scan_places(
    executor: ExecutorView,
    count: nat,
    with_balance: bool,
    with_account_balance: bool,
    d: int,
    p: int,
)
    requires
        is_posting(executor, d, p),
        d < count <= executor.directives.len(),
    ensures
        executor.contexts(count, with_balance, with_account_balance).len() == posting_count(
            executor.directives.take(count as int),
        ),
        place_at(executor, d, p) < posting_count(executor.directives.take(count as int)),
        executor.contexts(count, with_balance, with_account_balance)[place_at(executor, d, p)] == (
        ContextView {
            transaction: transaction_at(executor, d),
            posting_index: p as nat,
            directive_index: Some(d as nat),
            balance: if with_balance && place_at(executor, d, p) < executor.balances.len() {
                Some(executor.balances[place_at(executor, d, p)].balance)
            } else {
                None
            },
            account_balance: if with_account_balance && place_at(executor, d, p)
                < executor.balances.len() {
                Some(executor.balances[place_at(executor, d, p)].account_balance)
            } else {
                None
            },
        }),
    decreases count,
{
    let index = (count - 1) as nat;
    let taken = executor.directives.take(count as int);
    let before = executor.contexts(index, with_balance, with_account_balance);
    assert(taken.drop_last() == executor.directives.take(index as int));
    assert(taken.last() == executor.directives[index as int]);
    lemma_context_count(executor, index, with_balance, with_account_balance);
    lemma_context_count(executor, count, with_balance, with_account_balance);
    if d < index {
        law_scan_places(executor, index, with_balance, with_account_balance, d, p);
    }
}

proof fn lemma_context_count(
    executor: ExecutorView,
    count: nat,
    with_balance: bool,
    with_account_balance: bool,
)
    requires
        count <= executor.directives.len(),
    ensures
        executor.contexts(count, with_balance, with_account_balance).len() == posting_count(
            executor.directives.take(count as int),
        ),
    decreases count,
{
    if count > 0 {
        let taken = executor.directives.take(count as int);
        assert(taken.drop_last() == executor.directives.take(count - 1));
        lemma_context_count(executor, (count - 1) as nat, with_balance, with_account_balance);
    }
}

/// The context of posting `p` of directive `d`.
spec fn context_at(executor: ExecutorView, needs: ColumnNeeds, d: int, p: int) -> ContextView {
    executor.contexts(executor.directives.len(), needs.balance, needs.account_balance)[place_at(
        executor,
        d,
        p,
    )]
}

proof fn lemma_row_at(executor: ExecutorView, query: &SelectQuery, d: int, p: int)
    requires
        is_posting(executor, d, p),
    ensures
        ({
            let needs = column_needs(query);
            let ctx = context_at(executor, needs, d, p);
            let row = row_at(executor, query, d, p);
            &&& row == posting_row(executor, needs, ctx)
            &&& entry_cells(executor, needs, ctx).len() == 9
            &&& parent_cells(needs, ctx.transaction).len() == 6
            &&& own_cells(needs, ctx).len() == 12
            &&& collection_cells(executor, needs, ctx).len() == 7
            &&& row.len() == 34
            &&& forall|k: int| 0 <= k < 9 ==> row[k] == #[trigger] entry_cells(executor, needs, ctx)[k]
            &&& forall|k: int|
                0 <= k < 6 ==> row[9 + k] == #[trigger] parent_cells(needs, ctx.transaction)[k]
            &&& forall|k: int| 0 <= k < 12 ==> row[15 + k] == #[trigger] own_cells(needs, ctx)[k]
            &&& forall|k: int|
                0 <= k < 7 ==> row[27 + k] == #[trigger] collection_cells(executor, needs, ctx)[k]
            &&& ctx.transaction == transaction_at(executor, d)
            &&& ctx.posting() == posting_at(executor, d, p)
            &&& ctx.directive_index == Some(d as nat)
            &&& executor.posting_location(ctx) == posting_place(executor, d, p)
            &&& executor.entry_location(ctx) == directive_place(executor, d)
        }),
{
    let needs = column_needs(query);
    let n = executor.directives.len();
    law_scan_places(executor, n, needs.balance, needs.account_balance, d, p);
    assert(executor.directives.take(n as int) == executor.directives);
    let ctx = context_at(executor, needs, d, p);
    assert(posting_rows(executor, needs)[place_at(executor, d, p)] == posting_row(
        executor,
        needs,
        ctx,
    ));
}

/// The table has 34 columns, one row for each posting of the ledger, and a cell for each column
/// in every row, whatever the query reads.
pub proof fn law_postings_shape(executor: ExecutorView, query: &SelectQuery)
    ensures
        postings_table(executor, column_needs(query)).columns == seq![
            "type"@,
            "id"@,
            "date"@,
            "year"@,
            "month"@,
            "day"@,
            "filename"@,
            "lineno"@,
            "location"@,
            "flag"@,
            "payee"@,
            "narration"@,
            "description"@,
            "tags"@,
            "links"@,
            "posting_flag"@,
            "account"@,
            "other_accounts"@,
            "number"@,
            "currency"@,
            "cost_number"@,
            "cost_currency"@,
            "cost_date"@,
            "cost_label"@,
            "position"@,
            "price"@,
            "weight"@,
            "balance"@,
            "account_balance"@,
            "meta"@,
            "accounts"@,
            "entry"@,
            "_entry_meta"@,
            "_posting_meta"@,
        ],
        postings_table(executor, column_needs(query)).rows.len() == posting_count(
            executor.directives,
        ),
        forall|i: int|
            0 <= i < postings_table(executor, column_needs(query)).rows.len() ==> (
            #[trigger] postings_table(executor, column_needs(query)).rows[i]).len() == 34,
{
    let needs = column_needs(query);
    let n = executor.directives.len();
    lemma_context_count(executor, n, needs.balance, needs.account_balance);
    assert(executor.directives.take(n as int) == executor.directives);
}

/// Number and date of the directive stand in every row; kind and place of the posting where
/// they are read. The three columns of the place are built together.
pub proof fn law_entry_columns(executor: ExecutorView, query: &SelectQuery, d: int, p: int)
    requires
        is_posting(executor, d, p),
    ensures
        ({
            let row = row_at(executor, query, d, p);
            let date = transaction_at(executor, d).date;
            let read = query.reads("filename"@) || query.reads("lineno"@) || query.reads(
                "location"@,
            );
            &&& row[0] == if query.reads("type"@) {
                ValueView::String("transaction"@)
            } else {
                ValueView::Null
            }
            &&& row[1] == ValueView::Integer(d as i64)
            &&& row[2] == ValueView::Date(date)
            &&& row[3] == ValueView::Integer(date.year as i64)
            &&& row[4] == ValueView::Integer(date.month as i64)
            &&& row[5] == ValueView::Integer(date.day as i64)
            &&& match posting_place(executor, d, p) {
                Some(l) if read => {
                    let line: int = if l.lineno <= i64::MAX {
                        l.lineno as int
                    } else {
                        i64::MAX as int
                    };
                    &&& row[6] == ValueView::String(l.filename)
                    &&& row[7] == ValueView::Integer(line as i64)
                    &&& row[8] == ValueView::String(l.filename + ":"@ + int_text(line))
                },
                _ => row[6] is Null && row[7] is Null && row[8] is Null,
            }
        }),
{
    lemma_row_at(executor, query, d, p);
    let needs = column_needs(query);
    let ctx = context_at(executor, needs, d, p);
    let cells = entry_cells(executor, needs, ctx);
    let row = row_at(executor, query, d, p);
    assert(row[0] == cells[0] && row[1] == cells[1] && row[2] == cells[2] && row[3] == cells[3]);
    assert(row[4] == cells[4] && row[5] == cells[5] && row[6] == cells[6] && row[7] == cells[7]);
    assert(row[8] == cells[8]);
}

/// What the transaction of the posting says, where it is read: flag, payee, narration,
/// description, tags and links. A description is payee, bar and narration, or the narration.
pub proof fn law_parent_columns(executor: ExecutorView, query: &SelectQuery, d: int, p: int)
    requires
        is_posting(executor, d, p),
    ensures
        ({
            let row = row_at(executor, query, d, p);
            let txn = transaction_at(executor, d);
            &&& row[9] == if query.reads("flag"@) {
                ValueView::String(seq![txn.flag])
            } else {
                ValueView::Null
            }
            &&& row[10] == match txn.payee {
                Some(payee) if query.reads("payee"@) => ValueView::String(payee),
                _ => ValueView::Null,
            }
            &&& row[11] == if query.reads("narration"@) {
                ValueView::String(txn.narration)
            } else {
                ValueView::Null
            }
            &&& !query.reads("description"@) ==> row[12] is Null
            &&& query.reads("description"@) ==> row[12] == match txn.payee {
                Some(payee) => ValueView::String(payee + " | "@ + txn.narration),
                None => ValueView::String(txn.narration),
            }
            &&& row[13] == if query.reads("tags"@) {
                ValueView::StringSet(txn.tags)
            } else {
                ValueView::Null
            }
            &&& row[14] == if query.reads("links"@) {
                ValueView::StringSet(txn.links)
            } else {
                ValueView::Null
            }
        }),
{
    lemma_row_at(executor, query, d, p);
    let needs = column_needs(query);
    let ctx = context_at(executor, needs, d, p);
    let cells = parent_cells(needs, ctx.transaction);
    let row = row_at(executor, query, d, p);
    assert(row[9] == cells[0] && row[10] == cells[1] && row[11] == cells[2]);
    assert(row[12] == cells[3] && row[13] == cells[4] && row[14] == cells[5]);
}

/// Whether a posting of the transaction is to the account.
pub open spec fn touches(txn: TransactionView, account: Seq<char>) -> bool {
    exists|q: int| 0 <= q < txn.postings.len() && (#[trigger] txn.postings[q]).account == account
}

/// Whether each name comes before all that follow it.
pub open spec fn ascending(names: Seq<Seq<char>>) -> bool {
    forall|i: int, j: int|
        0 <= i < j < names.len() ==> text_lt(#[trigger] names[i], #[trigger] names[j])
}

proof fn lemma_posting_accounts(txn: TransactionView, account: Seq<char>)
    ensures
        posting_accounts(txn.postings).contains(account) == touches(txn, account),
{
    let all = posting_accounts(txn.postings);
    if all.contains(account) {
        let q = choose|q: int| 0 <= q < all.len() && all[q] == account;
        assert(txn.postings[q].account == account);
    }
    if touches(txn, account) {
        let q = choose|q: int|
            0 <= q < txn.postings.len() && (#[trigger] txn.postings[q]).account == account;
        assert(all[q] == account);
    }
}

/// What the posting has of its own, where it is read: flag and account, number and currency
/// of its amount, number, currency, date and label of its cost, its position, price and weight.
/// A posting with an amount has its position in that column, with a cost or without one. What
/// the posting does not have is `NULL`. `balance` has `position` built too, and the four
/// columns of the cost are built together.
pub proof fn law_own_columns(executor: ExecutorView, query: &SelectQuery, d: int, p: int)
    requires
        is_posting(executor, d, p),
    ensures
        ({
            let row = row_at(executor, query, d, p);
            let posting = posting_at(executor, d, p);
            let cost_read = query.reads("cost_number"@) || query.reads("cost_currency"@)
                || query.reads("cost_date"@) || query.reads("cost_label"@);
            &&& row[15] == match posting.flag {
                Some(flag) if query.reads("posting_flag"@) => ValueView::String(seq![flag]),
                _ => ValueView::Null,
            }
            &&& row[16] == if query.reads("account"@) {
                ValueView::String(posting.account)
            } else {
                ValueView::Null
            }
            &&& posting.units is None ==> row[18] is Null && row[19] is Null && row[20] is Null
                && row[21] is Null && row[22] is Null && row[23] is Null && row[24] is Null
            &&& posting.units matches Some(units) ==> {
                &&& row[18] == if query.reads("number"@) {
                    ValueView::Number(units.amount.number)
                } else {
                    ValueView::Null
                }
                &&& row[19] == if query.reads("currency"@) {
                    ValueView::String(units.amount.currency)
                } else {
                    ValueView::Null
                }
                &&& row[24] == if query.reads("position"@) || query.reads("balance"@) {
                    ValueView::Position(units.position)
                } else {
                    ValueView::Null
                }
                &&& units.cost is None || !cost_read ==> row[20] is Null && row[21] is Null
                    && row[22] is Null && row[23] is Null
                &&& units.cost is Some && cost_read ==> {
                    &&& row[20] == ValueView::Number(units.cost->0.number)
                    &&& row[21] == ValueView::String(units.cost->0.currency)
                    &&& row[22] == match units.cost->0.date {
                        Some(date) => ValueView::Date(date),
                        None => ValueView::Null,
                    }
                    &&& row[23] == match units.cost->0.label {
                        Some(label) => ValueView::String(label),
                        None => ValueView::Null,
                    }
                }
            }
            &&& row[25] == match posting.price {
                Some(price) if query.reads("price"@) => ValueView::Amount(price),
                _ => ValueView::Null,
            }
            &&& row[26] == match posting.weight {
                Some(weight) if query.reads("weight"@) => ValueView::Amount(weight),
                _ => ValueView::Null,
            }
        }),
{
    lemma_row_at(executor, query, d, p);
    let needs = column_needs(query);
    let ctx = context_at(executor, needs, d, p);
    let cells = own_cells(needs, ctx);
    let row = row_at(executor, query, d, p);
    assert(row[15] == cells[0] && row[16] == cells[1] && row[18] == cells[3]);
    assert(row[19] == cells[4] && row[20] == cells[5] && row[21] == cells[6]);
    assert(row[22] == cells[7] && row[23] == cells[8] && row[24] == cells[9]);
    assert(row[25] == cells[10] && row[26] == cells[11]);
}

/// The account columns, where they are read: `accounts` holds the accounts of all postings of
/// the transaction, `other_accounts` those but for the posting's own, both in ascending order
/// and each account once.
pub proof fn law_account_columns(executor: ExecutorView, query: &SelectQuery, d: int, p: int)
    requires
        is_posting(executor, d, p),
    ensures
        ({
            let row = row_at(executor, query, d, p);
            let txn = transaction_at(executor, d);
            let own = posting_at(executor, d, p).account;
            &&& !query.reads("accounts"@) ==> row[30] is Null
            &&& query.reads("accounts"@) ==> {
                &&& row[30] is StringSet
                &&& ascending(row[30]->StringSet_0)
                &&& forall|account: Seq<char>| #[trigger]
                    row[30]->StringSet_0.contains(account) <==> touches(txn, account)
            }
            &&& !query.reads("other_accounts"@) ==> row[17] is Null
            &&& query.reads("other_accounts"@) ==> {
                &&& row[17] is StringSet
                &&& ascending(row[17]->StringSet_0)
                &&& forall|account: Seq<char>| #[trigger]
                    row[17]->StringSet_0.contains(account) <==> touches(txn, account) && account
                        != own
            }
        }),
{
    lemma_row_at(executor, query, d, p);
    let needs = column_needs(query);
    let ctx = context_at(executor, needs, d, p);
    let row = row_at(executor, query, d, p);
    let txn = transaction_at(executor, d);
    assert(row[17] == own_cells(needs, ctx)[2]);
    assert(row[30] == collection_cells(executor, needs, ctx)[3]);
    law_name_set(posting_accounts(txn.postings));
    law_other_accounts(ctx);
    assert forall|account: Seq<char>| #[trigger]
        account_set(txn).contains(account) == touches(txn, account) by {
        lemma_posting_accounts(txn, account);
    }
    assert forall|account: Seq<char>| #[trigger]
        other_accounts(ctx).contains(account) == (touches(txn, account) && account
            != posting_at(executor, d, p).account) by {
        lemma_posting_accounts(txn, account);
    }
}

/// The running balances after the posting, where they are read and known.
pub proof fn law_balance_columns(executor: ExecutorView, query: &SelectQuery, d: int, p: int)
    requires
        is_posting(executor, d, p),
    ensures
        ({
            let row = row_at(executor, query, d, p);
            let n = place_at(executor, d, p);
            &&& row[27] == if query.reads("balance"@) && n < executor.balances.len() {
                ValueView::Inventory(executor.balances[n].balance)
            } else {
                ValueView::Null
            }
            &&& row[28] == if query.reads("account_balance"@) && n < executor.balances.len() {
                ValueView::Inventory(executor.balances[n].account_balance)
            } else {
                ValueView::Null
            }
        }),
{
    lemma_row_at(executor, query, d, p);
    let needs = column_needs(query);
    let n = executor.directives.len();
    law_scan_places(executor, n, needs.balance, needs.account_balance, d, p);
    let ctx = context_at(executor, needs, d, p);
    let cells = collection_cells(executor, needs, ctx);
    let row = row_at(executor, query, d, p);
    assert(row[27] == cells[0] && row[28] == cells[1]);
}

/// The metadata columns, where one of them is read or a metadata function is called, and the
/// parent transaction, where that is read. `_entry_meta` and `_posting_meta` hold what the
/// transaction and the posting have; `meta` holds besides the file name and the line number of
/// the posting, under keys that the posting itself does not have.
pub proof fn law_metadata_columns(executor: ExecutorView, query: &SelectQuery, d: int, p: int)
    requires
        is_posting(executor, d, p),
    ensures
        ({
            let row = row_at(executor, query, d, p);
            let txn = transaction_at(executor, d);
            let raw = posting_at(executor, d, p).meta;
            let loc = posting_place(executor, d, p);
            let read = query.reads("meta"@) || query.reads("_entry_meta"@) || query.reads(
                "_posting_meta"@,
            ) || query.calls_meta;
            &&& row[31] == if query.reads("entry"@) {
                ValueView::Entry(
                    EntryView { transaction: txn, location: directive_place(executor, d) },
                )
            } else {
                ValueView::Null
            }
            &&& !read ==> row[29] is Null && row[32] is Null && row[33] is Null
            &&& read ==> {
                &&& row[32] == ValueView::Metadata(txn.meta)
                &&& row[33] == ValueView::Metadata(raw)
                &&& row[29] is Metadata
                &&& forall|key: Seq<char>| #[trigger]
                    row[29]->Metadata_0.contains_key(key) <==> raw.contains_key(key) || (loc is Some
                        && (key == "filename"@ || key == "lineno"@))
                &&& forall|key: Seq<char>|
                    raw.contains_key(key) ==> #[trigger] row[29]->Metadata_0[key] == raw[key]
                &&& loc is Some && !raw.contains_key("filename"@)
                    ==> row[29]->Metadata_0["filename"@] == MetaValueView::String(loc->0.filename)
                &&& loc is Some && !raw.contains_key("lineno"@) && loc->0.lineno <= i64::MAX
                    ==> row[29]->Metadata_0["lineno"@] == MetaValueView::Int(loc->0.lineno as i64)
                &&& loc is Some && !raw.contains_key("lineno"@) && loc->0.lineno > i64::MAX
                    ==> row[29]->Metadata_0["lineno"@] == MetaValueView::Number(
                    NumberView { negative: false, magnitude: loc->0.lineno, scale: 0 },
                )
            }
        }),
{
    lemma_row_at(executor, query, d, p);
    reveal_strlit("filename");
    reveal_strlit("lineno");
    assert("filename"@.len() != "lineno"@.len());
    let needs = column_needs(query);
    let ctx = context_at(executor, needs, d, p);
    let cells = collection_cells(executor, needs, ctx);
    let row = row_at(executor, query, d, p);
    assert(row[29] == cells[2] && row[31] == cells[4] && row[32] == cells[5]);
    assert(row[33] == cells[6]);
}

} // verus!
