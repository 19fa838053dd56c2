//! What the tables of single kinds show of the directives, cell by cell.
use crate::date::DateView;
use crate::executor::{ExecutorView, PriceEntryView};
use crate::holdings::AmountView;
use crate::ledger::{
    BalanceView, CommodityView, DirectiveView, DocumentView, EventView, NoteView, TransactionView,
};
use crate::names::law_name_set;
use crate::posting_cell_laws::{ascending, touches};
use crate::system_tables::{
    account_set, as_balance, as_commodity, as_document, as_event, as_explicit_price, as_note,
    as_transaction, balance_row, balances_table, commodities_table, commodity_row, document_row,
    documents_table, event_row, events_table, note_row, notes_table, posting_accounts, price_row,
    prices_table, transaction_row, transactions_table,
};
use crate::table_laws::{
    is_listing, key_at, law_sorted_rows_keep_count, law_sorted_rows_list, lists,
};
use crate::tables::picked;
use crate::text::{lemma_text_lt_irreflexive, text_lt};
use crate::value::ValueView;
use vstd::prelude::*;

verus! {

/// Whether a day comes before another one, by year, month and day.
pub open spec fn day_before(a: DateView, b: DateView) -> bool {
    a.year < b.year || (a.year == b.year && (a.month < b.month || (a.month == b.month && a.day
        < b.day)))
}

/// Whether `source` pairs the rows with items: it has a place for each row, no place twice.
pub open spec fn is_pairing(rows: Seq<Seq<ValueView>>, items: nat, source: Seq<int>) -> bool {
    &&& source.len() == rows.len()
    &&& forall|i: int| 0 <= i < source.len() ==> 0 <= #[trigger] source[i] < items
    &&& forall|i: int, j: int|
        0 <= i < j < source.len() ==> #[trigger] source[i] != #[trigger] source[j]
}

/// As many items are taken as there are items of the kind.
proof fn lemma_picked_count<A, B>(
    items: Seq<A>,
    pick: spec_fn(A) -> Option<B>,
    of_kind: spec_fn(A) -> bool,
)
    requires
        forall|item: A| #[trigger] of_kind(item) == (pick(item) is Some),
    ensures
        picked(items, pick).len() == items.filter(of_kind).len(),
    decreases items.len(),
{
    reveal(Seq::filter);
    if items.len() > 0 {
        lemma_picked_count(items.drop_last(), pick, of_kind);
        assert(of_kind(items.last()) == (pick(items.last()) is Some));
    }
}

/// Whether a balance assertion comes before another one in its table: by date and account.
pub open spec fn balance_before(a: BalanceView, b: BalanceView) -> bool {
    ||| day_before(a.date, b.date)
    ||| (a.date == b.date && text_lt(a.account, b.account))
}

/// The `#balances` table has as many rows as there are directives of its kind. Each of these has
/// a row with the date, the account and the expected amount, whatever they are, and each row
/// is that of one of them. The rows are in order of date and account; where these are equal, in
/// the order of the ledger.
pub proof fn law_balance_rows(executor: ExecutorView) -> (source: Seq<int>)
    ensures
        balances_table(executor).columns == seq!["date"@, "account"@, "amount"@],
        balances_table(executor).rows.len() == executor.directives.filter(
            |d: DirectiveView| d is Balance,
        ).len(),
        is_pairing(balances_table(executor).rows, executor.directives.len(), source),
        forall|i: int|
            0 <= i < source.len() ==> (executor.directives[#[trigger] source[i]] matches
                DirectiveView::Balance(b) && balances_table(executor).rows[i] == seq![
                ValueView::Date(b.date), ValueView::String(b.account), ValueView::Amount(b.amount),
            ]),
        forall|p: int|
            0 <= p < executor.directives.len() && #[trigger] executor.directives[p] is Balance
                ==> source.contains(p),
        forall|i: int, j: int|
            0 <= i < j < source.len() ==> {
                let a = executor.directives[#[trigger] source[i]]->Balance_0;
                let b = executor.directives[#[trigger] source[j]]->Balance_0;
                balance_before(a, b) || (!balance_before(b, a) && source[i] < source[j])
            },
{
    let directives = executor.directives;
    let rows = balances_table(executor).rows;
    lemma_picked_count(directives, as_balance(), |d: DirectiveView| d is Balance);
    law_sorted_rows_list(directives, as_balance(), balance_row());
    assert(lists(rows, directives, as_balance(), balance_row()));
    let source = choose|source: Seq<int>|
        is_listing(rows, directives, as_balance(), balance_row(), source);
    assert forall|i: int| 0 <= i < source.len() implies (directives[#[trigger] source[i]] matches
        DirectiveView::Balance(b) && rows[i] == seq![ValueView::Date(b.date), ValueView::String(b.account), ValueView::Amount(b.amount)]) by {
    }
    law_sorted_rows_keep_count(picked(directives, as_balance()), balance_row());
    assert forall|i: int, j: int| 0 <= i < j < source.len() implies {
        let a = directives[#[trigger] source[i]]->Balance_0;
        let b = directives[#[trigger] source[j]]->Balance_0;
        balance_before(a, b) || (!balance_before(b, a) && source[i] < source[j])
    } by {
        let a = directives[source[i]]->Balance_0;
        let b = directives[source[j]]->Balance_0;
        let x = key_at(directives, as_balance(), balance_row(), source[i]);
        let y = key_at(directives, as_balance(), balance_row(), source[j]);
        assert(x.at_most(y));
        lemma_text_lt_irreflexive(x.name);
        lemma_text_lt_irreflexive(x.detail);
        lemma_text_lt_irreflexive(Seq::empty());
    }
    source
}

/// Whether a declared commodity comes before another one in its table: by date and name.
pub open spec fn commodity_before(a: CommodityView, b: CommodityView) -> bool {
    ||| day_before(a.date, b.date)
    ||| (a.date == b.date && text_lt(a.currency, b.currency))
}

/// The `#commodities` table has as many rows as there are directives of its kind. Each of these has
/// a row with the date and the name, whatever they are, and each row
/// is that of one of them. The rows are in order of date and name; where these are equal, in
/// the order of the ledger.
pub proof fn law_commodity_rows(executor: ExecutorView) -> (source: Seq<int>)
    ensures
        commodities_table(executor).columns == seq!["date"@, "name"@],
        commodities_table(executor).rows.len() == executor.directives.filter(
            |d: DirectiveView| d is Commodity,
        ).len(),
        is_pairing(commodities_table(executor).rows, executor.directives.len(), source),
        forall|i: int|
            0 <= i < source.len() ==> (executor.directives[#[trigger] source[i]] matches
                DirectiveView::Commodity(b) && commodities_table(executor).rows[i] == seq![
                ValueView::Date(b.date), ValueView::String(b.currency),
            ]),
        forall|p: int|
            0 <= p < executor.directives.len() && #[trigger] executor.directives[p] is Commodity
                ==> source.contains(p),
        forall|i: int, j: int|
            0 <= i < j < source.len() ==> {
                let a = executor.directives[#[trigger] source[i]]->Commodity_0;
                let b = executor.directives[#[trigger] source[j]]->Commodity_0;
                commodity_before(a, b) || (!commodity_before(b, a) && source[i] < source[j])
            },
{
    let directives = executor.directives;
    let rows = commodities_table(executor).rows;
    lemma_picked_count(directives, as_commodity(), |d: DirectiveView| d is Commodity);
    law_sorted_rows_list(directives, as_commodity(), commodity_row());
    assert(lists(rows, directives, as_commodity(), commodity_row()));
    let source = choose|source: Seq<int>|
        is_listing(rows, directives, as_commodity(), commodity_row(), source);
    assert forall|i: int| 0 <= i < source.len() implies (directives[#[trigger] source[i]] matches
        DirectiveView::Commodity(b) && rows[i] == seq![ValueView::Date(b.date), ValueView::String(b.currency)]) by {
    }
    law_sorted_rows_keep_count(picked(directives, as_commodity()), commodity_row());
    assert forall|i: int, j: int| 0 <= i < j < source.len() implies {
        let a = directives[#[trigger] source[i]]->Commodity_0;
        let b = directives[#[trigger] source[j]]->Commodity_0;
        commodity_before(a, b) || (!commodity_before(b, a) && source[i] < source[j])
    } by {
        let a = directives[source[i]]->Commodity_0;
        let b = directives[source[j]]->Commodity_0;
        let x = key_at(directives, as_commodity(), commodity_row(), source[i]);
        let y = key_at(directives, as_commodity(), commodity_row(), source[j]);
        assert(x.at_most(y));
        lemma_text_lt_irreflexive(x.name);
        lemma_text_lt_irreflexive(x.detail);
        lemma_text_lt_irreflexive(Seq::empty());
    }
    source
}

/// Whether a event comes before another one in its table: by date and type.
pub open spec fn event_before(a: EventView, b: EventView) -> bool {
    ||| day_before(a.date, b.date)
    ||| (a.date == b.date && text_lt(a.event_type, b.event_type))
}

/// The `#events` table has as many rows as there are directives of its kind. Each of these has
/// a row with the date, the type and the description, whatever they are, and each row
/// is that of one of them. The rows are in order of date and type; where these are equal, in
/// the order of the ledger.
pub proof fn law_event_rows(executor: ExecutorView) -> (source: Seq<int>)
    ensures
        events_table(executor).columns == seq!["date"@, "type"@, "description"@],
        events_table(executor).rows.len() == executor.directives.filter(
            |d: DirectiveView| d is Event,
        ).len(),
        is_pairing(events_table(executor).rows, executor.directives.len(), source),
        forall|i: int|
            0 <= i < source.len() ==> (executor.directives[#[trigger] source[i]] matches
                DirectiveView::Event(b) && events_table(executor).rows[i] == seq![
                ValueView::Date(b.date), ValueView::String(b.event_type), ValueView::String(b.value),
            ]),
        forall|p: int|
            0 <= p < executor.directives.len() && #[trigger] executor.directives[p] is Event
                ==> source.contains(p),
        forall|i: int, j: int|
            0 <= i < j < source.len() ==> {
                let a = executor.directives[#[trigger] source[i]]->Event_0;
                let b = executor.directives[#[trigger] source[j]]->Event_0;
                event_before(a, b) || (!event_before(b, a) && source[i] < source[j])
            },
{
    let directives = executor.directives;
    let rows = events_table(executor).rows;
    lemma_picked_count(directives, as_event(), |d: DirectiveView| d is Event);
    law_sorted_rows_list(directives, as_event(), event_row());
    assert(lists(rows, directives, as_event(), event_row()));
    let source = choose|source: Seq<int>|
        is_listing(rows, directives, as_event(), event_row(), source);
    assert forall|i: int| 0 <= i < source.len() implies (directives[#[trigger] source[i]] matches
        DirectiveView::Event(b) && rows[i] == seq![ValueView::Date(b.date), ValueView::String(b.event_type), ValueView::String(b.value)]) by {
    }
    law_sorted_rows_keep_count(picked(directives, as_event()), event_row());
    assert forall|i: int, j: int| 0 <= i < j < source.len() implies {
        let a = directives[#[trigger] source[i]]->Event_0;
        let b = directives[#[trigger] source[j]]->Event_0;
        event_before(a, b) || (!event_before(b, a) && source[i] < source[j])
    } by {
        let a = directives[source[i]]->Event_0;
        let b = directives[source[j]]->Event_0;
        let x = key_at(directives, as_event(), event_row(), source[i]);
        let y = key_at(directives, as_event(), event_row(), source[j]);
        assert(x.at_most(y));
        lemma_text_lt_irreflexive(x.name);
        lemma_text_lt_irreflexive(x.detail);
        lemma_text_lt_irreflexive(Seq::empty());
    }
    source
}

/// Whether a note comes before another one in its table: by date and account.
pub open spec fn note_before(a: NoteView, b: NoteView) -> bool {
    ||| day_before(a.date, b.date)
    ||| (a.date == b.date && text_lt(a.account, b.account))
}

/// The `#notes` table has as many rows as there are directives of its kind. Each of these has
/// a row with the date, the account and the comment, whatever they are, and each row
/// is that of one of them. The rows are in order of date and account; where these are equal, in
/// the order of the ledger.
pub proof fn law_note_rows(executor: ExecutorView) -> (source: Seq<int>)
    ensures
        notes_table(executor).columns == seq!["date"@, "account"@, "comment"@],
        notes_table(executor).rows.len() == executor.directives.filter(
            |d: DirectiveView| d is Note,
        ).len(),
        is_pairing(notes_table(executor).rows, executor.directives.len(), source),
        forall|i: int|
            0 <= i < source.len() ==> (executor.directives[#[trigger] source[i]] matches
                DirectiveView::Note(b) && notes_table(executor).rows[i] == seq![
                ValueView::Date(b.date), ValueView::String(b.account), ValueView::String(b.comment),
            ]),
        forall|p: int|
            0 <= p < executor.directives.len() && #[trigger] executor.directives[p] is Note
                ==> source.contains(p),
        forall|i: int, j: int|
            0 <= i < j < source.len() ==> {
                let a = executor.directives[#[trigger] source[i]]->Note_0;
                let b = executor.directives[#[trigger] source[j]]->Note_0;
                note_before(a, b) || (!note_before(b, a) && source[i] < source[j])
            },
{
    let directives = executor.directives;
    let rows = notes_table(executor).rows;
    lemma_picked_count(directives, as_note(), |d: DirectiveView| d is Note);
    law_sorted_rows_list(directives, as_note(), note_row());
    assert(lists(rows, directives, as_note(), note_row()));
    let source = choose|source: Seq<int>|
        is_listing(rows, directives, as_note(), note_row(), source);
    assert forall|i: int| 0 <= i < source.len() implies (directives[#[trigger] source[i]] matches
        DirectiveView::Note(b) && rows[i] == seq![ValueView::Date(b.date), ValueView::String(b.account), ValueView::String(b.comment)]) by {
    }
    law_sorted_rows_keep_count(picked(directives, as_note()), note_row());
    assert forall|i: int, j: int| 0 <= i < j < source.len() implies {
        let a = directives[#[trigger] source[i]]->Note_0;
        let b = directives[#[trigger] source[j]]->Note_0;
        note_before(a, b) || (!note_before(b, a) && source[i] < source[j])
    } by {
        let a = directives[source[i]]->Note_0;
        let b = directives[source[j]]->Note_0;
        let x = key_at(directives, as_note(), note_row(), source[i]);
        let y = key_at(directives, as_note(), note_row(), source[j]);
        assert(x.at_most(y));
        lemma_text_lt_irreflexive(x.name);
        lemma_text_lt_irreflexive(x.detail);
        lemma_text_lt_irreflexive(Seq::empty());
    }
    source
}

/// Whether a document comes before another one in its table: by date, account and file name.
pub open spec fn document_before(a: DocumentView, b: DocumentView) -> bool {
    ||| day_before(a.date, b.date)
    ||| (a.date == b.date && text_lt(a.account, b.account))
    ||| (a.date == b.date && a.account == b.account && text_lt(a.path, b.path))
}

/// The `#documents` table has as many rows as there are directives of its kind. Each of these has
/// a row with the date, the account, the file name, the tags and the links, whatever they are, and each row
/// is that of one of them. The rows are in order of date, account and file name; where these are equal, in
/// the order of the ledger.
pub proof fn law_document_rows(executor: ExecutorView) -> (source: Seq<int>)
    ensures
        documents_table(executor).columns == seq!["date"@, "account"@, "filename"@, "tags"@, "links"@],
        documents_table(executor).rows.len() == executor.directives.filter(
            |d: DirectiveView| d is Document,
        ).len(),
        is_pairing(documents_table(executor).rows, executor.directives.len(), source),
        forall|i: int|
            0 <= i < source.len() ==> (executor.directives[#[trigger] source[i]] matches
                DirectiveView::Document(b) && documents_table(executor).rows[i] == seq![
                ValueView::Date(b.date), ValueView::String(b.account), ValueView::String(b.path), ValueView::StringSet(b.tags), ValueView::StringSet(b.links),
            ]),
        forall|p: int|
            0 <= p < executor.directives.len() && #[trigger] executor.directives[p] is Document
                ==> source.contains(p),
        forall|i: int, j: int|
            0 <= i < j < source.len() ==> {
                let a = executor.directives[#[trigger] source[i]]->Document_0;
                let b = executor.directives[#[trigger] source[j]]->Document_0;
                document_before(a, b) || (!document_before(b, a) && source[i] < source[j])
            },
{
    let directives = executor.directives;
    let rows = documents_table(executor).rows;
    lemma_picked_count(directives, as_document(), |d: DirectiveView| d is Document);
    law_sorted_rows_list(directives, as_document(), document_row());
    assert(lists(rows, directives, as_document(), document_row()));
    let source = choose|source: Seq<int>|
        is_listing(rows, directives, as_document(), document_row(), source);
    assert forall|i: int| 0 <= i < source.len() implies (directives[#[trigger] source[i]] matches
        DirectiveView::Document(b) && rows[i] == seq![ValueView::Date(b.date), ValueView::String(b.account), ValueView::String(b.path), ValueView::StringSet(b.tags), ValueView::StringSet(b.links)]) by {
    }
    law_sorted_rows_keep_count(picked(directives, as_document()), document_row());
    assert forall|i: int, j: int| 0 <= i < j < source.len() implies {
        let a = directives[#[trigger] source[i]]->Document_0;
        let b = directives[#[trigger] source[j]]->Document_0;
        document_before(a, b) || (!document_before(b, a) && source[i] < source[j])
    } by {
        let a = directives[source[i]]->Document_0;
        let b = directives[source[j]]->Document_0;
        let x = key_at(directives, as_document(), document_row(), source[i]);
        let y = key_at(directives, as_document(), document_row(), source[j]);
        assert(x.at_most(y));
        lemma_text_lt_irreflexive(x.name);
        lemma_text_lt_irreflexive(x.detail);
        lemma_text_lt_irreflexive(Seq::empty());
    }
    source
}

/// Whether a price comes before another one in its table: by date and priced currency.
pub open spec fn price_before(a: PriceEntryView, b: PriceEntryView) -> bool {
    ||| day_before(a.date, b.date)
    ||| (a.date == b.date && text_lt(a.base, b.base))
}

/// The `#prices` table has as many rows as there are explicit prices. Each of these has a row
/// with the date, the priced currency and the price, whatever they are, and each row is that of
/// one of them. The rows are in order of date and currency; where these are equal, in the order
/// of the prices.
pub proof fn law_price_rows(executor: ExecutorView) -> (source: Seq<int>)
    ensures
        prices_table(executor).columns == seq!["date"@, "currency"@, "amount"@],
        prices_table(executor).rows.len() == executor.prices.filter(
            |p: PriceEntryView| p.explicit,
        ).len(),
        is_pairing(prices_table(executor).rows, executor.prices.len(), source),
        forall|i: int|
            0 <= i < source.len() ==> {
                let price = executor.prices[#[trigger] source[i]];
                price.explicit && prices_table(executor).rows[i] == seq![
                    ValueView::Date(price.date),
                    ValueView::String(price.base),
                    ValueView::Amount(AmountView { number: price.number, currency: price.quote }),
                ]
            },
        forall|p: int|
            0 <= p < executor.prices.len() && (#[trigger] executor.prices[p]).explicit
                ==> source.contains(p),
        forall|i: int, j: int|
            0 <= i < j < source.len() ==> {
                let a = executor.prices[#[trigger] source[i]];
                let b = executor.prices[#[trigger] source[j]];
                price_before(a, b) || (!price_before(b, a) && source[i] < source[j])
            },
{
    let prices = executor.prices;
    let rows = prices_table(executor).rows;
    lemma_picked_count(prices, as_explicit_price(), |p: PriceEntryView| p.explicit);
    law_sorted_rows_list(prices, as_explicit_price(), price_row());
    assert(lists(rows, prices, as_explicit_price(), price_row()));
    let source = choose|source: Seq<int>|
        is_listing(rows, prices, as_explicit_price(), price_row(), source);
    law_sorted_rows_keep_count(picked(prices, as_explicit_price()), price_row());
    assert forall|p: int| 0 <= p < prices.len() && (#[trigger] prices[p]).explicit implies
        source.contains(p) by {
        assert(as_explicit_price()(prices[p]) is Some);
    }
    assert forall|i: int, j: int| 0 <= i < j < source.len() implies {
        let a = prices[#[trigger] source[i]];
        let b = prices[#[trigger] source[j]];
        price_before(a, b) || (!price_before(b, a) && source[i] < source[j])
    } by {
        let x = key_at(prices, as_explicit_price(), price_row(), source[i]);
        let y = key_at(prices, as_explicit_price(), price_row(), source[j]);
        assert(x.at_most(y));
        lemma_text_lt_irreflexive(x.name);
        lemma_text_lt_irreflexive(Seq::empty());
    }
    source
}

/// Whether a row of `#transactions` shows the transaction: date, flag, payee or `NULL`,
/// narration, tags, links, and the accounts of its postings, ascending and each once.
pub open spec fn shows_transaction(row: Seq<ValueView>, txn: TransactionView) -> bool {
    &&& row.len() == 7
    &&& row[0] == ValueView::Date(txn.date)
    &&& row[1] == ValueView::String(seq![txn.flag])
    &&& row[2] == match txn.payee {
        Some(payee) => ValueView::String(payee),
        None => ValueView::Null,
    }
    &&& row[3] == ValueView::String(txn.narration)
    &&& row[4] == ValueView::StringSet(txn.tags)
    &&& row[5] == ValueView::StringSet(txn.links)
    &&& shows_accounts(row[6], txn)
}

/// Whether a cell holds the accounts of the postings of a transaction, ascending and each once.
pub open spec fn shows_accounts(cell: ValueView, txn: TransactionView) -> bool {
    &&& cell is StringSet
    &&& ascending(cell->StringSet_0)
    &&& forall|account: Seq<char>| #[trigger]
        cell->StringSet_0.contains(account) <==> touches(txn, account)
}

/// The accounts of a transaction are shown as they should be.
pub proof fn lemma_accounts_shown(txn: TransactionView)
    ensures
        shows_accounts(ValueView::StringSet(account_set(txn)), txn),
{
    let all = posting_accounts(txn.postings);
    law_name_set(all);
    assert forall|account: Seq<char>| #[trigger]
        account_set(txn).contains(account) <==> touches(txn, account) by {
        assert(account_set(txn).contains(account) == all.contains(account));
        if all.contains(account) {
            let q = choose|q: int| 0 <= q < all.len() && all[q] == account;
            assert(txn.postings[q].account == account);
        }
        if touches(txn, account) {
            let q = choose|q: int|
                0 <= q < txn.postings.len() && (#[trigger] txn.postings[q]).account == account;
            assert(all[q] == account);
        }
    }
}

/// The `#transactions` table has as many rows as there are transactions. Each of these has a
/// row, and each row is that of one of them. The rows are in order of the dates; transactions of
/// one day are in the order of the ledger.
pub proof fn law_transaction_rows(executor: ExecutorView) -> (source: Seq<int>)
    ensures
        transactions_table(executor).columns == seq![
            "date"@,
            "flag"@,
            "payee"@,
            "narration"@,
            "tags"@,
            "links"@,
            "accounts"@,
        ],
        transactions_table(executor).rows.len() == executor.directives.filter(
            |d: DirectiveView| d is Transaction,
        ).len(),
        is_pairing(transactions_table(executor).rows, executor.directives.len(), source),
        forall|i: int|
            0 <= i < source.len() ==> (executor.directives[#[trigger] source[i]] matches
                DirectiveView::Transaction(txn) && shows_transaction(
                transactions_table(executor).rows[i],
                txn,
            )),
        forall|p: int|
            0 <= p < executor.directives.len() && #[trigger] executor.directives[p] is Transaction
                ==> source.contains(p),
        forall|i: int, j: int|
            0 <= i < j < source.len() ==> {
                let a = executor.directives[#[trigger] source[i]]->Transaction_0.date;
                let b = executor.directives[#[trigger] source[j]]->Transaction_0.date;
                day_before(a, b) || (a == b && source[i] < source[j])
            },
{
    let directives = executor.directives;
    let rows = transactions_table(executor).rows;
    lemma_picked_count(directives, as_transaction(), |d: DirectiveView| d is Transaction);
    law_sorted_rows_list(directives, as_transaction(), transaction_row());
    assert(lists(rows, directives, as_transaction(), transaction_row()));
    let source = choose|source: Seq<int>|
        is_listing(rows, directives, as_transaction(), transaction_row(), source);
    law_sorted_rows_keep_count(picked(directives, as_transaction()), transaction_row());
    assert forall|i: int| 0 <= i < source.len() implies (directives[#[trigger] source[i]] matches
        DirectiveView::Transaction(txn) && shows_transaction(rows[i], txn)) by {
        lemma_accounts_shown(directives[source[i]]->Transaction_0);
    }
    assert forall|i: int, j: int| 0 <= i < j < source.len() implies {
        let a = directives[#[trigger] source[i]]->Transaction_0.date;
        let b = directives[#[trigger] source[j]]->Transaction_0.date;
        day_before(a, b) || (a == b && source[i] < source[j])
    } by {
        let x = key_at(directives, as_transaction(), transaction_row(), source[i]);
        let y = key_at(directives, as_transaction(), transaction_row(), source[j]);
        assert(x.at_most(y));
        lemma_text_lt_irreflexive(Seq::empty());
    }
    source
}

} // verus!
