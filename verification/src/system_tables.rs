//! The built-in tables that list the directives of one kind: `#prices`, `#balances`,
//! `#commodities`, `#events`, `#notes`, `#documents` and `#transactions`.
use crate::executor::{Executor, ExecutorView, PriceEntry, PriceEntryView};
use crate::holdings::{Amount, AmountView};
use crate::keys::{RowKey, RowKeyView};
use crate::ledger::{
    Balance, BalanceView, Commodity, CommodityView, Directive, DirectiveView, Document,
    DocumentView, Event, EventView, Note, NoteView, PostingView, Transaction, TransactionView,
};
use crate::names::{add_name, name_set};
use crate::text::char_text;
use crate::tables::{pick_all, picked, sorted_rows, sorted_table, KeyedRow, PickedFrom, TableRow};
use crate::value::{Table, TableView, Value, ValueView};
use crate::views::{duplicate_vec, option_view, seq_view, Duplicate};
use vstd::prelude::*;

verus! {

/// A string, or `NULL` where there is none.
pub open spec fn text_cell(text: Option<Seq<char>>) -> ValueView {
    match text {
        Some(s) => ValueView::String(s),
        None => ValueView::Null,
    }
}

/// A string, or `NULL` where there is none.
pub fn text_value(text: &Option<String>) -> (value: Value)
    ensures
        value@ == text_cell(option_view(*text)),
{
    match text {
        Some(s) => Value::String(s.clone()),
        None => Value::Null,
    }
}

/// The accounts of postings, in their order.
pub open spec fn posting_accounts(postings: Seq<PostingView>) -> Seq<Seq<char>> {
    postings.map_values(|p: PostingView| p.account)
}

/// The accounts that a transaction touches, each once and in order.
pub open spec fn account_set(txn: TransactionView) -> Seq<Seq<char>> {
    name_set(posting_accounts(txn.postings))
}

/// The accounts that a transaction touches, each once and in order.
pub fn transaction_accounts(txn: &Transaction) -> (accounts: Vec<String>)
    ensures
        seq_view(accounts@) == account_set(txn@),
{
    let mut accounts: Vec<String> = Vec::new();
    let ghost all = posting_accounts(txn@.postings);
    assert(seq_view(accounts@) =~= name_set(all.take(0)));
    let mut i: usize = 0;
    while i < txn.postings.len()
        invariant
            i <= txn.postings.len(),
            all == posting_accounts(txn@.postings),
            seq_view(accounts@) == name_set(all.take(i as int)),
        decreases txn.postings.len() - i,
    {
        add_name(&mut accounts, txn.postings[i].account.as_str());
        proof {
            assert(txn@.postings[i as int] == txn.postings@[i as int]@);
            assert(all.take(i + 1).drop_last() == all.take(i as int));
        }
        i = i + 1;
    }
    assert(all.take(i as int) == all);
    accounts
}

/// The row of a price: the date, the currency that is priced, and its price.
pub open spec fn price_row() -> spec_fn(PriceEntryView) -> KeyedRow {
    |p: PriceEntryView|
        KeyedRow {
            key: RowKeyView { date: p.date, name: p.base, detail: Seq::empty() },
            cells: seq![
                ValueView::Date(p.date),
                ValueView::String(p.base),
                ValueView::Amount(AmountView { number: p.number, currency: p.quote }),
            ],
        }
}

impl TableRow for PriceEntry {
    open spec fn keyed_row() -> spec_fn(PriceEntryView) -> KeyedRow {
        price_row()
    }

    fn row_key(&self) -> (key: RowKey<'_>) {
        proof {
            reveal_strlit("");
            assert(""@ =~= Seq::empty());
        }
        RowKey { date: self.date, name: self.base.as_str(), detail: "" }
    }

    fn cells(&self) -> (cells: Vec<Value>) {
        let cells = vec![
            Value::Date(self.date),
            Value::String(self.base.clone()),
            Value::Amount(Amount { number: self.number, currency: self.quote.clone() }),
        ];
        assert(seq_view(cells@) =~= price_row()(self@).cells);
        cells
    }
}

/// The entry, where it is an explicit price.
pub open spec fn as_explicit_price() -> spec_fn(PriceEntryView) -> Option<PriceEntryView> {
    |p: PriceEntryView|
        if p.explicit {
            Some(p)
        } else {
            None
        }
}

impl PickedFrom<PriceEntry> for PriceEntry {
    open spec fn picking() -> spec_fn(PriceEntryView) -> Option<PriceEntryView> {
        as_explicit_price()
    }

    fn pick(source: &PriceEntry) -> (item: Option<&PriceEntry>) {
        if source.explicit {
            Some(source)
        } else {
            None
        }
    }
}

/// The `#prices` table: date, priced currency and price of each explicit price, by date and
/// currency. Prices that were derived from transactions are left out.
pub open spec fn prices_table(executor: ExecutorView) -> TableView {
    TableView {
        columns: seq!["date"@, "currency"@, "amount"@],
        rows: sorted_rows(picked(executor.prices, as_explicit_price()), price_row()),
    }
}

impl Executor {
    /// The `#prices` table: date, priced currency and price of each explicit price, by date and
    /// currency. Prices that were derived from transactions are left out.
    pub fn build_prices_table(&self) -> (table: Table)
        ensures
            table@ == prices_table(self@),
    {
        let items: Vec<&PriceEntry> = pick_all(&self.prices);
        let table = sorted_table(vec!["date", "currency", "amount"], items);
        assert(table@.columns =~= prices_table(self@).columns);
        table
    }
}

/// The row of a balance: its date, its account and the amount that is expected.
pub open spec fn balance_row() -> spec_fn(BalanceView) -> KeyedRow {
    |p: BalanceView|
        KeyedRow {
            key: RowKeyView { date: p.date, name: p.account, detail: Seq::empty() },
            cells: seq![
                ValueView::Date(p.date),
                ValueView::String(p.account),
                ValueView::Amount(p.amount),
            ],
        }
}

impl TableRow for Balance {
    open spec fn keyed_row() -> spec_fn(BalanceView) -> KeyedRow {
        balance_row()
    }

    fn row_key(&self) -> (key: RowKey<'_>) {
        proof {
            reveal_strlit("");
            assert(""@ =~= Seq::empty());
        }
        RowKey { date: self.date, name: self.account.as_str(), detail: "" }
    }

    fn cells(&self) -> (cells: Vec<Value>) {
        let cells = vec![
            Value::Date(self.date),
            Value::String(self.account.clone()),
            Value::Amount(self.amount.duplicate()),
        ];
        assert(seq_view(cells@) =~= balance_row()(self@).cells);
        cells
    }
}

/// The balance that a directive is.
pub open spec fn as_balance() -> spec_fn(DirectiveView) -> Option<BalanceView> {
    |d: DirectiveView|
        match d {
            DirectiveView::Balance(p) => Some(p),
            _ => None,
        }
}

impl PickedFrom<Directive> for Balance {
    open spec fn picking() -> spec_fn(DirectiveView) -> Option<BalanceView> {
        as_balance()
    }

    fn pick(source: &Directive) -> (item: Option<&Balance>) {
        match source {
            Directive::Balance(item) => Some(item),
            _ => None,
        }
    }
}

/// The `#balances` table: date, account and expected amount of each balance assertion, by date
/// and account.
pub open spec fn balances_table(executor: ExecutorView) -> TableView {
    TableView {
        columns: seq!["date"@, "account"@, "amount"@],
        rows: sorted_rows(picked(executor.directives, as_balance()), balance_row()),
    }
}

impl Executor {
    /// The `#balances` table: date, account and expected amount of each balance assertion, by date
    /// and account.
    pub fn build_balances_table(&self) -> (table: Table)
        ensures
            table@ == balances_table(self@),
    {
        let items: Vec<&Balance> = pick_all(&self.directives);
        let table = sorted_table(vec!["date", "account", "amount"], items);
        assert(table@.columns =~= balances_table(self@).columns);
        table
    }
}

/// The row of a commodity: the date of its declaration and its name.
pub open spec fn commodity_row() -> spec_fn(CommodityView) -> KeyedRow {
    |p: CommodityView|
        KeyedRow {
            key: RowKeyView { date: p.date, name: p.currency, detail: Seq::empty() },
            cells: seq![
                ValueView::Date(p.date),
                ValueView::String(p.currency),
            ],
        }
}

impl TableRow for Commodity {
    open spec fn keyed_row() -> spec_fn(CommodityView) -> KeyedRow {
        commodity_row()
    }

    fn row_key(&self) -> (key: RowKey<'_>) {
        proof {
            reveal_strlit("");
            assert(""@ =~= Seq::empty());
        }
        RowKey { date: self.date, name: self.currency.as_str(), detail: "" }
    }

    fn cells(&self) -> (cells: Vec<Value>) {
        let cells = vec![
            Value::Date(self.date),
            Value::String(self.currency.clone()),
        ];
        assert(seq_view(cells@) =~= commodity_row()(self@).cells);
        cells
    }
}

/// The commodity that a directive is.
pub open spec fn as_commodity() -> spec_fn(DirectiveView) -> Option<CommodityView> {
    |d: DirectiveView|
        match d {
            DirectiveView::Commodity(p) => Some(p),
            _ => None,
        }
}

impl PickedFrom<Directive> for Commodity {
    open spec fn picking() -> spec_fn(DirectiveView) -> Option<CommodityView> {
        as_commodity()
    }

    fn pick(source: &Directive) -> (item: Option<&Commodity>) {
        match source {
            Directive::Commodity(item) => Some(item),
            _ => None,
        }
    }
}

/// The `#commodities` table: date and name of each declared commodity, by date and name.
pub open spec fn commodities_table(executor: ExecutorView) -> TableView {
    TableView {
        columns: seq!["date"@, "name"@],
        rows: sorted_rows(picked(executor.directives, as_commodity()), commodity_row()),
    }
}

impl Executor {
    /// The `#commodities` table: date and name of each declared commodity, by date and name.
    pub fn build_commodities_table(&self) -> (table: Table)
        ensures
            table@ == commodities_table(self@),
    {
        let items: Vec<&Commodity> = pick_all(&self.directives);
        let table = sorted_table(vec!["date", "name"], items);
        assert(table@.columns =~= commodities_table(self@).columns);
        table
    }
}

/// The row of an event: its date, its type and its value.
pub open spec fn event_row() -> spec_fn(EventView) -> KeyedRow {
    |p: EventView|
        KeyedRow {
            key: RowKeyView { date: p.date, name: p.event_type, detail: Seq::empty() },
            cells: seq![
                ValueView::Date(p.date),
                ValueView::String(p.event_type),
                ValueView::String(p.value),
            ],
        }
}

impl TableRow for Event {
    open spec fn keyed_row() -> spec_fn(EventView) -> KeyedRow {
        event_row()
    }

    fn row_key(&self) -> (key: RowKey<'_>) {
        proof {
            reveal_strlit("");
            assert(""@ =~= Seq::empty());
        }
        RowKey { date: self.date, name: self.event_type.as_str(), detail: "" }
    }

    fn cells(&self) -> (cells: Vec<Value>) {
        let cells = vec![
            Value::Date(self.date),
            Value::String(self.event_type.clone()),
            Value::String(self.value.clone()),
        ];
        assert(seq_view(cells@) =~= event_row()(self@).cells);
        cells
    }
}

/// The event that a directive is.
pub open spec fn as_event() -> spec_fn(DirectiveView) -> Option<EventView> {
    |d: DirectiveView|
        match d {
            DirectiveView::Event(p) => Some(p),
            _ => None,
        }
}

impl PickedFrom<Directive> for Event {
    open spec fn picking() -> spec_fn(DirectiveView) -> Option<EventView> {
        as_event()
    }

    fn pick(source: &Directive) -> (item: Option<&Event>) {
        match source {
            Directive::Event(item) => Some(item),
            _ => None,
        }
    }
}

/// The `#events` table: date, type and description of each event, by date and type.
pub open spec fn events_table(executor: ExecutorView) -> TableView {
    TableView {
        columns: seq!["date"@, "type"@, "description"@],
        rows: sorted_rows(picked(executor.directives, as_event()), event_row()),
    }
}

impl Executor {
    /// The `#events` table: date, type and description of each event, by date and type.
    pub fn build_events_table(&self) -> (table: Table)
        ensures
            table@ == events_table(self@),
    {
        let items: Vec<&Event> = pick_all(&self.directives);
        let table = sorted_table(vec!["date", "type", "description"], items);
        assert(table@.columns =~= events_table(self@).columns);
        table
    }
}

/// The row of a note: its date, its account and its text.
pub open spec fn note_row() -> spec_fn(NoteView) -> KeyedRow {
    |p: NoteView|
        KeyedRow {
            key: RowKeyView { date: p.date, name: p.account, detail: Seq::empty() },
            cells: seq![
                ValueView::Date(p.date),
                ValueView::String(p.account),
                ValueView::String(p.comment),
            ],
        }
}

impl TableRow for Note {
    open spec fn keyed_row() -> spec_fn(NoteView) -> KeyedRow {
        note_row()
    }

    fn row_key(&self) -> (key: RowKey<'_>) {
        proof {
            reveal_strlit("");
            assert(""@ =~= Seq::empty());
        }
        RowKey { date: self.date, name: self.account.as_str(), detail: "" }
    }

    fn cells(&self) -> (cells: Vec<Value>) {
        let cells = vec![
            Value::Date(self.date),
            Value::String(self.account.clone()),
            Value::String(self.comment.clone()),
        ];
        assert(seq_view(cells@) =~= note_row()(self@).cells);
        cells
    }
}

/// The note that a directive is.
pub open spec fn as_note() -> spec_fn(DirectiveView) -> Option<NoteView> {
    |d: DirectiveView|
        match d {
            DirectiveView::Note(p) => Some(p),
            _ => None,
        }
}

impl PickedFrom<Directive> for Note {
    open spec fn picking() -> spec_fn(DirectiveView) -> Option<NoteView> {
        as_note()
    }

    fn pick(source: &Directive) -> (item: Option<&Note>) {
        match source {
            Directive::Note(item) => Some(item),
            _ => None,
        }
    }
}

/// The `#notes` table: date, account and comment of each note, by date and account.
pub open spec fn notes_table(executor: ExecutorView) -> TableView {
    TableView {
        columns: seq!["date"@, "account"@, "comment"@],
        rows: sorted_rows(picked(executor.directives, as_note()), note_row()),
    }
}

impl Executor {
    /// The `#notes` table: date, account and comment of each note, by date and account.
    pub fn build_notes_table(&self) -> (table: Table)
        ensures
            table@ == notes_table(self@),
    {
        let items: Vec<&Note> = pick_all(&self.directives);
        let table = sorted_table(vec!["date", "account", "comment"], items);
        assert(table@.columns =~= notes_table(self@).columns);
        table
    }
}

/// The row of a document: its date, its account, its path, its tags and its links.
pub open spec fn document_row() -> spec_fn(DocumentView) -> KeyedRow {
    |p: DocumentView|
        KeyedRow {
            key: RowKeyView { date: p.date, name: p.account, detail: p.path },
            cells: seq![
                ValueView::Date(p.date),
                ValueView::String(p.account),
                ValueView::String(p.path),
                ValueView::StringSet(p.tags),
                ValueView::StringSet(p.links),
            ],
        }
}

impl TableRow for Document {
    open spec fn keyed_row() -> spec_fn(DocumentView) -> KeyedRow {
        document_row()
    }

    fn row_key(&self) -> (key: RowKey<'_>) {
        RowKey { date: self.date, name: self.account.as_str(), detail: self.path.as_str() }
    }

    fn cells(&self) -> (cells: Vec<Value>) {
        let cells = vec![
            Value::Date(self.date),
            Value::String(self.account.clone()),
            Value::String(self.path.clone()),
            Value::StringSet(duplicate_vec(&self.tags)),
            Value::StringSet(duplicate_vec(&self.links)),
        ];
        assert(seq_view(cells@) =~= document_row()(self@).cells);
        cells
    }
}

/// The document that a directive is.
pub open spec fn as_document() -> spec_fn(DirectiveView) -> Option<DocumentView> {
    |d: DirectiveView|
        match d {
            DirectiveView::Document(p) => Some(p),
            _ => None,
        }
}

impl PickedFrom<Directive> for Document {
    open spec fn picking() -> spec_fn(DirectiveView) -> Option<DocumentView> {
        as_document()
    }

    fn pick(source: &Directive) -> (item: Option<&Document>) {
        match source {
            Directive::Document(item) => Some(item),
            _ => None,
        }
    }
}

/// The `#documents` table: date, account, file name, tags and links of each document, by date,
/// account and file name.
pub open spec fn documents_table(executor: ExecutorView) -> TableView {
    TableView {
        columns: seq!["date"@, "account"@, "filename"@, "tags"@, "links"@],
        rows: sorted_rows(picked(executor.directives, as_document()), document_row()),
    }
}

impl Executor {
    /// The `#documents` table: date, account, file name, tags and links of each document, by date,
    /// account and file name.
    pub fn build_documents_table(&self) -> (table: Table)
        ensures
            table@ == documents_table(self@),
    {
        let items: Vec<&Document> = pick_all(&self.directives);
        let table = sorted_table(vec!["date", "account", "filename", "tags", "links"], items);
        assert(table@.columns =~= documents_table(self@).columns);
        table
    }
}

/// The row of a transaction: its date, flag, payee and narration, its tags and links, and the accounts that it touches.
pub open spec fn transaction_row() -> spec_fn(TransactionView) -> KeyedRow {
    |p: TransactionView|
        KeyedRow {
            key: RowKeyView { date: p.date, name: Seq::empty(), detail: Seq::empty() },
            cells: seq![
                ValueView::Date(p.date),
                ValueView::String(seq![p.flag]),
                text_cell(p.payee),
                ValueView::String(p.narration),
                ValueView::StringSet(p.tags),
                ValueView::StringSet(p.links),
                ValueView::StringSet(account_set(p)),
            ],
        }
}

impl TableRow for Transaction {
    open spec fn keyed_row() -> spec_fn(TransactionView) -> KeyedRow {
        transaction_row()
    }

    fn row_key(&self) -> (key: RowKey<'_>) {
        proof {
            reveal_strlit("");
            assert(""@ =~= Seq::empty());
        }
        RowKey { date: self.date, name: "", detail: "" }
    }

    fn cells(&self) -> (cells: Vec<Value>) {
        let cells = vec![
            Value::Date(self.date),
            Value::String(char_text(self.flag)),
            text_value(&self.payee),
            Value::String(self.narration.clone()),
            Value::StringSet(duplicate_vec(&self.tags)),
            Value::StringSet(duplicate_vec(&self.links)),
            Value::StringSet(transaction_accounts(self)),
        ];
        assert(seq_view(cells@) =~= transaction_row()(self@).cells);
        cells
    }
}

/// The transaction that a directive is.
pub open spec fn as_transaction() -> spec_fn(DirectiveView) -> Option<TransactionView> {
    |d: DirectiveView|
        match d {
            DirectiveView::Transaction(p) => Some(p),
            _ => None,
        }
}

impl PickedFrom<Directive> for Transaction {
    open spec fn picking() -> spec_fn(DirectiveView) -> Option<TransactionView> {
        as_transaction()
    }

    fn pick(source: &Directive) -> (item: Option<&Transaction>) {
        match source {
            Directive::Transaction(item) => Some(item),
            _ => None,
        }
    }
}

/// The `#transactions` table: date, flag, payee, narration, tags, links and accounts of each
/// transaction, by date. The payee is `NULL` where there is none.
pub open spec fn transactions_table(executor: ExecutorView) -> TableView {
    TableView {
        columns: seq!["date"@, "flag"@, "payee"@, "narration"@, "tags"@, "links"@, "accounts"@],
        rows: sorted_rows(picked(executor.directives, as_transaction()), transaction_row()),
    }
}

impl Executor {
    /// The `#transactions` table: date, flag, payee, narration, tags, links and accounts of each
    /// transaction, by date. The payee is `NULL` where there is none.
    pub fn build_transactions_table(&self) -> (table: Table)
        ensures
            table@ == transactions_table(self@),
    {
        let items: Vec<&Transaction> = pick_all(&self.directives);
        let table = sorted_table(
            vec!["date", "flag", "payee", "narration", "tags", "links", "accounts"],
            items,
        );
        assert(table@.columns =~= transactions_table(self@).columns);
        table
    }
}

} // verus!
