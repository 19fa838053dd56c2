//! The built-in table of postings, `#postings`.
//!
//! The table is built in full before a query runs on it, so a column that takes work is built
//! only where the query reads it.
use crate::accounts::{date_cell, date_value};
use crate::ast::{Expr, SelectQuery};
use crate::executor::{ContextView, Executor, ExecutorView, PostingContext};
use crate::functions::{augmented, filename_cell, lineno_cell, location_cell, place};
use crate::holdings::{Amount, AmountView, Inventory, PositionView};
use crate::ledger::{
    BookedUnits, BookedUnitsView, DirectiveView, SourceLocation, Transaction, TransactionView,
};
use crate::system_tables::{account_set, text_cell, text_value, transaction_accounts};
use crate::tables::empty_table;
use crate::text::{char_text, same_text};
use crate::value::{EntryObject, EntryView, Table, TableView, Value, ValueView};
use crate::views::{duplicate_vec, lemma_seq_view_push, option_view, seq_view, Duplicate};
use vstd::prelude::*;

verus! {

/// The columns of the `#postings` table. The last two are hidden.
pub open spec fn postings_columns() -> Seq<Seq<char>> {
    seq![
        "type"@,
        "id"@,
        "date"@,
        "year"@,
        "month"@,
        "day"@,
        "filename"@,
        "lineno"@,
        "location"@,
        "flag"@,
        "payee"@,
        "narration"@,
        "description"@,
        "tags"@,
        "links"@,
        "posting_flag"@,
        "account"@,
        "other_accounts"@,
        "number"@,
        "currency"@,
        "cost_number"@,
        "cost_currency"@,
        "cost_date"@,
        "cost_label"@,
        "position"@,
        "price"@,
        "weight"@,
        "balance"@,
        "account_balance"@,
        "meta"@,
        "accounts"@,
        "entry"@,
        "_entry_meta"@,
        "_posting_meta"@,
    ]
}

/// Which columns have to be built.
#[derive(Clone, Copy, Debug, PartialEq, Eq)]
pub struct ColumnNeeds {
    pub kind: bool,
    pub loc: bool,
    pub flag: bool,
    pub payee: bool,
    pub narration: bool,
    pub description: bool,
    pub tags: bool,
    pub links: bool,
    pub posting_flag: bool,
    pub account: bool,
    pub other_accounts: bool,
    pub number: bool,
    pub currency: bool,
    pub cost: bool,
    pub position: bool,
    pub price: bool,
    pub weight: bool,
    pub balance: bool,
    pub account_balance: bool,
    pub meta: bool,
    pub accounts: bool,
    pub entry: bool,
}

/// The columns that a query needs. Those that it reads; besides, `balance` needs `position`,
/// from which it is computed anew once rows are filtered out, and a metadata function needs
/// the metadata columns, which it never names.
pub open spec fn column_needs(query: &SelectQuery) -> ColumnNeeds {
    ColumnNeeds {
        kind: query.reads("type"@),
        loc: query.reads("filename"@) || query.reads("lineno"@) || query.reads("location"@),
        flag: query.reads("flag"@),
        payee: query.reads("payee"@),
        narration: query.reads("narration"@),
        description: query.reads("description"@),
        tags: query.reads("tags"@),
        links: query.reads("links"@),
        posting_flag: query.reads("posting_flag"@),
        account: query.reads("account"@),
        other_accounts: query.reads("other_accounts"@),
        number: query.reads("number"@),
        currency: query.reads("currency"@),
        cost: query.reads("cost_number"@) || query.reads("cost_currency"@) || query.reads(
            "cost_date"@,
        ) || query.reads("cost_label"@),
        position: query.reads("position"@) || query.reads("balance"@),
        price: query.reads("price"@),
        weight: query.reads("weight"@),
        balance: query.reads("balance"@),
        account_balance: query.reads("account_balance"@),
        meta: query.reads("meta"@) || query.reads("_entry_meta"@) || query.reads("_posting_meta"@)
            || query.calls_meta,
        accounts: query.reads("accounts"@),
        entry: query.reads("entry"@),
    }
}

/// Whether a clause of the query names the column.
pub fn query_references_column(query: &SelectQuery, name: &str) -> (references: bool)
    ensures
        references == query.references(name@),
{
    let mut i: usize = 0;
    while i < query.columns.len()
        invariant
            i <= query.columns.len(),
            forall|k: int| 0 <= k < i ==> #[trigger] query.columns@[k]@ != name@,
        decreases query.columns.len() - i,
    {
        if same_text(query.columns[i].as_str(), name) {
            assert(seq_view(query.columns@)[i as int] == name@);
            return true;
        }
        i = i + 1;
    }
    false
}

/// Whether a metadata function is called in any clause of the query.
pub fn query_calls_meta_function(query: &SelectQuery) -> (calls: bool)
    ensures
        calls == query.calls_meta,
{
    query.calls_meta
}

/// Whether a target of the query is `*`.
pub fn query_selects_all(query: &SelectQuery) -> (all: bool)
    ensures
        all == query.selects_all(),
{
    let mut i: usize = 0;
    while i < query.targets.len()
        invariant
            i <= query.targets.len(),
            forall|k: int| 0 <= k < i ==> !((#[trigger] query.targets@[k]).expr is Wildcard),
        decreases query.targets.len() - i,
    {
        if let Expr::Wildcard = query.targets[i].expr {
            assert(query.targets@[i as int].expr is Wildcard);
            return true;
        }
        i = i + 1;
    }
    false
}

fn query_reads(query: &SelectQuery, wildcard: bool, name: &str) -> (reads: bool)
    requires
        wildcard == query.selects_all(),
    ensures
        reads == query.reads(name@),
{
    wildcard || query_references_column(query, name)
}

impl ColumnNeeds {
    /// The columns that a query needs.
    pub fn for_query(query: &SelectQuery) -> (needs: ColumnNeeds)
        ensures
            needs == column_needs(query),
    {
        let all = query_selects_all(query);
        let balance = query_reads(query, all, "balance");
        ColumnNeeds {
            kind: query_reads(query, all, "type"),
            loc: query_reads(query, all, "filename") || query_reads(query, all, "lineno")
                || query_reads(query, all, "location"),
            flag: query_reads(query, all, "flag"),
            payee: query_reads(query, all, "payee"),
            narration: query_reads(query, all, "narration"),
            description: query_reads(query, all, "description"),
            tags: query_reads(query, all, "tags"),
            links: query_reads(query, all, "links"),
            posting_flag: query_reads(query, all, "posting_flag"),
            account: query_reads(query, all, "account"),
            other_accounts: query_reads(query, all, "other_accounts"),
            number: query_reads(query, all, "number"),
            currency: query_reads(query, all, "currency"),
            cost: query_reads(query, all, "cost_number") || query_reads(query, all, "cost_currency")
                || query_reads(query, all, "cost_date") || query_reads(query, all, "cost_label"),
            position: query_reads(query, all, "position") || balance,
            price: query_reads(query, all, "price"),
            weight: query_reads(query, all, "weight"),
            balance,
            account_balance: query_reads(query, all, "account_balance"),
            meta: query_reads(query, all, "meta") || query_reads(query, all, "_entry_meta")
                || query_reads(query, all, "_posting_meta") || query_calls_meta_function(query),
            accounts: query_reads(query, all, "accounts"),
            entry: query_reads(query, all, "entry"),
        }
    }
}

/// A cell that is needed, or `NULL`.
pub open spec fn when(needed: bool, cell: ValueView) -> ValueView {
    if needed {
        cell
    } else {
        ValueView::Null
    }
}

/// A description: payee and narration with a bar between them, or the narration alone.
pub open spec fn description_text(txn: TransactionView) -> Seq<char> {
    match txn.payee {
        Some(payee) => payee + " | "@ + txn.narration,
        None => txn.narration,
    }
}

/// An amount, or `NULL` where there is none.
pub open spec fn amount_cell(amount: Option<AmountView>) -> ValueView {
    match amount {
        Some(a) => ValueView::Amount(a),
        None => ValueView::Null,
    }
}

/// An inventory, or `NULL` where there is none.
pub open spec fn inventory_cell(inventory: Option<Seq<PositionView>>) -> ValueView {
    match inventory {
        Some(positions) => ValueView::Inventory(positions),
        None => ValueView::Null,
    }
}

/// Number and currency of the amount, where the posting has one.
pub open spec fn unit_cells(needs: ColumnNeeds, units: Option<BookedUnitsView>) -> Seq<ValueView> {
    match units {
        Some(u) => seq![
            when(needs.number, ValueView::Number(u.amount.number)),
            when(needs.currency, ValueView::String(u.amount.currency)),
        ],
        None => seq![ValueView::Null, ValueView::Null],
    }
}

/// Number, currency, date and label of the cost, where the posting has one.
pub open spec fn cost_cells(needs: ColumnNeeds, units: Option<BookedUnitsView>) -> Seq<ValueView> {
    match units {
        Some(BookedUnitsView { cost: Some(cost), .. }) if needs.cost => seq![
            ValueView::Number(cost.number),
            ValueView::String(cost.currency),
            date_cell(cost.date),
            text_cell(cost.label),
        ],
        _ => seq![ValueView::Null, ValueView::Null, ValueView::Null, ValueView::Null],
    }
}

/// The position that the posting adds, where it has an amount.
pub open spec fn position_cell(needs: ColumnNeeds, units: Option<BookedUnitsView>) -> ValueView {
    match units {
        Some(u) => when(needs.position, ValueView::Position(u.position)),
        None => ValueView::Null,
    }
}

/// Kind, number, date and place of the directive of a posting.
pub open spec fn entry_cells(
    executor: ExecutorView,
    needs: ColumnNeeds,
    ctx: ContextView,
) -> Seq<ValueView> {
    let loc = executor.posting_location(ctx);
    let date = ctx.transaction.date;
    seq![
        when(needs.kind, ValueView::String("transaction"@)),
        ValueView::Integer(ctx.directive_index->0 as i64),
        ValueView::Date(date),
        ValueView::Integer(date.year as i64),
        ValueView::Integer(date.month as i64),
        ValueView::Integer(date.day as i64),
        when(needs.loc, filename_cell(loc)),
        when(needs.loc, lineno_cell(loc)),
        when(needs.loc, location_cell(loc)),
    ]
}

/// What a posting has from its transaction.
pub open spec fn parent_cells(needs: ColumnNeeds, txn: TransactionView) -> Seq<ValueView> {
    seq![
        when(needs.flag, ValueView::String(seq![txn.flag])),
        when(needs.payee, text_cell(txn.payee)),
        when(needs.narration, ValueView::String(txn.narration)),
        when(needs.description, ValueView::String(description_text(txn))),
        when(needs.tags, ValueView::StringSet(txn.tags)),
        when(needs.links, ValueView::StringSet(txn.links)),
    ]
}

/// The names but for one.
pub open spec fn names_without(names: Seq<Seq<char>>, own: Seq<char>) -> Seq<Seq<char>> {
    names.filter(|name: Seq<char>| name != own)
}

/// The accounts of the transaction other than that of the posting.
pub open spec fn other_accounts(ctx: ContextView) -> Seq<Seq<char>> {
    names_without(account_set(ctx.transaction), ctx.posting().account)
}

/// What a posting has of its own: flag, accounts, amount, cost, position, price and weight.
pub open spec fn own_cells(needs: ColumnNeeds, ctx: ContextView) -> Seq<ValueView> {
    let posting = ctx.posting();
    seq![
        match posting.flag {
            Some(flag) => when(needs.posting_flag, ValueView::String(seq![flag])),
            None => ValueView::Null,
        },
        when(needs.account, ValueView::String(posting.account)),
        when(needs.other_accounts, ValueView::StringSet(other_accounts(ctx))),
    ] + unit_cells(needs, posting.units) + cost_cells(needs, posting.units) + seq![
        position_cell(needs, posting.units),
        when(needs.price, amount_cell(posting.price)),
        when(needs.weight, amount_cell(posting.weight)),
    ]
}

/// The running balances, the metadata, the accounts and the parent transaction of a posting.
pub open spec fn collection_cells(
    executor: ExecutorView,
    needs: ColumnNeeds,
    ctx: ContextView,
) -> Seq<ValueView> {
    let txn = ctx.transaction;
    let posting = ctx.posting();
    seq![
        inventory_cell(ctx.balance),
        inventory_cell(ctx.account_balance),
        when(
            needs.meta,
            ValueView::Metadata(augmented(posting.meta, executor.posting_location(ctx))),
        ),
        when(needs.accounts, ValueView::StringSet(account_set(txn))),
        when(
            needs.entry,
            ValueView::Entry(
                EntryView { transaction: txn, location: executor.entry_location(ctx) },
            ),
        ),
        when(needs.meta, ValueView::Metadata(txn.meta)),
        when(needs.meta, ValueView::Metadata(posting.meta)),
    ]
}

/// The row of a posting.
pub open spec fn posting_row(
    executor: ExecutorView,
    needs: ColumnNeeds,
    ctx: ContextView,
) -> Seq<ValueView> {
    entry_cells(executor, needs, ctx) + parent_cells(needs, ctx.transaction) + own_cells(needs, ctx)
        + collection_cells(executor, needs, ctx)
}

/// The rows of all postings, in the order of the directives.
pub open spec fn posting_rows(executor: ExecutorView, needs: ColumnNeeds) -> Seq<Seq<ValueView>> {
    executor.contexts(
        executor.directives.len(),
        needs.balance,
        needs.account_balance,
    ).map_values(|ctx: ContextView| posting_row(executor, needs, ctx))
}

/// The `#postings` table as far as a query needs it.
pub open spec fn postings_table(executor: ExecutorView, needs: ColumnNeeds) -> TableView {
    TableView { columns: postings_columns(), rows: posting_rows(executor, needs) }
}

/// Every posting of a scan is one of the transaction that its directive is.
pub proof fn lemma_contexts_valid(
    executor: ExecutorView,
    count: nat,
    with_balance: bool,
    with_account_balance: bool,
)
    requires
        count <= executor.directives.len(),
    ensures
        forall|i: int|
            0 <= i < executor.contexts(count, with_balance, with_account_balance).len()
                ==> is_scanned(
                executor,
                #[trigger] executor.contexts(count, with_balance, with_account_balance)[i],
            ),
    decreases count,
{
    if count > 0 {
        let index = (count - 1) as nat;
        lemma_contexts_valid(executor, index, with_balance, with_account_balance);
        let before = executor.contexts(index, with_balance, with_account_balance);
        let all = executor.contexts(count, with_balance, with_account_balance);
        assert forall|i: int| 0 <= i < all.len() implies is_scanned(executor, #[trigger] all[i]) by {
            if i < before.len() {
                assert(all[i] == before[i]);
            }
        }
    }
}

/// Whether the posting is there, in the transaction that its directive is.
pub open spec fn is_scanned(executor: ExecutorView, ctx: ContextView) -> bool {
    &&& ctx.is_valid()
    &&& ctx.directive_index is Some
    &&& ctx.directive_index->0 < executor.directives.len()
    &&& executor.directives[ctx.directive_index->0 as int] == DirectiveView::Transaction(
        ctx.transaction,
    )
}

/// A copy of strings, as a value, where it is needed.
fn set_value(needed: bool, strings: &Vec<String>) -> (value: Value)
    ensures
        value@ == when(needed, ValueView::StringSet(seq_view(strings@))),
{
    if needed {
        Value::StringSet(duplicate_vec(strings))
    } else {
        Value::Null
    }
}

/// An amount, or `NULL` where there is none.
fn amount_value(amount: &Option<Amount>) -> (value: Value)
    ensures
        value@ == amount_cell(option_view(*amount)),
{
    match amount {
        Some(a) => Value::Amount(a.duplicate()),
        None => Value::Null,
    }
}

/// An inventory, or `NULL` where there is none.
fn inventory_value(inventory: Option<Inventory>) -> (value: Value)
    ensures
        value@ == inventory_cell(option_view(inventory)),
{
    match inventory {
        Some(inv) => Value::Inventory(Box::new(inv)),
        None => Value::Null,
    }
}

/// A description: payee and narration with a bar between them, or the narration alone.
pub fn transaction_description(txn: &Transaction) -> (description: String)
    ensures
        description@ == description_text(txn@),
{
    match &txn.payee {
        Some(payee) => {
            let mut description = payee.clone();
            description.append(" | ");
            description.append(txn.narration.as_str());
            description
        },
        None => txn.narration.clone(),
    }
}

/// The names but for one.
fn strings_without(strings: &Vec<String>, own: &str) -> (others: Vec<String>)
    ensures
        seq_view(others@) == names_without(seq_view(strings@), own@),
{
    let ghost all = seq_view(strings@);
    let mut others: Vec<String> = Vec::new();
    proof {
        reveal(Seq::filter);
        assert(seq_view(others@) =~= names_without(all.take(0), own@));
    }
    let mut i: usize = 0;
    while i < strings.len()
        invariant
            i <= strings.len(),
            all == seq_view(strings@),
            seq_view(others@) == names_without(all.take(i as int), own@),
        decreases strings.len() - i,
    {
        proof {
            reveal(Seq::filter);
            assert(all.take(i + 1).drop_last() == all.take(i as int));
            assert(all[i as int] == strings@[i as int]@);
        }
        if !same_text(strings[i].as_str(), own) {
            let kept = strings[i].clone();
            proof {
                lemma_seq_view_push(others@, kept);
            }
            others.push(kept);
        }
        i = i + 1;
    }
    assert(all.take(i as int) == all);
    others
}

/// What all postings of a transaction share. It is built once for each transaction, and
/// only as far as it is needed.
struct TxnMemo {
    dir_idx: usize,
    entry: Value,
    tags: Value,
    links: Value,
    all_accounts: Vec<String>,
    description: String,
}

impl TxnMemo {
    /// Whether it was built for the transaction.
    spec fn is_of(self, executor: ExecutorView, needs: ColumnNeeds, txn: TransactionView) -> bool {
        &&& self.entry@ == when(
            needs.entry,
            ValueView::Entry(
                EntryView { transaction: txn, location: executor.location(self.dir_idx as nat) },
            ),
        )
        &&& self.tags@ == when(needs.tags, ValueView::StringSet(txn.tags))
        &&& self.links@ == when(needs.links, ValueView::StringSet(txn.links))
        &&& needs.accounts || needs.other_accounts ==> seq_view(self.all_accounts@) == account_set(
            txn,
        )
        &&& needs.description ==> self.description@ == description_text(txn)
    }

    /// Whether it was built for the directive that it says.
    spec fn is_current(self, executor: ExecutorView, needs: ColumnNeeds) -> bool {
        &&& self.dir_idx < executor.directives.len()
        &&& executor.directives[self.dir_idx as int] matches DirectiveView::Transaction(txn)
            && self.is_of(executor, needs, txn)
    }
}

impl Executor {
    /// The transaction with its place, as a value.
    pub fn entry_object(txn: &Transaction, source_loc: Option<&SourceLocation>) -> (value: Value)
        ensures
            value@ == ValueView::Entry(
                EntryView { transaction: txn@, location: place(source_loc) },
            ),
    {
        let location = match source_loc {
            Some(l) => Some(l.duplicate()),
            None => None,
        };
        Value::Entry(Box::new(EntryObject { transaction: txn.duplicate(), location }))
    }

    fn transaction_memo(&self, needs: ColumnNeeds, txn: &Transaction, dir_idx: usize) -> (memo: TxnMemo)
        ensures
            memo.dir_idx == dir_idx,
            memo.is_of(self@, needs, txn@),
    {
        let entry = if needs.entry {
            Self::entry_object(txn, self.get_source_location(dir_idx))
        } else {
            Value::Null
        };
        let all_accounts = if needs.accounts || needs.other_accounts {
            transaction_accounts(txn)
        } else {
            Vec::new()
        };
        let description = if needs.description {
            transaction_description(txn)
        } else {
            String::new()
        };
        TxnMemo {
            dir_idx,
            entry,
            tags: set_value(needs.tags, &txn.tags),
            links: set_value(needs.links, &txn.links),
            all_accounts,
            description,
        }
    }

    fn entry_values(
        &self,
        needs: ColumnNeeds,
        ctx: &PostingContext,
        dir_idx: usize,
        loc: Option<&SourceLocation>,
    ) -> (values: Vec<Value>)
        requires
            ctx.directive_index == Some(dir_idx),
            needs.loc ==> place(loc) == self@.posting_location(ctx@),
        ensures
            seq_view(values@) == entry_cells(self@, needs, ctx@),
    {
        let date = ctx.transaction.date;
        let (filename, lineno, location) = if needs.loc {
            (
                Self::source_filename_value(loc),
                Self::source_lineno_value(loc),
                Self::source_location_value(loc),
            )
        } else {
            (Value::Null, Value::Null, Value::Null)
        };
        let values = vec![
            if needs.kind {
                Value::String("transaction".to_owned())
            } else {
                Value::Null
            },
            Value::Integer(dir_idx as i64),
            Value::Date(date),
            Value::Integer(date.year() as i64),
            Value::Integer(date.month() as i64),
            Value::Integer(date.day() as i64),
            filename,
            lineno,
            location,
        ];
        assert(seq_view(values@) =~= entry_cells(self@, needs, ctx@));
        values
    }

    fn parent_values(&self, needs: ColumnNeeds, txn: &Transaction, memo: &TxnMemo) -> (values: Vec<
        Value,
    >)
        requires
            memo.is_of(self@, needs, txn@),
        ensures
            seq_view(values@) == parent_cells(needs, txn@),
    {
        let values = vec![
            if needs.flag {
                Value::String(char_text(txn.flag))
            } else {
                Value::Null
            },
            if needs.payee {
                text_value(&txn.payee)
            } else {
                Value::Null
            },
            if needs.narration {
                Value::String(txn.narration.clone())
            } else {
                Value::Null
            },
            if needs.description {
                Value::String(memo.description.clone())
            } else {
                Value::Null
            },
            memo.tags.duplicate(),
            memo.links.duplicate(),
        ];
        assert(seq_view(values@) =~= parent_cells(needs, txn@));
        values
    }
}

/// Number and currency of the amount, where the posting has one.
fn unit_values(needs: ColumnNeeds, units: &Option<BookedUnits>) -> (values: (Value, Value))
    ensures
        seq![values.0@, values.1@] == unit_cells(needs, option_view(*units)),
{
    match units {
        Some(u) => (
            if needs.number {
                Value::Number(u.amount.number)
            } else {
                Value::Null
            },
            if needs.currency {
                Value::String(u.amount.currency.clone())
            } else {
                Value::Null
            },
        ),
        None => (Value::Null, Value::Null),
    }
}

/// Number, currency, date and label of the cost, where the posting has one.
fn cost_values(needs: ColumnNeeds, units: &Option<BookedUnits>) -> (values: (
    Value,
    Value,
    Value,
    Value,
))
    ensures
        seq![values.0@, values.1@, values.2@, values.3@] == cost_cells(needs, option_view(*units)),
{
    if needs.cost {
        if let Some(u) = units {
            if let Some(cost) = &u.cost {
                return (
                    Value::Number(cost.number),
                    Value::String(cost.currency.clone()),
                    date_value(cost.date),
                    text_value(&cost.label),
                );
            }
        }
    }
    (Value::Null, Value::Null, Value::Null, Value::Null)
}

impl Executor {
    fn own_values(&self, needs: ColumnNeeds, ctx: &PostingContext, memo: &TxnMemo) -> (values: Vec<
        Value,
    >)
        requires
            ctx@.is_valid(),
            memo.is_of(self@, needs, ctx@.transaction),
        ensures
            seq_view(values@) == own_cells(needs, ctx@),
    {
        let posting = &ctx.transaction.postings[ctx.posting_index];
        assert(posting@ == ctx@.posting());
        let (number, currency) = unit_values(needs, &posting.units);
        let (cost_number, cost_currency, cost_date, cost_label) = cost_values(
            needs,
            &posting.units,
        );
        let position = match &posting.units {
            Some(u) => if needs.position {
                Value::Position(Box::new(u.position.duplicate()))
            } else {
                Value::Null
            },
            None => Value::Null,
        };
        let posting_flag = match posting.flag {
            Some(flag) => if needs.posting_flag {
                Value::String(char_text(flag))
            } else {
                Value::Null
            },
            None => Value::Null,
        };
        let others = if needs.other_accounts {
            Value::StringSet(strings_without(&memo.all_accounts, posting.account.as_str()))
        } else {
            Value::Null
        };
        let values = vec![
            posting_flag,
            if needs.account {
                Value::String(posting.account.clone())
            } else {
                Value::Null
            },
            others,
            number,
            currency,
            cost_number,
            cost_currency,
            cost_date,
            cost_label,
            position,
            if needs.price {
                amount_value(&posting.price)
            } else {
                Value::Null
            },
            if needs.weight {
                amount_value(&posting.weight)
            } else {
                Value::Null
            },
        ];
        assert(seq_view(values@) =~= own_cells(needs, ctx@));
        values
    }

    fn collection_values(
        &self,
        needs: ColumnNeeds,
        ctx: PostingContext<'_>,
        memo: &TxnMemo,
        loc: Option<&SourceLocation>,
    ) -> (values: Vec<Value>)
        requires
            ctx@.is_valid(),
            ctx.directive_index == Some(memo.dir_idx),
            memo.is_of(self@, needs, ctx@.transaction),
            needs.meta ==> place(loc) == self@.posting_location(ctx@),
        ensures
            seq_view(values@) == collection_cells(self@, needs, ctx@),
    {
        let txn = ctx.transaction;
        let posting = &txn.postings[ctx.posting_index];
        assert(posting@ == ctx@.posting());
        let values = vec![
            inventory_value(ctx.balance),
            inventory_value(ctx.account_balance),
            if needs.meta {
                Value::Metadata(Box::new(Self::augmented_meta(&posting.meta, loc)))
            } else {
                Value::Null
            },
            if needs.accounts {
                Value::StringSet(duplicate_vec(&memo.all_accounts))
            } else {
                Value::Null
            },
            memo.entry.duplicate(),
            if needs.meta {
                Self::metadata_to_value(&txn.meta)
            } else {
                Value::Null
            },
            if needs.meta {
                Self::metadata_to_value(&posting.meta)
            } else {
                Value::Null
            },
        ];
        assert(seq_view(values@) =~= collection_cells(self@, needs, ctx@));
        values
    }

    /// The row of a posting.
    fn posting_values(&self, needs: ColumnNeeds, ctx: PostingContext<'_>, memo: &TxnMemo) -> (row:
        Vec<Value>)
        requires
            ctx@.is_valid(),
            ctx.directive_index == Some(memo.dir_idx),
            memo.is_of(self@, needs, ctx@.transaction),
        ensures
            seq_view(row@) == posting_row(self@, needs, ctx@),
    {
        let posting_loc = if needs.loc || needs.meta {
            self.resolved_source_location(&ctx)
        } else {
            None
        };
        let loc = posting_loc.as_ref();
        let ghost model = ctx@;
        let mut row = self.entry_values(needs, &ctx, memo.dir_idx, loc);
        let mut parent = self.parent_values(needs, ctx.transaction, memo);
        let mut own = self.own_values(needs, &ctx, memo);
        let mut collections = self.collection_values(needs, ctx, memo, loc);
        row.append(&mut parent);
        row.append(&mut own);
        row.append(&mut collections);
        assert(seq_view(row@) =~= posting_row(self@, needs, model));
        row
    }

    /// The `#postings` table: a row for each posting, in the order of the directives. Cells
    /// that the query does not need are left `NULL`.
    pub fn build_postings_table(&self, query: &SelectQuery) -> (table: Table)
        ensures
            table@ == postings_table(self@, column_needs(query)),
    {
        let needs = ColumnNeeds::for_query(query);
        let mut table = empty_table(
            vec![
                "type",
                "id",
                "date",
                "year",
                "month",
                "day",
                "filename",
                "lineno",
                "location",
                "flag",
                "payee",
                "narration",
                "description",
                "tags",
                "links",
                "posting_flag",
                "account",
                "other_accounts",
                "number",
                "currency",
                "cost_number",
                "cost_currency",
                "cost_date",
                "cost_label",
                "position",
                "price",
                "weight",
                "balance",
                "account_balance",
                "meta",
                "accounts",
                "entry",
                "_entry_meta",
                "_posting_meta",
            ],
        );
        assert(table@.columns =~= postings_columns());
        let contexts = self.scan_postings(needs.balance, needs.account_balance);
        let ghost models = seq_view(contexts@);
        let ghost rows = posting_rows(self@, needs);
        proof {
            lemma_contexts_valid(
                self@,
                self@.directives.len(),
                needs.balance,
                needs.account_balance,
            );
        }
        let mut memo: Option<TxnMemo> = None;
        for ctx in iter: contexts
            invariant
                iter.seq() == contexts@,
                models == seq_view(contexts@),
                rows == models.map_values(|c: ContextView| posting_row(self@, needs, c)),
                forall|i: int| 0 <= i < models.len() ==> is_scanned(self@, #[trigger] models[i]),
                memo matches Some(m) ==> m.is_current(self@, needs),
                table@.columns == postings_columns(),
                table@.rows == rows.take(iter.index() as int),
        {
            let ghost n = iter.index() as int;
            assert(models[n] == ctx@);
            assert(is_scanned(self@, models[n]));
            let txn = ctx.transaction;
            let dir_idx = ctx.directive_index.unwrap();
            let current = match memo {
                Some(m) if m.dir_idx == dir_idx => m,
                _ => self.transaction_memo(needs, txn, dir_idx),
            };
            let row = self.posting_values(needs, ctx, &current);
            proof {
                assert(rows[n] == seq_view(row@));
                assert(rows.take(n + 1) == rows.take(n).push(rows[n]));
            }
            table.add_row(row);
            memo = Some(current);
        }
        assert(rows.take(rows.len() as int) == rows);
        table
    }
}

} // verus!
