//! The built-in table of all directives, `#entries`.
use crate::executor::{Executor, ExecutorView};
use crate::functions::{filename_cell, lineno_cell, place};
use crate::ledger::{Directive, DirectiveView, LocationView, SourceLocation};
use crate::metadata::Metadata;
use crate::system_tables::{account_set, text_cell, text_value, transaction_accounts};
use crate::tables::empty_table;
use crate::text::char_text;
use crate::value::{Table, TableView, Value, ValueView};
use crate::views::{duplicate_vec, seq_view, Duplicate};
use vstd::prelude::*;

verus! {

/// The name of the kind of a directive.
pub open spec fn kind_name(directive: DirectiveView) -> Seq<char> {
    match directive {
        DirectiveView::Transaction(_) => "transaction"@,
        DirectiveView::Balance(_) => "balance"@,
        DirectiveView::Open(_) => "open"@,
        DirectiveView::Close(_) => "close"@,
        DirectiveView::Commodity(_) => "commodity"@,
        DirectiveView::Pad(_) => "pad"@,
        DirectiveView::Event(_) => "event"@,
        DirectiveView::Query(_) => "query"@,
        DirectiveView::Note(_) => "note"@,
        DirectiveView::Document(_) => "document"@,
        DirectiveView::Price(_) => "price"@,
        DirectiveView::Custom(_) => "custom"@,
    }
}

/// Flag, payee, narration, tags, links and accounts of a transaction. Other directives have
/// none of these: `NULL`, and empty sets.
pub open spec fn transaction_cells(directive: DirectiveView) -> Seq<ValueView> {
    match directive {
        DirectiveView::Transaction(txn) => seq![
            ValueView::String(seq![txn.flag]),
            text_cell(txn.payee),
            ValueView::String(txn.narration),
            ValueView::StringSet(txn.tags),
            ValueView::StringSet(txn.links),
            ValueView::StringSet(account_set(txn)),
        ],
        _ => seq![
            ValueView::Null,
            ValueView::Null,
            ValueView::Null,
            ValueView::StringSet(Seq::empty()),
            ValueView::StringSet(Seq::empty()),
            ValueView::StringSet(Seq::empty()),
        ],
    }
}

/// The row of a directive: its number, its kind, where it stands, its date, what it has as a
/// transaction, and its metadata.
pub open spec fn entry_row(
    index: nat,
    directive: DirectiveView,
    location: Option<LocationView>,
) -> Seq<ValueView> {
    seq![
        ValueView::Integer(index as i64),
        ValueView::String(kind_name(directive)),
        filename_cell(location),
        lineno_cell(location),
        ValueView::Date(directive.date()),
    ] + transaction_cells(directive) + seq![ValueView::Metadata(directive.meta())]
}

/// The columns of the `#entries` table. The last one is hidden.
pub open spec fn entries_columns() -> Seq<Seq<char>> {
    seq![
        "id"@,
        "type"@,
        "filename"@,
        "lineno"@,
        "date"@,
        "flag"@,
        "payee"@,
        "narration"@,
        "tags"@,
        "links"@,
        "accounts"@,
        "_entry_meta"@,
    ]
}

/// The `#entries` table: a row for each directive, in their order.
pub open spec fn entries_table(executor: ExecutorView) -> TableView {
    TableView {
        columns: entries_columns(),
        rows: Seq::new(
            executor.directives.len(),
            |i: int| entry_row(i as nat, executor.directives[i], executor.location(i as nat)),
        ),
    }
}

/// The name of the kind of a directive.
pub fn directive_type(directive: &Directive) -> (name: &'static str)
    ensures
        name@ == kind_name(directive@),
{
    match directive {
        Directive::Transaction(_) => "transaction",
        Directive::Balance(_) => "balance",
        Directive::Open(_) => "open",
        Directive::Close(_) => "close",
        Directive::Commodity(_) => "commodity",
        Directive::Pad(_) => "pad",
        Directive::Event(_) => "event",
        Directive::Query(_) => "query",
        Directive::Note(_) => "note",
        Directive::Document(_) => "document",
        Directive::Price(_) => "price",
        Directive::Custom(_) => "custom",
    }
}

/// The empty set of strings.
fn empty_set() -> (value: Value)
    ensures
        value@ == ValueView::StringSet(Seq::empty()),
{
    let strings: Vec<String> = Vec::new();
    assert(seq_view(strings@) =~= Seq::empty());
    Value::StringSet(strings)
}

impl Executor {
    /// Metadata as a value.
    pub fn metadata_to_value(meta: &Metadata) -> (value: Value)
        ensures
            value@ == ValueView::Metadata(meta@),
    {
        Value::Metadata(Box::new(meta.duplicate()))
    }

    /// The row of a directive in the `#entries` table.
    pub fn directive_to_entry_row(
        &self,
        idx: usize,
        directive: &Directive,
        source_loc: Option<&SourceLocation>,
    ) -> (row: Vec<Value>)
        ensures
            seq_view(row@) == entry_row(idx as nat, directive@, place(source_loc)),
    {
        let (flag, payee, narration, tags, links, accounts) = match directive {
            Directive::Transaction(txn) => (
                Value::String(char_text(txn.flag)),
                text_value(&txn.payee),
                Value::String(txn.narration.clone()),
                Value::StringSet(duplicate_vec(&txn.tags)),
                Value::StringSet(duplicate_vec(&txn.links)),
                Value::StringSet(transaction_accounts(txn)),
            ),
            _ => (Value::Null, Value::Null, Value::Null, empty_set(), empty_set(), empty_set()),
        };
        let row = vec![
            Value::Integer(idx as i64),
            Value::String(directive_type(directive).to_owned()),
            Self::source_filename_value(source_loc),
            Self::source_lineno_value(source_loc),
            Value::Date(directive.date()),
            flag,
            payee,
            narration,
            tags,
            links,
            accounts,
            Self::metadata_to_value(directive.meta()),
        ];
        assert(seq_view(row@) =~= entry_row(idx as nat, directive@, place(source_loc)));
        row
    }

    /// The `#entries` table: a row for each directive, in their order.
    pub fn build_entries_table(&self) -> (table: Table)
        ensures
            table@ == entries_table(self@),
    {
        let mut table = empty_table(
            vec![
                "id",
                "type",
                "filename",
                "lineno",
                "date",
                "flag",
                "payee",
                "narration",
                "tags",
                "links",
                "accounts",
                "_entry_meta",
            ],
        );
        assert(table@.columns =~= entries_columns());
        let ghost rows = entries_table(self@).rows;
        let mut idx: usize = 0;
        while idx < self.directives.len()
            invariant
                idx <= self.directives.len(),
                rows == entries_table(self@).rows,
                table@.columns == entries_columns(),
                table@.rows == rows.take(idx as int),
            decreases self.directives.len() - idx,
        {
            let source_loc = self.get_source_location(idx);
            let row = self.directive_to_entry_row(idx, &self.directives[idx], source_loc);
            proof {
                assert(self@.directives[idx as int] == self.directives@[idx as int]@);
                assert(rows[idx as int] == seq_view(row@));
                assert(rows.take(idx + 1) == rows.take(idx as int).push(rows[idx as int]));
            }
            table.add_row(row);
            idx = idx + 1;
        }
        assert(rows.take(idx as int) == rows);
        table
    }
}

} // verus!
