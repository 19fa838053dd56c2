//! Query values, tables of them, and the errors of a query.
use crate::date::{DateView, NaiveDate};
use crate::holdings::{Amount, AmountView, Inventory, Position, PositionView};
use crate::ledger::{LocationView, SourceLocation, Transaction, TransactionView};
use crate::metadata::{MetaValueView, Metadata};
use crate::number::{Number, NumberView};
use crate::views::{duplicate_option, duplicate_vec, option_view, seq_view, Duplicate};
use vstd::prelude::*;

verus! {

/// What an [`EntryObject`] holds.
pub struct EntryView {
    pub transaction: TransactionView,
    pub location: Option<LocationView>,
}

/// The parent transaction of a posting as a structured object, with the place where it stands.
#[derive(Debug, PartialEq, Eq)]
pub struct EntryObject {
    pub transaction: Transaction,
    pub location: Option<SourceLocation>,
}

impl View for EntryObject {
    type V = EntryView;

    open spec fn view(&self) -> EntryView {
        EntryView { transaction: self.transaction@, location: option_view(self.location) }
    }
}

impl Duplicate for EntryObject {
    fn duplicate(&self) -> (copy: EntryObject) {
        EntryObject {
            transaction: self.transaction.duplicate(),
            location: duplicate_option(&self.location),
        }
    }
}

/// What a [`Value`] holds.
pub enum ValueView {
    String(Seq<char>),
    Number(NumberView),
    Integer(i64),
    Date(DateView),
    Boolean(bool),
    Amount(AmountView),
    Position(PositionView),
    Inventory(Seq<PositionView>),
    StringSet(Seq<Seq<char>>),
    Metadata(Map<Seq<char>, MetaValueView>),
    Entry(EntryView),
    Null,
}

/// A value that a query computes with or shows.
#[derive(Debug, PartialEq, Eq)]
pub enum Value {
    String(String),
    Number(Number),
    Integer(i64),
    Date(NaiveDate),
    Boolean(bool),
    Amount(Amount),
    Position(Box<Position>),
    Inventory(Box<Inventory>),
    StringSet(Vec<String>),
    Metadata(Box<Metadata>),
    Entry(Box<EntryObject>),
    Null,
}

impl View for Value {
    type V = ValueView;

    open spec fn view(&self) -> ValueView {
        match self {
            Value::String(s) => ValueView::String(s@),
            Value::Number(n) => ValueView::Number(n@),
            Value::Integer(i) => ValueView::Integer(*i),
            Value::Date(d) => ValueView::Date(d@),
            Value::Boolean(b) => ValueView::Boolean(*b),
            Value::Amount(a) => ValueView::Amount(a@),
            Value::Position(p) => ValueView::Position((**p)@),
            Value::Inventory(i) => ValueView::Inventory((**i)@),
            Value::StringSet(s) => ValueView::StringSet(seq_view(s@)),
            Value::Metadata(m) => ValueView::Metadata((**m)@),
            Value::Entry(e) => ValueView::Entry((**e)@),
            Value::Null => ValueView::Null,
        }
    }
}

impl Duplicate for Value {
    fn duplicate(&self) -> (copy: Value) {
        match self {
            Value::String(s) => Value::String(s.duplicate()),
            Value::Number(n) => Value::Number(*n),
            Value::Integer(i) => Value::Integer(*i),
            Value::Date(d) => Value::Date(*d),
            Value::Boolean(b) => Value::Boolean(*b),
            Value::Amount(a) => Value::Amount(a.duplicate()),
            Value::Position(p) => Value::Position(Box::new((**p).duplicate())),
            Value::Inventory(i) => Value::Inventory(Box::new((**i).duplicate())),
            Value::StringSet(s) => Value::StringSet(duplicate_vec(s)),
            Value::Metadata(m) => Value::Metadata(Box::new((**m).duplicate())),
            Value::Entry(e) => Value::Entry(Box::new((**e).duplicate())),
            Value::Null => Value::Null,
        }
    }
}

/// What a [`QueryError`] holds.
pub enum QueryErrorView {
    Type(Seq<char>),
    InvalidArguments { function: Seq<char>, expected: nat, given: nat },
}

/// Why a query fails.
#[derive(Debug, PartialEq, Eq)]
pub enum QueryError {
    /// A value is of the wrong kind, or does not convert; the message says which.
    Type(String),
    /// A function was given more or fewer arguments than it takes.
    InvalidArguments { function: String, expected: usize, given: usize },
}

impl View for QueryError {
    type V = QueryErrorView;

    open spec fn view(&self) -> QueryErrorView {
        match self {
            QueryError::Type(message) => QueryErrorView::Type(message@),
            QueryError::InvalidArguments { function, expected, given } => {
                QueryErrorView::InvalidArguments {
                    function: function@,
                    expected: *expected as nat,
                    given: *given as nat,
                }
            },
        }
    }
}

/// What the outcome of an evaluation holds.
pub open spec fn result_view(result: Result<Value, QueryError>) -> Result<
    ValueView,
    QueryErrorView,
> {
    match result {
        Ok(value) => Ok(value@),
        Err(error) => Err(error@),
    }
}

/// What a [`Table`] holds.
pub struct TableView {
    pub columns: Seq<Seq<char>>,
    pub rows: Seq<Seq<ValueView>>,
}

/// What the rows of a table hold.
pub open spec fn rows_view(rows: Seq<Vec<Value>>) -> Seq<Seq<ValueView>> {
    Seq::new(rows.len(), |i: int| seq_view(rows[i]@))
}

/// Named columns, and rows with a value for each of them.
#[derive(Debug, PartialEq, Eq)]
pub struct Table {
    pub columns: Vec<String>,
    pub rows: Vec<Vec<Value>>,
}

impl View for Table {
    type V = TableView;

    open spec fn view(&self) -> TableView {
        TableView { columns: seq_view(self.columns@), rows: rows_view(self.rows@) }
    }
}

impl TableView {
    /// Whether every row has a value for each column.
    pub open spec fn is_rectangular(self) -> bool {
        forall|i: int| 0 <= i < self.rows.len() ==> #[trigger] self.rows[i].len() == self.columns.len()
    }
}

impl Table {
    /// A table without rows.
    pub fn new(columns: Vec<String>) -> (table: Table)
        ensures
            table@.columns == seq_view(columns@),
            table@.rows == Seq::<Seq<ValueView>>::empty(),
    {
        let table = Table { columns, rows: Vec::new() };
        assert(table@.rows =~= Seq::<Seq<ValueView>>::empty());
        table
    }

    /// Puts a row at the end.
    pub fn add_row(&mut self, row: Vec<Value>)
        ensures
            final(self)@.columns == old(self)@.columns,
            final(self)@.rows == old(self)@.rows.push(seq_view(row@)),
    {
        self.rows.push(row);
        assert(self@.rows =~= old(self)@.rows.push(seq_view(row@)));
    }
}

} // verus!
