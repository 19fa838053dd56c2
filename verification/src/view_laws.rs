//! What the views of the types hold: all that the values do.
use crate::executor::{Executor, PostingContext, PriceEntry, RunningBalances};
use crate::holdings::{Amount, Cost, Inventory, Position};
use crate::ledger::{
    Balance, BookedUnits, Close, Commodity, Directive, DirectiveView, Document, Event, Note, Open,
    Plain, Posting, SourceLocation, Transaction,
};
use crate::metadata::{MetaValue, MetaValueView};
use crate::value::{
    result_view, rows_view, EntryObject, QueryError, QueryErrorView, Table, Value, ValueView,
};
use crate::views::{option_view, seq_view};
use vstd::prelude::*;

verus! {

/// The view of an optional value is the view of the value, where there is one.
pub proof fn law_view_of_options<T: View>(x: Option<T>)
    ensures
        option_view(x) is Some <==> x is Some,
        x is Some ==> option_view(x) == Some(x->0@),
{
}

/// The view of a sequence has the views of its items, each in its place.
pub proof fn law_view_of_sequences<T: View>(x: Seq<T>)
    ensures
        seq_view(x).len() == x.len(),
        forall|i: int| 0 <= i < x.len() ==> #[trigger] seq_view(x)[i] == x[i]@,
{
}

/// The view of a [`Amount`].
pub proof fn law_view_of_amounts(x: Amount)
    ensures
        x@.number == x.number@,
        x@.currency == x.currency@,
{
}

/// The view of a [`Cost`].
pub proof fn law_view_of_costs(x: Cost)
    ensures
        x@.number == x.number@,
        x@.currency == x.currency@,
        x@.date == option_view(x.date),
        x@.label == option_view(x.label),
{
}

/// The view of a [`Position`].
pub proof fn law_view_of_positions(x: Position)
    ensures
        x@.units == x.units@,
        x@.cost == option_view(x.cost),
{
}

/// The view of a [`SourceLocation`].
pub proof fn law_view_of_locations(x: SourceLocation)
    ensures
        x@.filename == x.filename@,
        x@.lineno == x.lineno as nat,
{
}

/// The view of a [`BookedUnits`].
pub proof fn law_view_of_booked_units(x: BookedUnits)
    ensures
        x@.amount == x.amount@,
        x@.cost == option_view(x.cost),
        x@.position == x.position@,
{
}

/// The view of a [`Posting`].
pub proof fn law_view_of_postings(x: Posting)
    ensures
        x@.account == x.account@,
        x@.flag == x.flag,
        x@.units == option_view(x.units),
        x@.price == option_view(x.price),
        x@.weight == option_view(x.weight),
        x@.meta == x.meta@,
        x@.location == option_view(x.location),
{
}

/// The view of a [`Transaction`].
pub proof fn law_view_of_transactions(x: Transaction)
    ensures
        x@.date == x.date@,
        x@.flag == x.flag,
        x@.payee == option_view(x.payee),
        x@.narration == x.narration@,
        x@.tags == seq_view(x.tags@),
        x@.links == seq_view(x.links@),
        x@.meta == x.meta@,
        x@.postings == seq_view(x.postings@),
{
}

/// The view of a [`Balance`].
pub proof fn law_view_of_balances(x: Balance)
    ensures
        x@.date == x.date@,
        x@.account == x.account@,
        x@.amount == x.amount@,
        x@.meta == x.meta@,
{
}

/// The view of a [`Open`].
pub proof fn law_view_of_openings(x: Open)
    ensures
        x@.date == x.date@,
        x@.account == x.account@,
        x@.currencies == seq_view(x.currencies@),
        x@.booking == option_view(x.booking),
        x@.meta == x.meta@,
{
}

/// The view of a [`Close`].
pub proof fn law_view_of_closings(x: Close)
    ensures
        x@.date == x.date@,
        x@.account == x.account@,
        x@.meta == x.meta@,
{
}

/// The view of a [`Commodity`].
pub proof fn law_view_of_commodities(x: Commodity)
    ensures
        x@.date == x.date@,
        x@.currency == x.currency@,
        x@.meta == x.meta@,
{
}

/// The view of a [`Event`].
pub proof fn law_view_of_events(x: Event)
    ensures
        x@.date == x.date@,
        x@.event_type == x.event_type@,
        x@.value == x.value@,
        x@.meta == x.meta@,
{
}

/// The view of a [`Note`].
pub proof fn law_view_of_notes(x: Note)
    ensures
        x@.date == x.date@,
        x@.account == x.account@,
        x@.comment == x.comment@,
        x@.meta == x.meta@,
{
}

/// The view of a [`Document`].
pub proof fn law_view_of_documents(x: Document)
    ensures
        x@.date == x.date@,
        x@.account == x.account@,
        x@.path == x.path@,
        x@.tags == seq_view(x.tags@),
        x@.links == seq_view(x.links@),
        x@.meta == x.meta@,
{
}

/// The view of a [`Plain`].
pub proof fn law_view_of_plain_directives(x: Plain)
    ensures
        x@.date == x.date@,
        x@.meta == x.meta@,
{
}

/// The view of a [`PriceEntry`].
pub proof fn law_view_of_prices(x: PriceEntry)
    ensures
        x@.base == x.base@,
        x@.date == x.date@,
        x@.number == x.number@,
        x@.quote == x.quote@,
        x@.explicit == x.explicit,
{
}

/// The view of a [`RunningBalances`].
pub proof fn law_view_of_running_balances(x: RunningBalances)
    ensures
        x@.balance == x.balance@,
        x@.account_balance == x.account_balance@,
{
}

/// The view of a [`EntryObject`].
pub proof fn law_view_of_entry_objects(x: EntryObject)
    ensures
        x@.transaction == x.transaction@,
        x@.location == option_view(x.location),
{
}

/// The view of an [`Inventory`].
pub proof fn law_view_of_inventories(x: Inventory)
    ensures
        x@ == seq_view(x.positions@),
{
}

/// The view of a [`Directive`]: of the same kind, with the view of what it holds.
pub proof fn law_view_of_directives(x: Directive)
    ensures
        match x {
            Directive::Transaction(d) => x@ == DirectiveView::Transaction(d@),
            Directive::Balance(d) => x@ == DirectiveView::Balance(d@),
            Directive::Open(d) => x@ == DirectiveView::Open(d@),
            Directive::Close(d) => x@ == DirectiveView::Close(d@),
            Directive::Commodity(d) => x@ == DirectiveView::Commodity(d@),
            Directive::Pad(d) => x@ == DirectiveView::Pad(d@),
            Directive::Event(d) => x@ == DirectiveView::Event(d@),
            Directive::Query(d) => x@ == DirectiveView::Query(d@),
            Directive::Note(d) => x@ == DirectiveView::Note(d@),
            Directive::Document(d) => x@ == DirectiveView::Document(d@),
            Directive::Price(d) => x@ == DirectiveView::Price(d@),
            Directive::Custom(d) => x@ == DirectiveView::Custom(d@),
        },
{
}

/// The view of a [`MetaValue`]: of the same kind, with the view of what it holds.
pub proof fn law_view_of_metadata_values(x: MetaValue)
    ensures
        match x {
            MetaValue::String(d) => x@ == MetaValueView::String(d@),
            MetaValue::Number(d) => x@ == MetaValueView::Number(d@),
            MetaValue::Date(d) => x@ == MetaValueView::Date(d@),
            MetaValue::Amount(d) => x@ == MetaValueView::Amount(d@),
            MetaValue::Account(d) => x@ == MetaValueView::Account(d@),
            MetaValue::Currency(d) => x@ == MetaValueView::Currency(d@),
            MetaValue::Tag(d) => x@ == MetaValueView::Tag(d@),
            MetaValue::Link(d) => x@ == MetaValueView::Link(d@),
            MetaValue::Int(d) => x@ == MetaValueView::Int(d),
            MetaValue::Bool(d) => x@ == MetaValueView::Bool(d),
            MetaValue::Empty => x@ == MetaValueView::Empty,
        },
{
}

/// The view of a [`Value`]: of the same kind, with the view of what it holds.
pub proof fn law_view_of_values(x: Value)
    ensures
        match x {
            Value::String(d) => x@ == ValueView::String(d@),
            Value::Number(d) => x@ == ValueView::Number(d@),
            Value::Integer(d) => x@ == ValueView::Integer(d),
            Value::Date(d) => x@ == ValueView::Date(d@),
            Value::Boolean(d) => x@ == ValueView::Boolean(d),
            Value::Amount(d) => x@ == ValueView::Amount(d@),
            Value::Position(d) => x@ == ValueView::Position((*d)@),
            Value::Inventory(d) => x@ == ValueView::Inventory((*d)@),
            Value::StringSet(d) => x@ == ValueView::StringSet(seq_view(d@)),
            Value::Metadata(d) => x@ == ValueView::Metadata((*d)@),
            Value::Entry(d) => x@ == ValueView::Entry((*d)@),
            Value::Null => x@ == ValueView::Null,
        },
{
}

/// The view of an outcome: a value or an error of the same kind, with what it holds.
pub proof fn law_view_of_outcomes(x: Result<Value, QueryError>)
    ensures
        x matches Ok(value) ==> result_view(x) == Ok::<ValueView, QueryErrorView>(value@),
        x matches Err(QueryError::Type(message)) ==> result_view(x) == Err::<
            ValueView,
            QueryErrorView,
        >(QueryErrorView::Type(message@)),
        x matches Err(QueryError::InvalidArguments { function, expected, given }) ==> result_view(x)
            == Err::<ValueView, QueryErrorView>(
            QueryErrorView::InvalidArguments {
                function: function@,
                expected: expected as nat,
                given: given as nat,
            },
        ),
{
}

/// The view of a [`Table`]: its columns, and its rows cell by cell.
pub proof fn law_view_of_tables(x: Table)
    ensures
        x@.columns == seq_view(x.columns@),
        x@.rows.len() == x.rows@.len(),
        forall|i: int|
            0 <= i < x.rows@.len() ==> #[trigger] x@.rows[i] == seq_view(x.rows@[i]@),
        rows_view(x.rows@) == x@.rows,
{
}

/// The view of a [`PostingContext`].
pub proof fn law_view_of_contexts(x: PostingContext<'_>)
    ensures
        x@.transaction == x.transaction@,
        x@.posting_index == x.posting_index,
        x@.directive_index is Some <==> x.directive_index is Some,
        x.directive_index is Some ==> x@.directive_index->0 == x.directive_index->0,
        x@.balance == option_view(x.balance),
        x@.account_balance == option_view(x.account_balance),
        x@.is_valid() <==> x.posting_index < x.transaction.postings@.len(),
        x@.is_valid() ==> x@.posting() == x.transaction.postings@[x.posting_index as int]@,
{
}

/// The view of an [`Executor`].
pub proof fn law_view_of_executors(x: Executor)
    ensures
        x@.directives == seq_view(x.directives@),
        x@.locations.len() == x.locations@.len(),
        forall|i: int|
            0 <= i < x.locations@.len() ==> #[trigger] x@.locations[i] == option_view(
                x.locations@[i],
            ),
        x@.prices == seq_view(x.prices@),
        x@.balances == seq_view(x.balances@),
{
}

} // verus!
