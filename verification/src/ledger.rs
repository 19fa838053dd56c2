//! Directives, as far as tables and functions read them.
use crate::date::{DateView, NaiveDate};
use crate::holdings::{Amount, AmountView, Cost, CostView, Position, PositionView};
use crate::metadata::{MetaValueView, Metadata};
use crate::views::{duplicate_option, duplicate_vec, option_view, seq_view, Duplicate};
use vstd::prelude::*;

verus! {

/// What a [`SourceLocation`] holds.
pub struct LocationView {
    pub filename: Seq<char>,
    pub lineno: nat,
}

/// Where something stands in a source file.
#[derive(Debug, PartialEq, Eq)]
pub struct SourceLocation {
    pub filename: String,
    pub lineno: usize,
}

impl View for SourceLocation {
    type V = LocationView;

    open spec fn view(&self) -> LocationView {
        LocationView {
            filename: self.filename@,
            lineno: self.lineno as nat,
        }
    }
}

impl Duplicate for SourceLocation {
    fn duplicate(&self) -> (copy: SourceLocation) {
        SourceLocation {
            filename: self.filename.duplicate(),
            lineno: self.lineno,
        }
    }
}

/// What a [`BookedUnits`] holds.
pub struct BookedUnitsView {
    pub amount: AmountView,
    pub cost: Option<CostView>,
    pub position: PositionView,
}

/// What is known of a posting that has an amount: the amount, the cost that its lot resolves to,
/// and the position that it adds.
#[derive(Debug, PartialEq, Eq)]
pub struct BookedUnits {
    pub amount: Amount,
    pub cost: Option<Cost>,
    pub position: Position,
}

impl View for BookedUnits {
    type V = BookedUnitsView;

    open spec fn view(&self) -> BookedUnitsView {
        BookedUnitsView {
            amount: self.amount@,
            cost: option_view(self.cost),
            position: self.position@,
        }
    }
}

impl Duplicate for BookedUnits {
    fn duplicate(&self) -> (copy: BookedUnits) {
        BookedUnits {
            amount: self.amount.duplicate(),
            cost: duplicate_option(&self.cost),
            position: self.position.duplicate(),
        }
    }
}

/// What a [`Posting`] holds.
pub struct PostingView {
    pub account: Seq<char>,
    pub flag: Option<char>,
    pub units: Option<BookedUnitsView>,
    pub price: Option<AmountView>,
    pub weight: Option<AmountView>,
    pub meta: Map<Seq<char>, MetaValueView>,
    pub location: Option<LocationView>,
}

/// One leg of a transaction. The weight is what it counts for when the transaction is balanced; the
/// location is that of the posting's own span, where it has one.
#[derive(Debug, PartialEq, Eq)]
pub struct Posting {
    pub account: String,
    pub flag: Option<char>,
    pub units: Option<BookedUnits>,
    pub price: Option<Amount>,
    pub weight: Option<Amount>,
    pub meta: Metadata,
    pub location: Option<SourceLocation>,
}

impl View for Posting {
    type V = PostingView;

    open spec fn view(&self) -> PostingView {
        PostingView {
            account: self.account@,
            flag: self.flag,
            units: option_view(self.units),
            price: option_view(self.price),
            weight: option_view(self.weight),
            meta: self.meta@,
            location: option_view(self.location),
        }
    }
}

impl Duplicate for Posting {
    fn duplicate(&self) -> (copy: Posting) {
        Posting {
            account: self.account.duplicate(),
            flag: self.flag,
            units: duplicate_option(&self.units),
            price: duplicate_option(&self.price),
            weight: duplicate_option(&self.weight),
            meta: self.meta.duplicate(),
            location: duplicate_option(&self.location),
        }
    }
}

/// What a [`Transaction`] holds.
pub struct TransactionView {
    pub date: DateView,
    pub flag: char,
    pub payee: Option<Seq<char>>,
    pub narration: Seq<char>,
    pub tags: Seq<Seq<char>>,
    pub links: Seq<Seq<char>>,
    pub meta: Map<Seq<char>, MetaValueView>,
    pub postings: Seq<PostingView>,
}

/// A transaction.
#[derive(Debug, PartialEq, Eq)]
pub struct Transaction {
    pub date: NaiveDate,
    pub flag: char,
    pub payee: Option<String>,
    pub narration: String,
    pub tags: Vec<String>,
    pub links: Vec<String>,
    pub meta: Metadata,
    pub postings: Vec<Posting>,
}

impl View for Transaction {
    type V = TransactionView;

    open spec fn view(&self) -> TransactionView {
        TransactionView {
            date: self.date@,
            flag: self.flag,
            payee: option_view(self.payee),
            narration: self.narration@,
            tags: seq_view(self.tags@),
            links: seq_view(self.links@),
            meta: self.meta@,
            postings: seq_view(self.postings@),
        }
    }
}

impl Duplicate for Transaction {
    fn duplicate(&self) -> (copy: Transaction) {
        Transaction {
            date: self.date,
            flag: self.flag,
            payee: duplicate_option(&self.payee),
            narration: self.narration.duplicate(),
            tags: duplicate_vec(&self.tags),
            links: duplicate_vec(&self.links),
            meta: self.meta.duplicate(),
            postings: duplicate_vec(&self.postings),
        }
    }
}

/// What a [`Balance`] holds.
pub struct BalanceView {
    pub date: DateView,
    pub account: Seq<char>,
    pub amount: AmountView,
    pub meta: Map<Seq<char>, MetaValueView>,
}

/// A balance assertion.
#[derive(Debug, PartialEq, Eq)]
pub struct Balance {
    pub date: NaiveDate,
    pub account: String,
    pub amount: Amount,
    pub meta: Metadata,
}

impl View for Balance {
    type V = BalanceView;

    open spec fn view(&self) -> BalanceView {
        BalanceView {
            date: self.date@,
            account: self.account@,
            amount: self.amount@,
            meta: self.meta@,
        }
    }
}

/// What a [`Open`] holds.
pub struct OpenView {
    pub date: DateView,
    pub account: Seq<char>,
    pub currencies: Seq<Seq<char>>,
    pub booking: Option<Seq<char>>,
    pub meta: Map<Seq<char>, MetaValueView>,
}

/// The opening of an account.
#[derive(Debug, PartialEq, Eq)]
pub struct Open {
    pub date: NaiveDate,
    pub account: String,
    pub currencies: Vec<String>,
    pub booking: Option<String>,
    pub meta: Metadata,
}

impl View for Open {
    type V = OpenView;

    open spec fn view(&self) -> OpenView {
        OpenView {
            date: self.date@,
            account: self.account@,
            currencies: seq_view(self.currencies@),
            booking: option_view(self.booking),
            meta: self.meta@,
        }
    }
}

/// What a [`Close`] holds.
pub struct CloseView {
    pub date: DateView,
    pub account: Seq<char>,
    pub meta: Map<Seq<char>, MetaValueView>,
}

/// The closing of an account.
#[derive(Debug, PartialEq, Eq)]
pub struct Close {
    pub date: NaiveDate,
    pub account: String,
    pub meta: Metadata,
}

impl View for Close {
    type V = CloseView;

    open spec fn view(&self) -> CloseView {
        CloseView {
            date: self.date@,
            account: self.account@,
            meta: self.meta@,
        }
    }
}

/// What a [`Commodity`] holds.
pub struct CommodityView {
    pub date: DateView,
    pub currency: Seq<char>,
    pub meta: Map<Seq<char>, MetaValueView>,
}

/// The declaration of a commodity.
#[derive(Debug, PartialEq, Eq)]
pub struct Commodity {
    pub date: NaiveDate,
    pub currency: String,
    pub meta: Metadata,
}

impl View for Commodity {
    type V = CommodityView;

    open spec fn view(&self) -> CommodityView {
        CommodityView {
            date: self.date@,
            currency: self.currency@,
            meta: self.meta@,
        }
    }
}

/// What a [`Event`] holds.
pub struct EventView {
    pub date: DateView,
    pub event_type: Seq<char>,
    pub value: Seq<char>,
    pub meta: Map<Seq<char>, MetaValueView>,
}

/// An event.
#[derive(Debug, PartialEq, Eq)]
pub struct Event {
    pub date: NaiveDate,
    pub event_type: String,
    pub value: String,
    pub meta: Metadata,
}

impl View for Event {
    type V = EventView;

    open spec fn view(&self) -> EventView {
        EventView {
            date: self.date@,
            event_type: self.event_type@,
            value: self.value@,
            meta: self.meta@,
        }
    }
}

/// What a [`Note`] holds.
pub struct NoteView {
    pub date: DateView,
    pub account: Seq<char>,
    pub comment: Seq<char>,
    pub meta: Map<Seq<char>, MetaValueView>,
}

/// A note on an account.
#[derive(Debug, PartialEq, Eq)]
pub struct Note {
    pub date: NaiveDate,
    pub account: String,
    pub comment: String,
    pub meta: Metadata,
}

impl View for Note {
    type V = NoteView;

    open spec fn view(&self) -> NoteView {
        NoteView {
            date: self.date@,
            account: self.account@,
            comment: self.comment@,
            meta: self.meta@,
        }
    }
}

/// What a [`Document`] holds.
pub struct DocumentView {
    pub date: DateView,
    pub account: Seq<char>,
    pub path: Seq<char>,
    pub tags: Seq<Seq<char>>,
    pub links: Seq<Seq<char>>,
    pub meta: Map<Seq<char>, MetaValueView>,
}

/// A document that belongs to an account.
#[derive(Debug, PartialEq, Eq)]
pub struct Document {
    pub date: NaiveDate,
    pub account: String,
    pub path: String,
    pub tags: Vec<String>,
    pub links: Vec<String>,
    pub meta: Metadata,
}

impl View for Document {
    type V = DocumentView;

    open spec fn view(&self) -> DocumentView {
        DocumentView {
            date: self.date@,
            account: self.account@,
            path: self.path@,
            tags: seq_view(self.tags@),
            links: seq_view(self.links@),
            meta: self.meta@,
        }
    }
}

/// What a [`Plain`] holds.
pub struct PlainView {
    pub date: DateView,
    pub meta: Map<Seq<char>, MetaValueView>,
}

/// A directive of which only the date and the metadata are read.
#[derive(Debug, PartialEq, Eq)]
pub struct Plain {
    pub date: NaiveDate,
    pub meta: Metadata,
}

impl View for Plain {
    type V = PlainView;

    open spec fn view(&self) -> PlainView {
        PlainView {
            date: self.date@,
            meta: self.meta@,
        }
    }
}

/// What a [`Directive`] holds.
pub enum DirectiveView {
    Transaction(TransactionView),
    Balance(BalanceView),
    Open(OpenView),
    Close(CloseView),
    Commodity(CommodityView),
    Pad(PlainView),
    Event(EventView),
    Query(PlainView),
    Note(NoteView),
    Document(DocumentView),
    Price(PlainView),
    Custom(PlainView),
}

/// A directive of the ledger.
#[derive(Debug, PartialEq, Eq)]
pub enum Directive {
    Transaction(Transaction),
    Balance(Balance),
    Open(Open),
    Close(Close),
    Commodity(Commodity),
    Pad(Plain),
    Event(Event),
    Query(Plain),
    Note(Note),
    Document(Document),
    Price(Plain),
    Custom(Plain),
}

impl View for Directive {
    type V = DirectiveView;

    open spec fn view(&self) -> DirectiveView {
        match self {
            Directive::Transaction(d) => DirectiveView::Transaction(d@),
            Directive::Balance(d) => DirectiveView::Balance(d@),
            Directive::Open(d) => DirectiveView::Open(d@),
            Directive::Close(d) => DirectiveView::Close(d@),
            Directive::Commodity(d) => DirectiveView::Commodity(d@),
            Directive::Pad(d) => DirectiveView::Pad(d@),
            Directive::Event(d) => DirectiveView::Event(d@),
            Directive::Query(d) => DirectiveView::Query(d@),
            Directive::Note(d) => DirectiveView::Note(d@),
            Directive::Document(d) => DirectiveView::Document(d@),
            Directive::Price(d) => DirectiveView::Price(d@),
            Directive::Custom(d) => DirectiveView::Custom(d@),
        }
    }
}

impl DirectiveView {
    /// The date of the directive.
    pub open spec fn date(self) -> DateView {
        match self {
            DirectiveView::Transaction(d) => d.date,
            DirectiveView::Balance(d) => d.date,
            DirectiveView::Open(d) => d.date,
            DirectiveView::Close(d) => d.date,
            DirectiveView::Commodity(d) => d.date,
            DirectiveView::Pad(d) => d.date,
            DirectiveView::Event(d) => d.date,
            DirectiveView::Query(d) => d.date,
            DirectiveView::Note(d) => d.date,
            DirectiveView::Document(d) => d.date,
            DirectiveView::Price(d) => d.date,
            DirectiveView::Custom(d) => d.date,
        }
    }

    /// The metadata of the directive.
    pub open spec fn meta(self) -> Map<Seq<char>, MetaValueView> {
        match self {
            DirectiveView::Transaction(d) => d.meta,
            DirectiveView::Balance(d) => d.meta,
            DirectiveView::Open(d) => d.meta,
            DirectiveView::Close(d) => d.meta,
            DirectiveView::Commodity(d) => d.meta,
            DirectiveView::Pad(d) => d.meta,
            DirectiveView::Event(d) => d.meta,
            DirectiveView::Query(d) => d.meta,
            DirectiveView::Note(d) => d.meta,
            DirectiveView::Document(d) => d.meta,
            DirectiveView::Price(d) => d.meta,
            DirectiveView::Custom(d) => d.meta,
        }
    }
}

impl Directive {
    /// The date of the directive.
    pub fn date(&self) -> (date: NaiveDate)
        ensures
            date@ == self@.date(),
    {
        match self {
            Directive::Transaction(d) => d.date,
            Directive::Balance(d) => d.date,
            Directive::Open(d) => d.date,
            Directive::Close(d) => d.date,
            Directive::Commodity(d) => d.date,
            Directive::Pad(d) => d.date,
            Directive::Event(d) => d.date,
            Directive::Query(d) => d.date,
            Directive::Note(d) => d.date,
            Directive::Document(d) => d.date,
            Directive::Price(d) => d.date,
            Directive::Custom(d) => d.date,
        }
    }

    /// The metadata of the directive.
    pub fn meta(&self) -> (meta: &Metadata)
        ensures
            meta@ == self@.meta(),
    {
        match self {
            Directive::Transaction(d) => &d.meta,
            Directive::Balance(d) => &d.meta,
            Directive::Open(d) => &d.meta,
            Directive::Close(d) => &d.meta,
            Directive::Commodity(d) => &d.meta,
            Directive::Pad(d) => &d.meta,
            Directive::Event(d) => &d.meta,
            Directive::Query(d) => &d.meta,
            Directive::Note(d) => &d.meta,
            Directive::Document(d) => &d.meta,
            Directive::Price(d) => &d.meta,
            Directive::Custom(d) => &d.meta,
        }
    }
}

} // verus!
