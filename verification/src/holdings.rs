//! Amounts, and what is held of them.
use crate::date::{DateView, NaiveDate};
use crate::number::{Number, NumberView};
use crate::views::{duplicate_option, duplicate_vec, option_view, seq_view, Duplicate};
use vstd::prelude::*;

verus! {

/// What an [`Amount`] holds.
pub struct AmountView {
    pub number: NumberView,
    pub currency: Seq<char>,
}

/// A number of units of a currency.
#[derive(Debug, PartialEq, Eq)]
pub struct Amount {
    pub number: Number,
    pub currency: String,
}

impl View for Amount {
    type V = AmountView;

    open spec fn view(&self) -> AmountView {
        AmountView { number: self.number@, currency: self.currency@ }
    }
}

impl Duplicate for Amount {
    fn duplicate(&self) -> (copy: Amount) {
        Amount { number: self.number, currency: self.currency.duplicate() }
    }
}

/// What a [`Cost`] holds.
pub struct CostView {
    pub number: NumberView,
    pub currency: Seq<char>,
    pub date: Option<DateView>,
    pub label: Option<Seq<char>>,
}

/// What a lot cost: so much per unit, and which lot it is.
#[derive(Debug, PartialEq, Eq)]
pub struct Cost {
    pub number: Number,
    pub currency: String,
    pub date: Option<NaiveDate>,
    pub label: Option<String>,
}

impl View for Cost {
    type V = CostView;

    open spec fn view(&self) -> CostView {
        CostView {
            number: self.number@,
            currency: self.currency@,
            date: option_view(self.date),
            label: option_view(self.label),
        }
    }
}

impl Duplicate for Cost {
    fn duplicate(&self) -> (copy: Cost) {
        Cost {
            number: self.number,
            currency: self.currency.duplicate(),
            date: self.date,
            label: duplicate_option(&self.label),
        }
    }
}

/// What a [`Position`] holds.
pub struct PositionView {
    pub units: AmountView,
    pub cost: Option<CostView>,
}

/// Units of a currency, held at a cost or without one.
#[derive(Debug, PartialEq, Eq)]
pub struct Position {
    pub units: Amount,
    pub cost: Option<Cost>,
}

impl View for Position {
    type V = PositionView;

    open spec fn view(&self) -> PositionView {
        PositionView { units: self.units@, cost: option_view(self.cost) }
    }
}

impl Duplicate for Position {
    fn duplicate(&self) -> (copy: Position) {
        Position { units: self.units.duplicate(), cost: duplicate_option(&self.cost) }
    }
}

/// The positions of an account or of a whole ledger, in the order in which it lists them.
#[derive(Debug, PartialEq, Eq)]
pub struct Inventory {
    pub positions: Vec<Position>,
}

impl View for Inventory {
    type V = Seq<PositionView>;

    open spec fn view(&self) -> Seq<PositionView> {
        seq_view(self.positions@)
    }
}

impl Duplicate for Inventory {
    fn duplicate(&self) -> (copy: Inventory) {
        Inventory { positions: duplicate_vec(&self.positions) }
    }
}

} // verus!
