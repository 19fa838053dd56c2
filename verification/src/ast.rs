//! The parts of a query that tables and functions look at.
use crate::value::Value;
use crate::views::seq_view;
use vstd::prelude::*;

verus! {

/// An expression of a query.
#[derive(Debug, PartialEq, Eq)]
pub enum Expr {
    /// `*`: every column.
    Wildcard,
    /// A column, by its name.
    Column(String),
    /// A value written out.
    Literal(Value),
    /// The call of a function.
    Function(FunctionCall),
}

/// The call of a function.
#[derive(Debug, PartialEq, Eq)]
pub struct FunctionCall {
    pub name: String,
    pub args: Vec<Expr>,
}

/// One of the expressions that a query selects.
#[derive(Debug, PartialEq, Eq)]
pub struct Target {
    pub expr: Expr,
}

/// A `SELECT`, as far as a table has to know which of its columns are read.
#[derive(Debug, PartialEq, Eq)]
pub struct SelectQuery {
    /// What is selected.
    pub targets: Vec<Target>,
    /// The columns that an expression of any clause names.
    pub columns: Vec<String>,
    /// Whether a metadata function is called in any clause.
    pub calls_meta: bool,
}

impl SelectQuery {
    /// Whether a target is `*`.
    pub open spec fn selects_all(&self) -> bool {
        exists|i: int| 0 <= i < self.targets@.len() && (#[trigger] self.targets@[i]).expr is Wildcard
    }

    /// Whether a clause names the column.
    pub open spec fn references(&self, column: Seq<char>) -> bool {
        seq_view(self.columns@).contains(column)
    }

    /// Whether the query reads the column: a clause names it, or a target is `*`.
    pub open spec fn reads(&self, column: Seq<char>) -> bool {
        self.selects_all() || self.references(column)
    }
}

} // verus!
