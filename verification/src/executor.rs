//! What a query runs on: the directives with their places in the source, the prices and the
//! running balances.
use crate::date::{DateView, NaiveDate};
use crate::holdings::{Inventory, PositionView};
use crate::ledger::{
    Directive, DirectiveView, LocationView, PostingView, SourceLocation, Transaction,
    TransactionView,
};
use crate::number::{Number, NumberView};
use crate::views::{option_view, seq_view, Duplicate};
use vstd::prelude::*;

verus! {

/// What a [`PriceEntry`] holds.
pub struct PriceEntryView {
    pub base: Seq<char>,
    pub date: DateView,
    pub number: NumberView,
    pub quote: Seq<char>,
    pub explicit: bool,
}

/// A price of the price database. An explicit one was written as a directive, or emitted by a
/// plugin that was asked for; the others were derived from transactions.
#[derive(Debug, PartialEq, Eq)]
pub struct PriceEntry {
    pub base: String,
    pub date: NaiveDate,
    pub number: Number,
    pub quote: String,
    pub explicit: bool,
}

impl View for PriceEntry {
    type V = PriceEntryView;

    open spec fn view(&self) -> PriceEntryView {
        PriceEntryView {
            base: self.base@,
            date: self.date@,
            number: self.number@,
            quote: self.quote@,
            explicit: self.explicit,
        }
    }
}

/// What [`RunningBalances`] hold.
pub struct RunningBalancesView {
    pub balance: Seq<PositionView>,
    pub account_balance: Seq<PositionView>,
}

/// The inventories after a posting: of all accounts together, and of its own account.
#[derive(Debug, PartialEq, Eq)]
pub struct RunningBalances {
    pub balance: Inventory,
    pub account_balance: Inventory,
}

impl View for RunningBalances {
    type V = RunningBalancesView;

    open spec fn view(&self) -> RunningBalancesView {
        RunningBalancesView { balance: self.balance@, account_balance: self.account_balance@ }
    }
}

/// What a [`PostingContext`] holds.
pub struct ContextView {
    pub transaction: TransactionView,
    pub posting_index: nat,
    pub directive_index: Option<nat>,
    pub balance: Option<Seq<PositionView>>,
    pub account_balance: Option<Seq<PositionView>>,
}

impl ContextView {
    /// Whether there is such a posting.
    pub open spec fn is_valid(self) -> bool {
        self.posting_index < self.transaction.postings.len()
    }

    /// The posting.
    pub open spec fn posting(self) -> PostingView {
        self.transaction.postings[self.posting_index as int]
    }
}

/// A posting, with the transaction that it belongs to and the balances after it.
#[derive(Debug, PartialEq, Eq)]
pub struct PostingContext<'a> {
    pub transaction: &'a Transaction,
    pub posting_index: usize,
    pub directive_index: Option<usize>,
    pub balance: Option<Inventory>,
    pub account_balance: Option<Inventory>,
}

/// An optional index as a mathematical one.
pub open spec fn index_view(index: Option<usize>) -> Option<nat> {
    match index {
        Some(i) => Some(i as nat),
        None => None,
    }
}

impl<'a> View for PostingContext<'a> {
    type V = ContextView;

    open spec fn view(&self) -> ContextView {
        ContextView {
            transaction: self.transaction@,
            posting_index: self.posting_index as nat,
            directive_index: index_view(self.directive_index),
            balance: option_view(self.balance),
            account_balance: option_view(self.account_balance),
        }
    }
}

/// What an [`Executor`] holds.
pub struct ExecutorView {
    pub directives: Seq<DirectiveView>,
    pub locations: Seq<Option<LocationView>>,
    pub prices: Seq<PriceEntryView>,
    pub balances: Seq<RunningBalancesView>,
}

/// What a query runs on.
#[derive(Debug, PartialEq, Eq)]
pub struct Executor {
    /// The directives, in order.
    pub directives: Vec<Directive>,
    /// The place of each directive in the source, as far as it is known.
    pub locations: Vec<Option<SourceLocation>>,
    /// The prices.
    pub prices: Vec<PriceEntry>,
    /// The balances after each posting, in the order of the directives. Where there is no entry
    /// for a posting, its balances count as unknown.
    pub balances: Vec<RunningBalances>,
}

/// What optional locations hold.
pub open spec fn locations_view(locations: Seq<Option<SourceLocation>>) -> Seq<
    Option<LocationView>,
> {
    Seq::new(locations.len(), |i: int| option_view(locations[i]))
}

impl View for Executor {
    type V = ExecutorView;

    open spec fn view(&self) -> ExecutorView {
        ExecutorView {
            directives: seq_view(self.directives@),
            locations: locations_view(self.locations@),
            prices: seq_view(self.prices@),
            balances: seq_view(self.balances@),
        }
    }
}

/// How many postings the directives have together.
pub open spec fn posting_count(directives: Seq<DirectiveView>) -> nat
    decreases directives.len(),
{
    if directives.len() == 0 {
        0
    } else {
        posting_count(directives.drop_last()) + match directives.last() {
            DirectiveView::Transaction(txn) => txn.postings.len(),
            _ => 0,
        }
    }
}

impl ExecutorView {
    /// Whether the balances after every posting are known, one entry for each.
    pub open spec fn has_all_balances(self) -> bool {
        self.balances.len() == posting_count(self.directives)
    }

    /// Where the directive stands in the source, as far as it is known.
    pub open spec fn location(self, index: nat) -> Option<LocationView> {
        if index < self.locations.len() {
            self.locations[index as int]
        } else {
            None
        }
    }

    /// Where the directive of a posting stands.
    pub open spec fn entry_location(self, ctx: ContextView) -> Option<LocationView> {
        match ctx.directive_index {
            Some(index) => self.location(index),
            None => None,
        }
    }

    /// Where a posting stands: at its own place, or at that of its directive where it has none.
    pub open spec fn posting_location(self, ctx: ContextView) -> Option<LocationView> {
        match ctx.posting().location {
            Some(location) => Some(location),
            None => self.entry_location(ctx),
        }
    }

    /// The posting of the `directive`-th directive at `posting`, which is number `position`
    /// of all postings.
    pub open spec fn context(
        self,
        transaction: TransactionView,
        directive: nat,
        posting: nat,
        position: nat,
        with_balance: bool,
        with_account_balance: bool,
    ) -> ContextView {
        let known = position < self.balances.len();
        ContextView {
            transaction,
            posting_index: posting,
            directive_index: Some(directive),
            balance: if with_balance && known {
                Some(self.balances[position as int].balance)
            } else {
                None
            },
            account_balance: if with_account_balance && known {
                Some(self.balances[position as int].account_balance)
            } else {
                None
            },
        }
    }

    /// The postings of the first `count` directives, in order.
    pub open spec fn contexts(
        self,
        count: nat,
        with_balance: bool,
        with_account_balance: bool,
    ) -> Seq<ContextView>
        decreases count,
    {
        if count == 0 {
            Seq::empty()
        } else {
            let index = (count - 1) as nat;
            let before = self.contexts(index, with_balance, with_account_balance);
            match self.directives[index as int] {
                DirectiveView::Transaction(txn) => before + Seq::new(
                    txn.postings.len(),
                    |j: int|
                        self.context(
                            txn,
                            index,
                            j as nat,
                            before.len() + j as nat,
                            with_balance,
                            with_account_balance,
                        ),
                ),
                _ => before,
            }
        }
    }
}

impl Executor {
    /// Where the directive stands in the source, as far as it is known.
    pub fn get_source_location(&self, index: usize) -> (location: Option<&SourceLocation>)
        ensures
            self@.location(index as nat) == (match location {
                Some(l) => Some(l@),
                None => None,
            }),
    {
        if index < self.locations.len() {
            assert(self@.locations[index as int] == option_view(self.locations@[index as int]));
            self.locations[index].as_ref()
        } else {
            None
        }
    }

    /// Where the directive of a posting stands.
    pub fn entry_source_location(&self, ctx: &PostingContext) -> (location: Option<SourceLocation>)
        ensures
            option_view(location) == self@.entry_location(ctx@),
    {
        match ctx.directive_index {
            Some(index) => match self.get_source_location(index) {
                Some(location) => Some(location.duplicate()),
                None => None,
            },
            None => None,
        }
    }

    /// Where a posting stands: at its own place, or at that of its directive where it has none.
    pub fn resolved_source_location(&self, ctx: &PostingContext) -> (location: Option<
        SourceLocation,
    >)
        requires
            ctx@.is_valid(),
        ensures
            option_view(location) == self@.posting_location(ctx@),
    {
        let posting = &ctx.transaction.postings[ctx.posting_index];
        assert(posting@ == ctx@.posting());
        match &posting.location {
            Some(location) => Some(location.duplicate()),
            None => self.entry_source_location(ctx),
        }
    }

    /// All postings in the order of the directives, with the balances that are asked for.
    pub fn scan_postings(&self, with_balance: bool, with_account_balance: bool) -> (contexts: Vec<
        PostingContext<'_>,
    >)
        ensures
            seq_view(contexts@) == self@.contexts(
                self@.directives.len(),
                with_balance,
                with_account_balance,
            ),
    {
        let mut contexts: Vec<PostingContext<'_>> = Vec::new();
        let mut i: usize = 0;
        while i < self.directives.len()
            invariant
                i <= self.directives.len(),
                seq_view(contexts@) == self@.contexts(i as nat, with_balance, with_account_balance),
            decreases self.directives.len() - i,
        {
            assert(self@.directives[i as int] == self.directives@[i as int]@);
            if let Directive::Transaction(txn) = &self.directives[i] {
                let ghost before = seq_view(contexts@);
                let ghost added = Seq::new(
                    txn@.postings.len(),
                    |j: int|
                        self@.context(
                            txn@,
                            i as nat,
                            j as nat,
                            before.len() + j as nat,
                            with_balance,
                            with_account_balance,
                        ),
                );
                let mut j: usize = 0;
                while j < txn.postings.len()
                    invariant
                        j <= txn.postings.len(),
                        added == Seq::new(
                            txn@.postings.len(),
                            |j: int|
                                self@.context(
                                    txn@,
                                    i as nat,
                                    j as nat,
                                    before.len() + j as nat,
                                    with_balance,
                                    with_account_balance,
                                ),
                        ),
                        seq_view(contexts@) == before + added.take(j as int),
                    decreases txn.postings.len() - j,
                {
                    let position = contexts.len();
                    let known = position < self.balances.len();
                    let balance = if with_balance && known {
                        Some(self.balances[position].balance.duplicate())
                    } else {
                        None
                    };
                    let account_balance = if with_account_balance && known {
                        Some(self.balances[position].account_balance.duplicate())
                    } else {
                        None
                    };
                    let context = PostingContext {
                        transaction: txn,
                        posting_index: j,
                        directive_index: Some(i),
                        balance,
                        account_balance,
                    };
                    proof {
                        assert(seq_view(contexts@).len() == position);
                        if known {
                            assert(self@.balances[position as int]
                                == self.balances@[position as int]@);
                        }
                        assert(context@ == added[j as int]);
                        assert(added.take(j + 1) == added.take(j as int).push(added[j as int]));
                        assert(seq_view(contexts@.push(context)) =~= seq_view(contexts@).push(
                            context@,
                        ));
                        assert(before + added.take(j + 1) == (before + added.take(j as int)).push(
                            context@,
                        ));
                    }
                    contexts.push(context);
                    j = j + 1;
                }
                assert(added.take(j as int) == added);
            }
            i = i + 1;
        }
        contexts
    }
}

} // verus!
