//! What holds of the `#accounts` table, whatever the ledger.
use crate::accounts::{
    account_facts, account_named, account_row, accounts_table, facts_of, lemma_facts_of_named,
    no_facts, AccountFacts,
};
use crate::executor::ExecutorView;
use crate::ledger::{CloseView, DirectiveView, OpenView};
use crate::names::{law_name_set, lemma_ascending_names_unique, name_set};
use crate::tables::picked;
use crate::text::text_lt;
use crate::value::ValueView;
use vstd::prelude::*;

verus! {

/// The last opening of an account.
pub open spec fn last_open(directives: Seq<DirectiveView>, account: Seq<char>) -> Option<OpenView>
    decreases directives.len(),
{
    if directives.len() == 0 {
        None
    } else {
        match directives.last() {
            DirectiveView::Open(open) if open.account == account => Some(open),
            _ => last_open(directives.drop_last(), account),
        }
    }
}

/// The last closing of an account.
pub open spec fn last_close(directives: Seq<DirectiveView>, account: Seq<char>) -> Option<CloseView>
    decreases directives.len(),
{
    if directives.len() == 0 {
        None
    } else {
        match directives.last() {
            DirectiveView::Close(close) if close.account == account => Some(close),
            _ => last_close(directives.drop_last(), account),
        }
    }
}

/// What an opening and a closing say of an account, as far as there are any.
pub open spec fn stated_facts(open: Option<OpenView>, close: Option<CloseView>) -> AccountFacts {
    AccountFacts {
        open: match open {
            Some(o) => Some(o.date),
            None => None,
        },
        close: match close {
            Some(c) => Some(c.date),
            None => None,
        },
        currencies: match open {
            Some(o) => o.currencies,
            None => Seq::empty(),
        },
        booking: match open {
            Some(o) => o.booking,
            None => None,
        },
    }
}

proof fn lemma_facts_are_stated(directives: Seq<DirectiveView>, account: Seq<char>)
    ensures
        facts_of(account_facts(directives), account) == stated_facts(
            last_open(directives, account),
            last_close(directives, account),
        ),
    decreases directives.len(),
{
    if directives.len() > 0 {
        lemma_facts_are_stated(directives.drop_last(), account);
    } else {
        assert(no_facts() == stated_facts(None, None));
    }
}

/// A row of the `#accounts` table shows what the last opening and the last closing of its
/// account say: the opening gives its date, the currencies and the booking method, the closing
/// its date. Neither undoes the other, in whichever order they come. Without an opening the
/// account has no currencies and `NULL` for its date and booking method, and without a closing
/// `NULL` for that date.
pub proof fn law_account_rows(executor: ExecutorView, i: int)
    requires
        0 <= i < accounts_table(executor).rows.len(),
    ensures
        ({
            let account = accounts_table(executor).rows[i][0]->String_0;
            accounts_table(executor).rows[i] == account_row(
                account,
                stated_facts(
                    last_open(executor.directives, account),
                    last_close(executor.directives, account),
                ),
            )
        }),
{
    let directives = executor.directives;
    let named = picked(directives, account_named());
    law_name_set(named);
    lemma_facts_of_named(directives);
    let account = name_set(named)[i];
    assert(name_set(named).contains(account));
    assert(account_facts(directives).contains_key(account));
    lemma_facts_are_stated(directives, account);
}

/// Whether a directive opens or closes the account.
pub open spec fn names_account(directive: DirectiveView, account: Seq<char>) -> bool {
    match directive {
        DirectiveView::Open(open) => open.account == account,
        DirectiveView::Close(close) => close.account == account,
        _ => false,
    }
}

/// Whether a directive among these opens or closes the account.
pub open spec fn is_named(directives: Seq<DirectiveView>, account: Seq<char>) -> bool {
    exists|p: int| 0 <= p < directives.len() && names_account(#[trigger] directives[p], account)
}

/// Whether there is a row whose first cell is this account.
pub open spec fn has_row(rows: Seq<Seq<ValueView>>, account: Seq<char>) -> bool {
    exists|i: int| 0 <= i < rows.len() && (#[trigger] rows[i])[0] == ValueView::String(account)
}

proof fn lemma_named_by(directives: Seq<DirectiveView>, account: Seq<char>)
    ensures
        picked(directives, account_named()).contains(account) == is_named(directives, account),
    decreases directives.len(),
{
    let named = picked(directives, account_named());
    if directives.len() > 0 {
        let fewer = directives.drop_last();
        let before = picked(fewer, account_named());
        lemma_named_by(fewer, account);
        if before.contains(account) {
            let p = choose|p: int| 0 <= p < fewer.len() && names_account(#[trigger] fewer[p], account);
            assert(names_account(directives[p], account));
            let k = choose|k: int| 0 <= k < before.len() && before[k] == account;
            assert(named[k] == account);
        }
        if names_account(directives[directives.len() - 1], account) {
            assert(named[before.len() as int] == account);
        }
        if is_named(directives, account) {
            let p = choose|p: int|
                0 <= p < directives.len() && names_account(#[trigger] directives[p], account);
            if p < fewer.len() {
                assert(names_account(fewer[p], account));
            }
        }
        if named.contains(account) && !before.contains(account) {
            let k = choose|k: int| 0 <= k < named.len() && named[k] == account;
            if k < before.len() {
                assert(before[k] == account);
            }
        }
    }
}

/// The `#accounts` table has one row for each account that a directive opens or closes, and no
/// others, in ascending order of the names.
pub proof fn law_accounts_once_each(executor: ExecutorView)
    ensures
        forall|i: int, j: int|
            0 <= i < j < accounts_table(executor).rows.len() ==> text_lt(
                (#[trigger] accounts_table(executor).rows[i])[0]->String_0,
                (#[trigger] accounts_table(executor).rows[j])[0]->String_0,
            ),
        forall|account: Seq<char>| #[trigger]
            has_row(accounts_table(executor).rows, account) == is_named(
                executor.directives,
                account,
            ),
{
    let rows = accounts_table(executor).rows;
    let named = picked(executor.directives, account_named());
    let names = name_set(named);
    law_name_set(named);
    assert forall|i: int, j: int| 0 <= i < j < rows.len() implies text_lt(
        (#[trigger] rows[i])[0]->String_0,
        (#[trigger] rows[j])[0]->String_0,
    ) by {
        assert(text_lt(names[i], names[j]));
    }
    assert forall|account: Seq<char>| #[trigger]
        has_row(rows, account) == is_named(executor.directives, account) by {
        lemma_named_by(executor.directives, account);
        assert(names.contains(account) == named.contains(account));
        if names.contains(account) {
            let i = choose|i: int| 0 <= i < names.len() && names[i] == account;
            assert(rows[i][0] == ValueView::String(account));
        }
        if has_row(rows, account) {
            let i = choose|i: int|
                0 <= i < rows.len() && (#[trigger] rows[i])[0] == ValueView::String(account);
            assert(names[i] == account);
        }
    }
}

/// Whether no account is opened twice and none closed twice.
pub open spec fn opens_and_closes_once(directives: Seq<DirectiveView>) -> bool {
    forall|p: int, q: int|
        0 <= p < directives.len() && 0 <= q < directives.len() ==> (match (
            #[trigger] directives[p],
            #[trigger] directives[q],
        ) {
            (DirectiveView::Open(a), DirectiveView::Open(b)) => a.account == b.account ==> p == q,
            (DirectiveView::Close(a), DirectiveView::Close(b)) => a.account == b.account ==> p
                == q,
            _ => true,
        })
}

/// The last opening and the last closing are among the directives, and where there is none, no
/// directive is one.
proof fn lemma_last_found(directives: Seq<DirectiveView>, account: Seq<char>)
    ensures
        last_open(directives, account) matches Some(open) ==> open.account == account
            && directives.contains(DirectiveView::Open(open)),
        last_open(directives, account) is None ==> forall|open: OpenView|
            open.account == account ==> !#[trigger] directives.contains(DirectiveView::Open(open)),
        last_close(directives, account) matches Some(close) ==> close.account == account
            && directives.contains(DirectiveView::Close(close)),
        last_close(directives, account) is None ==> forall|close: CloseView|
            close.account == account ==> !#[trigger] directives.contains(
                DirectiveView::Close(close),
            ),
    decreases directives.len(),
{
    if directives.len() > 0 {
        let fewer = directives.drop_last();
        let last = directives[directives.len() - 1];
        lemma_last_found(fewer, account);
        assert forall|d: DirectiveView| #[trigger] directives.contains(d) == (fewer.contains(d) || d
            == last) by {
            if directives.contains(d) {
                let k = choose|k: int| 0 <= k < directives.len() && directives[k] == d;
                if k < fewer.len() {
                    assert(fewer[k] == d);
                }
            }
            if fewer.contains(d) {
                let k = choose|k: int| 0 <= k < fewer.len() && fewer[k] == d;
                assert(directives[k] == d);
            }
        }
    }
}

/// The `#accounts` table does not depend on the order of the directives, as long as no account
/// is opened twice or closed twice.
pub proof fn law_accounts_in_any_order(a: ExecutorView, b: ExecutorView)
    requires
        a.directives.to_multiset() == b.directives.to_multiset(),
        opens_and_closes_once(a.directives),
    ensures
        accounts_table(a) == accounts_table(b),
{
    let x = a.directives;
    let y = b.directives;
    assert forall|d: DirectiveView| #[trigger] x.contains(d) == y.contains(d) by {
        vstd::seq_lib::to_multiset_contains(x, d);
        vstd::seq_lib::to_multiset_contains(y, d);
    }
    let names = name_set(picked(x, account_named()));
    let others = name_set(picked(y, account_named()));
    law_name_set(picked(x, account_named()));
    law_name_set(picked(y, account_named()));
    assert forall|n: Seq<char>| #[trigger] names.contains(n) == others.contains(n) by {
        lemma_named_by(x, n);
        lemma_named_by(y, n);
        if is_named(x, n) {
            let p = choose|p: int| 0 <= p < x.len() && names_account(#[trigger] x[p], n);
            assert(x.contains(x[p]));
            let q = choose|q: int| 0 <= q < y.len() && y[q] == x[p];
            assert(names_account(y[q], n));
        }
        if is_named(y, n) {
            let p = choose|p: int| 0 <= p < y.len() && names_account(#[trigger] y[p], n);
            assert(y.contains(y[p]));
            assert(x.contains(y[p]));
            let q = choose|q: int| 0 <= q < x.len() && x[q] == y[p];
            assert(names_account(x[q], n));
        }
        assert(names.contains(n) == picked(x, account_named()).contains(n));
        assert(others.contains(n) == picked(y, account_named()).contains(n));
    }
    lemma_ascending_names_unique(names, others);
    let rows = accounts_table(a).rows;
    let other_rows = accounts_table(b).rows;
    assert forall|i: int| 0 <= i < rows.len() implies rows[i] == other_rows[i] by {
        let account = names[i];
        law_account_rows(a, i);
        law_account_rows(b, i);
        lemma_last_found(x, account);
        lemma_last_found(y, account);
        if let Some(one) = last_open(x, account) {
            assert(x.contains(DirectiveView::Open(one)));
        }
        if let Some(two) = last_open(y, account) {
            assert(x.contains(DirectiveView::Open(two)) == y.contains(DirectiveView::Open(two)));
        }
        if let (Some(one), Some(two)) = (last_open(x, account), last_open(y, account)) {
            let p = choose|p: int| 0 <= p < x.len() && x[p] == DirectiveView::Open(one);
            let q = choose|q: int| 0 <= q < x.len() && x[q] == DirectiveView::Open(two);
            assert(p == q);
        }
        if let Some(one) = last_close(x, account) {
            assert(x.contains(DirectiveView::Close(one)));
        }
        if let Some(two) = last_close(y, account) {
            assert(x.contains(DirectiveView::Close(two)) == y.contains(DirectiveView::Close(two)));
        }
        if let (Some(one), Some(two)) = (last_close(x, account), last_close(y, account)) {
            let p = choose|p: int| 0 <= p < x.len() && x[p] == DirectiveView::Close(one);
            let q = choose|q: int| 0 <= q < x.len() && x[q] == DirectiveView::Close(two);
            assert(p == q);
        }
        assert(rows[i][0] == ValueView::String(account));
        assert(other_rows[i][0] == ValueView::String(account));
    }
    assert(rows =~= other_rows);
}

/// Whether the directive opens the account.
pub open spec fn opens(directive: DirectiveView, account: Seq<char>) -> bool {
    directive is Open && directive->Open_0.account == account
}

/// Whether the directive closes the account.
pub open spec fn closes(directive: DirectiveView, account: Seq<char>) -> bool {
    directive is Close && directive->Close_0.account == account
}

proof fn lemma_last_open_at(directives: Seq<DirectiveView>, account: Seq<char>, p: int)
    requires
        0 <= p < directives.len(),
        opens(directives[p], account),
        forall|q: int| p < q < directives.len() ==> !opens(#[trigger] directives[q], account),
    ensures
        last_open(directives, account) == Some(directives[p]->Open_0),
    decreases directives.len(),
{
    if p < directives.len() - 1 {
        assert(!opens(directives[directives.len() - 1], account));
        assert forall|q: int| p < q < directives.drop_last().len() implies !opens(
            #[trigger] directives.drop_last()[q],
            account,
        ) by {
            assert(!opens(directives[q], account));
        }
        lemma_last_open_at(directives.drop_last(), account, p);
    }
}

proof fn lemma_last_close_at(directives: Seq<DirectiveView>, account: Seq<char>, p: int)
    requires
        0 <= p < directives.len(),
        closes(directives[p], account),
        forall|q: int| p < q < directives.len() ==> !closes(#[trigger] directives[q], account),
    ensures
        last_close(directives, account) == Some(directives[p]->Close_0),
    decreases directives.len(),
{
    if p < directives.len() - 1 {
        assert(!closes(directives[directives.len() - 1], account));
        assert forall|q: int| p < q < directives.drop_last().len() implies !closes(
            #[trigger] directives.drop_last()[q],
            account,
        ) by {
            assert(!closes(directives[q], account));
        }
        lemma_last_close_at(directives.drop_last(), account, p);
    }
}

/// The cells of an account that is opened: the row has the date of the last opening, all its
/// currencies in their order, and its booking method or `NULL`.
pub proof fn law_cells_of_an_opened_account(executor: ExecutorView, i: int, p: int)
    requires
        0 <= i < accounts_table(executor).rows.len(),
        0 <= p < executor.directives.len(),
        executor.directives[p] is Open,
        accounts_table(executor).rows[i][0] == ValueView::String(
            executor.directives[p]->Open_0.account,
        ),
        forall|q: int|
            p < q < executor.directives.len() ==> !opens(
                #[trigger] executor.directives[q],
                executor.directives[p]->Open_0.account,
            ),
    ensures
        ({
            let row = accounts_table(executor).rows[i];
            let open = executor.directives[p]->Open_0;
            &&& row[1] == ValueView::Date(open.date)
            &&& row[3] == ValueView::StringSet(open.currencies)
            &&& row[4] == match open.booking {
                Some(booking) => ValueView::String(booking),
                None => ValueView::Null,
            }
        }),
{
    law_account_rows(executor, i);
    lemma_last_open_at(executor.directives, executor.directives[p]->Open_0.account, p);
}

/// The cell of an account that is closed: the row has the date of the last closing.
pub proof fn law_cell_of_a_closed_account(executor: ExecutorView, i: int, p: int)
    requires
        0 <= i < accounts_table(executor).rows.len(),
        0 <= p < executor.directives.len(),
        executor.directives[p] is Close,
        accounts_table(executor).rows[i][0] == ValueView::String(
            executor.directives[p]->Close_0.account,
        ),
        forall|q: int|
            p < q < executor.directives.len() ==> !closes(
                #[trigger] executor.directives[q],
                executor.directives[p]->Close_0.account,
            ),
    ensures
        accounts_table(executor).rows[i][2] == ValueView::Date(
            executor.directives[p]->Close_0.date,
        ),
{
    law_account_rows(executor, i);
    lemma_last_close_at(executor.directives, executor.directives[p]->Close_0.account, p);
}

/// Every row has five cells, the first of them the name. An account that is never opened has no
/// currencies and `NULL` for the opening and the booking method; one that is never closed has
/// `NULL` for the closing.
pub proof fn law_cells_of_other_accounts(executor: ExecutorView, i: int)
    requires
        0 <= i < accounts_table(executor).rows.len(),
    ensures
        accounts_table(executor).columns == seq![
            "account"@,
            "open"@,
            "close"@,
            "currencies"@,
            "booking"@,
        ],
        ({
            let row = accounts_table(executor).rows[i];
            let account = row[0]->String_0;
            &&& row.len() == 5
            &&& row[0] is String
            &&& (forall|q: int|
                0 <= q < executor.directives.len() ==> !opens(
                    #[trigger] executor.directives[q],
                    account,
                )) ==> row[1] is Null && row[3] == ValueView::StringSet(Seq::empty()) && row[4] is Null
            &&& (forall|q: int|
                0 <= q < executor.directives.len() ==> !closes(
                    #[trigger] executor.directives[q],
                    account,
                )) ==> row[2] is Null
        }),
{
    law_account_rows(executor, i);
    let account = accounts_table(executor).rows[i][0]->String_0;
    lemma_last_found(executor.directives, account);
    if let Some(open) = last_open(executor.directives, account) {
        let q = choose|q: int|
            0 <= q < executor.directives.len() && executor.directives[q] == DirectiveView::Open(
                open,
            );
        assert(opens(executor.directives[q], account));
    }
    if let Some(close) = last_close(executor.directives, account) {
        let q = choose|q: int|
            0 <= q < executor.directives.len() && executor.directives[q] == DirectiveView::Close(
                close,
            );
        assert(closes(executor.directives[q], account));
    }
}

} // verus!
