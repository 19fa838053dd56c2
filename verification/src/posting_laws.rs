//! What holds of the `#postings` table, whatever the ledger and the query.
use crate::ast::SelectQuery;
use crate::entries::entries_table;
use crate::executor::{posting_count, ContextView, ExecutorView};
use crate::functions::{augmented, looked_up, meta_found};
use crate::ledger::{DirectiveView, TransactionView};
use crate::metadata::meta_entry;
use crate::names::{law_name_set, lemma_ascending_names_unique, names_ascend};
use crate::postings::{
    collection_cells, column_needs, entry_cells, is_scanned, lemma_contexts_valid, names_without,
    other_accounts, own_cells, parent_cells, posting_row, posting_rows, postings_columns,
    ColumnNeeds,
};
use crate::system_tables::{account_set, posting_accounts};
use crate::text::text_lt;
use crate::value::ValueView;
use vstd::prelude::*;

verus! {

/// Every column.
pub open spec fn all_needs() -> ColumnNeeds {
    ColumnNeeds {
        kind: true,
        loc: true,
        flag: true,
        payee: true,
        narration: true,
        description: true,
        tags: true,
        links: true,
        posting_flag: true,
        account: true,
        other_accounts: true,
        number: true,
        currency: true,
        cost: true,
        position: true,
        price: true,
        weight: true,
        balance: true,
        account_balance: true,
        meta: true,
        accounts: true,
        entry: true,
    }
}

/// Whether a column, by its place, is built. Number, date, year, month and day of the directive
/// always are.
pub open spec fn is_built(needs: ColumnNeeds, column: int) -> bool {
    if column == 0 {
        needs.kind
    } else if column < 6 {
        true
    } else if column < 9 {
        needs.loc
    } else if column == 9 {
        needs.flag
    } else if column == 10 {
        needs.payee
    } else if column == 11 {
        needs.narration
    } else if column == 12 {
        needs.description
    } else if column == 13 {
        needs.tags
    } else if column == 14 {
        needs.links
    } else if column == 15 {
        needs.posting_flag
    } else if column == 16 {
        needs.account
    } else if column == 17 {
        needs.other_accounts
    } else if column == 18 {
        needs.number
    } else if column == 19 {
        needs.currency
    } else if column < 24 {
        needs.cost
    } else if column == 24 {
        needs.position
    } else if column == 25 {
        needs.price
    } else if column == 26 {
        needs.weight
    } else if column == 27 {
        needs.balance
    } else if column == 28 {
        needs.account_balance
    } else if column == 29 {
        needs.meta
    } else if column == 30 {
        needs.accounts
    } else if column == 31 {
        needs.entry
    } else {
        needs.meta
    }
}

/// A scan with fewer balances finds the same postings.
proof fn lemma_contexts_flags(
    executor: ExecutorView,
    count: nat,
    with_balance: bool,
    with_account_balance: bool,
)
    requires
        count <= executor.directives.len(),
    ensures
        executor.contexts(count, with_balance, with_account_balance).len() == executor.contexts(
            count,
            true,
            true,
        ).len(),
        forall|i: int|
            0 <= i < executor.contexts(count, true, true).len() ==> {
                let full = executor.contexts(count, true, true)[i];
                #[trigger] executor.contexts(count, with_balance, with_account_balance)[i]
                    == (ContextView {
                    balance: if with_balance {
                        full.balance
                    } else {
                        None
                    },
                    account_balance: if with_account_balance {
                        full.account_balance
                    } else {
                        None
                    },
                    ..full
                })
            },
    decreases count,
{
    if count > 0 {
        lemma_contexts_flags(executor, (count - 1) as nat, with_balance, with_account_balance);
        let index = (count - 1) as nat;
        let before = executor.contexts(index, with_balance, with_account_balance);
        let full_before = executor.contexts(index, true, true);
        let all = executor.contexts(count, with_balance, with_account_balance);
        let full_all = executor.contexts(count, true, true);
        assert forall|i: int| 0 <= i < full_all.len() implies {
            let full = full_all[i];
            #[trigger] all[i] == (ContextView {
                balance: if with_balance {
                    full.balance
                } else {
                    None
                },
                account_balance: if with_account_balance {
                    full.account_balance
                } else {
                    None
                },
                ..full
            })
        } by {
            if i < before.len() {
                assert(all[i] == before[i] && full_all[i] == full_before[i]);
            }
        }
    }
}

/// The posting with the balances that are needed only.
spec fn narrowed(full: ContextView, needs: ColumnNeeds) -> ContextView {
    ContextView {
        balance: if needs.balance {
            full.balance
        } else {
            None
        },
        account_balance: if needs.account_balance {
            full.account_balance
        } else {
            None
        },
        ..full
    }
}

proof fn lemma_entry_cells(executor: ExecutorView, needs: ColumnNeeds, full: ContextView, k: int)
    requires
        0 <= k < 9,
    ensures
        entry_cells(executor, needs, narrowed(full, needs)).len() == 9,
        entry_cells(executor, all_needs(), full).len() == 9,
        entry_cells(executor, needs, narrowed(full, needs))[k] == if is_built(needs, k) {
            entry_cells(executor, all_needs(), full)[k]
        } else {
            ValueView::Null
        },
{
}

proof fn lemma_parent_cells(executor: ExecutorView, needs: ColumnNeeds, full: ContextView, k: int)
    requires
        0 <= k < 6,
    ensures
        parent_cells(needs, narrowed(full, needs).transaction).len() == 6,
        parent_cells(all_needs(), full.transaction).len() == 6,
        parent_cells(needs, narrowed(full, needs).transaction)[k] == if is_built(needs, 9 + k) {
            parent_cells(all_needs(), full.transaction)[k]
        } else {
            ValueView::Null
        },
{
}

proof fn lemma_own_cells(executor: ExecutorView, needs: ColumnNeeds, full: ContextView, k: int)
    requires
        0 <= k < 12,
    ensures
        own_cells(needs, narrowed(full, needs)).len() == 12,
        own_cells(all_needs(), full).len() == 12,
        own_cells(needs, narrowed(full, needs))[k] == if is_built(needs, 15 + k) {
            own_cells(all_needs(), full)[k]
        } else {
            ValueView::Null
        },
{
}

proof fn lemma_collection_cells(executor: ExecutorView, needs: ColumnNeeds, full: ContextView, k: int)
    requires
        0 <= k < 7,
    ensures
        collection_cells(executor, needs, narrowed(full, needs)).len() == 7,
        collection_cells(executor, all_needs(), full).len() == 7,
        collection_cells(executor, needs, narrowed(full, needs))[k] == if is_built(needs, 27 + k) {
            collection_cells(executor, all_needs(), full)[k]
        } else {
            ValueView::Null
        },
{
}

proof fn lemma_row_cells(executor: ExecutorView, needs: ColumnNeeds, full: ContextView, k: int)
    requires
        0 <= k < 34,
    ensures
        posting_row(executor, needs, narrowed(full, needs))[k] == if is_built(needs, k) {
            posting_row(executor, all_needs(), full)[k]
        } else {
            ValueView::Null
        },
{
    lemma_entry_cells(executor, needs, full, 0);
    lemma_parent_cells(executor, needs, full, 0);
    lemma_own_cells(executor, needs, full, 0);
    lemma_collection_cells(executor, needs, full, 0);
    if k < 9 {
        lemma_entry_cells(executor, needs, full, k);
    } else if k < 15 {
        lemma_parent_cells(executor, needs, full, k - 9);
    } else if k < 27 {
        lemma_own_cells(executor, needs, full, k - 15);
    } else {
        lemma_collection_cells(executor, needs, full, k - 27);
    }
}

/// A cell of a column that is built is the one that it would be if every column were built; any
/// other cell is `NULL`. How many rows there are does not depend on the columns.
pub proof fn law_built_columns(executor: ExecutorView, needs: ColumnNeeds)
    ensures
        posting_rows(executor, needs).len() == posting_rows(executor, all_needs()).len(),
        forall|i: int, k: int|
            0 <= i < posting_rows(executor, needs).len() && 0 <= k < postings_columns().len() ==> (
            #[trigger] posting_rows(executor, needs)[i][k] == if is_built(needs, k) {
                posting_rows(executor, all_needs())[i][k]
            } else {
                ValueView::Null
            }),
{
    let n = executor.directives.len();
    lemma_contexts_flags(executor, n, needs.balance, needs.account_balance);
    let contexts = executor.contexts(n, needs.balance, needs.account_balance);
    let full = executor.contexts(n, true, true);
    let rows = posting_rows(executor, needs);
    let full_rows = posting_rows(executor, all_needs());
    assert forall|i: int, k: int|
        0 <= i < rows.len() && 0 <= k < postings_columns().len() implies (#[trigger] rows[i][k]
        == if is_built(needs, k) {
        full_rows[i][k]
    } else {
        ValueView::Null
    }) by {
        assert(contexts[i] == narrowed(full[i], needs));
        lemma_row_cells(executor, needs, full[i], k);
    }
}

/// Every column that a query reads is built.
pub proof fn law_read_columns_are_built(query: &SelectQuery, column: int)
    requires
        0 <= column < postings_columns().len(),
        query.reads(postings_columns()[column]),
    ensures
        is_built(column_needs(query), column),
{
}

/// A query finds in every column that it reads what it would find there if every column were
/// built: what is left out, it does not see.
pub proof fn law_queries_see_the_full_table(
    executor: ExecutorView,
    query: &SelectQuery,
    row: int,
    column: int,
)
    requires
        0 <= row < posting_rows(executor, all_needs()).len(),
        0 <= column < postings_columns().len(),
        query.reads(postings_columns()[column]),
    ensures
        posting_rows(executor, column_needs(query))[row][column] == posting_rows(
            executor,
            all_needs(),
        )[row][column],
{
    law_read_columns_are_built(query, column);
    law_built_columns(executor, column_needs(query));
    let rows = posting_rows(executor, column_needs(query));
    assert(rows[row][column] == rows[row][column]);
}

/// `SELECT *` has every column built.
pub proof fn law_wildcard_builds_everything(query: &SelectQuery)
    requires
        query.selects_all(),
    ensures
        column_needs(query) == all_needs(),
{
}

/// Whether the column of this name is built.
pub open spec fn builds(needs: ColumnNeeds, name: Seq<char>) -> bool {
    exists|k: int|
        0 <= k < postings_columns().len() && #[trigger] postings_columns()[k] == name && is_built(
            needs,
            k,
        )
}

/// Columns that are read behind the query's back are built too: `position` where `balance` is
/// read, and `meta`, `_entry_meta` and `_posting_meta` where a metadata function is called.
pub proof fn law_columns_read_indirectly(query: &SelectQuery)
    ensures
        query.reads("balance"@) ==> builds(column_needs(query), "position"@),
        query.calls_meta ==> builds(column_needs(query), "meta"@),
        query.calls_meta ==> builds(column_needs(query), "_entry_meta"@),
        query.calls_meta ==> builds(column_needs(query), "_posting_meta"@),
{
    assert(postings_columns()[24] == "position"@);
    assert(postings_columns()[29] == "meta"@);
    assert(postings_columns()[32] == "_entry_meta"@);
    assert(postings_columns()[33] == "_posting_meta"@);
}

/// Whether a posting comes before another one in the ledger.
pub open spec fn stands_before(a: ContextView, b: ContextView) -> bool {
    a.directive_index->0 < b.directive_index->0 || (a.directive_index == b.directive_index
        && a.posting_index < b.posting_index)
}

/// Whether one of the contexts is that of posting `posting` of directive `directive`.
pub open spec fn reaches(contexts: Seq<ContextView>, directive: nat, posting: nat) -> bool {
    exists|i: int|
        0 <= i < contexts.len() && (#[trigger] contexts[i]).directive_index == Some(directive)
            && contexts[i].posting_index == posting
}

/// A scan finds every posting of the ledger, once each, in the order of the directives and
/// of the postings in them.
pub proof fn law_scan_finds_every_posting(
    executor: ExecutorView,
    count: nat,
    with_balance: bool,
    with_account_balance: bool,
)
    requires
        count <= executor.directives.len(),
    ensures
        forall|i: int|
            0 <= i < executor.contexts(count, with_balance, with_account_balance).len()
                ==> is_scanned(
                executor,
                #[trigger] executor.contexts(count, with_balance, with_account_balance)[i],
            ),
        forall|i: int, j: int|
            0 <= i < j < executor.contexts(count, with_balance, with_account_balance).len()
                ==> stands_before(
                #[trigger] executor.contexts(count, with_balance, with_account_balance)[i],
                #[trigger] executor.contexts(count, with_balance, with_account_balance)[j],
            ),
        forall|d: nat, p: nat|
            d < count && (executor.directives[d as int] matches DirectiveView::Transaction(txn)
                && p < txn.postings.len()) ==> #[trigger] reaches(
                executor.contexts(count, with_balance, with_account_balance),
                d,
                p,
            ),
    decreases count,
{
    let all = executor.contexts(count, with_balance, with_account_balance);
    lemma_contexts_valid(executor, count, with_balance, with_account_balance);
    if count > 0 {
        let index = (count - 1) as nat;
        let before = executor.contexts(index, with_balance, with_account_balance);
        law_scan_finds_every_posting(executor, index, with_balance, with_account_balance);
        lemma_contexts_below(executor, index, with_balance, with_account_balance);
        assert forall|i: int, j: int| 0 <= i < j < all.len() implies stands_before(
            #[trigger] all[i],
            #[trigger] all[j],
        ) by {
            if i < before.len() {
                assert(all[i] == before[i]);
                assert(before[i].directive_index->0 < index);
            }
            if j < before.len() {
                assert(all[j] == before[j]);
                assert(stands_before(before[i], before[j]));
            }
        }
        assert forall|d: nat, p: nat|
            d < count && (executor.directives[d as int] matches DirectiveView::Transaction(txn)
                && p < txn.postings.len()) implies #[trigger] reaches(all, d, p) by {
            if d < index {
                assert(reaches(before, d, p));
                let i = choose|i: int|
                    0 <= i < before.len() && (#[trigger] before[i]).directive_index == Some(d)
                        && before[i].posting_index == p;
                assert(all[i] == before[i]);
            } else {
                let i = before.len() as int + p;
                assert(all[i].directive_index == Some(d) && all[i].posting_index == p);
            }
        }
    }
}

proof fn lemma_contexts_below(
    executor: ExecutorView,
    count: nat,
    with_balance: bool,
    with_account_balance: bool,
)
    requires
        count <= executor.directives.len(),
    ensures
        forall|i: int|
            0 <= i < executor.contexts(count, with_balance, with_account_balance).len() ==> (
            #[trigger] executor.contexts(count, with_balance, with_account_balance)[i]).directive_index
                is Some && executor.contexts(
                count,
                with_balance,
                with_account_balance,
            )[i].directive_index->0 < count,
    decreases count,
{
    if count > 0 {
        let index = (count - 1) as nat;
        lemma_contexts_below(executor, index, with_balance, with_account_balance);
        let before = executor.contexts(index, with_balance, with_account_balance);
        let all = executor.contexts(count, with_balance, with_account_balance);
        assert forall|i: int| 0 <= i < all.len() implies (#[trigger] all[i]).directive_index is Some
            && all[i].directive_index->0 < count by {
            if i < before.len() {
                assert(all[i] == before[i]);
            }
        }
    }
}

/// A scan takes the balances entry by entry, as long as there are any.
proof fn lemma_context_balances(
    executor: ExecutorView,
    count: nat,
    with_balance: bool,
    with_account_balance: bool,
)
    requires
        count <= executor.directives.len(),
    ensures
        executor.contexts(count, with_balance, with_account_balance).len() == posting_count(
            executor.directives.take(count as int),
        ),
        forall|i: int|
            0 <= i < executor.contexts(count, with_balance, with_account_balance).len() && i
                < executor.balances.len() ==> {
                let ctx = #[trigger] executor.contexts(
                    count,
                    with_balance,
                    with_account_balance,
                )[i];
                &&& with_balance ==> ctx.balance == Some(executor.balances[i].balance)
                &&& with_account_balance ==> ctx.account_balance == Some(
                    executor.balances[i].account_balance,
                )
            },
    decreases count,
{
    if count > 0 {
        let index = (count - 1) as nat;
        lemma_context_balances(executor, index, with_balance, with_account_balance);
        let before = executor.contexts(index, with_balance, with_account_balance);
        let all = executor.contexts(count, with_balance, with_account_balance);
        let taken = executor.directives.take(count as int);
        assert(taken.drop_last() == executor.directives.take(index as int));
        assert(taken.last() == executor.directives[index as int]);
        assert forall|i: int| 0 <= i < all.len() && i < executor.balances.len() implies {
            let ctx = #[trigger] all[i];
            &&& with_balance ==> ctx.balance == Some(executor.balances[i].balance)
            &&& with_account_balance ==> ctx.account_balance == Some(
                executor.balances[i].account_balance,
            )
        } by {
            if i < before.len() {
                assert(all[i] == before[i]);
            }
        }
    }
}

/// Where the balances after every posting are known, a query that reads `balance` or
/// `account_balance` finds an inventory in every row: the one after that posting.
pub proof fn law_read_balances_are_known(executor: ExecutorView, query: &SelectQuery, row: int)
    requires
        executor.has_all_balances(),
        0 <= row < posting_rows(executor, column_needs(query)).len(),
    ensures
        posting_rows(executor, column_needs(query)).len() == executor.balances.len(),
        query.reads("balance"@) ==> posting_rows(executor, column_needs(query))[row][27]
            == ValueView::Inventory(executor.balances[row].balance),
        query.reads("account_balance"@) ==> posting_rows(executor, column_needs(query))[row][28]
            == ValueView::Inventory(executor.balances[row].account_balance),
{
    let needs = column_needs(query);
    let n = executor.directives.len();
    lemma_context_balances(executor, n, needs.balance, needs.account_balance);
    assert(executor.directives.take(n as int) == executor.directives);
    let ctx = executor.contexts(n, needs.balance, needs.account_balance)[row];
    lemma_row_width(executor, needs, ctx);
    assert(posting_rows(executor, needs)[row] == posting_row(executor, needs, ctx));
}

/// What `#postings` says of the transaction of a posting is what `#entries` says in the row of
/// that directive: kind, number, date, flag, payee, narration, tags, links, accounts, metadata.
pub proof fn law_postings_agree_with_entries(executor: ExecutorView, row: int)
    requires
        0 <= row < posting_rows(executor, all_needs()).len(),
    ensures
        ({
            let ctx = executor.contexts(executor.directives.len(), true, true)[row];
            let posting = posting_rows(executor, all_needs())[row];
            let entry = entries_table(executor).rows[ctx.directive_index->0 as int];
            &&& posting[0] == entry[1]
            &&& posting[1] == entry[0]
            &&& posting[2] == entry[4]
            &&& posting[9] == entry[5]
            &&& posting[10] == entry[6]
            &&& posting[11] == entry[7]
            &&& posting[13] == entry[8]
            &&& posting[14] == entry[9]
            &&& posting[30] == entry[10]
            &&& posting[32] == entry[11]
        }),
{
    lemma_contexts_valid(executor, executor.directives.len(), true, true);
    let ctx = executor.contexts(executor.directives.len(), true, true)[row];
    assert(is_scanned(executor, ctx));
    lemma_entry_cells(executor, all_needs(), ctx, 0);
    lemma_parent_cells(executor, all_needs(), ctx, 0);
    lemma_own_cells(executor, all_needs(), ctx, 0);
    lemma_collection_cells(executor, all_needs(), ctx, 0);
    assert(posting_rows(executor, all_needs())[row] == posting_row(executor, all_needs(), ctx));
}

/// The `meta` column holds under every key what the function `META` finds under it.
pub proof fn law_meta_column_is_what_meta_finds(
    executor: ExecutorView,
    needs: ColumnNeeds,
    ctx: ContextView,
    key: Seq<char>,
)
    requires
        needs.meta,
    ensures
        posting_row(executor, needs, ctx)[29] is Metadata,
        meta_entry(posting_row(executor, needs, ctx)[29]->Metadata_0, key) == meta_found(
            executor,
            "META"@,
            ctx,
            key,
        ),
{
    lemma_row_width(executor, needs, ctx);
    let raw = ctx.posting().meta;
    let loc = executor.posting_location(ctx);
    assert(posting_row(executor, needs, ctx)[29] == ValueView::Metadata(augmented(raw, loc)));
    assert(looked_up(raw, loc, key) == meta_entry(augmented(raw, loc), key));
}

proof fn lemma_row_width(executor: ExecutorView, needs: ColumnNeeds, ctx: ContextView)
    ensures
        entry_cells(executor, needs, ctx).len() == 9,
        parent_cells(needs, ctx.transaction).len() == 6,
        own_cells(needs, ctx).len() == 12,
        collection_cells(executor, needs, ctx).len() == 7,
{
}

/// The accounts of a transaction are in ascending order, so that none occurs twice, and they
/// are those of its postings.
pub proof fn law_account_set(txn: TransactionView)
    ensures
        names_ascend(account_set(txn)),
        forall|account: Seq<char>| #[trigger]
            account_set(txn).contains(account) == posting_accounts(txn.postings).contains(account),
{
    law_name_set(posting_accounts(txn.postings));
}

/// The accounts of a transaction do not depend on the order of its postings, nor on how often
/// an account occurs.
pub proof fn law_account_set_is_a_set(a: TransactionView, b: TransactionView)
    requires
        forall|account: Seq<char>| #[trigger]
            posting_accounts(a.postings).contains(account) == posting_accounts(
                b.postings,
            ).contains(account),
    ensures
        account_set(a) == account_set(b),
{
    law_account_set(a);
    law_account_set(b);
    assert forall|account: Seq<char>| #[trigger]
        account_set(a).contains(account) == account_set(b).contains(account) by {
        assert(posting_accounts(a.postings).contains(account) == posting_accounts(
            b.postings,
        ).contains(account));
    }
    lemma_ascending_names_unique(account_set(a), account_set(b));
}

/// The other accounts of a posting are those of its transaction but for its own, in ascending
/// order.
pub proof fn law_other_accounts(ctx: ContextView)
    ensures
        names_ascend(other_accounts(ctx)),
        forall|account: Seq<char>| #[trigger]
            other_accounts(ctx).contains(account) == (account != ctx.posting().account
                && posting_accounts(ctx.transaction.postings).contains(account)),
{
    let all = account_set(ctx.transaction);
    let own = ctx.posting().account;
    law_account_set(ctx.transaction);
    lemma_names_without(all, own);
    assert forall|account: Seq<char>| #[trigger]
        other_accounts(ctx).contains(account) == (account != own && posting_accounts(
            ctx.transaction.postings,
        ).contains(account)) by {
        assert(all.contains(account) == posting_accounts(ctx.transaction.postings).contains(account));
    }
}

proof fn lemma_names_without(names: Seq<Seq<char>>, own: Seq<char>)
    requires
        names_ascend(names),
    ensures
        names_ascend(names_without(names, own)),
        forall|n: Seq<char>| #[trigger]
            names_without(names, own).contains(n) == (n != own && names.contains(n)),
    decreases names.len(),
{
    reveal(Seq::filter);
    let kept = names_without(names, own);
    if names.len() > 0 {
        let fewer = names.drop_last();
        let before = names_without(fewer, own);
        lemma_names_without(fewer, own);
        let last = names[names.len() - 1];
        assert forall|n: Seq<char>| #[trigger] kept.contains(n) == (n != own && names.contains(n)) by {
            assert(before.contains(n) == (n != own && fewer.contains(n)));
            if fewer.contains(n) {
                let k = choose|k: int| 0 <= k < fewer.len() && fewer[k] == n;
                assert(names[k] == n);
            }
            if names.contains(n) {
                let k = choose|k: int| 0 <= k < names.len() && names[k] == n;
                if k < fewer.len() {
                    assert(fewer[k] == n);
                }
            }
            if before.contains(n) {
                let k = choose|k: int| 0 <= k < before.len() && before[k] == n;
                assert(kept[k] == n);
            }
            if last != own {
                assert(kept[before.len() as int] == last);
            }
            if kept.contains(n) {
                let k = choose|k: int| 0 <= k < kept.len() && kept[k] == n;
                if k < before.len() {
                    assert(before[k] == n);
                } else {
                    assert(n == last);
                }
            }
        }
        assert forall|i: int, j: int| 0 <= i < j < kept.len() implies text_lt(
            #[trigger] kept[i],
            #[trigger] kept[j],
        ) by {
            assert(kept[i] == before[i]);
            if j < before.len() {
                assert(kept[j] == before[j]);
            } else {
                assert(before.contains(before[i]));
                let k = choose|k: int| 0 <= k < fewer.len() && fewer[k] == before[i];
                assert(text_lt(names[k], last));
            }
        }
    }
}

} // verus!
