//! What the `#entries` table shows of each directive, cell by cell.
use crate::date::DateView;
use crate::entries::entries_table;
use crate::executor::ExecutorView;
use crate::ledger::DirectiveView;
use crate::listing_laws::{lemma_accounts_shown, shows_accounts};
use crate::metadata::MetaValueView;
use crate::posting_cell_laws::directive_place;
use crate::value::ValueView;
use vstd::prelude::*;

verus! {

/// Whether a row shows name, date and metadata of a directive of one kind.
pub open spec fn shows_head(
    row: Seq<ValueView>,
    name: Seq<char>,
    date: DateView,
    meta: Map<Seq<char>, MetaValueView>,
) -> bool {
    row[1] == ValueView::String(name) && row[4] == ValueView::Date(date) && row[11]
        == ValueView::Metadata(meta)
}

/// There is one row of twelve cells for each directive, in the order of the ledger: the number
/// of the directive, the name of its kind, its place, its date and its metadata.
pub proof fn law_entry_cells(executor: ExecutorView, i: int)
    requires
        0 <= i < executor.directives.len(),
    ensures
        entries_table(executor).columns == seq![
            "id"@,
            "type"@,
            "filename"@,
            "lineno"@,
            "date"@,
            "flag"@,
            "payee"@,
            "narration"@,
            "tags"@,
            "links"@,
            "accounts"@,
            "_entry_meta"@,
        ],
        entries_table(executor).rows.len() == executor.directives.len(),
        ({
            let row = entries_table(executor).rows[i];
            &&& row.len() == 12
            &&& row[0] == ValueView::Integer(i as i64)
            &&& match directive_place(executor, i) {
                Some(l) => row[2] == ValueView::String(l.filename) && row[3] == ValueView::Integer(
                    if l.lineno <= i64::MAX {
                        l.lineno as i64
                    } else {
                        i64::MAX
                    },
                ),
                None => row[2] is Null && row[3] is Null,
            }
            &&& match executor.directives[i] {
                DirectiveView::Transaction(x) => shows_head(row, "transaction"@, x.date, x.meta),
                DirectiveView::Balance(x) => shows_head(row, "balance"@, x.date, x.meta),
                DirectiveView::Open(x) => shows_head(row, "open"@, x.date, x.meta),
                DirectiveView::Close(x) => shows_head(row, "close"@, x.date, x.meta),
                DirectiveView::Commodity(x) => shows_head(row, "commodity"@, x.date, x.meta),
                DirectiveView::Pad(x) => shows_head(row, "pad"@, x.date, x.meta),
                DirectiveView::Event(x) => shows_head(row, "event"@, x.date, x.meta),
                DirectiveView::Query(x) => shows_head(row, "query"@, x.date, x.meta),
                DirectiveView::Note(x) => shows_head(row, "note"@, x.date, x.meta),
                DirectiveView::Document(x) => shows_head(row, "document"@, x.date, x.meta),
                DirectiveView::Price(x) => shows_head(row, "price"@, x.date, x.meta),
                DirectiveView::Custom(x) => shows_head(row, "custom"@, x.date, x.meta),
            }
        }),
{
}

/// A transaction shows its flag, its payee or `NULL`, its narration, tags and links, and the
/// accounts of its postings, ascending and each once; other directives show `NULL` and empty
/// sets there.
pub proof fn law_entry_transaction_cells(executor: ExecutorView, i: int)
    requires
        0 <= i < executor.directives.len(),
    ensures
        ({
            let row = entries_table(executor).rows[i];
            match executor.directives[i] {
                DirectiveView::Transaction(txn) => {
                    &&& row[5] == ValueView::String(seq![txn.flag])
                    &&& row[6] == match txn.payee {
                        Some(payee) => ValueView::String(payee),
                        None => ValueView::Null,
                    }
                    &&& row[7] == ValueView::String(txn.narration)
                    &&& row[8] == ValueView::StringSet(txn.tags)
                    &&& row[9] == ValueView::StringSet(txn.links)
                    &&& shows_accounts(row[10], txn)
                },
                _ => {
                    &&& row[5] is Null
                    &&& row[6] is Null
                    &&& row[7] is Null
                    &&& row[8] == ValueView::StringSet(Seq::empty())
                    &&& row[9] == ValueView::StringSet(Seq::empty())
                    &&& row[10] == ValueView::StringSet(Seq::empty())
                },
            }
        }),
{
    if let DirectiveView::Transaction(txn) = executor.directives[i] {
        lemma_accounts_shown(txn);
    }
}

} // verus!
