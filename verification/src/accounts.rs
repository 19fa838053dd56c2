//! The built-in table of accounts, `#accounts`.
use crate::date::{DateView, NaiveDate};
use crate::executor::{Executor, ExecutorView};
use crate::keys::{name_at_most, NameKey};
use crate::ledger::{Close, CloseView, Directive, DirectiveView, Open, OpenView};
use crate::names::{law_name_set, lemma_ascending_names_unique, name_set};
use crate::sorting::{belongs_before, key_order, places, stable_order};
use crate::system_tables::{text_cell, text_value};
use crate::tables::{empty_table, picked};
use crate::text::text_lt;
use crate::value::{Table, TableView, Value, ValueView};
use crate::views::{duplicate_option, duplicate_vec, option_view, seq_view};
use rustc_hash::FxHashMap;
use vstd::prelude::*;

verus! {

/// `rustc_hash::FxBuildHasher`, by which an `FxHashMap` hashes its keys.
#[verifier::external_type_specification]
#[verifier::external_body]
pub struct ExFxBuildHasher(rustc_hash::FxBuildHasher);

/// What an `FxHashMap` holds: a slot under each of its names.
pub uninterp spec fn slots_of(map: FxHashMap<String, usize>) -> Map<Seq<char>, usize>;

/// No slots.
pub open spec fn no_slots() -> Map<Seq<char>, usize> {
    Map::empty()
}

/// `FxHashMap::default`: a map without entries.
#[verifier::external_body]
fn new_slots() -> (map: FxHashMap<String, usize>)
    ensures
        slots_of(map) == no_slots(),
{
    FxHashMap::default()
}

/// What a map has under a key.
pub open spec fn slot_under(slots: Map<Seq<char>, usize>, name: Seq<char>) -> Option<usize> {
    if slots.contains_key(name) {
        Some(slots[name])
    } else {
        None
    }
}

/// `FxHashMap::get`: what stands under the name.
#[verifier::external_body]
fn find_slot(map: &FxHashMap<String, usize>, name: &str) -> (slot: Option<usize>)
    ensures
        slot == slot_under(slots_of(*map), name@),
{
    map.get(name).copied()
}

/// `FxHashMap::insert`: puts a slot under the name, in place of what stood there.
#[verifier::external_body]
fn put_slot(map: &mut FxHashMap<String, usize>, name: String, slot: usize)
    ensures
        slots_of(*final(map)) == slots_of(*old(map)).insert(name@, slot),
{
    map.insert(name, slot);
}

/// What is known of an account.
pub struct AccountFacts {
    pub open: Option<DateView>,
    pub close: Option<DateView>,
    pub currencies: Seq<Seq<char>>,
    pub booking: Option<Seq<char>>,
}

/// What is known of an account that nothing was said of yet.
pub open spec fn no_facts() -> AccountFacts {
    AccountFacts { open: None, close: None, currencies: Seq::empty(), booking: None }
}

/// What `facts` say of an account.
pub open spec fn facts_of(facts: Map<Seq<char>, AccountFacts>, account: Seq<char>) -> AccountFacts {
    if facts.contains_key(account) {
        facts[account]
    } else {
        no_facts()
    }
}

/// What is known once an account was opened: the date, the currencies and the booking method
/// are those of this opening.
pub open spec fn after_open(facts: AccountFacts, open: OpenView) -> AccountFacts {
    AccountFacts {
        open: Some(open.date),
        close: facts.close,
        currencies: open.currencies,
        booking: open.booking,
    }
}

/// What is known once an account was closed.
pub open spec fn after_close(facts: AccountFacts, close: CloseView) -> AccountFacts {
    AccountFacts { close: Some(close.date), ..facts }
}

/// What the directives say of the accounts that they open or close. Of several openings of an
/// account the last counts, and of several closings.
pub open spec fn account_facts(directives: Seq<DirectiveView>) -> Map<Seq<char>, AccountFacts>
    decreases directives.len(),
{
    if directives.len() == 0 {
        Map::empty()
    } else {
        let before = account_facts(directives.drop_last());
        match directives.last() {
            DirectiveView::Open(open) => before.insert(
                open.account,
                after_open(facts_of(before, open.account), open),
            ),
            DirectiveView::Close(close) => before.insert(
                close.account,
                after_close(facts_of(before, close.account), close),
            ),
            _ => before,
        }
    }
}

/// The account that a directive opens or closes.
pub open spec fn account_named() -> spec_fn(DirectiveView) -> Option<Seq<char>> {
    |d: DirectiveView|
        match d {
            DirectiveView::Open(open) => Some(open.account),
            DirectiveView::Close(close) => Some(close.account),
            _ => None,
        }
}

/// A date, or `NULL` where there is none.
pub open spec fn date_cell(date: Option<DateView>) -> ValueView {
    match date {
        Some(d) => ValueView::Date(d),
        None => ValueView::Null,
    }
}

/// The row of an account: its name, the dates on which it was opened and closed, its currencies
/// and its booking method.
pub open spec fn account_row(account: Seq<char>, facts: AccountFacts) -> Seq<ValueView> {
    seq![
        ValueView::String(account),
        date_cell(facts.open),
        date_cell(facts.close),
        ValueView::StringSet(facts.currencies),
        text_cell(facts.booking),
    ]
}

/// The `#accounts` table: a row for each account that is opened or closed, by name. Dates and
/// booking method are `NULL` where there is none.
pub open spec fn accounts_table(executor: ExecutorView) -> TableView {
    let facts = account_facts(executor.directives);
    TableView {
        columns: seq!["account"@, "open"@, "close"@, "currencies"@, "booking"@],
        rows: name_set(picked(executor.directives, account_named())).map_values(
            |account: Seq<char>| account_row(account, facts[account]),
        ),
    }
}

/// Facts are known of the accounts that are opened or closed, and of no others.
pub proof fn lemma_facts_of_named(directives: Seq<DirectiveView>)
    ensures
        forall|account: Seq<char>| #[trigger]
            account_facts(directives).contains_key(account) == picked(
                directives,
                account_named(),
            ).contains(account),
    decreases directives.len(),
{
    if directives.len() > 0 {
        let fewer = directives.drop_last();
        lemma_facts_of_named(fewer);
        let before = picked(fewer, account_named());
        assert forall|account: Seq<char>| #[trigger]
            account_facts(directives).contains_key(account) == picked(
                directives,
                account_named(),
            ).contains(account) by {
            assert(account_facts(fewer).contains_key(account) == before.contains(account));
            match account_named()(directives.last()) {
                Some(named) => {
                    let after = before.push(named);
                    assert(after.last() == named);
                    if before.contains(account) {
                        let i = choose|i: int| 0 <= i < before.len() && before[i] == account;
                        assert(after[i] == account);
                    }
                    assert(after.contains(account) == (before.contains(account) || account
                        == named));
                },
                None => {},
            }
        }
    }
}

struct AccountRecord {
    account: String,
    open: Option<NaiveDate>,
    close: Option<NaiveDate>,
    currencies: Vec<String>,
    booking: Option<String>,
}

impl AccountRecord {
    spec fn facts(self) -> AccountFacts {
        AccountFacts {
            open: option_view(self.open),
            close: option_view(self.close),
            currencies: seq_view(self.currencies@),
            booking: option_view(self.booking),
        }
    }
}

/// Whether the records are those of the accounts that facts are known of, each in its slot.
spec fn records_match(
    records: Seq<AccountRecord>,
    slots: Map<Seq<char>, usize>,
    facts: Map<Seq<char>, AccountFacts>,
) -> bool {
    &&& forall|account: Seq<char>| #[trigger] slots.contains_key(account) == facts.contains_key(account)
    &&& forall|account: Seq<char>| #[trigger]
        slots.contains_key(account) ==> {
            &&& slots[account] < records.len()
            &&& records[slots[account] as int].account@ == account
            &&& records[slots[account] as int].facts() == facts[account]
        }
    &&& forall|i: int|
        0 <= i < records.len() ==> slots.contains_key(#[trigger] records[i].account@)
            && slots[records[i].account@] == i
}

/// The records of accounts, and the slot of each.
struct AccountBook {
    records: Vec<AccountRecord>,
    slots: FxHashMap<String, usize>,
}

impl AccountBook {
    spec fn holds(self, facts: Map<Seq<char>, AccountFacts>) -> bool {
        records_match(self.records@, slots_of(self.slots), facts)
    }

    fn new() -> (book: AccountBook)
        ensures
            book.holds(Map::empty()),
    {
        AccountBook { records: Vec::new(), slots: new_slots() }
    }

    /// The slot of an account, which gets an empty record where it has none.
    fn slot(&mut self, account: &str, Ghost(facts): Ghost<Map<Seq<char>, AccountFacts>>) -> (slot:
        usize)
        requires
            old(self).holds(facts),
        ensures
            final(self).holds(facts.insert(account@, facts_of(facts, account@))),
            slot < final(self).records@.len(),
            slots_of(final(self).slots).contains_key(account@),
            slots_of(final(self).slots)[account@] == slot,
    {
        match find_slot(&self.slots, account) {
            Some(slot) => {
                assert(facts.insert(account@, facts_of(facts, account@)) =~= facts);
                slot
            },
            None => {
                let slot = self.records.len();
                let ghost before = self.records@;
                let ghost slots = slots_of(self.slots);
                let record = AccountRecord {
                    account: account.to_owned(),
                    open: None,
                    close: None,
                    currencies: Vec::new(),
                    booking: None,
                };
                assert(record.facts().currencies =~= Seq::empty());
                self.records.push(record);
                put_slot(&mut self.slots, account.to_owned(), slot);
                proof {
                    let after = self.records@;
                    let now = slots_of(self.slots);
                    let known = facts.insert(account@, facts_of(facts, account@));
                    assert(after[slot as int] == record);
                    assert forall|name: Seq<char>| #[trigger] now.contains_key(name) implies {
                        &&& now[name] < after.len()
                        &&& after[now[name] as int].account@ == name
                        &&& after[now[name] as int].facts() == known[name]
                    } by {
                        if name != account@ {
                            assert(slots.contains_key(name));
                            assert(after[now[name] as int] == before[slots[name] as int]);
                        }
                    }
                    assert forall|i: int| 0 <= i < after.len() implies now.contains_key(
                        #[trigger] after[i].account@,
                    ) && now[after[i].account@] == i by {
                        if i < before.len() {
                            assert(after[i] == before[i]);
                            assert(slots.contains_key(before[i].account@));
                        }
                    }
                }
                slot
            },
        }
    }
}

/// One record changed for the better keeps the book in step.
proof fn lemma_record_changed(
    before: Seq<AccountRecord>,
    slots: Map<Seq<char>, usize>,
    facts: Map<Seq<char>, AccountFacts>,
    slot: int,
    record: AccountRecord,
)
    requires
        records_match(before, slots, facts),
        0 <= slot < before.len(),
        record.account@ == before[slot].account@,
    ensures
        records_match(
            before.update(slot, record),
            slots,
            facts.insert(record.account@, record.facts()),
        ),
{
    let after = before.update(slot, record);
    let known = facts.insert(record.account@, record.facts());
    assert(slots.contains_key(before[slot].account@));
    assert forall|name: Seq<char>| #[trigger] slots.contains_key(name) implies {
        &&& slots[name] < after.len()
        &&& after[slots[name] as int].account@ == name
        &&& after[slots[name] as int].facts() == known[name]
    } by {
        if name != record.account@ {
            assert(slots[name] != slot);
        }
    }
    assert forall|i: int| 0 <= i < after.len() implies slots.contains_key(
        #[trigger] after[i].account@,
    ) && slots[after[i].account@] == i by {
        if i != slot {
            assert(after[i] == before[i]);
            assert(slots.contains_key(before[i].account@));
        }
    }
}

impl AccountBook {
    fn note_open(
        &mut self,
        open: &Open,
        Ghost(facts): Ghost<Map<Seq<char>, AccountFacts>>,
    )
        requires
            old(self).holds(facts),
        ensures
            final(self).holds(
                facts.insert(open@.account, after_open(facts_of(facts, open@.account), open@)),
            ),
    {
        let slot = self.slot(open.account.as_str(), Ghost(facts));
        let ghost known = facts.insert(open@.account, facts_of(facts, open@.account));
        let ghost before = self.records@;
        let record = &mut self.records[slot];
        record.open = Some(open.date);
        record.currencies = duplicate_vec(&open.currencies);
        record.booking = duplicate_option(&open.booking);
        proof {
            let now = self.records@[slot as int];
            assert(self.records@ == before.update(slot as int, now));
            lemma_record_changed(before, slots_of(self.slots), known, slot as int, now);
            assert(known.insert(now.account@, now.facts()) =~= facts.insert(
                open@.account,
                after_open(facts_of(facts, open@.account), open@),
            ));
        }
    }

    fn note_close(
        &mut self,
        close: &Close,
        Ghost(facts): Ghost<Map<Seq<char>, AccountFacts>>,
    )
        requires
            old(self).holds(facts),
        ensures
            final(self).holds(
                facts.insert(close@.account, after_close(facts_of(facts, close@.account), close@)),
            ),
    {
        let slot = self.slot(close.account.as_str(), Ghost(facts));
        let ghost known = facts.insert(close@.account, facts_of(facts, close@.account));
        let ghost before = self.records@;
        let record = &mut self.records[slot];
        record.close = Some(close.date);
        proof {
            let now = self.records@[slot as int];
            assert(self.records@ == before.update(slot as int, now));
            lemma_record_changed(before, slots_of(self.slots), known, slot as int, now);
            assert(known.insert(now.account@, now.facts()) =~= facts.insert(
                close@.account,
                after_close(facts_of(facts, close@.account), close@),
            ));
        }
    }
}

/// A date, or `NULL` where there is none.
pub fn date_value(date: Option<NaiveDate>) -> (value: Value)
    ensures
        value@ == date_cell(option_view(date)),
{
    match date {
        Some(d) => Value::Date(d),
        None => Value::Null,
    }
}

/// The names of the records in the order of their names are the set of these names.
proof fn lemma_sorted_records(
    records: Seq<AccountRecord>,
    slots: Map<Seq<char>, usize>,
    directives: Seq<DirectiveView>,
    order: Seq<int>,
)
    requires
        records_match(records, slots, account_facts(directives)),
        order.len() == records.len(),
        forall|i: int| 0 <= i < order.len() ==> 0 <= #[trigger] order[i] < records.len(),
        forall|p: int| 0 <= p < records.len() ==> #[trigger] order.contains(p),
        forall|i: int, j: int|
            0 <= i < j < order.len() ==> order[i] != order[j] && name_at_most(
                records[#[trigger] order[i]].account@,
                records[#[trigger] order[j]].account@,
            ),
    ensures
        Seq::new(order.len(), |i: int| records[order[i]].account@) == name_set(
            picked(directives, account_named()),
        ),
{
    let named = picked(directives, account_named());
    let sorted = Seq::new(order.len(), |i: int| records[order[i]].account@);
    law_name_set(named);
    lemma_facts_of_named(directives);
    assert forall|i: int, j: int| 0 <= i < j < sorted.len() implies text_lt(
        #[trigger] sorted[i],
        #[trigger] sorted[j],
    ) by {
        let p = order[i];
        let q = order[j];
        assert(p != q && name_at_most(records[p].account@, records[q].account@));
        assert(slots[records[p].account@] == p && slots[records[q].account@] == q);
    }
    assert forall|n: Seq<char>| #[trigger] sorted.contains(n) == name_set(named).contains(n) by {
        assert(slots.contains_key(n) == account_facts(directives).contains_key(n));
        if sorted.contains(n) {
            let i = choose|i: int| 0 <= i < sorted.len() && sorted[i] == n;
            assert(slots.contains_key(records[order[i]].account@));
        }
        if slots.contains_key(n) {
            let p = slots[n] as int;
            assert(order.contains(p));
            let i = choose|i: int| 0 <= i < order.len() && order[i] == p;
            assert(sorted[i] == n);
        }
    }
    lemma_ascending_names_unique(sorted, name_set(named));
}

impl Executor {
    /// The `#accounts` table: a row for each account that is opened or closed, by name. Dates
    /// and booking method are `NULL` where there is none.
    pub fn build_accounts_table(&self) -> (table: Table)
        ensures
            table@ == accounts_table(self@),
    {
        let ghost directives = self@.directives;
        let mut book = AccountBook::new();
        let mut i: usize = 0;
        assert(account_facts(directives.take(0)) == Map::<Seq<char>, AccountFacts>::empty());
        while i < self.directives.len()
            invariant
                i <= self.directives.len(),
                directives == self@.directives,
                book.holds(account_facts(directives.take(i as int))),
            decreases self.directives.len() - i,
        {
            let ghost facts = account_facts(directives.take(i as int));
            proof {
                assert(directives[i as int] == self.directives@[i as int]@);
                assert(directives.take(i + 1).drop_last() == directives.take(i as int));
                assert(directives.take(i + 1).last() == directives[i as int]);
            }
            match &self.directives[i] {
                Directive::Open(open) => {
                    book.note_open(open, Ghost(facts));
                },
                Directive::Close(close) => {
                    book.note_close(close, Ghost(facts));
                },
                _ => {},
            }
            i = i + 1;
        }
        assert(directives.take(i as int) == directives);
        let ghost facts = account_facts(directives);
        let records = book.records;
        let ghost slots = slots_of(book.slots);
        let mut keys: Vec<NameKey<'_>> = Vec::new();
        let mut k: usize = 0;
        while k < records.len()
            invariant
                k <= records.len(),
                keys.len() == k,
                forall|p: int| 0 <= p < k ==> #[trigger] keys@[p].name@ == records@[p].account@,
            decreases records.len() - k,
        {
            let ghost before = keys@;
            keys.push(NameKey { name: records[k].account.as_str() });
            assert forall|p: int| 0 <= p < k + 1 implies #[trigger] keys@[p].name@
                == records@[p].account@ by {
                if p < k {
                    assert(before[p].name@ == records@[p].account@);
                }
            }
            k = k + 1;
        }
        let order = stable_order(&keys);
        let ghost named = places(order@);
        let ghost accounts = Seq::new(named.len(), |i: int| records@[named[i]].account@);
        proof {
            assert forall|i: int, j: int| 0 <= i < j < named.len() implies named[i] != named[j]
                && name_at_most(
                records@[#[trigger] named[i]].account@,
                records@[#[trigger] named[j]].account@,
            ) by {
                assert(belongs_before(keys@, key_order(), named[i], named[j]));
                assert(0 <= named[i] < keys@.len() && 0 <= named[j] < keys@.len());
                assert(keys@[named[i]].name@ == records@[named[i]].account@);
                assert(keys@[named[j]].name@ == records@[named[j]].account@);
            }
            lemma_sorted_records(records@, slots, directives, named);
        }
        let mut table = empty_table(vec!["account", "open", "close", "currencies", "booking"]);
        assert(table@.columns =~= accounts_table(self@).columns);
        let ghost rows = accounts_table(self@).rows;
        let mut j: usize = 0;
        while j < order.len()
            invariant
                j <= order.len(),
                named == places(order@),
                accounts == Seq::new(named.len(), |i: int| records@[named[i]].account@),
                forall|i: int| 0 <= i < named.len() ==> 0 <= #[trigger] named[i] < records@.len(),
                records_match(records@, slots, facts),
                rows == accounts.map_values(
                    |account: Seq<char>| account_row(account, facts[account]),
                ),
                table@.columns == accounts_table(self@).columns,
                table@.rows == rows.take(j as int),
            decreases order.len() - j,
        {
            assert(0 <= named[j as int] < records@.len());
            let record = &records[order[j]];
            let cells = vec![
                Value::String(record.account.clone()),
                date_value(record.open),
                date_value(record.close),
                Value::StringSet(duplicate_vec(&record.currencies)),
                text_value(&record.booking),
            ];
            proof {
                assert(records@[named[j as int]] == record);
                assert(slots.contains_key(record.account@));
                assert(record.facts() == facts[record.account@]);
                assert(seq_view(cells@) =~= account_row(record.account@, record.facts()));
                assert(rows[j as int] == seq_view(cells@));
                assert(rows.take(j + 1) == rows.take(j as int).push(rows[j as int]));
            }
            table.add_row(cells);
            j = j + 1;
        }
        assert(rows.take(j as int) == rows);
        table
    }
}

} // verus!
