use rustledger_query::date::NaiveDate;
use rustledger_query::executor::{Executor, PriceEntry};
use rustledger_query::holdings::Amount;
use rustledger_query::ledger::{
    Balance, Close, Commodity, Directive, Document, Event, Note, Open, Plain, Posting,
    SourceLocation, Transaction,
};
use rustledger_query::metadata::{MetaValue, Metadata};
use rustledger_query::number::Number;
use rustledger_query::value::{Table, Value};

fn day(d: u8) -> NaiveDate {
    NaiveDate::new(2024, 3, d).unwrap()
}

fn cash(n: i64) -> Amount {
    Amount { number: Number::from_i64(n), currency: "USD".to_string() }
}

fn strings(texts: &[&str]) -> Vec<String> {
    texts.iter().map(|t| t.to_string()).collect()
}

fn cell(s: &str) -> Value {
    Value::String(s.to_string())
}

fn set(texts: &[&str]) -> Value {
    Value::StringSet(strings(texts))
}

fn over(directives: Vec<Directive>) -> Executor {
    Executor { directives, locations: vec![], prices: vec![], balances: vec![] }
}

fn balance(d: u8, account: &str, n: i64) -> Directive {
    Directive::Balance(Balance {
        date: day(d),
        account: account.to_string(),
        amount: cash(n),
        meta: Metadata::new(),
    })
}

fn open(d: u8, account: &str, currencies: &[&str], booking: Option<&str>) -> Directive {
    Directive::Open(Open {
        date: day(d),
        account: account.to_string(),
        currencies: strings(currencies),
        booking: booking.map(|b| b.to_string()),
        meta: Metadata::new(),
    })
}

fn close(d: u8, account: &str) -> Directive {
    Directive::Close(Close { date: day(d), account: account.to_string(), meta: Metadata::new() })
}

fn note(d: u8, account: &str, comment: &str) -> Directive {
    Directive::Note(Note {
        date: day(d),
        account: account.to_string(),
        comment: comment.to_string(),
        meta: Metadata::new(),
    })
}

fn leg(account: &str) -> Posting {
    Posting {
        account: account.to_string(),
        flag: None,
        units: None,
        price: None,
        weight: None,
        meta: Metadata::new(),
        location: None,
    }
}

fn transaction(d: u8, payee: Option<&str>, narration: &str, accounts: &[&str]) -> Directive {
    Directive::Transaction(Transaction {
        date: day(d),
        flag: '!',
        payee: payee.map(|p| p.to_string()),
        narration: narration.to_string(),
        tags: strings(&["trip"]),
        links: strings(&["l1", "l2"]),
        meta: Metadata::new(),
        postings: accounts.iter().map(|a| leg(a)).collect(),
    })
}

fn rectangular(table: &Table) -> bool {
    table.rows.iter().all(|row| row.len() == table.columns.len())
}

#[test]
fn prices_are_sorted_and_explicit() {
    let price = |d: u8, base: &str, n: i64, explicit: bool| PriceEntry {
        base: base.to_string(),
        date: day(d),
        number: Number::from_i64(n),
        quote: "USD".to_string(),
        explicit,
    };
    let mut e = over(vec![balance(1, "Assets:Cash", 1)]);
    e.prices = vec![
        price(2, "GOOG", 5, true),
        price(2, "AAPL", 6, true),
        price(1, "ZZZ", 7, true),
        price(1, "AAA", 8, false),
        price(2, "GOOG", 4, true),
    ];
    let table = e.build_prices_table();
    assert_eq!(table.columns, strings(&["date", "currency", "amount"]));
    assert_eq!(
        table.rows,
        vec![
            vec![Value::Date(day(1)), cell("ZZZ"), Value::Amount(cash(7))],
            vec![Value::Date(day(2)), cell("AAPL"), Value::Amount(cash(6))],
            vec![Value::Date(day(2)), cell("GOOG"), Value::Amount(cash(5))],
            vec![Value::Date(day(2)), cell("GOOG"), Value::Amount(cash(4))],
        ]
    );
}

#[test]
fn balances_by_date_and_account() {
    let e = over(vec![
        balance(5, "Assets:B", 1),
        note(1, "Assets:A", "n"),
        balance(5, "Assets:A", 2),
        balance(4, "Assets:C", 3),
        balance(5, "Assets:A", 1),
    ]);
    let table = e.build_balances_table();
    assert_eq!(table.columns, strings(&["date", "account", "amount"]));
    assert_eq!(
        table.rows,
        vec![
            vec![Value::Date(day(4)), cell("Assets:C"), Value::Amount(cash(3))],
            vec![Value::Date(day(5)), cell("Assets:A"), Value::Amount(cash(2))],
            vec![Value::Date(day(5)), cell("Assets:A"), Value::Amount(cash(1))],
            vec![Value::Date(day(5)), cell("Assets:B"), Value::Amount(cash(1))],
        ]
    );
}

#[test]
fn commodities_by_date_and_name() {
    let commodity = |d: u8, currency: &str| {
        Directive::Commodity(Commodity {
            date: day(d),
            currency: currency.to_string(),
            meta: Metadata::new(),
        })
    };
    let table =
        over(vec![commodity(2, "B"), commodity(2, "AB"), commodity(1, "C")]).build_commodities_table();
    assert_eq!(table.columns, strings(&["date", "name"]));
    assert_eq!(
        table.rows,
        vec![
            vec![Value::Date(day(1)), cell("C")],
            vec![Value::Date(day(2)), cell("AB")],
            vec![Value::Date(day(2)), cell("B")],
        ]
    );
}

#[test]
fn events_by_date_and_type() {
    let event = |d: u8, kind: &str, value: &str| {
        Directive::Event(Event {
            date: day(d),
            event_type: kind.to_string(),
            value: value.to_string(),
            meta: Metadata::new(),
        })
    };
    let table = over(vec![
        event(1, "location", "Rome"),
        event(1, "employer", "Y"),
        event(1, "location", "Bern"),
    ])
    .build_events_table();
    assert_eq!(table.columns, strings(&["date", "type", "description"]));
    assert_eq!(
        table.rows,
        vec![
            vec![Value::Date(day(1)), cell("employer"), cell("Y")],
            vec![Value::Date(day(1)), cell("location"), cell("Rome")],
            vec![Value::Date(day(1)), cell("location"), cell("Bern")],
        ]
    );
}

#[test]
fn notes_by_date_and_account() {
    let table = over(vec![note(2, "A", "x"), note(1, "B", "y"), note(1, "A", "z")]).build_notes_table();
    assert_eq!(table.columns, strings(&["date", "account", "comment"]));
    assert_eq!(
        table.rows,
        vec![
            vec![Value::Date(day(1)), cell("A"), cell("z")],
            vec![Value::Date(day(1)), cell("B"), cell("y")],
            vec![Value::Date(day(2)), cell("A"), cell("x")],
        ]
    );
}

#[test]
fn documents_by_date_account_and_file_name() {
    let document = |account: &str, path: &str, tags: &[&str]| {
        Directive::Document(Document {
            date: day(1),
            account: account.to_string(),
            path: path.to_string(),
            tags: strings(tags),
            links: vec![],
            meta: Metadata::new(),
        })
    };
    let table = over(vec![
        document("B", "1.pdf", &[]),
        document("A", "b.pdf", &["t2", "t1"]),
        document("A", "a.pdf", &[]),
    ])
    .build_documents_table();
    assert_eq!(table.columns, strings(&["date", "account", "filename", "tags", "links"]));
    assert_eq!(
        table.rows,
        vec![
            vec![Value::Date(day(1)), cell("A"), cell("a.pdf"), set(&[]), set(&[])],
            vec![Value::Date(day(1)), cell("A"), cell("b.pdf"), set(&["t2", "t1"]), set(&[])],
            vec![Value::Date(day(1)), cell("B"), cell("1.pdf"), set(&[]), set(&[])],
        ]
    );
}

#[test]
fn accounts_show_their_last_opening_and_closing() {
    let e = over(vec![
        open(1, "Liabilities:Card", &["USD", "EUR"], Some("FIFO")),
        close(3, "Assets:Gone"),
        balance(2, "Assets:Never", 1),
        open(1, "Assets:Cash", &[], None),
        close(9, "Liabilities:Card"),
        close(8, "Liabilities:Card"),
        open(7, "Liabilities:Card", &["CHF"], None),
        open(2, "Assets:Gone", &["USD"], Some("STRICT")),
        close(4, "Equity:Unopened"),
    ]);
    let table = e.build_accounts_table();
    assert_eq!(table.columns, strings(&["account", "open", "close", "currencies", "booking"]));
    assert_eq!(
        table.rows,
        vec![
            vec![cell("Assets:Cash"), Value::Date(day(1)), Value::Null, set(&[]), Value::Null],
            vec![
                cell("Assets:Gone"),
                Value::Date(day(2)),
                Value::Date(day(3)),
                set(&["USD"]),
                cell("STRICT"),
            ],
            vec![cell("Equity:Unopened"), Value::Null, Value::Date(day(4)), set(&[]), Value::Null],
            vec![
                cell("Liabilities:Card"),
                Value::Date(day(7)),
                Value::Date(day(8)),
                set(&["CHF"]),
                Value::Null,
            ],
        ]
    );
}

#[test]
fn many_accounts_each_have_one_row() {
    let mut directives = vec![];
    for i in 0..200u32 {
        directives.push(open(1, &format!("Assets:{}", (i * 37) % 100), &[], None));
    }
    let table = over(directives).build_accounts_table();
    let mut names: Vec<String> = (0..100u32).map(|i| format!("Assets:{}", i)).collect();
    names.sort();
    let shown: Vec<Value> = names.iter().map(|n| cell(n)).collect();
    assert_eq!(table.rows.len(), 100);
    for (row, name) in table.rows.iter().zip(shown.iter()) {
        assert_eq!(&row[0], name);
    }
}

#[test]
fn transactions_by_date_in_the_order_of_the_ledger() {
    let e = over(vec![
        transaction(2, Some("Shop"), "first", &["B", "A", "B"]),
        transaction(1, None, "second", &[]),
        transaction(2, None, "third", &["C"]),
    ]);
    let table = e.build_transactions_table();
    assert_eq!(
        table.columns,
        strings(&["date", "flag", "payee", "narration", "tags", "links", "accounts"])
    );
    let row = |d: u8, payee: Value, narration: &str, accounts: &[&str]| {
        vec![
            Value::Date(day(d)),
            cell("!"),
            payee,
            cell(narration),
            set(&["trip"]),
            set(&["l1", "l2"]),
            set(accounts),
        ]
    };
    assert_eq!(
        table.rows,
        vec![
            row(1, Value::Null, "second", &[]),
            row(2, cell("Shop"), "first", &["A", "B"]),
            row(2, Value::Null, "third", &["C"]),
        ]
    );
}

#[test]
fn long_tables_are_sorted_like_the_standard_library_does() {
    let mut directives = vec![];
    let mut expected = vec![];
    for i in 0..300u32 {
        let d = (i * 7919 % 28 + 1) as u8;
        let account = format!("A{}", i * 31 % 5);
        let comment = format!("{}", i);
        directives.push(note(d, &account, &comment));
        expected.push((d, account, comment));
    }
    expected.sort_by(|a, b| a.0.cmp(&b.0).then_with(|| a.1.cmp(&b.1)));
    let table = over(directives).build_notes_table();
    assert_eq!(table.rows.len(), 300);
    for (row, (d, account, comment)) in table.rows.iter().zip(expected.iter()) {
        assert_eq!(row, &vec![Value::Date(day(*d)), cell(account), cell(comment)]);
    }
}

#[test]
fn entries_have_a_row_for_each_directive() {
    let plain = |d: u8| Plain { date: day(d), meta: Metadata::new() };
    let mut meta = Metadata::new();
    meta.insert("k".to_string(), MetaValue::Int(1));
    let mut meta_again = Metadata::new();
    meta_again.insert("k".to_string(), MetaValue::Int(1));
    let mut e = over(vec![
        Directive::Query(plain(9)),
        transaction(2, Some("Shop"), "n", &["B", "A"]),
        Directive::Pad(plain(1)),
        Directive::Price(plain(1)),
        Directive::Custom(Plain { date: day(1), meta }),
        open(1, "A", &[], None),
        close(1, "A"),
        balance(1, "A", 1),
        note(1, "A", "n"),
    ]);
    e.locations = vec![None, Some(SourceLocation { filename: "m.bean".to_string(), lineno: 4 })];
    let table = e.build_entries_table();
    assert_eq!(
        table.columns,
        strings(&[
            "id", "type", "filename", "lineno", "date", "flag", "payee", "narration", "tags", "links",
            "accounts", "_entry_meta"
        ])
    );
    assert!(rectangular(&table));
    let empty = || Value::Metadata(Box::new(Metadata::new()));
    assert_eq!(
        table.rows[0],
        vec![
            Value::Integer(0),
            cell("query"),
            Value::Null,
            Value::Null,
            Value::Date(day(9)),
            Value::Null,
            Value::Null,
            Value::Null,
            set(&[]),
            set(&[]),
            set(&[]),
            empty(),
        ]
    );
    assert_eq!(
        table.rows[1],
        vec![
            Value::Integer(1),
            cell("transaction"),
            cell("m.bean"),
            Value::Integer(4),
            Value::Date(day(2)),
            cell("!"),
            cell("Shop"),
            cell("n"),
            set(&["trip"]),
            set(&["l1", "l2"]),
            set(&["A", "B"]),
            empty(),
        ]
    );
    let kinds: Vec<&Value> = table.rows.iter().map(|row| &row[1]).collect();
    let expected: Vec<Value> =
        ["query", "transaction", "pad", "price", "custom", "open", "close", "balance", "note"]
            .iter()
            .map(|k| cell(k))
            .collect();
    assert_eq!(kinds, expected.iter().collect::<Vec<_>>());
    assert_eq!(table.rows[4][11], Value::Metadata(Box::new(meta_again)));
}

#[test]
fn empty_ledger_has_empty_tables() {
    let e = over(vec![]);
    assert_eq!(e.build_prices_table().rows.len(), 0);
    assert_eq!(e.build_balances_table().rows.len(), 0);
    assert_eq!(e.build_commodities_table().rows.len(), 0);
    assert_eq!(e.build_events_table().rows.len(), 0);
    assert_eq!(e.build_notes_table().rows.len(), 0);
    assert_eq!(e.build_documents_table().rows.len(), 0);
    assert_eq!(e.build_accounts_table().rows.len(), 0);
    assert_eq!(e.build_transactions_table().rows.len(), 0);
    assert_eq!(e.build_entries_table().rows.len(), 0);
}

#[test]
fn directives_of_another_kind_change_nothing() {
    let before = over(vec![balance(2, "A", 1), balance(1, "B", 2)]).build_balances_table();
    let after =
        over(vec![balance(2, "A", 1), note(1, "A", "n"), balance(1, "B", 2)]).build_balances_table();
    assert_eq!(before, after);
}

#[test]
fn accounts_do_not_depend_on_the_order_of_single_openings_and_closings() {
    let forward = vec![
        open(1, "B", &["USD"], Some("FIFO")),
        close(5, "B"),
        note(2, "B", "n"),
        open(2, "A", &[], None),
    ];
    let backward = vec![
        open(2, "A", &[], None),
        note(2, "B", "n"),
        close(5, "B"),
        open(1, "B", &["USD"], Some("FIFO")),
    ];
    assert_eq!(over(forward).build_accounts_table(), over(backward).build_accounts_table());
}

#[test]
fn commodities_do_not_depend_on_the_order_of_directives() {
    let commodity = |d: u8, currency: &str| {
        Directive::Commodity(Commodity {
            date: day(d),
            currency: currency.to_string(),
            meta: Metadata::new(),
        })
    };
    let a = over(vec![commodity(1, "X"), commodity(2, "A"), commodity(1, "B"), commodity(1, "X")]);
    let b = over(vec![commodity(1, "X"), commodity(1, "X"), commodity(1, "B"), commodity(2, "A")]);
    assert_eq!(a.build_commodities_table(), b.build_commodities_table());
}

#[test]
fn rows_with_different_keys_do_not_depend_on_the_order_of_directives() {
    let a = over(vec![note(1, "A", "x"), note(1, "B", "y"), note(2, "A", "z")]);
    let b = over(vec![note(2, "A", "z"), note(1, "B", "y"), note(1, "A", "x")]);
    assert_eq!(a.build_notes_table(), b.build_notes_table());
    let tied = over(vec![note(1, "A", "x"), note(1, "A", "y")]);
    let swapped = over(vec![note(1, "A", "y"), note(1, "A", "x")]);
    assert_ne!(tied.build_notes_table(), swapped.build_notes_table());
}

#[test]
fn transactions_are_the_sorted_transactions_of_entries() {
    let e = over(vec![
        transaction(3, Some("P"), "a", &["Z", "Y"]),
        note(1, "A", "n"),
        transaction(1, None, "b", &["X"]),
        transaction(3, None, "c", &[]),
    ]);
    let entries = e.build_entries_table();
    let shown = e.build_transactions_table();
    let expected: Vec<&[Value]> = [2, 0, 3].iter().map(|i: &usize| &entries.rows[*i][4..11]).collect();
    let rows: Vec<&[Value]> = shown.rows.iter().map(|row| &row[..]).collect();
    assert_eq!(rows, expected);
}
