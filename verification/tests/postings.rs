use rustledger_query::ast::{Expr, SelectQuery, Target};
use rustledger_query::date::NaiveDate;
use rustledger_query::executor::{Executor, RunningBalances};
use rustledger_query::holdings::{Amount, Cost, Inventory, Position};
use rustledger_query::ledger::{
    BookedUnits, Close, Directive, Posting, SourceLocation, Transaction,
};
use rustledger_query::metadata::{MetaValue, Metadata};
use rustledger_query::number::Number;
use rustledger_query::postings::{
    query_calls_meta_function, query_references_column, query_selects_all, transaction_description,
    ColumnNeeds,
};
use rustledger_query::value::{EntryObject, Table, Value};
use rustledger_query::views::Duplicate;

const COLUMNS: [&str; 34] = [
    "type",
    "id",
    "date",
    "year",
    "month",
    "day",
    "filename",
    "lineno",
    "location",
    "flag",
    "payee",
    "narration",
    "description",
    "tags",
    "links",
    "posting_flag",
    "account",
    "other_accounts",
    "number",
    "currency",
    "cost_number",
    "cost_currency",
    "cost_date",
    "cost_label",
    "position",
    "price",
    "weight",
    "balance",
    "account_balance",
    "meta",
    "accounts",
    "entry",
    "_entry_meta",
    "_posting_meta",
];

fn on(d: u8) -> NaiveDate {
    NaiveDate::new(2024, 12, d).unwrap()
}

fn amount(n: i64, currency: &str) -> Amount {
    Amount { number: Number::from_i64(n), currency: currency.to_string() }
}

fn lot() -> Cost {
    Cost {
        number: Number::new(false, 1050, 2).unwrap(),
        currency: "USD".to_string(),
        date: Some(on(3)),
        label: None,
    }
}

fn strings_of(texts: &[&str]) -> Vec<String> {
    texts.iter().map(|t| t.to_string()).collect()
}

fn one(key: &str, value: i64) -> Metadata {
    let mut meta = Metadata::new();
    meta.insert(key.to_string(), MetaValue::Int(value));
    meta
}

fn at(lineno: usize) -> SourceLocation {
    SourceLocation { filename: "l.bean".to_string(), lineno }
}

fn stock_posting() -> Posting {
    Posting {
        account: "Assets:Stock".to_string(),
        flag: Some('!'),
        units: Some(BookedUnits {
            amount: amount(4, "AAPL"),
            cost: Some(lot()),
            position: Position { units: amount(4, "AAPL"), cost: Some(lot()) },
        }),
        price: Some(amount(11, "USD")),
        weight: Some(amount(42, "USD")),
        meta: one("p", 1),
        location: Some(at(8)),
    }
}

fn cash_posting() -> Posting {
    Posting {
        account: "Assets:Cash".to_string(),
        flag: None,
        units: None,
        price: None,
        weight: None,
        meta: Metadata::new(),
        location: None,
    }
}

fn purchase() -> Transaction {
    Transaction {
        date: on(31),
        flag: '*',
        payee: Some("Broker".to_string()),
        narration: "Buy".to_string(),
        tags: strings_of(&["t"]),
        links: strings_of(&["l"]),
        meta: one("e", 2),
        postings: vec![stock_posting(), cash_posting()],
    }
}

fn transfer() -> Transaction {
    Transaction {
        date: on(1),
        flag: '!',
        payee: None,
        narration: "Move".to_string(),
        tags: vec![],
        links: vec![],
        meta: Metadata::new(),
        postings: vec![cash_posting()],
    }
}

fn holding(n: i64) -> Inventory {
    Inventory { positions: vec![Position { units: amount(n, "USD"), cost: None }] }
}

fn ledger() -> Executor {
    Executor {
        directives: vec![
            Directive::Close(Close {
                date: on(2),
                account: "X".to_string(),
                meta: Metadata::new(),
            }),
            Directive::Transaction(purchase()),
            Directive::Transaction(transfer()),
        ],
        locations: vec![Some(at(1)), Some(at(7)), None],
        prices: vec![],
        balances: (0..3)
            .map(|i| RunningBalances { balance: holding(i), account_balance: holding(10 + i) })
            .collect(),
    }
}

fn reading(columns: &[&str]) -> SelectQuery {
    SelectQuery { targets: vec![], columns: strings_of(columns), calls_meta: false }
}

fn everything() -> SelectQuery {
    SelectQuery { targets: vec![Target { expr: Expr::Wildcard }], columns: vec![], calls_meta: false }
}

fn text(s: &str) -> Value {
    Value::String(s.to_string())
}

fn column(name: &str) -> usize {
    COLUMNS.iter().position(|c| *c == name).unwrap()
}

fn cells(table: &Table, name: &str) -> Vec<Value> {
    table.rows.iter().map(|row| row[column(name)].duplicate()).collect()
}

#[test]
fn select_all_builds_every_column() {
    let table = ledger().build_postings_table(&everything());
    assert_eq!(table.columns, strings_of(&COLUMNS));
    assert_eq!(table.rows.len(), 3);
    let mut own_meta = one("p", 1);
    own_meta.insert("filename".to_string(), MetaValue::String("l.bean".to_string()));
    own_meta.insert("lineno".to_string(), MetaValue::Int(8));
    assert_eq!(
        table.rows[0],
        vec![
            text("transaction"),
            Value::Integer(1),
            Value::Date(on(31)),
            Value::Integer(2024),
            Value::Integer(12),
            Value::Integer(31),
            text("l.bean"),
            Value::Integer(8),
            text("l.bean:8"),
            text("*"),
            text("Broker"),
            text("Buy"),
            text("Broker | Buy"),
            Value::StringSet(strings_of(&["t"])),
            Value::StringSet(strings_of(&["l"])),
            text("!"),
            text("Assets:Stock"),
            Value::StringSet(strings_of(&["Assets:Cash"])),
            Value::Number(Number::from_i64(4)),
            text("AAPL"),
            Value::Number(Number::new(false, 1050, 2).unwrap()),
            text("USD"),
            Value::Date(on(3)),
            Value::Null,
            Value::Position(Box::new(Position { units: amount(4, "AAPL"), cost: Some(lot()) })),
            Value::Amount(amount(11, "USD")),
            Value::Amount(amount(42, "USD")),
            Value::Inventory(Box::new(holding(0))),
            Value::Inventory(Box::new(holding(10))),
            Value::Metadata(Box::new(own_meta)),
            Value::StringSet(strings_of(&["Assets:Cash", "Assets:Stock"])),
            Value::Entry(Box::new(EntryObject { transaction: purchase(), location: Some(at(7)) })),
            Value::Metadata(Box::new(one("e", 2))),
            Value::Metadata(Box::new(one("p", 1))),
        ]
    );
}

#[test]
fn postings_without_amount_or_place_of_their_own() {
    let table = ledger().build_postings_table(&everything());
    let cash = &table.rows[1];
    assert_eq!(cash[column("lineno")], Value::Integer(7));
    assert_eq!(cash[column("location")], text("l.bean:7"));
    for name in [
        "posting_flag",
        "number",
        "currency",
        "cost_number",
        "cost_currency",
        "cost_date",
        "cost_label",
        "position",
        "price",
        "weight",
    ] {
        assert_eq!(cash[column(name)], Value::Null);
    }
    assert_eq!(
        cash[column("other_accounts")],
        Value::StringSet(strings_of(&["Assets:Stock"]))
    );
    let moved = &table.rows[2];
    assert_eq!(moved[column("filename")], Value::Null);
    assert_eq!(moved[column("payee")], Value::Null);
    assert_eq!(moved[column("description")], text("Move"));
    assert_eq!(moved[column("other_accounts")], Value::StringSet(vec![]));
    assert_eq!(moved[column("meta")], Value::Metadata(Box::new(Metadata::new())));
}

#[test]
fn a_query_that_reads_nothing_gets_the_rows_without_the_work() {
    let table = ledger().build_postings_table(&reading(&[]));
    assert_eq!(table.columns, strings_of(&COLUMNS));
    assert_eq!(table.rows.len(), 3);
    for row in &table.rows {
        for (k, value) in row.iter().enumerate() {
            match COLUMNS[k] {
                "id" | "year" | "month" | "day" => assert!(matches!(value, Value::Integer(_))),
                "date" => assert!(matches!(value, Value::Date(_))),
                _ => assert_eq!(value, &Value::Null),
            }
        }
    }
    assert_eq!(
        cells(&table, "id"),
        vec![Value::Integer(1), Value::Integer(1), Value::Integer(2)]
    );
}

#[test]
fn every_column_reads_the_same_alone_as_with_all_others() {
    let full = ledger().build_postings_table(&everything());
    for name in COLUMNS {
        let table = ledger().build_postings_table(&reading(&[name]));
        assert_eq!(cells(&table, name), cells(&full, name), "{}", name);
    }
}

#[test]
fn balance_brings_position_along() {
    let full = ledger().build_postings_table(&everything());
    let table = ledger().build_postings_table(&reading(&["balance"]));
    assert_eq!(cells(&table, "position"), cells(&full, "position"));
    assert_eq!(cells(&table, "account_balance"), vec![Value::Null, Value::Null, Value::Null]);
}

#[test]
fn metadata_functions_bring_metadata_along() {
    let full = ledger().build_postings_table(&everything());
    let query = SelectQuery { targets: vec![], columns: vec![], calls_meta: true };
    let table = ledger().build_postings_table(&query);
    for name in ["meta", "_entry_meta", "_posting_meta"] {
        assert_eq!(cells(&table, name), cells(&full, name));
    }
    assert_eq!(cells(&table, "lineno"), vec![Value::Null, Value::Null, Value::Null]);
}

#[test]
fn location_and_cost_columns_are_built_together() {
    let table = ledger().build_postings_table(&reading(&["lineno", "cost_date"]));
    let full = ledger().build_postings_table(&everything());
    for name in ["filename", "location", "cost_number", "cost_currency", "cost_label"] {
        assert_eq!(cells(&table, name), cells(&full, name));
    }
    assert_eq!(cells(&table, "number")[0], Value::Null);
}

#[test]
fn postings_agree_with_entries() {
    let e = ledger();
    let postings = e.build_postings_table(&everything());
    let entries = e.build_entries_table();
    for row in &postings.rows {
        let id = match row[column("id")] {
            Value::Integer(i) => i as usize,
            _ => panic!("no id"),
        };
        for (k, name) in entries.columns.iter().enumerate() {
            if name != "filename" && name != "lineno" {
                assert_eq!(row[column(name)], entries.rows[id][k]);
            }
        }
    }
}

#[test]
fn what_a_query_reads() {
    let query = reading(&["account", "number"]);
    assert!(query_references_column(&query, "account"));
    assert!(!query_references_column(&query, "Account"));
    assert!(!query_selects_all(&query));
    assert!(query_selects_all(&everything()));
    assert!(!query_calls_meta_function(&query));
    let needs = ColumnNeeds::for_query(&query);
    assert!(needs.account && needs.number && !needs.currency && !needs.balance);
}

#[test]
fn scans_are_in_the_order_of_the_ledger() {
    let e = ledger();
    let contexts = e.scan_postings(true, false);
    let places: Vec<(Option<usize>, usize)> =
        contexts.iter().map(|c| (c.directive_index, c.posting_index)).collect();
    assert_eq!(places, vec![(Some(1), 0), (Some(1), 1), (Some(2), 0)]);
    assert_eq!(contexts[2].balance, Some(holding(2)));
    assert_eq!(contexts[2].account_balance, None);
    assert_eq!(e.resolved_source_location(&contexts[0]), Some(at(8)));
    assert_eq!(e.resolved_source_location(&contexts[1]), Some(at(7)));
    assert_eq!(e.entry_source_location(&contexts[0]), Some(at(7)));
    assert_eq!(e.resolved_source_location(&contexts[2]), None);
}

#[test]
fn descriptions() {
    assert_eq!(transaction_description(&purchase()), "Broker | Buy");
    assert_eq!(transaction_description(&transfer()), "Move");
}

#[test]
fn unread_set_columns_are_null() {
    let table = ledger().build_postings_table(&reading(&["account"]));
    for name in ["tags", "links", "other_accounts", "accounts"] {
        assert_eq!(cells(&table, name), vec![Value::Null, Value::Null, Value::Null]);
    }
    let read = ledger().build_postings_table(&reading(&["tags", "links", "other_accounts"]));
    assert_eq!(
        cells(&read, "tags"),
        vec![
            Value::StringSet(strings_of(&["t"])),
            Value::StringSet(strings_of(&["t"])),
            Value::StringSet(vec![]),
        ]
    );
    assert_eq!(cells(&read, "links")[2], Value::StringSet(vec![]));
    assert_eq!(cells(&read, "other_accounts")[2], Value::StringSet(vec![]));
    assert_eq!(cells(&read, "account"), vec![Value::Null, Value::Null, Value::Null]);
}

#[test]
fn known_balances_are_shown_in_every_row() {
    let table = ledger().build_postings_table(&reading(&["balance", "account_balance"]));
    for i in 0..3 {
        assert_eq!(
            cells(&table, "balance")[i],
            Value::Inventory(Box::new(holding(i as i64)))
        );
        assert_eq!(
            cells(&table, "account_balance")[i],
            Value::Inventory(Box::new(holding(10 + i as i64)))
        );
    }
}

#[test]
fn balances_without_an_entry_are_unknown() {
    let mut e = ledger();
    e.balances.truncate(1);
    let table = e.build_postings_table(&reading(&["balance"]));
    assert_eq!(cells(&table, "balance")[0], Value::Inventory(Box::new(holding(0))));
    assert_eq!(cells(&table, "balance")[1], Value::Null);
}
