use rustledger_query::ast::{Expr, FunctionCall};
use rustledger_query::date::NaiveDate;
use rustledger_query::executor::{Executor, PostingContext};
use rustledger_query::holdings::Amount;
use rustledger_query::ledger::{Directive, Posting, SourceLocation, Transaction};
use rustledger_query::metadata::{MetaValue, Metadata};
use rustledger_query::number::Number;
use rustledger_query::value::{QueryError, Value};
use rustledger_query::views::Duplicate;

fn place(filename: &str, lineno: usize) -> SourceLocation {
    SourceLocation { filename: filename.to_string(), lineno }
}

fn meta_of(entries: Vec<(&str, &str)>) -> Metadata {
    let mut meta = Metadata::new();
    for (key, value) in entries {
        meta.insert(key.to_string(), MetaValue::String(value.to_string()));
    }
    meta
}

fn leg(account: &str, meta: Metadata, location: Option<SourceLocation>) -> Posting {
    Posting {
        account: account.to_string(),
        flag: None,
        units: None,
        price: None,
        weight: None,
        meta,
        location,
    }
}

fn ledger() -> Executor {
    let txn = Transaction {
        date: NaiveDate::new(2024, 1, 2).unwrap(),
        flag: '*',
        payee: None,
        narration: "lunch".to_string(),
        tags: vec![],
        links: vec![],
        meta: meta_of(vec![("both", "entry"), ("entry-only", "e")]),
        postings: vec![
            leg(
                "Expenses:Food",
                meta_of(vec![("both", "posting"), ("posting-only", "p")]),
                Some(place("main.bean", 11)),
            ),
            leg("Assets:Cash", meta_of(vec![("lineno", "mine")]), None),
        ],
    };
    Executor {
        directives: vec![Directive::Transaction(txn)],
        locations: vec![Some(place("main.bean", 10))],
        prices: vec![],
        balances: vec![],
    }
}

fn call(name: &str, args: Vec<Expr>) -> FunctionCall {
    FunctionCall { name: name.to_string(), args }
}

fn string(s: &str) -> Value {
    Value::String(s.to_string())
}

fn literal(s: &str) -> Expr {
    Expr::Literal(string(s))
}

fn evaluate(expr: &Expr, _ctx: &PostingContext) -> Result<Value, QueryError> {
    match expr {
        Expr::Literal(value) => Ok(value.duplicate()),
        Expr::Column(name) => Err(QueryError::Type(format!("no column {}", name))),
        _ => panic!("an argument after the first that decides was evaluated"),
    }
}

fn meta(executor: &Executor, posting: usize, name: &str, key: &str) -> Result<Value, QueryError> {
    let contexts = executor.scan_postings(false, false);
    executor.eval_meta_function(name, &call(name, vec![literal(key)]), &contexts[posting], evaluate)
}

#[test]
fn meta_functions_look_into_posting_and_entry() {
    let e = ledger();
    assert_eq!(meta(&e, 0, "META", "both"), Ok(string("posting")));
    assert_eq!(meta(&e, 0, "POSTING_META", "both"), Ok(string("posting")));
    assert_eq!(meta(&e, 0, "ENTRY_META", "both"), Ok(string("entry")));
    assert_eq!(meta(&e, 0, "ANY_META", "both"), Ok(string("posting")));
    assert_eq!(meta(&e, 0, "META", "entry-only"), Ok(Value::Null));
    assert_eq!(meta(&e, 0, "ANY_META", "entry-only"), Ok(string("e")));
    assert_eq!(meta(&e, 0, "ENTRY_META", "posting-only"), Ok(Value::Null));
    assert_eq!(meta(&e, 0, "ANY_META", "nowhere"), Ok(Value::Null));
}

#[test]
fn meta_functions_find_the_location() {
    let e = ledger();
    assert_eq!(meta(&e, 0, "META", "lineno"), Ok(Value::Integer(11)));
    assert_eq!(meta(&e, 0, "ENTRY_META", "lineno"), Ok(Value::Integer(10)));
    assert_eq!(meta(&e, 0, "META", "filename"), Ok(string("main.bean")));
    assert_eq!(meta(&e, 1, "META", "filename"), Ok(string("main.bean")));
}

#[test]
fn own_keys_win_over_the_location() {
    let e = ledger();
    assert_eq!(meta(&e, 1, "META", "lineno"), Ok(string("mine")));
    let raw = meta_of(vec![("filename", "own")]);
    let augmented = Executor::augmented_meta(&raw, Some(&place("f.bean", 3)));
    assert_eq!(augmented.get("filename"), Some(&MetaValue::String("own".to_string())));
    assert_eq!(augmented.get("lineno"), Some(&MetaValue::Int(3)));
}

#[test]
fn any_meta_stops_at_an_empty_value() {
    let mut e = ledger();
    if let Directive::Transaction(txn) = &mut e.directives[0] {
        txn.postings[0].meta.insert("entry-only".to_string(), MetaValue::Empty);
    }
    assert_eq!(meta(&e, 0, "ANY_META", "entry-only"), Ok(Value::Null));
    assert_eq!(meta(&e, 0, "ENTRY_META", "entry-only"), Ok(string("e")));
}

#[test]
fn meta_functions_take_one_string() {
    let e = ledger();
    let contexts = e.scan_postings(false, false);
    let ctx = &contexts[0];
    assert_eq!(
        e.eval_meta_function("META", &call("META", vec![]), ctx, evaluate),
        Err(QueryError::InvalidArguments { function: "META".to_string(), expected: 1, given: 0 })
    );
    assert_eq!(
        e.eval_meta_function("META", &call("META", vec![literal("a"), literal("b")]), ctx, evaluate),
        Err(QueryError::InvalidArguments { function: "META".to_string(), expected: 1, given: 2 })
    );
    assert_eq!(
        e.eval_meta_function(
            "ANY_META",
            &call("ANY_META", vec![Expr::Literal(Value::Integer(1))]),
            ctx,
            evaluate
        ),
        Err(QueryError::Type("ANY_META: argument must be a string key".to_string()))
    );
    assert_eq!(
        e.eval_meta_function("META", &call("META", vec![Expr::Column("x".to_string())]), ctx, evaluate),
        Err(QueryError::Type("no column x".to_string()))
    );
}

#[test]
fn meta_function_of_an_evaluated_argument() {
    let e = ledger();
    let contexts = e.scan_postings(false, false);
    assert_eq!(
        e.meta_function_value("META", Ok(string("both")), &contexts[0]),
        Ok(string("posting"))
    );
    assert_eq!(
        e.meta_function_value("META", Ok(Value::Null), &contexts[0]),
        Err(QueryError::Type("META: argument must be a string key".to_string()))
    );
}

#[test]
fn location_keys() {
    let l = place("f.bean", 12);
    assert_eq!(
        Executor::source_location_meta_key(Some(&l), "filename"),
        Some(MetaValue::String("f.bean".to_string()))
    );
    assert_eq!(Executor::source_location_meta_key(Some(&l), "lineno"), Some(MetaValue::Int(12)));
    assert_eq!(Executor::source_location_meta_key(Some(&l), "location"), None);
    assert_eq!(Executor::source_location_meta_key(None, "lineno"), None);
    let far = place("f.bean", usize::MAX);
    assert_eq!(
        Executor::source_location_meta_key(Some(&far), "lineno"),
        Some(MetaValue::Number(Number::from_u64(u64::MAX)))
    );
}

#[test]
fn lookup_agrees_with_augmented_metadata() {
    let raw = meta_of(vec![("b", "2"), ("a", "1")]);
    let l = place("f.bean", 5);
    let augmented = Executor::augmented_meta(&raw, Some(&l));
    for key in ["a", "b", "c", "filename", "lineno"] {
        assert_eq!(Executor::meta_lookup(&raw, Some(&l), key).as_ref(), augmented.get(key));
    }
    assert_eq!(Executor::augmented_meta(&augmented, Some(&l)), augmented);
    assert_eq!(Executor::augmented_meta(&augmented, Some(&place("other.bean", 9))), augmented);
    assert_eq!(Executor::augmented_meta(&augmented, None), augmented);
    assert_eq!(Executor::augmented_meta(&raw, None), raw);
}

#[test]
fn metadata_keeps_one_value_under_a_key() {
    let mut m = Metadata::new();
    m.insert("k".to_string(), MetaValue::Int(1));
    m.insert("k".to_string(), MetaValue::Int(2));
    assert_eq!(m.get("k"), Some(&MetaValue::Int(2)));
    assert!(m.contains_key("k"));
    assert!(!m.contains_key("K"));
}

#[test]
fn metadata_values_as_query_values() {
    let day = NaiveDate::new(2024, 5, 6).unwrap();
    let n = Number::new(false, 25, 1).unwrap();
    let amount = || Amount { number: n, currency: "USD".to_string() };
    let cases = vec![
        (MetaValue::String("s".to_string()), string("s")),
        (MetaValue::Number(n), Value::Number(n)),
        (MetaValue::Int(3), Value::Integer(3)),
        (MetaValue::Date(day), Value::Date(day)),
        (MetaValue::Bool(true), Value::Boolean(true)),
        (MetaValue::Amount(amount()), Value::Amount(amount())),
        (MetaValue::Account("Assets:Cash".to_string()), string("Assets:Cash")),
        (MetaValue::Currency("EUR".to_string()), string("EUR")),
        (MetaValue::Tag("t".to_string()), string("t")),
        (MetaValue::Link("l".to_string()), string("l")),
        (MetaValue::Empty, Value::Null),
    ];
    for (mv, expected) in cases {
        assert_eq!(Executor::meta_value_to_value(Some(&mv)), expected);
    }
    assert_eq!(Executor::meta_value_to_value(None), Value::Null);
}

#[test]
fn coalesce_takes_the_first_that_is_not_null() {
    let e = ledger();
    let contexts = e.scan_postings(false, false);
    let ctx = &contexts[0];
    let null = || Expr::Literal(Value::Null);
    assert_eq!(e.eval_coalesce(&call("COALESCE", vec![]), ctx, evaluate), Ok(Value::Null));
    assert_eq!(
        e.eval_coalesce(&call("COALESCE", vec![null(), null()]), ctx, evaluate),
        Ok(Value::Null)
    );
    assert_eq!(
        e.eval_coalesce(&call("COALESCE", vec![null(), literal("x"), Expr::Wildcard]), ctx, evaluate),
        Ok(string("x"))
    );
    assert_eq!(
        e.eval_coalesce(
            &call("COALESCE", vec![null(), Expr::Column("c".to_string()), Expr::Wildcard]),
            ctx,
            evaluate
        ),
        Err(QueryError::Type("no column c".to_string()))
    );
    assert_eq!(
        e.eval_coalesce(&call("COALESCE", vec![literal(""), Expr::Wildcard]), ctx, evaluate),
        Ok(string(""))
    );
}

#[test]
fn argument_counts() {
    assert_eq!(Executor::require_args("F", &call("F", vec![literal("a")]), 1), Ok(()));
    assert_eq!(
        Executor::require_args("F", &call("F", vec![]), 2),
        Err(QueryError::InvalidArguments { function: "F".to_string(), expected: 2, given: 0 })
    );
}
