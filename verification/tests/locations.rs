use rustledger_query::executor::Executor;
use rustledger_query::ledger::SourceLocation;
use rustledger_query::value::Value;

fn loc(lineno: usize) -> SourceLocation {
    SourceLocation {
        filename: "f.bean".to_string(),
        lineno,
    }
}

#[test]
fn source_lineno_value_basics() {
    assert_eq!(
        Executor::source_lineno_value(Some(&loc(42))),
        Value::Integer(42)
    );
    assert_eq!(Executor::source_lineno_value(None), Value::Null);
}

#[test]
fn source_lineno_value_saturates_on_overflow() {
    assert_eq!(
        Executor::source_lineno_value(Some(&loc(usize::MAX))),
        Value::Integer(i64::MAX)
    );
    assert_eq!(
        Executor::source_location_value(Some(&loc(usize::MAX))),
        Value::String(format!("f.bean:{}", i64::MAX))
    );
}

#[test]
fn source_filename_and_location_values() {
    assert_eq!(
        Executor::source_filename_value(Some(&loc(7))),
        Value::String("f.bean".to_string())
    );
    assert_eq!(
        Executor::source_location_value(Some(&loc(7))),
        Value::String("f.bean:7".to_string())
    );
    assert_eq!(Executor::source_filename_value(None), Value::Null);
    assert_eq!(Executor::source_location_value(None), Value::Null);
}

#[test]
fn largest_line_number_is_shown_as_it_is() {
    let last = loc(i64::MAX as usize);
    assert_eq!(Executor::lineno_i64(&last), i64::MAX);
    assert_eq!(Executor::lineno_i64(&loc(0)), 0);
    assert_eq!(
        Executor::source_location_value(Some(&loc(0))),
        Value::String("f.bean:0".to_string())
    );
}
