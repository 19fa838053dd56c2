use rustledger_query::date::NaiveDate;
use rustledger_query::holdings::Amount;
use rustledger_query::metadata::Metadata;
use rustledger_query::number::Number;
use rustledger_query::executor::Executor;
use rustledger_query::value::{QueryError, Value};

fn num(negative: bool, magnitude: u128, scale: u32) -> Number {
    Number::new(negative, magnitude, scale).unwrap()
}

fn text(s: &str) -> Value {
    Value::String(s.to_string())
}

fn type_error(message: &str) -> Result<Value, QueryError> {
    Err(QueryError::Type(message.to_string()))
}

#[test]
fn str_writes_every_kind() {
    let day = NaiveDate::new(2024, 2, 29).unwrap();
    assert_eq!(Executor::value_to_str(&text("as is")), Ok(text("as is")));
    assert_eq!(Executor::value_to_str(&Value::Integer(-17)), Ok(text("-17")));
    assert_eq!(
        Executor::value_to_str(&Value::Integer(i64::MIN)),
        Ok(text("-9223372036854775808"))
    );
    assert_eq!(
        Executor::value_to_str(&Value::Number(num(false, 4875160000, 6))),
        Ok(text("4875.160000"))
    );
    assert_eq!(Executor::value_to_str(&Value::Number(num(true, 5, 2))), Ok(text("-0.05")));
    assert_eq!(Executor::value_to_str(&Value::Boolean(true)), Ok(text("TRUE")));
    assert_eq!(Executor::value_to_str(&Value::Boolean(false)), Ok(text("FALSE")));
    assert_eq!(Executor::value_to_str(&Value::Date(day)), Ok(text("2024-02-29")));
    let amount = Amount { number: num(false, 4875160000, 6), currency: "HKD".to_string() };
    assert_eq!(Executor::value_to_str(&Value::Amount(amount)), Ok(text("4875.160000 HKD")));
}

#[test]
fn str_refuses_sets_and_metadata() {
    let message =
        "STR expects a string, integer, number, boolean, date, amount, position, or inventory";
    assert_eq!(Executor::value_to_str(&Value::StringSet(vec![])), type_error(message));
    assert_eq!(
        Executor::value_to_str(&Value::Metadata(Box::new(Metadata::new()))),
        type_error(message)
    );
}

#[test]
fn int_drops_decimal_places() {
    assert_eq!(
        Executor::value_to_int(&Value::Number(num(false, 1999, 3))),
        Ok(Value::Integer(1))
    );
    assert_eq!(
        Executor::value_to_int(&Value::Number(num(true, 1999, 3))),
        Ok(Value::Integer(-1))
    );
    assert_eq!(
        Executor::value_to_int(&Value::Number(num(true, 999, 3))),
        Ok(Value::Integer(0))
    );
    assert_eq!(
        Executor::value_to_int(&Value::Number(num(true, 9223372036854775808, 0))),
        Ok(Value::Integer(i64::MIN))
    );
}

#[test]
fn int_refuses_what_is_too_large() {
    assert_eq!(
        Executor::value_to_int(&Value::Number(num(false, 92233720368547758080, 1))),
        type_error("INT: cannot convert '9223372036854775808.0' to integer")
    );
    assert_eq!(
        Executor::value_to_int(&text("9223372036854775808")),
        type_error("INT: cannot parse '9223372036854775808' as integer")
    );
    assert_eq!(
        Executor::value_to_int(&text("9223372036854775807")),
        Ok(Value::Integer(i64::MAX))
    );
    assert_eq!(
        Executor::value_to_int(&text("-9223372036854775808")),
        Ok(Value::Integer(i64::MIN))
    );
    assert_eq!(
        Executor::value_to_int(&text("-9223372036854775809")),
        type_error("INT: cannot parse '-9223372036854775809' as integer")
    );
    assert_eq!(
        Executor::value_to_int(&text("99999999999999999999999999999999999999999999")),
        type_error("INT: cannot parse '99999999999999999999999999999999999999999999' as integer")
    );
}

#[test]
fn int_reads_strings_as_the_standard_library_does() {
    for s in [
        "", "+", "-", "0", "-0", "+0", "007", "+42", "-42", " 42", "42 ", "4 2", "4_2", "1.0", "1e3",
        "--1", "+-1", "٣", "0x10",
    ] {
        match s.parse::<i64>() {
            Ok(i) => assert_eq!(Executor::value_to_int(&text(s)), Ok(Value::Integer(i))),
            Err(_) => assert_eq!(
                Executor::value_to_int(&text(s)),
                type_error(&format!("INT: cannot parse '{}' as integer", s))
            ),
        }
    }
}

#[test]
fn int_of_other_kinds() {
    assert_eq!(Executor::value_to_int(&Value::Boolean(true)), Ok(Value::Integer(1)));
    assert_eq!(Executor::value_to_int(&Value::Boolean(false)), Ok(Value::Integer(0)));
    assert_eq!(Executor::value_to_int(&Value::Integer(5)), Ok(Value::Integer(5)));
    assert_eq!(
        Executor::value_to_int(&Value::StringSet(vec![])),
        type_error("INT expects a number, integer, boolean, or string")
    );
}

#[test]
fn decimal_reads_strings() {
    assert_eq!(
        Executor::value_to_decimal(&text("-12.3400")),
        Ok(Value::Number(num(true, 123400, 4)))
    );
    assert_eq!(
        Executor::value_to_decimal(&text("twelve")),
        type_error("DECIMAL: cannot parse 'twelve' as decimal")
    );
    assert_eq!(
        Executor::value_to_decimal(&text("")),
        type_error("DECIMAL: cannot parse '' as decimal")
    );
}

#[test]
fn decimal_from_a_parsed_string() {
    assert_eq!(
        Executor::parsed_to_decimal(Some(num(false, 15, 1)), "1.5"),
        Ok(Value::Number(num(false, 15, 1)))
    );
    assert_eq!(
        Executor::parsed_to_decimal(None, "x"),
        type_error("DECIMAL: cannot parse 'x' as decimal")
    );
}

#[test]
fn decimal_of_other_kinds() {
    assert_eq!(
        Executor::value_to_decimal(&Value::Integer(i64::MIN)),
        Ok(Value::Number(num(true, 9223372036854775808, 0)))
    );
    assert_eq!(
        Executor::value_to_decimal(&Value::Boolean(true)),
        Ok(Value::Number(num(false, 1, 0)))
    );
    assert_eq!(
        Executor::value_to_decimal(&Value::Boolean(false)),
        Ok(Value::Number(num(false, 0, 0)))
    );
    assert_eq!(
        Executor::value_to_decimal(&Value::Number(num(false, 7, 2))),
        Ok(Value::Number(num(false, 7, 2)))
    );
    assert_eq!(
        Executor::value_to_decimal(&Value::StringSet(vec![])),
        type_error("DECIMAL expects a number, integer, boolean, or string")
    );
}

#[test]
fn decimal_reads_back_what_str_writes() {
    let numbers = [
        num(false, 0, 0),
        num(false, 0, 5),
        num(true, 1, 28),
        num(false, 79228162514264337593543950335, 28),
        num(true, 79228162514264337593543950335, 0),
        num(false, 4875160000, 6),
        num(false, 79228162514264337593543950335, 1),
    ];
    for n in numbers {
        let written = Executor::value_to_str(&Value::Number(n)).unwrap();
        assert_eq!(Executor::value_to_decimal(&written), Ok(Value::Number(n)));
    }
}

#[test]
fn negative_zero_is_written_with_its_sign_and_read_without() {
    let n = num(true, 0, 2);
    assert_eq!(Executor::value_to_str(&Value::Number(n)), Ok(text("-0.00")));
    assert_eq!(
        Executor::value_to_decimal(&text("-0.00")),
        Ok(Value::Number(num(false, 0, 2)))
    );
}

#[test]
fn bool_reads_words_in_any_case() {
    for s in ["TRUE", "true", "Yes", "1", "t", "y"] {
        assert_eq!(Executor::value_to_bool(&text(s)), Ok(Value::Boolean(true)));
    }
    for s in ["FALSE", "False", "no", "0", "f", "N", ""] {
        assert_eq!(Executor::value_to_bool(&text(s)), Ok(Value::Boolean(false)));
    }
    assert_eq!(
        Executor::value_to_bool(&text("maybe")),
        type_error("BOOL: cannot parse 'maybe' as boolean")
    );
    assert_eq!(
        Executor::value_to_bool(&text(" true")),
        type_error("BOOL: cannot parse ' true' as boolean")
    );
}

#[test]
fn bool_of_an_uppercase_word() {
    assert_eq!(Executor::word_to_bool("YES", "yes"), Ok(Value::Boolean(true)));
    assert_eq!(Executor::word_to_bool("", ""), Ok(Value::Boolean(false)));
    assert_eq!(
        Executor::word_to_bool("yes", "yes"),
        type_error("BOOL: cannot parse 'yes' as boolean")
    );
}

#[test]
fn bool_of_numbers() {
    assert_eq!(Executor::value_to_bool(&Value::Integer(0)), Ok(Value::Boolean(false)));
    assert_eq!(Executor::value_to_bool(&Value::Integer(-3)), Ok(Value::Boolean(true)));
    assert_eq!(
        Executor::value_to_bool(&Value::Number(num(true, 0, 3))),
        Ok(Value::Boolean(false))
    );
    assert_eq!(
        Executor::value_to_bool(&Value::Number(num(false, 1, 28))),
        Ok(Value::Boolean(true))
    );
    assert_eq!(Executor::value_to_bool(&Value::Boolean(true)), Ok(Value::Boolean(true)));
    assert_eq!(
        Executor::value_to_bool(&Value::StringSet(vec![])),
        type_error("BOOL expects a boolean, number, integer, or string")
    );
}

#[test]
fn null_stays_null() {
    assert_eq!(Executor::value_to_str(&Value::Null), Ok(Value::Null));
    assert_eq!(Executor::value_to_int(&Value::Null), Ok(Value::Null));
    assert_eq!(Executor::value_to_decimal(&Value::Null), Ok(Value::Null));
    assert_eq!(Executor::value_to_bool(&Value::Null), Ok(Value::Null));
}

#[test]
fn conversions_undo_each_other() {
    for i in [0, 1, -1, 42, i64::MAX, i64::MIN] {
        let written = Executor::value_to_str(&Value::Integer(i)).unwrap();
        assert_eq!(Executor::value_to_int(&written), Ok(Value::Integer(i)));
        let decimal = Executor::value_to_decimal(&Value::Integer(i)).unwrap();
        assert_eq!(Executor::value_to_int(&decimal), Ok(Value::Integer(i)));
        assert_eq!(
            Executor::value_to_bool(&decimal),
            Executor::value_to_bool(&Value::Integer(i))
        );
    }
    for b in [true, false] {
        let written = Executor::value_to_str(&Value::Boolean(b)).unwrap();
        assert_eq!(Executor::value_to_bool(&written), Ok(Value::Boolean(b)));
        let int = Executor::value_to_int(&Value::Boolean(b)).unwrap();
        assert_eq!(Executor::value_to_bool(&int), Ok(Value::Boolean(b)));
        let decimal = Executor::value_to_decimal(&Value::Boolean(b)).unwrap();
        assert_eq!(Executor::value_to_bool(&decimal), Ok(Value::Boolean(b)));
    }
}

#[test]
fn converting_twice_changes_nothing() {
    let once = Executor::value_to_str(&Value::Number(num(false, 120, 2))).unwrap();
    assert_eq!(once, text("1.20"));
    assert_eq!(Executor::value_to_str(&once), Ok(text("1.20")));
    let int = Executor::value_to_int(&text("+5")).unwrap();
    assert_eq!(Executor::value_to_int(&int), Ok(Value::Integer(5)));
    let boolean = Executor::value_to_bool(&text("y")).unwrap();
    assert_eq!(Executor::value_to_bool(&boolean), Ok(Value::Boolean(true)));
}

#[test]
fn numbers_have_limits() {
    assert_eq!(Number::new(false, 79228162514264337593543950336, 0), None);
    assert_eq!(Number::new(false, 1, 29), None);
    assert!(Number::new(true, 79228162514264337593543950335, 28).is_some());
    assert_eq!(NaiveDate::new(2023, 2, 29), None);
    assert_eq!(NaiveDate::new(10000, 1, 1), None);
    assert_eq!(NaiveDate::new(2024, 0, 1), None);
    assert_eq!(NaiveDate::new(2024, 4, 31), None);
    assert!(NaiveDate::new(2000, 2, 29).is_some());
    assert_eq!(NaiveDate::new(1900, 2, 29), None);
}
