use rustledger_query::date::NaiveDate;
use rustledger_query::executor::Executor;
use rustledger_query::holdings::{Amount, Cost, Inventory, Position};
use rustledger_query::number::Number;
use rustledger_query::render::{currency_order, position_sort_key, render_inventory, render_position};
use rustledger_query::value::Value;

fn number(magnitude: u128, scale: u32) -> Number {
    Number::new(false, magnitude, scale).unwrap()
}

fn units(magnitude: u128, scale: u32, currency: &str) -> Position {
    Position {
        units: Amount { number: number(magnitude, scale), currency: currency.to_string() },
        cost: None,
    }
}

fn at_cost(
    magnitude: u128,
    currency: &str,
    cost: u128,
    cost_currency: &str,
    date: Option<NaiveDate>,
    label: Option<&str>,
) -> Position {
    Position {
        units: Amount { number: number(magnitude, 0), currency: currency.to_string() },
        cost: Some(Cost {
            number: number(cost, 2),
            currency: cost_currency.to_string(),
            date,
            label: label.map(|l| l.to_string()),
        }),
    }
}

fn inventory(positions: Vec<Position>) -> Inventory {
    Inventory { positions }
}

#[test]
fn common_currencies_come_first() {
    let common = ["USD", "EUR", "JPY", "CAD", "GBP", "AUD", "NZD", "CHF"];
    for (i, currency) in common.iter().enumerate() {
        assert_eq!(currency_order(currency), i as u128);
    }
    assert_eq!(currency_order(""), 8);
    assert_eq!(currency_order("A"), 9);
    assert_eq!(currency_order("HKD"), 11);
    assert_eq!(currency_order("XAU"), 11);
    assert_eq!(currency_order("usd"), 11);
    assert_eq!(currency_order("VTSAX"), 13);
    assert_eq!(currency_order("€"), 11);
}

#[test]
fn positions_without_cost() {
    assert_eq!(render_position(&units(4875160000, 6, "HKD")), "4875.160000 HKD");
    assert_eq!(render_position(&units(0, 0, "USD")), "0 USD");
    let as_amount = Value::Amount(Amount { number: number(150, 2), currency: "EUR".to_string() });
    assert_eq!(
        Executor::value_to_str(&Value::Position(Box::new(units(150, 2, "EUR")))),
        Executor::value_to_str(&as_amount)
    );
}

#[test]
fn positions_at_cost() {
    let day = NaiveDate::new(2023, 7, 4).unwrap();
    assert_eq!(
        render_position(&at_cost(10, "AAPL", 15025, "USD", Some(day), Some("lot-1"))),
        "10 AAPL {150.25 USD, 2023-07-04, \"lot-1\"}"
    );
    assert_eq!(
        render_position(&at_cost(10, "AAPL", 15025, "USD", Some(day), None)),
        "10 AAPL {150.25 USD, 2023-07-04}"
    );
    assert_eq!(
        render_position(&at_cost(10, "AAPL", 15025, "USD", None, Some("x"))),
        "10 AAPL {150.25 USD, \"x\"}"
    );
    assert_eq!(render_position(&at_cost(10, "AAPL", 15025, "USD", None, None)), "10 AAPL {150.25 USD}");
}

#[test]
fn empty_inventory_is_a_pair_of_parentheses() {
    assert_eq!(render_inventory(&inventory(vec![])), "()");
    assert_eq!(render_inventory(&inventory(vec![units(5, 0, "USD")])), "(5 USD)");
}

#[test]
fn currencies_of_one_length_are_ordered_by_number() {
    let inv = inventory(vec![units(21973613, 3, "XAU"), units(487516, 2, "HKD")]);
    assert_eq!(render_inventory(&inv), "(4875.16 HKD, 21973.613 XAU)");
    let swapped = inventory(vec![units(487516, 2, "XAU"), units(21973613, 3, "HKD")]);
    assert_eq!(render_inventory(&swapped), "(4875.16 XAU, 21973.613 HKD)");
}

#[test]
fn numbers_are_ordered_by_value_and_not_by_scale() {
    let inv = inventory(vec![units(100, 0, "AAA"), units(99999, 3, "BBB"), units(1, 0, "CCC")]);
    assert_eq!(render_inventory(&inv), "(1 CCC, 99.999 BBB, 100 AAA)");
}

#[test]
fn equal_positions_keep_their_order() {
    let inv = inventory(vec![units(10, 1, "ZZZ"), units(100, 2, "AAA"), units(1, 0, "MMM")]);
    assert_eq!(render_inventory(&inv), "(1.0 ZZZ, 1.00 AAA, 1 MMM)");
}

#[test]
fn inventories_are_sorted_by_currency_then_cost() {
    let inv = inventory(vec![
        at_cost(1, "AAPL", 20000, "USD", None, None),
        units(7, 0, "CHF"),
        at_cost(9, "AAPL", 10000, "USD", None, None),
        at_cost(2, "AAPL", 10000, "EUR", None, None),
        units(3, 0, "USD"),
        units(1, 0, "AAPL"),
    ]);
    assert_eq!(
        render_inventory(&inv),
        "(3 USD, 7 CHF, 1 AAPL, 2 AAPL {100.00 EUR}, 9 AAPL {100.00 USD}, 1 AAPL {200.00 USD})"
    );
    assert_eq!(
        Executor::value_to_str(&Value::Inventory(Box::new(inv))),
        Ok(Value::String(
            "(3 USD, 7 CHF, 1 AAPL, 2 AAPL {100.00 EUR}, 9 AAPL {100.00 USD}, 1 AAPL {200.00 USD})"
                .to_string()
        ))
    );
}

#[test]
fn sort_keys_of_positions() {
    let key = position_sort_key(&at_cost(10, "AAPL", 15025, "USD", None, None));
    assert_eq!(key.order, 12);
    assert_eq!(key.cost_number, number(15025, 2));
    assert_eq!(key.cost_currency, "USD");
    assert_eq!(key.number, number(10, 0));
    let plain = position_sort_key(&units(3, 0, "JPY"));
    assert_eq!(plain.order, 2);
    assert_eq!(plain.cost_number, number(0, 0));
    assert_eq!(plain.cost_currency, "");
}
