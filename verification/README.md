# rustledger-query

The built-in tables and the scalar functions of a query language for plain-text ledgers, with
contracts that Verus proves.

## Layout

| Module | What it holds |
| --- | --- |
| `executor` | what a query runs on; the scan of all postings |
| `system_tables` | `#prices`, `#balances`, `#commodities`, `#events`, `#notes`, `#documents`, `#transactions` |
| `accounts`, `entries`, `postings` | `#accounts`, `#entries`, `#postings` |
| `functions` | metadata functions, source locations, `STR`, `INT`, `DECIMAL`, `BOOL`, `COALESCE` |
| `render` | positions and inventories as text |
| `table_laws`, `account_laws`, `posting_laws`, `function_laws`, `render_laws` | what holds of all tables and functions |
| `ledger`, `holdings`, `metadata`, `value`, `ast`, `date`, `number` | the data |
| `tables`, `keys`, `sorting`, `names`, `text`, `views` | what the others are built from |

## What is trusted

Decimal numbers are compared, truncated, written and read by `rust_decimal`, accounts are found
by an `FxHashMap` of `rustc-hash`, and the standard library turns strings to uppercase and makes
a string of a single character.
These calls stand behind small functions marked `#[verifier::external_body]`, whose doc comments
say what is claimed of each.
