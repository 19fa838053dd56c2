//! The built-in tables of a ledger query language, and its scalar functions.
//!
//! A query runs on an [`executor::Executor`]: the directives of a ledger, their places in the
//! source, the prices and the running balances. From these the library builds the tables
//! `#prices`, `#balances`, `#commodities`, `#events`, `#notes`, `#documents`, `#transactions`
//! ([`system_tables`]), `#accounts` ([`accounts`]), `#entries` ([`entries`]) and `#postings`
//! ([`postings`]), and evaluates the functions on metadata, the conversions and `COALESCE`
//! ([`functions`], [`render`]).
//!
//! Every type has a mathematical counterpart, its view, and every function says over the views
//! what it returns. What holds beyond single functions stands in the modules whose names end in
//! `laws`.
pub mod account_laws;
pub mod accounts;
pub mod ast;
pub mod date;
pub mod entries;
pub mod entry_laws;
pub mod executor;
pub mod function_laws;
pub mod functions;
pub mod holdings;
pub mod keys;
pub mod ledger;
pub mod listing_laws;
pub mod metadata;
pub mod names;
pub mod number;
pub mod posting_cell_laws;
pub mod posting_laws;
pub mod postings;
pub mod render;
pub mod render_laws;
pub mod sorting;
pub mod system_tables;
pub mod table_laws;
pub mod tables;
pub mod text;
pub mod text_laws;
pub mod value;
pub mod value_laws;
pub mod view_laws;
pub mod views;
