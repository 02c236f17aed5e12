//! A personal finance ledger: income/expense entries, trip-scoped
//! sub-budgets, conversion between the two supported currencies, and
//! time- and category-windowed summaries.
//!
//! Monetary amounts are fixed-point integers in minor units; every
//! aggregation and projection is specified and proved over that model.

pub mod analytics;
pub mod currency;
pub mod dates;
pub mod laws;
pub mod ledger;
pub mod model;
pub mod project;
pub mod report;
pub mod summary;
mod trusted;
