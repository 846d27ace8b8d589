//! A verified query, cache, and statistics engine for columnar datasets.
//!
//! The library models a materialized dataset as a column-major table of
//! typed cells, translates declarative filter and sort specifications into
//! predicates and orderings over that table, memoizes the most recent
//! materialized result in a single-slot cache, and computes per-column
//! statistics, histograms, and display strings.

pub mod value;
pub mod fmt;
pub mod strutil;
pub mod dataset;
pub mod timeparse;
pub mod casefold;
pub mod filter;
pub mod sort;
pub mod plan;
pub mod stats;
pub mod histogram;
pub mod engine;
pub mod query;
pub mod schema;
