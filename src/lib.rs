//! Per-ticker price history with bounded retention, a cyclic tab selector,
//! and the poll step that turns fetched quotes into history samples.
pub mod axis;
pub mod keys;
pub mod latest;
pub mod poll;
pub mod quote;
pub mod selector;
pub mod series;
pub mod store;
