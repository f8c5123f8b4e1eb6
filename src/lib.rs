//! Inventory of a game archive: for each game system, how many games its
//! directory holds and how many bytes they take, gathered into a report that
//! lists the systems in registry order with a grand total.
//!
//! - `entry`: what one directory entry adds to its system's tally.
//! - `scan`: the tally of one system's directory.
//! - `aggregate`: the shared table of tallies and the report read from it.
//! - `category`: systems, the built-in registry, and selection by label.
//! - `config`: the settings of a run.
pub mod aggregate;
pub mod category;
pub mod config;
pub mod entry;
pub mod scan;
pub mod sums;
