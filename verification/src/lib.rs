//! Ripgrep-style search with file-level ranking.

pub mod around;
pub mod blocks;
pub mod bytes;
pub mod candidate;
pub mod cli;
pub mod collect;
pub mod containers;
pub mod context;
pub mod cover;
pub mod extract;
pub mod hits;
pub mod json;
pub mod laws;
pub mod matcher;
pub mod order;
pub mod plain;
pub mod query;
pub mod rank;
pub mod reading;
pub mod report;
pub mod run;
pub mod search;
pub mod sinks;
pub mod snippet;
pub mod spelling;
pub mod standard;
pub mod stream;
pub mod text;
pub mod usage;
pub mod walk;
pub mod xml;
