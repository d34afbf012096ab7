//! Verified core of a results client for an academic-competition results
//! host: record normalization from raw table cells, tie-aware ranking,
//! qualification (winners and wildcards), composite point aggregation, and
//! expansion of scrape requests into independent fetch units.
//!
//! Network access, HTML element selection, terminal output, and argument
//! parsing live outside this crate; the functions here take and return plain
//! values and are verified against the contracts below.

pub mod advance;
pub mod individual;
pub mod normalize;
pub mod order;
pub mod overall;
pub mod request;
pub mod scrape;
pub mod team;
pub mod text;
