//! Verified building blocks of a small collection of programs: a growable
//! vector with an explicit capacity, an analytics engine that filters,
//! groups and aggregates tabular data, a parser for its textual queries,
//! the bookkeeping of per-user chat sessions, and the scoring and search
//! decisions of a tic-tac-toe agent.
pub mod analytics;
pub mod chat;
pub mod dataset;
pub mod fast_vec;
pub mod query;
pub mod query_parser;
pub mod tic_tac_toe;
