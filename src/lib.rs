//! Running per-topic word counts: message tokenizing, the ingest loop's decisions, the ranked
//! store's request and reply rules, and the checks of the counts query.

pub mod config;
pub mod ingest;
pub mod query;
pub mod ranked;
pub mod score;
pub mod tokenizer;
