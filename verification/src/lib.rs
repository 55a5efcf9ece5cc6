//! A consolidated level-2 order book.
//!
//! Two independent market-data feeds are normalized into typed snapshots
//! (`parser`), merged into one bounded, sorted book annotated with the
//! best-bid/best-ask spread (`book`), and republished as full summaries to
//! any number of subscribers (`publish`).  The per-exchange ingestion
//! lifecycle is a pure transition function (`ingest`); prices are exact
//! fixed-point numbers (`decimal`); JSON decoding is delegated to
//! serde_json behind one named boundary (`json`).

pub mod book;
pub mod decimal;
pub mod json;
pub mod parser;
pub mod ingest;
pub mod publish;
