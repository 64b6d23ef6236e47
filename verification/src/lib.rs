//! Verified core of a load-balancer access-log collector.
//!
//! The library parses access-log lines into structured records by a fixed
//! positional grammar, selects freshly written log objects by a trailing
//! time-of-day window, and turns gzip-compressed object bodies into record
//! collections. Network listing and fetching live outside the library and
//! hand it plain values.

pub mod body;
pub mod lex;
pub mod parser;
pub mod paths;
pub mod record;
pub mod render;
pub mod tokenizer;
pub mod window;
