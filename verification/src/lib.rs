//! A per-user first-order word-transition model: messages are attributed to
//! named users, deduplicated by content digest, split into words, and counted
//! as weighted transitions from which new text is drawn by a bounded random walk.

pub mod csv_ingest;
pub mod db_client;
pub mod digest;
pub mod options;
pub mod sampling;
pub mod server;
pub mod tables;
pub mod transitions;
pub mod words;
