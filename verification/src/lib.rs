//! The history of coding-agent sessions: what is stored of them, how it is read back,
//! and what a live capture does.
//!
//! The library holds the rules and computes on plain values. The database, the
//! filesystem, the clock and the threads belong to its caller, who hands in what was
//! read and carries out what was decided.
pub mod admitting;
pub mod answering;
pub mod attribution;
pub mod capturing;
pub mod catalog;
pub mod charging;
pub mod digest;
pub mod doubles;
pub mod evidence;
pub mod evidence_columns;
pub mod evidence_sql;
pub mod finding;
pub mod fts;
pub mod grouping;
pub mod json;
pub mod keeping;
pub mod keyset;
pub mod listing;
pub mod matching;
pub mod messages;
pub mod migrated;
pub mod migrations;
pub mod naming;
pub mod noticing;
pub mod opening;
pub mod order;
pub mod pages;
pub mod prompts;
pub mod queries;
pub mod reading;
pub mod reconciled;
pub mod recording;
pub mod registrations;
pub mod schema;
pub mod selecting;
pub mod session_store;
pub mod session_usage;
pub mod source_evidence;
pub mod source_intake;
pub mod sources;
pub mod storage;
pub mod store;
pub mod text;
pub mod totals;
pub mod usage;
pub mod walking;
pub mod watch;
