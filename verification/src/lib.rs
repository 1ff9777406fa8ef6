//! An offline dictionary for the terminal, as a verified library.
//!
//! A corpus of lexical records, one JSON object per line, is loaded into a
//! store in one transaction; a word is then looked up and its entries are
//! shown as wrapped text. This crate holds the rules of both halves and
//! proves them; the files, the network, the store and the pager belong to the
//! program around it.
//!
//! - `text`, `format`, `layout_laws`: characters, the framed header, the
//!   greedy word wrap, and what holds of every wrapped text.
//! - `json`: documents as `serde_json` reads and prints them.
//! - `structs`, `record`, `blob`, `entry`: the lexical record, how it is read
//!   from a document, how it is written as one, and the round trip.
//! - `ingest`: the load as a state machine, strict or lenient, with its
//!   atomicity and its counts.
//! - `store`: the statements of the store, and the exact lookup.
//! - `render`: an entry as blocks of text, and the document of a lookup.
//! - `download`, `utils`, `error`: the steps of the download, where the files
//!   are kept, and the one error type.

pub mod blob;
pub mod download;
pub mod entry;
pub mod error;
pub mod format;
pub mod ingest;
pub mod json;
pub mod layout_laws;
pub mod record;
pub mod render;
pub mod store;
pub mod structs;
pub mod text;
pub mod utils;
