//! Verified core of an IMAP-mailbox-to-Markdown export pipeline.
//!
//! The library holds the logic of the exporter: MIME-tree decomposition into a
//! body and attachments, message classification and contact collection,
//! deduplication against a prior export, document and filename assembly, and
//! the per-folder bookkeeping (statistics, progress, retry policy). Network
//! and filesystem work stays outside; the functions here take plain values
//! (bytes, strings, lists of existing files) and return plain values, so that
//! every decision the exporter makes is covered by a contract.

pub mod classify;
pub mod config;
pub mod contacts;
pub mod dates;
pub mod export;
pub mod hashing;
pub mod mime;
pub mod naming;
pub mod pipeline;
pub mod text;
pub mod thunderbird;
