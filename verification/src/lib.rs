//! Reconciliation of a content-addressed rom catalog against a remote
//! hierarchical store: a catalog index keyed by content hash, a found-set of
//! entries confirmed present in the destination, a folder index from game
//! name to destination folder id, and the per-file decisions of the
//! destination scan and the source scan.

pub mod catalog;
pub mod dest_scan;
pub mod laws;
pub mod parse;
pub mod report;
pub mod rom;
pub mod seqtools;
pub mod source_scan;
pub mod state;
