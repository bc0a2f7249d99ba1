//! A small query engine over collections of comma-separated files.
//!
//! A collection is a set of CSV files that share one header. This crate holds the
//! engine's logic on plain values: predicate parsing and evaluation, filename
//! filtering, the partition of files among workers, the scan of one file's rows,
//! the merge of partial results and the validation of new files. Reading and
//! writing storage, worker threads and the network are left to the caller.

pub mod config;
pub mod db;
pub mod seqs;
pub mod text;
pub mod types;
