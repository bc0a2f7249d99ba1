//! The engine: what happens between a request and its answer.

pub mod codec;
pub mod files;
pub mod gather;
pub mod pattern;
pub mod scan;
pub mod select;
pub mod write;

pub use files::{group_collection_files, list_collection_files};
pub use gather::{absorb, gather};
pub use scan::{read_csv, render, scan_rows};
pub use select::{select, StoredFile};
pub use write::{check_payload, delete, insert, satisfies_collection_header};
