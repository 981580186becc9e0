//! Incremental change detection over the NTFS update sequence (USN) journal.

pub mod text;
pub mod bytes;
pub mod journal;
pub mod changes;
pub mod paths;
pub mod filter;
pub mod session;
pub mod volume;
pub mod bench;
