//! `scan`: a read-only report of large, old, duplicate and per-extension files.
//! Reading the file system and printing happen in the binary; this module holds
//! the walk over what was read and what the report is made of.
pub mod types;
pub mod sort;
pub mod ignore;
pub mod extensions;
pub mod duplicates;
pub mod plan;
pub mod report;
pub mod walker;
