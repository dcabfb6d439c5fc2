//! `uninstall`: remove an app from `/Applications` and its leftovers under
//! `~/Library`. Listing apps, reading their metadata and removing files happen in
//! the binary; this module holds what the plan and the prompts are made of.
pub mod dates;
pub mod plan;
pub mod leftovers;
pub mod report;
