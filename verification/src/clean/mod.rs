pub mod types;
pub mod registry;
pub mod validate;
pub mod process;
pub mod runner;
pub mod providers;
pub mod discover;
pub mod execute;
pub mod picker;
pub mod drill;
pub mod exclusion;
pub mod tools;
pub mod rules;
pub mod report;
pub mod flow;
pub mod walk;
pub mod listing;
