//! Command-line option types. Parsing (flags, defaults, help text) is done by the
//! binary; the library receives these plain values.
use vstd::prelude::*;

verus! {

/// Top-level invocation: which command runs.
pub struct Cli {
    pub command: Commands,
}

pub enum Commands {
    /// Show system information (CPU, memory, disk, uptime)
    Sys,
    /// Scan common folders and report large or old files (read-only)
    Scan(ScanOpts),
    /// Interactive cleanup of caches and recoverable data
    Clean(CleanOpts),
    /// Run a focus timer session and log it locally
    Focus(FocusOpts),
    /// Uninstall apps from /Applications and clean ~/Library leftovers
    Uninstall(UninstallOpts),
}

/// Order of the file lists in `scan` reports.
#[derive(Clone, Copy, Debug, PartialEq, Eq, Structural)]
pub enum ScanSort {
    /// Largest first
    Size,
    /// Oldest first
    Age,
    /// Path, ascending
    Path,
}

pub struct ScanOpts {
    /// Report files at or above this size in megabytes (default 100)
    pub min_size_mb: u64,
    /// Report files older than this many days (default 90)
    pub older_than_days: u64,
    /// Directories to scan instead of ~/Downloads, ~/Desktop, ~/Documents
    pub path: Vec<String>,
    /// Emit JSON instead of text
    pub json: bool,
    /// Sort order of the listed files
    pub sort: ScanSort,
    /// How many entries each list shows
    pub limit: usize,
    /// Add a per-extension breakdown
    pub by_ext: bool,
    /// Add duplicate detection
    pub duplicates: bool,
    /// Confirm duplicates by hashing their contents
    pub hash: bool,
}

pub struct CleanOpts {
    /// Show the plan and exit, no prompt
    pub dry_run: bool,
    /// Skip the action menu (requires --category)
    pub yes: bool,
    /// Permanent delete instead of Move to Trash
    pub hard: bool,
    /// Restrict to these category ids (repeatable)
    pub category: Vec<String>,
    /// Also list review-risk categories
    pub include_review: bool,
    /// Also list destructive categories (Trash, local snapshots)
    pub include_destructive: bool,
    /// Idle threshold for project caches, in days (default 30, must be > 0)
    pub idle_days: u64,
    /// Open the per-path drill-down before the action runs
    pub review_paths: bool,
}

pub struct UninstallOpts {
    /// App name (e.g. "Cursor"). If omitted, an interactive picker is shown.
    pub name: Option<String>,
    /// Only show the report and exit. Does not prompt for action.
    pub dry_run: bool,
    /// Skip the action menu and execute immediately (Trash, or rm -rf if --hard).
    pub yes: bool,
    /// Only remove /Applications/<Name>.app, skip ~/Library cleanup.
    pub shallow: bool,
    /// Only clean ~/Library leftovers, keep /Applications/<Name>.app.
    pub leftovers_only: bool,
    /// rm -rf instead of moving to Trash. NOT recoverable.
    pub hard: bool,
    /// Sort order in the interactive picker.
    pub sort: SortBy,
    /// Allow uninstalling Homebrew casks (default: warn and refuse).
    pub force: bool,
}

#[derive(Clone, Copy, Debug, PartialEq, Eq, Structural)]
pub enum SortBy {
    /// Least recently used first (default)
    LastUsed,
    /// Largest size first
    Size,
    /// Alphabetical
    Name,
}

pub struct FocusOpts {
    /// Length of the focus session in minutes (default 25)
    pub minutes: u64,
    /// Optional label for the session (e.g. "deep work")
    pub label: Option<String>,
}

} // verus!
