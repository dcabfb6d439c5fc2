//! Data shared by every cleanup stage: risk levels, discovered items, actions and
//! execution reports.
use vstd::prelude::*;

verus! {

broadcast use vstd::string::group_string_axioms;

#[derive(Debug, Clone, Copy, PartialEq, Eq, Structural)]
pub enum RiskLevel {
    Safe,
    Review,
    Destructive,
}

/// Severity rank: Safe < Review < Destructive.
pub open spec fn risk_rank(r: RiskLevel) -> nat {
    match r {
        RiskLevel::Safe => 0,
        RiskLevel::Review => 1,
        RiskLevel::Destructive => 2,
    }
}

pub open spec fn badge_text(r: RiskLevel) -> Seq<char> {
    match r {
        RiskLevel::Safe => "safe"@,
        RiskLevel::Review => "review"@,
        RiskLevel::Destructive => "destructive"@,
    }
}

impl RiskLevel {
    pub fn badge(&self) -> (r: &'static str)
        ensures
            r@ == badge_text(*self),
    {
        match self {
            RiskLevel::Safe => "safe",
            RiskLevel::Review => "review",
            RiskLevel::Destructive => "destructive",
        }
    }
}

/// One path (or synthetic placeholder) that a category proposes to remove.
#[derive(Debug, Clone)]
pub struct CleanItem {
    pub category_id: String,
    pub category_label: String,
    pub path: String,
    pub size: u64,
    pub risk: RiskLevel,
}

impl CleanItem {
    /// A field-by-field copy.
    pub fn duplicate(&self) -> (r: CleanItem)
        ensures
            r == *self,
    {
        CleanItem {
            category_id: self.category_id.clone(),
            category_label: self.category_label.clone(),
            path: self.path.clone(),
            size: self.size,
            risk: self.risk,
        }
    }
}

/// What reaches a provider's executor. Three semantics, distinct on purpose so
/// providers can't accidentally conflate them.
#[derive(Debug, Clone, Copy, PartialEq, Eq, Structural)]
pub enum ExecAction {
    Trash,
    HardDelete,
    EmptyTrash,
}

/// What the user sees in the action menu.
#[derive(Debug, Clone, Copy, PartialEq, Eq, Structural)]
pub enum CleanAction {
    Trash,
    HardDelete,
    DryRun,
    Cancel,
}

/// Outcome of executing one or more categories.
#[derive(Debug, Default)]
pub struct ExecReport {
    pub removed_paths: Vec<String>,
    pub failed: Vec<(String, String)>,
    pub skipped_running_app: Option<String>,
}

impl ExecReport {
    pub fn new() -> (r: ExecReport)
        ensures
            r.removed_paths@.len() == 0,
            r.failed@.len() == 0,
            r.skipped_running_app is None,
    {
        ExecReport { removed_paths: Vec::new(), failed: Vec::new(), skipped_running_app: None }
    }

    /// Appends `other`'s removed and failed paths; keeps the first skipped app.
    pub fn merge(&mut self, other: ExecReport)
        ensures
            final(self).removed_paths@ == old(self).removed_paths@ + other.removed_paths@,
            final(self).failed@ == old(self).failed@ + other.failed@,
            final(self).skipped_running_app == (if old(self).skipped_running_app is None {
                other.skipped_running_app
            } else {
                old(self).skipped_running_app
            }),
    {
        let mut removed = other.removed_paths;
        let mut failed = other.failed;
        self.removed_paths.append(&mut removed);
        self.failed.append(&mut failed);
        if self.skipped_running_app.is_none() {
            self.skipped_running_app = other.skipped_running_app;
        }
    }
}

} // verus!
