//! The decisions of an interactive cleanup, one step at a time. The binary runs
//! the loop: it performs the command returned here (discovery, the pickers, the
//! plan, the menus, the execution) and hands back what came of it.
//!
//! After discovery the groups are picked (all of them with `--yes` or `--dry-run`),
//! optionally reviewed path by path (`--review-paths`), the plan is shown, and then
//! `--dry-run` stops, `--yes` runs the preset action, and otherwise the action menu
//! decides; a hard delete chosen in the menu is confirmed first.
use vstd::prelude::*;
use crate::text::names;
use crate::cli::CleanOpts;
use crate::clean::picker::ActionChoice;
use crate::clean::types::{CleanAction, ExecReport};
use crate::text::{append_str, decimal, push_decimal};

verus! {

broadcast use vstd::string::group_string_axioms;

/// Where the cleanup stands.
#[derive(Debug, Clone, Copy, PartialEq, Eq, Structural)]
pub enum FlowState {
    /// Discovery is under way.
    Discovering,
    /// The groups to clean are being picked.
    Picking,
    /// The picked groups are reviewed path by path.
    Reviewing,
    /// The plan is being shown; `drilled` says whether a review took place.
    Planning { drilled: bool },
    /// The action menu is open.
    Choosing { drilled: bool },
    /// The hard-delete confirmation is open.
    Confirming,
    /// Nothing is left to decide.
    Done,
}

/// What the binary reports back.
#[derive(Debug, Clone, Copy, PartialEq, Eq, Structural)]
pub enum FlowEvent {
    /// Discovery found this many groups (the summary is printed).
    Discovered { groups: usize },
    /// This many groups were picked.
    Picked { selected: usize },
    /// The path-by-path review is over.
    Reviewed,
    /// The plan was printed.
    PlanShown,
    /// The action menu's answer.
    Chose(ActionChoice),
    /// The hard-delete confirmation's answer.
    Confirmed(bool),
}

/// Why the cleanup ends without executing.
#[derive(Debug, Clone, Copy, PartialEq, Eq, Structural)]
pub enum FlowEnd {
    /// Nothing was discovered.
    NothingFound,
    /// No group was picked.
    NothingSelected,
    /// A dry run.
    DryRun,
    /// The user cancelled or declined.
    Aborted,
}

/// What the binary does next.
#[derive(Debug, Clone, Copy, PartialEq, Eq, Structural)]
pub enum FlowCommand {
    /// Open the category picker.
    ShowPicker,
    /// Take every discovered group.
    SelectAll,
    /// Review the picked groups path by path.
    DrillDown,
    /// Print the plan of the picked groups.
    ShowPlan,
    /// Open the action menu.
    AskAction { offer_review: bool, prefer_hard: bool },
    /// Ask for the hard-delete confirmation.
    AskHardConfirm,
    /// Execute the plan.
    Execute(CleanAction),
    /// Stop.
    Finish(FlowEnd),
}

/// The action `--yes` runs: a hard delete with `--hard`, else a move to the Trash.
pub open spec fn preset(opts: CleanOpts) -> CleanAction {
    if opts.hard {
        CleanAction::HardDelete
    } else {
        CleanAction::Trash
    }
}

/// The transition table of the cleanup.
pub open spec fn step_spec(opts: CleanOpts, state: FlowState, event: FlowEvent) -> (FlowState, FlowCommand) {
    match (state, event) {
        (FlowState::Discovering, FlowEvent::Discovered { groups }) => if groups == 0 {
            (FlowState::Done, FlowCommand::Finish(FlowEnd::NothingFound))
        } else if opts.yes || opts.dry_run {
            (FlowState::Picking, FlowCommand::SelectAll)
        } else {
            (FlowState::Picking, FlowCommand::ShowPicker)
        },
        (FlowState::Picking, FlowEvent::Picked { selected }) => if selected == 0 {
            (FlowState::Done, FlowCommand::Finish(FlowEnd::NothingSelected))
        } else if opts.review_paths && !opts.yes {
            (FlowState::Reviewing, FlowCommand::DrillDown)
        } else {
            (FlowState::Planning { drilled: false }, FlowCommand::ShowPlan)
        },
        (FlowState::Reviewing, FlowEvent::Reviewed) => (FlowState::Planning { drilled: true }, FlowCommand::ShowPlan),
        (FlowState::Planning { drilled }, FlowEvent::PlanShown) => if opts.dry_run {
            (FlowState::Done, FlowCommand::Finish(FlowEnd::DryRun))
        } else if opts.yes {
            (FlowState::Done, FlowCommand::Execute(preset(opts)))
        } else {
            (
                FlowState::Choosing { drilled },
                FlowCommand::AskAction { offer_review: !drilled, prefer_hard: opts.hard },
            )
        },
        (FlowState::Choosing { drilled }, FlowEvent::Chose(c)) => match c {
            ActionChoice::Trash => (FlowState::Done, FlowCommand::Execute(CleanAction::Trash)),
            ActionChoice::HardDelete => (FlowState::Confirming, FlowCommand::AskHardConfirm),
            ActionChoice::DryRun => (FlowState::Done, FlowCommand::Finish(FlowEnd::DryRun)),
            ActionChoice::Cancel => (FlowState::Done, FlowCommand::Finish(FlowEnd::Aborted)),
            ActionChoice::ReviewPaths => (FlowState::Reviewing, FlowCommand::DrillDown),
        },
        (FlowState::Confirming, FlowEvent::Confirmed(yes)) => if yes {
            (FlowState::Done, FlowCommand::Execute(CleanAction::HardDelete))
        } else {
            (FlowState::Done, FlowCommand::Finish(FlowEnd::Aborted))
        },
        _ => (FlowState::Done, FlowCommand::Finish(FlowEnd::Aborted)),
    }
}

/// The next state and command after `event` in `state`.
pub fn next_step(opts: &CleanOpts, state: FlowState, event: FlowEvent) -> (r: (FlowState, FlowCommand))
    ensures
        r == step_spec(*opts, state, event),
{
    match (state, event) {
        (FlowState::Discovering, FlowEvent::Discovered { groups }) => {
            if groups == 0 {
                (FlowState::Done, FlowCommand::Finish(FlowEnd::NothingFound))
            } else if opts.yes || opts.dry_run {
                (FlowState::Picking, FlowCommand::SelectAll)
            } else {
                (FlowState::Picking, FlowCommand::ShowPicker)
            }
        },
        (FlowState::Picking, FlowEvent::Picked { selected }) => {
            if selected == 0 {
                (FlowState::Done, FlowCommand::Finish(FlowEnd::NothingSelected))
            } else if opts.review_paths && !opts.yes {
                (FlowState::Reviewing, FlowCommand::DrillDown)
            } else {
                (FlowState::Planning { drilled: false }, FlowCommand::ShowPlan)
            }
        },
        (FlowState::Reviewing, FlowEvent::Reviewed) => (
            FlowState::Planning { drilled: true },
            FlowCommand::ShowPlan,
        ),
        (FlowState::Planning { drilled }, FlowEvent::PlanShown) => {
            if opts.dry_run {
                (FlowState::Done, FlowCommand::Finish(FlowEnd::DryRun))
            } else if opts.yes {
                let a = if opts.hard { CleanAction::HardDelete } else { CleanAction::Trash };
                (FlowState::Done, FlowCommand::Execute(a))
            } else {
                (
                    FlowState::Choosing { drilled },
                    FlowCommand::AskAction { offer_review: !drilled, prefer_hard: opts.hard },
                )
            }
        },
        (FlowState::Choosing { drilled }, FlowEvent::Chose(c)) => match c {
            ActionChoice::Trash => (FlowState::Done, FlowCommand::Execute(CleanAction::Trash)),
            ActionChoice::HardDelete => (FlowState::Confirming, FlowCommand::AskHardConfirm),
            ActionChoice::DryRun => (FlowState::Done, FlowCommand::Finish(FlowEnd::DryRun)),
            ActionChoice::Cancel => (FlowState::Done, FlowCommand::Finish(FlowEnd::Aborted)),
            ActionChoice::ReviewPaths => (FlowState::Reviewing, FlowCommand::DrillDown),
        },
        (FlowState::Confirming, FlowEvent::Confirmed(yes)) => {
            if yes {
                (FlowState::Done, FlowCommand::Execute(CleanAction::HardDelete))
            } else {
                (FlowState::Done, FlowCommand::Finish(FlowEnd::Aborted))
            }
        },
        _ => (FlowState::Done, FlowCommand::Finish(FlowEnd::Aborted)),
    }
}

/// The state reached and the commands issued when the events of `events` are
/// handed back in order, starting from discovery.
pub open spec fn run_flow(opts: CleanOpts, events: Seq<FlowEvent>) -> (FlowState, Seq<FlowCommand>)
    decreases events.len(),
{
    if events.len() == 0 {
        (FlowState::Discovering, Seq::<FlowCommand>::empty())
    } else {
        let p = run_flow(opts, events.drop_last());
        let n = step_spec(opts, p.0, events.last());
        (n.0, p.1.push(n.1))
    }
}

pub open spec fn end_text(e: FlowEnd) -> Seq<char> {
    match e {
        FlowEnd::NothingFound => "Nothing to clean."@,
        FlowEnd::NothingSelected => "No categories selected."@,
        FlowEnd::DryRun => "(dry-run — no changes made)"@,
        FlowEnd::Aborted => "Aborted."@,
    }
}

/// The message a cleanup that stops without executing ends with.
pub fn end_message(e: FlowEnd) -> (r: &'static str)
    ensures
        r@ == end_text(e),
{
    match e {
        FlowEnd::NothingFound => "Nothing to clean.",
        FlowEnd::NothingSelected => "No categories selected.",
        FlowEnd::DryRun => "(dry-run — no changes made)",
        FlowEnd::Aborted => "Aborted.",
    }
}


/// What an execution came to: a line per removed path, a line per failure with its
/// reason, the app that kept a category from running (if any), and the counts.
pub open spec fn outcome_text(r: ExecReport) -> Seq<Seq<char>> {
    r.removed_paths@.map_values(|p: String| "✓ "@ + p@) + r.failed@.map_values(
        |f: (String, String)| "✗ "@ + f.0@ + ": "@ + f.1@,
    ) + (match r.skipped_running_app {
        Some(app) => seq!["⚠ skipped: "@ + app@ + " is running"@],
        None => Seq::<Seq<char>>::empty(),
    }) + seq![
        "Done: "@ + decimal(r.removed_paths@.len()) + " removed, "@ + decimal(r.failed@.len()) + " failed."@,
    ]
}

pub fn outcome_lines(r: &ExecReport) -> (out: Vec<String>)
    ensures
        names(out@) == outcome_text(*r),
{
    let mut out: Vec<String> = Vec::new();
    let ghost fr = |p: String| "✓ "@ + p@;
    let ghost ff = |f: (String, String)| "✗ "@ + f.0@ + ": "@ + f.1@;
    let mut i: usize = 0;
    while i < r.removed_paths.len()
        invariant
            i <= r.removed_paths@.len(),
            fr == |p: String| "✓ "@ + p@,
            names(out@) == r.removed_paths@.take(i as int).map_values(fr),
        decreases r.removed_paths@.len() - i,
    {
        let mut s = String::from_str("✓ ");
        append_str(&mut s, r.removed_paths[i].as_str());
        let ghost before = out@;
        out.push(s);
        assert(names(out@) =~= names(before).push(fr(r.removed_paths@[i as int])));
        assert(r.removed_paths@.take(i + 1).map_values(fr) =~= r.removed_paths@.take(i as int).map_values(fr).push(
            fr(r.removed_paths@[i as int]),
        ));
        i += 1;
    }
    assert(r.removed_paths@.take(r.removed_paths@.len() as int) =~= r.removed_paths@);
    let ghost mid = names(out@);
    let mut j: usize = 0;
    while j < r.failed.len()
        invariant
            j <= r.failed@.len(),
            ff == |f: (String, String)| "✗ "@ + f.0@ + ": "@ + f.1@,
            names(out@) == mid + r.failed@.take(j as int).map_values(ff),
        decreases r.failed@.len() - j,
    {
        let mut s = String::from_str("✗ ");
        append_str(&mut s, r.failed[j].0.as_str());
        append_str(&mut s, ": ");
        append_str(&mut s, r.failed[j].1.as_str());
        let ghost before = out@;
        out.push(s);
        assert(names(out@) =~= names(before).push(ff(r.failed@[j as int])));
        assert(r.failed@.take(j + 1).map_values(ff) =~= r.failed@.take(j as int).map_values(ff).push(
            ff(r.failed@[j as int]),
        ));
        j += 1;
    }
    assert(r.failed@.take(r.failed@.len() as int) =~= r.failed@);
    match &r.skipped_running_app {
        Some(app) => {
            let mut s = String::from_str("⚠ skipped: ");
            append_str(&mut s, app.as_str());
            append_str(&mut s, " is running");
            out.push(s);
        },
        None => {},
    }
    let mut d = String::from_str("Done: ");
    push_decimal(&mut d, r.removed_paths.len() as u64);
    append_str(&mut d, " removed, ");
    push_decimal(&mut d, r.failed.len() as u64);
    append_str(&mut d, " failed.");
    out.push(d);
    assert(names(out@) =~= outcome_text(*r));
    out
}

} // verus!
