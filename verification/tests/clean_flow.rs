use tiny_cli::cli::CleanOpts;
use tiny_cli::clean::discover::{CategoryGroup, DiscoveryReport};
use tiny_cli::clean::flow::{end_message, next_step, outcome_lines, FlowCommand, FlowEnd, FlowEvent, FlowState};
use tiny_cli::clean::picker::ActionChoice;
use tiny_cli::clean::report::{groups_total, plan_lines, summary_lines};
use tiny_cli::clean::rules::{
    home_locations, is_idle, is_telegram_account, is_telegram_container, is_version_dir_name, python_manifest_names,
    Layout,
};
use tiny_cli::clean::registry::Category;
use tiny_cli::clean::tools::is_safe_cargo_path;
use tiny_cli::clean::types::{CleanAction, CleanItem, ExecReport, RiskLevel};

fn opts() -> CleanOpts {
    CleanOpts {
        dry_run: false,
        yes: false,
        hard: false,
        category: Vec::new(),
        include_review: false,
        include_destructive: false,
        idle_days: 30,
        review_paths: false,
    }
}

/// Runs the flow over `events`, collecting the commands.
fn run(o: &CleanOpts, events: &[FlowEvent]) -> Vec<FlowCommand> {
    let mut state = FlowState::Discovering;
    let mut out = Vec::new();
    for e in events {
        let (s, c) = next_step(o, state, *e);
        state = s;
        out.push(c);
    }
    out
}

#[test]
fn interactive_flow_asks_then_executes() {
    let cmds = run(
        &opts(),
        &[
            FlowEvent::Discovered { groups: 2 },
            FlowEvent::Picked { selected: 1 },
            FlowEvent::PlanShown,
            FlowEvent::Chose(ActionChoice::Trash),
        ],
    );
    assert_eq!(
        cmds,
        vec![
            FlowCommand::ShowPicker,
            FlowCommand::ShowPlan,
            FlowCommand::AskAction { offer_review: true, prefer_hard: false },
            FlowCommand::Execute(CleanAction::Trash),
        ]
    );
}

#[test]
fn hard_delete_from_menu_is_confirmed() {
    let events = [
        FlowEvent::Discovered { groups: 1 },
        FlowEvent::Picked { selected: 1 },
        FlowEvent::PlanShown,
        FlowEvent::Chose(ActionChoice::HardDelete),
        FlowEvent::Confirmed(false),
    ];
    let cmds = run(&opts(), &events);
    assert_eq!(cmds[3], FlowCommand::AskHardConfirm);
    assert_eq!(cmds[4], FlowCommand::Finish(FlowEnd::Aborted));
    let mut yes_events = events;
    yes_events[4] = FlowEvent::Confirmed(true);
    assert_eq!(run(&opts(), &yes_events)[4], FlowCommand::Execute(CleanAction::HardDelete));
}

#[test]
fn dry_run_selects_all_and_stops_after_plan() {
    let mut o = opts();
    o.dry_run = true;
    let cmds = run(&o, &[FlowEvent::Discovered { groups: 3 }, FlowEvent::Picked { selected: 3 }, FlowEvent::PlanShown]);
    assert_eq!(cmds, vec![FlowCommand::SelectAll, FlowCommand::ShowPlan, FlowCommand::Finish(FlowEnd::DryRun)]);
    assert_eq!(end_message(FlowEnd::DryRun), "(dry-run — no changes made)");
}

#[test]
fn yes_runs_preset_action_without_prompts() {
    let mut o = opts();
    o.yes = true;
    o.hard = true;
    o.review_paths = true;
    let cmds = run(&o, &[FlowEvent::Discovered { groups: 1 }, FlowEvent::Picked { selected: 1 }, FlowEvent::PlanShown]);
    assert_eq!(
        cmds,
        vec![FlowCommand::SelectAll, FlowCommand::ShowPlan, FlowCommand::Execute(CleanAction::HardDelete)]
    );
}

#[test]
fn review_paths_drills_before_the_plan_and_menu_hides_review() {
    let mut o = opts();
    o.review_paths = true;
    let cmds = run(
        &o,
        &[
            FlowEvent::Discovered { groups: 1 },
            FlowEvent::Picked { selected: 1 },
            FlowEvent::Reviewed,
            FlowEvent::PlanShown,
            FlowEvent::Chose(ActionChoice::Cancel),
        ],
    );
    assert_eq!(cmds[1], FlowCommand::DrillDown);
    assert_eq!(cmds[3], FlowCommand::AskAction { offer_review: false, prefer_hard: false });
    assert_eq!(cmds[4], FlowCommand::Finish(FlowEnd::Aborted));
}

#[test]
fn nothing_found_or_selected_stops() {
    assert_eq!(run(&opts(), &[FlowEvent::Discovered { groups: 0 }]), vec![FlowCommand::Finish(FlowEnd::NothingFound)]);
    let cmds = run(&opts(), &[FlowEvent::Discovered { groups: 2 }, FlowEvent::Picked { selected: 0 }]);
    assert_eq!(cmds[1], FlowCommand::Finish(FlowEnd::NothingSelected));
    assert_eq!(next_step(&opts(), FlowState::Done, FlowEvent::Reviewed), (FlowState::Done, FlowCommand::Finish(FlowEnd::Aborted)));
}

#[test]
fn outcome_lists_removed_and_failed() {
    let mut r = ExecReport::new();
    r.removed_paths.push("/a".into());
    r.failed.push(("/b".into(), "denied".into()));
    assert_eq!(outcome_lines(&r), vec!["✓ /a", "✗ /b: denied", "Done: 1 removed, 1 failed."]);
}

fn group(id: &str, label: &str, risk: RiskLevel, sizes: &[u64]) -> CategoryGroup {
    let items: Vec<CleanItem> = sizes
        .iter()
        .enumerate()
        .map(|(i, s)| CleanItem {
            category_id: id.into(),
            category_label: label.into(),
            path: format!("/x/{}", i),
            size: *s,
            risk,
        })
        .collect();
    CategoryGroup { id: id.into(), label: label.into(), risk, total_size: sizes.iter().sum(), items }
}

#[test]
fn summary_rows_and_total() {
    let report = DiscoveryReport {
        groups: vec![group("user-logs", "User logs", RiskLevel::Safe, &[1024])],
        skipped_running: vec![("xcode-derived".into(), "Xcode".into())],
    };
    assert_eq!(groups_total(&report.groups), Some(1024));
    assert_eq!(
        summary_lines(&report),
        vec![
            format!("  {:<28} {:>10}   {:<11}   (1 item)", "User logs", "1.00 KB", "safe"),
            String::new(),
            "  Total: 1.00 KB".to_string(),
            String::new(),
            "  ⚠ skipped xcode-derived — Xcode is running. Quit Xcode and rerun.".to_string(),
        ]
    );
    let empty = DiscoveryReport { groups: Vec::new(), skipped_running: Vec::new() };
    assert_eq!(summary_lines(&empty), vec!["(no cleanup candidates discovered)"]);
    let huge = vec![group("a", "a", RiskLevel::Safe, &[u64::MAX]), group("b", "b", RiskLevel::Safe, &[1])];
    assert_eq!(groups_total(&huge), None);
}

#[test]
fn plan_shows_at_most_twenty_paths() {
    let g = group("npm", "npm cache", RiskLevel::Review, &[1; 22]);
    let lines = plan_lines(&[&g]);
    assert_eq!(lines[0], "");
    assert_eq!(lines[1], "== Cleanup plan ==");
    assert_eq!(lines[3], "[npm] npm cache — 22 B (22 items)");
    assert_eq!(lines[4], format!("  {:>10}  /x/0", "1 B"));
    assert_eq!(lines[24], "  ... and 2 more");
    assert_eq!(lines[26], "Grand total: 22 B");
    assert_eq!(lines.len(), 27);
}

#[test]
fn idle_threshold() {
    let day = 86_400;
    assert!(!is_idle(0, 30 * day, 30));
    assert!(is_idle(0, 30 * day + 1, 30));
    assert!(!is_idle(100, 50, 0));
    assert!(!is_idle(0, u64::MAX, u64::MAX));
}

#[test]
fn python_manifest_order() {
    assert_eq!(python_manifest_names(), vec!["pyproject.toml", "setup.py", "requirements.txt"]);
}

#[test]
fn folder_name_rules() {
    assert!(is_version_dir_name("V8"));
    assert!(is_version_dir_name("V10"));
    assert!(!is_version_dir_name("Vacation"));
    assert!(!is_version_dir_name("V"));
    assert!(is_telegram_container("6N38VWS5BX.ru.keepcoder.Telegram"));
    assert!(!is_telegram_container("other.app"));
    assert!(is_telegram_account("account-12345"));
    assert!(!is_telegram_account("profile-1"));
}

#[test]
fn cargo_locations_pass_the_cargo_guard() {
    let locs = home_locations(Category::Cargo);
    assert_eq!(locs.len(), 4);
    for (rel, layout) in locs {
        assert_eq!(layout, Layout::Whole);
        assert!(is_safe_cargo_path(&format!("/Users/me/{}", rel), Some("/Users/me")));
    }
    assert_eq!(home_locations(Category::UserLogs), vec![("Library/Logs", Layout::Entries)]);
    assert!(home_locations(Category::Docker).is_empty());
    assert_eq!(home_locations(Category::AndroidSdk)[2], ("Library/Android/sdk/system-images", Layout::WholeIfIdle));
}
