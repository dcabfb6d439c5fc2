use std::cell::Cell;

use tiny_cli::clean::discover::CategoryGroup;
use tiny_cli::clean::execute::{
    assemble_execution, ensure_provider_exists, execute, execute_with_providers, keep_unexcluded, map_action,
    plan_group, ExecError,
};
use tiny_cli::clean::providers::ProviderIo;
use tiny_cli::clean::registry::Category;
use tiny_cli::clean::types::{CleanAction, CleanItem, ExecAction, ExecReport, RiskLevel};

struct CountingIo {
    calls: Cell<usize>,
    last_len: Cell<usize>,
    last_action: Cell<Option<ExecAction>>,
}

impl CountingIo {
    fn new() -> Self {
        CountingIo { calls: Cell::new(0), last_len: Cell::new(0), last_action: Cell::new(None) }
    }
}

impl ProviderIo for CountingIo {
    fn available(&self, _category: Category) -> bool {
        true
    }
    fn discover(&self, _category: Category) -> Result<Vec<CleanItem>, String> {
        Ok(Vec::new())
    }
    fn execute(&self, _category: Category, items: &[CleanItem], action: ExecAction) -> Result<ExecReport, String> {
        self.calls.set(self.calls.get() + 1);
        self.last_len.set(items.len());
        self.last_action.set(Some(action));
        let mut r = ExecReport::new();
        for it in items {
            r.removed_paths.push(it.path.clone());
        }
        Ok(r)
    }
}

fn item(path: &str, cat: &str) -> CleanItem {
    CleanItem {
        category_id: cat.into(),
        category_label: cat.into(),
        path: path.into(),
        size: 0,
        risk: RiskLevel::Safe,
    }
}

fn group_with(items: Vec<CleanItem>, id: &str) -> CategoryGroup {
    CategoryGroup { id: id.into(), label: id.into(), risk: RiskLevel::Safe, total_size: 0, items }
}

#[test]
fn drill_down_filter_removes_empty_categories() {
    let io = CountingIo::new();
    let g = group_with(vec![item("/a", "user-logs"), item("/b", "user-logs")], "user-logs");
    let groups = vec![&g];
    let excluded = vec!["/a".to_string(), "/b".to_string()];
    let report = execute_with_providers(&groups, CleanAction::Trash, &excluded, &io).unwrap();
    assert_eq!(report.removed_paths.len(), 0);
    assert_eq!(io.calls.get(), 0, "provider must NOT be called when filtered set is empty");
}

#[test]
fn execute_filters_only_excluded_items() {
    let io = CountingIo::new();
    let g = group_with(
        vec![item("/a", "user-logs"), item("/b", "user-logs"), item("/c", "user-logs")],
        "user-logs",
    );
    let groups = vec![&g];
    let excluded = vec!["/b".to_string()];
    let _ = execute_with_providers(&groups, CleanAction::Trash, &excluded, &io).unwrap();
    assert_eq!(io.calls.get(), 1);
    assert_eq!(io.last_len.get(), 2, "filtered should pass 2 items, not 3");
}

#[test]
fn hard_delete_maps_to_empty_trash_for_trash_provider() {
    assert_eq!(map_action(CleanAction::HardDelete, "trash").unwrap(), ExecAction::EmptyTrash);
}

#[test]
fn hard_delete_maps_to_hard_delete_for_others() {
    assert_eq!(map_action(CleanAction::HardDelete, "user-logs").unwrap(), ExecAction::HardDelete);
    assert_eq!(map_action(CleanAction::HardDelete, "cargo").unwrap(), ExecAction::HardDelete);
}

#[test]
fn trash_action_rejected_for_trash_provider() {
    assert!(map_action(CleanAction::Trash, "trash").is_err());
}

#[test]
fn trash_action_passes_for_others() {
    assert_eq!(map_action(CleanAction::Trash, "user-logs").unwrap(), ExecAction::Trash);
}

#[test]
fn dry_run_and_cancel_are_not_executable() {
    assert!(matches!(map_action(CleanAction::DryRun, "user-logs"), Err(ExecError::NotExecutable)));
    assert!(matches!(map_action(CleanAction::Cancel, "trash"), Err(ExecError::NotExecutable)));
}

#[test]
fn error_messages_read_as_before() {
    assert_eq!(
        ExecError::TrashNeedsHard.to_string(),
        "trash category requires --hard (cannot 'move trash to trash')"
    );
    assert_eq!(ExecError::TrashRejected.to_string(), "trash provider rejects Trash action");
    assert_eq!(ExecError::NotExecutable.to_string(), "DryRun/Cancel must be handled before execute()");
    assert_eq!(
        ExecError::UnknownCategory("zzz".into()).to_string(),
        "internal error: no provider registered for category 'zzz'"
    );
    assert_eq!(ExecError::NoProvider("zzz".into()).to_string(), "no provider for 'zzz'");
    assert_eq!(ExecError::Provider("boom".into()).to_string(), "boom");
}

#[test]
fn plan_with_trash_group_refuses_trash_action_before_running() {
    let io = CountingIo::new();
    let logs = group_with(vec![item("/l", "user-logs")], "user-logs");
    let trash = group_with(vec![item("/t", "trash")], "trash");
    let groups = vec![&logs, &trash];
    let r = execute(&groups, CleanAction::Trash, &Vec::new(), &io);
    assert!(matches!(r, Err(ExecError::TrashNeedsHard)));
    assert_eq!(io.calls.get(), 0);
}

#[test]
fn hard_delete_reaches_trash_as_empty_trash() {
    let io = CountingIo::new();
    let trash = group_with(vec![item("<empty trash>", "trash")], "trash");
    let groups = vec![&trash];
    let r = execute(&groups, CleanAction::HardDelete, &Vec::new(), &io).unwrap();
    assert_eq!(io.last_action.get(), Some(ExecAction::EmptyTrash));
    assert_eq!(r.removed_paths, vec!["<empty trash>".to_string()]);
}

#[test]
fn unknown_group_id_stops_the_plan() {
    let io = CountingIo::new();
    let g = group_with(vec![item("/x", "nope")], "nope");
    let groups = vec![&g];
    let r = execute_with_providers(&groups, CleanAction::Trash, &Vec::new(), &io);
    match r {
        Err(ExecError::UnknownCategory(id)) => assert_eq!(id, "nope"),
        _ => panic!("expected an unknown-category error"),
    }
    assert_eq!(io.calls.get(), 0);
}

#[test]
fn reports_of_groups_are_merged_in_order() {
    let io = CountingIo::new();
    let a = group_with(vec![item("/a1", "user-logs"), item("/a2", "user-logs")], "user-logs");
    let b = group_with(vec![item("/b1", "npm")], "npm");
    let groups = vec![&a, &b];
    let r = execute_with_providers(&groups, CleanAction::HardDelete, &vec!["/a2".to_string()], &io)
        .unwrap();
    assert_eq!(r.removed_paths, vec!["/a1".to_string(), "/b1".to_string()]);
    assert_eq!(io.calls.get(), 2);
}

#[test]
fn keep_unexcluded_keeps_order() {
    let items = vec![item("/a", "x"), item("/b", "x"), item("/c", "x")];
    let kept = keep_unexcluded(&items, &vec!["/a".to_string()]);
    let paths: Vec<&str> = kept.iter().map(|i| i.path.as_str()).collect();
    assert_eq!(paths, vec!["/b", "/c"]);
}

#[test]
fn plan_group_skips_fully_excluded_group() {
    let g = group_with(vec![item("/a", "trash")], "trash");
    let r = plan_group(&g, CleanAction::Trash, &vec!["/a".to_string()]);
    assert!(matches!(r, Ok(None)));
    let r = plan_group(&g, CleanAction::Trash, &Vec::new());
    assert!(matches!(r, Err(ExecError::TrashRejected)));
}

#[test]
fn ensure_provider_exists_names_missing_id() {
    let cats = vec![Category::UserLogs, Category::Trash];
    assert!(ensure_provider_exists(&cats, "trash").is_ok());
    match ensure_provider_exists(&cats, "npm") {
        Err(ExecError::NoProvider(id)) => assert_eq!(id, "npm"),
        _ => panic!("expected a missing-provider error"),
    }
}

#[test]
fn executor_gets_kept_items_once() {
    let io = CountingIo::new();
    let g = group_with(vec![item("/a", "user-logs"), item("/b", "user-logs"), item("/c", "user-logs")], "user-logs");
    let groups = vec![&g];
    let r = execute_with_providers(&groups, CleanAction::Trash, &vec!["/b".to_string()], &io).unwrap();
    assert_eq!(io.calls.get(), 1);
    assert_eq!(io.last_len.get(), 2);
    assert_eq!(io.last_action.get(), Some(ExecAction::Trash));
    assert_eq!(r.removed_paths, vec!["/a".to_string(), "/c".to_string()]);
}

fn report_of(removed: &[&str], failed: &[(&str, &str)], skipped: Option<&str>) -> ExecReport {
    let mut r = ExecReport::new();
    r.removed_paths = removed.iter().map(|s| s.to_string()).collect();
    r.failed = failed.iter().map(|(p, m)| (p.to_string(), m.to_string())).collect();
    r.skipped_running_app = skipped.map(|s| s.to_string());
    r
}

#[test]
fn assembled_plan_merges_the_executor_answers_in_order() {
    let g1 = group_with(vec![item("/a", "user-logs")], "user-logs");
    let g2 = group_with(vec![item("/b", "user-caches")], "user-caches");
    let g3 = group_with(vec![item("/c", "quarantine")], "quarantine");
    let groups = vec![&g1, &g2, &g3];
    let excluded = vec!["/b".to_string()];
    let answers = vec![
        Ok(report_of(&["/a"], &[], None)),
        Ok(report_of(&["/ignored"], &[], None)),
        Ok(report_of(&[], &[("/c", "busy")], Some("Finder"))),
    ];
    let r = assemble_execution(&groups, CleanAction::Trash, &excluded, answers).unwrap();
    assert_eq!(r.removed_paths, vec!["/a".to_string()]);
    assert_eq!(r.failed, vec![("/c".to_string(), "busy".to_string())]);
    assert_eq!(r.skipped_running_app, Some("Finder".to_string()));
}

#[test]
fn assembled_plan_stops_at_an_executor_error_or_a_refusal() {
    let g1 = group_with(vec![item("/a", "user-logs")], "user-logs");
    let g2 = group_with(vec![item("/t", "trash")], "trash");
    let groups = vec![&g1, &g2];
    let r = assemble_execution(&groups, CleanAction::Trash, &Vec::new(), vec![Err("disk gone".to_string())]);
    assert!(matches!(r, Err(ExecError::Provider(m)) if m == "disk gone"));
    let r = assemble_execution(&groups, CleanAction::Trash, &Vec::new(), vec![Ok(ExecReport::new())]);
    assert!(matches!(r, Err(ExecError::TrashRejected)));
}

#[test]
fn nothing_kept_asks_no_executor() {
    let io = CountingIo::new();
    let g = group_with(vec![item("/a", "user-logs")], "user-logs");
    let groups = vec![&g];
    let r = execute_with_providers(&groups, CleanAction::HardDelete, &vec!["/a".to_string()], &io).unwrap();
    assert_eq!(io.calls.get(), 0);
    assert!(r.removed_paths.is_empty() && r.failed.is_empty() && r.skipped_running_app.is_none());
}
