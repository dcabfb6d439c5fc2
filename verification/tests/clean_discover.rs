use std::cell::RefCell;
use std::collections::HashSet;

use tiny_cli::cli::CleanOpts;
use tiny_cli::clean::discover::{add_sizes, assemble_discovery, discover_with_checker, select_providers, CategoryAnswer};
use tiny_cli::clean::process::{any_running, ProcessChecker};
use tiny_cli::clean::providers::ProviderIo;
use tiny_cli::clean::registry::Category;
use tiny_cli::clean::types::{CleanItem, ExecAction, ExecReport, RiskLevel};

fn opts() -> CleanOpts {
    CleanOpts {
        dry_run: false,
        yes: false,
        hard: false,
        category: Vec::new(),
        include_review: false,
        include_destructive: false,
        idle_days: 30,
        review_paths: false,
    }
}

struct MockChecker {
    running: HashSet<String>,
}

impl MockChecker {
    fn with_running(names: &[&str]) -> Self {
        MockChecker { running: names.iter().map(|s| s.to_string()).collect() }
    }
    fn none() -> Self {
        MockChecker { running: HashSet::new() }
    }
}

impl ProcessChecker for MockChecker {
    fn is_running(&self, name: &str) -> bool {
        self.running.contains(name)
    }
}

/// Every category is available and finds one item of 10 bytes.
struct OneItemIo {
    asked: RefCell<Vec<String>>,
}

impl ProviderIo for OneItemIo {
    fn available(&self, _category: Category) -> bool {
        true
    }
    fn discover(&self, category: Category) -> Result<Vec<CleanItem>, String> {
        self.asked.borrow_mut().push(category.id().to_string());
        Ok(vec![CleanItem {
            category_id: category.id().to_string(),
            category_label: category.label().to_string(),
            path: format!("/tmp/{}", category.id()),
            size: 10,
            risk: category.risk(),
        }])
    }
    fn execute(&self, _category: Category, _items: &[CleanItem], _action: ExecAction) -> Result<ExecReport, String> {
        Ok(ExecReport::new())
    }
}

fn ids(o: &CleanOpts) -> Vec<&'static str> {
    select_providers(o).iter().map(|c| c.id()).collect()
}

#[test]
fn default_only_safe_providers() {
    let ids = ids(&opts());
    assert!(ids.contains(&"user-logs"));
    assert!(ids.contains(&"xcode-derived"));
    assert!(!ids.contains(&"user-caches"));
    assert!(!ids.contains(&"trash"));
}

#[test]
fn include_review_adds_review() {
    let mut o = opts();
    o.include_review = true;
    let ids = ids(&o);
    assert!(ids.contains(&"user-caches"));
    assert!(ids.contains(&"cargo"));
    assert!(!ids.contains(&"trash"));
}

#[test]
fn include_destructive_adds_trash() {
    let mut o = opts();
    o.include_destructive = true;
    let ids = ids(&o);
    assert!(ids.contains(&"trash"));
}

#[test]
fn category_overrides_risk_filtering() {
    let mut o = opts();
    o.category = vec!["trash".into()];
    assert_eq!(ids(&o), vec!["trash"]);
}

#[test]
fn category_can_pick_review_without_flag() {
    let mut o = opts();
    o.category = vec!["cargo".into()];
    assert_eq!(ids(&o), vec!["cargo"]);
}

#[test]
fn running_xcode_skips_xcode_categories_at_discovery() {
    let mut o = opts();
    o.category = vec!["xcode-derived".into(), "xcode-archives".into()];
    let mock = MockChecker::with_running(&["Xcode"]);
    let io = OneItemIo { asked: RefCell::new(Vec::new()) };
    let report = discover_with_checker(&o, &mock, &io).unwrap();
    assert!(report.groups.iter().all(|g| g.id != "xcode-derived"), "xcode-derived should have been skipped");
    assert!(report.groups.iter().all(|g| g.id != "xcode-archives"), "xcode-archives should have been skipped");
    let skipped_apps: Vec<&str> = report.skipped_running.iter().map(|(_, app)| app.as_str()).collect();
    assert!(skipped_apps.iter().all(|a| *a == "Xcode"));
    assert!(report.skipped_running.iter().any(|(id, _)| id == "xcode-derived"));
    assert!(report.skipped_running.iter().any(|(id, _)| id == "xcode-archives"));
}

#[test]
fn category_order_is_canonical_not_command_line_order() {
    let mut o = opts();
    o.category = vec!["trash".into(), "user-logs".into(), "trash".into()];
    assert_eq!(ids(&o), vec!["user-logs", "trash"]);
}

#[test]
fn discovery_groups_each_selected_category_once() {
    let mut o = opts();
    o.category = vec!["user-logs".into(), "cargo".into()];
    let io = OneItemIo { asked: RefCell::new(Vec::new()) };
    let report = discover_with_checker(&o, &MockChecker::none(), &io).unwrap();
    let gids: Vec<&str> = report.groups.iter().map(|g| g.id.as_str()).collect();
    assert_eq!(gids, vec!["user-logs", "cargo"]);
    assert!(report.groups.iter().all(|g| g.total_size == 10 && g.items.len() == 1));
    assert!(report.skipped_running.is_empty());
}

#[test]
fn discovery_error_stops_the_run() {
    struct FailingIo;
    impl ProviderIo for FailingIo {
        fn available(&self, _c: Category) -> bool {
            true
        }
        fn discover(&self, c: Category) -> Result<Vec<CleanItem>, String> {
            Err(format!("cannot read {}", c.id()))
        }
        fn execute(&self, _c: Category, _i: &[CleanItem], _a: ExecAction) -> Result<ExecReport, String> {
            Ok(ExecReport::new())
        }
    }
    let mut o = opts();
    o.category = vec!["user-logs".into()];
    let err = discover_with_checker(&o, &MockChecker::none(), &FailingIo).err().unwrap();
    assert_eq!(err, "cannot read user-logs");
}

#[test]
fn add_sizes_saturates_at_u64_max() {
    let item = |size: u64| CleanItem {
        category_id: "x".into(),
        category_label: "x".into(),
        path: "/x".into(),
        size,
        risk: RiskLevel::Safe,
    };
    let items = vec![item(u64::MAX - 5), item(10), item(1)];
    assert_eq!(add_sizes(0, &items), u64::MAX);
    assert_eq!(add_sizes(1, &vec![item(2), item(3)]), 6);
}

#[test]
fn mock_reports_only_listed_names() {
    let m = MockChecker::with_running(&["Xcode"]);
    assert!(m.is_running("Xcode"));
    assert!(!m.is_running("cargo"));
}

#[test]
fn any_running_combines_names() {
    let m = MockChecker::with_running(&["rustc"]);
    assert!(any_running(&m, &["cargo", "rustc"]));
    assert!(!any_running(&m, &["npm", "yarn"]));
}

/// Every category is available and every discovery fails.
struct AlwaysFailingIo;

impl ProviderIo for AlwaysFailingIo {
    fn available(&self, _c: Category) -> bool {
        true
    }
    fn discover(&self, c: Category) -> Result<Vec<CleanItem>, String> {
        Err(format!("cannot read {}", c.id()))
    }
    fn execute(&self, _c: Category, _i: &[CleanItem], _a: ExecAction) -> Result<ExecReport, String> {
        Ok(ExecReport::new())
    }
}

#[test]
fn nothing_selected_gives_an_empty_report_without_asking() {
    let mut o = opts();
    o.category = vec!["no-such-category".into()];
    let rep = discover_with_checker(&o, &MockChecker::with_running(&["Xcode"]), &AlwaysFailingIo).unwrap();
    assert!(rep.groups.is_empty());
    assert!(rep.skipped_running.is_empty());
}

#[test]
fn skipped_categories_are_recorded_in_order_and_never_discovered() {
    let mut o = opts();
    o.category = vec!["xcode-derived".into(), "xcode-archives".into()];
    let io = OneItemIo { asked: RefCell::new(Vec::new()) };
    let r = discover_with_checker(&o, &MockChecker::with_running(&["Xcode"]), &io).unwrap();
    assert!(r.groups.is_empty());
    assert_eq!(
        r.skipped_running,
        vec![("xcode-derived".to_string(), "Xcode".to_string()), ("xcode-archives".to_string(), "Xcode".to_string())]
    );
    assert!(io.asked.borrow().is_empty());
}

fn answer(available: bool, app_running: bool, discovered: Result<Vec<CleanItem>, String>) -> CategoryAnswer {
    CategoryAnswer { available, app_running, discovered }
}

fn found(cat: &str, path: &str, size: u64) -> CleanItem {
    CleanItem { category_id: cat.into(), category_label: cat.into(), path: path.into(), size, risk: RiskLevel::Safe }
}

#[test]
fn assembled_report_follows_the_answers() {
    let mut o = opts();
    // Selection order: user-logs, xcode-derived, user-caches (catalogue order).
    o.category = vec!["user-caches".into(), "xcode-derived".into(), "user-logs".into()];
    let ids: Vec<&str> = select_providers(&o).iter().map(|c| c.id()).collect();
    assert_eq!(ids.len(), 3);
    let answers: Vec<CategoryAnswer> = ids
        .iter()
        .map(|id| match *id {
            "user-logs" => answer(true, false, Ok(vec![found("user-logs", "/l/1", 3), found("user-logs", "/l/2", 4)])),
            "xcode-derived" => answer(true, true, Ok(vec![found("xcode-derived", "/x", 9)])),
            _ => answer(false, false, Ok(vec![found("user-caches", "/c", 1)])),
        })
        .collect();
    let r = assemble_discovery(&o, answers).unwrap();
    assert_eq!(r.groups.len(), 1);
    assert_eq!(r.groups[0].id, "user-logs");
    assert_eq!(r.groups[0].items.len(), 2);
    assert_eq!(r.groups[0].total_size, 7);
    assert_eq!(r.skipped_running, vec![("xcode-derived".to_string(), "Xcode".to_string())]);
}

#[test]
fn assembled_report_stops_at_the_first_discovery_error() {
    let mut o = opts();
    o.category = vec!["user-logs".into(), "user-caches".into()];
    let n = select_providers(&o).len();
    let answers: Vec<CategoryAnswer> = (0..n).map(|_| answer(true, false, Err("boom".to_string()))).collect();
    assert_eq!(assemble_discovery(&o, answers).err(), Some("boom".to_string()));
    // Missing answers count as unavailable categories.
    let r = assemble_discovery(&o, Vec::new()).unwrap();
    assert!(r.groups.is_empty() && r.skipped_running.is_empty());
}
