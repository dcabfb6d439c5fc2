use std::cell::RefCell;
use std::collections::HashMap;

use tiny_cli::clean::process::{running_verdict, ProcessChecker};
use tiny_cli::clean::providers::{
    AndroidSdk, AppOrphans, BrowserCaches, ChatCaches, CleanProvider, CrashReports, Docker,
    DownloadsOld, FontQuicklookCaches, GoCache, GradleMaven, IosSimulators, JetBrains,
    MailAttachments, PythonCaches, Quarantine, RustTargets, ScreenshotsOld, StreamingCaches,
    TimeMachineLocal, UserLogs, VsCode,
};
use tiny_cli::clean::registry::{all_providers, known_category_ids, Family};
use tiny_cli::clean::runner::{CommandOutput, CommandRunner};
use tiny_cli::clean::tools::{
    browser_cache_paths, cache_entry_kept, cache_owner, chat_cache_paths, df_kind, df_lines_from, docker_items_from, docker_item, execute_per_item,
    expand_tilde, extract_quoted, font_cache_candidates, human_size_parts, is_safe_cargo_path, is_screenshot_name,
    keeps_cache_entry, orphans, parse_placeholder, parse_snapshots, skip_running,
    snapshot_to_date, streaming_cache_paths, trash_action_check, DfKind,
};
use tiny_cli::clean::tools::{
    app_bundles_query, app_orphan_candidates, bundle_id_args, bundle_ids_from, delete_snapshot_args, df_args,
    firefox_app, gate_by_app, info_plist_of, list_snapshots_args, prune_args, prune_outcome, snapshot_deletion_report,
    snapshot_discovery, snapshot_plan_of, telegram_app, configured_from_answer, darwin_cache_args, go_cache_vars,
    go_env_args, paths_not_running, present_roots, screenshot_folder, screenshot_location_args,
};
use tiny_cli::clean::rules::{firefox_tree_enters, telegram_tree_enters};
use tiny_cli::clean::types::{CleanItem, ExecAction, RiskLevel};

/// Maps `bin args...` to `(success, stdout)`; unknown invocations fail with no output.
#[derive(Default)]
struct MockRunner {
    which_set: Vec<String>,
    responses: HashMap<String, (bool, String)>,
    calls: RefCell<Vec<String>>,
}

impl MockRunner {
    fn new() -> Self {
        MockRunner::default()
    }
    fn with_which(mut self, bin: &str) -> Self {
        self.which_set.push(bin.to_string());
        self
    }
    fn with_response(mut self, bin: &str, args: &[&str], success: bool, stdout: &str) -> Self {
        self.responses.insert(format!("{} {}", bin, args.join(" ")), (success, stdout.to_string()));
        self
    }
}

impl CommandRunner for MockRunner {
    fn which(&self, bin: &str) -> bool {
        self.which_set.iter().any(|b| b == bin)
    }
    fn run(&self, bin: &str, args: &[&str]) -> CommandOutput {
        let key = format!("{} {}", bin, args.join(" "));
        self.calls.borrow_mut().push(key.clone());
        match self.responses.get(&key) {
            Some((success, stdout)) => CommandOutput { success: *success, stdout: stdout.clone() },
            None => CommandOutput { success: false, stdout: String::new() },
        }
    }
}

struct MockChecker {
    running: Vec<String>,
}

impl MockChecker {
    fn with_running(names: &[&str]) -> Self {
        MockChecker { running: names.iter().map(|s| s.to_string()).collect() }
    }
    fn none() -> Self {
        MockChecker { running: Vec::new() }
    }
}

impl ProcessChecker for MockChecker {
    fn is_running(&self, name: &str) -> bool {
        self.running.iter().any(|n| n == name)
    }
}

const MDFIND_QUERY: &str = "kMDItemContentType == 'com.apple.application-bundle'";

fn known(id: &str) -> bool {
    known_category_ids().contains(&id)
}

fn candidates(list: Vec<(&'static str, &'static str)>) -> Vec<(String, String)> {
    list.into_iter().map(|(p, a)| (format!("/Users/me/{}", p), a.to_string())).collect()
}

// ---------- ids, risks, gating apps ----------

#[test]
fn android_sdk_id_in_known_categories() {
    assert!(known(AndroidSdk::new(30).id()));
}

#[test]
fn android_sdk_gates_studio() {
    let p = AndroidSdk::new(30);
    assert_eq!(p.requires_app_quit(), Some("Android Studio"));
}

#[test]
fn app_orphans_id_in_known_categories() {
    assert!(known(AppOrphans::with_runner(MockRunner::new()).id()));
}

#[test]
fn app_orphans_review_risk() {
    assert_eq!(AppOrphans::<MockRunner>::new().risk(), RiskLevel::Review);
}

#[test]
fn browser_id_in_known_categories() {
    assert!(known(BrowserCaches::with_checker(MockChecker::none()).id()));
}

#[test]
fn chat_id_in_known_categories() {
    assert!(known(ChatCaches::with_checker(MockChecker::none()).id()));
}

#[test]
fn crash_reports_id_in_known_categories() {
    assert!(known(CrashReports.id()));
}

#[test]
fn crash_reports_safe_risk() {
    assert_eq!(CrashReports.risk(), RiskLevel::Safe);
}

#[test]
fn docker_id_in_known_categories() {
    assert!(known(Docker::with_runner(MockRunner::new()).id()));
}

#[test]
fn docker_gates_desktop() {
    let p = Docker::<MockRunner>::new();
    assert_eq!(p.requires_app_quit(), Some("Docker Desktop"));
}

#[test]
fn downloads_old_id_in_known_categories() {
    assert!(known(DownloadsOld::new(30).id()));
}

#[test]
fn font_quicklook_id_in_known_categories() {
    assert!(known(FontQuicklookCaches::with_runner(MockRunner::new()).id()));
}

#[test]
fn font_quicklook_safe_risk() {
    assert_eq!(FontQuicklookCaches::<MockRunner>::new().risk(), RiskLevel::Safe);
}

#[test]
fn go_cache_id_in_known_categories() {
    assert!(known(GoCache::with_runner(MockRunner::new()).id()));
}

#[test]
fn gradle_maven_id_in_known_categories() {
    assert!(known(GradleMaven.id()));
}

#[test]
fn ios_simulators_id_in_known_categories() {
    assert!(known(IosSimulators.id()));
}

#[test]
fn ios_simulators_gates_xcode() {
    let p = IosSimulators;
    assert_eq!(p.requires_app_quit(), Some("Xcode"));
}

#[test]
fn jetbrains_id_in_known_categories() {
    assert!(known(JetBrains.id()));
}

#[test]
fn mail_attachments_id_in_known_categories() {
    assert!(known(MailAttachments.id()));
}

#[test]
fn mail_gates_mail_app() {
    let p = MailAttachments;
    assert_eq!(p.requires_app_quit(), Some("Mail"));
}

#[test]
fn python_caches_id_in_known_categories() {
    assert!(known(PythonCaches::new(30, Vec::new()).id()));
}

#[test]
fn quarantine_id_in_known_categories() {
    assert!(known(Quarantine.id()));
}

#[test]
fn quarantine_review_risk() {
    assert_eq!(Quarantine.risk(), RiskLevel::Review);
}

#[test]
fn rust_targets_id_in_known_categories() {
    assert!(known(RustTargets::new(30, Vec::new()).id()));
}

#[test]
fn screenshots_old_id_in_known_categories() {
    assert!(known(ScreenshotsOld::with_runner(30, MockRunner::new()).id()));
}

#[test]
fn streaming_id_in_known_categories() {
    assert!(known(StreamingCaches::with_checker(MockChecker::none()).id()));
}

#[test]
fn time_machine_id_in_known_categories() {
    assert!(known(TimeMachineLocal::with_runner(MockRunner::new()).id()));
}

#[test]
fn time_machine_destructive_risk() {
    assert_eq!(TimeMachineLocal::<MockRunner>::new().risk(), RiskLevel::Destructive);
}

#[test]
fn vscode_id_in_known_categories() {
    assert!(known(VsCode.id()));
}

#[test]
fn every_category_id_is_known_once() {
    let ids = known_category_ids();
    assert_eq!(ids.len(), 31);
    for (i, a) in ids.iter().enumerate() {
        for b in &ids[i + 1..] {
            assert_ne!(a, b);
        }
    }
    assert!(ids.contains(&"node-modules"));
}

// ---------- orphaned Application Support ----------

fn app_support_item(name: &str) -> CleanItem {
    CleanItem {
        category_id: "app-orphans".into(),
        category_label: "Orphaned Application Support dirs".into(),
        path: format!("/Users/me/Library/Application Support/{}", name),
        size: 10,
        risk: RiskLevel::Review,
    }
}

#[test]
fn empty_mdfind_result_returns_empty_safely() {
    let p = AppOrphans::with_runner(MockRunner::new().with_response("mdfind", &[MDFIND_QUERY], true, ""));
    let installed = p.installed_bundle_ids();
    assert!(installed.is_empty());
}

#[test]
fn mdfind_failure_returns_empty_safely() {
    let p = AppOrphans::with_runner(MockRunner::new().with_response("mdfind", &[MDFIND_QUERY], false, ""));
    assert!(p.installed_bundle_ids().is_empty());
}

#[test]
fn installed_bundle_ids_collects_from_each_app() {
    let runner = MockRunner::new()
        .with_response("mdfind", &[MDFIND_QUERY], true, "/Applications/Safari.app\n/Applications/Music.app\n")
        .with_response(
            "defaults",
            &["read", "/Applications/Safari.app/Contents/Info", "CFBundleIdentifier"],
            true,
            "com.apple.Safari\n",
        )
        .with_response(
            "defaults",
            &["read", "/Applications/Music.app/Contents/Info", "CFBundleIdentifier"],
            true,
            "com.apple.Music\n",
        );
    let p = AppOrphans::with_runner(runner);
    let ids = p.installed_bundle_ids();
    assert_eq!(ids.len(), 2);
    assert!(ids.contains(&"com.apple.Safari".to_string()));
    assert!(ids.contains(&"com.apple.Music".to_string()));
}

#[test]
fn installed_bundle_ids_skips_apps_with_failed_defaults() {
    let runner = MockRunner::new()
        .with_response("mdfind", &[MDFIND_QUERY], true, "/Applications/Good.app\n/Applications/Bad.app\n")
        .with_response(
            "defaults",
            &["read", "/Applications/Good.app/Contents/Info", "CFBundleIdentifier"],
            true,
            "com.example.good",
        )
        .with_response(
            "defaults",
            &["read", "/Applications/Bad.app/Contents/Info", "CFBundleIdentifier"],
            false,
            "",
        );
    let p = AppOrphans::with_runner(runner);
    let ids = p.installed_bundle_ids();
    assert_eq!(ids.len(), 1);
    assert!(ids.contains(&"com.example.good".to_string()));
}

#[test]
fn installed_bundle_ids_are_not_repeated() {
    let runner = MockRunner::new()
        .with_response("mdfind", &[MDFIND_QUERY], true, "/A.app\n/B.app\n")
        .with_response("defaults", &["read", "/A.app/Contents/Info", "CFBundleIdentifier"], true, "x.y\n")
        .with_response("defaults", &["read", "/B.app/Contents/Info", "CFBundleIdentifier"], true, " x.y ");
    let p = AppOrphans::with_runner(runner);
    assert_eq!(p.installed_bundle_ids(), vec!["x.y".to_string()]);
}

#[test]
fn orphans_keeps_entries_without_installed_app() {
    let cands = vec![
        app_support_item("com.apple.Safari"),
        app_support_item("com.gone.App"),
        app_support_item("Other"),
    ];
    let installed = vec!["com.apple.Safari".to_string()];
    let kept = orphans(&cands, &installed);
    let paths: Vec<&str> = kept.iter().map(|i| i.path.as_str()).collect();
    assert_eq!(
        paths,
        vec![
            "/Users/me/Library/Application Support/com.gone.App",
            "/Users/me/Library/Application Support/Other"
        ]
    );
}

// ---------- browser, chat, streaming: cache paths gated by running apps ----------

#[test]
fn browser_does_not_touch_cookies_or_login() {
    for (rel, _) in browser_cache_paths() {
        let lower = rel.to_lowercase();
        for forbidden in ["cookies", "login data", "history", "preferences", "passwords", "bookmarks"] {
            assert!(!lower.contains(forbidden), "browser provider must not touch {}: {}", forbidden, rel);
        }
    }
}

#[test]
fn browser_paths_skip_running_apps() {
    let mock = MockChecker::with_running(&["Safari", "Google Chrome", "Arc", "Firefox"]);
    let kept = skip_running(&mock, &candidates(browser_cache_paths()));
    for s in &kept {
        assert!(!s.contains("com.apple.Safari"), "Safari leaked: {}", s);
        assert!(!s.contains("/Google/Chrome/"), "Chrome leaked: {}", s);
        assert!(!s.contains("/Arc/"), "Arc leaked: {}", s);
        assert!(!s.contains("Firefox/Profiles"), "Firefox leaked: {}", s);
    }
    assert!(kept.is_empty());
}

#[test]
fn chat_paths_skip_running_apps() {
    let mock = MockChecker::with_running(&["Slack", "Discord", "Telegram"]);
    let kept = skip_running(&mock, &candidates(chat_cache_paths()));
    for s in &kept {
        assert!(!s.contains("/Slack/"), "Slack path leaked: {}", s);
        assert!(!s.contains("/discord/"), "Discord path leaked: {}", s);
        assert!(!s.contains(".ru.keepcoder.Telegram"), "Telegram path leaked: {}", s);
    }
}

#[test]
fn streaming_paths_filtered_by_running_app() {
    let mock = MockChecker::with_running(&["Spotify"]);
    let kept = skip_running(&mock, &candidates(streaming_cache_paths()));
    for s in &kept {
        assert!(
            !s.contains("com.spotify.client") && !s.contains("Spotify/PersistentCache"),
            "Spotify path leaked while Spotify running: {}",
            s
        );
    }
    assert_eq!(kept.len(), 2);
}

#[test]
fn skip_running_keeps_all_when_nothing_runs() {
    let kept = skip_running(&MockChecker::none(), &candidates(chat_cache_paths()));
    assert_eq!(kept.len(), 3);
    assert_eq!(kept[0], "/Users/me/Library/Application Support/Slack/Cache");
}

// ---------- user caches ----------

#[test]
fn discover_returns_empty_when_caches_missing() {
    let m = MockChecker::none();
    assert!(keeps_cache_entry(&m, "com.apple.Safari"));
    let running = MockChecker::with_running(&["Safari"]);
    assert!(!keeps_cache_entry(&running, "com.apple.Safari"));
    assert!(keeps_cache_entry(&running, "com.google.Chrome"));
}

#[test]
fn cache_owner_takes_last_dotted_part() {
    assert_eq!(cache_owner("com.apple.Safari"), "Safari");
    assert_eq!(cache_owner("Homebrew"), "Homebrew");
    assert_eq!(cache_owner("trailing."), "");
    assert!(keeps_cache_entry(&MockChecker::with_running(&[""]), "trailing."));
}

// ---------- docker ----------

const DF_ARGS: [&str; 4] = ["system", "df", "--format", "{{json .}}"];

#[test]
fn parse_df_line_extracts_images_and_size() {
    let line = r#"{"Type":"Images","TotalCount":"5","Active":"3","Size":"2.5GB","Reclaimable":"1.2GB"}"#;
    assert_eq!(df_kind(line), Some(DfKind::Images));
    let size = extract_quoted(line, "Size").unwrap();
    assert_eq!(size, "2.5GB");
    assert_eq!(human_size_parts(&size), Some(("2.5".to_string(), 1_000_000_000)));
}

#[test]
fn parse_df_line_returns_none_for_containers() {
    let line = r#"{"Type":"Containers","Size":"0B"}"#;
    assert!(df_kind(line).is_none());
}

#[test]
fn extract_quoted_needs_both_quotes() {
    assert_eq!(extract_quoted(r#"{"Size":"1GB"}"#, "Size"), Some("1GB".to_string()));
    assert_eq!(extract_quoted(r#"{"Size":"1GB"#, "Size"), None);
    assert_eq!(extract_quoted(r#"{"Type":"Images"}"#, "Size"), None);
}

#[test]
fn docker_daemon_down_returns_empty_safely() {
    let runner = MockRunner::new().with_which("docker").with_response("docker", &DF_ARGS, false, "");
    let p = Docker::with_runner(runner);
    assert!(p.available());
    assert!(p.df_lines().is_none());
}

#[test]
fn docker_unavailable_when_cli_missing() {
    let p = Docker::with_runner(MockRunner::new());
    assert!(!p.available());
}

#[test]
fn docker_discover_parses_multi_line_output() {
    let out = "\
{\"Type\":\"Images\",\"Size\":\"1GB\"}
{\"Type\":\"Containers\",\"Size\":\"0B\"}
{\"Type\":\"Local Volumes\",\"Size\":\"500MB\"}
{\"Type\":\"Build Cache\",\"Size\":\"2GB\"}
";
    let runner = MockRunner::new().with_which("docker").with_response("docker", &DF_ARGS, true, out);
    let p = Docker::with_runner(runner);
    let lines = p.df_lines().unwrap();
    assert_eq!(lines.len(), 4);
    // The sizes the binary reads from the rows: whole numbers here, so the library's
    // parts give them exactly.
    let sizes: Vec<Option<u64>> = lines
        .iter()
        .map(|l| {
            extract_quoted(l, "Size")
                .and_then(|s| human_size_parts(&s))
                .and_then(|(n, m)| n.parse::<u64>().ok().map(|v| v * m))
        })
        .collect();
    assert_eq!(sizes, vec![Some(1_000_000_000), Some(0), Some(500_000_000), Some(2_000_000_000)]);
    let items = docker_items_from(&lines, &sizes);
    // 3 items (Images, Local Volumes, Build Cache); Containers skipped.
    assert_eq!(items.len(), 3);
    let total: u64 = items.iter().map(|i| i.size).sum();
    assert_eq!(total, 1_000_000_000 + 500_000_000 + 2_000_000_000);
    assert_eq!(items[1].path, "<docker:volumes>");
}

#[test]
fn docker_rows_without_a_size_or_with_zero_are_dropped() {
    let lines = vec![
        "{\"Type\":\"Images\",\"Size\":\"?\"}".to_string(),
        "{\"Type\":\"Build Cache\",\"Size\":\"0B\"}".to_string(),
        "{\"Type\":\"Local Volumes\",\"Size\":\"9B\"}".to_string(),
    ];
    let items = docker_items_from(&lines, &vec![None, Some(0), Some(9)]);
    assert_eq!(items.len(), 1);
    assert_eq!(items[0].path, "<docker:volumes>");
    assert_eq!(items[0].size, 9);
    // A missing size list counts as no sizes.
    assert!(docker_items_from(&lines, &Vec::new()).is_empty());
}

#[test]
fn docker_item_drops_empty_rows() {
    assert!(docker_item(DfKind::BuildCache, 0).is_none());
    let it = docker_item(DfKind::BuildCache, 7).unwrap();
    assert_eq!(it.path, "<docker:build-cache>");
    assert_eq!(it.category_id, "docker");
}

#[test]
fn docker_prune_runs_once_for_all_items() {
    let runner = MockRunner::new().with_response("docker", &["system", "prune", "-af", "--volumes"], true, "");
    let p = Docker::with_runner(runner);
    let items = vec![docker_item(DfKind::Images, 5).unwrap(), docker_item(DfKind::Volumes, 6).unwrap()];
    let report = p.execute(&items, ExecAction::HardDelete).unwrap();
    assert_eq!(report.removed_paths, vec!["<docker:images>".to_string(), "<docker:volumes>".to_string()]);
    assert_eq!(p.runner.calls.borrow().len(), 1);
    assert!(p.execute(&items, ExecAction::EmptyTrash).is_err());
}

// ---------- font and QuickLook caches ----------

#[test]
fn darwin_cache_dir_returns_none_on_failure() {
    let p = FontQuicklookCaches::with_runner(MockRunner::new());
    assert!(p.darwin_user_cache_dir().is_none());
}

#[test]
fn darwin_cache_dir_parses_getconf_output() {
    let runner = MockRunner::new().with_response(
        "getconf",
        &["DARWIN_USER_CACHE_DIR"],
        true,
        "/private/var/folders/ab/cdef1234/C/\n",
    );
    let p = FontQuicklookCaches::with_runner(runner);
    let dir = p.darwin_user_cache_dir().unwrap();
    assert_eq!(dir, "/private/var/folders/ab/cdef1234/C/");
}

#[test]
fn font_cache_candidates_join_under_home_and_darwin_dir() {
    let v = font_cache_candidates(Some("/Users/me"), Some("/var/C/"));
    assert_eq!(
        v,
        vec![
            "/Users/me/Library/Caches/com.apple.QuickLook.thumbnailcache".to_string(),
            "/Users/me/Library/Caches/com.apple.FontRegistry".to_string(),
            "/var/C/com.apple.QuickLook.thumbnailcache".to_string(),
        ]
    );
    assert!(font_cache_candidates(None, None).is_empty());
}

// ---------- go ----------

#[test]
fn go_cache_unavailable_when_cli_missing() {
    let p = GoCache::with_runner(MockRunner::new());
    assert!(!p.available());
}

#[test]
fn go_cache_available_when_which_succeeds() {
    let p = GoCache::with_runner(MockRunner::new().with_which("go"));
    assert!(p.available());
}

#[test]
fn go_cache_skips_var_when_subprocess_fails() {
    let runner = MockRunner::new()
        .with_which("go")
        .with_response("go", &["env", "GOCACHE"], true, "")
        .with_response("go", &["env", "GOMODCACHE"], false, "");
    let p = GoCache::with_runner(runner);
    assert!(p.cache_roots().is_empty());
}

#[test]
fn go_cache_roots_in_order() {
    let runner = MockRunner::new()
        .with_response("go", &["env", "GOCACHE"], true, "/c/build\n")
        .with_response("go", &["env", "GOMODCACHE"], true, "/c/mod\n");
    let p = GoCache::with_runner(runner);
    assert_eq!(p.cache_roots(), vec!["/c/build".to_string(), "/c/mod".to_string()]);
}

// ---------- screenshots ----------

#[test]
fn screenshot_dir_falls_back_to_desktop_on_error() {
    let p = ScreenshotsOld::with_runner(30, MockRunner::new());
    assert!(p.configured_dir(Some("/Users/me")).is_none());
}

#[test]
fn screenshot_dir_from_defaults_expands_tilde() {
    let runner = MockRunner::new().with_response(
        "defaults",
        &["read", "com.apple.screencapture", "location"],
        true,
        "~/Pictures/Shots\n",
    );
    let p = ScreenshotsOld::with_runner(30, runner);
    assert_eq!(p.configured_dir(Some("/Users/me")), Some("/Users/me/Pictures/Shots".to_string()));
}

#[test]
fn tilde_and_screenshot_names() {
    assert_eq!(expand_tilde("~", Some("/h")), "/h");
    assert_eq!(expand_tilde("~/x", None), "~/x");
    assert_eq!(expand_tilde("/abs", Some("/h")), "/abs");
    assert!(is_screenshot_name("Screenshot 2020-01-01 at 10.00.00.png"));
    assert!(is_screenshot_name("Screen Shot 2019-01-01 at 1.png"));
    assert!(!is_screenshot_name("photo.png"));
}

// ---------- time machine ----------

#[test]
fn parse_snapshots_skips_header() {
    let out = "Snapshots for volume group containing disk /:\n\
               com.apple.TimeMachine.2024-12-15-103045.local\n\
               com.apple.TimeMachine.2024-12-16-103045.local\n\
               \n";
    let snaps = parse_snapshots(out);
    assert_eq!(snaps.len(), 2);
    assert_eq!(snaps[0], "com.apple.TimeMachine.2024-12-15-103045.local");
}

#[test]
fn snapshot_to_date_strips_prefix_and_suffix() {
    let date = snapshot_to_date("com.apple.TimeMachine.2024-12-15-103045.local").unwrap();
    assert_eq!(date, "2024-12-15-103045");
}

#[test]
fn snapshot_to_date_rejects_malformed() {
    assert!(snapshot_to_date("bogus").is_none());
    assert!(snapshot_to_date("com.apple.TimeMachine..local").is_none());
    assert!(snapshot_to_date("com.apple.TimeMachine.2024").is_none());
}

#[test]
fn parse_placeholder_round_trips() {
    let snap = parse_placeholder("<tmutil:com.apple.TimeMachine.2024-12-15-103045.local>").unwrap();
    assert_eq!(snap, "com.apple.TimeMachine.2024-12-15-103045.local");
}

#[test]
fn parse_placeholder_rejects_wrong_wrapping() {
    assert!(parse_placeholder("/tmp/foo").is_none());
    assert!(parse_placeholder("<docker:images>").is_none());
}

#[test]
fn discover_returns_empty_when_tmutil_fails() {
    let runner = MockRunner::new().with_response("tmutil", &["listlocalsnapshots", "/"], false, "");
    let p = TimeMachineLocal::with_runner(runner);
    assert!(p.discover().unwrap().is_empty());
}

#[test]
fn discover_parses_snapshot_list() {
    let out = "Snapshots for volume group containing disk /:\n\
               com.apple.TimeMachine.2025-01-01-000000.local\n";
    let runner = MockRunner::new().with_response("tmutil", &["listlocalsnapshots", "/"], true, out);
    let p = TimeMachineLocal::with_runner(runner);
    let items = p.discover().unwrap();
    assert_eq!(items.len(), 1);
    assert_eq!(items[0].size, 0);
    assert!(items[0].path.contains("2025-01-01-000000"));
    assert_eq!(items[0].path, "<tmutil:com.apple.TimeMachine.2025-01-01-000000.local>");
}

fn snapshot_item() -> CleanItem {
    CleanItem {
        category_id: "time-machine-local".into(),
        category_label: "Time Machine local snapshots".into(),
        path: "<tmutil:com.apple.TimeMachine.2025-01-01-000000.local>".into(),
        size: 0,
        risk: RiskLevel::Destructive,
    }
}

#[test]
fn execute_calls_tmutil_with_date() {
    let runner = MockRunner::new().with_response("tmutil", &["deletelocalsnapshots", "2025-01-01-000000"], true, "");
    let p = TimeMachineLocal::with_runner(runner);
    let report = p.execute(&[snapshot_item()], ExecAction::HardDelete).unwrap();
    assert_eq!(report.removed_paths.len(), 1);
    assert!(report.failed.is_empty());
}

#[test]
fn execute_reports_failure_when_tmutil_fails() {
    let runner = MockRunner::new().with_response("tmutil", &["deletelocalsnapshots", "2025-01-01-000000"], false, "");
    let p = TimeMachineLocal::with_runner(runner);
    let report = p.execute(&[snapshot_item()], ExecAction::HardDelete).unwrap();
    assert!(report.removed_paths.is_empty());
    assert_eq!(report.failed.len(), 1);
    assert_eq!(report.failed[0].1, "tmutil deletelocalsnapshots 2025-01-01-000000 failed");
}

#[test]
fn time_machine_refuses_empty_trash() {
    let p = TimeMachineLocal::with_runner(MockRunner::new());
    let err = p.execute(&[snapshot_item()], ExecAction::EmptyTrash).unwrap_err();
    assert_eq!(err, "time_machine_local does not accept EmptyTrash");
}

// ---------- trash, per-item executors ----------

#[test]
fn rejects_trash_action() {
    let err = trash_action_check(ExecAction::Trash).unwrap_err();
    assert!(err.contains("rejects ExecAction::Trash"));
}

#[test]
fn rejects_hard_delete() {
    let err = trash_action_check(ExecAction::HardDelete).unwrap_err();
    assert!(err.contains("rejects ExecAction::HardDelete"));
    assert!(trash_action_check(ExecAction::EmptyTrash).is_ok());
}

#[test]
fn rejects_empty_trash_action() {
    let err = execute_per_item(&[], ExecAction::EmptyTrash, UserLogs.id(), &[]).unwrap_err();
    assert!(err.contains("does not accept EmptyTrash"), "expected EmptyTrash rejection, got: {err}");
    assert_eq!(err, "user-logs provider does not accept EmptyTrash");
}

#[test]
fn execute_per_item_reports_each_outcome() {
    let items = vec![app_support_item("a"), app_support_item("b")];
    let outcomes = vec![Ok(()), Err("denied".to_string())];
    let report = execute_per_item(&items, ExecAction::Trash, "app-orphans", &outcomes).unwrap();
    assert_eq!(report.removed_paths, vec!["/Users/me/Library/Application Support/a".to_string()]);
    assert_eq!(
        report.failed,
        vec![("/Users/me/Library/Application Support/b".to_string(), "denied".to_string())]
    );
}

// ---------- cargo ----------

#[test]
fn cargo_safe_path_accepts_pinned_subdirs() {
    let h = "/Users/me";
    for sub in ["registry/cache", "registry/src", "git/db", "git/checkouts"] {
        assert!(is_safe_cargo_path(&format!("{}/.cargo/{}", h, sub), Some(h)));
    }
    assert!(is_safe_cargo_path("/Users/me/.cargo/registry//cache/", Some(h)));
}

#[test]
fn cargo_safe_path_rejects_dangerous_paths() {
    let h = Some("/Users/me");
    assert!(!is_safe_cargo_path("/Users/me/.cargo/bin", h));
    assert!(!is_safe_cargo_path("/Users/me/.cargo/config.toml", h));
    assert!(!is_safe_cargo_path("/Users/me/.cargo/credentials", h));
    assert!(!is_safe_cargo_path("/Users/me/.cargo/credentials.toml", h));
    assert!(!is_safe_cargo_path("/Users/me/.rustup", h));
    assert!(!is_safe_cargo_path("/Users/me/.cargo", h));
    assert!(!is_safe_cargo_path("/Users/me/.cargo/registry/cache", None));
}

#[test]
fn families_hold_seventeen_six_and_eight_categories() {
    let cats = all_providers();
    let count = |f: Family| cats.iter().filter(|c| c.family() == f).count();
    assert_eq!(count(Family::Dev), 17);
    assert_eq!(count(Family::UserStorage), 6);
    assert_eq!(count(Family::System), 8);
    let safe: Vec<&str> = cats.iter().filter(|c| c.risk() == RiskLevel::Safe).map(|c| c.id()).collect();
    assert!(safe.contains(&"user-logs"));
    assert!(!safe.contains(&"trash"));
}

#[test]
fn human_size_parts_splits_number_and_unit() {
    assert_eq!(human_size_parts(" 1.5GB "), Some(("1.5".to_string(), 1_000_000_000)));
    assert_eq!(human_size_parts("12 kB"), Some(("12".to_string(), 1_000)));
    assert_eq!(human_size_parts("7KB"), Some(("7".to_string(), 1_000)));
    assert_eq!(human_size_parts("3TB"), Some(("3".to_string(), 1_000_000_000_000)));
    assert_eq!(human_size_parts("42"), Some(("42".to_string(), 1)));
    assert_eq!(human_size_parts("   "), None);
    assert_eq!(human_size_parts("5 GiB"), None);
    assert_eq!(human_size_parts("garbage"), None);
    // The inputs of the original's size test, taken apart.
    assert_eq!(human_size_parts("0B"), Some(("0".to_string(), 1)));
    assert_eq!(human_size_parts("100B"), Some(("100".to_string(), 1)));
    assert_eq!(human_size_parts("1kB"), Some(("1".to_string(), 1_000)));
    assert_eq!(human_size_parts("2MB"), Some(("2".to_string(), 1_000_000)));
    assert_eq!(human_size_parts("1.5GB"), Some(("1.5".to_string(), 1_000_000_000)));
}

#[test]
fn df_lines_from_reads_only_a_successful_answer() {
    let ok = CommandOutput { success: true, stdout: "{\"Type\":\"Images\"}\n\n  {\"Type\":\"Containers\"}  \n".into() };
    assert_eq!(
        df_lines_from(&ok),
        Some(vec!["{\"Type\":\"Images\"}".to_string(), "{\"Type\":\"Containers\"}".to_string()])
    );
    let failed = CommandOutput { success: false, stdout: "{\"Type\":\"Images\"}".into() };
    assert_eq!(df_lines_from(&failed), None);
    let empty = CommandOutput { success: true, stdout: String::new() };
    assert_eq!(df_lines_from(&empty), Some(Vec::new()));
}

#[test]
fn cache_entry_kept_follows_the_owner_answer() {
    assert!(cache_entry_kept("com.apple.Safari", false));
    assert!(!cache_entry_kept("com.apple.Safari", true));
    assert!(cache_entry_kept("trailingdot.", true));
    assert!(!cache_entry_kept("Homebrew", true));
}

fn output(success: bool, stdout: &str) -> CommandOutput {
    CommandOutput { success, stdout: stdout.into() }
}

#[test]
fn command_arguments_are_fixed() {
    assert_eq!(list_snapshots_args(), vec!["listlocalsnapshots", "/"]);
    assert_eq!(delete_snapshot_args("2025-01-01-000000"), vec!["deletelocalsnapshots", "2025-01-01-000000"]);
    assert_eq!(df_args(), vec!["system", "df", "--format", "{{json .}}"]);
    assert_eq!(prune_args(), vec!["system", "prune", "-af", "--volumes"]);
    assert_eq!(app_bundles_query(), vec!["kMDItemContentType == 'com.apple.application-bundle'"]);
    assert_eq!(info_plist_of("/Applications/A.app"), "/Applications/A.app/Contents/Info");
    assert_eq!(bundle_id_args("/x/Info"), vec!["read", "/x/Info", "CFBundleIdentifier"]);
    assert_eq!(telegram_app(), "Telegram");
    assert_eq!(firefox_app(), "Firefox");
}

#[test]
fn snapshot_discovery_follows_the_answer() {
    let out = "Snapshots for volume group containing disk /:\ncom.apple.TimeMachine.2025-01-01-000000.local\n";
    let items = snapshot_discovery(&output(true, out));
    assert_eq!(items.len(), 1);
    assert_eq!(items[0].path, "<tmutil:com.apple.TimeMachine.2025-01-01-000000.local>");
    assert_eq!(items[0].category_id, "time-machine-local");
    assert!(snapshot_discovery(&output(false, out)).is_empty());
}

#[test]
fn snapshot_deletion_report_follows_each_answer() {
    let bad = CleanItem { path: "not-a-placeholder".into(), ..snapshot_item() };
    let items = vec![snapshot_item(), snapshot_item(), bad];
    let r = snapshot_deletion_report(&items, &vec![true, false, true]);
    assert_eq!(r.removed_paths, vec![items[0].path.clone()]);
    assert_eq!(r.failed.len(), 2);
    assert_eq!(r.failed[0].1, "tmutil deletelocalsnapshots 2025-01-01-000000 failed");
    assert_eq!(r.failed[1].1, "internal: malformed tmutil placeholder");
    assert!(r.skipped_running_app.is_none());
    assert_eq!(snapshot_plan_of(&items[0].path), Ok("2025-01-01-000000".to_string()));
}

#[test]
fn tmutil_failure_fails_the_item() {
    let runner = MockRunner::new().with_response("tmutil", &["deletelocalsnapshots", "2025-01-01-000000"], false, "");
    let r = TimeMachineLocal::with_runner(runner).execute(&[snapshot_item()], ExecAction::HardDelete).unwrap();
    assert!(r.removed_paths.is_empty());
    assert_eq!(r.failed.len(), 1);
    assert!(r.skipped_running_app.is_none());
}

#[test]
fn prune_outcome_follows_the_answer() {
    let items = vec![docker_item(DfKind::Images, 5).unwrap(), docker_item(DfKind::Volumes, 6).unwrap()];
    let ok = prune_outcome(&items, true);
    assert_eq!(ok.removed_paths, vec!["<docker:images>".to_string(), "<docker:volumes>".to_string()]);
    assert!(ok.failed.is_empty() && ok.skipped_running_app.is_none());
    let bad = prune_outcome(&items, false);
    assert!(bad.removed_paths.is_empty());
    assert_eq!(bad.failed[1], ("<docker:volumes>".to_string(), "docker system prune failed".to_string()));
}

#[test]
fn bundle_ids_from_keeps_first_of_each() {
    let outs = vec![output(true, " a.b \n"), output(false, "x.y"), output(true, "   "), output(true, "a.b"), output(true, "c.d")];
    assert_eq!(bundle_ids_from(&outs), vec!["a.b".to_string(), "c.d".to_string()]);
}

#[test]
fn running_verdict_is_any_answer() {
    assert!(!running_verdict(&vec![]));
    assert!(!running_verdict(&vec![false, false]));
    assert!(running_verdict(&vec![false, true]));
}

#[test]
fn app_gate_offers_or_skips_all() {
    let paths = vec!["/a".to_string(), "/b".to_string()];
    assert_eq!(gate_by_app(paths.clone(), false), (paths.clone(), Vec::new()));
    assert_eq!(gate_by_app(paths.clone(), true), (Vec::new(), paths));
}

#[test]
fn app_orphans_need_a_known_installed_app() {
    let c = vec![CleanItem {
        category_id: "app-orphans".into(),
        category_label: "App orphans".into(),
        path: "/L/com.gone.app".into(),
        size: 1,
        risk: RiskLevel::Review,
    }];
    assert!(app_orphan_candidates(&c, &Vec::new()).is_none());
    assert_eq!(app_orphan_candidates(&c, &vec!["com.other".to_string()]).unwrap().len(), 1);
    assert!(app_orphan_candidates(&c, &vec!["com.gone.app".to_string()]).unwrap().is_empty());
}

#[test]
fn answer_functions_follow_the_answers() {
    assert_eq!(go_cache_vars(), vec!["GOCACHE", "GOMODCACHE"]);
    assert_eq!(go_env_args("GOCACHE"), vec!["env", "GOCACHE"]);
    assert_eq!(darwin_cache_args(), vec!["DARWIN_USER_CACHE_DIR"]);
    assert_eq!(screenshot_location_args(), vec!["read", "com.apple.screencapture", "location"]);
    assert_eq!(
        present_roots(&vec![output(true, " /go/cache\n"), output(false, "/x"), output(true, "/go/mod")]),
        vec!["/go/cache".to_string(), "/go/mod".to_string()]
    );
    assert_eq!(configured_from_answer(&output(true, "~/Shots\n"), Some("/Users/me")), Some("/Users/me/Shots".to_string()));
    assert_eq!(configured_from_answer(&output(false, "~/Shots"), Some("/Users/me")), None);
    let c = vec![("/a".to_string(), "Slack".to_string()), ("/b".to_string(), "Discord".to_string())];
    assert_eq!(paths_not_running(&c, &vec![true, false]), vec!["/b".to_string()]);
}

#[test]
fn telegram_walk_enters_containers_accounts_and_media() {
    assert!(telegram_tree_enters(0, "anything"));
    assert!(telegram_tree_enters(1, "6N38VWS5BX.ru.keepcoder.Telegram"));
    assert!(!telegram_tree_enters(1, "group.com.apple.notes"));
    assert!(telegram_tree_enters(2, "account-123"));
    assert!(!telegram_tree_enters(2, "stable"));
    assert!(telegram_tree_enters(3, "postbox"));
    assert!(!telegram_tree_enters(4, "media"));
}

#[test]
fn firefox_walk_enters_two_levels() {
    assert!(firefox_tree_enters(0));
    assert!(firefox_tree_enters(1));
    assert!(!firefox_tree_enters(2));
}

#[test]
fn screenshot_folder_prefers_configured_directory() {
    let configured = Some(("/Users/me/Shots".to_string(), true));
    let desktop = Some(("/Users/me/Desktop".to_string(), true));
    assert_eq!(screenshot_folder(configured, desktop.clone()), Some("/Users/me/Shots".to_string()));
    let missing = Some(("/Users/me/Gone".to_string(), false));
    assert_eq!(screenshot_folder(missing, desktop.clone()), Some("/Users/me/Desktop".to_string()));
    assert_eq!(screenshot_folder(None, desktop), Some("/Users/me/Desktop".to_string()));
    assert_eq!(screenshot_folder(None, Some(("/Users/me/Desktop".to_string(), false))), None);
    assert_eq!(screenshot_folder(None, None), None);
}
