use std::collections::HashMap;

use tiny_cli::clean::providers::ScreenshotsOld;
use tiny_cli::clean::runner::{CommandOutput, CommandRunner};
use tiny_cli::clean::listing::{firefox_cache_dirs, list_old_files, list_old_screenshots, telegram_media_dirs, v_dirs};
use tiny_cli::clean::walk::{
    find_node_modules, find_orphan_venv, find_pycache, find_rust_targets, python_manifest, walk_enters, Finder, FsNode,
};

const DAY: u64 = 86_400;
const NOW: u64 = 2_000_000_000;

fn last_component(path: &str) -> String {
    path.rsplit('/').next().unwrap_or(path).to_string()
}

fn dir(path: &str, children: Vec<FsNode>) -> FsNode {
    FsNode { path: path.into(), name: last_component(path), is_dir: true, size: 0, modified_secs: NOW, children }
}

fn file(path: &str, age_days: u64) -> FsNode {
    FsNode {
        path: path.into(),
        name: last_component(path),
        is_dir: false,
        size: 0,
        modified_secs: NOW - age_days * DAY,
        children: Vec::new(),
    }
}

#[test]
fn pycache_found_anywhere_no_manifest_required() {
    let nested = dir("root/a/b/__pycache__", vec![]);
    let root = dir("root", vec![dir("root/a", vec![dir("root/a/b", vec![nested])])]);
    let found = find_pycache(&root);
    assert_eq!(found.len(), 1);
    assert_eq!(found[0], "root/a/b/__pycache__");
}

#[test]
fn venv_requires_python_manifest() {
    let root = dir("root", vec![dir("root/ghost", vec![dir("root/ghost/venv", vec![])])]);
    let found = find_orphan_venv(&root, 0, NOW);
    assert!(found.is_empty());
}

fn python_project(manifest_age_days: u64) -> FsNode {
    dir(
        "root",
        vec![dir("root/alive", vec![dir("root/alive/.venv", vec![]), file("root/alive/pyproject.toml", manifest_age_days)])],
    )
}

#[test]
fn venv_idle_threshold_applied() {
    let fresh = find_orphan_venv(&python_project(0), 30, NOW);
    assert!(fresh.is_empty(), "fresh manifest must not flag");
    let stale = find_orphan_venv(&python_project(31), 30, NOW);
    assert_eq!(stale.len(), 1);
}

#[test]
fn refuses_target_without_cargo_toml() {
    let root = dir("root", vec![dir("root/ghost", vec![dir("root/ghost/target", vec![])])]);
    let found = find_rust_targets(&root, 0, NOW);
    assert!(found.is_empty());
}

fn cargo_project(manifest_age_days: u64) -> FsNode {
    dir(
        "root",
        vec![dir("root/alive", vec![dir("root/alive/target", vec![]), file("root/alive/Cargo.toml", manifest_age_days)])],
    )
}

#[test]
fn idle_threshold_filters_recently_modified() {
    let fresh = find_rust_targets(&cargo_project(0), 30, NOW);
    assert!(fresh.is_empty(), "fresh Cargo.toml must not flag");
    let stale = find_rust_targets(&cargo_project(31), 30, NOW);
    assert_eq!(stale.len(), 1);
}

#[test]
fn does_not_descend_into_target() {
    let outer = dir("root/p/target", vec![dir("root/p/target/target", vec![])]);
    let root = dir("root", vec![dir("root/p", vec![outer, file("root/p/Cargo.toml", 40)])]);
    let found = find_rust_targets(&root, 30, NOW);
    assert_eq!(found, vec!["root/p/target".to_string()]);
}

#[test]
fn pycache_is_not_entered_and_files_are_passed_over() {
    let root = dir(
        "root",
        vec![
            dir("root/__pycache__", vec![dir("root/__pycache__/__pycache__", vec![])]),
            file("root/notes.txt", 0),
            dir("root/pkg", vec![dir("root/pkg/__pycache__", vec![])]),
        ],
    );
    assert_eq!(find_pycache(&root), vec!["root/__pycache__".to_string(), "root/pkg/__pycache__".to_string()]);
}

#[test]
fn python_manifest_prefers_pyproject_then_setup_then_requirements() {
    let both = dir("p", vec![file("p/requirements.txt", 0), file("p/setup.py", 0), file("p/pyproject.toml", 0)]);
    assert_eq!(python_manifest(&both), Some("p/pyproject.toml".to_string()));
    let two = dir("p", vec![file("p/requirements.txt", 0), file("p/setup.py", 0)]);
    assert_eq!(python_manifest(&two), Some("p/setup.py".to_string()));
    let none = dir("p", vec![dir("p/pyproject.toml", vec![]), file("p/README.md", 0)]);
    assert_eq!(python_manifest(&none), None);
}

#[test]
fn venv_uses_first_manifest_present() {
    // The preferred manifest is fresh even though an older one is also present.
    let root = dir(
        "root",
        vec![dir(
            "root/p",
            vec![dir("root/p/env", vec![]), file("root/p/requirements.txt", 90), file("root/p/setup.py", 1)],
        )],
    );
    assert!(find_orphan_venv(&root, 30, NOW).is_empty());
}

#[test]
fn node_modules_requires_idle_package_json() {
    let project = |age: u64| {
        dir(
            "root",
            vec![dir(
                "root/web",
                vec![
                    dir("root/web/node_modules", vec![dir("root/web/node_modules/dep/node_modules", vec![])]),
                    file("root/web/package.json", age),
                ],
            )],
        )
    };
    assert!(find_node_modules(&project(5), 30, NOW).is_empty());
    assert_eq!(find_node_modules(&project(45), 30, NOW), vec!["root/web/node_modules".to_string()]);
}

#[test]
fn walks_enter_everything_but_what_they_look_for() {
    assert!(!walk_enters(Finder::Target, "target"));
    assert!(walk_enters(Finder::Target, "src"));
    assert!(!walk_enters(Finder::Venv, ".venv"));
    assert!(walk_enters(Finder::Venv, "venvs"));
    assert!(!walk_enters(Finder::Pycache, "__pycache__"));
    assert!(!walk_enters(Finder::NodeModules, "node_modules"));
}

/// A directory last modified `age_days` ago.
fn aged_dir(path: &str, age_days: u64, children: Vec<FsNode>) -> FsNode {
    let mut d = dir(path, children);
    d.modified_secs = NOW - age_days * DAY;
    d
}

#[test]
fn downloads_filters_by_age() {
    let downloads = dir("dl", vec![file("dl/fresh.txt", 0), file("dl/stale.txt", 60)]);
    let found = list_old_files(&downloads, 30, NOW);
    assert_eq!(found.len(), 1);
    assert_eq!(found[0], "dl/stale.txt");
}

#[test]
fn downloads_skips_subdirectories() {
    let downloads = dir("dl", vec![aged_dir("dl/subdir", 60, vec![file("dl/subdir/inside.txt", 60)])]);
    // Subdirs not descended; even though the file is old it's not flagged.
    assert!(list_old_files(&downloads, 30, NOW).is_empty());
}

#[test]
fn list_filters_by_prefix_and_age() {
    let desktop = dir(
        "d",
        vec![
            file("d/Screenshot 2020-01-01 at 10.00.00.png", 60),
            file("d/Screenshot 2026-05-04 at 10.00.00.png", 0),
            file("d/photo.png", 60),
        ],
    );
    let found = list_old_screenshots(&desktop, 30, NOW);
    assert_eq!(found.len(), 1);
    assert_eq!(found[0], "d/Screenshot 2020-01-01 at 10.00.00.png");
}

#[test]
fn old_screen_shot_prefix_is_also_a_screenshot() {
    let desktop = dir("d", vec![file("d/Screen Shot 2019-02-02 at 9.00.00.png", 90), aged_dir("d/Screenshot folder", 90, vec![])]);
    assert_eq!(list_old_screenshots(&desktop, 30, NOW), vec!["d/Screen Shot 2019-02-02 at 9.00.00.png".to_string()]);
}

#[test]
fn v_dirs_matches_versioned_directories() {
    let mail = dir(
        "Mail",
        vec![dir("Mail/V8", vec![]), dir("Mail/V10", vec![]), dir("Mail/Vacation", vec![]), dir("Mail/V", vec![]), file("Mail/V99", 0)],
    );
    let mut found = v_dirs(&mail);
    found.sort();
    assert_eq!(found.len(), 2);
    assert!(found.iter().all(|p| p == "Mail/V8" || p == "Mail/V10"));
}

#[test]
fn telegram_media_dirs_resolves_account_glob() {
    let media = |account: &str| dir(&format!("{}/postbox", account), vec![dir(&format!("{}/postbox/media", account), vec![])]);
    let gc = "gc";
    let good = format!("{}/6N38VWS5BX.ru.keepcoder.Telegram", gc);
    let other = format!("{}/other.app", gc);
    let wrong = format!("{}/X.ru.keepcoder.Telegram", gc);
    let root = dir(
        gc,
        vec![
            dir(&good, vec![dir(&format!("{}/account-12345", good), vec![media(&format!("{}/account-12345", good))])]),
            // Wrong-suffix container → must skip.
            dir(&other, vec![dir(&format!("{}/account-1", other), vec![media(&format!("{}/account-1", other))])]),
            // Wrong-prefix account → must skip.
            dir(&wrong, vec![dir(&format!("{}/profile-1", wrong), vec![media(&format!("{}/profile-1", wrong))])]),
        ],
    );
    let found = telegram_media_dirs(&root);
    assert_eq!(found.len(), 1);
    assert!(found[0].ends_with("account-12345/postbox/media"));
}

#[test]
fn telegram_account_without_media_is_skipped() {
    let c = "gc/A.ru.keepcoder.Telegram";
    let root = dir(
        "gc",
        vec![dir(c, vec![dir(&format!("{}/account-1", c), vec![dir(&format!("{}/account-1/postbox", c), vec![])])])],
    );
    assert!(telegram_media_dirs(&root).is_empty());
}

#[test]
fn firefox_cache_dirs_resolves_profiles_glob() {
    // Two profiles, one with cache2, one without.
    let root = dir(
        "ff",
        vec![
            dir("ff/abcd1234.default", vec![dir("ff/abcd1234.default/cache2", vec![])]),
            dir("ff/efgh5678.dev-edition", vec![]),
        ],
    );
    let found = firefox_cache_dirs(&root);
    assert_eq!(found.len(), 1);
    assert!(found[0].ends_with("abcd1234.default/cache2"));
}

#[test]
fn firefox_cache2_must_be_a_directory() {
    let root = dir("ff", vec![dir("ff/p.default", vec![file("ff/p.default/cache2", 0)]), file("ff/profiles.ini", 0)]);
    assert!(firefox_cache_dirs(&root).is_empty());
}

#[derive(Default)]
struct MockRunner {
    responses: HashMap<String, (bool, String)>,
}

impl CommandRunner for MockRunner {
    fn which(&self, _bin: &str) -> bool {
        false
    }
    fn run(&self, bin: &str, args: &[&str]) -> CommandOutput {
        match self.responses.get(&format!("{} {}", bin, args.join(" "))) {
            Some((success, stdout)) => CommandOutput { success: *success, stdout: stdout.clone() },
            None => CommandOutput { success: false, stdout: String::new() },
        }
    }
}

#[test]
fn screenshot_dir_uses_defaults_value_when_present() {
    let mut runner = MockRunner::default();
    runner
        .responses
        .insert("defaults read com.apple.screencapture location".into(), (true, "/tmp/custom-shots".into()));
    let p = ScreenshotsOld::with_runner(30, runner);
    assert_eq!(p.configured_dir(Some("/Users/me")), Some("/tmp/custom-shots".to_string()));
}

#[test]
fn unread_contents_of_unentered_directories_change_nothing() {
    let full = dir(
        "root",
        vec![dir(
            "root/p",
            vec![
                dir("root/p/target", vec![dir("root/p/target/debug", vec![file("root/p/target/debug/app", 0)])]),
                file("root/p/Cargo.toml", 40),
            ],
        )],
    );
    let pruned = dir("root", vec![dir("root/p", vec![dir("root/p/target", vec![]), file("root/p/Cargo.toml", 40)])]);
    assert_eq!(find_rust_targets(&full, 30, NOW), find_rust_targets(&pruned, 30, NOW));
    assert_eq!(find_rust_targets(&pruned, 30, NOW), vec!["root/p/target".to_string()]);
}

#[test]
fn walks_offer_only_output_directories() {
    // A file named like an output, and an output without an idle manifest, are not offered.
    let root = dir(
        "root",
        vec![
            file("root/target", 90),
            file("root/Cargo.toml", 90),
            dir("root/p", vec![dir("root/p/target", vec![]), file("root/p/Cargo.toml", 90)]),
            dir("root/q", vec![dir("root/q/target", vec![])]),
        ],
    );
    assert_eq!(find_rust_targets(&root, 30, NOW), vec!["root/p/target".to_string()]);
}
