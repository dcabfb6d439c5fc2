use std::time::{SystemTime, UNIX_EPOCH};

use tiny_cli::cli::{SortBy, UninstallOpts};
use tiny_cli::uninstall::dates::{days_from_civil, mdls_date_of, parse_i64, parse_mdls_days_ago};
use tiny_cli::uninstall::leftovers::leftover_candidates;
use tiny_cli::uninstall::plan::{build_plan, cask_path, sort_apps, AppEntry, ItemKind, RemovalItem};
use tiny_cli::uninstall::report::{
    action_menu_items, app_label, app_name_of, blocked_count, blocked_error, confirm_prompt, direct_app_path,
    eq_ignore_ascii_case, failures_error, removal_line,
    menu_action, menu_default, no_app_error, plan_lines, preset_action, Action,
};
use tiny_cli::util::truncate;

fn now_secs() -> u64 {
    SystemTime::now().duration_since(UNIX_EPOCH).unwrap().as_secs()
}

fn mk(name: &str, size: u64) -> AppEntry {
    AppEntry {
        name: name.to_string(),
        path: format!("/Applications/{}.app", name),
        bundle_id: None,
        size,
        last_used_days: None,
    }
}

fn opts() -> UninstallOpts {
    UninstallOpts {
        name: None,
        dry_run: false,
        yes: false,
        shallow: false,
        leftovers_only: false,
        hard: false,
        sort: SortBy::LastUsed,
        force: false,
    }
}

#[test]
fn parse_mdls_handles_null_and_empty() {
    assert_eq!(parse_mdls_days_ago("", now_secs()), None);
    assert_eq!(parse_mdls_days_ago("(null)", now_secs()), None);
}

#[test]
fn parse_mdls_extracts_days() {
    let days = parse_mdls_days_ago("1970-01-01 00:00:00 +0000", now_secs()).unwrap();
    assert!(days >= 20_000);
}

#[test]
fn parse_mdls_counts_whole_days() {
    // 2024-01-31 is day 19753 of the epoch.
    assert_eq!(parse_mdls_days_ago("2024-01-31 12:00:00 +0000", 19_763 * 86_400 + 5), Some(10));
    assert_eq!(parse_mdls_days_ago("2099-01-01", 0), Some(0));
    assert_eq!(parse_mdls_days_ago("2024-13-01", 0), None);
    assert_eq!(parse_mdls_days_ago("yesterday", 0), None);
    assert_eq!(mdls_date_of("  2026-04-15 09:12:33 +0000"), Some((2026, 4, 15)));
}

#[test]
fn civil_days_and_integer_parsing() {
    assert_eq!(days_from_civil(1970, 1, 1), Some(0));
    assert_eq!(days_from_civil(2000, 3, 1), Some(11_017));
    assert_eq!(days_from_civil(1969, 12, 31), Some(-1));
    assert_eq!(days_from_civil(2000, 0, 1), None);
    assert_eq!(parse_i64("+42"), Some(42));
    assert_eq!(parse_i64("-7"), Some(-7));
    assert_eq!(parse_i64("9223372036854775808"), None);
    assert_eq!(parse_i64("1x"), None);
}

#[test]
fn truncate_is_safe() {
    assert_eq!(truncate("hi", 10), "hi");
    let t = truncate("supercalifragilisticexpialidocious", 10);
    assert_eq!(t.chars().count(), 10);
    assert!(t.ends_with('…'));
}

#[test]
fn sort_size_desc() {
    let apps = vec![mk("A", 100), mk("B", 300), mk("C", 200)];
    let s = sort_apps(apps, &SortBy::Size);
    assert_eq!(s[0].name, "B");
    assert_eq!(s[2].name, "A");
}

#[test]
fn sort_last_used_puts_longest_unused_first() {
    let mut a = mk("A", 1);
    a.last_used_days = Some(3);
    let mut b = mk("B", 1);
    b.last_used_days = Some(30);
    let c = mk("C", 1);
    let s = sort_apps(vec![a, b, c], &SortBy::LastUsed);
    let names: Vec<&str> = s.iter().map(|x| x.name.as_str()).collect();
    assert_eq!(names, vec!["B", "A", "C"]);
    let s = sort_apps(vec![mk("b", 1), mk("A", 1), mk("C", 1)], &SortBy::Name);
    let names: Vec<&str> = s.iter().map(|x| x.name.as_str()).collect();
    assert_eq!(names, vec!["A", "b", "C"]);
}

#[test]
fn system_apps_and_casks_are_blocked() {
    let mut safari = mk("Safari", 10);
    safari.bundle_id = Some("com.apple.Safari".into());
    let p = build_plan(&safari, &opts(), false, Vec::new());
    assert_eq!(p.blocked.as_deref(), Some("system app (com.apple.Safari) — refuse"));
    let cask = mk("Visual Studio Code", 10);
    let p = build_plan(&cask, &opts(), true, Vec::new());
    assert_eq!(
        p.blocked.as_deref(),
        Some("looks like a Homebrew cask — use `brew uninstall --cask visual studio code` (or pass --force)")
    );
    let mut forced = opts();
    forced.force = true;
    assert!(build_plan(&cask, &forced, true, Vec::new()).blocked.is_none());
    assert_eq!(cask_path("Visual Studio Code"), "/opt/homebrew/Caskroom/visual-studio-code");
}

#[test]
fn plan_items_follow_mode_flags() {
    let app = mk("Foo", 100);
    let left = vec![RemovalItem { path: "/h/Library/Caches/Foo".into(), size: 5, kind: ItemKind::Leftover }];
    let full = build_plan(&app, &opts(), false, left.clone());
    assert_eq!(full.items.len(), 2);
    assert_eq!(full.items[0].kind, ItemKind::AppBundle);
    let mut shallow = opts();
    shallow.shallow = true;
    assert_eq!(build_plan(&app, &shallow, false, left.clone()).items.len(), 1);
    let mut only = opts();
    only.leftovers_only = true;
    let p = build_plan(&app, &only, false, left);
    assert_eq!(p.items.len(), 1);
    assert_eq!(p.items[0].path, "/h/Library/Caches/Foo");
}

#[test]
fn leftover_candidates_by_bundle_and_name() {
    let agents = vec!["com.foo.app.helper.plist".to_string(), "other.plist".to_string()];
    let groups = vec!["ABC.com.foo.app".to_string()];
    let c = leftover_candidates("/h", "Foo", Some("com.foo.app"), &agents, &groups);
    assert_eq!(c.len(), 13);
    assert_eq!(c[0], "/h/Library/Application Support/com.foo.app");
    assert_eq!(c[2], "/h/Library/Preferences/com.foo.app.plist");
    assert_eq!(c[8], "/h/Library/LaunchAgents/com.foo.app.helper.plist");
    assert_eq!(c[9], "/h/Library/Group Containers/ABC.com.foo.app");
    assert_eq!(c[12], "/h/Library/Caches/Foo");
    let by_name = leftover_candidates("/h", "Foo", None, &agents, &groups);
    assert_eq!(by_name.len(), 3);
}

#[test]
fn report_lines_of_a_plan() {
    let mut app = mk("Foo", 2048);
    app.bundle_id = Some("com.foo".into());
    let plan = build_plan(&app, &opts(), false, Vec::new());
    let lines = plan_lines(&vec![plan], &opts());
    assert_eq!(
        lines,
        vec![
            "Mode: full (move to Trash)".to_string(),
            "".to_string(),
            "== Foo ==".to_string(),
            "  bundle: com.foo".to_string(),
            format!("  app   {:>10}  /Applications/Foo.app", "2.00 KB"),
            "  → subtotal: 2.00 KB".to_string(),
            "".to_string(),
            "Grand total: 2.00 KB".to_string(),
        ]
    );
}

#[test]
fn confirm_prompt_counts_items() {
    let plan = build_plan(&mk("Foo", 512), &opts(), false, Vec::new());
    assert_eq!(
        confirm_prompt(&vec![plan]),
        "PERMANENTLY DELETE 1 item (512 B) — this CANNOT be undone. Are you sure?"
    );
}

#[test]
fn app_label_shows_size_and_last_use() {
    let mut a = mk("Foo", 0);
    a.last_used_days = Some(0);
    assert_eq!(app_label(&a), format!("{:<32} {:>10}    last used today", "Foo", "0 B"));
    a.last_used_days = Some(5);
    assert!(app_label(&a).ends_with("last used 5d ago"));
    a.last_used_days = None;
    assert!(app_label(&a).ends_with("last used never"));
}

#[test]
fn action_flags_and_menu() {
    let mut o = opts();
    assert_eq!(preset_action(&o), None);
    o.yes = true;
    assert_eq!(preset_action(&o), Some(Action::Trash));
    o.hard = true;
    assert_eq!(preset_action(&o), Some(Action::Hard));
    assert_eq!(menu_default(&o), 2);
    o.dry_run = true;
    assert_eq!(preset_action(&o), Some(Action::DryRun));
    assert_eq!(action_menu_items().len(), 4);
    assert_eq!(menu_action(0), Action::Trash);
    assert_eq!(menu_action(1), Action::DryRun);
    assert_eq!(menu_action(2), Action::Hard);
    assert_eq!(menu_action(3), Action::Cancel);
}

#[test]
fn app_lookup_helpers() {
    assert!(eq_ignore_ascii_case("Cursor", "cURSOR"));
    assert!(!eq_ignore_ascii_case("Cursor", "Cursors"));
    assert_eq!(direct_app_path("Cursor"), "/Applications/Cursor.app");
    assert_eq!(app_name_of("/Applications/Cursor.app"), "Cursor");
    assert_eq!(no_app_error("Nope"), "no app named 'Nope' found in /Applications");
}

#[test]
fn blocked_and_failed_messages() {
    let mut safari = mk("Safari", 10);
    safari.bundle_id = Some("com.apple.Safari".into());
    let plans = vec![build_plan(&safari, &opts(), false, Vec::new()), build_plan(&mk("Foo", 1), &opts(), false, Vec::new())];
    assert_eq!(blocked_count(&plans), 1);
    assert_eq!(
        blocked_error(1),
        "1 app(s) blocked from removal — see report above. Use --force to override Homebrew warning."
    );
    assert_eq!(removal_line("Foo", &Ok(())), "✓ removed Foo");
    assert_eq!(removal_line("Foo", &Err("busy".into())), "✗ Foo: busy");
    assert_eq!(failures_error(&vec!["A".into(), "B".into()]), "failed to fully remove: A, B");
}
