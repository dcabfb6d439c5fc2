use tiny_cli::clean::discover::CategoryGroup;
use tiny_cli::clean::drill::{
    drill_down, drill_mode, flat_rows, summarize_by_subdir, DrillMode, DRILL_DOWN_FLAT_LIMIT,
};
use tiny_cli::clean::picker::{
    action_menu, category_rows, choice_at, default_action_index, family_max_risk,
    family_totals_fit_check, group_by_family, hard_delete_prompt, insert_sorted_unique,
    pick_action, pick_categories, ActionChoice,
};
use tiny_cli::clean::exclusion::drill_down_all;
use tiny_cli::clean::registry::Family;
use tiny_cli::clean::types::{CleanAction, CleanItem, RiskLevel};

fn group(id: &str, risk: RiskLevel, size: u64) -> CategoryGroup {
    CategoryGroup {
        id: id.into(),
        label: id.into(),
        risk,
        items: vec![CleanItem {
            category_id: id.into(),
            category_label: id.into(),
            path: format!("/tmp/{}", id),
            size,
            risk,
        }],
        total_size: size,
    }
}

#[test]
fn group_by_family_orders_dev_first() {
    let groups = vec![
        group("user-logs", RiskLevel::Safe, 100),
        group("cargo", RiskLevel::Review, 200),
        group("trash", RiskLevel::Destructive, 300),
    ];
    let buckets = group_by_family(&groups);
    assert_eq!(buckets.len(), 2, "Dev + System present, no UserStorage");
    assert_eq!(buckets[0].0, Family::Dev);
    assert_eq!(buckets[1].0, Family::System);
    assert_eq!(buckets[0].1, vec![1]);
    assert_eq!(buckets[1].1, vec![0, 2]);
}

#[test]
fn group_by_family_aggregates_sizes() {
    let groups = vec![
        group("cargo", RiskLevel::Review, 100),
        group("npm", RiskLevel::Review, 200),
        group("trash", RiskLevel::Destructive, 300),
    ];
    let buckets = group_by_family(&groups);
    assert_eq!(buckets[0].0, Family::Dev);
    assert_eq!(buckets[0].1.len(), 2);
    assert_eq!(buckets[1].0, Family::System);
    assert_eq!(buckets[1].1.len(), 1);
}

#[test]
fn family_max_risk_destructive_wins() {
    let groups = vec![
        group("cargo", RiskLevel::Review, 1),
        group("npm", RiskLevel::Safe, 1),
        group("trash", RiskLevel::Destructive, 1),
    ];
    assert_eq!(family_max_risk(&groups, &[0, 1, 2]), RiskLevel::Destructive);
    assert_eq!(family_max_risk(&groups, &[0, 1]), RiskLevel::Review);
    assert_eq!(family_max_risk(&groups, &[1]), RiskLevel::Safe);
    assert_eq!(family_max_risk(&groups, &[]), RiskLevel::Safe);
}

#[test]
fn category_rows_have_one_header_per_family() {
    let groups = vec![
        group("user-logs", RiskLevel::Safe, 100),
        group("cargo", RiskLevel::Review, 2048),
    ];
    assert!(family_totals_fit_check(&groups));
    let rows = category_rows(&groups);
    assert_eq!(rows.len(), 4);
    assert_eq!(rows[0].label, "▸ Dev caches — 2.00 KB (1 cats) [review]");
    assert_eq!(rows[0].origin, None);
    assert!(!rows[0].checked);
    assert_eq!(rows[1].label, format!("  • {:<26} {:>10}   {}", "cargo", "2.00 KB", "review"));
    assert_eq!(rows[1].origin, Some(1));
    assert!(!rows[1].checked);
    assert_eq!(rows[2].label, "▸ System leftovers — 100 B (1 cats) [safe]");
    assert_eq!(rows[3].origin, Some(0));
    assert!(rows[3].checked);
}

#[test]
fn family_totals_that_overflow_are_reported() {
    let groups = vec![group("cargo", RiskLevel::Review, u64::MAX), group("npm", RiskLevel::Review, 1)];
    assert!(!family_totals_fit_check(&groups));
}

#[test]
fn picked_rows_map_back_sorted_and_deduplicated() {
    let groups = vec![
        group("user-logs", RiskLevel::Safe, 100),
        group("cargo", RiskLevel::Review, 200),
        group("npm", RiskLevel::Review, 200),
    ];
    // rows: 0 Dev header, 1 cargo, 2 npm, 3 System header, 4 user-logs
    let picked = pick_categories(&groups, &[4, 0, 2, 1, 3, 2]);
    assert_eq!(picked, vec![0, 1, 2]);
    assert_eq!(pick_categories(&groups, &[0, 3]), Vec::<usize>::new());
}

#[test]
fn insert_sorted_unique_keeps_order() {
    let mut v = vec![1, 5];
    insert_sorted_unique(&mut v, 3);
    insert_sorted_unique(&mut v, 5);
    insert_sorted_unique(&mut v, 0);
    assert_eq!(v, vec![0, 1, 3, 5]);
}

#[test]
fn action_menu_rows_and_defaults() {
    let (items, mapping) = action_menu(true);
    assert_eq!(
        items,
        vec![
            "Move to Trash (recoverable)",
            "Dry-run (no changes)",
            "Review paths (drill-down)",
            "Hard delete (NOT recoverable)",
            "Cancel"
        ]
    );
    assert_eq!(default_action_index(&mapping, true), 3);
    assert_eq!(default_action_index(&mapping, false), 0);
    assert_eq!(choice_at(&mapping, 2), ActionChoice::ReviewPaths);
    assert_eq!(choice_at(&mapping, 9), ActionChoice::Cancel);
    let (_, plain) = action_menu(false);
    assert_eq!(default_action_index(&plain, true), 2);
}

#[test]
fn pick_action_follows_plain_menu() {
    assert_eq!(pick_action(0), CleanAction::Trash);
    assert_eq!(pick_action(1), CleanAction::DryRun);
    assert_eq!(pick_action(2), CleanAction::HardDelete);
    assert_eq!(pick_action(3), CleanAction::Cancel);
    assert_eq!(pick_action(7), CleanAction::Cancel);
}

#[test]
fn hard_delete_prompt_text() {
    assert_eq!(
        hard_delete_prompt(1, 512),
        "PERMANENTLY DELETE 1 item (512 B) — this CANNOT be undone. Are you sure?"
    );
    assert_eq!(
        hard_delete_prompt(3, 1536),
        "PERMANENTLY DELETE 3 items (1.50 KB) — this CANNOT be undone. Are you sure?"
    );
}

fn item(path: &str) -> CleanItem {
    CleanItem {
        category_id: "test".into(),
        category_label: "Test".into(),
        path: path.into(),
        size: 1024,
        risk: RiskLevel::Review,
    }
}

fn big_group(n: usize) -> CategoryGroup {
    let mut items = Vec::new();
    for i in 0..n {
        let parent = match i % 3 {
            0 => "/p0",
            1 => "/p1",
            _ => "/p2",
        };
        items.push(item(&format!("{}/file_{}.bin", parent, i)));
    }
    CategoryGroup { id: "test".into(), label: "Test".into(), risk: RiskLevel::Review, items, total_size: 0 }
}

#[test]
fn summarize_by_subdir_groups_by_parent() {
    let items = vec![item("/a/x.txt"), item("/a/y.txt"), item("/b/z.txt"), item("/b/w.txt")];
    let buckets = summarize_by_subdir(&items);
    assert_eq!(buckets.len(), 2);
    let counts: Vec<usize> = buckets.iter().map(|(_, v)| v.len()).collect();
    assert_eq!(counts, vec![2, 2]);
}

#[test]
fn drill_down_falls_back_to_summary_above_threshold() {
    let g = big_group(501);
    assert!(g.items.len() > DRILL_DOWN_FLAT_LIMIT);
    let buckets = summarize_by_subdir(&g.items);
    assert!(!buckets.is_empty());
    assert_eq!(buckets.len(), 3);
}

#[test]
fn summary_buckets_are_sorted_by_parent() {
    let items = vec![item("/b/z.txt"), item("/a/x.txt"), item("/b/w.txt")];
    let buckets = summarize_by_subdir(&items);
    assert_eq!(buckets[0].0, "a");
    assert_eq!(buckets[0].1, vec![1]);
    assert_eq!(buckets[1].0, "b");
    assert_eq!(buckets[1].1, vec![0, 2]);
}

#[test]
fn drill_mode_by_item_count() {
    assert_eq!(drill_mode(&big_group(0)), DrillMode::Skip);
    assert_eq!(drill_mode(&big_group(500)), DrillMode::Flat);
    assert_eq!(drill_mode(&big_group(501)), DrillMode::Summary);
}

#[test]
fn flat_drill_down_excludes_unkept_items() {
    let g = big_group(3);
    let mut excluded = vec!["/keep/me".to_string()];
    drill_down(&g, Some(&[0, 2]), &mut excluded);
    assert_eq!(excluded, vec!["/keep/me".to_string(), "/p1/file_1.bin".to_string()]);
    let mut untouched: Vec<String> = Vec::new();
    drill_down(&g, None, &mut untouched);
    assert!(untouched.is_empty());
}

#[test]
fn summary_drill_down_excludes_whole_parents() {
    let g = big_group(501);
    let mut excluded: Vec<String> = Vec::new();
    // buckets: /p0, /p1, /p2 — keep only /p1
    drill_down(&g, Some(&[1]), &mut excluded);
    assert_eq!(excluded.len(), 334);
    assert!(excluded.iter().all(|p| !p.starts_with("/p1/")));
}

#[test]
fn flat_rows_show_size_and_path() {
    let g = big_group(1);
    let rows = flat_rows(&g);
    assert_eq!(rows, vec![format!("{:>10}  {}", "1.00 KB", "/p0/file_0.bin")]);
}

#[test]
fn summary_groups_by_parent_directory_name() {
    let items = vec![item("/x/cache/a"), item("/y/cache/b")];
    let buckets = summarize_by_subdir(&items);
    assert_eq!(buckets, vec![("cache".to_string(), vec![0, 1])]);
}

#[test]
fn summary_puts_parents_without_a_name_under_root() {
    let items = vec![item("/top"), item("loose"), item("/d/x"), item("./y")];
    let buckets = summarize_by_subdir(&items);
    assert_eq!(buckets, vec![("/".to_string(), vec![0, 1, 3]), ("d".to_string(), vec![2])]);
}

#[test]
fn drill_down_over_groups_joins_each_groups_exclusions() {
    let a = big_group(3);
    let empty = big_group(0);
    let b = big_group(2);
    let groups = vec![&a, &empty, &b];
    // a: keep rows 0 and 2; empty: not asked; b: keep nothing
    let answers = vec![Some(vec![0, 2]), None, Some(vec![])];
    let excluded = drill_down_all(&groups, &answers);
    assert_eq!(
        excluded,
        vec!["/p1/file_1.bin".to_string(), "/p0/file_0.bin".to_string(), "/p1/file_1.bin".to_string()]
    );
    // skipping every group excludes nothing
    assert!(drill_down_all(&groups, &vec![None, None, None]).is_empty());
}
