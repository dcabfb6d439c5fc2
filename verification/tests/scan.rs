use tiny_cli::cli::{ScanOpts, ScanSort};
use tiny_cli::scan::duplicates::{find, DuplicateGroup};
use tiny_cli::scan::extensions::{aggregate, bucket_of};
use tiny_cli::scan::ignore::IgnoreRules;
use tiny_cli::scan::plan::{build_scan_data, builtin_skip, enters_dir, join_path, resolve_roots};
use tiny_cli::scan::report::{duplicate_lines, extension_lines, file_lines, header_lines};
use tiny_cli::scan::sort::{sort_files, sort_order};
use tiny_cli::clean::walk::FsNode;
use tiny_cli::scan::types::FileEntry;
use tiny_cli::scan::walker::walk;

fn entry(path: &str, size: u64) -> FileEntry {
    FileEntry { path: path.into(), size, age_secs: 0 }
}

fn aged(path: &str, size: u64, age: u64) -> FileEntry {
    FileEntry { path: path.into(), size, age_secs: age }
}

// ---------- duplicates ----------

#[test]
fn groups_files_with_matching_size_and_name() {
    let files = vec![
        entry("/a/report.pdf", 1024),
        entry("/b/report.pdf", 1024),
        entry("/c/report.pdf", 2048),
        entry("/a/notes.txt", 50),
    ];
    let groups = find(&files, None);
    assert_eq!(groups.len(), 1);
    assert_eq!(groups[0].size, 1024);
    assert_eq!(groups[0].name, "report.pdf");
    assert_eq!(groups[0].paths.len(), 2);
    assert!(!groups[0].verified_by_hash);
    assert_eq!(groups[0].key, "1024:report.pdf");
}

#[test]
fn ignores_empty_files() {
    let files = vec![entry("/a/x", 0), entry("/b/x", 0)];
    let groups = find(&files, None);
    assert!(groups.is_empty());
}

#[test]
fn wasted_bytes_excludes_one_kept_copy() {
    let g = DuplicateGroup {
        key: "k".into(),
        size: 100,
        name: "x".into(),
        paths: vec!["a".into(), "b".into(), "c".into()],
        verified_by_hash: false,
    };
    assert_eq!(g.wasted_bytes(), 200);
}

#[test]
fn singletons_have_no_wasted_bytes() {
    let g = DuplicateGroup {
        key: "k".into(),
        size: 100,
        name: "x".into(),
        paths: vec!["a".into()],
        verified_by_hash: false,
    };
    assert_eq!(g.wasted_bytes(), 0);
}

#[test]
fn wasted_bytes_saturate() {
    let g = DuplicateGroup {
        key: "k".into(),
        size: u64::MAX,
        name: "x".into(),
        paths: vec!["a".into(), "b".into(), "c".into()],
        verified_by_hash: false,
    };
    assert_eq!(g.wasted_bytes(), u64::MAX);
}

#[test]
fn hashes_split_same_name_groups() {
    let files = vec![entry("/a/x.bin", 10), entry("/b/x.bin", 10), entry("/c/x.bin", 10)];
    let hashes = vec![Some(1), Some(2), Some(1)];
    let groups = find(&files, Some(&hashes));
    assert_eq!(groups.len(), 1);
    assert_eq!(groups[0].paths, vec!["/a/x.bin".to_string(), "/c/x.bin".to_string()]);
    assert!(groups[0].verified_by_hash);
    let unreadable = vec![None, None, Some(1)];
    assert!(find(&files, Some(&unreadable)).is_empty());
}

#[test]
fn groups_come_most_wasted_first() {
    let files = vec![
        entry("/a/s", 10),
        entry("/b/s", 10),
        entry("/a/l", 500),
        entry("/b/l", 500),
        entry("/c/l", 500),
    ];
    let groups = find(&files, None);
    assert_eq!(groups.len(), 2);
    assert_eq!(groups[0].name, "l");
    assert_eq!(groups[0].wasted_bytes(), 1000);
    assert_eq!(groups[1].name, "s");
}

// ---------- extensions ----------

#[test]
fn aggregates_by_extension_and_sorts_by_total_size_desc() {
    let files = vec![
        entry("/a/big.zip", 1000),
        entry("/a/small.zip", 100),
        entry("/a/note.txt", 50),
        entry("/a/README", 30),
    ];
    let stats = aggregate(&files);
    assert_eq!(stats.len(), 3);
    assert_eq!(stats[0].ext, "zip");
    assert_eq!(stats[0].count, 2);
    assert_eq!(stats[0].total_size, 1100);
    assert_eq!(stats[1].ext, "txt");
    assert_eq!(stats[2].ext, "(no ext)");
    assert_eq!(stats[2].count, 1);
}

#[test]
fn extension_match_is_case_insensitive() {
    let files = vec![entry("/a.JPG", 10), entry("/b.jpg", 20)];
    let stats = aggregate(&files);
    assert_eq!(stats.len(), 1);
    assert_eq!(stats[0].ext, "jpg");
    assert_eq!(stats[0].count, 2);
    assert_eq!(stats[0].total_size, 30);
}

#[test]
fn dotfiles_have_no_extension() {
    let stats = aggregate(&[entry("/h/.bashrc", 5), entry("/h/a.tar.GZ", 7)]);
    assert_eq!(stats.len(), 2);
    assert_eq!(stats[0].ext, "gz");
    assert_eq!(stats[1].ext, "(no ext)");
}

// ---------- ignore rules ----------

#[test]
fn parses_dirname_and_ext_patterns() {
    let rules = IgnoreRules::from_str(
        "# header\n\
         node_modules\n\
         *.log\n\
         \n\
         vendor\n\
         *.tmp\n",
    );
    assert!(rules.skip_dir("node_modules"));
    assert!(rules.skip_dir("vendor"));
    assert!(!rules.skip_dir("src"));
    assert!(rules.skip_file("server.log"));
    assert!(rules.skip_file("scratch.tmp"));
    assert!(!rules.skip_file("readme.md"));
}

#[test]
fn ignores_comments_and_blank_lines() {
    let rules = IgnoreRules::from_str("\n\n# nothing\n   \n");
    assert!(!rules.skip_dir("anything"));
    assert!(!rules.skip_file("anything.txt"));
}

#[test]
fn extension_match_is_case_sensitive_and_skips_unknown() {
    let rules = IgnoreRules::from_str("*.log");
    assert!(rules.skip_file("a.log"));
    assert!(!rules.skip_file("a.LOG"));
    assert!(!rules.skip_file("a"));
}

#[test]
fn load_merges_every_text() {
    let rules = IgnoreRules::load(&["build_out\n*.o".to_string(), "  cache  \n*.\n".to_string()]);
    assert!(rules.skip_dir("build_out"));
    assert!(rules.skip_dir("cache"));
    assert!(rules.skip_file("main.o"));
    assert!(!rules.skip_dir("*."));
    assert!(!rules.skip_file(".o"));
}

// ---------- walk plan ----------

#[test]
fn resolve_roots_uses_custom_when_provided() {
    let custom = vec!["/tmp/a".to_string(), "/tmp/b".to_string()];
    let roots = resolve_roots(&custom, "/tmp/home", Some("/work"));
    assert_eq!(roots, custom);
    let rel = resolve_roots(&["sub".to_string()], "/tmp/home", Some("/work"));
    assert_eq!(rel, vec!["/work/sub".to_string()]);
}

#[test]
fn resolve_roots_falls_back_to_defaults_only_existing() {
    let roots = resolve_roots(&[], "/nonexistent_home_for_test", None);
    assert_eq!(
        roots,
        vec![
            "/nonexistent_home_for_test/Downloads".to_string(),
            "/nonexistent_home_for_test/Desktop".to_string(),
            "/nonexistent_home_for_test/Documents".to_string(),
        ]
    );
    let existing: Vec<&String> = roots.iter().filter(|r| std::path::Path::new(r.as_str()).is_dir()).collect();
    assert!(existing.is_empty());
}

#[test]
fn walk_skips_builtin_and_ignored_dirs() {
    let rules = IgnoreRules::from_str("private");
    assert!(builtin_skip("node_modules"));
    assert!(!builtin_skip("src"));
    assert!(enters_dir("src", 0, &rules));
    assert!(!enters_dir("private", 0, &rules));
    assert!(!enters_dir(".git", 0, &rules));
    assert_eq!(join_path("/a/", "b"), "/a/b");
    assert_eq!(join_path("/a", "/b"), "/b");
}

#[test]
fn scan_data_applies_thresholds() {
    let files = vec![aged("/a", 2 * 1024 * 1024, 0), aged("/b", 10, 40 * 86_400), aged("/c", 1, 0)];
    let data = build_scan_data(vec!["/r".to_string()], files, 1, 30);
    assert_eq!(data.large.len(), 1);
    assert_eq!(data.large[0].path, "/a");
    assert_eq!(data.old.len(), 1);
    assert_eq!(data.old[0].path, "/b");
    assert_eq!(data.all_files.len(), 3);
}

// ---------- sorting ----------

#[test]
fn sort_by_size_desc() {
    let mut files = vec![aged("/a", 1, 10), aged("/b", 100, 5), aged("/c", 50, 1)];
    sort_files(&mut files, ScanSort::Size);
    assert_eq!(files[0].size, 100);
    assert_eq!(files[1].size, 50);
    assert_eq!(files[2].size, 1);
}

#[test]
fn sort_by_age_desc() {
    let mut files = vec![aged("/a", 1, 10), aged("/b", 1, 100), aged("/c", 1, 5)];
    sort_files(&mut files, ScanSort::Age);
    assert_eq!(files[0].age_secs, 100);
    assert_eq!(files[2].age_secs, 5);
}

#[test]
fn sort_by_path_asc() {
    let mut files = vec![aged("/c", 1, 0), aged("/a", 1, 0), aged("/b", 1, 0)];
    sort_files(&mut files, ScanSort::Path);
    assert_eq!(files[0].path, "/a");
    assert_eq!(files[2].path, "/c");
}

#[test]
fn sort_is_stable_for_ties() {
    let files = vec![aged("/x", 5, 0), aged("/y", 9, 0), aged("/z", 5, 0)];
    assert_eq!(sort_order(&files, ScanSort::Size), vec![1, 0, 2]);
}

// ---------- text report ----------

fn opts() -> ScanOpts {
    ScanOpts {
        min_size_mb: 100,
        older_than_days: 180,
        path: Vec::new(),
        json: false,
        sort: ScanSort::Size,
        limit: 1,
        by_ext: false,
        duplicates: true,
        hash: false,
    }
}

#[test]
fn header_lists_roots_and_settings() {
    let data = build_scan_data(vec!["/r1".to_string()], Vec::new(), 100, 180);
    let lines = header_lines(&data, &opts());
    assert_eq!(
        lines,
        vec![
            "Scan roots:",
            "  /r1",
            "Thresholds: size >= 100 MB, age >= 180 days",
            "Sort: Size, Limit: 1",
            "Duplicate detection: enabled (verify_with_hash = false)",
            "(read-only — no files are deleted)",
            "",
        ]
    );
}

#[test]
fn file_lists_are_cut_at_limit() {
    let files = vec![aged("/big", 2048, 3 * 86_400), aged("/small", 10, 0)];
    assert_eq!(
        file_lines("Large files", &files, 1, false),
        vec!["== Large files (2) ==".to_string(), format!("{:>10}  /big", "2.00 KB"), "... and 1 more".to_string()]
    );
    assert_eq!(
        file_lines("Old files", &files, 5, true),
        vec!["== Old files (2) ==".to_string(), "    3d  /big".to_string(), "    0d  /small".to_string()]
    );
}

#[test]
fn extension_table_rows() {
    let stats = aggregate(&[entry("/a.zip", 1024), entry("/b.txt", 5)]);
    let lines = extension_lines(&stats, 5);
    assert_eq!(lines[0], "== By extension (2) ==");
    assert_eq!(lines[1], format!("{:<14} {:>8} {:>14}", "EXT", "COUNT", "TOTAL"));
    assert_eq!(lines[2], format!("{:<14} {:>8} {:>14}", "zip", 1, "1.00 KB"));
    assert_eq!(lines.len(), 4);
}

#[test]
fn duplicate_section_lists_copies() {
    let groups = find(&[entry("/a/x", 10), entry("/b/x", 10)], None);
    let lines = duplicate_lines(&groups, 5);
    assert_eq!(
        lines,
        vec![
            "== Duplicates (1, wasted ~10 B) ==".to_string(),
            format!("{:>10} x2  x", "10 B"),
            "           - /a/x".to_string(),
            "           - /b/x".to_string(),
        ]
    );
}

// ---------- walk ----------

const NOW: u64 = 1_000_000;

fn node_file(path: &str, size: u64, modified: u64) -> FsNode {
    let name = path.rsplit('/').next().unwrap().to_string();
    FsNode { path: path.into(), name, is_dir: false, size, modified_secs: modified, children: Vec::new() }
}

fn node_dir(path: &str, children: Vec<FsNode>) -> FsNode {
    let name = path.rsplit('/').next().unwrap().to_string();
    FsNode { path: path.into(), name, is_dir: true, size: 0, modified_secs: NOW, children }
}

fn found(files: &[FileEntry]) -> Vec<(String, u64, u64)> {
    files.iter().map(|f| (f.path.clone(), f.size, f.age_secs)).collect()
}

#[test]
fn walk_collects_files_with_size_and_age() {
    let root = node_dir(
        "r",
        vec![node_file("r/a.txt", 10, NOW - 100), node_dir("r/sub", vec![node_file("r/sub/b.bin", 20, NOW + 5)])],
    );
    let files = walk(&vec![root], &IgnoreRules::new(), NOW);
    assert_eq!(found(&files), vec![("r/a.txt".to_string(), 10, 100), ("r/sub/b.bin".to_string(), 20, 0)]);
}

#[test]
fn walk_skips_builtin_and_ignored_directories_and_extensions() {
    let ignore = IgnoreRules::from_str("secret\n*.log\n");
    let root = node_dir(
        "r",
        vec![
            node_dir("r/.git", vec![node_file("r/.git/HEAD", 1, NOW)]),
            node_dir("r/node_modules", vec![node_file("r/node_modules/x.js", 1, NOW)]),
            node_dir("r/secret", vec![node_file("r/secret/key", 1, NOW)]),
            node_file("r/run.log", 1, NOW),
            node_file("r/keep.txt", 3, NOW),
        ],
    );
    let files = walk(&vec![root], &ignore, NOW);
    assert_eq!(found(&files), vec![("r/keep.txt".to_string(), 3, 0)]);
}

#[test]
fn walk_stops_at_the_depth_limit() {
    // Directories nested twelve deep: the files of the twelfth are out of reach.
    let mut inner = node_dir("d12", vec![node_file("d12/deep.txt", 1, NOW)]);
    for k in (1..12).rev() {
        let here = format!("d{}", k);
        inner = node_dir(&here, vec![inner, node_file(&format!("{}/f{}.txt", here, k), 1, NOW)]);
    }
    let root = node_dir("r", vec![inner]);
    let files = walk(&vec![root], &IgnoreRules::new(), NOW);
    let names: Vec<String> = files.iter().map(|f| f.path.clone()).collect();
    assert_eq!(names.len(), 11);
    assert!(names.contains(&"d11/f11.txt".to_string()));
    assert!(!names.contains(&"d12/deep.txt".to_string()));
}

#[test]
fn walk_skips_roots_that_are_not_directories() {
    let files = walk(&vec![node_file("notes.txt", 5, NOW), node_dir("r", vec![node_file("r/x", 2, NOW)])], &IgnoreRules::new(), NOW);
    assert_eq!(found(&files), vec![("r/x".to_string(), 2, 0)]);
}

#[test]
fn unread_contents_of_skipped_directories_change_nothing() {
    let full = node_dir(
        "r",
        vec![node_dir("r/node_modules", vec![node_file("r/node_modules/big.js", 900, NOW)]), node_file("r/a", 1, NOW)],
    );
    let pruned = node_dir("r", vec![node_dir("r/node_modules", vec![]), node_file("r/a", 1, NOW)]);
    let ignore = IgnoreRules::new();
    assert_eq!(found(&walk(&vec![full], &ignore, NOW)), found(&walk(&vec![pruned], &ignore, NOW)));
}

#[test]
fn extension_bucket_is_lowercase_or_no_ext() {
    assert_eq!(bucket_of("/a/Photo.JPG"), "jpg");
    assert_eq!(bucket_of("/a/README"), "(no ext)");
    assert_eq!(bucket_of("/a/archive.tar.gz"), "gz");
}
