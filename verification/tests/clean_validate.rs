use tiny_cli::cli::CleanOpts;
use tiny_cli::clean::validate::validate_with_env;

fn opts() -> CleanOpts {
    CleanOpts {
        dry_run: false,
        yes: false,
        hard: false,
        category: Vec::new(),
        include_review: false,
        include_destructive: false,
        idle_days: 30,
        review_paths: false,
    }
}

#[test]
fn unknown_category_fails() {
    let mut o = opts();
    o.category = vec!["banana".into()];
    assert!(validate_with_env(&o, false).is_err());
}

#[test]
fn known_category_passes() {
    let mut o = opts();
    o.category = vec!["user-logs".into()];
    validate_with_env(&o, false).unwrap();
}

#[test]
fn yes_without_category_fails() {
    let mut o = opts();
    o.yes = true;
    let err = validate_with_env(&o, false).unwrap_err().to_string();
    assert!(err.contains("--yes requires --category"));
}

#[test]
fn yes_with_category_passes() {
    let mut o = opts();
    o.yes = true;
    o.category = vec!["user-logs".into()];
    validate_with_env(&o, false).unwrap();
}

#[test]
fn hard_yes_without_env_fails() {
    let mut o = opts();
    o.yes = true;
    o.hard = true;
    o.category = vec!["user-logs".into()];
    let err = validate_with_env(&o, false).unwrap_err().to_string();
    assert!(err.contains("TINY_CONFIRM_HARD"));
}

#[test]
fn hard_yes_with_env_passes() {
    let mut o = opts();
    o.yes = true;
    o.hard = true;
    o.category = vec!["user-logs".into()];
    validate_with_env(&o, true).unwrap();
}

#[test]
fn destructive_hard_yes_without_category_fails() {
    let mut o = opts();
    o.yes = true;
    o.hard = true;
    o.include_destructive = true;
    let err = validate_with_env(&o, true).unwrap_err().to_string();
    assert!(err.contains("--include-destructive"));
}

#[test]
fn destructive_hard_yes_with_trash_category_passes() {
    let mut o = opts();
    o.yes = true;
    o.hard = true;
    o.include_destructive = true;
    o.category = vec!["trash".into()];
    validate_with_env(&o, true).unwrap();
}

#[test]
fn category_can_repeat() {
    let mut o = opts();
    o.category = vec!["user-logs".into(), "xcode-derived".into()];
    validate_with_env(&o, false).unwrap();
}

#[test]
fn zero_idle_days_is_rejected() {
    let mut o = opts();
    o.idle_days = 0;
    let err = validate_with_env(&o, false).unwrap_err().to_string();
    assert_eq!(err, "--idle-days must be > 0");
}

#[test]
fn unknown_category_message_lists_valid_ids() {
    let mut o = opts();
    o.category = vec!["user-logs".into(), "banana".into()];
    let err = validate_with_env(&o, false).unwrap_err().to_string();
    assert!(err.starts_with("unknown --category 'banana'. valid: user-logs, xcode-derived, "));
    assert!(err.ends_with("font-quicklook-caches"));
}

#[test]
fn unknown_category_wins_over_other_refusals() {
    let mut o = opts();
    o.category = vec!["banana".into()];
    o.idle_days = 0;
    o.yes = true;
    let err = validate_with_env(&o, false).unwrap_err().to_string();
    assert!(err.starts_with("unknown --category"));
}

#[test]
fn destructive_refusal_comes_before_plain_yes_refusal() {
    let mut o = opts();
    o.yes = true;
    o.hard = true;
    o.include_destructive = true;
    let err = validate_with_env(&o, false).unwrap_err().to_string();
    assert_eq!(err, "--include-destructive --hard --yes requires --category to specify scope");
}
