//! The rules the discovery of the file-based categories goes by: idleness, project
//! manifests, and the names of version, account and container folders.
use vstd::prelude::*;
use crate::clean::registry::Category;
use crate::text::{chars_of, ends_with, starts_with, str_ends_with, str_starts_with};

verus! {

broadcast use vstd::string::group_string_axioms;

pub const SECS_PER_DAY: u64 = 86_400;

/// Whether a file last modified at `modified_secs` has gone untouched for more than
/// `idle_days` days by `now_secs` (a threshold beyond the clock's range is never
/// reached).
pub open spec fn idle_spec(modified_secs: nat, now_secs: nat, idle_days: nat) -> bool {
    modified_secs <= now_secs && now_secs - modified_secs > idle_days * SECS_PER_DAY
}

pub fn is_idle(modified_secs: u64, now_secs: u64, idle_days: u64) -> (r: bool)
    ensures
        r == idle_spec(modified_secs as nat, now_secs as nat, idle_days as nat),
{
    if modified_secs > now_secs {
        return false;
    }
    let age = now_secs - modified_secs;
    match idle_days.checked_mul(SECS_PER_DAY) {
        Some(t) => age > t,
        None => false,
    }
}

/// The files that make a directory a Python project, in the order looked for; the
/// first one present is the manifest.
pub fn python_manifest_names() -> (r: Vec<&'static str>)
    ensures
        r@.len() == 3,
        r@[0]@ == "pyproject.toml"@,
        r@[1]@ == "setup.py"@,
        r@[2]@ == "requirements.txt"@,
{
    vec!["pyproject.toml", "setup.py", "requirements.txt"]
}

pub open spec fn is_digit_char(c: char) -> bool {
    '0' <= c && c <= '9'
}

/// Mail's per-version data folders: `V` followed by one or more digits.
pub open spec fn version_dir_name(name: Seq<char>) -> bool {
    &&& name.len() > 1
    &&& name[0] == 'V'
    &&& forall|i: int| 1 <= i < name.len() ==> is_digit_char(#[trigger] name[i])
}

pub fn is_version_dir_name(name: &str) -> (r: bool)
    ensures
        r == version_dir_name(name@),
{
    let v = chars_of(name);
    if v.len() <= 1 || v[0] != 'V' {
        return false;
    }
    let mut i: usize = 1;
    while i < v.len()
        invariant
            1 <= i <= v@.len(),
            v@ == name@,
            forall|k: int| 1 <= k < i ==> is_digit_char(#[trigger] v@[k]),
        decreases v@.len() - i,
    {
        if !('0' <= v[i] && v[i] <= '9') {
            return false;
        }
        i += 1;
    }
    true
}

/// Telegram's group container folders end in `.ru.keepcoder.Telegram`.
pub fn is_telegram_container(name: &str) -> (r: bool)
    ensures
        r == ends_with(name@, ".ru.keepcoder.Telegram"@),
{
    str_ends_with(name, ".ru.keepcoder.Telegram")
}

/// Telegram's per-account folders start with `account-`.
pub fn is_telegram_account(name: &str) -> (r: bool)
    ensures
        r == starts_with(name@, "account-"@),
{
    str_starts_with(name, "account-")
}

/// Which folders the walk of `~/Library/Group Containers` enters for Telegram's media:
/// every folder at the top (depth 0) and at depth 3, Telegram's group containers at
/// depth 1, its account folders at depth 2, nothing deeper.
pub fn telegram_tree_enters(depth: usize, name: &str) -> (r: bool)
    ensures
        r == (depth == 0 || depth == 3 || (depth == 1 && ends_with(name@, ".ru.keepcoder.Telegram"@)) || (depth
            == 2 && starts_with(name@, "account-"@))),
{
    if depth == 0 || depth == 3 {
        true
    } else if depth == 1 {
        is_telegram_container(name)
    } else if depth == 2 {
        is_telegram_account(name)
    } else {
        false
    }
}

/// Which folders the walk of Firefox's `Profiles` enters: the profiles and their
/// direct children (depth below 2).
pub fn firefox_tree_enters(depth: usize) -> (r: bool)
    ensures
        r == (depth < 2),
{
    depth < 2
}

/// How a location becomes items.
#[derive(Debug, Clone, Copy, PartialEq, Eq, Structural)]
pub enum Layout {
    /// The location itself is one item.
    Whole,
    /// Each entry directly inside the location is an item.
    Entries,
    /// The location is one item when it is a directory untouched for the idle period.
    WholeIfIdle,
}

/// The fixed places a category cleans, relative to `$HOME` (an absolute one stands
/// as is); none for the categories that find their places otherwise (by asking a
/// command, by walking the search roots, or by looking at file ages and running
/// apps).
pub open spec fn locations_of(c: Category) -> Seq<(Seq<char>, Layout)> {
    match c {
        Category::UserLogs => seq![("Library/Logs"@, Layout::Entries)],
        Category::XcodeDerived => seq![("Library/Developer/Xcode/DerivedData"@, Layout::Whole)],
        Category::XcodeArchives => seq![("Library/Developer/Xcode/Archives"@, Layout::Whole)],
        Category::XcodeDeviceSupport => seq![("Library/Developer/Xcode/iOS DeviceSupport"@, Layout::Whole)],
        Category::Cargo => seq![(".cargo/registry/cache"@, Layout::Whole), (".cargo/registry/src"@, Layout::Whole), (".cargo/git/db"@, Layout::Whole), (".cargo/git/checkouts"@, Layout::Whole)],
        Category::Trash => seq![(".Trash"@, Layout::Whole)],
        Category::GradleMaven => seq![(".gradle/caches"@, Layout::Whole), (".gradle/daemon"@, Layout::Whole), (".m2/repository"@, Layout::Whole)],
        Category::JetBrains => seq![("Library/Caches/JetBrains"@, Layout::Entries), ("Library/Logs/JetBrains"@, Layout::Entries)],
        Category::VsCode => seq![("Library/Application Support/Code/Cache"@, Layout::Whole), ("Library/Application Support/Code/CachedData"@, Layout::Whole), ("Library/Application Support/Code/logs"@, Layout::Whole)],
        Category::IosSimulators => seq![("Library/Developer/CoreSimulator/Caches"@, Layout::Entries), ("Library/Developer/CoreSimulator/Devices"@, Layout::Entries)],
        Category::AndroidSdk => seq![(".android/cache"@, Layout::Whole), (".gradle/.tmp"@, Layout::Whole), ("Library/Android/sdk/system-images"@, Layout::WholeIfIdle)],
        Category::Quarantine => seq![("Library/Preferences/com.apple.LaunchServices.QuarantineEventsV2"@, Layout::Whole)],
        Category::CrashReports => seq![("Library/Logs/DiagnosticReports"@, Layout::Entries), ("/Library/Logs/DiagnosticReports"@, Layout::Entries)],
        _ => Seq::<(Seq<char>, Layout)>::empty(),
    }
}

pub fn home_locations(c: Category) -> (r: Vec<(&'static str, Layout)>)
    ensures
        r@.map_values(|p: (&'static str, Layout)| (p.0@, p.1)) == locations_of(c),
{
    let r: Vec<(&'static str, Layout)> = match c {
        Category::UserLogs => vec![("Library/Logs", Layout::Entries)],
        Category::XcodeDerived => vec![("Library/Developer/Xcode/DerivedData", Layout::Whole)],
        Category::XcodeArchives => vec![("Library/Developer/Xcode/Archives", Layout::Whole)],
        Category::XcodeDeviceSupport => vec![("Library/Developer/Xcode/iOS DeviceSupport", Layout::Whole)],
        Category::Cargo => vec![(".cargo/registry/cache", Layout::Whole), (".cargo/registry/src", Layout::Whole), (".cargo/git/db", Layout::Whole), (".cargo/git/checkouts", Layout::Whole)],
        Category::Trash => vec![(".Trash", Layout::Whole)],
        Category::GradleMaven => vec![(".gradle/caches", Layout::Whole), (".gradle/daemon", Layout::Whole), (".m2/repository", Layout::Whole)],
        Category::JetBrains => vec![("Library/Caches/JetBrains", Layout::Entries), ("Library/Logs/JetBrains", Layout::Entries)],
        Category::VsCode => vec![("Library/Application Support/Code/Cache", Layout::Whole), ("Library/Application Support/Code/CachedData", Layout::Whole), ("Library/Application Support/Code/logs", Layout::Whole)],
        Category::IosSimulators => vec![("Library/Developer/CoreSimulator/Caches", Layout::Entries), ("Library/Developer/CoreSimulator/Devices", Layout::Entries)],
        Category::AndroidSdk => vec![(".android/cache", Layout::Whole), (".gradle/.tmp", Layout::Whole), ("Library/Android/sdk/system-images", Layout::WholeIfIdle)],
        Category::Quarantine => vec![("Library/Preferences/com.apple.LaunchServices.QuarantineEventsV2", Layout::Whole)],
        Category::CrashReports => vec![("Library/Logs/DiagnosticReports", Layout::Entries), ("/Library/Logs/DiagnosticReports", Layout::Entries)],
        _ => Vec::new(),
    };
    assert(r@.map_values(|p: (&'static str, Layout)| (p.0@, p.1)) =~= locations_of(c));
    r
}

} // verus!
