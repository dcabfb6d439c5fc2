//! The catalogue of cleanup categories: ids accepted by `--category`, labels,
//! risk levels, owning apps and picker families.
use vstd::prelude::*;
use crate::clean::types::RiskLevel;
use crate::text::str_eq;

verus! {

broadcast use vstd::string::group_string_axioms;

/// Every cleanup category, in canonical order.
#[derive(Debug, Clone, Copy, PartialEq, Eq, Structural)]
pub enum Category {
    UserLogs,
    XcodeDerived,
    UserCaches,
    XcodeArchives,
    XcodeDeviceSupport,
    Cargo,
    Npm,
    Pnpm,
    Yarn,
    Trash,
    NodeModules,
    PythonCaches,
    RustTargets,
    GradleMaven,
    JetBrains,
    VsCode,
    IosSimulators,
    AndroidSdk,
    GoCache,
    Docker,
    DownloadsOld,
    ScreenshotsOld,
    MailAttachments,
    StreamingCaches,
    ChatCaches,
    BrowserCaches,
    Quarantine,
    CrashReports,
    AppOrphans,
    TimeMachineLocal,
    FontQuicklookCaches,
}

/// Picker families, shown in this order.
#[derive(Debug, Clone, Copy, PartialEq, Eq, Structural)]
pub enum Family {
    Dev,
    UserStorage,
    System,
}

pub open spec fn family_label_text(f: Family) -> Seq<char> {
    match f {
        Family::Dev => "Dev caches"@,
        Family::UserStorage => "User storage"@,
        Family::System => "System leftovers"@,
    }
}

impl Family {
    pub fn label(&self) -> (r: &'static str)
        ensures
            r@ == family_label_text(*self),
    {
        match self {
            Family::Dev => "Dev caches",
            Family::UserStorage => "User storage",
            Family::System => "System leftovers",
        }
    }
}

/// The id a category is named by on the command line.
pub open spec fn id_of(c: Category) -> Seq<char> {
    match c {
        Category::UserLogs => "user-logs"@,
        Category::XcodeDerived => "xcode-derived"@,
        Category::UserCaches => "user-caches"@,
        Category::XcodeArchives => "xcode-archives"@,
        Category::XcodeDeviceSupport => "xcode-devicesupport"@,
        Category::Cargo => "cargo"@,
        Category::Npm => "npm"@,
        Category::Pnpm => "pnpm"@,
        Category::Yarn => "yarn"@,
        Category::Trash => "trash"@,
        Category::NodeModules => "node-modules"@,
        Category::PythonCaches => "python-caches"@,
        Category::RustTargets => "rust-targets"@,
        Category::GradleMaven => "gradle-maven"@,
        Category::JetBrains => "jetbrains"@,
        Category::VsCode => "vscode"@,
        Category::IosSimulators => "ios-simulators"@,
        Category::AndroidSdk => "android-sdk"@,
        Category::GoCache => "go-cache"@,
        Category::Docker => "docker"@,
        Category::DownloadsOld => "downloads-old"@,
        Category::ScreenshotsOld => "screenshots-old"@,
        Category::MailAttachments => "mail-attachments"@,
        Category::StreamingCaches => "streaming-caches"@,
        Category::ChatCaches => "chat-caches"@,
        Category::BrowserCaches => "browser-caches"@,
        Category::Quarantine => "quarantine"@,
        Category::CrashReports => "crash-reports"@,
        Category::AppOrphans => "app-orphans"@,
        Category::TimeMachineLocal => "time-machine-local"@,
        Category::FontQuicklookCaches => "font-quicklook-caches"@,
    }
}

pub open spec fn label_of(c: Category) -> Seq<char> {
    match c {
        Category::UserLogs => "User logs"@,
        Category::XcodeDerived => "Xcode DerivedData"@,
        Category::UserCaches => "User caches"@,
        Category::XcodeArchives => "Xcode Archives"@,
        Category::XcodeDeviceSupport => "Xcode iOS DeviceSupport"@,
        Category::Cargo => "Cargo cache"@,
        Category::Npm => "npm cache"@,
        Category::Pnpm => "pnpm store"@,
        Category::Yarn => "yarn cache"@,
        Category::Trash => "User Trash"@,
        Category::NodeModules => "node_modules (idle)"@,
        Category::PythonCaches => "Python __pycache__ / venv (idle)"@,
        Category::RustTargets => "Rust target/ (idle)"@,
        Category::GradleMaven => "Gradle/Maven caches"@,
        Category::JetBrains => "JetBrains caches/logs"@,
        Category::VsCode => "VS Code caches"@,
        Category::IosSimulators => "iOS Simulator caches/devices"@,
        Category::AndroidSdk => "Android SDK caches"@,
        Category::GoCache => "Go build/mod caches"@,
        Category::Docker => "Docker images/build/volumes"@,
        Category::DownloadsOld => "Downloads (old files)"@,
        Category::ScreenshotsOld => "Old screenshots"@,
        Category::MailAttachments => "Mail attachments"@,
        Category::StreamingCaches => "Streaming app caches"@,
        Category::ChatCaches => "Chat app caches"@,
        Category::BrowserCaches => "Browser caches"@,
        Category::Quarantine => "Gatekeeper quarantine events"@,
        Category::CrashReports => "Crash reports / DiagnosticReports"@,
        Category::AppOrphans => "Orphaned Application Support dirs"@,
        Category::TimeMachineLocal => "Time Machine local snapshots"@,
        Category::FontQuicklookCaches => "Font + QuickLook caches"@,
    }
}

pub open spec fn risk_of(c: Category) -> RiskLevel {
    match c {
        Category::UserLogs => RiskLevel::Safe,
        Category::XcodeDerived => RiskLevel::Safe,
        Category::UserCaches => RiskLevel::Review,
        Category::XcodeArchives => RiskLevel::Review,
        Category::XcodeDeviceSupport => RiskLevel::Review,
        Category::Cargo => RiskLevel::Review,
        Category::Npm => RiskLevel::Review,
        Category::Pnpm => RiskLevel::Review,
        Category::Yarn => RiskLevel::Review,
        Category::Trash => RiskLevel::Destructive,
        Category::NodeModules => RiskLevel::Review,
        Category::PythonCaches => RiskLevel::Review,
        Category::RustTargets => RiskLevel::Review,
        Category::GradleMaven => RiskLevel::Review,
        Category::JetBrains => RiskLevel::Review,
        Category::VsCode => RiskLevel::Review,
        Category::IosSimulators => RiskLevel::Review,
        Category::AndroidSdk => RiskLevel::Review,
        Category::GoCache => RiskLevel::Review,
        Category::Docker => RiskLevel::Review,
        Category::DownloadsOld => RiskLevel::Review,
        Category::ScreenshotsOld => RiskLevel::Review,
        Category::MailAttachments => RiskLevel::Review,
        Category::StreamingCaches => RiskLevel::Review,
        Category::ChatCaches => RiskLevel::Review,
        Category::BrowserCaches => RiskLevel::Review,
        Category::Quarantine => RiskLevel::Review,
        Category::CrashReports => RiskLevel::Safe,
        Category::AppOrphans => RiskLevel::Review,
        Category::TimeMachineLocal => RiskLevel::Destructive,
        Category::FontQuicklookCaches => RiskLevel::Safe,
    }
}

/// The app that must not be running while the category is discovered or cleaned.
pub open spec fn app_of(c: Category) -> Option<Seq<char>> {
    match c {
        Category::UserLogs => None,
        Category::XcodeDerived => Some("Xcode"@),
        Category::UserCaches => None,
        Category::XcodeArchives => Some("Xcode"@),
        Category::XcodeDeviceSupport => Some("Xcode"@),
        Category::Cargo => None,
        Category::Npm => None,
        Category::Pnpm => None,
        Category::Yarn => None,
        Category::Trash => None,
        Category::NodeModules => None,
        Category::PythonCaches => None,
        Category::RustTargets => None,
        Category::GradleMaven => None,
        Category::JetBrains => None,
        Category::VsCode => None,
        Category::IosSimulators => Some("Xcode"@),
        Category::AndroidSdk => Some("Android Studio"@),
        Category::GoCache => None,
        Category::Docker => Some("Docker Desktop"@),
        Category::DownloadsOld => None,
        Category::ScreenshotsOld => None,
        Category::MailAttachments => Some("Mail"@),
        Category::StreamingCaches => None,
        Category::ChatCaches => None,
        Category::BrowserCaches => None,
        Category::Quarantine => None,
        Category::CrashReports => None,
        Category::AppOrphans => None,
        Category::TimeMachineLocal => None,
        Category::FontQuicklookCaches => None,
    }
}

pub open spec fn family_of(c: Category) -> Family {
    match c {
        Category::UserLogs => Family::System,
        Category::XcodeDerived => Family::Dev,
        Category::UserCaches => Family::System,
        Category::XcodeArchives => Family::Dev,
        Category::XcodeDeviceSupport => Family::Dev,
        Category::Cargo => Family::Dev,
        Category::Npm => Family::Dev,
        Category::Pnpm => Family::Dev,
        Category::Yarn => Family::Dev,
        Category::Trash => Family::System,
        Category::NodeModules => Family::Dev,
        Category::PythonCaches => Family::Dev,
        Category::RustTargets => Family::Dev,
        Category::GradleMaven => Family::Dev,
        Category::JetBrains => Family::Dev,
        Category::VsCode => Family::Dev,
        Category::IosSimulators => Family::Dev,
        Category::AndroidSdk => Family::Dev,
        Category::GoCache => Family::Dev,
        Category::Docker => Family::Dev,
        Category::DownloadsOld => Family::UserStorage,
        Category::ScreenshotsOld => Family::UserStorage,
        Category::MailAttachments => Family::UserStorage,
        Category::StreamingCaches => Family::UserStorage,
        Category::ChatCaches => Family::UserStorage,
        Category::BrowserCaches => Family::UserStorage,
        Category::Quarantine => Family::System,
        Category::CrashReports => Family::System,
        Category::AppOrphans => Family::System,
        Category::TimeMachineLocal => Family::System,
        Category::FontQuicklookCaches => Family::System,
    }
}

/// All categories in canonical order.
pub open spec fn catalogue() -> Seq<Category> {
    seq![
        Category::UserLogs,
        Category::XcodeDerived,
        Category::UserCaches,
        Category::XcodeArchives,
        Category::XcodeDeviceSupport,
        Category::Cargo,
        Category::Npm,
        Category::Pnpm,
        Category::Yarn,
        Category::Trash,
        Category::NodeModules,
        Category::PythonCaches,
        Category::RustTargets,
        Category::GradleMaven,
        Category::JetBrains,
        Category::VsCode,
        Category::IosSimulators,
        Category::AndroidSdk,
        Category::GoCache,
        Category::Docker,
        Category::DownloadsOld,
        Category::ScreenshotsOld,
        Category::MailAttachments,
        Category::StreamingCaches,
        Category::ChatCaches,
        Category::BrowserCaches,
        Category::Quarantine,
        Category::CrashReports,
        Category::AppOrphans,
        Category::TimeMachineLocal,
        Category::FontQuicklookCaches,
    ]
}

pub proof fn lemma_catalogue_complete(c: Category)
    ensures
        catalogue().contains(c),
{
    match c {
        Category::UserLogs => assert(catalogue()[0] == c),
        Category::XcodeDerived => assert(catalogue()[1] == c),
        Category::UserCaches => assert(catalogue()[2] == c),
        Category::XcodeArchives => assert(catalogue()[3] == c),
        Category::XcodeDeviceSupport => assert(catalogue()[4] == c),
        Category::Cargo => assert(catalogue()[5] == c),
        Category::Npm => assert(catalogue()[6] == c),
        Category::Pnpm => assert(catalogue()[7] == c),
        Category::Yarn => assert(catalogue()[8] == c),
        Category::Trash => assert(catalogue()[9] == c),
        Category::NodeModules => assert(catalogue()[10] == c),
        Category::PythonCaches => assert(catalogue()[11] == c),
        Category::RustTargets => assert(catalogue()[12] == c),
        Category::GradleMaven => assert(catalogue()[13] == c),
        Category::JetBrains => assert(catalogue()[14] == c),
        Category::VsCode => assert(catalogue()[15] == c),
        Category::IosSimulators => assert(catalogue()[16] == c),
        Category::AndroidSdk => assert(catalogue()[17] == c),
        Category::GoCache => assert(catalogue()[18] == c),
        Category::Docker => assert(catalogue()[19] == c),
        Category::DownloadsOld => assert(catalogue()[20] == c),
        Category::ScreenshotsOld => assert(catalogue()[21] == c),
        Category::MailAttachments => assert(catalogue()[22] == c),
        Category::StreamingCaches => assert(catalogue()[23] == c),
        Category::ChatCaches => assert(catalogue()[24] == c),
        Category::BrowserCaches => assert(catalogue()[25] == c),
        Category::Quarantine => assert(catalogue()[26] == c),
        Category::CrashReports => assert(catalogue()[27] == c),
        Category::AppOrphans => assert(catalogue()[28] == c),
        Category::TimeMachineLocal => assert(catalogue()[29] == c),
        Category::FontQuicklookCaches => assert(catalogue()[30] == c),
    }
}

impl Category {
    pub fn id(&self) -> (r: &'static str)
        ensures
            r@ == id_of(*self),
    {
        match self {
            Category::UserLogs => "user-logs",
            Category::XcodeDerived => "xcode-derived",
            Category::UserCaches => "user-caches",
            Category::XcodeArchives => "xcode-archives",
            Category::XcodeDeviceSupport => "xcode-devicesupport",
            Category::Cargo => "cargo",
            Category::Npm => "npm",
            Category::Pnpm => "pnpm",
            Category::Yarn => "yarn",
            Category::Trash => "trash",
            Category::NodeModules => "node-modules",
            Category::PythonCaches => "python-caches",
            Category::RustTargets => "rust-targets",
            Category::GradleMaven => "gradle-maven",
            Category::JetBrains => "jetbrains",
            Category::VsCode => "vscode",
            Category::IosSimulators => "ios-simulators",
            Category::AndroidSdk => "android-sdk",
            Category::GoCache => "go-cache",
            Category::Docker => "docker",
            Category::DownloadsOld => "downloads-old",
            Category::ScreenshotsOld => "screenshots-old",
            Category::MailAttachments => "mail-attachments",
            Category::StreamingCaches => "streaming-caches",
            Category::ChatCaches => "chat-caches",
            Category::BrowserCaches => "browser-caches",
            Category::Quarantine => "quarantine",
            Category::CrashReports => "crash-reports",
            Category::AppOrphans => "app-orphans",
            Category::TimeMachineLocal => "time-machine-local",
            Category::FontQuicklookCaches => "font-quicklook-caches",
        }
    }

    pub fn label(&self) -> (r: &'static str)
        ensures
            r@ == label_of(*self),
    {
        match self {
            Category::UserLogs => "User logs",
            Category::XcodeDerived => "Xcode DerivedData",
            Category::UserCaches => "User caches",
            Category::XcodeArchives => "Xcode Archives",
            Category::XcodeDeviceSupport => "Xcode iOS DeviceSupport",
            Category::Cargo => "Cargo cache",
            Category::Npm => "npm cache",
            Category::Pnpm => "pnpm store",
            Category::Yarn => "yarn cache",
            Category::Trash => "User Trash",
            Category::NodeModules => "node_modules (idle)",
            Category::PythonCaches => "Python __pycache__ / venv (idle)",
            Category::RustTargets => "Rust target/ (idle)",
            Category::GradleMaven => "Gradle/Maven caches",
            Category::JetBrains => "JetBrains caches/logs",
            Category::VsCode => "VS Code caches",
            Category::IosSimulators => "iOS Simulator caches/devices",
            Category::AndroidSdk => "Android SDK caches",
            Category::GoCache => "Go build/mod caches",
            Category::Docker => "Docker images/build/volumes",
            Category::DownloadsOld => "Downloads (old files)",
            Category::ScreenshotsOld => "Old screenshots",
            Category::MailAttachments => "Mail attachments",
            Category::StreamingCaches => "Streaming app caches",
            Category::ChatCaches => "Chat app caches",
            Category::BrowserCaches => "Browser caches",
            Category::Quarantine => "Gatekeeper quarantine events",
            Category::CrashReports => "Crash reports / DiagnosticReports",
            Category::AppOrphans => "Orphaned Application Support dirs",
            Category::TimeMachineLocal => "Time Machine local snapshots",
            Category::FontQuicklookCaches => "Font + QuickLook caches",
        }
    }

    pub fn risk(&self) -> (r: RiskLevel)
        ensures
            r == risk_of(*self),
    {
        match self {
            Category::UserLogs => RiskLevel::Safe,
            Category::XcodeDerived => RiskLevel::Safe,
            Category::UserCaches => RiskLevel::Review,
            Category::XcodeArchives => RiskLevel::Review,
            Category::XcodeDeviceSupport => RiskLevel::Review,
            Category::Cargo => RiskLevel::Review,
            Category::Npm => RiskLevel::Review,
            Category::Pnpm => RiskLevel::Review,
            Category::Yarn => RiskLevel::Review,
            Category::Trash => RiskLevel::Destructive,
            Category::NodeModules => RiskLevel::Review,
            Category::PythonCaches => RiskLevel::Review,
            Category::RustTargets => RiskLevel::Review,
            Category::GradleMaven => RiskLevel::Review,
            Category::JetBrains => RiskLevel::Review,
            Category::VsCode => RiskLevel::Review,
            Category::IosSimulators => RiskLevel::Review,
            Category::AndroidSdk => RiskLevel::Review,
            Category::GoCache => RiskLevel::Review,
            Category::Docker => RiskLevel::Review,
            Category::DownloadsOld => RiskLevel::Review,
            Category::ScreenshotsOld => RiskLevel::Review,
            Category::MailAttachments => RiskLevel::Review,
            Category::StreamingCaches => RiskLevel::Review,
            Category::ChatCaches => RiskLevel::Review,
            Category::BrowserCaches => RiskLevel::Review,
            Category::Quarantine => RiskLevel::Review,
            Category::CrashReports => RiskLevel::Safe,
            Category::AppOrphans => RiskLevel::Review,
            Category::TimeMachineLocal => RiskLevel::Destructive,
            Category::FontQuicklookCaches => RiskLevel::Safe,
        }
    }

    /// Process name that must not be running before discover/execute.
    pub fn requires_app_quit(&self) -> (r: Option<&'static str>)
        ensures
            r is None <==> app_of(*self) is None,
            r matches Some(a) ==> app_of(*self) == Some(a@),
    {
        match self {
            Category::UserLogs => None,
            Category::XcodeDerived => Some("Xcode"),
            Category::UserCaches => None,
            Category::XcodeArchives => Some("Xcode"),
            Category::XcodeDeviceSupport => Some("Xcode"),
            Category::Cargo => None,
            Category::Npm => None,
            Category::Pnpm => None,
            Category::Yarn => None,
            Category::Trash => None,
            Category::NodeModules => None,
            Category::PythonCaches => None,
            Category::RustTargets => None,
            Category::GradleMaven => None,
            Category::JetBrains => None,
            Category::VsCode => None,
            Category::IosSimulators => Some("Xcode"),
            Category::AndroidSdk => Some("Android Studio"),
            Category::GoCache => None,
            Category::Docker => Some("Docker Desktop"),
            Category::DownloadsOld => None,
            Category::ScreenshotsOld => None,
            Category::MailAttachments => Some("Mail"),
            Category::StreamingCaches => None,
            Category::ChatCaches => None,
            Category::BrowserCaches => None,
            Category::Quarantine => None,
            Category::CrashReports => None,
            Category::AppOrphans => None,
            Category::TimeMachineLocal => None,
            Category::FontQuicklookCaches => None,
        }
    }

    pub fn family(&self) -> (r: Family)
        ensures
            r == family_of(*self),
    {
        match self {
            Category::UserLogs => Family::System,
            Category::XcodeDerived => Family::Dev,
            Category::UserCaches => Family::System,
            Category::XcodeArchives => Family::Dev,
            Category::XcodeDeviceSupport => Family::Dev,
            Category::Cargo => Family::Dev,
            Category::Npm => Family::Dev,
            Category::Pnpm => Family::Dev,
            Category::Yarn => Family::Dev,
            Category::Trash => Family::System,
            Category::NodeModules => Family::Dev,
            Category::PythonCaches => Family::Dev,
            Category::RustTargets => Family::Dev,
            Category::GradleMaven => Family::Dev,
            Category::JetBrains => Family::Dev,
            Category::VsCode => Family::Dev,
            Category::IosSimulators => Family::Dev,
            Category::AndroidSdk => Family::Dev,
            Category::GoCache => Family::Dev,
            Category::Docker => Family::Dev,
            Category::DownloadsOld => Family::UserStorage,
            Category::ScreenshotsOld => Family::UserStorage,
            Category::MailAttachments => Family::UserStorage,
            Category::StreamingCaches => Family::UserStorage,
            Category::ChatCaches => Family::UserStorage,
            Category::BrowserCaches => Family::UserStorage,
            Category::Quarantine => Family::System,
            Category::CrashReports => Family::System,
            Category::AppOrphans => Family::System,
            Category::TimeMachineLocal => Family::System,
            Category::FontQuicklookCaches => Family::System,
        }
    }
}

/// Every category in canonical id order. Filtering by risk level, `--category`
/// and runtime availability happens at discovery.
pub fn all_providers() -> (r: Vec<Category>)
    ensures
        r@ == catalogue(),
{
    let r = vec![
        Category::UserLogs,
        Category::XcodeDerived,
        Category::UserCaches,
        Category::XcodeArchives,
        Category::XcodeDeviceSupport,
        Category::Cargo,
        Category::Npm,
        Category::Pnpm,
        Category::Yarn,
        Category::Trash,
        Category::NodeModules,
        Category::PythonCaches,
        Category::RustTargets,
        Category::GradleMaven,
        Category::JetBrains,
        Category::VsCode,
        Category::IosSimulators,
        Category::AndroidSdk,
        Category::GoCache,
        Category::Docker,
        Category::DownloadsOld,
        Category::ScreenshotsOld,
        Category::MailAttachments,
        Category::StreamingCaches,
        Category::ChatCaches,
        Category::BrowserCaches,
        Category::Quarantine,
        Category::CrashReports,
        Category::AppOrphans,
        Category::TimeMachineLocal,
        Category::FontQuicklookCaches,
    ];
    assert(r@ =~= catalogue());
    r
}

/// Canonical list of category ids accepted by `--category`.
pub fn known_category_ids() -> (r: Vec<&'static str>)
    ensures
        r@.len() == catalogue().len(),
        forall|i: int| 0 <= i < r@.len() ==> (#[trigger] r@[i])@ == id_of(catalogue()[i]),
{
    let cats = all_providers();
    let mut r: Vec<&'static str> = Vec::new();
    let mut i: usize = 0;
    while i < cats.len()
        invariant
            i <= cats@.len(),
            cats@ == catalogue(),
            r@.len() == i,
            forall|k: int| 0 <= k < i ==> (#[trigger] r@[k])@ == id_of(catalogue()[k]),
        decreases cats@.len() - i,
    {
        r.push(cats[i].id());
        i += 1;
    }
    r
}

/// Whether some category is named `s`.
pub open spec fn is_known_id(s: Seq<char>) -> bool {
    exists|c: Category| id_of(c) == s
}

/// The first category of the catalogue, from position `i` on, named `s`.
pub open spec fn lookup_from(s: Seq<char>, i: int) -> Option<Category>
    decreases catalogue().len() - i,
{
    if i < 0 || i >= catalogue().len() {
        None
    } else if id_of(catalogue()[i]) == s {
        Some(catalogue()[i])
    } else {
        lookup_from(s, i + 1)
    }
}

/// The category named `s`, if any.
pub open spec fn lookup_id(s: Seq<char>) -> Option<Category> {
    lookup_from(s, 0)
}

/// The category named `s`, if any.
pub fn category_from_id(s: &str) -> (r: Option<Category>)
    ensures
        r == lookup_id(s@),
        r matches Some(c) ==> id_of(c) == s@,
        r is None <==> !is_known_id(s@),
{
    let cats = all_providers();
    let mut i: usize = 0;
    while i < cats.len()
        invariant
            i <= cats@.len(),
            cats@ == catalogue(),
            lookup_id(s@) == lookup_from(s@, i as int),
            forall|k: int| 0 <= k < i ==> id_of(#[trigger] catalogue()[k]) != s@,
        decreases cats@.len() - i,
    {
        if str_eq(cats[i].id(), s) {
            assert(is_known_id(s@));
            return Some(cats[i]);
        }
        i += 1;
    }
    proof {
        assert forall|c: Category| id_of(c) != s@ by {
            lemma_catalogue_complete(c);
        }
    }
    None
}

/// The picker family of the category named `id`; ids outside the catalogue fall
/// under `System`.
pub open spec fn family_for_id(id: Seq<char>) -> Family {
    match lookup_id(id) {
        Some(c) => family_of(c),
        None => Family::System,
    }
}

pub fn category_family(id: &str) -> (f: Family)
    ensures
        f == family_for_id(id@),
{
    match category_from_id(id) {
        Some(c) => c.family(),
        None => Family::System,
    }
}


/// Length, first and last character of a category's id.
spec fn id_shape(c: Category) -> (nat, char, char) {
    match c {
        Category::UserLogs => (9, 'u', 's'),
        Category::XcodeDerived => (13, 'x', 'd'),
        Category::UserCaches => (11, 'u', 's'),
        Category::XcodeArchives => (14, 'x', 's'),
        Category::XcodeDeviceSupport => (19, 'x', 't'),
        Category::Cargo => (5, 'c', 'o'),
        Category::Npm => (3, 'n', 'm'),
        Category::Pnpm => (4, 'p', 'm'),
        Category::Yarn => (4, 'y', 'n'),
        Category::Trash => (5, 't', 'h'),
        Category::NodeModules => (12, 'n', 's'),
        Category::PythonCaches => (13, 'p', 's'),
        Category::RustTargets => (12, 'r', 's'),
        Category::GradleMaven => (12, 'g', 'n'),
        Category::JetBrains => (9, 'j', 's'),
        Category::VsCode => (6, 'v', 'e'),
        Category::IosSimulators => (14, 'i', 's'),
        Category::AndroidSdk => (11, 'a', 'k'),
        Category::GoCache => (8, 'g', 'e'),
        Category::Docker => (6, 'd', 'r'),
        Category::DownloadsOld => (13, 'd', 'd'),
        Category::ScreenshotsOld => (15, 's', 'd'),
        Category::MailAttachments => (16, 'm', 's'),
        Category::StreamingCaches => (16, 's', 's'),
        Category::ChatCaches => (11, 'c', 's'),
        Category::BrowserCaches => (14, 'b', 's'),
        Category::Quarantine => (10, 'q', 'e'),
        Category::CrashReports => (13, 'c', 's'),
        Category::AppOrphans => (11, 'a', 's'),
        Category::TimeMachineLocal => (18, 't', 'l'),
        Category::FontQuicklookCaches => (21, 'f', 's'),
    }
}

proof fn lemma_id_shape(c: Category)
    ensures
        id_of(c).len() > 0,
        id_shape(c) == (id_of(c).len(), id_of(c)[0], id_of(c)[id_of(c).len() - 1]),
{
    match c {
        Category::UserLogs => {
            reveal_strlit("user-logs");
        },
        Category::XcodeDerived => {
            reveal_strlit("xcode-derived");
        },
        Category::UserCaches => {
            reveal_strlit("user-caches");
        },
        Category::XcodeArchives => {
            reveal_strlit("xcode-archives");
        },
        Category::XcodeDeviceSupport => {
            reveal_strlit("xcode-devicesupport");
        },
        Category::Cargo => {
            reveal_strlit("cargo");
        },
        Category::Npm => {
            reveal_strlit("npm");
        },
        Category::Pnpm => {
            reveal_strlit("pnpm");
        },
        Category::Yarn => {
            reveal_strlit("yarn");
        },
        Category::Trash => {
            reveal_strlit("trash");
        },
        Category::NodeModules => {
            reveal_strlit("node-modules");
        },
        Category::PythonCaches => {
            reveal_strlit("python-caches");
        },
        Category::RustTargets => {
            reveal_strlit("rust-targets");
        },
        Category::GradleMaven => {
            reveal_strlit("gradle-maven");
        },
        Category::JetBrains => {
            reveal_strlit("jetbrains");
        },
        Category::VsCode => {
            reveal_strlit("vscode");
        },
        Category::IosSimulators => {
            reveal_strlit("ios-simulators");
        },
        Category::AndroidSdk => {
            reveal_strlit("android-sdk");
        },
        Category::GoCache => {
            reveal_strlit("go-cache");
        },
        Category::Docker => {
            reveal_strlit("docker");
        },
        Category::DownloadsOld => {
            reveal_strlit("downloads-old");
        },
        Category::ScreenshotsOld => {
            reveal_strlit("screenshots-old");
        },
        Category::MailAttachments => {
            reveal_strlit("mail-attachments");
        },
        Category::StreamingCaches => {
            reveal_strlit("streaming-caches");
        },
        Category::ChatCaches => {
            reveal_strlit("chat-caches");
        },
        Category::BrowserCaches => {
            reveal_strlit("browser-caches");
        },
        Category::Quarantine => {
            reveal_strlit("quarantine");
        },
        Category::CrashReports => {
            reveal_strlit("crash-reports");
        },
        Category::AppOrphans => {
            reveal_strlit("app-orphans");
        },
        Category::TimeMachineLocal => {
            reveal_strlit("time-machine-local");
        },
        Category::FontQuicklookCaches => {
            reveal_strlit("font-quicklook-caches");
        },
    }
}

/// No two categories share an id.
pub proof fn lemma_id_injective(a: Category, b: Category)
    requires
        id_of(a) == id_of(b),
    ensures
        a == b,
{
    lemma_id_shape(a);
    lemma_id_shape(b);
    assert(id_shape(a) == id_shape(b));
}

/// The catalogue lists each category once.
pub proof fn lemma_catalogue_distinct()
    ensures
        catalogue().no_duplicates(),
{
    assert forall|i: int, j: int| 0 <= i < catalogue().len() && 0 <= j < catalogue().len() && i != j implies catalogue()[i] != catalogue()[j] by {}
}

} // verus!
