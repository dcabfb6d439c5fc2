//! The cleanup providers: what each category is called, how risky it is and which
//! app must be quit first. Discovery and removal themselves touch the file system
//! and run subprocesses; they reach the library through `ProviderIo`.
use vstd::prelude::*;
use crate::clean::registry::{app_of, id_of, label_of, risk_of, Category};
use crate::clean::types::{CleanItem, ExecAction, ExecReport, RiskLevel};
use crate::clean::execute::exec_answer_view;

verus! {

broadcast use vstd::string::group_string_axioms;

/// What every provider states about itself.
pub trait CleanProvider {
    fn id(&self) -> &'static str;

    fn label(&self) -> &'static str;

    fn risk(&self) -> RiskLevel;

    /// Process name that should NOT be running before discover/execute.
    /// `None` means no app gating.
    fn requires_app_quit(&self) -> (r: Option<&'static str>)
        default_ensures
            r is None,
    {
        None
    }
}

/// A discovery result as plain values.
pub open spec fn items_result_view(r: Result<Vec<CleanItem>, String>) -> Result<Seq<CleanItem>, Seq<char>> {
    match r {
        Ok(v) => Ok(v@),
        Err(e) => Err(e@),
    }
}

/// The outside work of a provider: checking that its tool or folder exists,
/// listing its items, and removing them. Its relations say which answers it may
/// give; an implementation that does not narrow them may give any answer, so
/// callers learn of an answer only by asking for it.
pub trait ProviderIo {
    /// Whether `answer` is an answer this layer can give about the availability of
    /// `category`.
    open spec fn available_answer(&self, category: Category, answer: bool) -> bool {
        true
    }

    /// Whether `answer` is an answer this layer can give when asked to discover
    /// `category`.
    open spec fn discover_answer(&self, category: Category, answer: Result<Seq<CleanItem>, Seq<char>>) -> bool {
        true
    }

    /// Whether `answer` is an answer this layer can give when asked to execute
    /// `action` on `items` of `category`.
    open spec fn execute_answer(
        &self,
        category: Category,
        items: Seq<CleanItem>,
        action: ExecAction,
        answer: Result<(Seq<Seq<char>>, Seq<(Seq<char>, Seq<char>)>, Option<Seq<char>>), Seq<char>>,
    ) -> bool {
        true
    }

    /// Returns false when the category is fundamentally unavailable on this system
    /// (e.g. CLI not installed).
    fn available(&self, category: Category) -> (r: bool)
        ensures
            self.available_answer(category, r),
    ;

    fn discover(&self, category: Category) -> (r: Result<Vec<CleanItem>, String>)
        ensures
            self.discover_answer(category, items_result_view(r)),
    ;

    fn execute(&self, category: Category, items: &[CleanItem], action: ExecAction) -> (r: Result<
        ExecReport,
        String,
    >)
        ensures
            self.execute_answer(category, items@, action, exec_answer_view(r)),
    ;
}

/// Top-level entries of `~/Library/Logs`.
pub struct UserLogs;

impl CleanProvider for UserLogs {
    fn id(&self) -> (r: &'static str)
        ensures
            r@ == id_of(Category::UserLogs),
    {
        "user-logs"
    }

    fn label(&self) -> (r: &'static str)
        ensures
            r@ == label_of(Category::UserLogs),
    {
        "User logs"
    }

    fn risk(&self) -> (r: RiskLevel)
        ensures
            r == risk_of(Category::UserLogs),
    {
        RiskLevel::Safe
    }
}

/// `~/Library/Developer/Xcode/DerivedData` as one item.
pub struct XcodeDerivedData;

impl CleanProvider for XcodeDerivedData {
    fn id(&self) -> (r: &'static str)
        ensures
            r@ == id_of(Category::XcodeDerived),
    {
        "xcode-derived"
    }

    fn label(&self) -> (r: &'static str)
        ensures
            r@ == label_of(Category::XcodeDerived),
    {
        "Xcode DerivedData"
    }

    fn risk(&self) -> (r: RiskLevel)
        ensures
            r == risk_of(Category::XcodeDerived),
    {
        RiskLevel::Safe
    }

    fn requires_app_quit(&self) -> (r: Option<&'static str>)
        ensures
            r matches Some(a) && app_of(Category::XcodeDerived) == Some(a@),
    {
        Some("Xcode")
    }
}

/// Top-level entries of `~/Library/Caches` whose owning process is not running.
pub struct UserCaches;

impl CleanProvider for UserCaches {
    fn id(&self) -> (r: &'static str)
        ensures
            r@ == id_of(Category::UserCaches),
    {
        "user-caches"
    }

    fn label(&self) -> (r: &'static str)
        ensures
            r@ == label_of(Category::UserCaches),
    {
        "User caches"
    }

    fn risk(&self) -> (r: RiskLevel)
        ensures
            r == risk_of(Category::UserCaches),
    {
        RiskLevel::Review
    }
}

/// `~/Library/Developer/Xcode/Archives` as one item.
pub struct XcodeArchives;

impl CleanProvider for XcodeArchives {
    fn id(&self) -> (r: &'static str)
        ensures
            r@ == id_of(Category::XcodeArchives),
    {
        "xcode-archives"
    }

    fn label(&self) -> (r: &'static str)
        ensures
            r@ == label_of(Category::XcodeArchives),
    {
        "Xcode Archives"
    }

    fn risk(&self) -> (r: RiskLevel)
        ensures
            r == risk_of(Category::XcodeArchives),
    {
        RiskLevel::Review
    }

    fn requires_app_quit(&self) -> (r: Option<&'static str>)
        ensures
            r matches Some(a) && app_of(Category::XcodeArchives) == Some(a@),
    {
        Some("Xcode")
    }
}

/// `~/Library/Developer/Xcode/iOS DeviceSupport` as one item.
pub struct XcodeDeviceSupport;

impl CleanProvider for XcodeDeviceSupport {
    fn id(&self) -> (r: &'static str)
        ensures
            r@ == id_of(Category::XcodeDeviceSupport),
    {
        "xcode-devicesupport"
    }

    fn label(&self) -> (r: &'static str)
        ensures
            r@ == label_of(Category::XcodeDeviceSupport),
    {
        "Xcode iOS DeviceSupport"
    }

    fn risk(&self) -> (r: RiskLevel)
        ensures
            r == risk_of(Category::XcodeDeviceSupport),
    {
        RiskLevel::Review
    }

    fn requires_app_quit(&self) -> (r: Option<&'static str>)
        ensures
            r matches Some(a) && app_of(Category::XcodeDeviceSupport) == Some(a@),
    {
        Some("Xcode")
    }
}

/// The pinned download/checkout caches under `~/.cargo`.
pub struct CargoCache;

impl CleanProvider for CargoCache {
    fn id(&self) -> (r: &'static str)
        ensures
            r@ == id_of(Category::Cargo),
    {
        "cargo"
    }

    fn label(&self) -> (r: &'static str)
        ensures
            r@ == label_of(Category::Cargo),
    {
        "Cargo cache"
    }

    fn risk(&self) -> (r: RiskLevel)
        ensures
            r == risk_of(Category::Cargo),
    {
        RiskLevel::Review
    }
}

/// The directory `npm config get cache` reports.
pub struct NpmCache;

impl CleanProvider for NpmCache {
    fn id(&self) -> (r: &'static str)
        ensures
            r@ == id_of(Category::Npm),
    {
        "npm"
    }

    fn label(&self) -> (r: &'static str)
        ensures
            r@ == label_of(Category::Npm),
    {
        "npm cache"
    }

    fn risk(&self) -> (r: RiskLevel)
        ensures
            r == risk_of(Category::Npm),
    {
        RiskLevel::Review
    }
}

/// The directory `pnpm store path` reports.
pub struct PnpmStore;

impl CleanProvider for PnpmStore {
    fn id(&self) -> (r: &'static str)
        ensures
            r@ == id_of(Category::Pnpm),
    {
        "pnpm"
    }

    fn label(&self) -> (r: &'static str)
        ensures
            r@ == label_of(Category::Pnpm),
    {
        "pnpm store"
    }

    fn risk(&self) -> (r: RiskLevel)
        ensures
            r == risk_of(Category::Pnpm),
    {
        RiskLevel::Review
    }
}

/// The directory `yarn cache dir` reports.
pub struct YarnCache;

impl CleanProvider for YarnCache {
    fn id(&self) -> (r: &'static str)
        ensures
            r@ == id_of(Category::Yarn),
    {
        "yarn"
    }

    fn label(&self) -> (r: &'static str)
        ensures
            r@ == label_of(Category::Yarn),
    {
        "yarn cache"
    }

    fn risk(&self) -> (r: RiskLevel)
        ensures
            r == risk_of(Category::Yarn),
    {
        RiskLevel::Review
    }
}

/// `~/.Trash`, emptied through Finder only.
pub struct TrashProvider;

impl CleanProvider for TrashProvider {
    fn id(&self) -> (r: &'static str)
        ensures
            r@ == id_of(Category::Trash),
    {
        "trash"
    }

    fn label(&self) -> (r: &'static str)
        ensures
            r@ == label_of(Category::Trash),
    {
        "User Trash"
    }

    fn risk(&self) -> (r: RiskLevel)
        ensures
            r == risk_of(Category::Trash),
    {
        RiskLevel::Destructive
    }
}

/// `node_modules` directories of idle projects under the search roots.
pub struct NodeModules {
    pub idle_days: u64,
    pub search_roots: Vec<String>,
}

impl NodeModules {
    pub fn new(idle_days: u64, search_roots: Vec<String>) -> (r: Self)
        ensures
            r.idle_days == idle_days,
            r.search_roots == search_roots,
    {
        Self { idle_days, search_roots }
    }
}

impl CleanProvider for NodeModules {
    fn id(&self) -> (r: &'static str)
        ensures
            r@ == id_of(Category::NodeModules),
    {
        "node-modules"
    }

    fn label(&self) -> (r: &'static str)
        ensures
            r@ == label_of(Category::NodeModules),
    {
        "node_modules (idle)"
    }

    fn risk(&self) -> (r: RiskLevel)
        ensures
            r == risk_of(Category::NodeModules),
    {
        RiskLevel::Review
    }
}

/// `__pycache__` directories, and virtualenvs of idle projects, under the search roots.
pub struct PythonCaches {
    pub idle_days: u64,
    pub search_roots: Vec<String>,
}

impl PythonCaches {
    pub fn new(idle_days: u64, search_roots: Vec<String>) -> (r: Self)
        ensures
            r.idle_days == idle_days,
            r.search_roots == search_roots,
    {
        Self { idle_days, search_roots }
    }
}

impl CleanProvider for PythonCaches {
    fn id(&self) -> (r: &'static str)
        ensures
            r@ == id_of(Category::PythonCaches),
    {
        "python-caches"
    }

    fn label(&self) -> (r: &'static str)
        ensures
            r@ == label_of(Category::PythonCaches),
    {
        "Python __pycache__ / venv (idle)"
    }

    fn risk(&self) -> (r: RiskLevel)
        ensures
            r == risk_of(Category::PythonCaches),
    {
        RiskLevel::Review
    }
}

/// `target/` directories of idle Cargo projects under the search roots.
pub struct RustTargets {
    pub idle_days: u64,
    pub search_roots: Vec<String>,
}

impl RustTargets {
    pub fn new(idle_days: u64, search_roots: Vec<String>) -> (r: Self)
        ensures
            r.idle_days == idle_days,
            r.search_roots == search_roots,
    {
        Self { idle_days, search_roots }
    }
}

impl CleanProvider for RustTargets {
    fn id(&self) -> (r: &'static str)
        ensures
            r@ == id_of(Category::RustTargets),
    {
        "rust-targets"
    }

    fn label(&self) -> (r: &'static str)
        ensures
            r@ == label_of(Category::RustTargets),
    {
        "Rust target/ (idle)"
    }

    fn risk(&self) -> (r: RiskLevel)
        ensures
            r == risk_of(Category::RustTargets),
    {
        RiskLevel::Review
    }
}

/// Gradle caches/daemon logs and the Maven repository.
pub struct GradleMaven;

impl CleanProvider for GradleMaven {
    fn id(&self) -> (r: &'static str)
        ensures
            r@ == id_of(Category::GradleMaven),
    {
        "gradle-maven"
    }

    fn label(&self) -> (r: &'static str)
        ensures
            r@ == label_of(Category::GradleMaven),
    {
        "Gradle/Maven caches"
    }

    fn risk(&self) -> (r: RiskLevel)
        ensures
            r == risk_of(Category::GradleMaven),
    {
        RiskLevel::Review
    }
}

/// Top-level entries of the JetBrains cache and log directories.
pub struct JetBrains;

impl CleanProvider for JetBrains {
    fn id(&self) -> (r: &'static str)
        ensures
            r@ == id_of(Category::JetBrains),
    {
        "jetbrains"
    }

    fn label(&self) -> (r: &'static str)
        ensures
            r@ == label_of(Category::JetBrains),
    {
        "JetBrains caches/logs"
    }

    fn risk(&self) -> (r: RiskLevel)
        ensures
            r == risk_of(Category::JetBrains),
    {
        RiskLevel::Review
    }
}

/// VS Code cache, cached-data and log directories.
pub struct VsCode;

impl CleanProvider for VsCode {
    fn id(&self) -> (r: &'static str)
        ensures
            r@ == id_of(Category::VsCode),
    {
        "vscode"
    }

    fn label(&self) -> (r: &'static str)
        ensures
            r@ == label_of(Category::VsCode),
    {
        "VS Code caches"
    }

    fn risk(&self) -> (r: RiskLevel)
        ensures
            r == risk_of(Category::VsCode),
    {
        RiskLevel::Review
    }
}

/// Top-level entries of the CoreSimulator caches and devices.
pub struct IosSimulators;

impl CleanProvider for IosSimulators {
    fn id(&self) -> (r: &'static str)
        ensures
            r@ == id_of(Category::IosSimulators),
    {
        "ios-simulators"
    }

    fn label(&self) -> (r: &'static str)
        ensures
            r@ == label_of(Category::IosSimulators),
    {
        "iOS Simulator caches/devices"
    }

    fn risk(&self) -> (r: RiskLevel)
        ensures
            r == risk_of(Category::IosSimulators),
    {
        RiskLevel::Review
    }

    fn requires_app_quit(&self) -> (r: Option<&'static str>)
        ensures
            r matches Some(a) && app_of(Category::IosSimulators) == Some(a@),
    {
        Some("Xcode")
    }
}

/// Android cache/temp directories, and idle system images.
pub struct AndroidSdk {
    pub idle_days: u64,
}

impl AndroidSdk {
    pub fn new(idle_days: u64) -> (r: Self)
        ensures
            r.idle_days == idle_days,
    {
        Self { idle_days }
    }
}

impl CleanProvider for AndroidSdk {
    fn id(&self) -> (r: &'static str)
        ensures
            r@ == id_of(Category::AndroidSdk),
    {
        "android-sdk"
    }

    fn label(&self) -> (r: &'static str)
        ensures
            r@ == label_of(Category::AndroidSdk),
    {
        "Android SDK caches"
    }

    fn risk(&self) -> (r: RiskLevel)
        ensures
            r == risk_of(Category::AndroidSdk),
    {
        RiskLevel::Review
    }

    fn requires_app_quit(&self) -> (r: Option<&'static str>)
        ensures
            r matches Some(a) && app_of(Category::AndroidSdk) == Some(a@),
    {
        Some("Android Studio")
    }
}

/// The directories `go env GOCACHE` / `go env GOMODCACHE` report.
pub struct GoCache<R> {
    pub runner: R,
}

impl<R> GoCache<R> {
    pub fn with_runner(runner: R) -> (r: Self)
        ensures
            r.runner == runner,
    {
        Self { runner }
    }

    pub fn new() -> (r: Self)
        where R: Default,
        ensures
            call_ensures(R::default, (), r.runner),
    {
        Self { runner: R::default() }
    }
}

impl<R> CleanProvider for GoCache<R> {
    fn id(&self) -> (r: &'static str)
        ensures
            r@ == id_of(Category::GoCache),
    {
        "go-cache"
    }

    fn label(&self) -> (r: &'static str)
        ensures
            r@ == label_of(Category::GoCache),
    {
        "Go build/mod caches"
    }

    fn risk(&self) -> (r: RiskLevel)
        ensures
            r == risk_of(Category::GoCache),
    {
        RiskLevel::Review
    }
}

/// Docker images, build cache and volumes, pruned through the docker CLI.
pub struct Docker<R> {
    pub runner: R,
}

impl<R> Docker<R> {
    pub fn with_runner(runner: R) -> (r: Self)
        ensures
            r.runner == runner,
    {
        Self { runner }
    }

    pub fn new() -> (r: Self)
        where R: Default,
        ensures
            call_ensures(R::default, (), r.runner),
    {
        Self { runner: R::default() }
    }
}

impl<R> CleanProvider for Docker<R> {
    fn id(&self) -> (r: &'static str)
        ensures
            r@ == id_of(Category::Docker),
    {
        "docker"
    }

    fn label(&self) -> (r: &'static str)
        ensures
            r@ == label_of(Category::Docker),
    {
        "Docker images/build/volumes"
    }

    fn risk(&self) -> (r: RiskLevel)
        ensures
            r == risk_of(Category::Docker),
    {
        RiskLevel::Review
    }

    fn requires_app_quit(&self) -> (r: Option<&'static str>)
        ensures
            r matches Some(a) && app_of(Category::Docker) == Some(a@),
    {
        Some("Docker Desktop")
    }
}

/// Files directly inside `~/Downloads` idle for `idle_days`.
pub struct DownloadsOld {
    pub idle_days: u64,
}

impl DownloadsOld {
    pub fn new(idle_days: u64) -> (r: Self)
        ensures
            r.idle_days == idle_days,
    {
        Self { idle_days }
    }
}

impl CleanProvider for DownloadsOld {
    fn id(&self) -> (r: &'static str)
        ensures
            r@ == id_of(Category::DownloadsOld),
    {
        "downloads-old"
    }

    fn label(&self) -> (r: &'static str)
        ensures
            r@ == label_of(Category::DownloadsOld),
    {
        "Downloads (old files)"
    }

    fn risk(&self) -> (r: RiskLevel)
        ensures
            r == risk_of(Category::DownloadsOld),
    {
        RiskLevel::Review
    }
}

/// Idle screenshots in the screenshot folder.
pub struct ScreenshotsOld<R> {
    pub idle_days: u64,
    pub runner: R,
}

impl<R> ScreenshotsOld<R> {
    pub fn with_runner(idle_days: u64, runner: R) -> (r: Self)
        ensures
            r.idle_days == idle_days,
            r.runner == runner,
    {
        Self { idle_days, runner }
    }

    pub fn new(idle_days: u64) -> (r: Self)
        where R: Default,
        ensures
            r.idle_days == idle_days,
    {
        Self { idle_days, runner: R::default() }
    }
}

impl<R> CleanProvider for ScreenshotsOld<R> {
    fn id(&self) -> (r: &'static str)
        ensures
            r@ == id_of(Category::ScreenshotsOld),
    {
        "screenshots-old"
    }

    fn label(&self) -> (r: &'static str)
        ensures
            r@ == label_of(Category::ScreenshotsOld),
    {
        "Old screenshots"
    }

    fn risk(&self) -> (r: RiskLevel)
        ensures
            r == risk_of(Category::ScreenshotsOld),
    {
        RiskLevel::Review
    }
}

/// Top-level entries of Mail's per-version attachment folders.
pub struct MailAttachments;

impl CleanProvider for MailAttachments {
    fn id(&self) -> (r: &'static str)
        ensures
            r@ == id_of(Category::MailAttachments),
    {
        "mail-attachments"
    }

    fn label(&self) -> (r: &'static str)
        ensures
            r@ == label_of(Category::MailAttachments),
    {
        "Mail attachments"
    }

    fn risk(&self) -> (r: RiskLevel)
        ensures
            r == risk_of(Category::MailAttachments),
    {
        RiskLevel::Review
    }

    fn requires_app_quit(&self) -> (r: Option<&'static str>)
        ensures
            r matches Some(a) && app_of(Category::MailAttachments) == Some(a@),
    {
        Some("Mail")
    }
}

/// Spotify, Netflix and Music caches whose app is not running.
pub struct StreamingCaches<C> {
    pub checker: C,
}

impl<C> StreamingCaches<C> {
    pub fn with_checker(checker: C) -> (r: Self)
        ensures
            r.checker == checker,
    {
        Self { checker }
    }

    pub fn new() -> (r: Self)
        where C: Default,
        ensures
            call_ensures(C::default, (), r.checker),
    {
        Self { checker: C::default() }
    }
}

impl<C> CleanProvider for StreamingCaches<C> {
    fn id(&self) -> (r: &'static str)
        ensures
            r@ == id_of(Category::StreamingCaches),
    {
        "streaming-caches"
    }

    fn label(&self) -> (r: &'static str)
        ensures
            r@ == label_of(Category::StreamingCaches),
    {
        "Streaming app caches"
    }

    fn risk(&self) -> (r: RiskLevel)
        ensures
            r == risk_of(Category::StreamingCaches),
    {
        RiskLevel::Review
    }
}

/// Slack, Discord and Telegram caches whose app is not running.
pub struct ChatCaches<C> {
    pub checker: C,
}

impl<C> ChatCaches<C> {
    pub fn with_checker(checker: C) -> (r: Self)
        ensures
            r.checker == checker,
    {
        Self { checker }
    }

    pub fn new() -> (r: Self)
        where C: Default,
        ensures
            call_ensures(C::default, (), r.checker),
    {
        Self { checker: C::default() }
    }
}

impl<C> CleanProvider for ChatCaches<C> {
    fn id(&self) -> (r: &'static str)
        ensures
            r@ == id_of(Category::ChatCaches),
    {
        "chat-caches"
    }

    fn label(&self) -> (r: &'static str)
        ensures
            r@ == label_of(Category::ChatCaches),
    {
        "Chat app caches"
    }

    fn risk(&self) -> (r: RiskLevel)
        ensures
            r == risk_of(Category::ChatCaches),
    {
        RiskLevel::Review
    }
}

/// Safari, Chrome, Arc and Firefox caches whose app is not running.
pub struct BrowserCaches<C> {
    pub checker: C,
}

impl<C> BrowserCaches<C> {
    pub fn with_checker(checker: C) -> (r: Self)
        ensures
            r.checker == checker,
    {
        Self { checker }
    }

    pub fn new() -> (r: Self)
        where C: Default,
        ensures
            call_ensures(C::default, (), r.checker),
    {
        Self { checker: C::default() }
    }
}

impl<C> CleanProvider for BrowserCaches<C> {
    fn id(&self) -> (r: &'static str)
        ensures
            r@ == id_of(Category::BrowserCaches),
    {
        "browser-caches"
    }

    fn label(&self) -> (r: &'static str)
        ensures
            r@ == label_of(Category::BrowserCaches),
    {
        "Browser caches"
    }

    fn risk(&self) -> (r: RiskLevel)
        ensures
            r == risk_of(Category::BrowserCaches),
    {
        RiskLevel::Review
    }
}

/// The Gatekeeper quarantine-events database.
pub struct Quarantine;

impl CleanProvider for Quarantine {
    fn id(&self) -> (r: &'static str)
        ensures
            r@ == id_of(Category::Quarantine),
    {
        "quarantine"
    }

    fn label(&self) -> (r: &'static str)
        ensures
            r@ == label_of(Category::Quarantine),
    {
        "Gatekeeper quarantine events"
    }

    fn risk(&self) -> (r: RiskLevel)
        ensures
            r == risk_of(Category::Quarantine),
    {
        RiskLevel::Review
    }
}

/// Top-level entries of the user and system DiagnosticReports folders.
pub struct CrashReports;

impl CleanProvider for CrashReports {
    fn id(&self) -> (r: &'static str)
        ensures
            r@ == id_of(Category::CrashReports),
    {
        "crash-reports"
    }

    fn label(&self) -> (r: &'static str)
        ensures
            r@ == label_of(Category::CrashReports),
    {
        "Crash reports / DiagnosticReports"
    }

    fn risk(&self) -> (r: RiskLevel)
        ensures
            r == risk_of(Category::CrashReports),
    {
        RiskLevel::Safe
    }
}

/// `~/Library/Application Support` entries that no installed app claims.
pub struct AppOrphans<R> {
    pub runner: R,
}

impl<R> AppOrphans<R> {
    pub fn with_runner(runner: R) -> (r: Self)
        ensures
            r.runner == runner,
    {
        Self { runner }
    }

    pub fn new() -> (r: Self)
        where R: Default,
        ensures
            call_ensures(R::default, (), r.runner),
    {
        Self { runner: R::default() }
    }
}

impl<R> CleanProvider for AppOrphans<R> {
    fn id(&self) -> (r: &'static str)
        ensures
            r@ == id_of(Category::AppOrphans),
    {
        "app-orphans"
    }

    fn label(&self) -> (r: &'static str)
        ensures
            r@ == label_of(Category::AppOrphans),
    {
        "Orphaned Application Support dirs"
    }

    fn risk(&self) -> (r: RiskLevel)
        ensures
            r == risk_of(Category::AppOrphans),
    {
        RiskLevel::Review
    }
}

/// Local Time Machine snapshots, deleted through `tmutil`.
pub struct TimeMachineLocal<R> {
    pub runner: R,
}

impl<R> TimeMachineLocal<R> {
    pub fn with_runner(runner: R) -> (r: Self)
        ensures
            r.runner == runner,
    {
        Self { runner }
    }

    pub fn new() -> (r: Self)
        where R: Default,
        ensures
            call_ensures(R::default, (), r.runner),
    {
        Self { runner: R::default() }
    }
}

impl<R> CleanProvider for TimeMachineLocal<R> {
    fn id(&self) -> (r: &'static str)
        ensures
            r@ == id_of(Category::TimeMachineLocal),
    {
        "time-machine-local"
    }

    fn label(&self) -> (r: &'static str)
        ensures
            r@ == label_of(Category::TimeMachineLocal),
    {
        "Time Machine local snapshots"
    }

    fn risk(&self) -> (r: RiskLevel)
        ensures
            r == risk_of(Category::TimeMachineLocal),
    {
        RiskLevel::Destructive
    }
}

/// Font registry and QuickLook thumbnail caches.
pub struct FontQuicklookCaches<R> {
    pub runner: R,
}

impl<R> FontQuicklookCaches<R> {
    pub fn with_runner(runner: R) -> (r: Self)
        ensures
            r.runner == runner,
    {
        Self { runner }
    }

    pub fn new() -> (r: Self)
        where R: Default,
        ensures
            call_ensures(R::default, (), r.runner),
    {
        Self { runner: R::default() }
    }
}

impl<R> CleanProvider for FontQuicklookCaches<R> {
    fn id(&self) -> (r: &'static str)
        ensures
            r@ == id_of(Category::FontQuicklookCaches),
    {
        "font-quicklook-caches"
    }

    fn label(&self) -> (r: &'static str)
        ensures
            r@ == label_of(Category::FontQuicklookCaches),
    {
        "Font + QuickLook caches"
    }

    fn risk(&self) -> (r: RiskLevel)
        ensures
            r == risk_of(Category::FontQuicklookCaches),
    {
        RiskLevel::Safe
    }
}

} // verus!
