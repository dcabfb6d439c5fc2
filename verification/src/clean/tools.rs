//! The command-line and per-item work of the cleanup categories: what they ask of
//! `tmutil`, `docker`, `mdfind`, `defaults`, `go` and `getconf`, how they read the
//! answers, and how per-item outcomes become a report.
use vstd::prelude::*;
use crate::text::names;
use crate::clean::process::ProcessChecker;
use crate::clean::providers::{AppOrphans, Docker, FontQuicklookCaches, GoCache, ScreenshotsOld, TimeMachineLocal};
use crate::clean::runner::{arg_texts, CommandOutput, CommandRunner};
use crate::clean::types::{CleanItem, ExecAction, ExecReport, RiskLevel};

use crate::path::{components_of, compare_keys, file_name, file_name_of, key_order, lemma_key_order, path_components};
use crate::scan::plan::{join_path, join_text};
use crate::text::{
    append_str, chars_of, ends_with, find_from, find_from_spec, line_bounds, lines, push_char, starts_with,
    str_ends_with, str_eq, str_starts_with, string_of, trim, trim_bounds, trim_string,
};

verus! {

broadcast use vstd::string::group_string_axioms;

/// The paths of a report as plain text: removed paths, and failed paths with their
/// reasons. (Contracts that use it state the report's skipped app apart.)
pub open spec fn report_view(r: ExecReport) -> (Seq<Seq<char>>, Seq<(Seq<char>, Seq<char>)>) {
    (
        r.removed_paths@.map_values(|s: String| s@),
        r.failed@.map_values(|p: (String, String)| (p.0@, p.1@)),
    )
}

/// The report of per-item outcomes: each item's path goes to `removed` when its
/// outcome is `Ok`, else to `failed` with the error text.
pub open spec fn outcomes_report(items: Seq<CleanItem>, outcomes: Seq<Result<(), String>>) -> (
    Seq<Seq<char>>,
    Seq<(Seq<char>, Seq<char>)>,
)
    decreases items.len(),
{
    if items.len() == 0 {
        (Seq::<Seq<char>>::empty(), Seq::<(Seq<char>, Seq<char>)>::empty())
    } else {
        let p = outcomes_report(items.drop_last(), outcomes);
        match outcomes[items.len() - 1] {
            Ok(()) => (p.0.push(items.last().path@), p.1),
            Err(e) => (p.0, p.1.push((items.last().path@, e@))),
        }
    }
}

/// The refusal every per-item category gives `EmptyTrash`.
pub open spec fn empty_trash_refusal(provider_id: Seq<char>) -> Seq<char> {
    provider_id + " provider does not accept EmptyTrash"@
}

/// The default executor of a category: refuses `EmptyTrash`, else reports, item by
/// item, what moving it to the Trash or deleting it came to (`outcomes`, one per
/// item, is what the file system answered).
pub fn execute_per_item(
    items: &[CleanItem],
    action: ExecAction,
    provider_id: &str,
    outcomes: &[Result<(), String>],
) -> (r: Result<ExecReport, String>)
    requires
        action != ExecAction::EmptyTrash ==> outcomes@.len() == items@.len(),
    ensures
        action == ExecAction::EmptyTrash ==> (r matches Err(m) && m@ == empty_trash_refusal(provider_id@)),
        action != ExecAction::EmptyTrash ==> (r matches Ok(rep) && report_view(rep) == outcomes_report(
            items@,
            outcomes@,
        ) && rep.skipped_running_app is None),
{
    if action == ExecAction::EmptyTrash {
        let mut m = String::from_str(provider_id);
        append_str(&mut m, " provider does not accept EmptyTrash");
        return Err(m);
    }
    let mut report = ExecReport::new();
    let mut i: usize = 0;
    assert(items@.take(0) =~= Seq::<CleanItem>::empty());
    assert(report_view(report) =~= outcomes_report(items@.take(0), outcomes@));
    while i < items.len()
        invariant
            i <= items@.len(),
            outcomes@.len() == items@.len(),
            report.skipped_running_app is None,
            report_view(report) == outcomes_report(items@.take(i as int), outcomes@),
        decreases items@.len() - i,
    {
        let ghost before = report_view(report);
        assert(items@.take(i + 1).drop_last() =~= items@.take(i as int));
        assert(items@.take(i + 1).last() == items@[i as int]);
        match &outcomes[i] {
            Ok(()) => {
                report.removed_paths.push(items[i].path.clone());
            },
            Err(e) => {
                report.failed.push((items[i].path.clone(), e.clone()));
            },
        }
        assert(report_view(report) =~= outcomes_report(items@.take(i + 1), outcomes@));
        i += 1;
    }
    assert(items@.take(items@.len() as int) =~= items@);
    Ok(report)
}

pub open spec fn trash_refusal(action: ExecAction) -> Option<Seq<char>> {
    match action {
        ExecAction::EmptyTrash => None,
        ExecAction::Trash => Some("trash provider rejects ExecAction::Trash — empty Trash via Hard delete only"@),
        ExecAction::HardDelete => Some(
            "trash provider rejects ExecAction::HardDelete — execute.rs must map UI HardDelete → ExecAction::EmptyTrash for trash"@,
        ),
    }
}

/// The trash category accepts `EmptyTrash` only.
pub fn trash_action_check(action: ExecAction) -> (r: Result<(), String>)
    ensures
        r is Ok <==> trash_refusal(action) is None,
        r matches Err(m) ==> trash_refusal(action) == Some(m@),
{
    match action {
        ExecAction::EmptyTrash => Ok(()),
        ExecAction::Trash => Err(String::from_str("trash provider rejects ExecAction::Trash — empty Trash via Hard delete only")),
        ExecAction::HardDelete => Err(String::from_str(
            "trash provider rejects ExecAction::HardDelete — execute.rs must map UI HardDelete → ExecAction::EmptyTrash for trash",
        )),
    }
}

/// A category whose whole root directory is one item: that item when the root
/// exists, else nothing.
pub fn root_as_item(
    root: &str,
    exists: bool,
    size: u64,
    category_id: &str,
    category_label: &str,
    risk: RiskLevel,
) -> (r: Vec<CleanItem>)
    ensures
        !exists ==> r@.len() == 0,
        exists ==> r@.len() == 1 && r@[0].path@ == root@ && r@[0].size == size && r@[0].category_id@
            == category_id@ && r@[0].category_label@ == category_label@ && r@[0].risk == risk,
{
    if !exists {
        return Vec::new();
    }
    let mut v: Vec<CleanItem> = Vec::new();
    v.push(CleanItem {
        category_id: String::from_str(category_id),
        category_label: String::from_str(category_label),
        path: String::from_str(root),
        size,
        risk,
    });
    v
}

// ---------- Time Machine local snapshots ----------

pub open spec fn snapshot_prefix() -> Seq<char> {
    "com.apple.TimeMachine."@
}

pub open spec fn snapshot_suffix() -> Seq<char> {
    ".local"@
}

pub open spec fn placeholder_prefix() -> Seq<char> {
    "<tmutil:"@
}

/// The trimmed lines that name a snapshot, in order.
pub open spec fn snapshot_lines(ls: Seq<Seq<char>>) -> Seq<Seq<char>>
    decreases ls.len(),
{
    if ls.len() == 0 {
        Seq::<Seq<char>>::empty()
    } else {
        let p = snapshot_lines(ls.drop_last());
        let l = trim(ls.last());
        if starts_with(l, snapshot_prefix()) {
            p.push(l)
        } else {
            p
        }
    }
}


/// The snapshot names in the output of `tmutil listlocalsnapshots /`: the trimmed
/// lines that start with `com.apple.TimeMachine.`.
pub fn parse_snapshots(stdout: &str) -> (r: Vec<String>)
    ensures
        names(r@) == snapshot_lines(lines(stdout@)),
{
    let v = chars_of(stdout);
    let bounds = line_bounds(&v);
    let ghost ls = lines(v@);
    let mut out: Vec<String> = Vec::new();
    let mut k: usize = 0;
    assert(ls.take(0) =~= Seq::<Seq<char>>::empty());
    while k < bounds.len()
        invariant
            k <= bounds@.len(),
            bounds@.len() == ls.len(),
            ls == lines(v@),
            v@ == stdout@,
            forall|j: int|
                0 <= j < bounds@.len() ==> {
                    &&& (#[trigger] bounds@[j]).0 <= bounds@[j].1 <= v@.len()
                    &&& v@.subrange(bounds@[j].0 as int, bounds@[j].1 as int) == ls[j]
                },
            names(out@) == snapshot_lines(ls.take(k as int)),
        decreases bounds@.len() - k,
    {
        let (lo, hi) = bounds[k];
        let (a, b) = trim_bounds(&v, lo, hi);
        let line = string_of(&v, a, b);
        assert(ls.take(k + 1).drop_last() =~= ls.take(k as int));
        if str_starts_with(line.as_str(), "com.apple.TimeMachine.") {
            let ghost before = names(out@);
            let ghost lv = line@;
            out.push(line);
            assert(names(out@) =~= before.push(lv));
        }
        k += 1;
    }
    assert(ls.take(ls.len() as int) =~= ls);
    out
}

/// What a placeholder path `<tmutil:NAME>` names.
pub open spec fn placeholder_name(p: Seq<char>) -> Option<Seq<char>> {
    if starts_with(p, placeholder_prefix()) && ends_with(p.skip(8), ">"@) {
        Some(p.skip(8).drop_last())
    } else {
        None
    }
}

/// Reads the snapshot name back out of a `<tmutil:NAME>` placeholder path.
pub fn parse_placeholder(path: &str) -> (r: Option<String>)
    ensures
        r matches Some(s) ==> placeholder_name(path@) == Some(s@),
        r is None ==> placeholder_name(path@) is None,
{
    proof {
        reveal_strlit("<tmutil:");
        reveal_strlit(">");
    }
    if !str_starts_with(path, "<tmutil:") {
        return None;
    }
    let v = chars_of(path);
    let rest = string_of(&v, 8, v.len());
    assert(rest@ =~= path@.skip(8));
    if !str_ends_with(rest.as_str(), ">") {
        return None;
    }
    let rv = chars_of(rest.as_str());
    let inner = string_of(&rv, 0, rv.len() - 1);
    assert(inner@ =~= rest@.drop_last());
    Some(inner)
}

/// The date part of a snapshot name `com.apple.TimeMachine.DATE.local`, when not
/// empty.
pub open spec fn snapshot_date(s: Seq<char>) -> Option<Seq<char>> {
    if starts_with(s, snapshot_prefix()) && ends_with(s.skip(22), snapshot_suffix()) && s.len()
        - 22 - 6 > 0 {
        Some(s.subrange(22, s.len() - 6))
    } else {
        None
    }
}

pub fn snapshot_to_date(snapshot: &str) -> (r: Option<String>)
    ensures
        r matches Some(s) ==> snapshot_date(snapshot@) == Some(s@),
        r is None ==> snapshot_date(snapshot@) is None,
{
    proof {
        reveal_strlit("com.apple.TimeMachine.");
        reveal_strlit(".local");
    }
    if !str_starts_with(snapshot, "com.apple.TimeMachine.") {
        return None;
    }
    let v = chars_of(snapshot);
    let rest = string_of(&v, 22, v.len());
    assert(rest@ =~= snapshot@.skip(22));
    if !str_ends_with(rest.as_str(), ".local") {
        return None;
    }
    if v.len() - 22 - 6 == 0 {
        return None;
    }
    let inner = string_of(&v, 22, v.len() - 6);
    Some(inner)
}

/// The placeholder item of snapshot `snap`.
pub open spec fn is_snapshot_item(item: CleanItem, snap: Seq<char>) -> bool {
    &&& item.category_id@ == "time-machine-local"@
    &&& item.category_label@ == "Time Machine local snapshots"@
    &&& item.path@ == placeholder_prefix() + snap + ">"@
    &&& item.size == 0
    &&& item.risk == RiskLevel::Destructive
}

/// `item` is the placeholder item of some snapshot.
pub open spec fn is_any_snapshot_item(item: CleanItem) -> bool {
    exists|s: Seq<char>| starts_with(s, snapshot_prefix()) && #[trigger] is_snapshot_item(item, s)
}

/// One placeholder item per snapshot named in the `tmutil` output.
pub fn snapshot_items(stdout: &str) -> (r: Vec<CleanItem>)
    ensures
        r@.len() == snapshot_lines(lines(stdout@)).len(),
        forall|k: int| 0 <= k < r@.len() ==> is_snapshot_item(#[trigger] r@[k], snapshot_lines(lines(stdout@))[k]),
{
    let snaps = parse_snapshots(stdout);
    let mut items: Vec<CleanItem> = Vec::new();
    let mut k: usize = 0;
    while k < snaps.len()
        invariant
            k <= snaps@.len(),
            names(snaps@) == snapshot_lines(lines(stdout@)),
            items@.len() == k,
            forall|j: int| 0 <= j < k ==> is_snapshot_item(#[trigger] items@[j], names(snaps@)[j]),
        decreases snaps@.len() - k,
    {
        let mut p = String::from_str("<tmutil:");
        append_str(&mut p, snaps[k].as_str());
        append_str(&mut p, ">");
        items.push(CleanItem {
            category_id: String::from_str("time-machine-local"),
            category_label: String::from_str("Time Machine local snapshots"),
            path: p,
            size: 0,
            risk: RiskLevel::Destructive,
        });
        k += 1;
    }
    items
}

/// What deleting the snapshot behind `path` comes to before `tmutil` runs: the date
/// to pass it, or why the item fails.
pub open spec fn snapshot_plan(path: Seq<char>) -> Result<Seq<char>, Seq<char>> {
    match placeholder_name(path) {
        None => Err("internal: malformed tmutil placeholder"@),
        Some(snap) => match snapshot_date(snap) {
            None => Err("snapshot id has unexpected format: "@ + snap),
            Some(d) => Ok(d),
        },
    }
}

/// The report of deleting `items`, `ran_ok[i]` being whether `tmutil` succeeded for
/// item `i` (unused when the item failed before).
pub open spec fn snapshot_report(items: Seq<CleanItem>, ran_ok: Seq<bool>) -> (
    Seq<Seq<char>>,
    Seq<(Seq<char>, Seq<char>)>,
)
    decreases items.len(),
{
    if items.len() == 0 {
        (Seq::<Seq<char>>::empty(), Seq::<(Seq<char>, Seq<char>)>::empty())
    } else {
        let p = snapshot_report(items.drop_last(), ran_ok);
        let it = items.last();
        match snapshot_plan(it.path@) {
            Err(m) => (p.0, p.1.push((it.path@, m))),
            Ok(d) => if ran_ok[items.len() - 1] {
                (p.0.push(it.path@), p.1)
            } else {
                (p.0, p.1.push((it.path@, "tmutil deletelocalsnapshots "@ + d + " failed"@)))
            },
        }
    }
}

/// `items` are the placeholders of the snapshots named in the `tmutil` output, one
/// per snapshot line, in order; none when the command failed.
pub open spec fn snapshots_listed(ok: bool, out: Seq<char>, items: Seq<CleanItem>) -> bool {
    if ok {
        &&& items.len() == snapshot_lines(lines(out)).len()
        &&& forall|k: int| 0 <= k < items.len() ==> is_snapshot_item(#[trigger] items[k], snapshot_lines(lines(out))[k])
    } else {
        items.len() == 0
    }
}

/// The `tmutil` arguments that list the local snapshots of `/`, as text.
pub open spec fn list_snapshots_text() -> Seq<Seq<char>> {
    seq!["listlocalsnapshots"@, "/"@]
}

/// The `docker` arguments that list disk usage, as text.
pub open spec fn df_args_text() -> Seq<Seq<char>> {
    seq!["system"@, "df"@, "--format"@, "{{json .}}"@]
}

/// The `docker` arguments that prune, as text.
pub open spec fn prune_args_text() -> Seq<Seq<char>> {
    seq!["system"@, "prune"@, "-af"@, "--volumes"@]
}

/// The `mdfind` arguments that list app bundles, as text.
pub open spec fn app_bundles_text() -> Seq<Seq<char>> {
    seq!["kMDItemContentType == 'com.apple.application-bundle'"@]
}

/// The `getconf` arguments for the Darwin cache directory, as text.
pub open spec fn darwin_cache_text() -> Seq<Seq<char>> {
    seq!["DARWIN_USER_CACHE_DIR"@]
}

/// The `defaults` arguments for the screenshot folder, as text.
pub open spec fn screenshot_location_text() -> Seq<Seq<char>> {
    seq!["read"@, "com.apple.screencapture"@, "location"@]
}

/// The `tmutil` arguments that delete the local snapshot of `date`, as text.
pub open spec fn delete_snapshot_text(date: Seq<char>) -> Seq<Seq<char>> {
    seq!["deletelocalsnapshots"@, date]
}

/// The `go` arguments that print the variable `var`, as text.
pub open spec fn go_env_text(var: Seq<char>) -> Seq<Seq<char>> {
    seq!["env"@, var]
}

/// The `defaults` arguments that read the bundle id in `plist`, as text.
pub open spec fn bundle_id_text(plist: Seq<char>) -> Seq<Seq<char>> {
    seq!["read"@, plist, "CFBundleIdentifier"@]
}

/// The `tmutil` arguments that list the local snapshots of `/`.
pub fn list_snapshots_args() -> (r: Vec<&'static str>)
    ensures
        arg_texts(r@) == list_snapshots_text(),
{
    let r = vec!["listlocalsnapshots", "/"];
    assert(arg_texts(r@) =~= list_snapshots_text());
    r
}

/// The `tmutil` arguments that delete the local snapshot of `date`.
pub fn delete_snapshot_args(date: &str) -> (r: Vec<&str>)
    ensures
        arg_texts(r@) == delete_snapshot_text(date@),
{
    let r = vec!["deletelocalsnapshots", date];
    assert(arg_texts(r@) =~= delete_snapshot_text(date@));
    r
}

/// The snapshot items of a `tmutil listlocalsnapshots /` answer: one placeholder per
/// snapshot line, in order, when the command succeeded; none when it failed.
pub fn snapshot_discovery(out: &CommandOutput) -> (r: Vec<CleanItem>)
    ensures
        snapshots_listed(out.success, out.stdout@, r@),
        forall|k: int| 0 <= k < r@.len() ==> is_any_snapshot_item(#[trigger] r@[k]),
{
    if !out.success {
        return Vec::new();
    }
    let items = snapshot_items(out.stdout.as_str());
    proof {
        let ls = lines(out.stdout@);
        assert forall|k: int| 0 <= k < items@.len() implies is_any_snapshot_item(#[trigger] items@[k]) by {
            lemma_snapshot_lines_prefixed(ls);
            assert(starts_with(snapshot_lines(ls)[k], snapshot_prefix()));
            assert(is_snapshot_item(items@[k], snapshot_lines(ls)[k]));
        }
    }
    items
}

/// The date to hand `tmutil deletelocalsnapshots` for the item at `path`, or why the
/// item fails before `tmutil` runs (see `snapshot_plan`).
pub fn snapshot_plan_of(path: &str) -> (r: Result<String, String>)
    ensures
        match r {
            Ok(d) => snapshot_plan(path@) == Ok::<Seq<char>, Seq<char>>(d@),
            Err(m) => snapshot_plan(path@) == Err::<Seq<char>, Seq<char>>(m@),
        },
{
    match parse_placeholder(path) {
        None => Err(String::from_str("internal: malformed tmutil placeholder")),
        Some(snapshot) => match snapshot_to_date(snapshot.as_str()) {
            None => {
                let mut m = String::from_str("snapshot id has unexpected format: ");
                append_str(&mut m, snapshot.as_str());
                Err(m)
            },
            Some(date) => Ok(date),
        },
    }
}

/// The report of deleting the snapshots behind `items`, `ran_ok[i]` being whether
/// `tmutil` succeeded for item `i` (unused for an item that fails before it runs).
pub fn snapshot_deletion_report(items: &[CleanItem], ran_ok: &Vec<bool>) -> (r: ExecReport)
    requires
        ran_ok@.len() == items@.len(),
    ensures
        report_view(r) == snapshot_report(items@, ran_ok@),
        r.skipped_running_app is None,
{
    let mut report = ExecReport::new();
    let mut i: usize = 0;
    assert(report_view(report) =~= snapshot_report(items@.take(0), ran_ok@));
    while i < items.len()
        invariant
            i <= items@.len(),
            ran_ok@.len() == items@.len(),
            report.skipped_running_app is None,
            report_view(report) == snapshot_report(items@.take(i as int), ran_ok@),
        decreases items@.len() - i,
    {
        let item = &items[i];
        let ghost before = report_view(report);
        assert(items@.take(i + 1).drop_last() =~= items@.take(i as int));
        assert(items@.take(i + 1).last() == items@[i as int]);
        match snapshot_plan_of(item.path.as_str()) {
            Err(m) => {
                report.failed.push((item.path.clone(), m));
            },
            Ok(date) => {
                if ran_ok[i] {
                    report.removed_paths.push(item.path.clone());
                } else {
                    let mut m = String::from_str("tmutil deletelocalsnapshots ");
                    append_str(&mut m, date.as_str());
                    append_str(&mut m, " failed");
                    report.failed.push((item.path.clone(), m));
                }
            },
        }
        assert(report_view(report) =~= snapshot_report(items@.take(i + 1), ran_ok@));
        i += 1;
    }
    assert(items@.take(items@.len() as int) =~= items@);
    report
}

/// Whether `ok` is the success of an answer `runner` may give to
/// `tmutil deletelocalsnapshots date`.
pub open spec fn deletion_answered<R: CommandRunner>(runner: R, date: Seq<char>, ok: bool) -> bool {
    exists|out: Seq<char>| #[trigger] runner.run_answer("tmutil"@, delete_snapshot_text(date), ok, out)
}

/// Whether `ran_ok` holds, for each item, the success of the runner's answer to
/// deleting its snapshot, when its date reads (and false for an item whose date does
/// not read, for which nothing runs).
pub open spec fn deletions_answered<R: CommandRunner>(runner: R, items: Seq<CleanItem>, ran_ok: Seq<bool>) -> bool {
    &&& ran_ok.len() == items.len()
    &&& forall|i: int|
        0 <= i < items.len() ==> match snapshot_plan(#[trigger] items[i].path@) {
            Ok(d) => deletion_answered(runner, d, ran_ok[i]),
            Err(_) => !ran_ok[i],
        }
}

impl<R: CommandRunner> TimeMachineLocal<R> {
    /// Whether `tmutil` is installed: the runner's answer to `which tmutil`.
    pub fn available(&self) -> (r: bool)
        ensures
            self.runner.which_answer("tmutil"@, r),
    {
        self.runner.which("tmutil")
    }

    /// The local snapshots, one placeholder item each; none when `tmutil` fails. The
    /// runner is asked `tmutil listlocalsnapshots /` (`list_snapshots_args`), and its
    /// answer becomes the items by `snapshot_discovery`.
    pub fn discover(&self) -> (r: Result<Vec<CleanItem>, String>)
        ensures
            r matches Ok(items) && forall|k: int| 0 <= k < items@.len() ==> is_any_snapshot_item(#[trigger] items@[k]),
            r is Ok,
            exists|ok: bool, out: Seq<char>|
                #[trigger] self.runner.run_answer("tmutil"@, list_snapshots_text(), ok, out)
                    && snapshots_listed(ok, out, r->Ok_0@),
    {
        let args = list_snapshots_args();
        let out = self.runner.run("tmutil", args.as_slice());
        let items = snapshot_discovery(&out);
        let res: Result<Vec<CleanItem>, String> = Ok(items);
        assert(self.runner.run_answer("tmutil"@, list_snapshots_text(), out.success, out.stdout@));
        assert(snapshots_listed(out.success, out.stdout@, res->Ok_0@));
        res
    }

    /// Deletes the snapshots behind the items with `tmutil deletelocalsnapshots
    /// DATE` (arguments from `delete_snapshot_args`), once per item whose date reads;
    /// refuses `EmptyTrash`. The report is `snapshot_deletion_report` of the answers.
    pub fn execute(&self, items: &[CleanItem], action: ExecAction) -> (r: Result<ExecReport, String>)
        ensures
            action == ExecAction::EmptyTrash ==> (r matches Err(m) && m@ == "time_machine_local does not accept EmptyTrash"@),
            action != ExecAction::EmptyTrash ==> (r matches Ok(rep) && exists|ran_ok: Seq<bool>|
                #[trigger] deletions_answered(self.runner, items@, ran_ok) && report_view(rep) == snapshot_report(
                    items@,
                    ran_ok,
                )),
            action != ExecAction::EmptyTrash ==> (r matches Ok(rep) && rep.skipped_running_app is None),
    {
        if action == ExecAction::EmptyTrash {
            return Err(String::from_str("time_machine_local does not accept EmptyTrash"));
        }
        let mut ran_ok: Vec<bool> = Vec::new();
        let mut i: usize = 0;
        while i < items.len()
            invariant
                i <= items@.len(),
                ran_ok@.len() == i,
                forall|j: int|
                    0 <= j < i ==> match snapshot_plan(#[trigger] items@[j].path@) {
                        Ok(d) => deletion_answered(self.runner, d, ran_ok@[j]),
                        Err(_) => !ran_ok@[j],
                    },
            decreases items@.len() - i,
        {
            match snapshot_plan_of(items[i].path.as_str()) {
                Ok(date) => {
                    let args = delete_snapshot_args(date.as_str());
                    let out = self.runner.run("tmutil", args.as_slice());
                    ran_ok.push(out.success);
                    assert(self.runner.run_answer("tmutil"@, delete_snapshot_text(date@), out.success, out.stdout@));
                    assert(deletion_answered(self.runner, date@, out.success));
                },
                Err(_) => {
                    ran_ok.push(false);
                },
            }
            i += 1;
        }
        let rep = snapshot_deletion_report(items, &ran_ok);
        assert(deletions_answered(self.runner, items@, ran_ok@));
        Ok(rep)
    }
}

proof fn lemma_snapshot_lines_prefixed(ls: Seq<Seq<char>>)
    ensures
        forall|k: int| 0 <= k < snapshot_lines(ls).len() ==> starts_with(#[trigger] snapshot_lines(ls)[k], snapshot_prefix()),
    decreases ls.len(),
{
    if ls.len() > 0 {
        lemma_snapshot_lines_prefixed(ls.drop_last());
        let p = snapshot_lines(ls.drop_last());
        let s = snapshot_lines(ls);
        assert forall|k: int| 0 <= k < s.len() implies starts_with(#[trigger] s[k], snapshot_prefix()) by {
            if k < p.len() {
                assert(s[k] == p[k]);
            }
        }
    }
}

// ---------- command answers ----------

/// The trimmed output of a command that succeeded, unless it is empty.
pub open spec fn trimmed_answer(success: bool, stdout: Seq<char>) -> Option<Seq<char>> {
    if success && trim(stdout).len() > 0 {
        Some(trim(stdout))
    } else {
        None
    }
}

pub fn answer_of(out: &CommandOutput) -> (r: Option<String>)
    ensures
        r matches Some(s) ==> trimmed_answer(out.success, out.stdout@) == Some(s@),
        r is None ==> trimmed_answer(out.success, out.stdout@) is None,
{
    if !out.success {
        return None;
    }
    let t = trim_string(out.stdout.as_str());
    let tc = chars_of(t.as_str());
    if tc.len() == 0 {
        return None;
    }
    Some(t)
}

/// The trimmed, non-empty lines of the output of a command that succeeded.
pub open spec fn answer_lines(success: bool, stdout: Seq<char>) -> Seq<Seq<char>> {
    if success {
        nonempty_trimmed(lines(stdout))
    } else {
        Seq::<Seq<char>>::empty()
    }
}

pub open spec fn nonempty_trimmed(ls: Seq<Seq<char>>) -> Seq<Seq<char>>
    decreases ls.len(),
{
    if ls.len() == 0 {
        Seq::<Seq<char>>::empty()
    } else {
        let p = nonempty_trimmed(ls.drop_last());
        if trim(ls.last()).len() > 0 {
            p.push(trim(ls.last()))
        } else {
            p
        }
    }
}

pub fn answer_lines_of(out: &CommandOutput) -> (r: Vec<String>)
    ensures
        names(r@) == answer_lines(out.success, out.stdout@),
{
    let mut result: Vec<String> = Vec::new();
    if !out.success {
        assert(names(result@) =~= Seq::<Seq<char>>::empty());
        return result;
    }
    let v = chars_of(out.stdout.as_str());
    let bounds = line_bounds(&v);
    let ghost ls = lines(v@);
    let mut k: usize = 0;
    assert(ls.take(0) =~= Seq::<Seq<char>>::empty());
    assert(names(result@) =~= Seq::<Seq<char>>::empty());
    while k < bounds.len()
        invariant
            k <= bounds@.len(),
            bounds@.len() == ls.len(),
            ls == lines(v@),
            v@ == out.stdout@,
            forall|j: int|
                0 <= j < bounds@.len() ==> {
                    &&& (#[trigger] bounds@[j]).0 <= bounds@[j].1 <= v@.len()
                    &&& v@.subrange(bounds@[j].0 as int, bounds@[j].1 as int) == ls[j]
                },
            names(result@) == nonempty_trimmed(ls.take(k as int)),
        decreases bounds@.len() - k,
    {
        let (lo, hi) = bounds[k];
        let (a, b) = trim_bounds(&v, lo, hi);
        assert(ls.take(k + 1).drop_last() =~= ls.take(k as int));
        if a < b {
            let line = string_of(&v, a, b);
            let ghost before = names(result@);
            let ghost lv = line@;
            result.push(line);
            assert(names(result@) =~= before.push(lv));
        }
        k += 1;
    }
    assert(ls.take(ls.len() as int) =~= ls);
    result
}

// ---------- Docker ----------

/// The three kinds of `docker system df` rows a cleanup reports.
#[derive(Debug, Clone, Copy, PartialEq, Eq, Structural)]
pub enum DfKind {
    Images,
    BuildCache,
    Volumes,
}

pub open spec fn has_text(s: Seq<char>, t: Seq<char>) -> bool {
    find_from_spec(s, t, 0) is Some
}

/// The row kind of a `docker system df --format '{{json .}}'` line.
pub open spec fn df_kind_of(line: Seq<char>) -> Option<DfKind> {
    if has_text(line, "\"Type\":\"Images\""@) {
        Some(DfKind::Images)
    } else if has_text(line, "\"Type\":\"Build Cache\""@) {
        Some(DfKind::BuildCache)
    } else if has_text(line, "\"Type\":\"Local Volumes\""@) {
        Some(DfKind::Volumes)
    } else {
        None
    }
}

fn text_contains(s: &str, t: &str) -> (r: bool)
    ensures
        r == has_text(s@, t@),
{
    let v = chars_of(s);
    let w = chars_of(t);
    find_from(&v, &w, 0).is_some()
}

pub fn df_kind(line: &str) -> (r: Option<DfKind>)
    ensures
        r == df_kind_of(line@),
{
    if text_contains(line, "\"Type\":\"Images\"") {
        Some(DfKind::Images)
    } else if text_contains(line, "\"Type\":\"Build Cache\"") {
        Some(DfKind::BuildCache)
    } else if text_contains(line, "\"Type\":\"Local Volumes\"") {
        Some(DfKind::Volumes)
    } else {
        None
    }
}

/// Whether `c` belongs to the number of a human-readable size (an ASCII digit or a
/// dot).
pub open spec fn is_size_digit(c: char) -> bool {
    ('0' <= c && c <= '9') || c == '.'
}

/// The byte multiplier of a `docker system df` size unit (powers of 1000); no unit
/// means bytes.
pub open spec fn size_unit(u: Seq<char>) -> Option<u64> {
    if u == "B"@ || u.len() == 0 {
        Some(1)
    } else if u == "kB"@ || u == "KB"@ {
        Some(1_000)
    } else if u == "MB"@ {
        Some(1_000_000)
    } else if u == "GB"@ {
        Some(1_000_000_000)
    } else if u == "TB"@ {
        Some(1_000_000_000_000)
    } else {
        None
    }
}

/// A human-readable size (`1.5GB`, `0B`, `100kB`) taken apart: its digits and dots,
/// in order, and the multiplier of the rest, trimmed; `None` when the text is blank
/// or the unit unknown. The number itself is read by the caller.
pub open spec fn size_parts(s: Seq<char>) -> Option<(Seq<char>, u64)> {
    let t = trim(s);
    if t.len() == 0 {
        None
    } else {
        match size_unit(trim(t.filter(|c: char| !is_size_digit(c)))) {
            Some(m) => Some((t.filter(|c: char| is_size_digit(c)), m)),
            None => None,
        }
    }
}

fn unit_multiplier(u: &str) -> (r: Option<u64>)
    ensures
        r == size_unit(u@),
{
    if str_eq(u, "B") || u.unicode_len() == 0 {
        Some(1)
    } else if str_eq(u, "kB") || str_eq(u, "KB") {
        Some(1_000)
    } else if str_eq(u, "MB") {
        Some(1_000_000)
    } else if str_eq(u, "GB") {
        Some(1_000_000_000)
    } else if str_eq(u, "TB") {
        Some(1_000_000_000_000)
    } else {
        None
    }
}

/// Taken-apart size parts as plain values.
pub open spec fn parts_view(r: Option<(String, u64)>) -> Option<(Seq<char>, u64)> {
    match r {
        Some((n, m)) => Some((n@, m)),
        None => None,
    }
}

/// Takes a human-readable size apart (see `size_parts`).
pub fn human_size_parts(s: &str) -> (r: Option<(String, u64)>)
    ensures
        parts_view(r) == size_parts(s@),
{
    let t = trim_string(s);
    let v = chars_of(t.as_str());
    if v.len() == 0 {
        return None;
    }
    let ghost digit = |c: char| is_size_digit(c);
    let ghost other = |c: char| !is_size_digit(c);
    let mut num = String::new();
    let mut unit = String::new();
    let mut i: usize = 0;
    while i < v.len()
        invariant
            i <= v@.len(),
            v@ == t@,
            digit == (|c: char| is_size_digit(c)),
            other == (|c: char| !is_size_digit(c)),
            num@ == v@.take(i as int).filter(digit),
            unit@ == v@.take(i as int).filter(other),
        decreases v@.len() - i,
    {
        let c = v[i];
        proof {
            reveal(Seq::filter);
            assert(v@.take(i as int + 1).drop_last() =~= v@.take(i as int));
            assert(v@.take(i as int + 1).last() == c);
        }
        let is_digit = ('0' <= c && c <= '9') || c == '.';
        assert(digit(c) == is_digit && other(c) == !is_digit);
        if is_digit {
            push_char(&mut num, c);
            assert(v@.take(i as int + 1).filter(digit) == v@.take(i as int).filter(digit).push(c));
            assert(v@.take(i as int + 1).filter(other) == v@.take(i as int).filter(other));
        } else {
            push_char(&mut unit, c);
            assert(v@.take(i as int + 1).filter(digit) == v@.take(i as int).filter(digit));
            assert(v@.take(i as int + 1).filter(other) == v@.take(i as int).filter(other).push(c));
        }
        i += 1;
    }
    assert(v@.take(v@.len() as int) =~= v@);
    let u = trim_string(unit.as_str());
    match unit_multiplier(u.as_str()) {
        Some(m) => Some((num, m)),
        None => None,
    }
}

/// The text between the quotes after `"key":"` in `s`, at its first occurrence.
pub open spec fn quoted_value(s: Seq<char>, key: Seq<char>) -> Option<Seq<char>> {
    let needle = seq!['"'] + key + seq!['"', ':', '"'];
    match find_from_spec(s, needle, 0) {
        None => None,
        Some(i) => {
            let rest = s.skip(i + needle.len());
            match find_from_spec(rest, seq!['"'], 0) {
                None => None,
                Some(e) => Some(rest.take(e)),
            }
        },
    }
}

pub fn extract_quoted(s: &str, key: &str) -> (r: Option<String>)
    ensures
        r matches Some(x) ==> quoted_value(s@, key@) == Some(x@),
        r is None ==> quoted_value(s@, key@) is None,
{
    let v = chars_of(s);
    let mut nd: Vec<char> = Vec::new();
    nd.push('"');
    let kc = chars_of(key);
    let mut j: usize = 0;
    while j < kc.len()
        invariant
            j <= kc@.len(),
            nd@ == seq!['"'] + kc@.take(j as int),
        decreases kc@.len() - j,
    {
        nd.push(kc[j]);
        assert(kc@.take(j + 1) =~= kc@.take(j as int).push(kc@[j as int]));
        j += 1;
    }
    assert(kc@.take(kc@.len() as int) =~= kc@);
    nd.push('"');
    nd.push(':');
    nd.push('"');
    assert(nd@ =~= seq!['"'] + key@ + seq!['"', ':', '"']);
    let i = match find_from(&v, &nd, 0) {
        None => {
            return None;
        },
        Some(i) => i,
    };
    proof {
        lemma_find_in_range(v@, nd@, 0);
    }
    let vl = v.len();
    assert(i + nd@.len() <= vl);
    let ndl = nd.len();
    let start = i + ndl;
    let rest = string_of(&v, start, v.len());
    assert(rest@ =~= s@.skip(start as int));
    let rc = chars_of(rest.as_str());
    let q = vec!['"'];
    assert(q@ =~= seq!['"']);
    let e = match find_from(&rc, &q, 0) {
        None => {
            return None;
        },
        Some(e) => e,
    };
    proof {
        lemma_find_in_range(rc@, q@, 0);
    }
    let x = string_of(&rc, 0, e);
    assert(x@ =~= rest@.take(e as int));
    Some(x)
}

proof fn lemma_find_in_range(s: Seq<char>, t: Seq<char>, from: int)
    ensures
        find_from_spec(s, t, from) matches Some(i) ==> from <= i && i + t.len() <= s.len(),
    decreases s.len() + 1 - from,
{
    if !(from < 0 || from + t.len() > s.len()) && s.subrange(from, from + t.len()) != t {
        lemma_find_in_range(s, t, from + 1);
    }
}

pub open spec fn df_placeholder(kind: DfKind) -> Seq<char> {
    match kind {
        DfKind::Images => "<docker:images>"@,
        DfKind::BuildCache => "<docker:build-cache>"@,
        DfKind::Volumes => "<docker:volumes>"@,
    }
}

/// The placeholder item of a docker row of `size` bytes; none when it is empty.
pub fn docker_item(kind: DfKind, size: u64) -> (r: Option<CleanItem>)
    ensures
        size == 0 ==> r is None,
        size > 0 ==> (r matches Some(item) && item.path@ == df_placeholder(kind) && item.size == size
            && item.category_id@ == "docker"@ && item.category_label@ == "Docker images/build/volumes"@
            && item.risk == RiskLevel::Review),
{
    if size == 0 {
        return None;
    }
    let p = match kind {
        DfKind::Images => "<docker:images>",
        DfKind::BuildCache => "<docker:build-cache>",
        DfKind::Volumes => "<docker:volumes>",
    };
    Some(CleanItem {
        category_id: String::from_str("docker"),
        category_label: String::from_str("Docker images/build/volumes"),
        path: String::from_str(p),
        size,
        risk: RiskLevel::Review,
    })
}

/// The size given for row `k`; a row without one has none.
pub open spec fn size_at(sizes: Seq<Option<u64>>, k: int) -> Option<u64> {
    if 0 <= k < sizes.len() {
        sizes[k]
    } else {
        None
    }
}

/// The docker rows offered, as `(placeholder, size)`, in line order: each line of a
/// known kind whose size was read and is not zero.
pub open spec fn df_rows(lines: Seq<Seq<char>>, sizes: Seq<Option<u64>>, n: nat) -> Seq<(Seq<char>, u64)>
    decreases n,
{
    if n == 0 {
        seq![]
    } else {
        let k = n - 1;
        let p = df_rows(lines, sizes, (n - 1) as nat);
        match (df_kind_of(lines[k]), size_at(sizes, k)) {
            (Some(kind), Some(sz)) => if sz > 0 {
                p.push((df_placeholder(kind), sz))
            } else {
                p
            },
            _ => p,
        }
    }
}

/// The docker items of the `docker system df` rows, `sizes[k]` being the byte size
/// read from row `k` (none when it could not be read): one placeholder item per
/// offered row (see `df_rows`), in order.
pub fn docker_items_from(lines: &Vec<String>, sizes: &Vec<Option<u64>>) -> (r: Vec<CleanItem>)
    ensures
        r@.len() == df_rows(names(lines@), sizes@, lines@.len()).len(),
        forall|k: int|
            0 <= k < r@.len() ==> {
                &&& (#[trigger] r@[k]).path@ == df_rows(names(lines@), sizes@, lines@.len())[k].0
                &&& r@[k].size == df_rows(names(lines@), sizes@, lines@.len())[k].1
                &&& r@[k].category_id@ == "docker"@
                &&& r@[k].category_label@ == "Docker images/build/volumes"@
                &&& r@[k].risk == RiskLevel::Review
            },
{
    let ghost ls = names(lines@);
    let mut items: Vec<CleanItem> = Vec::new();
    let mut i: usize = 0;
    while i < lines.len()
        invariant
            i <= lines@.len(),
            ls == names(lines@),
            items@.len() == df_rows(ls, sizes@, i as nat).len(),
            forall|k: int|
                0 <= k < items@.len() ==> {
                    &&& (#[trigger] items@[k]).path@ == df_rows(ls, sizes@, i as nat)[k].0
                    &&& items@[k].size == df_rows(ls, sizes@, i as nat)[k].1
                    &&& items@[k].category_id@ == "docker"@
                    &&& items@[k].category_label@ == "Docker images/build/volumes"@
                    &&& items@[k].risk == RiskLevel::Review
                },
        decreases lines@.len() - i,
    {
        let ghost before = df_rows(ls, sizes@, i as nat);
        let ghost old_items = items@;
        assert(ls[i as int] == lines@[i as int]@);
        let size = if i < sizes.len() {
            sizes[i]
        } else {
            None
        };
        match df_kind(lines[i].as_str()) {
            Some(kind) => match size {
                Some(sz) => match docker_item(kind, sz) {
                    Some(item) => {
                        items.push(item);
                        assert(items@.drop_last() =~= old_items);
                    },
                    None => {},
                },
                None => {},
            },
            None => {},
        }
        i += 1;
        proof {
            let now = df_rows(ls, sizes@, i as nat);
            assert forall|k: int| 0 <= k < items@.len() implies {
                &&& (#[trigger] items@[k]).path@ == now[k].0
                &&& items@[k].size == now[k].1
                &&& items@[k].category_id@ == "docker"@
                &&& items@[k].category_label@ == "Docker images/build/volumes"@
                &&& items@[k].risk == RiskLevel::Review
            } by {
                if k < old_items.len() {
                    assert(items@[k] == old_items[k]);
                    assert(now[k] == before[k]);
                }
            }
        }
    }
    items
}

/// The app Telegram's media folders wait for.
pub fn telegram_app() -> (r: &'static str)
    ensures
        r@ == "Telegram"@,
{
    "Telegram"
}

/// The app Firefox's cache folders wait for.
pub fn firefox_app() -> (r: &'static str)
    ensures
        r@ == "Firefox"@,
{
    "Firefox"
}

/// Splits the folders of one app by whether the app is running: all offered when it
/// is not, all skipped (first) when it is.
pub fn gate_by_app(paths: Vec<String>, app_running: bool) -> (r: (Vec<String>, Vec<String>))
    ensures
        app_running ==> r.0@.len() == 0 && r.1@ == paths@,
        !app_running ==> r.0@ == paths@ && r.1@.len() == 0,
{
    if app_running {
        (Vec::new(), paths)
    } else {
        (paths, Vec::new())
    }
}

/// The app orphans among `candidates`: none at all (`None`) when no installed app is
/// known, since Spotlight is then likely off and every entry would look orphaned;
/// else the candidates that belong to no installed app.
pub fn app_orphan_candidates(candidates: &Vec<CleanItem>, installed: &Vec<String>) -> (r: Option<Vec<CleanItem>>)
    ensures
        installed@.len() == 0 <==> r is None,
        r matches Some(v) ==> v@ == orphan_items(candidates@, names(installed@)),
{
    if installed.len() == 0 {
        return None;
    }
    Some(orphans(candidates, installed))
}

/// The report of `docker system prune`: every item removed when it succeeded, every
/// item failed otherwise.
pub open spec fn prune_report(items: Seq<CleanItem>, ok: bool) -> (Seq<Seq<char>>, Seq<(Seq<char>, Seq<char>)>) {
    if ok {
        (items.map_values(|i: CleanItem| i.path@), Seq::<(Seq<char>, Seq<char>)>::empty())
    } else {
        (Seq::<Seq<char>>::empty(), items.map_values(|i: CleanItem| (i.path@, "docker system prune failed"@)))
    }
}

/// The rows of a `docker system df --format '{{json .}}'` answer: its non-empty
/// trimmed lines when the command succeeded, `None` when it failed (the daemon did
/// not answer).
pub fn df_lines_from(out: &CommandOutput) -> (r: Option<Vec<String>>)
    ensures
        r is None <==> !out.success,
        r matches Some(ls) ==> names(ls@) == answer_lines(true, out.stdout@),
        r matches Some(ls) ==> forall|k: int| 0 <= k < ls@.len() ==> (#[trigger] ls@[k])@.len() > 0,
{
    if !out.success {
        return None;
    }
    let ls = answer_lines_of(out);
    proof {
        lemma_nonempty_trimmed(lines(out.stdout@));
        assert forall|k: int| 0 <= k < ls@.len() implies (#[trigger] ls@[k])@.len() > 0 by {
            assert(names(ls@)[k] == ls@[k]@);
        }
    }
    Some(ls)
}

/// The `docker` arguments that list disk usage, one JSON row per kind.
pub fn df_args() -> (r: Vec<&'static str>)
    ensures
        arg_texts(r@) == df_args_text(),
{
    let r = vec!["system", "df", "--format", "{{json .}}"];
    assert(arg_texts(r@) =~= df_args_text());
    r
}

/// The `docker` arguments that prune images, build cache and volumes.
pub fn prune_args() -> (r: Vec<&'static str>)
    ensures
        arg_texts(r@) == prune_args_text(),
{
    let r = vec!["system", "prune", "-af", "--volumes"];
    assert(arg_texts(r@) =~= prune_args_text());
    r
}

/// The report of pruning for `items`: all removed when the prune succeeded, all
/// failed with its message when it did not.
pub fn prune_outcome(items: &[CleanItem], ok: bool) -> (r: ExecReport)
    ensures
        report_view(r) == prune_report(items@, ok),
        r.skipped_running_app is None,
{
    let mut report = ExecReport::new();
    let mut i: usize = 0;
    assert(report_view(report) =~= prune_report(items@.take(0), ok));
    while i < items.len()
        invariant
            i <= items@.len(),
            report.skipped_running_app is None,
            report_view(report) == prune_report(items@.take(i as int), ok),
        decreases items@.len() - i,
    {
        let ghost t0 = items@.take(i as int);
        let ghost t1 = items@.take(i + 1);
        assert(t1 =~= t0.push(items@[i as int]));
        if ok {
            report.removed_paths.push(items[i].path.clone());
            assert(t1.map_values(|i: CleanItem| i.path@) =~= t0.map_values(|i: CleanItem| i.path@).push(items@[i as int].path@));
        } else {
            report.failed.push((items[i].path.clone(), String::from_str("docker system prune failed")));
            assert(t1.map_values(|i: CleanItem| (i.path@, "docker system prune failed"@)) =~= t0.map_values(|i: CleanItem| (i.path@, "docker system prune failed"@)).push((items@[i as int].path@, "docker system prune failed"@)));
        }
        assert(report_view(report) =~= prune_report(items@.take(i + 1), ok));
        i += 1;
    }
    assert(items@.take(items@.len() as int) =~= items@);
    report
}

/// What `df_lines_from` makes of an answer `(ok, out)`.
pub open spec fn df_read(ok: bool, out: Seq<char>, r: Option<Vec<String>>) -> bool {
    &&& (r is None <==> !ok)
    &&& (r matches Some(ls) ==> names(ls@) == answer_lines(true, out))
}

impl<R: CommandRunner> Docker<R> {
    /// Whether the docker CLI is installed: the runner's answer to `which docker`.
    pub fn available(&self) -> (r: bool)
        ensures
            self.runner.which_answer("docker"@, r),
    {
        self.runner.which("docker")
    }

    /// The non-empty trimmed lines of `docker system df --format '{{json .}}'`
    /// (arguments from `df_args`, answer read by `df_lines_from`); `None` when the
    /// daemon does not answer.
    pub fn df_lines(&self) -> (r: Option<Vec<String>>)
        ensures
            r matches Some(ls) ==> forall|k: int| 0 <= k < ls@.len() ==> (#[trigger] ls@[k])@.len() > 0,
            exists|ok: bool, out: Seq<char>|
                #[trigger] self.runner.run_answer("docker"@, df_args_text(), ok, out) && df_read(ok, out, r),
    {
        let args = df_args();
        let out = self.runner.run("docker", args.as_slice());
        let r = df_lines_from(&out);
        assert(self.runner.run_answer("docker"@, df_args_text(), out.success, out.stdout@));
        assert(df_read(out.success, out.stdout@, r));
        r
    }

    /// Prunes images, build cache and volumes with one `docker system prune -af
    /// --volumes` (arguments from `prune_args`); refuses `EmptyTrash`; nothing runs
    /// for no items. The report is `prune_outcome` of the command's success.
    pub fn execute(&self, items: &[CleanItem], action: ExecAction) -> (r: Result<ExecReport, String>)
        ensures
            action == ExecAction::EmptyTrash ==> (r matches Err(m) && m@ == "docker provider does not accept EmptyTrash"@),
            action != ExecAction::EmptyTrash && items@.len() == 0 ==> (r matches Ok(rep) && report_view(rep) == prune_report(items@, true)),
            action != ExecAction::EmptyTrash && items@.len() > 0 ==> (r matches Ok(rep) && exists|ok: bool, out: Seq<char>|
                #[trigger] self.runner.run_answer("docker"@, prune_args_text(), ok, out) && report_view(rep)
                    == prune_report(items@, ok)),
            action != ExecAction::EmptyTrash ==> (r matches Ok(rep) && rep.skipped_running_app is None),
    {
        if action == ExecAction::EmptyTrash {
            return Err(String::from_str("docker provider does not accept EmptyTrash"));
        }
        if items.len() == 0 {
            return Ok(prune_outcome(items, true));
        }
        let args = prune_args();
        let out = self.runner.run("docker", args.as_slice());
        let rep = prune_outcome(items, out.success);
        assert(self.runner.run_answer("docker"@, prune_args_text(), out.success, out.stdout@));
        Ok(rep)
    }
}

proof fn lemma_nonempty_trimmed(ls: Seq<Seq<char>>)
    ensures
        forall|k: int| 0 <= k < nonempty_trimmed(ls).len() ==> (#[trigger] nonempty_trimmed(ls)[k]).len() > 0,
    decreases ls.len(),
{
    if ls.len() > 0 {
        lemma_nonempty_trimmed(ls.drop_last());
        let p = nonempty_trimmed(ls.drop_last());
        let s = nonempty_trimmed(ls);
        assert forall|k: int| 0 <= k < s.len() implies (#[trigger] s[k]).len() > 0 by {
            if k < p.len() {
                assert(s[k] == p[k]);
            }
        }
    }
}

// ---------- Orphaned Application Support ----------

/// The texts of `s` without repeats, each where it first occurs.
pub open spec fn first_occurrences(s: Seq<Seq<char>>) -> Seq<Seq<char>>
    decreases s.len(),
{
    if s.len() == 0 {
        Seq::<Seq<char>>::empty()
    } else {
        let p = first_occurrences(s.drop_last());
        if p.contains(s.last()) {
            p
        } else {
            p.push(s.last())
        }
    }
}

/// `ids` are the bundle ids read for the apps Spotlight listed: `runner` may answer
/// `(apps_ok, apps_out)` to the `mdfind` query, `outs[k]` to `defaults read
/// <app k>/Contents/Info CFBundleIdentifier` for the `k`-th listed app, and the ids are
/// the non-empty answers, without repeats, in order.
pub open spec fn ids_answered<R: CommandRunner>(
    runner: R,
    apps_ok: bool,
    apps_out: Seq<char>,
    outs: Seq<(bool, Seq<char>)>,
    ids: Seq<Seq<char>>,
) -> bool {
    &&& runner.run_answer("mdfind"@, app_bundles_text(), apps_ok, apps_out)
    &&& outs.len() == answer_lines(apps_ok, apps_out).len()
    &&& forall|k: int|
        0 <= k < outs.len() ==> runner.run_answer(
            "defaults"@,
            bundle_id_text(answer_lines(apps_ok, apps_out)[k] + "/Contents/Info"@),
            (#[trigger] outs[k]).0,
            outs[k].1,
        )
    &&& ids == first_occurrences(present_answers(outs))
}

/// Command answers as plain values.
pub open spec fn outputs_view(v: Seq<CommandOutput>) -> Seq<(bool, Seq<char>)> {
    Seq::new(v.len(), |i: int| (v[i].success, v[i].stdout@))
}

/// The `mdfind` arguments that list the installed app bundles.
pub fn app_bundles_query() -> (r: Vec<&'static str>)
    ensures
        arg_texts(r@) == app_bundles_text(),
{
    let r = vec!["kMDItemContentType == 'com.apple.application-bundle'"];
    assert(arg_texts(r@) =~= app_bundles_text());
    r
}

/// The `Info` plist (without extension) of the app bundle at `app`.
pub fn info_plist_of(app: &str) -> (r: String)
    ensures
        r@ == app@ + "/Contents/Info"@,
{
    let mut plist = String::from_str(app);
    append_str(&mut plist, "/Contents/Info");
    plist
}

/// The `defaults` arguments that read the bundle id in `plist`.
pub fn bundle_id_args(plist: &str) -> (r: Vec<&str>)
    ensures
        arg_texts(r@) == bundle_id_text(plist@),
{
    let r = vec!["read", plist, "CFBundleIdentifier"];
    assert(arg_texts(r@) =~= bundle_id_text(plist@));
    r
}

/// The bundle ids the `defaults` answers name, one per answer that succeeded with
/// some text (trimmed), each once, in order of first appearance.
pub fn bundle_ids_from(outs: &Vec<CommandOutput>) -> (r: Vec<String>)
    ensures
        names(r@) == first_occurrences(present_answers(outputs_view(outs@))),
        forall|a: int, b: int| 0 <= a < b < r@.len() ==> (#[trigger] r@[a])@ != (#[trigger] r@[b])@,
        forall|k: int| 0 <= k < r@.len() ==> (#[trigger] r@[k])@.len() > 0,
{
    let ghost all = outputs_view(outs@);
    let mut ids: Vec<String> = Vec::new();
    let mut k: usize = 0;
    assert(all.take(0) =~= Seq::<(bool, Seq<char>)>::empty());
    while k < outs.len()
        invariant
            k <= outs@.len(),
            all == outputs_view(outs@),
            names(ids@) == first_occurrences(present_answers(all.take(k as int))),
            forall|a: int, b: int| 0 <= a < b < ids@.len() ==> (#[trigger] ids@[a])@ != (#[trigger] ids@[b])@,
            forall|x: int| 0 <= x < ids@.len() ==> (#[trigger] ids@[x])@.len() > 0,
        decreases outs@.len() - k,
    {
        let ghost before = all.take(k as int);
        let ghost now = all.take(k + 1);
        assert(now.drop_last() =~= before);
        assert(now.last() == (outs@[k as int].success, outs@[k as int].stdout@));
        match answer_of(&outs[k]) {
            Some(id) => {
                assert(present_answers(now) == present_answers(before).push(id@));
                assert(present_answers(now).drop_last() =~= present_answers(before));
                let mut present = false;
                let mut j: usize = 0;
                while j < ids.len()
                    invariant
                        j <= ids@.len(),
                        present ==> names(ids@).contains(id@),
                        !present ==> forall|x: int| 0 <= x < j ==> (#[trigger] ids@[x])@ != id@,
                    decreases ids@.len() - j,
                {
                    if str_eq(ids[j].as_str(), id.as_str()) {
                        present = true;
                        assert(names(ids@)[j as int] == id@);
                    }
                    j += 1;
                }
                proof {
                    if !present && names(ids@).contains(id@) {
                        let x = choose|x: int| 0 <= x < names(ids@).len() && names(ids@)[x] == id@;
                        assert(ids@[x]@ == id@);
                    }
                }
                if !present {
                    let ghost pn = names(ids@);
                    ids.push(id);
                    assert(names(ids@) =~= pn.push(id@));
                }
                assert(names(ids@) == first_occurrences(present_answers(now)));
            },
            None => {
                assert(present_answers(now) == present_answers(before));
            },
        }
        k += 1;
    }
    assert(all.take(outs@.len() as int) =~= all);
    ids
}

impl<R: CommandRunner> AppOrphans<R> {
    /// The bundle ids of the installed apps: each app that Spotlight lists (`mdfind`,
    /// arguments from `app_bundles_query`) whose `CFBundleIdentifier` `defaults` can
    /// read (arguments from `bundle_id_args` of `info_plist_of` the app), as
    /// `bundle_ids_from` makes of the answers; none when `mdfind` fails.
    pub fn installed_bundle_ids(&self) -> (r: Vec<String>)
        ensures
            forall|a: int, b: int| 0 <= a < b < r@.len() ==> (#[trigger] r@[a])@ != (#[trigger] r@[b])@,
            forall|k: int| 0 <= k < r@.len() ==> (#[trigger] r@[k])@.len() > 0,
            exists|apps_ok: bool, apps_out: Seq<char>, outs: Seq<(bool, Seq<char>)>|
                #[trigger] ids_answered(self.runner, apps_ok, apps_out, outs, names(r@)),
    {
        let q = app_bundles_query();
        let out = self.runner.run("mdfind", q.as_slice());
        let apps = answer_lines_of(&out);
        let mut outs: Vec<CommandOutput> = Vec::new();
        let mut k: usize = 0;
        assert(self.runner.run_answer("mdfind"@, app_bundles_text(), out.success, out.stdout@));
        while k < apps.len()
            invariant
                k <= apps@.len(),
                outs@.len() == k,
                names(apps@) == answer_lines(out.success, out.stdout@),
                forall|j: int|
                    0 <= j < k ==> self.runner.run_answer(
                        "defaults"@,
                        bundle_id_text(answer_lines(out.success, out.stdout@)[j] + "/Contents/Info"@),
                        (#[trigger] outs@[j]).success,
                        outs@[j].stdout@,
                    ),
            decreases apps@.len() - k,
        {
            let plist = info_plist_of(apps[k].as_str());
            let args = bundle_id_args(plist.as_str());
            let o = self.runner.run("defaults", args.as_slice());
            assert(names(apps@)[k as int] == apps@[k as int]@);
            outs.push(o);
            assert(outs@[k as int] == o);
            k += 1;
        }
        let ids = bundle_ids_from(&outs);
        proof {
            let ov = outputs_view(outs@);
            assert(ov.len() == answer_lines(out.success, out.stdout@).len());
            assert forall|j: int| 0 <= j < ov.len() implies self.runner.run_answer(
                "defaults"@,
                bundle_id_text(answer_lines(out.success, out.stdout@)[j] + "/Contents/Info"@),
                (#[trigger] ov[j]).0,
                ov[j].1,
            ) by {
                assert(ov[j] == (outs@[j].success, outs@[j].stdout@));
            }
            assert(ids_answered(self.runner, out.success, out.stdout@, ov, names(ids@)));
        }
        ids
    }
}

/// The candidates whose file name is not an installed bundle id, in order.
pub open spec fn orphan_items(candidates: Seq<CleanItem>, installed: Seq<Seq<char>>) -> Seq<CleanItem>
    decreases candidates.len(),
{
    if candidates.len() == 0 {
        Seq::<CleanItem>::empty()
    } else {
        let p = orphan_items(candidates.drop_last(), installed);
        match file_name(candidates.last().path@) {
            Some(n) => if installed.contains(n) {
                p
            } else {
                p.push(candidates.last())
            },
            None => p,
        }
    }
}

fn contains_name(v: &Vec<String>, s: &str) -> (r: bool)
    ensures
        r == names(v@).contains(s@),
{
    let mut i: usize = 0;
    while i < v.len()
        invariant
            i <= v@.len(),
            forall|k: int| 0 <= k < i ==> (#[trigger] v@[k])@ != s@,
        decreases v@.len() - i,
    {
        if str_eq(v[i].as_str(), s) {
            assert(names(v@)[i as int] == s@);
            return true;
        }
        i += 1;
    }
    proof {
        if names(v@).contains(s@) {
            let k = choose|k: int| 0 <= k < names(v@).len() && names(v@)[k] == s@;
            assert(v@[k]@ == s@);
        }
    }
    false
}

/// Keeps the Application Support entries that belong to no installed app.
pub fn orphans(candidates: &Vec<CleanItem>, installed: &Vec<String>) -> (r: Vec<CleanItem>)
    ensures
        r@ == orphan_items(candidates@, names(installed@)),
{
    let mut out: Vec<CleanItem> = Vec::new();
    let mut i: usize = 0;
    assert(candidates@.take(0) =~= Seq::<CleanItem>::empty());
    while i < candidates.len()
        invariant
            i <= candidates@.len(),
            out@ == orphan_items(candidates@.take(i as int), names(installed@)),
        decreases candidates@.len() - i,
    {
        assert(candidates@.take(i + 1).drop_last() =~= candidates@.take(i as int));
        assert(candidates@.take(i + 1).last() == candidates@[i as int]);
        match file_name_of(candidates[i].path.as_str()) {
            Some(n) => {
                if !contains_name(installed, n.as_str()) {
                    out.push(candidates[i].duplicate());
                }
            },
            None => {},
        }
        i += 1;
    }
    assert(candidates@.take(candidates@.len() as int) =~= candidates@);
    out
}

// ---------- Go caches, font and QuickLook caches ----------

/// The `go` arguments that print the environment variable `var`.
pub fn go_env_args(var: &str) -> (r: Vec<&str>)
    ensures
        arg_texts(r@) == go_env_text(var@),
{
    let r = vec!["env", var];
    assert(arg_texts(r@) =~= go_env_text(var@));
    r
}

/// The environment variables naming the Go caches, in the order asked.
pub fn go_cache_vars() -> (r: Vec<&'static str>)
    ensures
        arg_texts(r@) == seq!["GOCACHE"@, "GOMODCACHE"@],
{
    let r = vec!["GOCACHE", "GOMODCACHE"];
    assert(arg_texts(r@) =~= seq!["GOCACHE"@, "GOMODCACHE"@]);
    r
}

/// The answers that name something: the trimmed text of each command that
/// succeeded and printed some, in order.
pub fn present_roots(outs: &Vec<CommandOutput>) -> (r: Vec<String>)
    ensures
        names(r@) == present_answers(outputs_view(outs@)),
{
    let ghost all = outputs_view(outs@);
    let mut roots: Vec<String> = Vec::new();
    let mut k: usize = 0;
    assert(all.take(0) =~= Seq::<(bool, Seq<char>)>::empty());
    while k < outs.len()
        invariant
            k <= outs@.len(),
            all == outputs_view(outs@),
            names(roots@) == present_answers(all.take(k as int)),
        decreases outs@.len() - k,
    {
        assert(all.take(k + 1).drop_last() =~= all.take(k as int));
        assert(all.take(k + 1).last() == (outs@[k as int].success, outs@[k as int].stdout@));
        match answer_of(&outs[k]) {
            Some(p) => {
                let ghost pn = names(roots@);
                roots.push(p);
                assert(names(roots@) =~= pn.push(p@));
            },
            None => {},
        }
        k += 1;
    }
    assert(all.take(outs@.len() as int) =~= all);
    roots
}

/// Whether `outs` are answers `runner` may give to `go env GOCACHE` and `go env
/// GOMODCACHE`, in that order.
pub open spec fn go_envs_answered<R: CommandRunner>(runner: R, outs: Seq<(bool, Seq<char>)>) -> bool {
    &&& outs.len() == 2
    &&& runner.run_answer("go"@, go_env_text("GOCACHE"@), outs[0].0, outs[0].1)
    &&& runner.run_answer("go"@, go_env_text("GOMODCACHE"@), outs[1].0, outs[1].1)
}

impl<R: CommandRunner> GoCache<R> {
    /// Whether the go toolchain is installed: the runner's answer to `which go`.
    pub fn available(&self) -> (r: bool)
        ensures
            self.runner.which_answer("go"@, r),
    {
        self.runner.which("go")
    }

    /// The directories `go env GOCACHE` and `go env GOMODCACHE` report, in that
    /// order (arguments from `go_env_args` of `go_cache_vars`); a variable whose
    /// command fails or prints nothing is skipped (`present_roots`).
    pub fn cache_roots(&self) -> (r: Vec<String>)
        ensures
            exists|outs: Seq<(bool, Seq<char>)>|
                #[trigger] go_envs_answered(self.runner, outs) && names(r@) == present_answers(outs),
    {
        let vars = go_cache_vars();
        let mut outs: Vec<CommandOutput> = Vec::new();
        let mut k: usize = 0;
        while k < vars.len()
            invariant
                k <= vars@.len(),
                arg_texts(vars@) == seq!["GOCACHE"@, "GOMODCACHE"@],
                outs@.len() == k,
                forall|j: int|
                    0 <= j < k ==> self.runner.run_answer(
                        "go"@,
                        go_env_text(arg_texts(vars@)[j]),
                        (#[trigger] outs@[j]).success,
                        outs@[j].stdout@,
                    ),
            decreases vars@.len() - k,
        {
            let args = go_env_args(vars[k]);
            let out = self.runner.run("go", args.as_slice());
            assert(arg_texts(vars@)[k as int] == vars@[k as int]@);
            outs.push(out);
            assert(outs@[k as int] == out);
            k += 1;
        }
        let roots = present_roots(&outs);
        proof {
            let ov = outputs_view(outs@);
            assert(arg_texts(vars@).len() == 2);
            assert(vars@.len() == 2);
            assert(outs@.len() == 2);
            assert(arg_texts(vars@)[0] == "GOCACHE"@);
            assert(arg_texts(vars@)[1] == "GOMODCACHE"@);
            assert(self.runner.run_answer("go"@, go_env_text("GOCACHE"@), outs@[0].success, outs@[0].stdout@));
            assert(self.runner.run_answer("go"@, go_env_text("GOMODCACHE"@), outs@[1].success, outs@[1].stdout@));
            assert(go_envs_answered(self.runner, ov));
        }
        roots
    }
}

/// The non-empty trimmed answers of the commands that succeeded, in order.
pub open spec fn present_answers(outs: Seq<(bool, Seq<char>)>) -> Seq<Seq<char>>
    decreases outs.len(),
{
    if outs.len() == 0 {
        Seq::<Seq<char>>::empty()
    } else {
        let p = present_answers(outs.drop_last());
        match trimmed_answer(outs.last().0, outs.last().1) {
            Some(t) => p.push(t),
            None => p,
        }
    }
}

/// The text of an optional owned string.
pub open spec fn opt_string_view(s: Option<String>) -> Option<Seq<char>> {
    match s {
        Some(x) => Some(x@),
        None => None,
    }
}

/// The `getconf` arguments that print the per-user Darwin cache directory.
pub fn darwin_cache_args() -> (r: Vec<&'static str>)
    ensures
        arg_texts(r@) == darwin_cache_text(),
{
    let r = vec!["DARWIN_USER_CACHE_DIR"];
    assert(arg_texts(r@) =~= darwin_cache_text());
    r
}

impl<R: CommandRunner> FontQuicklookCaches<R> {
    /// `getconf DARWIN_USER_CACHE_DIR`, trimmed; none when it fails or is empty.
    pub fn darwin_user_cache_dir(&self) -> (r: Option<String>)
        ensures
            exists|ok: bool, out: Seq<char>|
                #[trigger] self.runner.run_answer("getconf"@, darwin_cache_text(), ok, out) && opt_string_view(r)
                    == trimmed_answer(ok, out),
    {
        let args = darwin_cache_args();
        let out = self.runner.run("getconf", args.as_slice());
        let r = answer_of(&out);
        assert(self.runner.run_answer("getconf"@, darwin_cache_text(), out.success, out.stdout@));
        assert(opt_string_view(r) == trimmed_answer(out.success, out.stdout@));
        r
    }
}

/// The cache directories of the font and QuickLook category: the user QuickLook
/// thumbnail cache and font registry under `home`, and the QuickLook cache under the
/// per-user Darwin cache dir.
pub open spec fn font_cache_paths(home: Option<Seq<char>>, darwin: Option<Seq<char>>) -> Seq<Seq<char>> {
    (match home {
        Some(h) => seq![
            join_text(h, "Library/Caches/com.apple.QuickLook.thumbnailcache"@),
            join_text(h, "Library/Caches/com.apple.FontRegistry"@),
        ],
        None => Seq::<Seq<char>>::empty(),
    }) + (match darwin {
        Some(d) => seq![join_text(d, "com.apple.QuickLook.thumbnailcache"@)],
        None => Seq::<Seq<char>>::empty(),
    })
}

pub fn font_cache_candidates(home: Option<&str>, darwin: Option<&str>) -> (r: Vec<String>)
    ensures
        names(r@) == font_cache_paths(
            match home {
                Some(h) => Some(h@),
                None => None,
            },
            match darwin {
                Some(d) => Some(d@),
                None => None,
            },
        ),
{
    let mut out: Vec<String> = Vec::new();
    match home {
        Some(h) => {
            out.push(join_path(h, "Library/Caches/com.apple.QuickLook.thumbnailcache"));
            out.push(join_path(h, "Library/Caches/com.apple.FontRegistry"));
        },
        None => {},
    }
    match darwin {
        Some(d) => out.push(join_path(d, "com.apple.QuickLook.thumbnailcache")),
        None => {},
    }
    assert(names(out@) =~= font_cache_paths(
        match home {
            Some(h) => Some(h@),
            None => None,
        },
        match darwin {
            Some(d) => Some(d@),
            None => None,
        },
    ));
    out
}

// ---------- screenshots ----------

/// The text of an optional string.
pub open spec fn opt_view(s: Option<&str>) -> Option<Seq<char>> {
    match s {
        Some(x) => Some(x@),
        None => None,
    }
}

/// `~/rest` and `~` resolved against `home`; anything else as is.
pub open spec fn tilde_expanded(s: Seq<char>, home: Option<Seq<char>>) -> Seq<char> {
    match home {
        Some(h) => if starts_with(s, "~/"@) {
            join_text(h, s.skip(2))
        } else if s == "~"@ {
            h
        } else {
            s
        },
        None => s,
    }
}

pub fn expand_tilde(s: &str, home: Option<&str>) -> (r: String)
    ensures
        r@ == tilde_expanded(s@, match home {
            Some(h) => Some(h@),
            None => None,
        }),
{
    proof {
        reveal_strlit("~/");
    }
    match home {
        None => String::from_str(s),
        Some(h) => {
            if str_starts_with(s, "~/") {
                let v = chars_of(s);
                let rest = string_of(&v, 2, v.len());
                assert(rest@ =~= s@.skip(2));
                join_path(h, rest.as_str())
            } else if str_eq(s, "~") {
                String::from_str(h)
            } else {
                String::from_str(s)
            }
        },
    }
}

/// Whether a file name looks like a macOS screenshot.
pub open spec fn is_screenshot_name_text(name: Seq<char>) -> bool {
    starts_with(name, "Screenshot "@) || starts_with(name, "Screen Shot "@)
}

pub fn is_screenshot_name(name: &str) -> (r: bool)
    ensures
        r == is_screenshot_name_text(name@),
{
    str_starts_with(name, "Screenshot ") || str_starts_with(name, "Screen Shot ")
}

/// `r` is the answer with `~` resolved against `home`, or none without an answer.
pub open spec fn configured_from(answer: Option<Seq<char>>, home: Option<&str>, r: Option<String>) -> bool {
    match answer {
        Some(t) => r matches Some(d) && d@ == tilde_expanded(t, opt_view(home)),
        None => r is None,
    }
}

/// The `defaults` arguments that read the screenshot folder setting.
pub fn screenshot_location_args() -> (r: Vec<&'static str>)
    ensures
        arg_texts(r@) == screenshot_location_text(),
{
    let r = vec!["read", "com.apple.screencapture", "location"];
    assert(arg_texts(r@) =~= screenshot_location_text());
    r
}

/// The screenshot folder a `defaults` answer sets, with `~` resolved against `home`;
/// none when the command failed or printed nothing.
pub fn configured_from_answer(out: &CommandOutput, home: Option<&str>) -> (r: Option<String>)
    ensures
        configured_from(trimmed_answer(out.success, out.stdout@), home, r),
{
    match answer_of(out) {
        Some(t) => {
            let d = expand_tilde(t.as_str(), home);
            assert(d@ == tilde_expanded(t@, opt_view(home)));
            Some(d)
        },
        None => None,
    }
}

/// The folder old screenshots are looked for in: the configured one when it is a
/// directory, else `~/Desktop` when that is a directory, else none. Each folder comes
/// with whether it is a directory.
pub fn screenshot_folder(configured: Option<(String, bool)>, desktop: Option<(String, bool)>) -> (r: Option<String>)
    ensures
        r == (match configured {
            Some((d, true)) => Some(d),
            _ => match desktop {
                Some((d, true)) => Some(d),
                _ => None,
            },
        }),
{
    if let Some((d, is_dir)) = configured {
        if is_dir {
            return Some(d);
        }
    }
    match desktop {
        Some((d, true)) => Some(d),
        _ => None,
    }
}

impl<R: CommandRunner> ScreenshotsOld<R> {
    /// The screenshot folder set in `defaults read com.apple.screencapture location`,
    /// with `~` resolved; none when unset (the caller then checks that it is a
    /// directory, and falls back to `~/Desktop`).
    pub fn configured_dir(&self, home: Option<&str>) -> (r: Option<String>)
        ensures
            exists|ok: bool, out: Seq<char>|
                #[trigger] self.runner.run_answer("defaults"@, screenshot_location_text(), ok, out) && configured_from(
                    trimmed_answer(ok, out),
                    home,
                    r,
                ),
    {
        let args = screenshot_location_args();
        let out = self.runner.run("defaults", args.as_slice());
        assert(self.runner.run_answer("defaults"@, screenshot_location_text(), out.success, out.stdout@));
        configured_from_answer(&out, home)
    }
}

// ---------- cargo ----------

/// The cargo cache subdirectories the cargo category may remove.
pub open spec fn cargo_subdirs() -> Seq<Seq<char>> {
    seq!["registry/cache"@, "registry/src"@, "git/db"@, "git/checkouts"@]
}

/// Whether `path` is, component for component, `~/.cargo/<one of the subdirs>`.
pub open spec fn safe_cargo_path(path: Seq<char>, home: Option<Seq<char>>) -> bool {
    match home {
        None => false,
        Some(h) => exists|i: int|
            0 <= i < cargo_subdirs().len() && path_components(path) == path_components(
                join_text(join_text(h, ".cargo"@), #[trigger] cargo_subdirs()[i]),
            ),
    }
}

pub fn is_safe_cargo_path(path: &str, home: Option<&str>) -> (r: bool)
    ensures
        r == safe_cargo_path(path@, match home {
            Some(h) => Some(h@),
            None => None,
        }),
{
    let h = match home {
        None => {
            return false;
        },
        Some(h) => h,
    };
    let cargo = join_path(h, ".cargo");
    let subs = vec!["registry/cache", "registry/src", "git/db", "git/checkouts"];
    assert(subs@.map_values(|s: &str| s@) =~= cargo_subdirs());
    let pk = components_of(path);
    let mut i: usize = 0;
    while i < subs.len()
        invariant
            i <= subs@.len(),
            subs@.map_values(|s: &str| s@) == cargo_subdirs(),
            home == Some(h),
            cargo@ == join_text(h@, ".cargo"@),
            pk.wf(),
            pk.key() == path_components(path@),
            forall|k: int| 0 <= k < i ==> path_components(path@) != path_components(join_text(cargo@, #[trigger] cargo_subdirs()[k])),
        decreases subs@.len() - i,
    {
        let target = join_path(cargo.as_str(), subs[i]);
        let tk = components_of(target.as_str());
        let c = compare_keys(&pk, &tk);
        proof {
            lemma_key_order(pk.key(), tk.key(), tk.key());
            assert(cargo_subdirs()[i as int] == subs@[i as int]@);
        }
        if c == 0 {
            assert(path_components(path@) == path_components(join_text(join_text(h@, ".cargo"@), cargo_subdirs()[i as int])));
            return true;
        }
        i += 1;
    }
    false
}

// ---------- categories gated by running apps ----------

/// The paths of the candidates whose app is not running, in order; `running[i]` is
/// what was answered for candidate `i`.
pub open spec fn not_running_paths(candidates: Seq<(String, String)>, running: Seq<bool>) -> Seq<String>
    decreases candidates.len(),
{
    if candidates.len() == 0 {
        Seq::<String>::empty()
    } else {
        let p = not_running_paths(candidates.drop_last(), running);
        if running[candidates.len() - 1] {
            p
        } else {
            p.push(candidates.last().0)
        }
    }
}

/// Keeps, in order, the candidate paths whose app is not running, `running[i]`
/// being the checker's answer for candidate `i`; each candidate is `(path, app)`.
pub fn paths_not_running(candidates: &Vec<(String, String)>, running: &Vec<bool>) -> (r: Vec<String>)
    requires
        running@.len() == candidates@.len(),
    ensures
        r@ == not_running_paths(candidates@, running@),
{
    let mut out: Vec<String> = Vec::new();
    let mut i: usize = 0;
    assert(candidates@.take(0) =~= Seq::<(String, String)>::empty());
    while i < candidates.len()
        invariant
            i <= candidates@.len(),
            running@.len() == candidates@.len(),
            out@ == not_running_paths(candidates@.take(i as int), running@),
        decreases candidates@.len() - i,
    {
        let ghost t = candidates@.take(i + 1);
        assert(t.drop_last() =~= candidates@.take(i as int));
        assert(t.last() == candidates@[i as int]);
        if !running[i] {
            out.push(candidates[i].0.clone());
        }
        assert(out@ == not_running_paths(t, running@));
        i += 1;
    }
    assert(candidates@.take(candidates@.len() as int) =~= candidates@);
    out
}

/// Keeps, in order, the candidate paths whose app the checker does not report
/// running; the checker is asked once per candidate, about its app, and `running[i]`
/// stands for its answer about candidate `i`. Each candidate is `(path, app)`.
pub fn skip_running<C: ProcessChecker>(checker: &C, candidates: &Vec<(String, String)>) -> (r: Vec<String>)
    ensures
        exists|running: Seq<bool>|
            {
                &&& running.len() == candidates@.len()
                &&& forall|i: int|
                    0 <= i < candidates@.len() ==> checker.running_answer(
                        #[trigger] candidates@[i].1@,
                        running[i],
                    )
                &&& r@ == not_running_paths(candidates@, running)
            },
{
    let mut running: Vec<bool> = Vec::new();
    let mut i: usize = 0;
    while i < candidates.len()
        invariant
            i <= candidates@.len(),
            running@.len() == i,
            forall|k: int| 0 <= k < i ==> checker.running_answer(#[trigger] candidates@[k].1@, running@[k]),
        decreases candidates@.len() - i,
    {
        let busy = checker.is_running(candidates[i].1.as_str());
        running.push(busy);
        i += 1;
    }
    let r = paths_not_running(candidates, &running);
    assert(forall|k: int| 0 <= k < candidates@.len() ==> checker.running_answer(#[trigger] candidates@[k].1@, running@[k]));
    r
}

/// Browser cache folders under `$HOME` with the app that owns each (never cookies,
/// logins, history, preferences, passwords or bookmarks).
pub fn browser_cache_paths() -> (r: Vec<(&'static str, &'static str)>)
    ensures
        r@.map_values(|p: (&'static str, &'static str)| (p.0@, p.1@)) == seq![("Library/Caches/com.apple.Safari"@, "Safari"@), ("Library/Application Support/Google/Chrome/Default/Cache"@, "Google Chrome"@), ("Library/Application Support/Arc/User Data/Default/Cache"@, "Arc"@)],
{
    let r = vec![
        ("Library/Caches/com.apple.Safari", "Safari"),
        ("Library/Application Support/Google/Chrome/Default/Cache", "Google Chrome"),
        ("Library/Application Support/Arc/User Data/Default/Cache", "Arc"),
    ];
    assert(r@.map_values(|p: (&'static str, &'static str)| (p.0@, p.1@)) =~= seq![("Library/Caches/com.apple.Safari"@, "Safari"@), ("Library/Application Support/Google/Chrome/Default/Cache"@, "Google Chrome"@), ("Library/Application Support/Arc/User Data/Default/Cache"@, "Arc"@)]);
    r
}

/// Streaming app cache folders under `$HOME` with the app that owns each.
pub fn streaming_cache_paths() -> (r: Vec<(&'static str, &'static str)>)
    ensures
        r@.map_values(|p: (&'static str, &'static str)| (p.0@, p.1@)) == seq![("Library/Caches/com.spotify.client"@, "Spotify"@), ("Library/Application Support/Spotify/PersistentCache"@, "Spotify"@), ("Library/Containers/com.netflix.Netflix/Data/Library/Caches"@, "Netflix"@), ("Library/Containers/com.apple.Music/Data/Library/Caches"@, "Music"@)],
{
    let r = vec![
        ("Library/Caches/com.spotify.client", "Spotify"),
        ("Library/Application Support/Spotify/PersistentCache", "Spotify"),
        ("Library/Containers/com.netflix.Netflix/Data/Library/Caches", "Netflix"),
        ("Library/Containers/com.apple.Music/Data/Library/Caches", "Music"),
    ];
    assert(r@.map_values(|p: (&'static str, &'static str)| (p.0@, p.1@)) =~= seq![("Library/Caches/com.spotify.client"@, "Spotify"@), ("Library/Application Support/Spotify/PersistentCache"@, "Spotify"@), ("Library/Containers/com.netflix.Netflix/Data/Library/Caches"@, "Netflix"@), ("Library/Containers/com.apple.Music/Data/Library/Caches"@, "Music"@)]);
    r
}

/// Chat app cache folders under `$HOME` with the app that owns each.
pub fn chat_cache_paths() -> (r: Vec<(&'static str, &'static str)>)
    ensures
        r@.map_values(|p: (&'static str, &'static str)| (p.0@, p.1@)) == seq![("Library/Application Support/Slack/Cache"@, "Slack"@), ("Library/Application Support/Slack/Service Worker/CacheStorage"@, "Slack"@), ("Library/Application Support/discord/Cache"@, "Discord"@)],
{
    let r = vec![
        ("Library/Application Support/Slack/Cache", "Slack"),
        ("Library/Application Support/Slack/Service Worker/CacheStorage", "Slack"),
        ("Library/Application Support/discord/Cache", "Discord"),
    ];
    assert(r@.map_values(|p: (&'static str, &'static str)| (p.0@, p.1@)) =~= seq![("Library/Application Support/Slack/Cache"@, "Slack"@), ("Library/Application Support/Slack/Service Worker/CacheStorage"@, "Slack"@), ("Library/Application Support/discord/Cache"@, "Discord"@)]);
    r
}

// ---------- user caches ----------

/// The process a `~/Library/Caches` entry is taken to belong to: the part after its
/// last `.` (the whole name when it has none), as in `com.apple.Safari` → `Safari`.
pub open spec fn owner_name(name: Seq<char>) -> Seq<char> {
    match crate::path::last_index_of(name, '.') {
        None => name,
        Some(d) => name.skip(d + 1),
    }
}

pub fn cache_owner(name: &str) -> (r: String)
    ensures
        r@ == owner_name(name@),
{
    let v = chars_of(name);
    let mut j: usize = v.len();
    assert(v@.take(v@.len() as int) =~= v@);
    while j > 0 && v[j - 1] != '.'
        invariant
            j <= v@.len(),
            crate::path::last_index_of(v@, '.') == crate::path::last_index_of(v@.take(j as int), '.'),
        decreases j,
    {
        assert(v@.take(j as int).drop_last() =~= v@.take(j - 1));
        j -= 1;
    }
    if j == 0 {
        assert(v@.take(0) =~= Seq::<char>::empty());
        return String::from_str(name);
    }
    assert(v@.take(j as int).last() == '.');
    let r = string_of(&v, j, v.len());
    assert(r@ =~= v@.skip(j as int));
    r
}

/// Whether a `~/Library/Caches` entry is offered, given whether its owner is running:
/// always when its owner name is empty, else only when the owner is not running.
pub open spec fn entry_kept(name: Seq<char>, owner_running: bool) -> bool {
    owner_name(name).len() == 0 || !owner_running
}

/// Whether a `~/Library/Caches` entry is offered, given the checker's answer about its
/// owner (see `entry_kept`).
pub fn cache_entry_kept(name: &str, owner_running: bool) -> (r: bool)
    ensures
        r == entry_kept(name@, owner_running),
{
    let owner = cache_owner(name);
    let oc = chars_of(owner.as_str());
    oc.len() == 0 || !owner_running
}

/// Whether a `~/Library/Caches` entry is offered: not when the checker reports its
/// owner running. An entry whose owner name is empty is always offered and the
/// checker is not asked; otherwise the checker is asked about the owner and the
/// result is `entry_kept` of its answer.
pub fn keeps_cache_entry<C: ProcessChecker>(checker: &C, name: &str) -> (r: bool)
    ensures
        owner_name(name@).len() == 0 ==> r,
        owner_name(name@).len() > 0 ==> exists|running: bool|
            checker.running_answer(owner_name(name@), running) && r == entry_kept(name@, running),
{
    let owner = cache_owner(name);
    let oc = chars_of(owner.as_str());
    if oc.len() == 0 {
        return true;
    }
    let running = checker.is_running(owner.as_str());
    cache_entry_kept(name, running)
}

} // verus!
