//! Properties of what the tool offers and prints: the leftover locations of an app,
//! the cleaned locations of each category, the totals of the reports and the timer.
use vstd::prelude::*;
use crate::clean::discover::CategoryGroup;
use crate::clean::report::plan_total;
use crate::clean::registry::Category;
use crate::clean::rules::{idle_spec, locations_of, Layout};
use crate::scan::duplicates::{wasted, DuplicateGroup};
use crate::scan::plan::join_text;
use crate::scan::report::total_wasted;
use crate::uninstall::plan::{block_reason, items_size, plan_items, AppEntry, ItemKind, RemovalItem};
use crate::uninstall::leftovers::{leftover_paths, names_containing, names_starting};
use crate::clean::tools::has_text;
use crate::text::{decimal, digit_char, starts_with};
use crate::focus::{filled_cells, frame_text, repeat, two_digit, BAR_WIDTH};

verus! {

/// Whether `x` is `~/Library/LaunchAgents/<e>` for an entry `e` of `launch_agents`
/// starting with `b`, or `~/Library/Group Containers/<e>` for an entry `e` of
/// `group_containers` containing `b`.
pub open spec fn bundle_entry_location(
    home: Seq<char>,
    b: Seq<char>,
    launch_agents: Seq<String>,
    group_containers: Seq<String>,
    x: Seq<char>,
) -> bool {
    ||| exists|e: int|
        0 <= e < launch_agents.len() && starts_with((#[trigger] launch_agents[e])@, b) && x == join_text(
            join_text(home, "Library/LaunchAgents"@),
            launch_agents[e]@,
        )
    ||| exists|e: int|
        0 <= e < group_containers.len() && has_text((#[trigger] group_containers[e])@, b) && x == join_text(
            join_text(home, "Library/Group Containers"@),
            group_containers[e]@,
        )
}

/// Whether `n` is an entry of `entries` that starts with `prefix`.
pub open spec fn entry_starting(entries: Seq<String>, prefix: Seq<char>, n: Seq<char>) -> bool {
    exists|e: int| 0 <= e < entries.len() && starts_with((#[trigger] entries[e])@, prefix) && entries[e]@ == n
}

/// Whether `n` is an entry of `entries` that contains `part`.
pub open spec fn entry_containing(entries: Seq<String>, part: Seq<char>, n: Seq<char>) -> bool {
    exists|e: int| 0 <= e < entries.len() && has_text((#[trigger] entries[e])@, part) && entries[e]@ == n
}

/// The leftover locations of an app end with its name-keyed folders
/// `~/Library/Application Support/<name>`, `~/Library/Logs/<name>` and
/// `~/Library/Caches/<name>`, in that order; without a bundle id they are all.
/// With a bundle id `b` they start with `~/Library/Application Support/b`,
/// `~/Library/Caches/b`, `~/Library/Preferences/b.plist`, `~/Library/Containers/b`,
/// `~/Library/Saved Application State/b.savedState`, `~/Library/HTTPStorages/b`,
/// `~/Library/HTTPStorages/b.binarycookies` and `~/Library/WebKit/b`, and every
/// location between those and the name-keyed ones is a `LaunchAgents` entry that
/// starts with `b` or a `Group Containers` entry that contains it.
pub proof fn law_leftover_locations(
    home: Seq<char>,
    name: Seq<char>,
    bundle_id: Option<Seq<char>>,
    launch_agents: Seq<String>,
    group_containers: Seq<String>,
)
    ensures
        ({
            let p = leftover_paths(home, name, bundle_id, launch_agents, group_containers);
            &&& p.len() >= 3
            &&& p[p.len() - 3] == join_text(join_text(home, "Library/Application Support"@), name)
            &&& p[p.len() - 2] == join_text(join_text(home, "Library/Logs"@), name)
            &&& p[p.len() - 1] == join_text(join_text(home, "Library/Caches"@), name)
            &&& bundle_id is None ==> p.len() == 3
            &&& bundle_id matches Some(b) ==> {
                &&& p.len() >= 11
                &&& p[0] == join_text(join_text(home, "Library/Application Support"@), b)
                &&& p[1] == join_text(join_text(home, "Library/Caches"@), b)
                &&& p[2] == join_text(join_text(home, "Library/Preferences"@), b + ".plist"@)
                &&& p[3] == join_text(join_text(home, "Library/Containers"@), b)
                &&& p[4] == join_text(join_text(home, "Library/Saved Application State"@), b + ".savedState"@)
                &&& p[5] == join_text(join_text(home, "Library/HTTPStorages"@), b)
                &&& p[6] == join_text(join_text(home, "Library/HTTPStorages"@), b + ".binarycookies"@)
                &&& p[7] == join_text(join_text(home, "Library/WebKit"@), b)
                &&& forall|i: int|
                    8 <= i < p.len() - 3 ==> bundle_entry_location(home, b, launch_agents, group_containers, #[trigger] p[i])
            }
        }),
{
    let p = leftover_paths(home, name, bundle_id, launch_agents, group_containers);
    match bundle_id {
        None => {},
        Some(b) => {
            let la = names_starting(launch_agents, b);
            let gc = names_containing(group_containers, b);
            lemma_names_starting_from(launch_agents, b);
            lemma_names_containing_from(group_containers, b);
            assert forall|i: int| 8 <= i < p.len() - 3 implies bundle_entry_location(
                home,
                b,
                launch_agents,
                group_containers,
                #[trigger] p[i],
            ) by {
                if i < 8 + la.len() {
                    assert(p[i] == join_text(join_text(home, "Library/LaunchAgents"@), la[i - 8]));
                    assert(entry_starting(launch_agents, b, la[i - 8]));
                    let e = choose|e: int|
                        0 <= e < launch_agents.len() && starts_with((#[trigger] launch_agents[e])@, b)
                            && launch_agents[e]@ == la[i - 8];
                } else {
                    assert(p[i] == join_text(join_text(home, "Library/Group Containers"@), gc[i - 8 - la.len()]));
                    assert(entry_containing(group_containers, b, gc[i - 8 - la.len()]));
                    let e = choose|e: int|
                        0 <= e < group_containers.len() && has_text((#[trigger] group_containers[e])@, b)
                            && group_containers[e]@ == gc[i - 8 - la.len()];
                }
            }
        },
    }
}

/// Each name that `names_starting` keeps is an entry starting with the prefix.
proof fn lemma_names_starting_from(entries: Seq<String>, prefix: Seq<char>)
    ensures
        forall|q: int|
            0 <= q < names_starting(entries, prefix).len() ==> entry_starting(
                entries,
                prefix,
                #[trigger] names_starting(entries, prefix)[q],
            ),
    decreases entries.len(),
{
    if entries.len() > 0 {
        lemma_names_starting_from(entries.drop_last(), prefix);
        let p = names_starting(entries.drop_last(), prefix);
        let w = names_starting(entries, prefix);
        assert forall|q: int| 0 <= q < w.len() implies entry_starting(entries, prefix, #[trigger] w[q]) by {
            if q < p.len() {
                assert(w[q] == p[q]);
                assert(entry_starting(entries.drop_last(), prefix, p[q]));
                let e = choose|e: int|
                    0 <= e < entries.drop_last().len() && starts_with((#[trigger] entries.drop_last()[e])@, prefix)
                        && entries.drop_last()[e]@ == p[q];
                assert(entries[e] == entries.drop_last()[e]);
            } else {
                assert(entries[entries.len() - 1]@ == w[q]);
            }
        }
    }
}

/// Each name that `names_containing` keeps is an entry containing the text.
proof fn lemma_names_containing_from(entries: Seq<String>, part: Seq<char>)
    ensures
        forall|q: int|
            0 <= q < names_containing(entries, part).len() ==> entry_containing(
                entries,
                part,
                #[trigger] names_containing(entries, part)[q],
            ),
    decreases entries.len(),
{
    if entries.len() > 0 {
        lemma_names_containing_from(entries.drop_last(), part);
        let p = names_containing(entries.drop_last(), part);
        let w = names_containing(entries, part);
        assert forall|q: int| 0 <= q < w.len() implies entry_containing(entries, part, #[trigger] w[q]) by {
            if q < p.len() {
                assert(w[q] == p[q]);
                assert(entry_containing(entries.drop_last(), part, p[q]));
                let e = choose|e: int|
                    0 <= e < entries.drop_last().len() && has_text((#[trigger] entries.drop_last()[e])@, part)
                        && entries.drop_last()[e]@ == p[q];
                assert(entries[e] == entries.drop_last()[e]);
            } else {
                assert(entries[entries.len() - 1]@ == w[q]);
            }
        }
    }
}

/// The wasted bytes of one duplicate group: every copy but one, `size * (copies - 1)`,
/// saturating at `u64::MAX`; nothing for a group of at most one path.
pub proof fn law_wasted_of_one_group(g: DuplicateGroup)
    ensures
        g.paths@.len() <= 1 ==> total_wasted(seq![g]) == 0,
        g.paths@.len() > 1 && g.size * (g.paths@.len() - 1) <= u64::MAX ==> total_wasted(seq![g]) == g.size * (
        g.paths@.len() - 1),
        g.paths@.len() > 1 && g.size * (g.paths@.len() - 1) > u64::MAX ==> total_wasted(seq![g]) == u64::MAX,
{
    let one = seq![g];
    assert(one.drop_last() =~= Seq::<DuplicateGroup>::empty());
    assert(total_wasted(one.drop_last()) == 0);
    assert(one.last() == g);
    assert(total_wasted(one) == wasted(g.size as nat, g.paths@.len()));
}

/// The wasted bytes of the duplicate report add up over the groups: those of two lists
/// of groups one after the other are the sum of each list's.
pub proof fn law_wasted_adds_up(a: Seq<DuplicateGroup>, b: Seq<DuplicateGroup>)
    ensures
        total_wasted(a + b) == total_wasted(a) + total_wasted(b),
        total_wasted(Seq::<DuplicateGroup>::empty()) == 0,
    decreases b.len(),
{
    if b.len() == 0 {
        assert(a + b =~= a);
    } else {
        law_wasted_adds_up(a, b.drop_last());
        assert((a + b).drop_last() =~= a + b.drop_last());
        assert((a + b).last() == b.last());
    }
}

/// The plain sum of the groups' totals.
pub open spec fn totals_sum(groups: Seq<&CategoryGroup>) -> nat
    decreases groups.len(),
{
    if groups.len() == 0 {
        0
    } else {
        totals_sum(groups.drop_last()) + groups.last().total_size as nat
    }
}

/// The plan's grand total is the sum of the groups' totals, capped at `u64::MAX`.
pub proof fn law_plan_total_is_capped_sum(groups: Seq<&CategoryGroup>)
    ensures
        plan_total(groups) == if totals_sum(groups) > u64::MAX {
            u64::MAX as nat
        } else {
            totals_sum(groups)
        },
    decreases groups.len(),
{
    if groups.len() > 0 {
        law_plan_total_is_capped_sum(groups.drop_last());
    }
}

/// The grand totals of two plans one after the other add up, capped at `u64::MAX`;
/// a plan of one group totals that group.
pub proof fn law_plan_totals_add_up(a: Seq<&CategoryGroup>, b: Seq<&CategoryGroup>, g: &CategoryGroup)
    ensures
        plan_total(seq![g]) == g.total_size,
        plan_total(a + b) == if plan_total(a) + plan_total(b) > u64::MAX {
            u64::MAX as nat
        } else {
            plan_total(a) + plan_total(b)
        },
{
    let one = seq![g];
    assert(one.drop_last() =~= Seq::<&CategoryGroup>::empty());
    assert(plan_total(one.drop_last()) == 0);
    assert(one.last() == g);
    lemma_totals_sum_concat(a, b);
    law_plan_total_is_capped_sum(a);
    law_plan_total_is_capped_sum(b);
    law_plan_total_is_capped_sum(a + b);
}

proof fn lemma_totals_sum_concat(a: Seq<&CategoryGroup>, b: Seq<&CategoryGroup>)
    ensures
        totals_sum(a + b) == totals_sum(a) + totals_sum(b),
    decreases b.len(),
{
    if b.len() == 0 {
        assert(a + b =~= a);
    } else {
        lemma_totals_sum_concat(a, b.drop_last());
        assert((a + b).drop_last() =~= a + b.drop_last());
        assert((a + b).last() == b.last());
    }
}

/// The timer's clock reads back as the time left: a frame ends with `mm:ss remaining`
/// (two digits each, while under a hundred minutes are left), where `60 * mm + ss` is
/// the total less the elapsed seconds and `ss` is under 60.
pub proof fn law_timer_shows_time_left(elapsed: nat, total: nat)
    requires
        elapsed <= total,
        total - elapsed < 6000,
    ensures
        ({
            let f = frame_text(elapsed, total);
            let n = f.len() as int;
            &&& n >= 15
            &&& f.subrange(n - 10, n) == " remaining"@
            &&& f[n - 13] == ':'
            &&& exists|m1: nat, m0: nat, s1: nat, s0: nat|
                #![trigger digit_char(m1), digit_char(m0), digit_char(s1), digit_char(s0)]
                m1 < 10 && m0 < 10 && s1 < 6 && s0 < 10 && f[n - 15] == digit_char(m1) && f[n - 14] == digit_char(m0)
                    && f[n - 12] == digit_char(s1) && f[n - 11] == digit_char(s0) && 60 * (10 * m1 + m0) + 10 * s1 + s0
                    == total - elapsed
        }),
{
    reveal_strlit(" remaining");
    let r = (total - elapsed) as nat;
    let mm = r / 60;
    let ss = r % 60;
    lemma_two_digits(mm);
    lemma_two_digits(ss);
    let f = frame_text(elapsed, total);
    let n = f.len() as int;
    let filled = filled_cells(elapsed, total);
    let head = seq!['\r', '['] + repeat('#', filled) + repeat('-', (BAR_WIDTH - filled) as nat) + seq![']', ' '];
    let tail = two_digit(mm) + seq![':'] + two_digit(ss) + " remaining"@;
    assert(f =~= head + tail);
    assert(tail.len() == 15);
    assert(f.subrange(n - 10, n) =~= " remaining"@);
    assert(f[n - 15] == tail[0]);
    assert(f[n - 14] == tail[1]);
    assert(f[n - 13] == tail[2]);
    assert(f[n - 12] == tail[3]);
    assert(f[n - 11] == tail[4]);
    assert(60 * (10 * (mm / 10) + mm % 10) + 10 * (ss / 10) + ss % 10 == r);
    assert(digit_char(mm / 10) == f[n - 15]);
}

/// A number under a hundred prints as two digits, tens then units.
proof fn lemma_two_digits(x: nat)
    requires
        x < 100,
    ensures
        two_digit(x) == seq![digit_char(x / 10), digit_char(x % 10)],
{
    if x < 10 {
        assert(digit_char(0) == '0');
        assert(two_digit(x) =~= seq![digit_char(x / 10), digit_char(x % 10)]);
    } else {
        assert(decimal(x / 10) == seq![digit_char(x / 10)]);
        assert(two_digit(x) =~= seq![digit_char(x / 10), digit_char(x % 10)]);
    }
}


/// The locations each category cleans, under `$HOME` unless absolute, with how each
/// becomes items; the categories not listed here find their items otherwise (walks,
/// listings, subprocesses) and have no fixed location.
pub proof fn law_category_locations(c: Category)
    ensures
        locations_of(Category::UserLogs) == seq![("Library/Logs"@, Layout::Entries)],
        locations_of(Category::XcodeDerived) == seq![("Library/Developer/Xcode/DerivedData"@, Layout::Whole)],
        locations_of(Category::XcodeArchives) == seq![("Library/Developer/Xcode/Archives"@, Layout::Whole)],
        locations_of(Category::XcodeDeviceSupport) == seq![("Library/Developer/Xcode/iOS DeviceSupport"@, Layout::Whole)],
        locations_of(Category::Cargo) == seq![(".cargo/registry/cache"@, Layout::Whole), (".cargo/registry/src"@, Layout::Whole), (".cargo/git/db"@, Layout::Whole), (".cargo/git/checkouts"@, Layout::Whole)],
        locations_of(Category::Trash) == seq![(".Trash"@, Layout::Whole)],
        locations_of(Category::GradleMaven) == seq![(".gradle/caches"@, Layout::Whole), (".gradle/daemon"@, Layout::Whole), (".m2/repository"@, Layout::Whole)],
        locations_of(Category::JetBrains) == seq![("Library/Caches/JetBrains"@, Layout::Entries), ("Library/Logs/JetBrains"@, Layout::Entries)],
        locations_of(Category::VsCode) == seq![("Library/Application Support/Code/Cache"@, Layout::Whole), ("Library/Application Support/Code/CachedData"@, Layout::Whole), ("Library/Application Support/Code/logs"@, Layout::Whole)],
        locations_of(Category::IosSimulators) == seq![("Library/Developer/CoreSimulator/Caches"@, Layout::Entries), ("Library/Developer/CoreSimulator/Devices"@, Layout::Entries)],
        locations_of(Category::AndroidSdk) == seq![(".android/cache"@, Layout::Whole), (".gradle/.tmp"@, Layout::Whole), ("Library/Android/sdk/system-images"@, Layout::WholeIfIdle)],
        locations_of(Category::Quarantine) == seq![("Library/Preferences/com.apple.LaunchServices.QuarantineEventsV2"@, Layout::Whole)],
        locations_of(Category::CrashReports) == seq![("Library/Logs/DiagnosticReports"@, Layout::Entries), ("/Library/Logs/DiagnosticReports"@, Layout::Entries)],
        c == Category::UserCaches || c == Category::Npm || c == Category::Pnpm || c == Category::Yarn || c == Category::NodeModules || c == Category::PythonCaches || c == Category::RustTargets || c == Category::GoCache || c == Category::Docker || c == Category::DownloadsOld || c == Category::ScreenshotsOld || c == Category::MailAttachments || c == Category::StreamingCaches || c == Category::ChatCaches || c == Category::BrowserCaches || c == Category::AppOrphans || c == Category::TimeMachineLocal || c == Category::FontQuicklookCaches ==> locations_of(c).len() == 0,
{
}


/// The length of each cleaned location, and the characters that tell apart the
/// locations of equal length.
proof fn lemma_location_shapes()
    ensures
        locations_of(Category::UserLogs)[0].0.len() == 12,
        locations_of(Category::XcodeDerived)[0].0.len() == 35,
        locations_of(Category::XcodeArchives)[0].0.len() == 32,
        locations_of(Category::XcodeDeviceSupport)[0].0.len() == 41,
        locations_of(Category::Cargo)[0].0.len() == 21,
        locations_of(Category::Cargo)[1].0.len() == 19,
        locations_of(Category::Cargo)[2].0.len() == 13,
        locations_of(Category::Cargo)[3].0.len() == 20,
        locations_of(Category::Trash)[0].0.len() == 6,
        locations_of(Category::GradleMaven)[0].0.len() == 14,
        locations_of(Category::GradleMaven)[1].0.len() == 14,
        locations_of(Category::GradleMaven)[2].0.len() == 14,
        locations_of(Category::JetBrains)[0].0.len() == 24,
        locations_of(Category::JetBrains)[1].0.len() == 22,
        locations_of(Category::VsCode)[0].0.len() == 38,
        locations_of(Category::VsCode)[1].0.len() == 43,
        locations_of(Category::VsCode)[2].0.len() == 37,
        locations_of(Category::IosSimulators)[0].0.len() == 38,
        locations_of(Category::IosSimulators)[1].0.len() == 39,
        locations_of(Category::AndroidSdk)[0].0.len() == 14,
        locations_of(Category::AndroidSdk)[1].0.len() == 12,
        locations_of(Category::AndroidSdk)[2].0.len() == 33,
        locations_of(Category::Quarantine)[0].0.len() == 63,
        locations_of(Category::CrashReports)[0].0.len() == 30,
        locations_of(Category::CrashReports)[1].0.len() == 31,
        locations_of(Category::AndroidSdk)[0].0[1] == 'a',
        locations_of(Category::AndroidSdk)[1].0[0] == '.',
        locations_of(Category::GradleMaven)[0].0[1] == 'g',
        locations_of(Category::GradleMaven)[1].0[1] == 'g',
        locations_of(Category::GradleMaven)[2].0[1] == 'm',
        locations_of(Category::VsCode)[0].0[8] == 'A',
        locations_of(Category::IosSimulators)[0].0[8] == 'D',
        locations_of(Category::UserLogs)[0].0[0] == 'L',
{
    reveal_strlit(".Trash");
    reveal_strlit(".android/cache");
    reveal_strlit(".cargo/git/checkouts");
    reveal_strlit(".cargo/git/db");
    reveal_strlit(".cargo/registry/cache");
    reveal_strlit(".cargo/registry/src");
    reveal_strlit(".gradle/.tmp");
    reveal_strlit(".gradle/caches");
    reveal_strlit(".gradle/daemon");
    reveal_strlit(".m2/repository");
    reveal_strlit("/Library/Logs/DiagnosticReports");
    reveal_strlit("Library/Android/sdk/system-images");
    reveal_strlit("Library/Application Support/Code/Cache");
    reveal_strlit("Library/Application Support/Code/CachedData");
    reveal_strlit("Library/Application Support/Code/logs");
    reveal_strlit("Library/Caches/JetBrains");
    reveal_strlit("Library/Developer/CoreSimulator/Caches");
    reveal_strlit("Library/Developer/CoreSimulator/Devices");
    reveal_strlit("Library/Developer/Xcode/Archives");
    reveal_strlit("Library/Developer/Xcode/DerivedData");
    reveal_strlit("Library/Developer/Xcode/iOS DeviceSupport");
    reveal_strlit("Library/Logs");
    reveal_strlit("Library/Logs/DiagnosticReports");
    reveal_strlit("Library/Logs/JetBrains");
    reveal_strlit("Library/Preferences/com.apple.LaunchServices.QuarantineEventsV2");
}

/// No two categories clean the same location.
pub proof fn law_no_location_shared(c: Category, d: Category, i: int, j: int)
    requires
        c != d,
        0 <= i < locations_of(c).len(),
        0 <= j < locations_of(d).len(),
    ensures
        locations_of(c)[i].0 != locations_of(d)[j].0,
{
    lemma_location_shapes();
}

/// An uninstall is refused exactly for a system app (bundle id starting with
/// `com.apple.`), whatever the flags, and for a Homebrew cask unless `--force` is
/// given; a system app is refused as such even when it is also a cask.
pub proof fn law_uninstall_refusals(app: AppEntry, is_cask: bool, force: bool)
    ensures
        (block_reason(app, is_cask, force) is Some) <==> ((app.bundle_id is Some && starts_with(
            app.bundle_id->0@,
            "com.apple."@,
        )) || (is_cask && !force)),
        (app.bundle_id is Some && starts_with(app.bundle_id->0@, "com.apple."@)) ==> block_reason(app, is_cask, force)
            == block_reason(app, !is_cask, !force),
{
}

/// What an uninstall removes: first the app bundle (its path and size) unless only
/// leftovers are wanted, then every leftover in order unless it is shallow; nothing
/// else.
pub proof fn law_uninstall_plan_items(app: AppEntry, leftovers_only: bool, shallow: bool, leftovers: Seq<RemovalItem>)
    ensures
        ({
            let p = plan_items(app, leftovers_only, shallow, leftovers);
            let head: int = if leftovers_only { 0 } else { 1 };
            &&& p.len() == head + if shallow { 0 } else { leftovers.len() as int }
            &&& !leftovers_only ==> p[0] == (app.path@, app.size, ItemKind::AppBundle)
            &&& !shallow ==> forall|k: int|
                0 <= k < leftovers.len() ==> p[head + k] == ((#[trigger] leftovers[k]).path@, leftovers[k].size, leftovers[k].kind)
        }),
{
}

/// The size of an uninstall plan adds up over its items.
pub proof fn law_plan_size_adds_up(a: Seq<RemovalItem>, b: Seq<RemovalItem>, i: RemovalItem)
    ensures
        items_size(seq![i]) == i.size,
        items_size(a + b) == items_size(a) + items_size(b),
    decreases b.len(),
{
    let one = seq![i];
    assert(one.drop_last() =~= Seq::<RemovalItem>::empty());
    assert(items_size(one.drop_last()) == 0);
    assert(one.last() == i);
    if b.len() == 0 {
        assert(a + b =~= a);
    } else {
        law_plan_size_adds_up(a, b.drop_last(), i);
        assert((a + b).drop_last() =~= a + b.drop_last());
        assert((a + b).last() == b.last());
    }
}

/// A file or folder is idle for `d` days exactly when more than `d` whole days
/// (86400 seconds each) have passed since it was modified; one modified in the future
/// is never idle, and what is idle for some days is idle for fewer.
pub proof fn law_idle_threshold(modified: nat, now: nat, d: nat, fewer: nat)
    ensures
        idle_spec(modified, now, d) <==> modified + d * 86400 < now,
        idle_spec(modified, now, d) && fewer <= d ==> idle_spec(modified, now, fewer),
{
    assert(fewer <= d ==> fewer * 86400 <= d * 86400) by (nonlinear_arith);
}

/// Whether `f` shows a bar of `k` filled cells out of thirty, `k` being the elapsed
/// share of thirty rounded down (thirty for a session of no length).
pub open spec fn bar_of(f: Seq<char>, elapsed: nat, total: nat, k: nat) -> bool {
    &&& k <= 30
    &&& total > 0 ==> k * total <= 30 * elapsed < (k + 1) * total
    &&& total == 0 ==> k == 30
    &&& forall|i: int| 2 <= i < 2 + k ==> #[trigger] f[i] == '#'
    &&& forall|i: int| 2 + k <= i < 32 ==> #[trigger] f[i] == '-'
}

/// The timer's bar is thirty cells between `[` and `]`: the first `k` are `#` and the
/// rest `-`, where `k` is the elapsed share of thirty rounded down
/// (`k * total <= 30 * elapsed < (k + 1) * total`); a session of no length shows a
/// full bar.
pub proof fn law_timer_bar(elapsed: nat, total: nat)
    requires
        elapsed <= total,
    ensures
        ({
            let f = frame_text(elapsed, total);
            &&& f.len() > 34
            &&& f[0] == '\r' && f[1] == '[' && f[32] == ']' && f[33] == ' '
            &&& exists|k: nat| #[trigger] bar_of(f, elapsed, total, k)
        }),
{
    let k = filled_cells(elapsed, total);
    if total > 0 {
        assert(k * total <= 30 * elapsed < (k + 1) * total) by (nonlinear_arith)
            requires
                k == (elapsed * 30) / total,
                total > 0,
        ;
        assert(k <= 30) by (nonlinear_arith)
            requires
                k * total <= 30 * elapsed,
                elapsed <= total,
                total > 0,
        ;
    }
    let f = frame_text(elapsed, total);
    let bar = repeat('#', k) + repeat('-', (BAR_WIDTH - k) as nat);
    let tail = seq![']', ' '] + two_digit(((total - elapsed) as nat) / 60) + seq![':'] + two_digit(
        ((total - elapsed) as nat) % 60,
    ) + " remaining"@;
    assert(f =~= seq!['\r', '['] + bar + tail);
    assert(bar.len() == 30);
    assert forall|i: int| 2 <= i < 2 + k implies #[trigger] f[i] == '#' by {
        assert(f[i] == bar[i - 2]);
    }
    assert forall|i: int| 2 + k <= i < 32 implies #[trigger] f[i] == '-' by {
        assert(f[i] == bar[i - 2]);
    }
    assert(f[32] == tail[0]);
    assert(f[33] == tail[1]);
    assert(bar_of(f, elapsed, total, k));
}

} // verus!
