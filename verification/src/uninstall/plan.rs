//! Uninstall plans: which apps are listed first, what a plan removes, and why it
//! may be refused.
use vstd::prelude::*;
use crate::cli::{SortBy, UninstallOpts};
use crate::path::{chars_order, compare_chars, lemma_chars_order};
use crate::scan::plan::{join_path, join_text};
use crate::text::{append_str, chars_of, lowercase, push_char, push_decimal, starts_with, str_starts_with, to_lowercase};

verus! {

broadcast use vstd::string::group_string_axioms;

/// An installed app.
#[derive(Debug, Clone)]
pub struct AppEntry {
    pub name: String,
    pub path: String,
    pub bundle_id: Option<String>,
    pub size: u64,
    pub last_used_days: Option<u64>,
}

impl AppEntry {
    /// A field-by-field copy.
    pub fn duplicate(&self) -> (r: AppEntry)
        ensures
            r == *self,
    {
        AppEntry {
            name: self.name.clone(),
            path: self.path.clone(),
            bundle_id: match &self.bundle_id {
                Some(b) => Some(b.clone()),
                None => None,
            },
            size: self.size,
            last_used_days: self.last_used_days,
        }
    }
}

/// Whether app `a` is listed before app `b` (positions in `apps`): largest first,
/// by lowercase name, or least recently used first with never-used apps last;
/// equal keys keep their order.
pub open spec fn app_before(apps: Seq<AppEntry>, by: SortBy, a: int, b: int) -> bool {
    match by {
        SortBy::Size => apps[a].size > apps[b].size || (apps[a].size == apps[b].size && a < b),
        SortBy::Name => {
            let o = chars_order(lowercase(apps[a].name@), lowercase(apps[b].name@));
            o < 0 || (o == 0 && a < b)
        },
        SortBy::LastUsed => match (apps[a].last_used_days, apps[b].last_used_days) {
            (Some(x), Some(y)) => x > y || (x == y && a < b),
            (Some(_), None) => true,
            (None, Some(_)) => false,
            (None, None) => a < b,
        },
    }
}

/// `ord` lists every position of `apps` once, in display order.
pub open spec fn is_app_order(apps: Seq<AppEntry>, by: SortBy, ord: Seq<usize>) -> bool {
    &&& ord.len() == apps.len()
    &&& forall|k: int| 0 <= k < ord.len() ==> #[trigger] ord[k] < apps.len()
    &&& forall|k1: int, k2: int|
        0 <= k1 < k2 < ord.len() ==> app_before(apps, by, #[trigger] ord[k1] as int, #[trigger] ord[k2] as int)
}

proof fn lemma_app_before(apps: Seq<AppEntry>, by: SortBy, a: int, b: int, c: int)
    ensures
        a != b ==> (app_before(apps, by, a, b) <==> !app_before(apps, by, b, a)),
        !app_before(apps, by, a, a),
        app_before(apps, by, a, b) && app_before(apps, by, b, c) ==> app_before(apps, by, a, c),
{
    let la = lowercase(apps[a].name@);
    let lb = lowercase(apps[b].name@);
    let lc = lowercase(apps[c].name@);
    lemma_chars_order(la, lb, lc);
    lemma_chars_order(lb, la, lc);
    lemma_chars_order(la, lc, lb);
    lemma_chars_order(la, la, la);
    lemma_chars_order(lb, lc, la);
}

fn app_before_exec(apps: &Vec<AppEntry>, lower: &Vec<Vec<char>>, by: SortBy, a: usize, b: usize) -> (r: bool)
    requires
        a < apps@.len(),
        b < apps@.len(),
        lower@.len() == apps@.len(),
        forall|k: int| 0 <= k < lower@.len() ==> (#[trigger] lower@[k])@ == lowercase(apps@[k].name@),
    ensures
        r == app_before(apps@, by, a as int, b as int),
{
    match by {
        SortBy::Size => apps[a].size > apps[b].size || (apps[a].size == apps[b].size && a < b),
        SortBy::Name => {
            let la = &lower[a];
            let lb = &lower[b];
            let o = compare_chars(la.as_slice(), 0, la.len(), lb.as_slice(), 0, lb.len());
            assert(la@.subrange(0, la@.len() as int) =~= la@);
            assert(lb@.subrange(0, lb@.len() as int) =~= lb@);
            o < 0 || (o == 0 && a < b)
        },
        SortBy::LastUsed => match (apps[a].last_used_days, apps[b].last_used_days) {
            (Some(x), Some(y)) => x > y || (x == y && a < b),
            (Some(_), None) => true,
            (None, Some(_)) => false,
            (None, None) => a < b,
        },
    }
}

/// The display order of `apps`.
pub fn app_order(apps: &Vec<AppEntry>, by: SortBy) -> (ord: Vec<usize>)
    ensures
        is_app_order(apps@, by, ord@),
{
    let mut lower: Vec<Vec<char>> = Vec::new();
    let mut i: usize = 0;
    while i < apps.len()
        invariant
            i <= apps@.len(),
            lower@.len() == i,
            forall|k: int| 0 <= k < i ==> (#[trigger] lower@[k])@ == lowercase(apps@[k].name@),
        decreases apps@.len() - i,
    {
        let l = to_lowercase(apps[i].name.as_str());
        lower.push(chars_of(l.as_str()));
        i += 1;
    }
    let mut ord: Vec<usize> = Vec::new();
    let mut i: usize = 0;
    while i < apps.len()
        invariant
            i <= apps@.len(),
            lower@.len() == apps@.len(),
            forall|k: int| 0 <= k < lower@.len() ==> (#[trigger] lower@[k])@ == lowercase(apps@[k].name@),
            ord@.len() == i,
            forall|k: int| 0 <= k < ord@.len() ==> #[trigger] ord@[k] < i,
            forall|k1: int, k2: int|
                0 <= k1 < k2 < ord@.len() ==> app_before(apps@, by, #[trigger] ord@[k1] as int, #[trigger] ord@[k2] as int),
        decreases apps@.len() - i,
    {
        let mut p: usize = 0;
        while p < ord.len() && !app_before_exec(apps, &lower, by, i, ord[p])
            invariant
                p <= ord@.len(),
                i < apps@.len(),
                lower@.len() == apps@.len(),
                forall|k: int| 0 <= k < lower@.len() ==> (#[trigger] lower@[k])@ == lowercase(apps@[k].name@),
                forall|k: int| 0 <= k < ord@.len() ==> #[trigger] ord@[k] < i,
                forall|k: int| 0 <= k < p ==> !app_before(apps@, by, i as int, #[trigger] ord@[k] as int),
            decreases ord@.len() - p,
        {
            p += 1;
        }
        let ghost old_ord = ord@;
        ord.insert(p, i);
        proof {
            assert forall|k: int| 0 <= k < ord@.len() && k != p implies ord@[k] == (if k < p { old_ord[k] } else { old_ord[k - 1] }) by {}
            assert forall|k1: int, k2: int|
                0 <= k1 < k2 < ord@.len() implies app_before(apps@, by, #[trigger] ord@[k1] as int, #[trigger] ord@[k2] as int) by {
                if k1 == p {
                    lemma_app_before(apps@, by, i as int, old_ord[p as int] as int, old_ord[k2 - 1] as int);
                    if k2 - 1 > p {
                        assert(app_before(apps@, by, old_ord[p as int] as int, old_ord[k2 - 1] as int));
                    }
                } else if k2 == p {
                    lemma_app_before(apps@, by, old_ord[k1] as int, i as int, i as int);
                } else if k1 < p && k2 > p {
                    lemma_app_before(apps@, by, old_ord[k1] as int, i as int, old_ord[k2 - 1] as int);
                    lemma_app_before(apps@, by, i as int, old_ord[p as int] as int, old_ord[k2 - 1] as int);
                    if k2 - 1 > p {
                        assert(app_before(apps@, by, old_ord[p as int] as int, old_ord[k2 - 1] as int));
                    }
                }
            }
        }
        i += 1;
    }
    ord
}

/// The apps in display order: largest first (`Size`), by lowercase name (`Name`),
/// or least recently used first with never-used apps last (`LastUsed`).
pub fn sort_apps(apps: Vec<AppEntry>, sort: &SortBy) -> (r: Vec<AppEntry>)
    ensures
        exists|ord: Seq<usize>| is_app_order(apps@, *sort, ord) && r@ == ord.map_values(|i: usize| apps@[i as int]),
{
    let ord = app_order(&apps, *sort);
    let mut out: Vec<AppEntry> = Vec::new();
    let mut k: usize = 0;
    while k < ord.len()
        invariant
            k <= ord@.len(),
            is_app_order(apps@, *sort, ord@),
            out@ == ord@.take(k as int).map_values(|i: usize| apps@[i as int]),
        decreases ord@.len() - k,
    {
        out.push(apps[ord[k]].duplicate());
        assert(ord@.take(k + 1).map_values(|i: usize| apps@[i as int]) =~= ord@.take(k as int).map_values(|i: usize| apps@[i as int]).push(apps@[ord@[k as int] as int]));
        k += 1;
    }
    assert(ord@.take(ord@.len() as int) =~= ord@);
    out
}

/// What a removal item is: the app bundle itself or a leftover.
#[derive(Debug, Clone, Copy, PartialEq, Eq, Structural)]
pub enum ItemKind {
    AppBundle,
    Leftover,
}

/// One path an uninstall removes.
#[derive(Debug, Clone)]
pub struct RemovalItem {
    pub path: String,
    pub size: u64,
    pub kind: ItemKind,
}

/// What uninstalling one app removes, and why it is refused, if it is.
#[derive(Debug)]
pub struct Plan {
    pub app: AppEntry,
    pub items: Vec<RemovalItem>,
    pub blocked: Option<String>,
}

/// Sum of the item sizes.
pub open spec fn items_size(items: Seq<RemovalItem>) -> nat
    decreases items.len(),
{
    if items.len() == 0 {
        0
    } else {
        (items_size(items.drop_last()) + items.last().size) as nat
    }
}

proof fn lemma_items_size_prefix(items: Seq<RemovalItem>, j: int)
    requires
        0 <= j <= items.len(),
    ensures
        items_size(items.take(j)) <= items_size(items),
    decreases items.len() - j,
{
    if j < items.len() {
        lemma_items_size_prefix(items, j + 1);
        assert(items.take(j + 1).drop_last() =~= items.take(j));
    } else {
        assert(items.take(j) =~= items);
    }
}

impl Plan {
    /// Total bytes the plan removes.
    pub fn total_size(&self) -> (r: u64)
        requires
            items_size(self.items@) <= u64::MAX,
        ensures
            r == items_size(self.items@),
    {
        let mut total: u64 = 0;
        let mut i: usize = 0;
        assert(self.items@.take(0) =~= Seq::<RemovalItem>::empty());
        while i < self.items.len()
            invariant
                i <= self.items@.len(),
                items_size(self.items@) <= u64::MAX,
                total == items_size(self.items@.take(i as int)),
            decreases self.items@.len() - i,
        {
            assert(self.items@.take(i + 1).drop_last() =~= self.items@.take(i as int));
            proof {
                lemma_items_size_prefix(self.items@, i + 1);
            }
            total = total + self.items[i].size;
            i += 1;
        }
        assert(self.items@.take(self.items@.len() as int) =~= self.items@);
        total
    }
}

/// The Homebrew cask name of an app: lowercase, spaces as dashes.
pub open spec fn cask_name(app_name: Seq<char>) -> Seq<char> {
    lowercase(app_name).map_values(|c: char| if c == ' ' { '-' } else { c })
}

/// Where Homebrew keeps the cask an app would come from.
pub fn cask_path(app_name: &str) -> (r: String)
    ensures
        r@ == join_text("/opt/homebrew/Caskroom"@, cask_name(app_name@)),
{
    let lower = to_lowercase(app_name);
    let v = chars_of(lower.as_str());
    let mut s = String::new();
    let mut i: usize = 0;
    while i < v.len()
        invariant
            i <= v@.len(),
            v@ == lowercase(app_name@),
            s@ == v@.take(i as int).map_values(|c: char| if c == ' ' { '-' } else { c }),
        decreases v@.len() - i,
    {
        push_char(&mut s, if v[i] == ' ' { '-' } else { v[i] });
        assert(v@.take(i + 1).map_values(|c: char| if c == ' ' { '-' } else { c }) =~= v@.take(i as int).map_values(|c: char| if c == ' ' { '-' } else { c }).push(if v@[i as int] == ' ' { '-' } else { v@[i as int] }));
        i += 1;
    }
    assert(v@.take(v@.len() as int) =~= v@);
    join_path("/opt/homebrew/Caskroom", s.as_str())
}

/// Why an app may not be removed: a system app (bundle id `com.apple.*`), or a
/// Homebrew cask without `--force`.
pub open spec fn block_reason(app: AppEntry, is_cask: bool, force: bool) -> Option<Seq<char>> {
    if app.bundle_id is Some && starts_with(app.bundle_id->0@, "com.apple."@) {
        Some("system app ("@ + app.bundle_id->0@ + ") — refuse"@)
    } else if is_cask && !force {
        Some("looks like a Homebrew cask — use `brew uninstall --cask "@ + lowercase(app.name@) + "` (or pass --force)"@)
    } else {
        None
    }
}

pub open spec fn removal_view(i: RemovalItem) -> (Seq<char>, u64, ItemKind) {
    (i.path@, i.size, i.kind)
}

/// What the plan of `app` removes: the bundle unless only leftovers are wanted, then
/// the leftovers unless the uninstall is shallow.
pub open spec fn plan_items(app: AppEntry, leftovers_only: bool, shallow: bool, leftovers: Seq<RemovalItem>) -> Seq<
    (Seq<char>, u64, ItemKind),
> {
    (if leftovers_only {
        Seq::<(Seq<char>, u64, ItemKind)>::empty()
    } else {
        seq![(app.path@, app.size, ItemKind::AppBundle)]
    }) + (if shallow {
        Seq::<(Seq<char>, u64, ItemKind)>::empty()
    } else {
        leftovers.map_values(|i: RemovalItem| removal_view(i))
    })
}

/// The plan of one app; `is_cask` is whether Homebrew's Caskroom holds it, and
/// `leftovers` what was found under `~/Library` (used unless `--shallow`).
pub fn build_plan(app: &AppEntry, opts: &UninstallOpts, is_cask: bool, leftovers: Vec<RemovalItem>) -> (r: Plan)
    ensures
        r.app == *app,
        r.items@.map_values(|i: RemovalItem| removal_view(i)) == plan_items(*app, opts.leftovers_only, opts.shallow, leftovers@),
        r.blocked matches Some(b) ==> block_reason(*app, is_cask, opts.force) == Some(b@),
        r.blocked is None ==> block_reason(*app, is_cask, opts.force) is None,
{
    proof {
        reveal_strlit("com.apple.");
    }
    let mut blocked: Option<String> = None;
    match &app.bundle_id {
        Some(bid) => {
            if str_starts_with(bid.as_str(), "com.apple.") {
                let mut m = String::from_str("system app (");
                append_str(&mut m, bid.as_str());
                append_str(&mut m, ") — refuse");
                blocked = Some(m);
            }
        },
        None => {},
    }
    if blocked.is_none() && is_cask && !opts.force {
        let mut m = String::from_str("looks like a Homebrew cask — use `brew uninstall --cask ");
        let lower = to_lowercase(app.name.as_str());
        append_str(&mut m, lower.as_str());
        append_str(&mut m, "` (or pass --force)");
        blocked = Some(m);
    }
    let mut items: Vec<RemovalItem> = Vec::new();
    if !opts.leftovers_only {
        items.push(RemovalItem { path: app.path.clone(), size: app.size, kind: ItemKind::AppBundle });
    }
    let ghost head = items@.map_values(|i: RemovalItem| removal_view(i));
    assert(head =~= (if opts.leftovers_only {
        Seq::<(Seq<char>, u64, ItemKind)>::empty()
    } else {
        seq![(app.path@, app.size, ItemKind::AppBundle)]
    }));
    if !opts.shallow {
        let mut i: usize = 0;
        while i < leftovers.len()
            invariant
                i <= leftovers@.len(),
                items@.map_values(|i: RemovalItem| removal_view(i)) == head + leftovers@.take(i as int).map_values(|i: RemovalItem| removal_view(i)),
            decreases leftovers@.len() - i,
        {
            let it = &leftovers[i];
            let ghost before = items@.map_values(|i: RemovalItem| removal_view(i));
            items.push(RemovalItem { path: it.path.clone(), size: it.size, kind: it.kind });
            assert(items@.map_values(|i: RemovalItem| removal_view(i)) =~= before.push(removal_view(leftovers@[i as int])));
            assert(leftovers@.take(i + 1).map_values(|i: RemovalItem| removal_view(i)) =~= leftovers@.take(i as int).map_values(|i: RemovalItem| removal_view(i)).push(removal_view(leftovers@[i as int])));
            i += 1;
        }
        assert(leftovers@.take(leftovers@.len() as int) =~= leftovers@);
    }
    assert(items@.map_values(|i: RemovalItem| removal_view(i)) =~= plan_items(*app, opts.leftovers_only, opts.shallow, leftovers@));
    Plan { app: app.duplicate(), items, blocked }
}

} // verus!
