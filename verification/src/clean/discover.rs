//! Build the active category list from CLI options and run discovery.
//!
//! Risk gating:
//! - `--category` overrides risk filtering. Naming a category counts as explicit
//!   consent; `--include-*` flags are ignored when `--category` is set.
//! - Otherwise: Safe by default; `--include-review` adds Review;
//!   `--include-destructive` adds Destructive.
use vstd::prelude::*;
use crate::cli::CleanOpts;
use crate::clean::process::ProcessChecker;
use crate::clean::providers::{items_result_view, ProviderIo};
use crate::clean::registry::{all_providers, app_of, catalogue, id_of, label_of, risk_of, Category};
use crate::clean::types::{CleanItem, RiskLevel};
use crate::text::str_eq;

verus! {

broadcast use vstd::string::group_string_axioms;

pub struct CategoryGroup {
    pub id: String,
    pub label: String,
    pub risk: RiskLevel,
    pub items: Vec<CleanItem>,
    pub total_size: u64,
}

pub struct DiscoveryReport {
    pub groups: Vec<CategoryGroup>,
    /// `(category_id, app)` for each category skipped because its app runs.
    pub skipped_running: Vec<(String, String)>,
}

/// Whether the options select category `c`.
pub open spec fn is_selected(opts: CleanOpts, c: Category) -> bool {
    if opts.category@.len() > 0 {
        exists|j: int| 0 <= j < opts.category@.len() && (#[trigger] opts.category@[j])@ == id_of(c)
    } else {
        match risk_of(c) {
            RiskLevel::Safe => true,
            RiskLevel::Review => opts.include_review,
            RiskLevel::Destructive => opts.include_destructive,
        }
    }
}

/// The categories of `cats` that the options select, in order.
pub open spec fn selection(opts: CleanOpts, cats: Seq<Category>) -> Seq<Category>
    decreases cats.len(),
{
    if cats.len() == 0 {
        Seq::<Category>::empty()
    } else {
        let p = selection(opts, cats.drop_last());
        if is_selected(opts, cats.last()) {
            p.push(cats.last())
        } else {
            p
        }
    }
}

/// A selection from a list without repeats has none either, and takes its members
/// from the list.
pub proof fn lemma_selection_distinct(opts: CleanOpts, cats: Seq<Category>)
    requires
        cats.no_duplicates(),
    ensures
        selection(opts, cats).no_duplicates(),
        forall|k: int| 0 <= k < selection(opts, cats).len() ==> cats.contains(#[trigger] selection(opts, cats)[k]),
    decreases cats.len(),
{
    if cats.len() > 0 {
        let d = cats.drop_last();
        assert(d.no_duplicates()) by {
            assert forall|i: int, j: int| 0 <= i < d.len() && 0 <= j < d.len() && i != j implies d[i] != d[j] by {
                assert(d[i] == cats[i] && d[j] == cats[j]);
            }
        }
        lemma_selection_distinct(opts, d);
        let p = selection(opts, d);
        let s = selection(opts, cats);
        assert(!d.contains(cats.last())) by {
            if d.contains(cats.last()) {
                let j = choose|j: int| 0 <= j < d.len() && d[j] == cats.last();
                assert(cats[j] == cats[cats.len() - 1]);
            }
        }
        assert forall|k: int| 0 <= k < s.len() implies cats.contains(#[trigger] s[k]) by {
            if k < p.len() {
                assert(s[k] == p[k]);
                assert(d.contains(p[k]));
                let j = choose|j: int| 0 <= j < d.len() && d[j] == p[k];
                assert(cats[j] == p[k]);
            } else {
                assert(s[k] == cats.last());
                assert(cats[cats.len() - 1] == cats.last());
            }
        }
        assert forall|i: int, j: int| 0 <= i < s.len() && 0 <= j < s.len() && i != j implies s[i] != s[j] by {
            if i < p.len() && j < p.len() {
                assert(s[i] == p[i] && s[j] == p[j]);
            } else if i < p.len() {
                assert(s[i] == p[i]);
                assert(d.contains(p[i]));
            } else if j < p.len() {
                assert(s[j] == p[j]);
                assert(d.contains(p[j]));
            }
        }
    }
}

fn names_category(opts: &CleanOpts, c: Category) -> (r: bool)
    ensures
        r == exists|j: int|
            0 <= j < opts.category@.len() && (#[trigger] opts.category@[j])@ == id_of(c),
{
    let mut j: usize = 0;
    while j < opts.category.len()
        invariant
            j <= opts.category@.len(),
            forall|k: int| 0 <= k < j ==> (#[trigger] opts.category@[k])@ != id_of(c),
        decreases opts.category@.len() - j,
    {
        if str_eq(opts.category[j].as_str(), c.id()) {
            return true;
        }
        j += 1;
    }
    false
}

/// Returns the categories selected by the CLI options, in canonical order.
pub fn select_providers(opts: &CleanOpts) -> (r: Vec<Category>)
    ensures
        r@ == selection(*opts, catalogue()),
{
    let all = all_providers();
    let mut r: Vec<Category> = Vec::new();
    let mut i: usize = 0;
    assert(all@.take(0) =~= Seq::<Category>::empty());
    while i < all.len()
        invariant
            i <= all@.len(),
            all@ == catalogue(),
            r@ == selection(*opts, all@.take(i as int)),
        decreases all@.len() - i,
    {
        let c = all[i];
        let keep = if opts.category.len() > 0 {
            names_category(opts, c)
        } else {
            match c.risk() {
                RiskLevel::Safe => true,
                RiskLevel::Review => opts.include_review,
                RiskLevel::Destructive => opts.include_destructive,
            }
        };
        assert(all@.take(i + 1).drop_last() =~= all@.take(i as int));
        if keep {
            r.push(c);
        }
        i += 1;
    }
    assert(all@.take(all@.len() as int) =~= all@);
    r
}

/// Sum of `t` and the item sizes, saturating at `u64::MAX` after each addition.
pub open spec fn capped_total(t: nat, items: Seq<CleanItem>) -> nat
    decreases items.len(),
{
    if items.len() == 0 {
        t
    } else {
        let p: int = capped_total(t, items.drop_last()) + items.last().size;
        if p > u64::MAX {
            u64::MAX as nat
        } else {
            p as nat
        }
    }
}

/// Plain sum of the item sizes.
pub open spec fn size_sum(items: Seq<CleanItem>) -> nat
    decreases items.len(),
{
    if items.len() == 0 {
        0
    } else {
        (size_sum(items.drop_last()) + items.last().size) as nat
    }
}

/// Saturating after each step is the same as saturating once at the end.
pub proof fn lemma_capped_total_is_capped_sum(t: nat, items: Seq<CleanItem>)
    requires
        t <= u64::MAX,
    ensures
        capped_total(t, items) == if t + size_sum(items) > u64::MAX {
            u64::MAX as nat
        } else {
            t + size_sum(items)
        },
    decreases items.len(),
{
    if items.len() > 0 {
        lemma_capped_total_is_capped_sum(t, items.drop_last());
    }
}

proof fn lemma_capped_total_append(t: nat, a: Seq<CleanItem>, b: Seq<CleanItem>)
    ensures
        capped_total(t, a + b) == capped_total(capped_total(t, a), b),
    decreases b.len(),
{
    if b.len() == 0 {
        assert(a + b =~= a);
    } else {
        lemma_capped_total_append(t, a, b.drop_last());
        assert((a + b).drop_last() =~= a + b.drop_last());
    }
}

/// Adds the item sizes to `t`, saturating.
pub fn add_sizes(t: u64, items: &Vec<CleanItem>) -> (r: u64)
    ensures
        r == capped_total(t as nat, items@),
{
    let mut total = t;
    let mut i: usize = 0;
    assert(items@.take(0) =~= Seq::<CleanItem>::empty());
    while i < items.len()
        invariant
            i <= items@.len(),
            total == capped_total(t as nat, items@.take(i as int)),
        decreases items@.len() - i,
    {
        assert(items@.take(i + 1).drop_last() =~= items@.take(i as int));
        total = total.saturating_add(items[i].size);
        i += 1;
    }
    assert(items@.take(items@.len() as int) =~= items@);
    total
}

/// Groups hold distinct ids, none of them empty, each with its saturated total.
pub open spec fn groups_well_formed(groups: Seq<CategoryGroup>) -> bool {
    &&& forall|a: int, b: int|
        0 <= a < b < groups.len() ==> (#[trigger] groups[a]).id@ != (#[trigger] groups[b]).id@
    &&& forall|a: int|
        0 <= a < groups.len() ==> {
            &&& (#[trigger] groups[a]).items@.len() > 0
            &&& groups[a].total_size == capped_total(0, groups[a].items@)
        }
}

/// Position of the group named `id`, if any.
pub open spec fn group_index(groups: Seq<CategoryGroup>, id: Seq<char>) -> Option<int> {
    if exists|k: int| 0 <= k < groups.len() && (#[trigger] groups[k]).id@ == id {
        Some(choose|k: int| 0 <= k < groups.len() && (#[trigger] groups[k]).id@ == id)
    } else {
        None
    }
}

impl DiscoveryReport {
    pub fn new() -> (r: DiscoveryReport)
        ensures
            r.groups@.len() == 0,
            r.skipped_running@.len() == 0,
    {
        DiscoveryReport { groups: Vec::new(), skipped_running: Vec::new() }
    }

    /// Records that category `c` was skipped because `app` is running.
    pub fn record_skipped(&mut self, c: Category, app: &str)
        ensures
            final(self).groups@ == old(self).groups@,
            final(self).skipped_running@.len() == old(self).skipped_running@.len() + 1,
            final(self).skipped_running@.drop_last() == old(self).skipped_running@,
            final(self).skipped_running@.last().0@ == id_of(c),
            final(self).skipped_running@.last().1@ == app@,
    {
        let id = String::from_str(c.id());
        let a = String::from_str(app);
        self.skipped_running.push((id, a));
        assert(self.skipped_running@.drop_last() =~= old(self).skipped_running@);
    }

    /// Adds the items discovered for category `c`: nothing when there are none, else
    /// they join the group of that id, or a new group at the end.
    pub fn record_items(&mut self, c: Category, items: Vec<CleanItem>)
        requires
            groups_well_formed(old(self).groups@),
        ensures
            groups_well_formed(final(self).groups@),
            final(self).skipped_running@ == old(self).skipped_running@,
            items@.len() == 0 ==> final(self).groups@ == old(self).groups@,
            items@.len() > 0 ==> match group_index(old(self).groups@, id_of(c)) {
                Some(k) => {
                    &&& final(self).groups@.len() == old(self).groups@.len()
                    &&& forall|j: int|
                        0 <= j < old(self).groups@.len() && j != k ==> final(self).groups@[j]
                            == old(self).groups@[j]
                    &&& final(self).groups@[k].id == old(self).groups@[k].id
                    &&& final(self).groups@[k].label == old(self).groups@[k].label
                    &&& final(self).groups@[k].risk == old(self).groups@[k].risk
                    &&& final(self).groups@[k].items@ == old(self).groups@[k].items@ + items@
                },
                None => {
                    &&& final(self).groups@.drop_last() == old(self).groups@
                    &&& final(self).groups@.len() == old(self).groups@.len() + 1
                    &&& final(self).groups@.last().id@ == id_of(c)
                    &&& final(self).groups@.last().label@ == label_of(c)
                    &&& final(self).groups@.last().risk == risk_of(c)
                    &&& final(self).groups@.last().items@ == items@
                },
            },
    {
        if items.len() == 0 {
            return;
        }
        let id = c.id();
        let mut k: usize = 0;
        while k < self.groups.len()
            invariant
                k <= self.groups@.len(),
                self.groups@ == old(self).groups@,
                forall|j: int| 0 <= j < k ==> (#[trigger] self.groups@[j]).id@ != id@,
            ensures
                k <= self.groups@.len(),
                self.groups@ == old(self).groups@,
                forall|j: int| 0 <= j < k ==> (#[trigger] self.groups@[j]).id@ != id@,
                k < self.groups@.len() ==> self.groups@[k as int].id@ == id@,
            decreases self.groups@.len() - k,
        {
            if str_eq(self.groups[k].id.as_str(), id) {
                break;
            }
            k += 1;
        }
        if k < self.groups.len() {
            let ghost old_groups = self.groups@;
            assert(group_index(old_groups, id@) == Some(k as int)) by {
                let q = choose|q: int| 0 <= q < old_groups.len() && (#[trigger] old_groups[q]).id@
                    == id@;
                if q != k {
                    assert(old_groups[q].id@ != old_groups[k as int].id@);
                }
            }
            let mut g = self.groups.remove(k);
            let mut more = items;
            let ghost added = more@;
            let new_total = add_sizes(g.total_size, &more);
            proof {
                lemma_capped_total_append(0, g.items@, added);
            }
            g.items.append(&mut more);
            g.total_size = new_total;
            self.groups.insert(k, g);
            proof {
                let ng = self.groups@;
                assert forall|j: int| 0 <= j < old_groups.len() && j != k implies ng[j]
                    == old_groups[j] by {
                    if j < k {
                    } else {
                    }
                }
                assert forall|a: int, b: int| 0 <= a < b < ng.len() implies (#[trigger] ng[a]).id@
                    != (#[trigger] ng[b]).id@ by {
                    assert(ng[a].id@ == old_groups[a].id@);
                    assert(ng[b].id@ == old_groups[b].id@);
                }
                assert forall|a: int| 0 <= a < ng.len() implies {
                    &&& (#[trigger] ng[a]).items@.len() > 0
                    &&& ng[a].total_size == capped_total(0, ng[a].items@)
                } by {
                    if a != k {
                        assert(ng[a] == old_groups[a]);
                    }
                }
            }
        } else {
            let ghost old_groups = self.groups@;
            assert(group_index(old_groups, id@) is None);
            let total = add_sizes(0, &items);
            let g = CategoryGroup {
                id: String::from_str(id),
                label: String::from_str(c.label()),
                risk: c.risk(),
                items,
                total_size: total,
            };
            self.groups.push(g);
            proof {
                let ng = self.groups@;
                assert(ng.drop_last() =~= old_groups);
                assert forall|a: int, b: int| 0 <= a < b < ng.len() implies (#[trigger] ng[a]).id@
                    != (#[trigger] ng[b]).id@ by {
                    if b == ng.len() - 1 {
                        assert(ng[a] == old_groups[a]);
                    } else {
                        assert(ng[a] == old_groups[a]);
                        assert(ng[b] == old_groups[b]);
                    }
                }
                assert forall|a: int| 0 <= a < ng.len() implies {
                    &&& (#[trigger] ng[a]).items@.len() > 0
                    &&& ng[a].total_size == capped_total(0, ng[a].items@)
                } by {
                    if a < ng.len() - 1 {
                        assert(ng[a] == old_groups[a]);
                    }
                }
            }
        }
    }
}

/// What discovery learned about one selected category: whether it is available,
/// whether the app it waits for is running (false when it waits for none or was not
/// asked), and what its discovery returned (an empty list when it was not asked).
pub struct CategoryAnswer {
    pub available: bool,
    pub app_running: bool,
    pub discovered: Result<Vec<CleanItem>, String>,
}

/// An answer as plain values.
pub open spec fn answer_view(a: CategoryAnswer) -> (bool, bool, Result<Seq<CleanItem>, Seq<char>>) {
    (a.available, a.app_running, items_result_view(a.discovered))
}

pub open spec fn answers_view(v: Seq<CategoryAnswer>) -> Seq<(bool, bool, Result<Seq<CleanItem>, Seq<char>>)> {
    Seq::new(v.len(), |i: int| answer_view(v[i]))
}

/// The answer for the `k`-th selected category; a category without one counts as
/// unavailable.
pub open spec fn answer_at(ans: Seq<(bool, bool, Result<Seq<CleanItem>, Seq<char>>)>, k: int) -> (
    bool,
    bool,
    Result<Seq<CleanItem>, Seq<char>>,
) {
    if 0 <= k < ans.len() {
        ans[k]
    } else {
        (false, false, Ok(Seq::<CleanItem>::empty()))
    }
}

/// A group as plain values: id, label, risk, items, saturated total.
pub open spec fn group_view(g: CategoryGroup) -> (Seq<char>, Seq<char>, RiskLevel, Seq<CleanItem>, nat) {
    (g.id@, g.label@, g.risk, g.items@, g.total_size as nat)
}

/// A discovery result as plain values: the groups and the `(id, app)` skips, or the
/// error.
pub open spec fn report_outcome(r: Result<DiscoveryReport, String>) -> Result<
    (Seq<(Seq<char>, Seq<char>, RiskLevel, Seq<CleanItem>, nat)>, Seq<(Seq<char>, Seq<char>)>),
    Seq<char>,
> {
    match r {
        Ok(rep) => Ok((
            Seq::new(rep.groups@.len(), |i: int| group_view(rep.groups@[i])),
            Seq::new(rep.skipped_running@.len(), |i: int| (rep.skipped_running@[i].0@, rep.skipped_running@[i].1@)),
        )),
        Err(e) => Err(e@),
    }
}

/// What discovery gives for the first `n` categories of `sel`, category by category:
/// an unavailable one adds nothing; an available one whose app is running is
/// recorded as skipped with that app; otherwise its discovery's error ends the run,
/// and its items, when there are any, become a group with its id, label and risk.
pub open spec fn discovered_upto(
    sel: Seq<Category>,
    ans: Seq<(bool, bool, Result<Seq<CleanItem>, Seq<char>>)>,
    n: nat,
) -> Result<(Seq<(Seq<char>, Seq<char>, RiskLevel, Seq<CleanItem>, nat)>, Seq<(Seq<char>, Seq<char>)>), Seq<char>>
    decreases n,
{
    if n == 0 {
        Ok((seq![], seq![]))
    } else {
        let k = n - 1;
        match discovered_upto(sel, ans, (n - 1) as nat) {
            Err(e) => Err(e),
            Ok((gs, sk)) => {
                let c = sel[k];
                let a = answer_at(ans, k);
                if !a.0 {
                    Ok((gs, sk))
                } else if a.1 && app_of(c) is Some {
                    Ok((gs, sk.push((id_of(c), app_of(c)->Some_0))))
                } else {
                    match a.2 {
                        Err(e) => Err(e),
                        Ok(items) => if items.len() == 0 {
                            Ok((gs, sk))
                        } else {
                            Ok((gs.push((id_of(c), label_of(c), risk_of(c), items, capped_total(0, items))), sk))
                        },
                    }
                }
            },
        }
    }
}

/// What discovery gives over the whole selection of `opts`.
pub open spec fn discovery_outcome(
    opts: CleanOpts,
    ans: Seq<(bool, bool, Result<Seq<CleanItem>, Seq<char>>)>,
) -> Result<(Seq<(Seq<char>, Seq<char>, RiskLevel, Seq<CleanItem>, nat)>, Seq<(Seq<char>, Seq<char>)>), Seq<char>> {
    discovered_upto(selection(opts, catalogue()), ans, selection(opts, catalogue()).len())
}

/// The groups of a successful outcome.
pub open spec fn out_groups(
    o: Result<(Seq<(Seq<char>, Seq<char>, RiskLevel, Seq<CleanItem>, nat)>, Seq<(Seq<char>, Seq<char>)>), Seq<char>>,
) -> Seq<(Seq<char>, Seq<char>, RiskLevel, Seq<CleanItem>, nat)> {
    match o {
        Ok(p) => p.0,
        Err(_) => seq![],
    }
}

/// The skips of a successful outcome.
pub open spec fn out_skips(
    o: Result<(Seq<(Seq<char>, Seq<char>, RiskLevel, Seq<CleanItem>, nat)>, Seq<(Seq<char>, Seq<char>)>), Seq<char>>,
) -> Seq<(Seq<char>, Seq<char>)> {
    match o {
        Ok(p) => p.1,
        Err(_) => seq![],
    }
}

/// Whether `id` is the id of one of the first `n` categories of `sel`.
pub open spec fn from_first(sel: Seq<Category>, n: int, id: Seq<char>) -> bool {
    exists|j: int| 0 <= j < n && id_of(#[trigger] sel[j]) == id
}

/// Once discovery has failed, it stays failed with that error.
pub proof fn lemma_error_persists(
    sel: Seq<Category>,
    ans: Seq<(bool, bool, Result<Seq<CleanItem>, Seq<char>>)>,
    m: nat,
    n: nat,
)
    requires
        m <= n,
        discovered_upto(sel, ans, m) is Err,
    ensures
        discovered_upto(sel, ans, n) == discovered_upto(sel, ans, m),
    decreases n - m,
{
    if m < n {
        lemma_error_persists(sel, ans, m, (n - 1) as nat);
    }
}

/// Every group and skip recorded among the first `n` categories bears the id of one
/// of them.
pub proof fn lemma_ids_from_first(
    sel: Seq<Category>,
    ans: Seq<(bool, bool, Result<Seq<CleanItem>, Seq<char>>)>,
    n: nat,
)
    requires
        n <= sel.len(),
    ensures
        forall|g: int|
            0 <= g < out_groups(discovered_upto(sel, ans, n)).len() ==> from_first(
                sel,
                n as int,
                (#[trigger] out_groups(discovered_upto(sel, ans, n))[g]).0,
            ),
        forall|t: int|
            0 <= t < out_skips(discovered_upto(sel, ans, n)).len() ==> from_first(
                sel,
                n as int,
                (#[trigger] out_skips(discovered_upto(sel, ans, n))[t]).0,
            ),
    decreases n,
{
    if n > 0 {
        let k = n - 1;
        lemma_ids_from_first(sel, ans, (n - 1) as nat);
        let o0 = discovered_upto(sel, ans, (n - 1) as nat);
        let o = discovered_upto(sel, ans, n);
        if o is Ok {
            let gs0 = out_groups(o0);
            let sk0 = out_skips(o0);
            let gs = out_groups(o);
            let sk = out_skips(o);
            assert forall|g: int| 0 <= g < gs.len() implies from_first(sel, n as int, (#[trigger] gs[g]).0) by {
                if g < gs0.len() {
                    assert(gs[g] == gs0[g]);
                    assert(from_first(sel, k, gs0[g].0));
                    let j = choose|j: int| 0 <= j < k && id_of(#[trigger] sel[j]) == gs0[g].0;
                    assert(id_of(sel[j]) == gs[g].0);
                } else {
                    assert(id_of(sel[k]) == gs[g].0);
                }
            }
            assert forall|t: int| 0 <= t < sk.len() implies from_first(sel, n as int, (#[trigger] sk[t]).0) by {
                if t < sk0.len() {
                    assert(sk[t] == sk0[t]);
                    assert(from_first(sel, k, sk0[t].0));
                    let j = choose|j: int| 0 <= j < k && id_of(#[trigger] sel[j]) == sk0[t].0;
                    assert(id_of(sel[j]) == sk[t].0);
                } else {
                    assert(id_of(sel[k]) == sk[t].0);
                }
            }
        }
    }
}

/// Whether the `k`-th answer is that of an available category whose app is running.
pub open spec fn skips_at(
    sel: Seq<Category>,
    ans: Seq<(bool, bool, Result<Seq<CleanItem>, Seq<char>>)>,
    k: int,
) -> bool {
    answer_at(ans, k).0 && answer_at(ans, k).1 && app_of(sel[k]) is Some
}

/// Discovery fails once and for all: an outcome that succeeded after `n` categories
/// succeeded after every earlier count too, and its groups and skips then were the
/// first ones of the later lists.
pub proof fn lemma_outcome_grows(
    sel: Seq<Category>,
    ans: Seq<(bool, bool, Result<Seq<CleanItem>, Seq<char>>)>,
    m: nat,
    n: nat,
)
    requires
        m <= n,
        discovered_upto(sel, ans, n) is Ok,
    ensures
        discovered_upto(sel, ans, m) is Ok,
        out_groups(discovered_upto(sel, ans, m)).len() <= out_groups(discovered_upto(sel, ans, n)).len(),
        out_skips(discovered_upto(sel, ans, m)).len() <= out_skips(discovered_upto(sel, ans, n)).len(),
        forall|t: int|
            0 <= t < out_skips(discovered_upto(sel, ans, m)).len() ==> out_skips(discovered_upto(sel, ans, n))[t]
                == #[trigger] out_skips(discovered_upto(sel, ans, m))[t],
    decreases n - m,
{
    if m < n {
        let p = (n - 1) as nat;
        if discovered_upto(sel, ans, p) is Err {
            assert(discovered_upto(sel, ans, n) is Err);
        }
        lemma_outcome_grows(sel, ans, m, p);
    }
}

/// Whether `id` is the id of one of the first `n` categories other than the `k`-th.
pub open spec fn from_others(sel: Seq<Category>, n: int, k: int, id: Seq<char>) -> bool {
    exists|j: int| 0 <= j < n && j != k && id_of(#[trigger] sel[j]) == id
}

/// When the `k`-th category is skipped for its running app, every group bears the
/// id of another category.
pub proof fn lemma_groups_avoid_skipped(
    sel: Seq<Category>,
    ans: Seq<(bool, bool, Result<Seq<CleanItem>, Seq<char>>)>,
    k: int,
    n: nat,
)
    requires
        n <= sel.len(),
        0 <= k < sel.len(),
        skips_at(sel, ans, k),
    ensures
        forall|g: int|
            0 <= g < out_groups(discovered_upto(sel, ans, n)).len() ==> from_others(
                sel,
                n as int,
                k,
                (#[trigger] out_groups(discovered_upto(sel, ans, n))[g]).0,
            ),
    decreases n,
{
    if n > 0 {
        let m = n - 1;
        lemma_groups_avoid_skipped(sel, ans, k, (n - 1) as nat);
        let o0 = discovered_upto(sel, ans, (n - 1) as nat);
        let o = discovered_upto(sel, ans, n);
        if o is Ok {
            let gs0 = out_groups(o0);
            let gs = out_groups(o);
            assert forall|g: int| 0 <= g < gs.len() implies from_others(sel, n as int, k, (#[trigger] gs[g]).0) by {
                if g < gs0.len() {
                    assert(gs[g] == gs0[g]);
                    assert(from_others(sel, m, k, gs0[g].0));
                    let j = choose|j: int| 0 <= j < m && j != k && id_of(#[trigger] sel[j]) == gs0[g].0;
                    assert(id_of(sel[j]) == gs[g].0);
                } else {
                    assert(m != k);
                    assert(id_of(sel[m]) == gs[g].0);
                }
            }
        }
    }
}

/// The outcome does not depend on the discovery answer of a category skipped for
/// its running app.
pub proof fn lemma_skipped_answer_unused(
    sel: Seq<Category>,
    ans: Seq<(bool, bool, Result<Seq<CleanItem>, Seq<char>>)>,
    k: int,
    other: Result<Seq<CleanItem>, Seq<char>>,
    n: nat,
)
    requires
        0 <= k < ans.len(),
        k < sel.len(),
        skips_at(sel, ans, k),
    ensures
        discovered_upto(sel, ans.update(k, (true, true, other)), n) == discovered_upto(sel, ans, n),
    decreases n,
{
    if n > 0 {
        lemma_skipped_answer_unused(sel, ans, k, other, (n - 1) as nat);
        let m = n - 1;
        if m != k {
            assert(answer_at(ans.update(k, (true, true, other)), m) == answer_at(ans, m));
        }
    }
}

/// A selected category that is available and whose app is running is skipped: its
/// discovery answer plays no part in the outcome, and a successful outcome records it
/// as skipped for that app and holds no group of it.
pub proof fn lemma_running_app_is_skipped(
    opts: CleanOpts,
    ans: Seq<(bool, bool, Result<Seq<CleanItem>, Seq<char>>)>,
    k: int,
    other: Result<Seq<CleanItem>, Seq<char>>,
)
    requires
        0 <= k < selection(opts, catalogue()).len(),
        k < ans.len(),
        skips_at(selection(opts, catalogue()), ans, k),
    ensures
        discovery_outcome(opts, ans.update(k, (true, true, other))) == discovery_outcome(opts, ans),
        discovery_outcome(opts, ans) is Ok ==> out_skips(discovery_outcome(opts, ans)).contains(
            (id_of(selection(opts, catalogue())[k]), app_of(selection(opts, catalogue())[k])->Some_0),
        ),
        forall|g: int|
            0 <= g < out_groups(discovery_outcome(opts, ans)).len() ==> (#[trigger] out_groups(
                discovery_outcome(opts, ans),
            )[g]).0 != id_of(selection(opts, catalogue())[k]),
{
    let sel = selection(opts, catalogue());
    let n = sel.len();
    crate::clean::registry::lemma_catalogue_distinct();
    lemma_selection_distinct(opts, catalogue());
    lemma_skipped_answer_unused(sel, ans, k, other, n);
    let o = discovered_upto(sel, ans, n);
    let c = sel[k];
    if o is Ok {
        lemma_outcome_grows(sel, ans, (k + 1) as nat, n);
        let o1 = discovered_upto(sel, ans, (k + 1) as nat);
        let sk1 = out_skips(o1);
        assert(discovered_upto(sel, ans, k as nat) is Ok);
        assert(sk1.last() == (id_of(c), app_of(c)->Some_0));
        let t = sk1.len() - 1;
        assert(out_skips(o)[t] == sk1[t]);
        assert(out_skips(o).contains((id_of(c), app_of(c)->Some_0)));
    }
    lemma_groups_avoid_skipped(sel, ans, k, n);
    assert forall|g: int| 0 <= g < out_groups(o).len() implies (#[trigger] out_groups(o)[g]).0 != id_of(c) by {
        assert(from_others(sel, n as int, k, out_groups(o)[g].0));
        let j = choose|j: int| 0 <= j < n && j != k && id_of(#[trigger] sel[j]) == out_groups(o)[g].0;
        if id_of(sel[j]) == id_of(c) {
            crate::clean::registry::lemma_id_injective(sel[j], c);
        }
    }
}

/// When the `k`-th category is unavailable, every group and skip bears the id of
/// another category.
pub proof fn lemma_unavailable_absent(
    sel: Seq<Category>,
    ans: Seq<(bool, bool, Result<Seq<CleanItem>, Seq<char>>)>,
    k: int,
    n: nat,
)
    requires
        n <= sel.len(),
        0 <= k < sel.len(),
        !answer_at(ans, k).0,
    ensures
        forall|g: int|
            0 <= g < out_groups(discovered_upto(sel, ans, n)).len() ==> from_others(
                sel,
                n as int,
                k,
                (#[trigger] out_groups(discovered_upto(sel, ans, n))[g]).0,
            ),
        forall|t: int|
            0 <= t < out_skips(discovered_upto(sel, ans, n)).len() ==> from_others(
                sel,
                n as int,
                k,
                (#[trigger] out_skips(discovered_upto(sel, ans, n))[t]).0,
            ),
    decreases n,
{
    if n > 0 {
        let m = n - 1;
        lemma_unavailable_absent(sel, ans, k, (n - 1) as nat);
        let o0 = discovered_upto(sel, ans, (n - 1) as nat);
        let o = discovered_upto(sel, ans, n);
        if o is Ok {
            let gs0 = out_groups(o0);
            let gs = out_groups(o);
            let sk0 = out_skips(o0);
            let sk = out_skips(o);
            assert forall|g: int| 0 <= g < gs.len() implies from_others(sel, n as int, k, (#[trigger] gs[g]).0) by {
                if g < gs0.len() {
                    assert(gs[g] == gs0[g]);
                    assert(from_others(sel, m, k, gs0[g].0));
                    let j = choose|j: int| 0 <= j < m && j != k && id_of(#[trigger] sel[j]) == gs0[g].0;
                    assert(id_of(sel[j]) == gs[g].0);
                } else {
                    assert(m != k);
                    assert(id_of(sel[m]) == gs[g].0);
                }
            }
            assert forall|t: int| 0 <= t < sk.len() implies from_others(sel, n as int, k, (#[trigger] sk[t]).0) by {
                if t < sk0.len() {
                    assert(sk[t] == sk0[t]);
                    assert(from_others(sel, m, k, sk0[t].0));
                    let j = choose|j: int| 0 <= j < m && j != k && id_of(#[trigger] sel[j]) == sk0[t].0;
                    assert(id_of(sel[j]) == sk[t].0);
                } else {
                    assert(m != k);
                    assert(id_of(sel[m]) == sk[t].0);
                }
            }
        }
    }
}

/// The outcome does not depend on the other answers of an unavailable category.
pub proof fn lemma_unavailable_answer_unused(
    sel: Seq<Category>,
    ans: Seq<(bool, bool, Result<Seq<CleanItem>, Seq<char>>)>,
    k: int,
    running: bool,
    other: Result<Seq<CleanItem>, Seq<char>>,
    n: nat,
)
    requires
        0 <= k < ans.len(),
        !ans[k].0,
    ensures
        discovered_upto(sel, ans.update(k, (false, running, other)), n) == discovered_upto(sel, ans, n),
    decreases n,
{
    if n > 0 {
        lemma_unavailable_answer_unused(sel, ans, k, running, other, (n - 1) as nat);
        let m = n - 1;
        if m != k {
            assert(answer_at(ans.update(k, (false, running, other)), m) == answer_at(ans, m));
        }
    }
}

/// An unavailable category contributes nothing: its other answers play no part, and
/// no group or skip bears its id.
pub proof fn lemma_unavailable_contributes_nothing(
    opts: CleanOpts,
    ans: Seq<(bool, bool, Result<Seq<CleanItem>, Seq<char>>)>,
    k: int,
    running: bool,
    other: Result<Seq<CleanItem>, Seq<char>>,
)
    requires
        0 <= k < selection(opts, catalogue()).len(),
        k < ans.len(),
        !ans[k].0,
    ensures
        discovery_outcome(opts, ans.update(k, (false, running, other))) == discovery_outcome(opts, ans),
        forall|g: int|
            0 <= g < out_groups(discovery_outcome(opts, ans)).len() ==> (#[trigger] out_groups(
                discovery_outcome(opts, ans),
            )[g]).0 != id_of(selection(opts, catalogue())[k]),
        forall|t: int|
            0 <= t < out_skips(discovery_outcome(opts, ans)).len() ==> (#[trigger] out_skips(
                discovery_outcome(opts, ans),
            )[t]).0 != id_of(selection(opts, catalogue())[k]),
{
    let sel = selection(opts, catalogue());
    let n = sel.len();
    crate::clean::registry::lemma_catalogue_distinct();
    lemma_selection_distinct(opts, catalogue());
    lemma_unavailable_answer_unused(sel, ans, k, running, other, n);
    lemma_unavailable_absent(sel, ans, k, n);
    let o = discovered_upto(sel, ans, n);
    let c = sel[k];
    assert forall|g: int| 0 <= g < out_groups(o).len() implies (#[trigger] out_groups(o)[g]).0 != id_of(c) by {
        assert(from_others(sel, n as int, k, out_groups(o)[g].0));
        let j = choose|j: int| 0 <= j < n && j != k && id_of(#[trigger] sel[j]) == out_groups(o)[g].0;
        if id_of(sel[j]) == id_of(c) {
            crate::clean::registry::lemma_id_injective(sel[j], c);
        }
    }
    assert forall|t: int| 0 <= t < out_skips(o).len() implies (#[trigger] out_skips(o)[t]).0 != id_of(c) by {
        assert(from_others(sel, n as int, k, out_skips(o)[t].0));
        let j = choose|j: int| 0 <= j < n && j != k && id_of(#[trigger] sel[j]) == out_skips(o)[t].0;
        if id_of(sel[j]) == id_of(c) {
            crate::clean::registry::lemma_id_injective(sel[j], c);
        }
    }
}

/// The answers not yet consumed: those from index `i` on.
pub open spec fn answers_from(v: Seq<CategoryAnswer>, i: int) -> Seq<CategoryAnswer> {
    if i <= v.len() {
        v.skip(i)
    } else {
        Seq::<CategoryAnswer>::empty()
    }
}

/// The discovery report for the answers given, category by category over the
/// selection of `opts` (see `discovered_upto`); an answer missing at the end counts
/// as an unavailable category.
pub fn assemble_discovery(opts: &CleanOpts, answers: Vec<CategoryAnswer>) -> (r: Result<DiscoveryReport, String>)
    ensures
        report_outcome(r) == discovery_outcome(*opts, answers_view(answers@)),
{
    let cats = select_providers(opts);
    let ghost sel = cats@;
    let ghost orig = answers@;
    let ghost ans = answers_view(answers@);
    proof {
        crate::clean::registry::lemma_catalogue_distinct();
        lemma_selection_distinct(*opts, catalogue());
    }
    let mut rest = answers;
    let mut report = DiscoveryReport::new();
    let mut i: usize = 0;
    assert(rest@ =~= answers_from(orig, 0));
    assert(out_groups(report_outcome(Ok(report))) =~= out_groups(discovered_upto(sel, ans, 0)));
    assert(out_skips(report_outcome(Ok(report))) =~= out_skips(discovered_upto(sel, ans, 0)));
    while i < cats.len()
        invariant
            i <= cats@.len(),
            cats@ == sel,
            sel == selection(*opts, catalogue()),
            sel.no_duplicates(),
            ans == answers_view(orig),
            orig == answers@,
            rest@ == answers_from(orig, i as int),
            groups_well_formed(report.groups@),
            discovered_upto(sel, ans, i as nat) is Ok,
            out_groups(report_outcome(Ok(report))) == out_groups(discovered_upto(sel, ans, i as nat)),
            out_skips(report_outcome(Ok(report))) == out_skips(discovered_upto(sel, ans, i as nat)),
            forall|g: int| 0 <= g < report.groups@.len() ==> from_first(sel, i as int, (#[trigger] report.groups@[g]).id@),
        decreases cats@.len() - i,
    {
        let ghost k = i as int;
        let a = if rest.len() > 0 {
            rest.remove(0)
        } else {
            CategoryAnswer { available: false, app_running: false, discovered: Ok(Vec::new()) }
        };
        proof {
            if k < orig.len() {
                assert(a == orig[k]);
                assert(rest@ =~= answers_from(orig, k + 1));
            } else {
                assert(rest@ =~= answers_from(orig, k + 1));
            }
            assert(answer_view(a) == answer_at(ans, k));
        }
        let c = cats[i];
        let ghost before = report_outcome(Ok(report));
        let ghost av = answer_view(a);
        i += 1;
        if !a.available {
            continue;
        }
        let app = c.requires_app_quit();
        if a.app_running && app.is_some() {
            let name = app.unwrap();
            let ghost old_groups = report.groups@;
            let ghost old_sk = report.skipped_running@;
            report.record_skipped(c, name);
            proof {
                let now = report_outcome(Ok(report));
                assert(report.groups@ =~= old_groups);
                assert(out_groups(now) =~= out_groups(before));
                assert(out_skips(now) =~= out_skips(before).push((id_of(c), app_of(c)->Some_0)));
            }
            continue;
        }
        let items = match a.discovered {
            Ok(items) => items,
            Err(e) => {
                proof {
                    assert(av.2 == Err::<Seq<CleanItem>, Seq<char>>(e@));
                    assert(discovered_upto(sel, ans, (k + 1) as nat) == Err::<
                        (Seq<(Seq<char>, Seq<char>, RiskLevel, Seq<CleanItem>, nat)>, Seq<(Seq<char>, Seq<char>)>),
                        Seq<char>,
                    >(e@));
                    lemma_error_persists(sel, ans, (k + 1) as nat, sel.len());
                }
                return Err(e);
            },
        };
        let ghost old_groups = report.groups@;
        let ghost added = items@;
        proof {
            assert(group_index(old_groups, id_of(c)) is None) by {
                if exists|q: int| 0 <= q < old_groups.len() && (#[trigger] old_groups[q]).id@ == id_of(c) {
                    let q = choose|q: int| 0 <= q < old_groups.len() && (#[trigger] old_groups[q]).id@ == id_of(c);
                    assert(from_first(sel, k, old_groups[q].id@));
                    let j = choose|j: int| 0 <= j < k && id_of(#[trigger] sel[j]) == old_groups[q].id@;
                    crate::clean::registry::lemma_id_injective(sel[j], sel[k]);
                    assert(sel[j] == sel[k]);
                }
            }
        }
        report.record_items(c, items);
        proof {
            let ng = report.groups@;
            if added.len() > 0 {
                assert(ng.last().total_size == capped_total(0, ng.last().items@));
                assert(out_groups(report_outcome(Ok(report))) =~= out_groups(before).push(
                    (id_of(c), label_of(c), risk_of(c), added, capped_total(0, added)),
                ));
                assert(out_skips(report_outcome(Ok(report))) =~= out_skips(before));
                assert forall|g: int| 0 <= g < ng.len() implies from_first(sel, i as int, (#[trigger] ng[g]).id@) by {
                    if g < old_groups.len() {
                        assert(ng[g] == old_groups[g]);
                        assert(from_first(sel, k, old_groups[g].id@));
                        let j = choose|j: int| 0 <= j < k && id_of(#[trigger] sel[j]) == old_groups[g].id@;
                        assert(0 <= j < i && id_of(sel[j]) == ng[g].id@);
                    } else {
                        assert(id_of(sel[k]) == ng[g].id@);
                    }
                }
            } else {
                assert(out_groups(report_outcome(Ok(report))) =~= out_groups(before));
                assert(out_skips(report_outcome(Ok(report))) =~= out_skips(before));
            }
        }
    }
    Ok(report)
}

/// Whether `a` is what the I/O layer and the checker answered for category `c` when
/// asked as discovery asks: availability first; for an available category, the
/// checker about the app it waits for (not asked, and false, when it waits for none)
/// and then, only when that app is not running, its discovery. What was not asked
/// stands as false and an empty list.
pub open spec fn asked_right<C: ProcessChecker, S: ProviderIo>(
    checker: &C,
    io: &S,
    c: Category,
    a: (bool, bool, Result<Seq<CleanItem>, Seq<char>>),
) -> bool {
    &&& io.available_answer(c, a.0)
    &&& if !a.0 {
        !a.1 && a.2 == Ok::<Seq<CleanItem>, Seq<char>>(Seq::<CleanItem>::empty())
    } else {
        &&& match app_of(c) {
            Some(app) => checker.running_answer(app, a.1),
            None => !a.1,
        }
        &&& if a.1 {
            a.2 == Ok::<Seq<CleanItem>, Seq<char>>(Seq::<CleanItem>::empty())
        } else {
            io.discover_answer(c, a.2)
        }
    }
}

/// Whether `ans` holds, in order, the answers discovery got for the categories of
/// `sel`: one per category asked, each asked as `asked_right` says; every answer
/// before the last is a successful discovery, and the run ends before the last
/// category only after a discovery error.
pub open spec fn answers_asked<C: ProcessChecker, S: ProviderIo>(
    checker: &C,
    io: &S,
    sel: Seq<Category>,
    ans: Seq<(bool, bool, Result<Seq<CleanItem>, Seq<char>>)>,
) -> bool {
    &&& ans.len() <= sel.len()
    &&& forall|k: int| 0 <= k < ans.len() ==> asked_right(checker, io, sel[k], #[trigger] ans[k])
    &&& forall|k: int| 0 <= k < ans.len() - 1 ==> (#[trigger] ans[k]).2 is Ok
    &&& ans.len() < sel.len() ==> (ans.len() > 0 && ans[ans.len() - 1].2 is Err)
}

/// Discovers every selected category, asking the I/O layer and the checker only what
/// the outcome needs: an unavailable category is not asked further, a category whose
/// app is running is skipped without being discovered, and the run stops at the
/// first discovery error. The report is what `assemble_discovery` makes of the
/// answers so asked (see `asked_right` and `discovered_upto`); when the options
/// select no category, nothing is asked and the report is empty.
pub fn discover_with_checker<C: ProcessChecker, S: ProviderIo>(
    opts: &CleanOpts,
    checker: &C,
    io: &S,
) -> (r: Result<DiscoveryReport, String>)
    ensures
        selection(*opts, catalogue()).len() == 0 ==> (r matches Ok(rep) && rep.groups@.len() == 0
            && rep.skipped_running@.len() == 0),
        exists|ans: Seq<(bool, bool, Result<Seq<CleanItem>, Seq<char>>)>|
            #[trigger] answers_asked(checker, io, selection(*opts, catalogue()), ans) && report_outcome(r)
                == discovery_outcome(*opts, ans),
{
    let cats = select_providers(opts);
    let ghost sel = cats@;
    let mut answers: Vec<CategoryAnswer> = Vec::new();
    let mut i: usize = 0;
    while i < cats.len()
        invariant_except_break
            i <= cats@.len(),
            answers@.len() == i,
            forall|k: int| 0 <= k < i ==> asked_right(checker, io, sel[k], #[trigger] answers_view(answers@)[k]),
            forall|k: int| 0 <= k < i ==> (#[trigger] answers_view(answers@)[k]).2 is Ok,
        invariant
            cats@ == sel,
            sel == selection(*opts, catalogue()),
        ensures
            answers_asked(checker, io, sel, answers_view(answers@)),
        decreases cats@.len() - i,
    {
        let c = cats[i];
        let ghost before = answers_view(answers@);
        i += 1;
        let available = io.available(c);
        let mut app_running = false;
        let mut discovered: Result<Vec<CleanItem>, String> = Ok(Vec::new());
        if available {
            if let Some(app) = c.requires_app_quit() {
                app_running = checker.is_running(app);
            }
            if !app_running {
                discovered = io.discover(c);
            }
        }
        let failed = discovered.is_err();
        let a = CategoryAnswer { available, app_running, discovered };
        proof {
            assert(asked_right(checker, io, c, answer_view(a)));
        }
        answers.push(a);
        proof {
            let now = answers_view(answers@);
            assert(now =~= before.push(answer_view(a)));
            assert(sel[i - 1] == c);
        }
        if failed {
            break;
        }
    }
    let ghost ans = answers_view(answers@);
    let r = assemble_discovery(opts, answers);
    proof {
        if selection(*opts, catalogue()).len() == 0 {
            let o = discovery_outcome(*opts, ans);
            assert(o == Ok::<
                (Seq<(Seq<char>, Seq<char>, RiskLevel, Seq<CleanItem>, nat)>, Seq<(Seq<char>, Seq<char>)>),
                Seq<char>,
            >((seq![], seq![])));
            assert(r is Ok);
            assert(out_groups(report_outcome(r)).len() == 0);
            assert(out_skips(report_outcome(r)).len() == 0);
        }
        assert(answers_asked(checker, io, selection(*opts, catalogue()), ans));
    }
    r
}

} // verus!
