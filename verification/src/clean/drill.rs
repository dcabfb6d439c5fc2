//! Per-path drill-down stage: the user may uncheck individual paths of the
//! categories already selected, before execution.
//!
//! Two modes:
//! - Flat: one row per item. Used up to `DRILL_DOWN_FLAT_LIMIT` items.
//! - Summary: above that, items are grouped by the file name of their parent
//!   directory and the user toggles whole groups; unchecking a group excludes every
//!   member path.
//!
//! The result is the list of excluded paths; execution drops the items whose path
//! is in it.
use vstd::prelude::*;
use crate::clean::discover::CategoryGroup;
use crate::clean::types::CleanItem;
use crate::path::{
    compare_keys,
    key_order,
    lemma_key_order,
    parent_name_key,
    parent_name_of,
    render_key,
    render_parent,
    PathKey,
};
use crate::text::{append_str, decimal, push_decimal};
use crate::util::{append_padded_left, bytes_text, format_bytes, pad_left};

verus! {

broadcast use vstd::string::group_string_axioms;

/// Above this many items a category is shown grouped by parent directory name.
pub const DRILL_DOWN_FLAT_LIMIT: usize = 500;

/// The bucket view of a summary: each parent's display form and item indices.
pub open spec fn buckets_view(b: Seq<(String, Vec<usize>)>) -> Seq<(Seq<char>, Seq<usize>)> {
    b.map_values(|p: (String, Vec<usize>)| (p.0@, p.1@))
}

/// The key of a bucket: the parent file name of its first item.
pub open spec fn bucket_key(items: Seq<CleanItem>, b: (Seq<char>, Seq<usize>)) -> Seq<Seq<char>> {
    parent_name_key(items[b.1[0] as int].path@)
}

pub open spec fn ascending(s: Seq<usize>) -> bool {
    forall|a: int, b: int| 0 <= a < b < s.len() ==> s[a] < s[b]
}

/// Item `x` sits in some bucket.
pub open spec fn placed(bs: Seq<(Seq<char>, Seq<usize>)>, x: int) -> bool {
    exists|j: int, t: int| 0 <= j < bs.len() && 0 <= t < bs[j].1.len() && #[trigger] bs[j].1[t] == x
}

/// `bs` groups the items by the file name of their parent directory: every bucket
/// is non-empty, holds ascending indices of items whose parents share one file name,
/// and is labelled with that name (`/` for parents without one); every item is in
/// some bucket; buckets ascend by key.
pub open spec fn summarizes(items: Seq<CleanItem>, bs: Seq<(Seq<char>, Seq<usize>)>) -> bool {
    &&& forall|j: int| 0 <= j < bs.len() ==> (#[trigger] bs[j]).1.len() > 0 && ascending(bs[j].1)
    &&& forall|j: int, t: int|
        0 <= j < bs.len() && 0 <= t < bs[j].1.len() ==> {
            &&& #[trigger] bs[j].1[t] < items.len()
            &&& parent_name_key(items[bs[j].1[t] as int].path@) == bucket_key(items, bs[j])
        }
    &&& forall|j: int| 0 <= j < bs.len() ==> (#[trigger] bs[j]).0 == render_key(bucket_key(items, bs[j]))
    &&& forall|i: int| 0 <= i < items.len() ==> #[trigger] placed(bs, i)
    &&& forall|a: int, b: int|
        0 <= a < b < bs.len() ==> key_order(
            bucket_key(items, #[trigger] bs[a]),
            bucket_key(items, #[trigger] bs[b]),
        ) < 0
}

/// Groups `items` by the file name of their parent directory (items whose parent
/// has no file name, such as the root, count under `/`), ordered by that key;
/// returns each key's display form with the indices of its items.
pub fn summarize_by_subdir(items: &[CleanItem]) -> (r: Vec<(String, Vec<usize>)>)
    ensures
        summarizes(items@, buckets_view(r@)),
{
    let mut buckets: Vec<(String, Vec<usize>)> = Vec::new();
    let mut keys: Vec<PathKey> = Vec::new();
    let mut i: usize = 0;
    while i < items.len()
        invariant
            i <= items@.len(),
            keys@.len() == buckets@.len(),
            forall|j: int|
                0 <= j < keys@.len() ==> (#[trigger] keys@[j]).wf() && buckets@[j].1@.len() > 0
                    && ascending(buckets@[j].1@) && buckets@[j].0@ == render_key(keys@[j].key()),
            forall|j: int, t: int|
                0 <= j < buckets@.len() && 0 <= t < buckets@[j].1@.len() ==> {
                    &&& #[trigger] buckets@[j].1@[t] < i
                    &&& parent_name_key(items@[buckets@[j].1@[t] as int].path@) == keys@[j].key()
                },
            forall|a: int, b: int|
                0 <= a < b < keys@.len() ==> key_order(
                    (#[trigger] keys@[a]).key(),
                    (#[trigger] keys@[b]).key(),
                ) < 0,
            forall|x: int| 0 <= x < i ==> #[trigger] placed(buckets_view(buckets@), x),
        decreases items@.len() - i,
    {
        let pk = parent_name_of(items[i].path.as_str());
        let mut j: usize = 0;
        while j < keys.len() && compare_keys(&keys[j], &pk) < 0
            invariant
                j <= keys@.len(),
                pk.wf(),
                forall|a: int| 0 <= a < keys@.len() ==> (#[trigger] keys@[a]).wf(),
                forall|a: int| 0 <= a < j ==> key_order((#[trigger] keys@[a]).key(), pk.key()) < 0,
            decreases keys@.len() - j,
        {
            j += 1;
        }
        let ghost old_b = buckets@;
        let ghost old_k = keys@;
        let found = j < keys.len() && compare_keys(&keys[j], &pk) == 0;
        if found {
            proof {
                lemma_key_order(keys@[j as int].key(), pk.key(), pk.key());
            }
            let mut b = buckets.remove(j);
            b.1.push(i);
            buckets.insert(j, b);
            proof {
                let nb = buckets@;
                assert forall|a: int| 0 <= a < nb.len() implies nb[a] == old_b[a] || a == j by {}
                assert(nb[j as int].1@ == old_b[j as int].1@.push(i));
                assert forall|a: int|
                    0 <= a < keys@.len() implies (#[trigger] keys@[a]).wf() && buckets@[a].1@.len()
                        > 0 && ascending(buckets@[a].1@) && buckets@[a].0@ == render_key(
                        keys@[a].key(),
                    ) by {
                    if a == j {
                        assert forall|p: int, q: int|
                            0 <= p < q < nb[a].1@.len() implies nb[a].1@[p] < nb[a].1@[q] by {
                            if q == nb[a].1@.len() - 1 {
                                assert(old_b[a].1@[p] < i);
                            }
                        }
                    }
                }
                assert forall|a: int, t: int|
                    0 <= a < nb.len() && 0 <= t < nb[a].1@.len() implies {
                        &&& #[trigger] nb[a].1@[t] < i + 1
                        &&& parent_name_key(items@[nb[a].1@[t] as int].path@) == keys@[a].key()
                    } by {
                    if a == j && t == nb[a].1@.len() - 1 {
                    } else if a == j {
                        assert(nb[a].1@[t] == old_b[a].1@[t]);
                    } else {
                        assert(nb[a] == old_b[a]);
                    }
                }
                let nv = buckets_view(nb);
                let ov = buckets_view(old_b);
                assert forall|x: int| 0 <= x < i + 1 implies #[trigger] placed(nv, x) by {
                    if x == i {
                        assert(nv[j as int].1[nv[j as int].1.len() - 1] == x);
                    } else {
                        assert(placed(ov, x));
                        let (a, t) = choose|a: int, t: int|
                            0 <= a < ov.len() && 0 <= t < ov[a].1.len() && #[trigger] ov[a].1[t] == x;
                        if a == j {
                            assert(nv[a].1[t] == x);
                        } else {
                            assert(nb[a] == old_b[a]);
                            assert(nv[a].1[t] == x);
                        }
                    }
                }
            }
        } else {
            proof {
                if j < old_k.len() {
                    lemma_key_order(old_k[j as int].key(), pk.key(), pk.key());
                    assert(key_order(pk.key(), old_k[j as int].key()) < 0);
                }
            }
            let label = render_parent(&pk);
            let mut members: Vec<usize> = Vec::new();
            members.push(i);
            keys.insert(j, pk);
            buckets.insert(j, (label, members));
            proof {
                let nb = buckets@;
                let nk = keys@;
                assert forall|a: int| 0 <= a < nk.len() && a != j implies nk[a] == (if a < j {
                    old_k[a]
                } else {
                    old_k[a - 1]
                }) && nb[a] == (if a < j {
                    old_b[a]
                } else {
                    old_b[a - 1]
                }) by {}
                assert forall|a: int|
                    0 <= a < keys@.len() implies (#[trigger] keys@[a]).wf() && buckets@[a].1@.len()
                        > 0 && ascending(buckets@[a].1@) && buckets@[a].0@ == render_key(
                        keys@[a].key(),
                    ) by {
                    if a == j {
                        assert(nb[a].1@ =~= seq![i]);
                    }
                }
                assert forall|a: int, t: int|
                    0 <= a < nb.len() && 0 <= t < nb[a].1@.len() implies {
                        &&& #[trigger] nb[a].1@[t] < i + 1
                        &&& parent_name_key(items@[nb[a].1@[t] as int].path@) == keys@[a].key()
                    } by {
                    if a == j {
                        assert(nb[a].1@ =~= seq![i]);
                    }
                }
                assert forall|a: int, b: int| 0 <= a < b < nk.len() implies key_order(
                    (#[trigger] nk[a]).key(),
                    (#[trigger] nk[b]).key(),
                ) < 0 by {
                    if a == j {
                        lemma_key_order(pk.key(), old_k[j as int].key(), old_k[b - 1].key());
                        if b - 1 > j {
                            assert(key_order(old_k[j as int].key(), old_k[b - 1].key()) < 0);
                        }
                    } else if b == j {
                    } else if a < j && b > j {
                        assert(key_order(old_k[a].key(), pk.key()) < 0);
                        lemma_key_order(old_k[a].key(), pk.key(), old_k[b - 1].key());
                        if b - 1 > j {
                            lemma_key_order(pk.key(), old_k[j as int].key(), old_k[b - 1].key());
                            assert(key_order(old_k[j as int].key(), old_k[b - 1].key()) < 0);
                        }
                    }
                }
                let nv = buckets_view(nb);
                let ov = buckets_view(old_b);
                assert forall|x: int| 0 <= x < i + 1 implies #[trigger] placed(nv, x) by {
                    if x == i {
                        assert(nb[j as int].1@ =~= seq![i]);
                        assert(nv[j as int].1[0] == x);
                    } else {
                        assert(placed(ov, x));
                        let (a, t) = choose|a: int, t: int|
                            0 <= a < ov.len() && 0 <= t < ov[a].1.len() && #[trigger] ov[a].1[t] == x;
                        if a < j {
                            assert(nb[a] == old_b[a]);
                            assert(nv[a].1[t] == x);
                        } else {
                            assert(nb[a + 1] == old_b[a]);
                            assert(nv[a + 1].1[t] == x);
                        }
                    }
                }
            }
        }
        i += 1;
    }
    proof {
        let bs = buckets_view(buckets@);
        assert forall|j: int| 0 <= j < bs.len() implies bucket_key(items@, #[trigger] bs[j])
            == keys@[j].key() by {
            assert(bs[j].1 == buckets@[j].1@);
            assert(buckets@[j].1@[0] == bs[j].1[0]);
        }
        assert forall|j: int, t: int| 0 <= j < bs.len() && 0 <= t < bs[j].1.len() implies {
            &&& #[trigger] bs[j].1[t] < items@.len()
            &&& parent_name_key(items@[bs[j].1[t] as int].path@) == bucket_key(items@, bs[j])
        } by {
            assert(bs[j].1[t] == buckets@[j].1@[t]);
        }
        assert forall|a: int, b: int| 0 <= a < b < bs.len() implies key_order(
            bucket_key(items@, #[trigger] bs[a]),
            bucket_key(items@, #[trigger] bs[b]),
        ) < 0 by {
            assert(key_order(keys@[a].key(), keys@[b].key()) < 0);
        }
    }
    buckets
}

/// How the drill-down shows a category.
#[derive(Debug, Clone, Copy, PartialEq, Eq, Structural)]
pub enum DrillMode {
    /// No items: nothing to ask.
    Skip,
    /// One row per item.
    Flat,
    /// One row per parent directory.
    Summary,
}

pub open spec fn mode_for(n: nat) -> DrillMode {
    if n == 0 {
        DrillMode::Skip
    } else if n > DRILL_DOWN_FLAT_LIMIT {
        DrillMode::Summary
    } else {
        DrillMode::Flat
    }
}

pub fn drill_mode(group: &CategoryGroup) -> (r: DrillMode)
    ensures
        r == mode_for(group.items@.len()),
{
    if group.items.len() == 0 {
        DrillMode::Skip
    } else if group.items.len() > DRILL_DOWN_FLAT_LIMIT {
        DrillMode::Summary
    } else {
        DrillMode::Flat
    }
}

/// Whether `row` is one of the kept rows.
pub open spec fn row_kept(kept: Seq<usize>, row: int) -> bool {
    exists|k: int| 0 <= k < kept.len() && kept[k] == row
}

fn kept_contains(kept: &[usize], row: usize) -> (r: bool)
    ensures
        r == row_kept(kept@, row as int),
{
    let mut k: usize = 0;
    while k < kept.len()
        invariant
            k <= kept@.len(),
            forall|a: int| 0 <= a < k ==> kept@[a] != row,
        decreases kept@.len() - k,
    {
        if kept[k] == row {
            return true;
        }
        k += 1;
    }
    false
}

/// The paths of the items whose row is not kept, in order.
pub open spec fn flat_excluded(items: Seq<CleanItem>, kept: Seq<usize>) -> Seq<String>
    decreases items.len(),
{
    if items.len() == 0 {
        Seq::<String>::empty()
    } else {
        let p = flat_excluded(items.drop_last(), kept);
        if row_kept(kept, items.len() - 1) {
            p
        } else {
            p.push(items.last().path)
        }
    }
}

/// The paths of the items at `members`, in order.
pub open spec fn member_paths(items: Seq<CleanItem>, members: Seq<usize>) -> Seq<String> {
    members.map_values(|i: usize| items[i as int].path)
}

/// The paths of every item of the parent groups whose row is not kept, in order.
pub open spec fn summary_excluded(
    items: Seq<CleanItem>,
    bs: Seq<(Seq<char>, Seq<usize>)>,
    kept: Seq<usize>,
) -> Seq<String>
    decreases bs.len(),
{
    if bs.len() == 0 {
        Seq::<String>::empty()
    } else {
        let p = summary_excluded(items, bs.drop_last(), kept);
        if row_kept(kept, bs.len() - 1) {
            p
        } else {
            p + member_paths(items, bs.last().1)
        }
    }
}

/// Adds to `excluded` the paths of the items whose row the user unchecked in the
/// flat list; `None` (the user skipped the category) keeps every item.
pub fn exclude_flat(group: &CategoryGroup, kept: Option<&[usize]>, excluded: &mut Vec<String>)
    ensures
        kept is None ==> final(excluded)@ == old(excluded)@,
        kept matches Some(k) ==> final(excluded)@ == old(excluded)@ + flat_excluded(
            group.items@,
            k@,
        ),
{
    let kept = match kept {
        None => {
            return ;
        },
        Some(k) => k,
    };
    let ghost start = excluded@;
    let mut i: usize = 0;
    assert(group.items@.take(0) =~= Seq::<CleanItem>::empty());
    assert(start + flat_excluded(group.items@.take(0), kept@) =~= start);
    while i < group.items.len()
        invariant
            i <= group.items@.len(),
            excluded@ == start + flat_excluded(group.items@.take(i as int), kept@),
        decreases group.items@.len() - i,
    {
        let ghost t = group.items@.take(i + 1);
        assert(t.drop_last() =~= group.items@.take(i as int));
        assert(t.last() == group.items@[i as int]);
        if !kept_contains(kept, i) {
            excluded.push(group.items[i].path.clone());
            assert(excluded@ =~= start + flat_excluded(t, kept@));
        }
        i += 1;
    }
    assert(group.items@.take(group.items@.len() as int) =~= group.items@);
}

/// Adds to `excluded` the paths of every item of the parent groups the user
/// unchecked; `None` (the user skipped the category) keeps every item.
pub fn exclude_summary(
    group: &CategoryGroup,
    buckets: &Vec<(String, Vec<usize>)>,
    kept: Option<&[usize]>,
    excluded: &mut Vec<String>,
)
    requires
        summarizes(group.items@, buckets_view(buckets@)),
    ensures
        kept is None ==> final(excluded)@ == old(excluded)@,
        kept matches Some(k) ==> final(excluded)@ == old(excluded)@ + summary_excluded(
            group.items@,
            buckets_view(buckets@),
            k@,
        ),
{
    let kept = match kept {
        None => {
            return ;
        },
        Some(k) => k,
    };
    let ghost bs = buckets_view(buckets@);
    let ghost start = excluded@;
    let mut b: usize = 0;
    assert(bs.take(0) =~= Seq::<(Seq<char>, Seq<usize>)>::empty());
    assert(start + summary_excluded(group.items@, bs.take(0), kept@) =~= start);
    while b < buckets.len()
        invariant
            b <= buckets@.len(),
            bs == buckets_view(buckets@),
            summarizes(group.items@, bs),
            excluded@ == start + summary_excluded(group.items@, bs.take(b as int), kept@),
        decreases buckets@.len() - b,
    {
        let ghost tb = bs.take(b + 1);
        assert(tb.drop_last() =~= bs.take(b as int));
        assert(tb.last() == bs[b as int]);
        if !kept_contains(kept, b) {
            let members = &buckets[b].1;
            assert(members@ == bs[b as int].1);
            let ghost mark = excluded@;
            let mut t: usize = 0;
            assert(member_paths(group.items@, members@.take(0)) =~= Seq::<String>::empty());
            while t < members.len()
                invariant
                    t <= members@.len(),
                    b < bs.len(),
                    members@ == bs[b as int].1,
                    summarizes(group.items@, bs),
                    excluded@ == mark + member_paths(group.items@, members@.take(t as int)),
                decreases members@.len() - t,
            {
                assert(bs[b as int].1[t as int] < group.items@.len());
                let idx = members[t];
                excluded.push(group.items[idx].path.clone());
                assert(member_paths(group.items@, members@.take(t + 1)) =~= member_paths(
                    group.items@,
                    members@.take(t as int),
                ).push(group.items@[idx as int].path));
                t += 1;
                assert(excluded@ =~= mark + member_paths(group.items@, members@.take(t as int)));
            }
            assert(members@.take(members@.len() as int) =~= members@);
            assert(excluded@ =~= start + summary_excluded(group.items@, tb, kept@));
        }
        b += 1;
    }
    assert(bs.take(bs.len() as int) =~= bs);
}

/// One step of the drill-down: given the rows the user kept for `group` (`None`
/// when the user skipped it with Esc), adds the paths it excludes. Up to the flat
/// limit the rows are the items; above it they are the parent groups of
/// `summarize_by_subdir`.
pub fn drill_down(group: &CategoryGroup, kept: Option<&[usize]>, excluded: &mut Vec<String>)
    ensures
        kept is None || mode_for(group.items@.len()) == DrillMode::Skip
            ==> final(excluded)@ == old(excluded)@,
        mode_for(group.items@.len()) == DrillMode::Flat ==> (kept matches Some(k)
            ==> final(excluded)@ == old(excluded)@ + flat_excluded(group.items@, k@)),
        mode_for(group.items@.len()) == DrillMode::Summary ==> (kept matches Some(k) ==> exists|
            bs: Seq<(Seq<char>, Seq<usize>)>,
        |
            summarizes(group.items@, bs) && final(excluded)@ == old(excluded)@ + summary_excluded(
                group.items@,
                bs,
                k@,
            )),
{
    match drill_mode(group) {
        DrillMode::Skip => {},
        DrillMode::Flat => exclude_flat(group, kept, excluded),
        DrillMode::Summary => {
            let buckets = summarize_by_subdir(group.items.as_slice());
            exclude_summary(group, &buckets, kept, excluded);
        },
    }
}

/// The row text of an item in the flat list: its size right-aligned to ten
/// characters, two spaces, its path.
pub open spec fn flat_row_text(item: CleanItem) -> Seq<char> {
    pad_left(bytes_text(item.size as nat), 10) + "  "@ + item.path@
}

pub fn flat_rows(group: &CategoryGroup) -> (r: Vec<String>)
    ensures
        r@.len() == group.items@.len(),
        forall|i: int| 0 <= i < r@.len() ==> (#[trigger] r@[i])@ == flat_row_text(group.items@[i]),
{
    let mut r: Vec<String> = Vec::new();
    let mut i: usize = 0;
    while i < group.items.len()
        invariant
            i <= group.items@.len(),
            r@.len() == i,
            forall|k: int| 0 <= k < i ==> (#[trigger] r@[k])@ == flat_row_text(group.items@[k]),
        decreases group.items@.len() - i,
    {
        let item = &group.items[i];
        let mut s = String::new();
        let b = format_bytes(item.size);
        append_padded_left(&mut s, b.as_str(), 10);
        append_str(&mut s, "  ");
        append_str(&mut s, item.path.as_str());
        assert(s@ =~= flat_row_text(*item));
        r.push(s);
        i += 1;
    }
    r
}

/// The flat-list question.
pub open spec fn flat_prompt_text(group: CategoryGroup) -> Seq<char> {
    "["@ + group.label@ + "] keep checked to delete, uncheck to skip ("@ + decimal(
        group.items@.len(),
    ) + " items) — Esc to skip group"@
}

pub fn flat_prompt(group: &CategoryGroup) -> (s: String)
    ensures
        s@ == flat_prompt_text(*group),
{
    let mut s = String::new();
    append_str(&mut s, "[");
    append_str(&mut s, group.label.as_str());
    append_str(&mut s, "] keep checked to delete, uncheck to skip (");
    push_decimal(&mut s, group.items.len() as u64);
    append_str(&mut s, " items) — Esc to skip group");
    assert(s@ =~= flat_prompt_text(*group));
    s
}

/// The summary question.
pub open spec fn summary_prompt_text(group: CategoryGroup) -> Seq<char> {
    "["@ + group.label@ + "] "@ + decimal(group.items@.len()) + " items > "@ + decimal(
        DRILL_DOWN_FLAT_LIMIT as nat,
    ) + " — grouped by parent dir — Esc to skip group"@
}

pub fn summary_prompt(group: &CategoryGroup) -> (s: String)
    ensures
        s@ == summary_prompt_text(*group),
{
    let mut s = String::new();
    append_str(&mut s, "[");
    append_str(&mut s, group.label.as_str());
    append_str(&mut s, "] ");
    push_decimal(&mut s, group.items.len() as u64);
    append_str(&mut s, " items > ");
    push_decimal(&mut s, DRILL_DOWN_FLAT_LIMIT as u64);
    append_str(&mut s, " — grouped by parent dir — Esc to skip group");
    assert(s@ =~= summary_prompt_text(*group));
    s
}

/// Sum of the sizes of the items at `members`.
pub open spec fn bucket_size(items: Seq<CleanItem>, members: Seq<usize>) -> nat
    decreases members.len(),
{
    if members.len() == 0 {
        0
    } else {
        (bucket_size(items, members.drop_last()) + items[members.last() as int].size) as nat
    }
}

/// The row text of a parent group in the summary.
pub open spec fn summary_row_text(items: Seq<CleanItem>, b: (Seq<char>, Seq<usize>)) -> Seq<char> {
    pad_left(bytes_text(bucket_size(items, b.1)), 10) + "  "@ + b.0 + " ("@ + decimal(b.1.len())
        + " items)"@
}

proof fn lemma_bucket_size_prefix(items: Seq<CleanItem>, m: Seq<usize>, j: int)
    requires
        0 <= j <= m.len(),
    ensures
        bucket_size(items, m.take(j)) <= bucket_size(items, m),
    decreases m.len() - j,
{
    if j < m.len() {
        lemma_bucket_size_prefix(items, m, j + 1);
        assert(m.take(j + 1).drop_last() =~= m.take(j));
    } else {
        assert(m.take(j) =~= m);
    }
}

/// The rows of the summary; each parent's total size must fit in a `u64`.
pub fn summary_rows(group: &CategoryGroup, buckets: &Vec<(String, Vec<usize>)>) -> (r: Vec<String>)
    requires
        summarizes(group.items@, buckets_view(buckets@)),
        forall|b: int|
            0 <= b < buckets@.len() ==> bucket_size(group.items@, (#[trigger] buckets@[b]).1@)
                <= u64::MAX,
    ensures
        r@.len() == buckets@.len(),
        forall|b: int|
            0 <= b < r@.len() ==> (#[trigger] r@[b])@ == summary_row_text(
                group.items@,
                buckets_view(buckets@)[b],
            ),
{
    let ghost bs = buckets_view(buckets@);
    let mut r: Vec<String> = Vec::new();
    let mut b: usize = 0;
    while b < buckets.len()
        invariant
            b <= buckets@.len(),
            r@.len() == b,
            bs == buckets_view(buckets@),
            summarizes(group.items@, bs),
            forall|c: int|
                0 <= c < buckets@.len() ==> bucket_size(group.items@, (#[trigger] buckets@[c]).1@)
                    <= u64::MAX,
            forall|c: int|
                0 <= c < b ==> (#[trigger] r@[c])@ == summary_row_text(group.items@, bs[c]),
        decreases buckets@.len() - b,
    {
        let members = &buckets[b].1;
        assert(members@ == bs[b as int].1);
        let mut total: u64 = 0;
        let mut t: usize = 0;
        assert(members@.take(0) =~= Seq::<usize>::empty());
        while t < members.len()
            invariant
                t <= members@.len(),
                b < buckets@.len(),
                bs == buckets_view(buckets@),
                members@ == bs[b as int].1,
                summarizes(group.items@, bs),
                bucket_size(group.items@, members@) <= u64::MAX,
                total == bucket_size(group.items@, members@.take(t as int)),
            decreases members@.len() - t,
        {
            assert(bs[b as int].1[t as int] < group.items@.len());
            assert(members@.take(t + 1).drop_last() =~= members@.take(t as int));
            proof {
                lemma_bucket_size_prefix(group.items@, members@, t + 1);
            }
            total = total + group.items[members[t]].size;
            t += 1;
        }
        assert(members@.take(members@.len() as int) =~= members@);
        let mut s = String::new();
        let sz = format_bytes(total);
        append_padded_left(&mut s, sz.as_str(), 10);
        append_str(&mut s, "  ");
        append_str(&mut s, buckets[b].0.as_str());
        append_str(&mut s, " (");
        push_decimal(&mut s, members.len() as u64);
        append_str(&mut s, " items)");
        assert(s@ =~= summary_row_text(group.items@, bs[b as int]));
        r.push(s);
        b += 1;
    }
    r
}

} // verus!
