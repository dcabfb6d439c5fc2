//! Properties that hold across the library's functions.
use vstd::prelude::*;
use crate::cli::CleanOpts;
use crate::clean::discover::{
    discovery_outcome, from_first, is_selected, lemma_ids_from_first, lemma_running_app_is_skipped,
    lemma_unavailable_contributes_nothing, out_groups, out_skips,
    selection, skips_at,
};
use crate::clean::execute::{action_for, is_excluded, kept_items, trash_id, ExecError};
use crate::clean::picker::{buckets_of, checked_iff_safe, family_buckets, family_members, family_order, lemma_buckets_in_range, lemma_rows_checked_iff_safe, picker_rows};
use crate::clean::registry::{app_of, catalogue, family_for_id, id_of, risk_of, Category, Family};
use crate::clean::tools::{placeholder_name, placeholder_prefix, snapshot_date, snapshot_prefix, snapshot_suffix};
use crate::clean::types::{CleanAction, CleanItem, ExecAction, RiskLevel};
use crate::clean::discover::CategoryGroup;
use crate::clean::drill::{flat_excluded, member_paths, row_kept, summary_excluded};
use crate::clean::exclusion::{drilled, lemma_drilled_paths_from_groups, path_of_groups};
use crate::clean::rules::locations_of;
use crate::clean::tools::{cargo_subdirs, safe_cargo_path};
use crate::path::{file_name, path_components};
use crate::scan::duplicates::{class_listed, class_members, file_key, is_class_list, key_of, lemma_class_members_exact, Class};
use crate::scan::types::FileEntry;
use crate::scan::plan::join_text;
use crate::scan::walker::{lemma_same_scanned, same_for_scan, scanned, scanned_roots};
use crate::clean::walk::{
    found_in, lemma_found_are_outputs, lemma_same_found, offered_from, same_for_walk, Finder, FsNode,
};
use crate::clean::flow::{run_flow, step_spec, FlowCommand, FlowEnd, FlowEvent, FlowState};
use crate::scan::ignore::{merge_line, merge_lines, IgnoreRules};
use crate::text::{ends_with, starts_with};
use crate::util::truncated;

verus! {

/// Every category in a selection is one the options select, and the selection keeps
/// the order of the list it was taken from.
pub proof fn law_selection_selects(opts: CleanOpts, cats: Seq<Category>)
    ensures
        forall|k: int| 0 <= k < selection(opts, cats).len() ==> is_selected(opts, #[trigger] selection(opts, cats)[k]),
        forall|k: int| 0 <= k < selection(opts, cats).len() ==> cats.contains(#[trigger] selection(opts, cats)[k]),
        forall|c: Category| cats.contains(c) && is_selected(opts, c) ==> selection(opts, cats).contains(c),
    decreases cats.len(),
{
    if cats.len() > 0 {
        law_selection_selects(opts, cats.drop_last());
        let p = selection(opts, cats.drop_last());
        let s = selection(opts, cats);
        assert forall|k: int| 0 <= k < s.len() implies is_selected(opts, #[trigger] s[k]) && cats.contains(s[k]) by {
            if k < p.len() {
                assert(s[k] == p[k]);
                assert(cats.drop_last().contains(p[k]));
                let j = choose|j: int| 0 <= j < cats.drop_last().len() && cats.drop_last()[j] == p[k];
                assert(cats[j] == p[k]);
            } else {
                assert(s[k] == cats.last());
                assert(cats[cats.len() - 1] == cats.last());
            }
        }
        assert forall|c: Category| cats.contains(c) && is_selected(opts, c) implies s.contains(c) by {
            let j = choose|j: int| 0 <= j < cats.len() && cats[j] == c;
            if j < cats.len() - 1 {
                assert(cats.drop_last()[j] == c);
                assert(p.contains(c));
                let k = choose|k: int| 0 <= k < p.len() && p[k] == c;
                assert(s[k] == c);
            } else {
                assert(s[s.len() - 1] == c);
            }
        }
    }
}

/// Naming categories with `--category` decides the selection alone: the
/// `--include-review` and `--include-destructive` flags change nothing then.
pub proof fn law_category_overrides_risk_flags(a: CleanOpts, b: CleanOpts, cats: Seq<Category>)
    requires
        a.category@ == b.category@,
        a.category@.len() > 0,
    ensures
        selection(a, cats) == selection(b, cats),
    decreases cats.len(),
{
    if cats.len() > 0 {
        law_category_overrides_risk_flags(a, b, cats.drop_last());
    }
}

/// With `--category`, exactly the named categories are selected, whatever their
/// risk.
pub proof fn law_named_categories_selected(opts: CleanOpts, c: Category)
    requires
        opts.category@.len() > 0,
    ensures
        selection(opts, catalogue()).contains(c) <==> exists|j: int|
            0 <= j < opts.category@.len() && (#[trigger] opts.category@[j])@ == id_of(c),
{
    law_selection_selects(opts, catalogue());
    crate::clean::registry::lemma_catalogue_complete(c);
}

/// Without `--category` only Safe categories are selected by default;
/// `--include-review` adds Review ones and only `--include-destructive` adds
/// Destructive ones.
pub proof fn law_default_risk_gating(opts: CleanOpts)
    requires
        opts.category@.len() == 0,
    ensures
        forall|k: int| 0 <= k < selection(opts, catalogue()).len() ==> {
            let r = risk_of(#[trigger] selection(opts, catalogue())[k]);
            &&& r == RiskLevel::Review ==> opts.include_review
            &&& r == RiskLevel::Destructive ==> opts.include_destructive
        },
        forall|c: Category| risk_of(c) == RiskLevel::Safe ==> selection(opts, catalogue()).contains(c),
{
    law_selection_selects(opts, catalogue());
    assert forall|c: Category| risk_of(c) == RiskLevel::Safe implies selection(opts, catalogue()).contains(c) by {
        crate::clean::registry::lemma_catalogue_complete(c);
    }
}

/// The trash category is never asked to move its items to the Trash, and emptying
/// the Trash is only ever asked of it, for a hard delete.
pub proof fn law_trash_actions(action: CleanAction, id: Seq<char>)
    ensures
        action_for(action, trash_id()) != Ok::<ExecAction, ExecError>(ExecAction::Trash),
        action_for(action, id) == Ok::<ExecAction, ExecError>(ExecAction::EmptyTrash) ==> id == trash_id() && action == CleanAction::HardDelete,
        action == CleanAction::DryRun || action == CleanAction::Cancel ==> action_for(action, id) is Err,
{
}

/// What the executor of a group receives holds no excluded path, keeps every item
/// that is not excluded, and keeps their order.
pub proof fn law_excluded_paths_never_reach_executor(items: Seq<CleanItem>, excluded: Seq<String>)
    ensures
        forall|k: int| 0 <= k < kept_items(items, excluded).len() ==> !is_excluded(excluded, (#[trigger] kept_items(items, excluded)[k]).path@),
        forall|i: int| 0 <= i < items.len() && !is_excluded(excluded, (#[trigger] items[i]).path@) ==> kept_items(items, excluded).contains(items[i]),
        kept_items(items, excluded).len() <= items.len(),
    decreases items.len(),
{
    if items.len() > 0 {
        law_excluded_paths_never_reach_executor(items.drop_last(), excluded);
        let p = kept_items(items.drop_last(), excluded);
        let r = kept_items(items, excluded);
        assert forall|k: int| 0 <= k < r.len() implies !is_excluded(excluded, (#[trigger] r[k]).path@) by {
            if k < p.len() {
                assert(r[k] == p[k]);
            }
        }
        assert forall|i: int| 0 <= i < items.len() && !is_excluded(excluded, (#[trigger] items[i]).path@) implies r.contains(items[i]) by {
            if i < items.len() - 1 {
                assert(items.drop_last()[i] == items[i]);
                assert(p.contains(items[i]));
                let j = choose|j: int| 0 <= j < p.len() && p[j] == items[i];
                assert(r[j] == p[j]);
            } else {
                assert(r[r.len() - 1] == items.last());
            }
        }
    }
}

proof fn lemma_flat_excluded_has(items: Seq<CleanItem>, kept: Seq<usize>, i: int)
    requires
        0 <= i < items.len(),
        !row_kept(kept, i),
    ensures
        is_excluded(flat_excluded(items, kept), items[i].path@),
    decreases items.len(),
{
    let p = flat_excluded(items.drop_last(), kept);
    if i < items.len() - 1 {
        lemma_flat_excluded_has(items.drop_last(), kept, i);
        assert(items.drop_last()[i] == items[i]);
        let j = choose|j: int| 0 <= j < p.len() && (#[trigger] p[j])@ == items[i].path@;
        assert(flat_excluded(items, kept)[j] == p[j]);
    } else {
        let r = flat_excluded(items, kept);
        assert(r[r.len() - 1] == items[i].path);
    }
}

proof fn lemma_excluded_grows(start: Seq<String>, more: Seq<String>, p: Seq<char>)
    requires
        is_excluded(more, p),
    ensures
        is_excluded(start + more, p),
{
    let j = choose|j: int| 0 <= j < more.len() && (#[trigger] more[j])@ == p;
    assert((start + more)[start.len() + j] == more[j]);
}

/// An item whose row the user unchecked in the flat drill-down never reaches the
/// executor of its group.
pub proof fn law_unchecked_items_never_executed(
    items: Seq<CleanItem>,
    start: Seq<String>,
    kept: Seq<usize>,
    i: int,
)
    requires
        0 <= i < items.len(),
        !row_kept(kept, i),
    ensures
        forall|k: int| 0 <= k < kept_items(items, start + flat_excluded(items, kept)).len() ==> (#[trigger] kept_items(items, start + flat_excluded(items, kept))[k]).path@ != items[i].path@,
{
    lemma_flat_excluded_has(items, kept, i);
    lemma_excluded_grows(start, flat_excluded(items, kept), items[i].path@);
    law_excluded_paths_never_reach_executor(items, start + flat_excluded(items, kept));
}

proof fn lemma_summary_excluded_has(items: Seq<CleanItem>, bs: Seq<(Seq<char>, Seq<usize>)>, kept: Seq<usize>, j: int, t: int)
    requires
        0 <= j < bs.len(),
        0 <= t < bs[j].1.len(),
        !row_kept(kept, j),
    ensures
        is_excluded(summary_excluded(items, bs, kept), items[bs[j].1[t] as int].path@),
    decreases bs.len(),
{
    let p = summary_excluded(items, bs.drop_last(), kept);
    if j < bs.len() - 1 {
        lemma_summary_excluded_has(items, bs.drop_last(), kept, j, t);
        assert(bs.drop_last()[j] == bs[j]);
        let x = choose|x: int| 0 <= x < p.len() && (#[trigger] p[x])@ == items[bs[j].1[t] as int].path@;
        assert(summary_excluded(items, bs, kept)[x] == p[x]);
    } else {
        let m = member_paths(items, bs.last().1);
        assert(m[t] == items[bs[j].1[t] as int].path);
        assert(is_excluded(m, items[bs[j].1[t] as int].path@));
        lemma_excluded_grows(p, m, items[bs[j].1[t] as int].path@);
    }
}

/// Every item of a parent group the user unchecked in the summary drill-down never
/// reaches the executor of its category.
pub proof fn law_unchecked_groups_never_executed(
    items: Seq<CleanItem>,
    start: Seq<String>,
    bs: Seq<(Seq<char>, Seq<usize>)>,
    kept: Seq<usize>,
    j: int,
    t: int,
)
    requires
        0 <= j < bs.len(),
        0 <= t < bs[j].1.len(),
        !row_kept(kept, j),
    ensures
        forall|k: int| 0 <= k < kept_items(items, start + summary_excluded(items, bs, kept)).len() ==> (#[trigger] kept_items(items, start + summary_excluded(items, bs, kept))[k]).path@ != items[bs[j].1[t] as int].path@,
{
    lemma_summary_excluded_has(items, bs, kept, j, t);
    lemma_excluded_grows(start, summary_excluded(items, bs, kept), items[bs[j].1[t] as int].path@);
    law_excluded_paths_never_reach_executor(items, start + summary_excluded(items, bs, kept));
}

/// A cut text is exactly `max` characters long and ends with `…`; an uncut one is
/// unchanged.
pub proof fn law_truncate_length(s: Seq<char>, max: nat)
    requires
        s.len() <= max || max >= 1,
    ensures
        truncated(s, max).len() <= max,
        s.len() <= max ==> truncated(s, max) == s,
        s.len() > max ==> truncated(s, max).len() == max && truncated(s, max).last() == '…',
{
}

/// Ignore rules never hold a directory name or an extension twice.
pub proof fn law_ignore_rules_distinct(r: (Seq<Seq<char>>, Seq<Seq<char>>), ls: Seq<Seq<char>>)
    requires
        r.0.no_duplicates(),
        r.1.no_duplicates(),
    ensures
        merge_lines(r, ls).0.no_duplicates(),
        merge_lines(r, ls).1.no_duplicates(),
    decreases ls.len(),
{
    if ls.len() > 0 {
        law_ignore_rules_distinct(r, ls.drop_last());
        let p = merge_lines(r, ls.drop_last());
        let q = merge_line(p, ls.last());
        assert(q.0.no_duplicates()) by {
            if q.0 != p.0 {
                assert forall|i: int, j: int| 0 <= i < j < q.0.len() implies q.0[i] != q.0[j] by {
                    if j == q.0.len() - 1 {
                        assert(p.0[i] == q.0[i]);
                    }
                }
            }
        }
        assert(q.1.no_duplicates()) by {
            if q.1 != p.1 {
                assert forall|i: int, j: int| 0 <= i < j < q.1.len() implies q.1[i] != q.1[j] by {
                    if j == q.1.len() - 1 {
                        assert(p.1[i] == q.1[i]);
                    }
                }
            }
        }
    }
}

proof fn lemma_members_exact(groups: Seq<CategoryGroup>, fam: Family, i: int)
    requires
        0 <= i < groups.len(),
        groups.len() <= usize::MAX,
    ensures
        family_members(groups, fam).contains(i as usize) <==> family_for_id(groups[i].id@) == fam,
    decreases groups.len(),
{
    let m = family_members(groups, fam);
    if i < groups.len() - 1 {
        lemma_members_exact(groups.drop_last(), fam, i);
        let p = family_members(groups.drop_last(), fam);
        assert(groups.drop_last()[i] == groups[i]);
        if p.contains(i as usize) {
            let k = choose|k: int| 0 <= k < p.len() && p[k] == i as usize;
            assert(m[k] == i as usize);
        }
        if m.contains(i as usize) {
            let k = choose|k: int| 0 <= k < m.len() && m[k] == i as usize;
            if k < p.len() {
                assert(p[k] == i as usize);
            } else {
                assert(m[k] == (groups.len() - 1) as usize);
            }
        }
    } else {
        crate::clean::picker::lemma_members_in_range(groups.drop_last(), fam);
        let p = family_members(groups.drop_last(), fam);
        if family_for_id(groups[i].id@) == fam {
            assert(m[m.len() - 1] == i as usize);
        }
        if m.contains(i as usize) {
            let k = choose|k: int| 0 <= k < m.len() && m[k] == i as usize;
            if k < p.len() {
                assert(p[k] == m[k]);
                assert(p[k] < groups.drop_last().len());
            }
        }
    }
}

proof fn lemma_buckets_shape(groups: Seq<CategoryGroup>, fams: Seq<Family>)
    ensures
        forall|k: int|
            0 <= k < buckets_of(groups, fams).len() ==> (#[trigger] buckets_of(groups, fams)[k]).1 == family_members(
                groups,
                buckets_of(groups, fams)[k].0,
            ) && buckets_of(groups, fams)[k].1.len() > 0,
        forall|f: Family|
            fams.contains(f) && family_members(groups, f).len() > 0 ==> exists|k: int|
                0 <= k < buckets_of(groups, fams).len() && (#[trigger] buckets_of(groups, fams)[k]).0 == f,
    decreases fams.len(),
{
    if fams.len() > 0 {
        lemma_buckets_shape(groups, fams.drop_last());
        let p = buckets_of(groups, fams.drop_last());
        let b = buckets_of(groups, fams);
        assert forall|k: int| 0 <= k < b.len() implies (#[trigger] b[k]).1 == family_members(groups, b[k].0) && b[k].1.len() > 0 by {
            if k < p.len() {
                assert(b[k] == p[k]);
            }
        }
        assert forall|f: Family| fams.contains(f) && family_members(groups, f).len() > 0 implies exists|k: int|
            0 <= k < b.len() && (#[trigger] b[k]).0 == f by {
            let j = choose|j: int| 0 <= j < fams.len() && fams[j] == f;
            if j < fams.len() - 1 {
                assert(fams.drop_last()[j] == f);
                assert(fams.drop_last().contains(f));
                let k = choose|k: int| 0 <= k < p.len() && (#[trigger] p[k]).0 == f;
                assert(b[k] == p[k]);
            } else {
                assert(b[b.len() - 1].0 == f);
            }
        }
    }
}

/// In the category picker, the rows that start checked are exactly those of the Safe
/// categories: a family header starts unchecked, and each category row stands for a
/// group of the list and starts checked iff that group is Safe.
pub proof fn law_picker_checks_exactly_safe_categories(groups: Seq<CategoryGroup>)
    requires
        groups.len() <= usize::MAX,
    ensures
        forall|r: int| 0 <= r < picker_rows(groups).len() ==> checked_iff_safe(groups, #[trigger] picker_rows(groups)[r]),
{
    lemma_buckets_in_range(groups, family_order());
    lemma_rows_checked_iff_safe(groups, family_buckets(groups));
}

/// The drill-down over the selected categories excludes only paths of their items,
/// whatever rows the user keeps.
pub proof fn law_drill_down_excludes_only_their_paths(
    groups: Seq<&CategoryGroup>,
    answers: Seq<Option<Seq<usize>>>,
    ex: Seq<String>,
)
    requires
        drilled(groups, answers, ex),
    ensures
        forall|q: int| 0 <= q < ex.len() ==> path_of_groups(groups, #[trigger] ex[q]),
{
    lemma_drilled_paths_from_groups(groups, answers, ex);
}

/// Without hashing, duplicates are grouped by size and file name: each reported
/// class is of non-empty files, holds two or more, and holds exactly the files of its
/// size and file name; and every size and name that two or more non-empty files share
/// is reported.
pub proof fn law_duplicates_by_size_and_name(files: Seq<FileEntry>, cl: Seq<Class>)
    requires
        files.len() <= usize::MAX,
        is_class_list(files, None, cl),
    ensures
        forall|c: int|
            0 <= c < cl.len() ==> {
                &&& (#[trigger] cl[c]).0 > 0
                &&& cl[c].2 is None
                &&& cl[c].3.len() >= 2
                &&& forall|j: int|
                    0 <= j < files.len() ==> (cl[c].3.contains(j as usize) <==> ((#[trigger] files[j]).size == cl[c].0
                        && file_name(files[j].path@) == Some(cl[c].1)))
            },
        forall|j: int|
            0 <= j < files.len() && (#[trigger] files[j]).size > 0 && file_name(files[j].path@) is Some
                && class_members(files, None, (files[j].size, file_name(files[j].path@)->Some_0, None), files.len() as int).len()
                >= 2 ==> exists|c: int|
                0 <= c < cl.len() && (#[trigger] cl[c]).0 == files[j].size && cl[c].1 == file_name(files[j].path@)->Some_0,
{
    let n = files.len() as int;
    assert forall|c: int| 0 <= c < cl.len() implies {
        &&& (#[trigger] cl[c]).0 > 0
        &&& cl[c].2 is None
        &&& cl[c].3.len() >= 2
        &&& forall|j: int|
            0 <= j < files.len() ==> (cl[c].3.contains(j as usize) <==> ((#[trigger] files[j]).size == cl[c].0
                && file_name(files[j].path@) == Some(cl[c].1)))
    } by {
        let k = key_of(cl[c]);
        lemma_class_members_exact(files, None, k, n);
        let m = class_members(files, None, k, n);
        assert(file_key(files, None, m[0] as int) == Some(k));
        assert forall|j: int| 0 <= j < files.len() implies (cl[c].3.contains(j as usize) <==> ((#[trigger] files[j]).size
            == cl[c].0 && file_name(files[j].path@) == Some(cl[c].1))) by {
            assert(m.contains(j as usize) <==> file_key(files, None, j) == Some(k));
        }
    }
    assert forall|j: int|
        0 <= j < files.len() && (#[trigger] files[j]).size > 0 && file_name(files[j].path@) is Some
            && class_members(files, None, (files[j].size, file_name(files[j].path@)->Some_0, None), files.len() as int).len()
            >= 2 implies exists|c: int|
            0 <= c < cl.len() && (#[trigger] cl[c]).0 == files[j].size && cl[c].1 == file_name(files[j].path@)->Some_0 by {
        assert(class_listed(files, None, cl, j));
        let k = (files[j].size, file_name(files[j].path@)->Some_0, None::<u64>);
        assert(file_key(files, None, j) == Some(k));
        let c = choose|c: int| 0 <= c < cl.len() && key_of(#[trigger] cl[c]) == k;
        assert(cl[c].0 == files[j].size);
    }
}

/// The family picker puts every category in the bucket of its family: a bucket
/// holds a group index exactly when its family is the group's, the group's family
/// has a bucket, and no bucket is empty.
pub proof fn law_family_buckets_partition(groups: Seq<CategoryGroup>, i: int)
    requires
        0 <= i < groups.len(),
        groups.len() <= usize::MAX,
    ensures
        forall|k: int|
            0 <= k < family_buckets(groups).len() ==> ((#[trigger] family_buckets(groups)[k]).1.contains(i as usize)
                <==> family_buckets(groups)[k].0 == family_for_id(groups[i].id@)),
        exists|k: int| 0 <= k < family_buckets(groups).len() && (#[trigger] family_buckets(groups)[k]).0 == family_for_id(groups[i].id@),
        forall|k: int| 0 <= k < family_buckets(groups).len() ==> (#[trigger] family_buckets(groups)[k]).1.len() > 0,
{
    lemma_buckets_shape(groups, family_order());
    let b = family_buckets(groups);
    assert forall|k: int| 0 <= k < b.len() implies ((#[trigger] b[k]).1.contains(i as usize) <==> b[k].0 == family_for_id(groups[i].id@)) by {
        lemma_members_exact(groups, b[k].0, i);
    }
    let fam = family_for_id(groups[i].id@);
    lemma_members_exact(groups, fam, i);
    assert(family_order().contains(fam)) by {
        match fam {
            Family::Dev => assert(family_order()[0] == fam),
            Family::UserStorage => assert(family_order()[1] == fam),
            Family::System => assert(family_order()[2] == fam),
        }
    }
}

/// A snapshot name comes back out of the placeholder path made from it.
pub proof fn law_placeholder_round_trip(s: Seq<char>)
    ensures
        placeholder_name(placeholder_prefix() + s + ">"@) == Some(s),
{
    reveal_strlit("<tmutil:");
    reveal_strlit(">");
    let p = placeholder_prefix() + s + ">"@;
    assert(p.take(8) =~= placeholder_prefix());
    assert(p.skip(8) =~= s + ">"@);
    assert((s + ">"@).skip((s + ">"@).len() - 1) =~= ">"@);
    assert((s + ">"@).drop_last() =~= s);
}

/// The date comes back out of a snapshot name built from it.
pub proof fn law_snapshot_date_round_trip(d: Seq<char>)
    requires
        d.len() > 0,
    ensures
        snapshot_date(snapshot_prefix() + d + snapshot_suffix()) == Some(d),
{
    reveal_strlit("com.apple.TimeMachine.");
    reveal_strlit(".local");
    let s = snapshot_prefix() + d + snapshot_suffix();
    assert(s.take(22) =~= snapshot_prefix());
    assert(s.skip(22) =~= d + snapshot_suffix());
    assert((d + snapshot_suffix()).skip((d + snapshot_suffix()).len() - 6) =~= snapshot_suffix());
    assert(s.subrange(22, s.len() - 6) =~= d);
}

/// Every place the cargo category cleans is one of the pinned cargo cache folders,
/// which the cargo path guard accepts.
pub proof fn law_cargo_locations_are_safe(home: Seq<char>, i: int)
    requires
        0 <= i < locations_of(Category::Cargo).len(),
    ensures
        safe_cargo_path(join_text(home, locations_of(Category::Cargo)[i].0), Some(home)),
{
    reveal_strlit(".cargo");
    reveal_strlit(".cargo/registry/cache");
    reveal_strlit(".cargo/registry/src");
    reveal_strlit(".cargo/git/db");
    reveal_strlit(".cargo/git/checkouts");
    reveal_strlit("registry/cache");
    reveal_strlit("registry/src");
    reveal_strlit("git/db");
    reveal_strlit("git/checkouts");
    let loc = locations_of(Category::Cargo)[i].0;
    let sub = cargo_subdirs()[i];
    assert(loc =~= ".cargo"@ + seq!['/'] + sub);
    assert(join_text(home, loc) =~= join_text(join_text(home, ".cargo"@), sub));
    assert(path_components(join_text(home, loc)) == path_components(
        join_text(join_text(home, ".cargo"@), cargo_subdirs()[i]),
    ));
}

/// Whether the run is in the action menu or the hard-delete confirmation.
pub open spec fn asking(s: FlowState) -> bool {
    s is Choosing || s is Confirming
}

proof fn lemma_run_len(opts: CleanOpts, events: Seq<FlowEvent>)
    ensures
        run_flow(opts, events).1.len() == events.len(),
    decreases events.len(),
{
    if events.len() > 0 {
        lemma_run_len(opts, events.drop_last());
    }
}

proof fn lemma_no_menu_without_prompts(opts: CleanOpts, events: Seq<FlowEvent>)
    requires
        opts.dry_run || opts.yes,
    ensures
        !asking(run_flow(opts, events).0),
    decreases events.len(),
{
    if events.len() > 0 {
        lemma_no_menu_without_prompts(opts, events.drop_last());
    }
}

/// A dry run never executes anything, whatever the answers along the way.
pub proof fn law_dry_run_never_executes(opts: CleanOpts, events: Seq<FlowEvent>)
    requires
        opts.dry_run,
    ensures
        forall|k: int| 0 <= k < run_flow(opts, events).1.len() ==> !(#[trigger] run_flow(opts, events).1[k] is Execute),
    decreases events.len(),
{
    if events.len() > 0 {
        law_dry_run_never_executes(opts, events.drop_last());
        lemma_no_menu_without_prompts(opts, events.drop_last());
        let p = run_flow(opts, events.drop_last());
        assert forall|k: int| 0 <= k < run_flow(opts, events).1.len() implies !(#[trigger] run_flow(opts, events).1[k] is Execute) by {
            if k < p.1.len() {
                assert(run_flow(opts, events).1[k] == p.1[k]);
            }
        }
    }
}

/// With `--yes` nothing is asked: no picker, no review, no action menu and no
/// confirmation.
pub proof fn law_yes_never_prompts(opts: CleanOpts, events: Seq<FlowEvent>)
    requires
        opts.yes,
    ensures
        forall|k: int| 0 <= k < run_flow(opts, events).1.len() ==> {
            let c = #[trigger] run_flow(opts, events).1[k];
            !(c is ShowPicker) && !(c is DrillDown) && !(c is AskAction) && !(c is AskHardConfirm)
        },
    decreases events.len(),
{
    if events.len() > 0 {
        law_yes_never_prompts(opts, events.drop_last());
        lemma_no_menu_without_prompts(opts, events.drop_last());
        let p = run_flow(opts, events.drop_last());
        assert forall|k: int| 0 <= k < run_flow(opts, events).1.len() implies {
            let c = #[trigger] run_flow(opts, events).1[k];
            !(c is ShowPicker) && !(c is DrillDown) && !(c is AskAction) && !(c is AskHardConfirm)
        } by {
            if k < p.1.len() {
                assert(run_flow(opts, events).1[k] == p.1[k]);
            }
        }
    }
}

/// A hard delete runs only with `--yes --hard`, or right after the user confirmed it.
pub proof fn law_hard_delete_is_confirmed(opts: CleanOpts, events: Seq<FlowEvent>)
    ensures
        forall|k: int| 0 <= k < run_flow(opts, events).1.len() && #[trigger] run_flow(opts, events).1[k]
            == FlowCommand::Execute(CleanAction::HardDelete) ==> (opts.yes && opts.hard) || events[k]
            == FlowEvent::Confirmed(true),
    decreases events.len(),
{
    if events.len() > 0 {
        law_hard_delete_is_confirmed(opts, events.drop_last());
        lemma_run_len(opts, events.drop_last());
        let p = run_flow(opts, events.drop_last());
        assert forall|k: int| 0 <= k < run_flow(opts, events).1.len() && #[trigger] run_flow(opts, events).1[k]
            == FlowCommand::Execute(CleanAction::HardDelete) implies (opts.yes && opts.hard) || events[k]
            == FlowEvent::Confirmed(true) by {
            if k < p.1.len() {
                assert(run_flow(opts, events).1[k] == p.1[k]);
                assert(events[k] == events.drop_last()[k]);
            }
        }
    }
}

/// Once the run has stopped or executed, it issues nothing but stops.
pub proof fn law_done_is_final(opts: CleanOpts, e: FlowEvent)
    ensures
        step_spec(opts, FlowState::Done, e) == (FlowState::Done, FlowCommand::Finish(FlowEnd::Aborted)),
{
}

/// A project walk reports the same for two trees that differ only inside the
/// directories it does not enter: their contents need never be read.
pub proof fn law_unentered_directories_are_never_read(
    a: FsNode,
    b: FsNode,
    f: Finder,
    idle_days: nat,
    now_secs: nat,
)
    requires
        same_for_walk(seq![a], seq![b], f),
    ensures
        found_in(seq![a], None, f, idle_days, now_secs) == found_in(seq![b], None, f, idle_days, now_secs),
{
    lemma_same_found(seq![a], seq![b], None, None, f, idle_days, now_secs);
}

/// The scan finds the same files under two roots that differ only inside
/// directories it does not enter (too deep, built-in skips, ignored names): their
/// contents need never be read.
pub proof fn law_skipped_directories_are_never_read(
    a: FsNode,
    b: FsNode,
    ignore: IgnoreRules,
    now_secs: u64,
)
    requires
        a.is_dir == b.is_dir,
        same_for_scan(a.children@, b.children@, 0, ignore),
    ensures
        scanned_roots(seq![a], ignore, now_secs) == scanned_roots(seq![b], ignore, now_secs),
{
    lemma_same_scanned(a.children@, b.children@, 0, ignore, now_secs);
    assert(seq![a].drop_last() =~= Seq::<FsNode>::empty());
    assert(seq![b].drop_last() =~= Seq::<FsNode>::empty());
}

/// A project walk offers only directories of the tree it was given, each a project
/// output of its kind (`__pycache__`, a virtualenv, `target`, `node_modules`):
/// nothing outside what was read, and nothing else, is ever offered.
pub proof fn law_walks_offer_only_outputs_of_the_tree(root: FsNode, f: Finder, idle_days: nat, now_secs: nat)
    ensures
        forall|k: int|
            0 <= k < found_in(seq![root], None, f, idle_days, now_secs).len() ==> offered_from(
                seq![root],
                f,
                #[trigger] found_in(seq![root], None, f, idle_days, now_secs)[k],
            ),
{
    lemma_found_are_outputs(seq![root], None, f, idle_days, now_secs);
}

/// Discovery skips a category whose owning app is currently running: for any
/// answers, when a selected category is available and its app runs, what its
/// discovery would return plays no part, a successful report records it as skipped
/// for that app, and none of its groups is listed.
pub proof fn law_running_app_category_is_skipped(
    opts: CleanOpts,
    ans: Seq<(bool, bool, Result<Seq<CleanItem>, Seq<char>>)>,
    k: int,
    other: Result<Seq<CleanItem>, Seq<char>>,
)
    requires
        0 <= k < selection(opts, catalogue()).len(),
        k < ans.len(),
        skips_at(selection(opts, catalogue()), ans, k),
    ensures
        discovery_outcome(opts, ans.update(k, (true, true, other))) == discovery_outcome(opts, ans),
        discovery_outcome(opts, ans) is Ok ==> out_skips(discovery_outcome(opts, ans)).contains(
            (id_of(selection(opts, catalogue())[k]), app_of(selection(opts, catalogue())[k])->Some_0),
        ),
        forall|g: int|
            0 <= g < out_groups(discovery_outcome(opts, ans)).len() ==> (#[trigger] out_groups(
                discovery_outcome(opts, ans),
            )[g]).0 != id_of(selection(opts, catalogue())[k]),
{
    lemma_running_app_is_skipped(opts, ans, k, other);
}

/// Discovery lists only selected categories: every group and every skip of the
/// outcome bears the id of a category the options select.
pub proof fn law_discovery_lists_only_selected_categories(
    opts: CleanOpts,
    ans: Seq<(bool, bool, Result<Seq<CleanItem>, Seq<char>>)>,
)
    ensures
        forall|g: int|
            0 <= g < out_groups(discovery_outcome(opts, ans)).len() ==> from_first(
                selection(opts, catalogue()),
                selection(opts, catalogue()).len() as int,
                (#[trigger] out_groups(discovery_outcome(opts, ans))[g]).0,
            ),
        forall|t: int|
            0 <= t < out_skips(discovery_outcome(opts, ans)).len() ==> from_first(
                selection(opts, catalogue()),
                selection(opts, catalogue()).len() as int,
                (#[trigger] out_skips(discovery_outcome(opts, ans))[t]).0,
            ),
{
    lemma_ids_from_first(selection(opts, catalogue()), ans, selection(opts, catalogue()).len());
}

/// A category the I/O layer reports unavailable contributes nothing to discovery:
/// whatever else is answered for it plays no part, and no group or skip bears its id.
pub proof fn law_unavailable_category_contributes_nothing(
    opts: CleanOpts,
    ans: Seq<(bool, bool, Result<Seq<CleanItem>, Seq<char>>)>,
    k: int,
    running: bool,
    other: Result<Seq<CleanItem>, Seq<char>>,
)
    requires
        0 <= k < selection(opts, catalogue()).len(),
        k < ans.len(),
        !ans[k].0,
    ensures
        discovery_outcome(opts, ans.update(k, (false, running, other))) == discovery_outcome(opts, ans),
        forall|g: int|
            0 <= g < out_groups(discovery_outcome(opts, ans)).len() ==> (#[trigger] out_groups(
                discovery_outcome(opts, ans),
            )[g]).0 != id_of(selection(opts, catalogue())[k]),
        forall|t: int|
            0 <= t < out_skips(discovery_outcome(opts, ans)).len() ==> (#[trigger] out_skips(
                discovery_outcome(opts, ans),
            )[t]).0 != id_of(selection(opts, catalogue())[k]),
{
    lemma_unavailable_contributes_nothing(opts, ans, k, running, other);
}

} // verus!
