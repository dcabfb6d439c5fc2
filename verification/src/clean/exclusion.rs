//! The excluded paths of the whole drill-down: what each selected category's
//! review adds, category after category.
use vstd::prelude::*;
use crate::clean::discover::CategoryGroup;
use crate::clean::drill::{
    drill_down,
    flat_excluded,
    member_paths,
    mode_for,
    summarizes,
    summary_excluded,
    DrillMode,
};
use crate::clean::types::CleanItem;

verus! {

/// What the drill-down of group `g` adds to the excluded paths, given the rows the
/// user kept (`None` when the user skipped it with Esc): nothing when it was skipped
/// or has no item; in flat mode the paths of the unchecked items; in summary mode
/// the member paths of the unchecked parent groups of the items' bucketing.
pub open spec fn group_drilled(g: CategoryGroup, kept: Option<Seq<usize>>, added: Seq<String>) -> bool {
    match kept {
        None => added == Seq::<String>::empty(),
        Some(k) => match mode_for(g.items@.len()) {
            DrillMode::Skip => added == Seq::<String>::empty(),
            DrillMode::Flat => added == flat_excluded(g.items@, k),
            DrillMode::Summary => summary_drilled(g.items@, k, added),
        },
    }
}

/// Whether `added` is what the summary drill-down excludes for some bucketing that
/// `summarizes` the items.
pub open spec fn summary_drilled(items: Seq<CleanItem>, kept: Seq<usize>, added: Seq<String>) -> bool {
    exists|bs: Seq<(Seq<char>, Seq<usize>)>|
        summarizes(items, bs) && added == #[trigger] summary_excluded(items, bs, kept)
}

/// Whether `ex` is what the drill-down excluded, `parts[k]` being what group `k` added
/// (see `group_drilled`): the parts one after the other.
pub open spec fn drilled_by(
    groups: Seq<&CategoryGroup>,
    answers: Seq<Option<Seq<usize>>>,
    parts: Seq<Seq<String>>,
    ex: Seq<String>,
) -> bool {
    &&& parts.len() == groups.len()
    &&& forall|k: int| 0 <= k < parts.len() ==> group_drilled(*groups[k], answers[k], #[trigger] parts[k])
    &&& ex == parts.flatten_alt()
}

/// Whether `ex` is what the drill-down of `groups` excluded, given the user's answers:
/// the paths each group adds, group after group.
pub open spec fn drilled(groups: Seq<&CategoryGroup>, answers: Seq<Option<Seq<usize>>>, ex: Seq<String>) -> bool {
    exists|parts: Seq<Seq<String>>| #[trigger] drilled_by(groups, answers, parts, ex)
}

/// The user's answers as plain values.
pub open spec fn answers_kept(answers: Seq<Option<Vec<usize>>>) -> Seq<Option<Seq<usize>>> {
    Seq::new(
        answers.len(),
        |k: int|
            match answers[k] {
                Some(v) => Some(v@),
                None => None,
            },
    )
}

/// The excluded paths of the whole drill-down: `answers[k]` holds the rows the user
/// kept for group `k` (`None` when skipped with Esc; not read for a group without
/// items), and each group adds its excluded paths in turn (see `drilled`).
pub fn drill_down_all(groups: &[&CategoryGroup], answers: &Vec<Option<Vec<usize>>>) -> (r: Vec<String>)
    requires
        answers@.len() == groups@.len(),
    ensures
        drilled(groups@, answers_kept(answers@), r@),
{
    let ghost ans = answers_kept(answers@);
    let ghost mut parts: Seq<Seq<String>> = Seq::empty();
    let mut excluded: Vec<String> = Vec::new();
    let mut i: usize = 0;
    assert(parts.flatten_alt() =~= Seq::<String>::empty());
    while i < groups.len()
        invariant
            i <= groups@.len(),
            answers@.len() == groups@.len(),
            ans == answers_kept(answers@),
            parts.len() == i,
            forall|k: int| 0 <= k < i ==> group_drilled(*groups@[k], ans[k], #[trigger] parts[k]),
            excluded@ == parts.flatten_alt(),
        decreases groups@.len() - i,
    {
        let ghost before = excluded@;
        let kept: Option<&[usize]> = match &answers[i] {
            Some(v) => Some(v.as_slice()),
            None => None,
        };
        assert(ans[i as int] == match kept {
            Some(k) => Some(k@),
            None => None::<Seq<usize>>,
        });
        let g: &CategoryGroup = groups[i];
        drill_down(g, kept, &mut excluded);
        proof {
            let now = excluded@;
            assert(*g == *groups@[i as int]);
            let added = now.skip(before.len() as int);
            assert(now =~= before + added);
            assert(group_drilled(*groups@[i as int], ans[i as int], added)) by {
                match kept {
                    None => {
                        assert(added =~= Seq::<String>::empty());
                    },
                    Some(k) => {
                        match mode_for(groups@[i as int].items@.len()) {
                            DrillMode::Skip => {
                                assert(added =~= Seq::<String>::empty());
                            },
                            DrillMode::Flat => {
                                assert(added =~= flat_excluded(groups@[i as int].items@, k@));
                            },
                            DrillMode::Summary => {
                                let bs = choose|bs: Seq<(Seq<char>, Seq<usize>)>|
                                    summarizes(g.items@, bs) && now == before + summary_excluded(g.items@, bs, k@);
                                assert(added =~= summary_excluded(g.items@, bs, k@));
                                assert(summary_drilled(g.items@, k@, added));
                            },
                        }
                    },
                }
            }
            let old_parts = parts;
            parts = parts.push(added);
            assert(parts.drop_last() =~= old_parts);
            assert(parts.flatten_alt() == old_parts.flatten_alt() + added);
        }
        i += 1;
    }
    proof {
        assert(drilled_by(groups@, ans, parts, excluded@));
    }
    excluded
}

/// Whether `p` is the path of one of the items.
pub open spec fn is_item_path(items: Seq<CleanItem>, p: String) -> bool {
    exists|i: int| 0 <= i < items.len() && (#[trigger] items[i]).path == p
}

/// Every path that the flat drill-down excludes is the path of one of the items.
pub proof fn lemma_flat_excluded_from_items(items: Seq<CleanItem>, kept: Seq<usize>)
    ensures
        forall|q: int|
            0 <= q < flat_excluded(items, kept).len() ==> is_item_path(items, #[trigger] flat_excluded(items, kept)[q]),
    decreases items.len(),
{
    if items.len() > 0 {
        lemma_flat_excluded_from_items(items.drop_last(), kept);
        let p = flat_excluded(items.drop_last(), kept);
        assert forall|q: int| 0 <= q < flat_excluded(items, kept).len() implies is_item_path(
            items,
            #[trigger] flat_excluded(items, kept)[q],
        ) by {
            if q < p.len() {
                assert(flat_excluded(items, kept)[q] == p[q]);
                assert(is_item_path(items.drop_last(), p[q]));
                let i = choose|i: int| 0 <= i < items.drop_last().len() && (#[trigger] items.drop_last()[i]).path == p[q];
                assert(items[i] == items.drop_last()[i]);
            } else {
                assert(items[items.len() - 1].path == flat_excluded(items, kept)[q]);
            }
        }
    }
}

/// Every path that the summary drill-down excludes is the path of one of the items.
pub proof fn lemma_summary_excluded_from_items(
    items: Seq<CleanItem>,
    bs: Seq<(Seq<char>, Seq<usize>)>,
    kept: Seq<usize>,
)
    requires
        forall|j: int, t: int| 0 <= j < bs.len() && 0 <= t < bs[j].1.len() ==> #[trigger] bs[j].1[t] < items.len(),
    ensures
        forall|q: int|
            0 <= q < summary_excluded(items, bs, kept).len() ==> is_item_path(
                items,
                #[trigger] summary_excluded(items, bs, kept)[q],
            ),
    decreases bs.len(),
{
    if bs.len() > 0 {
        let bs0 = bs.drop_last();
        assert forall|j: int, t: int| 0 <= j < bs0.len() && 0 <= t < bs0[j].1.len() implies #[trigger] bs0[j].1[t]
            < items.len() by {
            assert(bs0[j] == bs[j]);
        }
        lemma_summary_excluded_from_items(items, bs0, kept);
        let p = summary_excluded(items, bs0, kept);
        let whole = summary_excluded(items, bs, kept);
        assert forall|q: int| 0 <= q < whole.len() implies is_item_path(items, #[trigger] whole[q]) by {
            if q < p.len() {
                assert(whole[q] == p[q]);
                assert(is_item_path(items, p[q]));
            } else {
                let m = bs.last().1;
                let t = q - p.len();
                assert(whole[q] == member_paths(items, m)[t]);
                assert(bs[bs.len() - 1].1[t] < items.len());
                let i = m[t] as int;
                assert(items[i].path == whole[q]);
            }
        }
    }
}

/// Whether `x` is an element of one of the parts.
pub open spec fn in_some_part(parts: Seq<Seq<String>>, x: String) -> bool {
    exists|k: int, t: int| 0 <= k < parts.len() && 0 <= t < parts[k].len() && #[trigger] parts[k][t] == x
}

/// Every element of the parts one after the other is an element of one part.
pub proof fn lemma_flatten_alt_from_parts(parts: Seq<Seq<String>>)
    ensures
        forall|q: int| 0 <= q < parts.flatten_alt().len() ==> in_some_part(parts, #[trigger] parts.flatten_alt()[q]),
    decreases parts.len(),
{
    if parts.len() > 0 {
        let init = parts.drop_last();
        lemma_flatten_alt_from_parts(init);
        let flat = parts.flatten_alt();
        assert(flat == init.flatten_alt() + parts.last());
        assert forall|q: int| 0 <= q < flat.len() implies in_some_part(parts, #[trigger] flat[q]) by {
            if q < init.flatten_alt().len() {
                assert(flat[q] == init.flatten_alt()[q]);
                assert(in_some_part(init, init.flatten_alt()[q]));
                let (k, t) = choose|k: int, t: int|
                    0 <= k < init.len() && 0 <= t < init[k].len() && #[trigger] init[k][t] == init.flatten_alt()[q];
                assert(parts[k] == init[k]);
                assert(parts[k][t] == flat[q]);
            } else {
                let t = q - init.flatten_alt().len();
                assert(parts[parts.len() - 1][t] == flat[q]);
            }
        }
    }
}

/// Whether `p` is the path of an item of one of the groups.
pub open spec fn path_of_groups(groups: Seq<&CategoryGroup>, p: String) -> bool {
    exists|k: int| 0 <= k < groups.len() && is_item_path((#[trigger] groups[k]).items@, p)
}

/// What one group adds holds only paths of its items.
pub proof fn lemma_group_drilled_from_items(g: CategoryGroup, kept: Option<Seq<usize>>, added: Seq<String>)
    requires
        group_drilled(g, kept, added),
    ensures
        forall|t: int| 0 <= t < added.len() ==> is_item_path(g.items@, #[trigger] added[t]),
{
    match kept {
        None => {},
        Some(k) => match mode_for(g.items@.len()) {
            DrillMode::Skip => {},
            DrillMode::Flat => {
                lemma_flat_excluded_from_items(g.items@, k);
            },
            DrillMode::Summary => {
                let bs = choose|bs: Seq<(Seq<char>, Seq<usize>)>|
                    summarizes(g.items@, bs) && added == #[trigger] summary_excluded(g.items@, bs, k);
                lemma_summary_excluded_from_items(g.items@, bs, k);
            },
        },
    }
}

/// The drill-down excludes only paths of the given groups' items.
pub proof fn lemma_drilled_paths_from_groups(
    groups: Seq<&CategoryGroup>,
    answers: Seq<Option<Seq<usize>>>,
    ex: Seq<String>,
)
    requires
        drilled(groups, answers, ex),
    ensures
        forall|q: int| 0 <= q < ex.len() ==> path_of_groups(groups, #[trigger] ex[q]),
{
    let parts = choose|parts: Seq<Seq<String>>| #[trigger] drilled_by(groups, answers, parts, ex);
    lemma_flatten_alt_from_parts(parts);
    assert forall|q: int| 0 <= q < ex.len() implies path_of_groups(groups, #[trigger] ex[q]) by {
        assert(in_some_part(parts, parts.flatten_alt()[q]));
        let (k, t) = choose|k: int, t: int|
            0 <= k < parts.len() && 0 <= t < parts[k].len() && #[trigger] parts[k][t] == parts.flatten_alt()[q];
        lemma_group_drilled_from_items(*groups[k], answers[k], parts[k]);
        assert(is_item_path(groups[k].items@, parts[k][t]));
    }
}

} // verus!
