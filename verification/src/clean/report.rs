//! What the cleanup prints: the discovery summary and the plan, line by line.
use vstd::prelude::*;
use crate::text::names;
use crate::clean::discover::{CategoryGroup, DiscoveryReport};
use crate::clean::types::badge_text;
use crate::text::{append_str, decimal, push_decimal};
use crate::util::{
    append_padded_left, append_padded_right, bytes_text, format_bytes, pad_left, pad_right, plural,
    plural_text, truncate, truncated,
};

verus! {

broadcast use vstd::string::group_string_axioms;

/// How many paths of a group the plan shows.
pub const PATH_PREVIEW_LIMIT: usize = 20;


fn push_line(out: &mut Vec<String>, s: String)
    ensures
        names(final(out)@) == names(old(out)@).push(s@),
{
    let ghost before = out@;
    out.push(s);
    assert(names(out@) =~= names(before).push(s@));
}

/// The sum of the groups' totals.
pub open spec fn groups_sum(groups: Seq<CategoryGroup>) -> nat
    decreases groups.len(),
{
    if groups.len() == 0 {
        0
    } else {
        groups_sum(groups.drop_last()) + groups.last().total_size as nat
    }
}

proof fn lemma_groups_sum_prefix(groups: Seq<CategoryGroup>, j: int)
    requires
        0 <= j <= groups.len(),
    ensures
        groups_sum(groups.take(j)) <= groups_sum(groups),
    decreases groups.len() - j,
{
    if j < groups.len() {
        lemma_groups_sum_prefix(groups, j + 1);
        assert(groups.take(j + 1).drop_last() =~= groups.take(j));
    } else {
        assert(groups.take(j) =~= groups);
    }
}

/// The sum of the groups' totals, when it fits in a `u64`.
pub fn groups_total(groups: &Vec<CategoryGroup>) -> (r: Option<u64>)
    ensures
        r matches Some(t) ==> t == groups_sum(groups@),
        r is None <==> groups_sum(groups@) > u64::MAX,
{
    let mut total: u64 = 0;
    let mut i: usize = 0;
    assert(groups@.take(0) =~= Seq::<CategoryGroup>::empty());
    while i < groups.len()
        invariant
            i <= groups@.len(),
            total == groups_sum(groups@.take(i as int)),
        decreases groups@.len() - i,
    {
        assert(groups@.take(i + 1).drop_last() =~= groups@.take(i as int));
        proof {
            lemma_groups_sum_prefix(groups@, i + 1);
        }
        match total.checked_add(groups[i].total_size) {
            Some(t) => total = t,
            None => {
                return None;
            },
        }
        i += 1;
    }
    assert(groups@.take(groups@.len() as int) =~= groups@);
    Some(total)
}

/// The summary row of a group: label cut and padded to 28, total right-aligned to
/// 10, risk badge padded to 11, item count.
pub open spec fn summary_row(g: CategoryGroup) -> Seq<char> {
    "  "@ + pad_right(truncated(g.label@, 28), 28) + " "@ + pad_left(bytes_text(g.total_size as nat), 10)
        + "   "@ + pad_right(badge_text(g.risk), 11) + "   ("@ + plural_text(g.items@.len(), "item"@) + ")"@
}

pub open spec fn skipped_row(s: (String, String)) -> Seq<char> {
    "  ⚠ skipped "@ + s.0@ + " — "@ + s.1@ + " is running. Quit "@ + s.1@ + " and rerun."@
}

/// The discovery summary: a row per group and the total (or a note that nothing
/// was found), then the categories skipped because their app runs.
pub open spec fn summary_text(r: DiscoveryReport) -> Seq<Seq<char>> {
    (if r.groups@.len() == 0 {
        seq!["(no cleanup candidates discovered)"@]
    } else {
        r.groups@.map_values(|g: CategoryGroup| summary_row(g)) + seq![
            Seq::<char>::empty(),
            "  Total: "@ + bytes_text(groups_sum(r.groups@)),
        ]
    }) + (if r.skipped_running@.len() == 0 {
        Seq::<Seq<char>>::empty()
    } else {
        seq![Seq::<char>::empty()] + r.skipped_running@.map_values(|s: (String, String)| skipped_row(s))
    })
}

pub fn summary_lines(report: &DiscoveryReport) -> (r: Vec<String>)
    requires
        groups_sum(report.groups@) <= u64::MAX,
    ensures
        names(r@) == summary_text(*report),
{
    let mut out: Vec<String> = Vec::new();
    let groups = &report.groups;
    if groups.len() == 0 {
        push_line(&mut out, String::from_str("(no cleanup candidates discovered)"));
    } else {
        let mut total: u64 = 0;
        let mut i: usize = 0;
        assert(groups@.take(0) =~= Seq::<CategoryGroup>::empty());
        while i < groups.len()
            invariant
                i <= groups@.len(),
                groups == &report.groups,
                groups_sum(groups@) <= u64::MAX,
                total == groups_sum(groups@.take(i as int)),
                names(out@) == groups@.take(i as int).map_values(|g: CategoryGroup| summary_row(g)),
            decreases groups@.len() - i,
        {
            let g = &groups[i];
            let mut s = String::from_str("  ");
            let t = truncate(g.label.as_str(), 28);
            append_padded_right(&mut s, t.as_str(), 28);
            append_str(&mut s, " ");
            let b = format_bytes(g.total_size);
            append_padded_left(&mut s, b.as_str(), 10);
            append_str(&mut s, "   ");
            append_padded_right(&mut s, g.risk.badge(), 11);
            append_str(&mut s, "   (");
            let n = plural(g.items.len(), "item");
            append_str(&mut s, n.as_str());
            append_str(&mut s, ")");
            assert(s@ =~= summary_row(*g));
            let ghost before = names(out@);
            push_line(&mut out, s);
            assert(groups@.take(i + 1).map_values(|g: CategoryGroup| summary_row(g)) =~= groups@.take(
                i as int,
            ).map_values(|g: CategoryGroup| summary_row(g)).push(summary_row(groups@[i as int])));
            assert(groups@.take(i + 1).drop_last() =~= groups@.take(i as int));
            proof {
                lemma_groups_sum_prefix(groups@, i + 1);
            }
            total = total + g.total_size;
            i += 1;
        }
        assert(groups@.take(groups@.len() as int) =~= groups@);
        push_line(&mut out, String::new());
        let mut s = String::from_str("  Total: ");
        let b = format_bytes(total);
        append_str(&mut s, b.as_str());
        push_line(&mut out, s);
    }
    let ghost head = names(out@);
    let skipped = &report.skipped_running;
    if skipped.len() > 0 {
        push_line(&mut out, String::new());
        let ghost mid = names(out@);
        let mut k: usize = 0;
        while k < skipped.len()
            invariant
                k <= skipped@.len(),
                skipped == &report.skipped_running,
                names(out@) == mid + skipped@.take(k as int).map_values(
                    |s: (String, String)| skipped_row(s),
                ),
            decreases skipped@.len() - k,
        {
            let (cat, app) = &skipped[k];
            let mut s = String::from_str("  ⚠ skipped ");
            append_str(&mut s, cat.as_str());
            append_str(&mut s, " — ");
            append_str(&mut s, app.as_str());
            append_str(&mut s, " is running. Quit ");
            append_str(&mut s, app.as_str());
            append_str(&mut s, " and rerun.");
            assert(s@ =~= skipped_row(skipped@[k as int]));
            push_line(&mut out, s);
            assert(skipped@.take(k + 1).map_values(|s: (String, String)| skipped_row(s)) =~= skipped@.take(
                k as int,
            ).map_values(|s: (String, String)| skipped_row(s)).push(skipped_row(skipped@[k as int])));
            k += 1;
        }
        assert(skipped@.take(skipped@.len() as int) =~= skipped@);
    }
    assert(names(out@) =~= summary_text(*report));
    out
}

/// `a + b`, saturating.
pub open spec fn sat_add(a: nat, b: nat) -> nat {
    if a + b > u64::MAX {
        u64::MAX as nat
    } else {
        a + b
    }
}

/// The plan's grand total, saturating after each group.
pub open spec fn plan_total(groups: Seq<&CategoryGroup>) -> nat
    decreases groups.len(),
{
    if groups.len() == 0 {
        0
    } else {
        sat_add(plan_total(groups.drop_last()), groups.last().total_size as nat)
    }
}

pub open spec fn min_nat(a: nat, b: nat) -> nat {
    if a < b {
        a
    } else {
        b
    }
}

/// The lines of one group of the plan: a blank line, the header, at most
/// `PATH_PREVIEW_LIMIT` paths with their sizes, and how many more there are.
pub open spec fn plan_group_text(g: CategoryGroup) -> Seq<Seq<char>> {
    let n = g.items@.len();
    seq![
        Seq::<char>::empty(),
        "["@ + g.id@ + "] "@ + g.label@ + " — "@ + bytes_text(g.total_size as nat) + " ("@ + plural_text(
            n,
            "item"@,
        ) + ")"@,
    ] + g.items@.take(min_nat(PATH_PREVIEW_LIMIT as nat, n) as int).map_values(
        |it: crate::clean::types::CleanItem| "  "@ + pad_left(bytes_text(it.size as nat), 10) + "  "@ + it.path@,
    ) + (if n > PATH_PREVIEW_LIMIT {
        seq!["  ... and "@ + decimal((n - PATH_PREVIEW_LIMIT) as nat) + " more"@]
    } else {
        Seq::<Seq<char>>::empty()
    })
}

pub open spec fn plan_groups_text(groups: Seq<&CategoryGroup>) -> Seq<Seq<char>>
    decreases groups.len(),
{
    if groups.len() == 0 {
        Seq::<Seq<char>>::empty()
    } else {
        plan_groups_text(groups.drop_last()) + plan_group_text(*groups.last())
    }
}

/// The printed cleanup plan.
pub open spec fn plan_text(groups: Seq<&CategoryGroup>) -> Seq<Seq<char>> {
    seq![Seq::<char>::empty(), "== Cleanup plan =="@] + plan_groups_text(groups) + seq![
        Seq::<char>::empty(),
        "Grand total: "@ + bytes_text(plan_total(groups)),
    ]
}

fn plan_group_lines(out: &mut Vec<String>, g: &CategoryGroup)
    ensures
        names(final(out)@) == names(old(out)@) + plan_group_text(*g),
{
    let ghost start = names(out@);
    push_line(out, String::new());
    let mut h = String::from_str("[");
    append_str(&mut h, g.id.as_str());
    append_str(&mut h, "] ");
    append_str(&mut h, g.label.as_str());
    append_str(&mut h, " — ");
    let b = format_bytes(g.total_size);
    append_str(&mut h, b.as_str());
    append_str(&mut h, " (");
    let n = plural(g.items.len(), "item");
    append_str(&mut h, n.as_str());
    append_str(&mut h, ")");
    push_line(out, h);
    let ghost head = names(out@);
    let ghost f = |it: crate::clean::types::CleanItem| "  "@ + pad_left(bytes_text(it.size as nat), 10) + "  "@ + it.path@;
    let shown = if g.items.len() < PATH_PREVIEW_LIMIT { g.items.len() } else { PATH_PREVIEW_LIMIT };
    let mut i: usize = 0;
    while i < shown
        invariant
            i <= shown <= g.items@.len(),
            shown == min_nat(PATH_PREVIEW_LIMIT as nat, g.items@.len()),
            f == |it: crate::clean::types::CleanItem| "  "@ + pad_left(bytes_text(it.size as nat), 10) + "  "@ + it.path@,
            names(out@) == head + g.items@.take(i as int).map_values(f),
        decreases shown - i,
    {
        let it = &g.items[i];
        let mut s = String::from_str("  ");
        let b = format_bytes(it.size);
        append_padded_left(&mut s, b.as_str(), 10);
        append_str(&mut s, "  ");
        append_str(&mut s, it.path.as_str());
        assert(s@ =~= f(*it));
        push_line(out, s);
        assert(g.items@.take(i + 1).map_values(f) =~= g.items@.take(i as int).map_values(f).push(f(g.items@[i as int])));
        i += 1;
    }
    if g.items.len() > PATH_PREVIEW_LIMIT {
        let mut m = String::from_str("  ... and ");
        push_decimal(&mut m, (g.items.len() - PATH_PREVIEW_LIMIT) as u64);
        append_str(&mut m, " more");
        push_line(out, m);
    }
    assert(names(out@) =~= start + plan_group_text(*g));
}

pub fn plan_lines(groups: &[&CategoryGroup]) -> (r: Vec<String>)
    ensures
        names(r@) == plan_text(groups@),
{
    let mut out: Vec<String> = Vec::new();
    push_line(&mut out, String::new());
    push_line(&mut out, String::from_str("== Cleanup plan =="));
    let ghost head = names(out@);
    let mut grand: u64 = 0;
    let mut k: usize = 0;
    assert(groups@.take(0) =~= Seq::<&CategoryGroup>::empty());
    while k < groups.len()
        invariant
            k <= groups@.len(),
            names(out@) == head + plan_groups_text(groups@.take(k as int)),
            grand == plan_total(groups@.take(k as int)),
        decreases groups@.len() - k,
    {
        let g: &CategoryGroup = groups[k];
        plan_group_lines(&mut out, g);
        assert(groups@.take(k + 1).drop_last() =~= groups@.take(k as int));
        grand = match grand.checked_add(g.total_size) {
            Some(x) => x,
            None => u64::MAX,
        };
        k += 1;
    }
    assert(groups@.take(groups@.len() as int) =~= groups@);
    push_line(&mut out, String::new());
    let mut s = String::from_str("Grand total: ");
    let b = format_bytes(grand);
    append_str(&mut s, b.as_str());
    push_line(&mut out, s);
    assert(names(out@) =~= plan_text(groups@));
    out
}

} // verus!
