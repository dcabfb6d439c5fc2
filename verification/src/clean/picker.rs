//! What the interactive pickers show and what a selection comes to.
//!
//! The category picker groups the discovered categories by family (Dev, then
//! UserStorage, then System), with one header row per family and one indented row
//! per category; the selection maps back to indices into the given groups.
//! The action menu lists its entries in a fixed order. The prompts themselves run
//! in the binary.
use vstd::prelude::*;
use crate::clean::discover::CategoryGroup;
use crate::clean::registry::{category_family, family_for_id, family_label_text, Family};
use crate::clean::types::{badge_text, risk_rank, CleanAction, RiskLevel};
use crate::text::{append_str, decimal, push_decimal};
use crate::util::{
    append_padded_left,
    append_padded_right,
    bytes_text,
    format_bytes,
    pad_left,
    pad_right,
    plural_text,
    truncate,
    truncated,
};

verus! {

broadcast use vstd::string::group_string_axioms;

/// The indices of the groups of family `fam`, in order.
pub open spec fn family_members(groups: Seq<CategoryGroup>, fam: Family) -> Seq<usize>
    decreases groups.len(),
{
    if groups.len() == 0 {
        Seq::<usize>::empty()
    } else {
        let p = family_members(groups.drop_last(), fam);
        if family_for_id(groups.last().id@) == fam {
            p.push((groups.len() - 1) as usize)
        } else {
            p
        }
    }
}

/// The order in which families are shown.
pub open spec fn family_order() -> Seq<Family> {
    seq![Family::Dev, Family::UserStorage, Family::System]
}

/// The families of `fams` that have members, each with its members, in order.
pub open spec fn buckets_of(groups: Seq<CategoryGroup>, fams: Seq<Family>) -> Seq<
    (Family, Seq<usize>),
>
    decreases fams.len(),
{
    if fams.len() == 0 {
        Seq::<(Family, Seq<usize>)>::empty()
    } else {
        let p = buckets_of(groups, fams.drop_last());
        let m = family_members(groups, fams.last());
        if m.len() > 0 {
            p.push((fams.last(), m))
        } else {
            p
        }
    }
}

/// The non-empty families in display order, with the indices of their groups.
pub open spec fn family_buckets(groups: Seq<CategoryGroup>) -> Seq<(Family, Seq<usize>)> {
    buckets_of(groups, family_order())
}

pub proof fn lemma_members_in_range(groups: Seq<CategoryGroup>, fam: Family)
    requires
        groups.len() <= usize::MAX,
    ensures
        forall|j: int|
            0 <= j < family_members(groups, fam).len() ==> #[trigger] family_members(groups, fam)[j]
                < groups.len(),
    decreases groups.len(),
{
    if groups.len() > 0 {
        lemma_members_in_range(groups.drop_last(), fam);
        let p = family_members(groups.drop_last(), fam);
        let m = family_members(groups, fam);
        assert forall|j: int| 0 <= j < m.len() implies #[trigger] m[j] < groups.len() by {
            if j < p.len() {
                assert(m[j] == p[j]);
            }
        }
    }
}

pub proof fn lemma_buckets_in_range(groups: Seq<CategoryGroup>, fams: Seq<Family>)
    requires
        groups.len() <= usize::MAX,
    ensures
        forall|k: int, j: int|
            0 <= k < buckets_of(groups, fams).len() && 0 <= j < buckets_of(groups, fams)[k].1.len()
                ==> #[trigger] buckets_of(groups, fams)[k].1[j] < groups.len(),
    decreases fams.len(),
{
    if fams.len() > 0 {
        lemma_buckets_in_range(groups, fams.drop_last());
        lemma_members_in_range(groups, fams.last());
        let p = buckets_of(groups, fams.drop_last());
        let b = buckets_of(groups, fams);
        assert forall|k: int, j: int| 0 <= k < b.len() && 0 <= j < b[k].1.len() implies #[trigger] b[k].1[j]
            < groups.len() by {
            if k < p.len() {
                assert(b[k] == p[k]);
            }
        }
    }
}

fn members_of(groups: &[CategoryGroup], fam: Family) -> (r: Vec<usize>)
    ensures
        r@ == family_members(groups@, fam),
{
    let mut r: Vec<usize> = Vec::new();
    let mut i: usize = 0;
    assert(groups@.take(0) =~= Seq::<CategoryGroup>::empty());
    while i < groups.len()
        invariant
            i <= groups@.len(),
            r@ == family_members(groups@.take(i as int), fam),
        decreases groups@.len() - i,
    {
        assert(groups@.take(i + 1).drop_last() =~= groups@.take(i as int));
        if category_family(groups[i].id.as_str()) == fam {
            r.push(i);
        }
        i += 1;
    }
    assert(groups@.take(groups@.len() as int) =~= groups@);
    r
}

/// Group indices by family in display order (Dev, UserStorage, System); empty
/// families are left out.
pub fn group_by_family(groups: &[CategoryGroup]) -> (r: Vec<(Family, Vec<usize>)>)
    ensures
        r@.map_values(|p: (Family, Vec<usize>)| (p.0, p.1@)) == family_buckets(groups@),
{
    let order = vec![Family::Dev, Family::UserStorage, Family::System];
    assert(order@ =~= family_order());
    let mut out: Vec<(Family, Vec<usize>)> = Vec::new();
    let mut k: usize = 0;
    assert(order@.take(0) =~= Seq::<Family>::empty());
    while k < order.len()
        invariant
            k <= order@.len(),
            order@ == family_order(),
            out@.map_values(|p: (Family, Vec<usize>)| (p.0, p.1@)) == buckets_of(
                groups@,
                order@.take(k as int),
            ),
        decreases order@.len() - k,
    {
        let fam = order[k];
        let indices = members_of(groups, fam);
        assert(order@.take(k + 1).drop_last() =~= order@.take(k as int));
        let ghost before = out@;
        if indices.len() > 0 {
            out.push((fam, indices));
            assert(out@.map_values(|p: (Family, Vec<usize>)| (p.0, p.1@)) =~= before.map_values(
                |p: (Family, Vec<usize>)| (p.0, p.1@),
            ).push((fam, family_members(groups@, fam))));
        }
        k += 1;
    }
    assert(order@.take(order@.len() as int) =~= order@);
    out
}

/// The more severe of two risks.
pub open spec fn risk_max(a: RiskLevel, b: RiskLevel) -> RiskLevel {
    if risk_rank(b) > risk_rank(a) {
        b
    } else {
        a
    }
}

/// The most severe risk among the groups at `indices`; `Safe` when there are none.
pub open spec fn max_risk_of(groups: Seq<CategoryGroup>, indices: Seq<usize>) -> RiskLevel
    decreases indices.len(),
{
    if indices.len() == 0 {
        RiskLevel::Safe
    } else {
        risk_max(max_risk_of(groups, indices.drop_last()), groups[indices.last() as int].risk)
    }
}

/// Returns the most severe risk among the named indices (Destructive > Review >
/// Safe); `Safe` for no indices.
pub fn family_max_risk(groups: &[CategoryGroup], indices: &[usize]) -> (r: RiskLevel)
    requires
        forall|j: int| 0 <= j < indices@.len() ==> #[trigger] indices@[j] < groups@.len(),
    ensures
        r == max_risk_of(groups@, indices@),
{
    let mut current = RiskLevel::Safe;
    let mut k: usize = 0;
    assert(indices@.take(0) =~= Seq::<usize>::empty());
    while k < indices.len()
        invariant
            k <= indices@.len(),
            forall|j: int| 0 <= j < indices@.len() ==> #[trigger] indices@[j] < groups@.len(),
            current == max_risk_of(groups@, indices@.take(k as int)),
        decreases indices@.len() - k,
    {
        assert(indices@.take(k + 1).drop_last() =~= indices@.take(k as int));
        let r = groups[indices[k]].risk;
        current = match (current, r) {
            (_, RiskLevel::Destructive) => RiskLevel::Destructive,
            (RiskLevel::Destructive, _) => RiskLevel::Destructive,
            (_, RiskLevel::Review) => RiskLevel::Review,
            (RiskLevel::Review, _) => RiskLevel::Review,
            _ => RiskLevel::Safe,
        };
        k += 1;
    }
    assert(indices@.take(indices@.len() as int) =~= indices@);
    current
}

/// Sum of the totals of the groups at `indices`.
pub open spec fn family_total(groups: Seq<CategoryGroup>, indices: Seq<usize>) -> nat
    decreases indices.len(),
{
    if indices.len() == 0 {
        0
    } else {
        (family_total(groups, indices.drop_last()) + groups[indices.last() as int].total_size) as nat
    }
}

proof fn lemma_family_total_prefix(groups: Seq<CategoryGroup>, indices: Seq<usize>, j: int)
    requires
        0 <= j <= indices.len(),
    ensures
        family_total(groups, indices.take(j)) <= family_total(groups, indices),
    decreases indices.len() - j,
{
    if j < indices.len() {
        lemma_family_total_prefix(groups, indices, j + 1);
        assert(indices.take(j + 1).drop_last() =~= indices.take(j));
    } else {
        assert(indices.take(j) =~= indices);
    }
}

/// Every family's total fits in a `u64`.
pub open spec fn family_totals_fit(groups: Seq<CategoryGroup>) -> bool {
    forall|k: int|
        0 <= k < family_buckets(groups).len() ==> family_total(
            groups,
            #[trigger] family_buckets(groups)[k].1,
        ) <= u64::MAX
}

/// The header row of a family.
pub open spec fn header_text(f: Family, total: nat, count: nat, risk: RiskLevel) -> Seq<char> {
    "▸ "@ + family_label_text(f) + " — "@ + bytes_text(total) + " ("@ + decimal(count)
        + " cats) ["@ + badge_text(risk) + "]"@
}

/// The indented row of a category.
pub open spec fn category_row_text(g: CategoryGroup) -> Seq<char> {
    "  • "@ + pad_right(truncated(g.label@, 26), 26) + " "@ + pad_left(
        bytes_text(g.total_size as nat),
        10,
    ) + "   "@ + badge_text(g.risk)
}

/// One row: its text, whether it starts checked, and the group it stands for
/// (`None` for a family header).
pub open spec fn member_rows(groups: Seq<CategoryGroup>, indices: Seq<usize>) -> Seq<
    (Seq<char>, bool, Option<usize>),
> {
    indices.map_values(
        |i: usize|
            (
                category_row_text(groups[i as int]),
                groups[i as int].risk == RiskLevel::Safe,
                Some(i),
            ),
    )
}

pub open spec fn rows_of(groups: Seq<CategoryGroup>, buckets: Seq<(Family, Seq<usize>)>) -> Seq<
    (Seq<char>, bool, Option<usize>),
>
    decreases buckets.len(),
{
    if buckets.len() == 0 {
        Seq::<(Seq<char>, bool, Option<usize>)>::empty()
    } else {
        let b = buckets.last();
        rows_of(groups, buckets.drop_last()).push(
            (
                header_text(
                    b.0,
                    family_total(groups, b.1),
                    b.1.len(),
                    max_risk_of(groups, b.1),
                ),
                false,
                None,
            ),
        ) + member_rows(groups, b.1)
    }
}

/// Whether a picker row starts checked exactly when it stands for a Safe category:
/// a family header never does; a category row names a group of `groups` and is
/// checked iff that group is Safe.
pub open spec fn checked_iff_safe(groups: Seq<CategoryGroup>, row: (Seq<char>, bool, Option<usize>)) -> bool {
    match row.2 {
        None => !row.1,
        Some(i) => i < groups.len() && (row.1 <==> groups[i as int].risk == RiskLevel::Safe),
    }
}

pub proof fn lemma_rows_checked_iff_safe(groups: Seq<CategoryGroup>, bs: Seq<(Family, Seq<usize>)>)
    requires
        forall|k: int, j: int| 0 <= k < bs.len() && 0 <= j < bs[k].1.len() ==> #[trigger] bs[k].1[j] < groups.len(),
    ensures
        forall|r: int| 0 <= r < rows_of(groups, bs).len() ==> checked_iff_safe(groups, #[trigger] rows_of(groups, bs)[r]),
    decreases bs.len(),
{
    if bs.len() > 0 {
        let init = bs.drop_last();
        assert forall|k: int, j: int| 0 <= k < init.len() && 0 <= j < init[k].1.len() implies #[trigger] init[k].1[j]
            < groups.len() by {
            assert(init[k] == bs[k]);
        }
        lemma_rows_checked_iff_safe(groups, init);
        let prev = rows_of(groups, init);
        let b = bs.last();
        let rows = rows_of(groups, bs);
        assert forall|r: int| 0 <= r < rows.len() implies checked_iff_safe(groups, #[trigger] rows[r]) by {
            if r < prev.len() {
                assert(rows[r] == prev[r]);
            } else if r > prev.len() {
                let t = r - prev.len() - 1;
                assert(rows[r] == member_rows(groups, b.1)[t]);
                assert(bs[bs.len() - 1].1[t] < groups.len());
            }
        }
    }
}

/// The rows of the category picker, in display order.
pub open spec fn picker_rows(groups: Seq<CategoryGroup>) -> Seq<(Seq<char>, bool, Option<usize>)> {
    rows_of(groups, family_buckets(groups))
}

/// The group each picker row stands for.
pub open spec fn picker_origins(groups: Seq<CategoryGroup>) -> Seq<Option<usize>> {
    picker_rows(groups).map_values(|r: (Seq<char>, bool, Option<usize>)| r.2)
}

/// One row of the category picker.
pub struct PickerRow {
    pub label: String,
    /// Whether the row starts checked (Safe categories do).
    pub checked: bool,
    /// The index of the group behind the row; `None` for a family header.
    pub origin: Option<usize>,
}

pub open spec fn row_view(r: PickerRow) -> (Seq<char>, bool, Option<usize>) {
    (r.label@, r.checked, r.origin)
}

/// Whether every family's total fits in a `u64`, as `category_rows` requires.
pub fn family_totals_fit_check(groups: &[CategoryGroup]) -> (r: bool)
    ensures
        r == family_totals_fit(groups@),
{
    let buckets = group_by_family(groups);
    let ghost bv = buckets@.map_values(|p: (Family, Vec<usize>)| (p.0, p.1@));
    let n = groups.len();
    proof {
        lemma_buckets_in_range(groups@, family_order());
    }
    let mut k: usize = 0;
    while k < buckets.len()
        invariant
            k <= buckets@.len(),
            bv == buckets@.map_values(|p: (Family, Vec<usize>)| (p.0, p.1@)),
            bv == family_buckets(groups@),
            forall|a: int, j: int|
                0 <= a < bv.len() && 0 <= j < bv[a].1.len() ==> #[trigger] bv[a].1[j]
                    < groups@.len(),
            forall|a: int| 0 <= a < k ==> family_total(groups@, #[trigger] bv[a].1) <= u64::MAX,
        decreases buckets@.len() - k,
    {
        let indices = &buckets[k].1;
        assert(indices@ == bv[k as int].1);
        let mut total: u64 = 0;
        let mut j: usize = 0;
        assert(indices@.take(0) =~= Seq::<usize>::empty());
        while j < indices.len()
            invariant
                k < bv.len(),
                bv == family_buckets(groups@),
                j <= indices@.len(),
                indices@ == bv[k as int].1,
                forall|x: int| 0 <= x < indices@.len() ==> #[trigger] indices@[x] < groups@.len(),
                total == family_total(groups@, indices@.take(j as int)),
            decreases indices@.len() - j,
        {
            assert(indices@.take(j + 1).drop_last() =~= indices@.take(j as int));
            let size = groups[indices[j]].total_size;
            if total > u64::MAX - size {
                proof {
                    lemma_family_total_prefix(groups@, indices@, j + 1);
                    assert(indices@.take(j + 1).last() == indices@[j as int]);
                    assert(family_total(groups@, family_buckets(groups@)[k as int].1) > u64::MAX);
                }
                return false;
            }
            total = total + size;
            j += 1;
        }
        assert(indices@.take(indices@.len() as int) =~= indices@);
        k += 1;
    }
    true
}

/// The text of a category row.
fn category_row(g: &CategoryGroup) -> (s: String)
    ensures
        s@ == category_row_text(*g),
{
    let mut s = String::new();
    append_str(&mut s, "  • ");
    let t = truncate(g.label.as_str(), 26);
    append_padded_right(&mut s, t.as_str(), 26);
    append_str(&mut s, " ");
    let b = format_bytes(g.total_size);
    append_padded_left(&mut s, b.as_str(), 10);
    append_str(&mut s, "   ");
    append_str(&mut s, g.risk.badge());
    assert(s@ =~= category_row_text(*g));
    s
}

/// The text of a family header row.
fn header_row(f: Family, total: u64, count: usize, risk: RiskLevel) -> (s: String)
    ensures
        s@ == header_text(f, total as nat, count as nat, risk),
{
    let mut s = String::new();
    append_str(&mut s, "▸ ");
    append_str(&mut s, f.label());
    append_str(&mut s, " — ");
    let b = format_bytes(total);
    append_str(&mut s, b.as_str());
    append_str(&mut s, " (");
    push_decimal(&mut s, count as u64);
    append_str(&mut s, " cats) [");
    append_str(&mut s, risk.badge());
    append_str(&mut s, "]");
    assert(s@ =~= header_text(f, total as nat, count as nat, risk));
    s
}

/// The rows of the category picker: a header per family, then a row per category
/// of that family.
pub fn category_rows(groups: &[CategoryGroup]) -> (r: Vec<PickerRow>)
    requires
        family_totals_fit(groups@),
    ensures
        r@.map_values(|x: PickerRow| row_view(x)) == picker_rows(groups@),
{
    let buckets = group_by_family(groups);
    let ghost bv = buckets@.map_values(|p: (Family, Vec<usize>)| (p.0, p.1@));
    let n = groups.len();
    proof {
        lemma_buckets_in_range(groups@, family_order());
    }
    let mut rows: Vec<PickerRow> = Vec::new();
    let mut k: usize = 0;
    assert(bv.take(0) =~= Seq::<(Family, Seq<usize>)>::empty());
    while k < buckets.len()
        invariant
            k <= buckets@.len(),
            bv == buckets@.map_values(|p: (Family, Vec<usize>)| (p.0, p.1@)),
            bv == family_buckets(groups@),
            family_totals_fit(groups@),
            forall|a: int, j: int|
                0 <= a < bv.len() && 0 <= j < bv[a].1.len() ==> #[trigger] bv[a].1[j]
                    < groups@.len(),
            rows@.map_values(|x: PickerRow| row_view(x)) == rows_of(groups@, bv.take(k as int)),
        decreases buckets@.len() - k,
    {
        let fam = buckets[k].0;
        let indices = &buckets[k].1;
        assert(indices@ == bv[k as int].1);
        assert(family_total(groups@, bv[k as int].1) <= u64::MAX);
        let mut total: u64 = 0;
        let mut j: usize = 0;
        assert(indices@.take(0) =~= Seq::<usize>::empty());
        while j < indices.len()
            invariant
                j <= indices@.len(),
                k < bv.len(),
                indices@ == bv[k as int].1,
                family_total(groups@, indices@) <= u64::MAX,
                forall|x: int| 0 <= x < indices@.len() ==> #[trigger] indices@[x] < groups@.len(),
                total == family_total(groups@, indices@.take(j as int)),
            decreases indices@.len() - j,
        {
            assert(indices@.take(j + 1).drop_last() =~= indices@.take(j as int));
            proof {
                lemma_family_total_prefix(groups@, indices@, j + 1);
            }
            total = total + groups[indices[j]].total_size;
            j += 1;
        }
        assert(indices@.take(indices@.len() as int) =~= indices@);
        let risk = family_max_risk(groups, indices.as_slice());
        let header = header_row(fam, total, indices.len(), risk);
        let ghost base = rows@.map_values(|x: PickerRow| row_view(x));
        rows.push(PickerRow { label: header, checked: false, origin: None });
        let ghost hrow = (
            header_text(fam, total as nat, indices@.len(), risk),
            false,
            None::<usize>,
        );
        assert(rows@.map_values(|x: PickerRow| row_view(x)) =~= base.push(hrow));
        let mut j: usize = 0;
        assert(member_rows(groups@, indices@.take(0)) =~= Seq::<
            (Seq<char>, bool, Option<usize>),
        >::empty());
        while j < indices.len()
            invariant
                j <= indices@.len(),
                k < bv.len(),
                indices@ == bv[k as int].1,
                forall|x: int| 0 <= x < indices@.len() ==> #[trigger] indices@[x] < groups@.len(),
                rows@.map_values(|x: PickerRow| row_view(x)) == base.push(hrow) + member_rows(
                    groups@,
                    indices@.take(j as int),
                ),
            decreases indices@.len() - j,
        {
            let idx = indices[j];
            let g = &groups[idx];
            let label = category_row(g);
            let checked = g.risk == RiskLevel::Safe;
            let ghost before = rows@.map_values(|x: PickerRow| row_view(x));
            rows.push(PickerRow { label, checked, origin: Some(idx) });
            proof {
                assert(member_rows(groups@, indices@.take(j + 1)) =~= member_rows(
                    groups@,
                    indices@.take(j as int),
                ).push((category_row_text(groups@[idx as int]), checked, Some(idx))));
                assert(rows@.map_values(|x: PickerRow| row_view(x)) =~= before.push(
                    (category_row_text(groups@[idx as int]), checked, Some(idx)),
                ));
            }
            j += 1;
        }
        proof {
            assert(indices@.take(indices@.len() as int) =~= indices@);
            assert(bv.take(k + 1).drop_last() =~= bv.take(k as int));
            assert(bv.take(k + 1).last() == bv[k as int]);
        }
        k += 1;
    }
    assert(bv.take(bv.len() as int) =~= bv);
    rows
}

/// The group behind each picker row, in display order.
pub fn row_origins(groups: &[CategoryGroup]) -> (r: Vec<Option<usize>>)
    ensures
        r@ == picker_origins(groups@),
{
    let buckets = group_by_family(groups);
    let ghost bv = buckets@.map_values(|p: (Family, Vec<usize>)| (p.0, p.1@));
    let ghost f = |r: (Seq<char>, bool, Option<usize>)| r.2;
    let mut out: Vec<Option<usize>> = Vec::new();
    let mut k: usize = 0;
    assert(bv.take(0) =~= Seq::<(Family, Seq<usize>)>::empty());
    assert(rows_of(groups@, bv.take(0)).map_values(f) =~= Seq::<Option<usize>>::empty());
    while k < buckets.len()
        invariant
            k <= buckets@.len(),
            bv == buckets@.map_values(|p: (Family, Vec<usize>)| (p.0, p.1@)),
            bv == family_buckets(groups@),
            f == |r: (Seq<char>, bool, Option<usize>)| r.2,
            out@ == rows_of(groups@, bv.take(k as int)).map_values(f),
        decreases buckets@.len() - k,
    {
        let indices = &buckets[k].1;
        assert(indices@ == bv[k as int].1);
        let ghost prev = rows_of(groups@, bv.take(k as int));
        let ghost b = bv[k as int];
        out.push(None);
        let mut j: usize = 0;
        while j < indices.len()
            invariant
                j <= indices@.len(),
                indices@ == b.1,
                out@ == prev.map_values(f).push(None) + indices@.take(j as int).map_values(
                    |i: usize| Some(i),
                ),
            decreases indices@.len() - j,
        {
            out.push(Some(indices[j]));
            assert(indices@.take(j + 1).map_values(|i: usize| Some(i)) =~= indices@.take(
                j as int,
            ).map_values(|i: usize| Some(i)).push(Some(indices@[j as int])));
            j += 1;
        }
        proof {
            assert(indices@.take(indices@.len() as int) =~= indices@);
            assert(bv.take(k + 1).drop_last() =~= bv.take(k as int));
            assert(bv.take(k + 1).last() == b);
            let hdr = (
                header_text(b.0, family_total(groups@, b.1), b.1.len(), max_risk_of(groups@, b.1)),
                false,
                None::<usize>,
            );
            let whole = prev.push(hdr) + member_rows(groups@, b.1);
            assert(rows_of(groups@, bv.take(k + 1)) == whole);
            assert(whole.map_values(f) =~= prev.map_values(f).push(None) + b.1.map_values(
                |i: usize| Some(i),
            ));
        }
        k += 1;
    }
    assert(bv.take(bv.len() as int) =~= bv);
    out
}

/// Whether `s` is strictly increasing.
pub open spec fn strictly_increasing(s: Seq<usize>) -> bool {
    forall|a: int, b: int| 0 <= a < b < s.len() ==> s[a] < s[b]
}

/// Inserts `x` into the strictly increasing `v` unless it is already there.
pub fn insert_sorted_unique(v: &mut Vec<usize>, x: usize)
    requires
        strictly_increasing(old(v)@),
    ensures
        strictly_increasing(final(v)@),
        forall|y: usize| final(v)@.contains(y) <==> (old(v)@.contains(y) || y == x),
{
    let mut i: usize = 0;
    while i < v.len() && v[i] < x
        invariant
            i <= v@.len(),
            v@ == old(v)@,
            forall|a: int| 0 <= a < i ==> v@[a] < x,
        decreases v@.len() - i,
    {
        i += 1;
    }
    if i < v.len() && v[i] == x {
        assert(v@[i as int] == x);
        return;
    }
    let ghost before = v@;
    assert(before == old(v)@);
    v.insert(i, x);
    proof {
        assert(v@ =~= before.take(i as int).push(x) + before.skip(i as int));
        assert forall|y: usize| #[trigger] v@.contains(y) <==> (before.contains(y) || y == x) by {
            if v@.contains(y) {
                let a = choose|a: int| 0 <= a < v@.len() && v@[a] == y;
                if a < i {
                    assert(before[a] == y);
                } else if a > i {
                    assert(before[a - 1] == y);
                }
            }
            if before.contains(y) {
                let a = choose|a: int| 0 <= a < before.len() && before[a] == y;
                if a < i {
                    assert(v@[a] == y);
                } else {
                    assert(v@[a + 1] == y);
                }
            }
            if y == x {
                assert(v@[i as int] == x);
            }
        }
    }
}

/// Whether the selected rows pick group `x`.
pub open spec fn picked(groups: Seq<CategoryGroup>, selected_rows: Seq<usize>, x: usize) -> bool {
    exists|j: int|
        0 <= j < selected_rows.len() && picker_origins(groups)[#[trigger] selected_rows[j] as int]
            == Some(x)
}

/// Maps the rows the user selected back to indices into `groups`, ascending and
/// without repeats; header rows stand for no group and are dropped.
pub fn pick_categories(groups: &[CategoryGroup], selected_rows: &[usize]) -> (r: Vec<usize>)
    requires
        forall|j: int|
            0 <= j < selected_rows@.len() ==> #[trigger] selected_rows@[j] < picker_rows(
                groups@,
            ).len(),
    ensures
        strictly_increasing(r@),
        forall|x: usize| r@.contains(x) <==> picked(groups@, selected_rows@, x),
{
    let origins = row_origins(groups);
    let mut out: Vec<usize> = Vec::new();
    let mut j: usize = 0;
    while j < selected_rows.len()
        invariant
            j <= selected_rows@.len(),
            origins@ == picker_origins(groups@),
            origins@.len() == picker_rows(groups@).len(),
            forall|a: int|
                0 <= a < selected_rows@.len() ==> #[trigger] selected_rows@[a] < origins@.len(),
            strictly_increasing(out@),
            forall|x: usize|
                out@.contains(x) <==> picked(groups@, selected_rows@.take(j as int), x),
        decreases selected_rows@.len() - j,
    {
        let row = selected_rows[j];
        let ghost before = out@;
        if let Some(x) = origins[row] {
            insert_sorted_unique(&mut out, x);
        }
        proof {
            let s1 = selected_rows@.take(j + 1);
            let s0 = selected_rows@.take(j as int);
            assert forall|y: usize| out@.contains(y) <==> picked(groups@, s1, y) by {
                if picked(groups@, s1, y) {
                    let a = choose|a: int|
                        0 <= a < s1.len() && picker_origins(groups@)[#[trigger] s1[a] as int]
                            == Some(y);
                    if a < j {
                        assert(s0[a] == s1[a]);
                        assert(picked(groups@, s0, y));
                    }
                }
                if picked(groups@, s0, y) {
                    let a = choose|a: int|
                        0 <= a < s0.len() && picker_origins(groups@)[#[trigger] s0[a] as int]
                            == Some(y);
                    assert(s1[a] == s0[a]);
                }
                if out@.contains(y) && !before.contains(y) {
                    assert(s1[j as int] == row);
                }
            }
        }
        j += 1;
    }
    assert(selected_rows@.take(selected_rows@.len() as int) =~= selected_rows@);
    out
}

/// Action menu choices for the post-plan prompt. Distinct from `CleanAction` so the
/// menu-only `ReviewPaths` choice never reaches the executors.
#[derive(Debug, Clone, Copy, PartialEq, Eq, Structural)]
pub enum ActionChoice {
    Trash,
    HardDelete,
    DryRun,
    ReviewPaths,
    Cancel,
}

/// The choices of the action menu, in display order; `ReviewPaths` only when
/// offered.
pub open spec fn menu_choices(offer_review: bool) -> Seq<ActionChoice> {
    if offer_review {
        seq![
            ActionChoice::Trash,
            ActionChoice::DryRun,
            ActionChoice::ReviewPaths,
            ActionChoice::HardDelete,
            ActionChoice::Cancel,
        ]
    } else {
        seq![ActionChoice::Trash, ActionChoice::DryRun, ActionChoice::HardDelete, ActionChoice::Cancel]
    }
}

pub open spec fn choice_label(c: ActionChoice) -> Seq<char> {
    match c {
        ActionChoice::Trash => "Move to Trash (recoverable)"@,
        ActionChoice::DryRun => "Dry-run (no changes)"@,
        ActionChoice::ReviewPaths => "Review paths (drill-down)"@,
        ActionChoice::HardDelete => "Hard delete (NOT recoverable)"@,
        ActionChoice::Cancel => "Cancel"@,
    }
}

fn choice_text(c: ActionChoice) -> (r: &'static str)
    ensures
        r@ == choice_label(c),
{
    match c {
        ActionChoice::Trash => "Move to Trash (recoverable)",
        ActionChoice::DryRun => "Dry-run (no changes)",
        ActionChoice::ReviewPaths => "Review paths (drill-down)",
        ActionChoice::HardDelete => "Hard delete (NOT recoverable)",
        ActionChoice::Cancel => "Cancel",
    }
}

/// The action menu: its labels and, row for row, the choice each stands for.
pub fn action_menu(offer_review: bool) -> (r: (Vec<&'static str>, Vec<ActionChoice>))
    ensures
        r.1@ == menu_choices(offer_review),
        r.0@.len() == r.1@.len(),
        forall|i: int| 0 <= i < r.0@.len() ==> (#[trigger] r.0@[i])@ == choice_label(r.1@[i]),
{
    let mut mapping: Vec<ActionChoice> = vec![ActionChoice::Trash, ActionChoice::DryRun];
    if offer_review {
        mapping.push(ActionChoice::ReviewPaths);
    }
    mapping.push(ActionChoice::HardDelete);
    mapping.push(ActionChoice::Cancel);
    assert(mapping@ =~= menu_choices(offer_review));
    let mut items: Vec<&'static str> = Vec::new();
    let mut i: usize = 0;
    while i < mapping.len()
        invariant
            i <= mapping@.len(),
            items@.len() == i,
            forall|k: int| 0 <= k < i ==> (#[trigger] items@[k])@ == choice_label(mapping@[k]),
        decreases mapping@.len() - i,
    {
        items.push(choice_text(mapping[i]));
        i += 1;
    }
    (items, mapping)
}

/// The first hard delete row at or after row `i`.
pub open spec fn first_hard_from(mapping: Seq<ActionChoice>, i: int) -> Option<int>
    decreases mapping.len() - i,
{
    if i < 0 || i >= mapping.len() {
        None
    } else if mapping[i] == ActionChoice::HardDelete {
        Some(i)
    } else {
        first_hard_from(mapping, i + 1)
    }
}

/// The row the action menu starts on: the first hard delete row when hard delete is
/// preferred and offered, else the first row.
pub open spec fn default_row(mapping: Seq<ActionChoice>, prefer_hard: bool) -> int {
    if prefer_hard {
        match first_hard_from(mapping, 0) {
            Some(i) => i,
            None => 0,
        }
    } else {
        0
    }
}

pub fn default_action_index(mapping: &[ActionChoice], prefer_hard: bool) -> (r: usize)
    ensures
        r == default_row(mapping@, prefer_hard),
{
    if !prefer_hard {
        return 0;
    }
    let mut i: usize = 0;
    while i < mapping.len()
        invariant
            i <= mapping@.len(),
            prefer_hard,
            first_hard_from(mapping@, 0) == first_hard_from(mapping@, i as int),
        decreases mapping@.len() - i,
    {
        if mapping[i] == ActionChoice::HardDelete {
            return i;
        }
        i += 1;
    }
    0
}

/// The choice of the selected row; `Cancel` when the row is out of range.
pub fn choice_at(mapping: &[ActionChoice], row: usize) -> (r: ActionChoice)
    ensures
        r == (if row < mapping@.len() {
            mapping@[row as int]
        } else {
            ActionChoice::Cancel
        }),
{
    if row < mapping.len() {
        mapping[row]
    } else {
        ActionChoice::Cancel
    }
}

/// The action of the plain menu (no drill-down entry) for the selected row.
pub open spec fn plain_menu_action(row: nat) -> CleanAction {
    if row == 0 {
        CleanAction::Trash
    } else if row == 1 {
        CleanAction::DryRun
    } else if row == 2 {
        CleanAction::HardDelete
    } else {
        CleanAction::Cancel
    }
}

/// Action menu without the drill-down entry: the action for the selected row.
pub fn pick_action(selected_row: usize) -> (r: CleanAction)
    ensures
        r == plain_menu_action(selected_row as nat),
{
    let (_, mapping) = action_menu(false);
    match choice_at(mapping.as_slice(), selected_row) {
        ActionChoice::Trash => CleanAction::Trash,
        ActionChoice::HardDelete => CleanAction::HardDelete,
        ActionChoice::DryRun => CleanAction::DryRun,
        ActionChoice::Cancel => CleanAction::Cancel,
        ActionChoice::ReviewPaths => {
            assert(false);
            CleanAction::Cancel
        },
    }
}

/// The hard-delete confirmation question.
pub open spec fn hard_delete_question(item_count: nat, total_size: nat) -> Seq<char> {
    "PERMANENTLY DELETE "@ + decimal(item_count) + " item"@ + (if item_count == 1 {
        Seq::<char>::empty()
    } else {
        "s"@
    }) + " ("@ + bytes_text(total_size) + ") — this CANNOT be undone. Are you sure?"@
}

pub fn hard_delete_prompt(item_count: usize, total_size: u64) -> (s: String)
    ensures
        s@ == hard_delete_question(item_count as nat, total_size as nat),
{
    let mut s = String::new();
    append_str(&mut s, "PERMANENTLY DELETE ");
    push_decimal(&mut s, item_count as u64);
    append_str(&mut s, " item");
    if item_count != 1 {
        append_str(&mut s, "s");
    }
    append_str(&mut s, " (");
    let b = format_bytes(total_size);
    append_str(&mut s, b.as_str());
    append_str(&mut s, ") — this CANNOT be undone. Are you sure?");
    assert(s@ =~= hard_delete_question(item_count as nat, total_size as nat));
    s
}

} // verus!
