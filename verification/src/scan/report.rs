//! The text report of a scan, line by line.
use vstd::prelude::*;
use crate::text::names;
use crate::cli::{ScanOpts, ScanSort};
use crate::scan::duplicates::{find, hashes_view, is_class_list, reports, wasted, Class, DuplicateGroup};
use crate::scan::extensions::{aggregate, by_total_desc, covers, ext_key, ext_total, ExtStat};
use crate::scan::sort::{is_sort_order, sort_files};
use crate::scan::types::{FileEntry, ScanData};
use crate::text::{append_str, decimal, push_decimal};
use crate::util::{append_padded_left, append_padded_right, bytes_text, format_bytes, pad_left, pad_right};

verus! {

broadcast use vstd::string::group_string_axioms;


pub open spec fn sort_name(s: ScanSort) -> Seq<char> {
    match s {
        ScanSort::Size => "Size"@,
        ScanSort::Age => "Age"@,
        ScanSort::Path => "Path"@,
    }
}

pub open spec fn bool_text(b: bool) -> Seq<char> {
    if b {
        "true"@
    } else {
        "false"@
    }
}

/// The report header.
pub open spec fn header_text(data: ScanData, opts: ScanOpts) -> Seq<Seq<char>> {
    seq!["Scan roots:"@] + data.roots@.map_values(|r: String| "  "@ + r@) + seq![
        "Thresholds: size >= "@ + decimal(opts.min_size_mb as nat) + " MB, age >= "@ + decimal(
            opts.older_than_days as nat,
        ) + " days"@,
        "Sort: "@ + sort_name(opts.sort) + ", Limit: "@ + decimal(opts.limit as nat),
    ] + (if opts.duplicates {
        seq!["Duplicate detection: enabled (verify_with_hash = "@ + bool_text(opts.hash) + ")"@]
    } else {
        Seq::<Seq<char>>::empty()
    }) + seq!["(read-only — no files are deleted)"@, Seq::<char>::empty()]
}

fn push_line(out: &mut Vec<String>, s: String)
    ensures
        names(final(out)@) == names(old(out)@).push(s@),
{
    let ghost before = out@;
    out.push(s);
    assert(names(out@) =~= names(before).push(s@));
}

fn sort_text(s: ScanSort) -> (r: &'static str)
    ensures
        r@ == sort_name(s),
{
    match s {
        ScanSort::Size => "Size",
        ScanSort::Age => "Age",
        ScanSort::Path => "Path",
    }
}

pub fn header_lines(data: &ScanData, opts: &ScanOpts) -> (r: Vec<String>)
    ensures
        names(r@) == header_text(*data, *opts),
{
    let mut out: Vec<String> = Vec::new();
    push_line(&mut out, String::from_str("Scan roots:"));
    let mut i: usize = 0;
    while i < data.roots.len()
        invariant
            i <= data.roots@.len(),
            names(out@) == seq!["Scan roots:"@] + data.roots@.take(i as int).map_values(|r: String| "  "@ + r@),
        decreases data.roots@.len() - i,
    {
        let mut s = String::from_str("  ");
        append_str(&mut s, data.roots[i].as_str());
        push_line(&mut out, s);
        assert(data.roots@.take(i + 1).map_values(|r: String| "  "@ + r@) =~= data.roots@.take(i as int).map_values(|r: String| "  "@ + r@).push("  "@ + data.roots@[i as int]@));
        i += 1;
    }
    assert(data.roots@.take(data.roots@.len() as int) =~= data.roots@);
    let mut t = String::from_str("Thresholds: size >= ");
    push_decimal(&mut t, opts.min_size_mb);
    append_str(&mut t, " MB, age >= ");
    push_decimal(&mut t, opts.older_than_days);
    append_str(&mut t, " days");
    push_line(&mut out, t);
    let mut so = String::from_str("Sort: ");
    append_str(&mut so, sort_text(opts.sort));
    append_str(&mut so, ", Limit: ");
    push_decimal(&mut so, opts.limit as u64);
    push_line(&mut out, so);
    let ghost mid = names(out@);
    if opts.duplicates {
        let mut d = String::from_str("Duplicate detection: enabled (verify_with_hash = ");
        append_str(&mut d, if opts.hash { "true" } else { "false" });
        append_str(&mut d, ")");
        push_line(&mut out, d);
    }
    push_line(&mut out, String::from_str("(read-only — no files are deleted)"));
    push_line(&mut out, String::new());
    assert(names(out@) =~= header_text(*data, *opts));
    out
}

/// How a listed file is shown: size or age in days, then its path.
pub open spec fn file_line_text(e: FileEntry, by_age: bool) -> Seq<char> {
    if by_age {
        pad_left(decimal(e.age_secs as nat / 86400), 5) + "d  "@ + e.path@
    } else {
        pad_left(bytes_text(e.size as nat), 10) + "  "@ + e.path@
    }
}

/// `... and N more` when a list was cut at `limit` entries.
pub open spec fn more_text(n: nat, limit: nat) -> Seq<Seq<char>> {
    if n > limit {
        seq!["... and "@ + decimal((n - limit) as nat) + " more"@]
    } else {
        Seq::<Seq<char>>::empty()
    }
}

pub open spec fn min_nat(a: nat, b: nat) -> nat {
    if a < b {
        a
    } else {
        b
    }
}

/// A titled file list: at most `limit` entries, then how many were left out.
pub open spec fn file_list_text(title: Seq<char>, files: Seq<FileEntry>, limit: nat, by_age: bool) -> Seq<Seq<char>> {
    seq!["== "@ + title + " ("@ + decimal(files.len()) + ") =="@] + files.take(
        min_nat(limit, files.len()) as int,
    ).map_values(|e: FileEntry| file_line_text(e, by_age)) + more_text(files.len(), limit)
}

fn more_line(out: &mut Vec<String>, n: usize, limit: usize)
    ensures
        names(final(out)@) == names(old(out)@) + more_text(n as nat, limit as nat),
{
    if n > limit {
        let mut s = String::from_str("... and ");
        push_decimal(&mut s, (n - limit) as u64);
        append_str(&mut s, " more");
        push_line(out, s);
        assert(names(out@) =~= names(old(out)@) + more_text(n as nat, limit as nat));
    } else {
        assert(names(out@) =~= names(old(out)@) + more_text(n as nat, limit as nat));
    }
}

pub fn file_lines(title: &str, files: &Vec<FileEntry>, limit: usize, by_age: bool) -> (r: Vec<String>)
    ensures
        names(r@) == file_list_text(title@, files@, limit as nat, by_age),
{
    let mut out: Vec<String> = Vec::new();
    let mut h = String::from_str("== ");
    append_str(&mut h, title);
    append_str(&mut h, " (");
    push_decimal(&mut h, files.len() as u64);
    append_str(&mut h, ") ==");
    push_line(&mut out, h);
    let shown = if limit < files.len() { limit } else { files.len() };
    let ghost f = |e: FileEntry| file_line_text(e, by_age);
    let mut i: usize = 0;
    while i < shown
        invariant
            i <= shown <= files@.len(),
            f == |e: FileEntry| file_line_text(e, by_age),
            names(out@) == seq!["== "@ + title@ + " ("@ + decimal(files@.len()) + ") =="@] + files@.take(i as int).map_values(f),
        decreases shown - i,
    {
        let e = &files[i];
        let mut s = String::new();
        if by_age {
            let mut d = String::new();
            push_decimal(&mut d, e.age_secs / 86_400);
            append_padded_left(&mut s, d.as_str(), 5);
            append_str(&mut s, "d  ");
        } else {
            let b = format_bytes(e.size);
            append_padded_left(&mut s, b.as_str(), 10);
            append_str(&mut s, "  ");
        }
        append_str(&mut s, e.path.as_str());
        assert(s@ =~= f(*e));
        push_line(&mut out, s);
        assert(files@.take(i + 1).map_values(f) =~= files@.take(i as int).map_values(f).push(f(files@[i as int])));
        i += 1;
    }
    more_line(&mut out, files.len(), limit);
    assert(names(out@) =~= file_list_text(title@, files@, limit as nat, by_age));
    out
}

/// One row of the extension table.
pub open spec fn ext_row_text(s: ExtStat) -> Seq<char> {
    pad_right(s.ext@, 14) + " "@ + pad_left(decimal(s.count as nat), 8) + " "@ + pad_left(bytes_text(s.total_size as nat), 14)
}

pub open spec fn ext_table_text(stats: Seq<ExtStat>, limit: nat) -> Seq<Seq<char>> {
    seq![
        "== By extension ("@ + decimal(stats.len()) + ") =="@,
        pad_right("EXT"@, 14) + " "@ + pad_left("COUNT"@, 8) + " "@ + pad_left("TOTAL"@, 14),
    ] + stats.take(min_nat(limit, stats.len()) as int).map_values(|s: ExtStat| ext_row_text(s)) + more_text(stats.len(), limit)
}

pub fn extension_lines(stats: &Vec<ExtStat>, limit: usize) -> (r: Vec<String>)
    ensures
        names(r@) == ext_table_text(stats@, limit as nat),
{
    let mut out: Vec<String> = Vec::new();
    let mut h = String::from_str("== By extension (");
    push_decimal(&mut h, stats.len() as u64);
    append_str(&mut h, ") ==");
    push_line(&mut out, h);
    let mut c = String::new();
    append_padded_right(&mut c, "EXT", 14);
    append_str(&mut c, " ");
    append_padded_left(&mut c, "COUNT", 8);
    append_str(&mut c, " ");
    append_padded_left(&mut c, "TOTAL", 14);
    push_line(&mut out, c);
    let ghost head = names(out@);
    let shown = if limit < stats.len() { limit } else { stats.len() };
    let mut i: usize = 0;
    while i < shown
        invariant
            i <= shown <= stats@.len(),
            names(out@) == head + stats@.take(i as int).map_values(|s: ExtStat| ext_row_text(s)),
        decreases shown - i,
    {
        let st = &stats[i];
        let mut s = String::new();
        append_padded_right(&mut s, st.ext.as_str(), 14);
        append_str(&mut s, " ");
        let mut n = String::new();
        push_decimal(&mut n, st.count);
        append_padded_left(&mut s, n.as_str(), 8);
        append_str(&mut s, " ");
        let b = format_bytes(st.total_size);
        append_padded_left(&mut s, b.as_str(), 14);
        assert(s@ =~= ext_row_text(*st));
        push_line(&mut out, s);
        assert(stats@.take(i + 1).map_values(|s: ExtStat| ext_row_text(s)) =~= stats@.take(i as int).map_values(|s: ExtStat| ext_row_text(s)).push(ext_row_text(stats@[i as int])));
        i += 1;
    }
    more_line(&mut out, stats.len(), limit);
    assert(names(out@) =~= ext_table_text(stats@, limit as nat));
    out
}

/// Sum of the wasted bytes of `groups`.
pub open spec fn total_wasted(groups: Seq<DuplicateGroup>) -> nat
    decreases groups.len(),
{
    if groups.len() == 0 {
        0
    } else {
        total_wasted(groups.drop_last()) + wasted(groups.last().size as nat, groups.last().paths@.len())
    }
}

/// The lines of one duplicate group: size, copies and name, then each path.
pub open spec fn group_text(g: DuplicateGroup) -> Seq<Seq<char>> {
    seq![
        pad_left(bytes_text(g.size as nat), 10) + " x"@ + decimal(g.paths@.len()) + "  "@ + g.name@
            + (if g.verified_by_hash {
            " [hash-verified]"@
        } else {
            Seq::<char>::empty()
        }),
    ] + g.paths@.map_values(|p: String| "           - "@ + p@)
}

pub open spec fn groups_text(groups: Seq<DuplicateGroup>) -> Seq<Seq<char>>
    decreases groups.len(),
{
    if groups.len() == 0 {
        Seq::<Seq<char>>::empty()
    } else {
        groups_text(groups.drop_last()) + group_text(groups.last())
    }
}

pub open spec fn duplicates_text(groups: Seq<DuplicateGroup>, limit: nat) -> Seq<Seq<char>> {
    seq!["== Duplicates ("@ + decimal(groups.len()) + ", wasted ~"@ + bytes_text(total_wasted(groups)) + ") =="@]
        + groups_text(groups.take(min_nat(limit, groups.len()) as int)) + more_text(groups.len(), limit)
}

proof fn lemma_total_wasted_prefix(groups: Seq<DuplicateGroup>, j: int)
    requires
        0 <= j <= groups.len(),
    ensures
        total_wasted(groups.take(j)) <= total_wasted(groups),
    decreases groups.len() - j,
{
    if j < groups.len() {
        lemma_total_wasted_prefix(groups, j + 1);
        assert(groups.take(j + 1).drop_last() =~= groups.take(j));
    } else {
        assert(groups.take(j) =~= groups);
    }
}

pub fn duplicate_lines(groups: &Vec<DuplicateGroup>, limit: usize) -> (r: Vec<String>)
    requires
        total_wasted(groups@) <= u64::MAX,
    ensures
        names(r@) == duplicates_text(groups@, limit as nat),
{
    let mut total: u64 = 0;
    let mut i: usize = 0;
    assert(groups@.take(0) =~= Seq::<DuplicateGroup>::empty());
    while i < groups.len()
        invariant
            i <= groups@.len(),
            total_wasted(groups@) <= u64::MAX,
            total == total_wasted(groups@.take(i as int)),
        decreases groups@.len() - i,
    {
        assert(groups@.take(i + 1).drop_last() =~= groups@.take(i as int));
        proof {
            lemma_total_wasted_prefix(groups@, i + 1);
        }
        total = total + groups[i].wasted_bytes();
        i += 1;
    }
    assert(groups@.take(groups@.len() as int) =~= groups@);
    let mut out: Vec<String> = Vec::new();
    let mut h = String::from_str("== Duplicates (");
    push_decimal(&mut h, groups.len() as u64);
    append_str(&mut h, ", wasted ~");
    let b = format_bytes(total);
    append_str(&mut h, b.as_str());
    append_str(&mut h, ") ==");
    push_line(&mut out, h);
    let ghost head = names(out@);
    let shown = if limit < groups.len() { limit } else { groups.len() };
    let mut i: usize = 0;
    assert(groups_text(groups@.take(0)) =~= Seq::<Seq<char>>::empty());
    assert(head + groups_text(groups@.take(0)) =~= head);
    while i < shown
        invariant
            i <= shown <= groups@.len(),
            names(out@) == head + groups_text(groups@.take(i as int)),
        decreases shown - i,
    {
        let g = &groups[i];
        let ghost before = names(out@);
        let mut s = String::new();
        let sz = format_bytes(g.size);
        append_padded_left(&mut s, sz.as_str(), 10);
        append_str(&mut s, " x");
        push_decimal(&mut s, g.paths.len() as u64);
        append_str(&mut s, "  ");
        append_str(&mut s, g.name.as_str());
        if g.verified_by_hash {
            append_str(&mut s, " [hash-verified]");
        }
        let ghost first = s@;
        push_line(&mut out, s);
        let mut t: usize = 0;
        while t < g.paths.len()
            invariant
                t <= g.paths@.len(),
                names(out@) == before.push(first) + g.paths@.take(t as int).map_values(|p: String| "           - "@ + p@),
            decreases g.paths@.len() - t,
        {
            let mut ps = String::from_str("           - ");
            append_str(&mut ps, g.paths[t].as_str());
            push_line(&mut out, ps);
            assert(g.paths@.take(t + 1).map_values(|p: String| "           - "@ + p@) =~= g.paths@.take(t as int).map_values(|p: String| "           - "@ + p@).push("           - "@ + g.paths@[t as int]@));
            t += 1;
        }
        proof {
            assert(g.paths@.take(g.paths@.len() as int) =~= g.paths@);
            assert(first =~= group_text(*g)[0]);
            assert(groups@.take(i + 1).drop_last() =~= groups@.take(i as int));
            assert(group_text(*g) =~= seq![first] + g.paths@.map_values(|p: String| "           - "@ + p@));
            assert(names(out@) =~= head + groups_text(groups@.take(i + 1)));
        }
        i += 1;
    }
    more_line(&mut out, groups.len(), limit);
    assert(names(out@) =~= duplicates_text(groups@, limit as nat));
    out
}

} // verus!
