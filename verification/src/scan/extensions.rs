//! Per-extension aggregation: count and total bytes per file extension.
use vstd::prelude::*;
use crate::path::{extension, extension_of};
use crate::scan::types::FileEntry;
use crate::text::{lowercase, str_eq, to_lowercase};

verus! {

broadcast use vstd::string::group_string_axioms;

/// Count and total size of the files of one extension.
#[derive(Debug, Clone)]
pub struct ExtStat {
    pub ext: String,
    pub count: u64,
    pub total_size: u64,
}

/// The bucket of a file: its extension in lowercase, or `(no ext)`.
pub open spec fn ext_key(p: Seq<char>) -> Seq<char> {
    match extension(p) {
        Some(e) => lowercase(e),
        None => "(no ext)"@,
    }
}

/// How many of `files` fall in bucket `e`.
pub open spec fn ext_count(files: Seq<FileEntry>, e: Seq<char>) -> nat
    decreases files.len(),
{
    if files.len() == 0 {
        0
    } else {
        ext_count(files.drop_last(), e) + if ext_key(files.last().path@) == e {
            1nat
        } else {
            0nat
        }
    }
}

/// Total size of the files of `files` in bucket `e`.
pub open spec fn ext_total(files: Seq<FileEntry>, e: Seq<char>) -> nat
    decreases files.len(),
{
    if files.len() == 0 {
        0
    } else {
        ext_total(files.drop_last(), e) + if ext_key(files.last().path@) == e {
            files.last().size as nat
        } else {
            0nat
        }
    }
}

/// Some file of `files` falls in bucket `e`.
pub open spec fn has_file_in(files: Seq<FileEntry>, e: Seq<char>) -> bool {
    exists|i: int| 0 <= i < files.len() && ext_key((#[trigger] files[i]).path@) == e
}

/// Some statistic of `r` is for bucket `e`.
pub open spec fn has_stat(r: Seq<ExtStat>, e: Seq<char>) -> bool {
    exists|k: int| 0 <= k < r.len() && (#[trigger] r[k]).ext@ == e
}

/// `s` is the statistic of a bucket that some file of `files` falls in.
pub open spec fn stat_of(files: Seq<FileEntry>, s: ExtStat) -> bool {
    &&& s.count == ext_count(files, s.ext@)
    &&& s.total_size == ext_total(files, s.ext@)
    &&& has_file_in(files, s.ext@)
}

/// `r` holds one statistic per bucket of `files`, no bucket twice.
pub open spec fn covers(files: Seq<FileEntry>, r: Seq<ExtStat>) -> bool {
    &&& forall|k: int| 0 <= k < r.len() ==> stat_of(files, #[trigger] r[k])
    &&& forall|a: int, b: int| 0 <= a < b < r.len() ==> (#[trigger] r[a]).ext@ != (#[trigger] r[b]).ext@
    &&& forall|i: int| 0 <= i < files.len() ==> has_stat(r, ext_key((#[trigger] files[i]).path@))
}

proof fn lemma_total_prefix(files: Seq<FileEntry>, e: Seq<char>, j: int)
    requires
        0 <= j <= files.len(),
    ensures
        ext_total(files.take(j), e) <= ext_total(files, e),
    decreases files.len() - j,
{
    if j < files.len() {
        lemma_total_prefix(files, e, j + 1);
        assert(files.take(j + 1).drop_last() =~= files.take(j));
    } else {
        assert(files.take(j) =~= files);
    }
}

proof fn lemma_count_bound(files: Seq<FileEntry>, e: Seq<char>)
    ensures
        ext_count(files, e) <= files.len(),
    decreases files.len(),
{
    if files.len() > 0 {
        lemma_count_bound(files.drop_last(), e);
    }
}

/// The bucket of the file at `path`.
pub fn bucket_of(path: &str) -> (r: String)
    ensures
        r@ == ext_key(path@),
{
    match extension_of(path) {
        Some(e) => to_lowercase(e.as_str()),
        None => String::from_str("(no ext)"),
    }
}

proof fn lemma_file_in_extends(pre: Seq<FileEntry>, nxt: Seq<FileEntry>, e: Seq<char>)
    requires
        nxt.drop_last() == pre,
        nxt.len() == pre.len() + 1,
        has_file_in(pre, e),
    ensures
        has_file_in(nxt, e),
{
    let w = choose|w: int| 0 <= w < pre.len() && ext_key((#[trigger] pre[w]).path@) == e;
    assert(nxt[w] == pre[w]);
}

/// Adds file `i` to the statistics of the files before it.
#[verifier::rlimit(40)]
fn record_file(stats: &mut Vec<ExtStat>, files: &[FileEntry], i: usize)
    requires
        i < files@.len(),
        forall|x: int| 0 <= x < files@.len() ==> ext_total(files@, ext_key((#[trigger] files@[x]).path@)) <= u64::MAX,
        covers(files@.take(i as int), old(stats)@),
    ensures
        covers(files@.take(i + 1), final(stats)@),
{
    let ghost pre = files@.take(i as int);
    let ghost nxt = files@.take(i + 1);
    assert(nxt.drop_last() =~= pre);
    assert(nxt.last() == files@[i as int]);
    let key = bucket_of(files[i].path.as_str());
    let size = files[i].size;
    let mut k: usize = 0;
    while k < stats.len() && !str_eq(stats[k].ext.as_str(), key.as_str())
        invariant
            k <= stats@.len(),
            forall|a: int| 0 <= a < k ==> (#[trigger] stats@[a]).ext@ != key@,
        decreases stats@.len() - k,
    {
        k += 1;
    }
    proof {
        lemma_total_prefix(files@, key@, i + 1);
        lemma_count_bound(nxt, key@);
        assert(ext_key(files@[i as int].path@) == key@);
        assert(has_file_in(nxt, key@)) by {
            assert(nxt[i as int] == files@[i as int]);
        }
    }
    let ghost old_stats = stats@;
    if k < stats.len() {
        let cur = &stats[k];
        assert(stat_of(pre, old_stats[k as int]));
        let updated = ExtStat {
            ext: cur.ext.clone(),
            count: cur.count + 1,
            total_size: cur.total_size + size,
        };
        stats.set(k, updated);
        proof {
            assert forall|a: int| 0 <= a < stats@.len() implies stat_of(nxt, #[trigger] stats@[a]) by {
                if a != k {
                    assert(stats@[a] == old_stats[a]);
                    assert(stat_of(pre, old_stats[a]));
                    assert(old_stats[a].ext@ != key@);
                    lemma_file_in_extends(pre, nxt, old_stats[a].ext@);
                }
            }
            assert forall|x: int| 0 <= x < nxt.len() implies has_stat(stats@, ext_key((#[trigger] nxt[x]).path@)) by {
                if x < i {
                    assert(nxt[x] == pre[x]);
                    assert(has_stat(old_stats, ext_key(pre[x].path@)));
                    let c = choose|c: int| 0 <= c < old_stats.len() && (#[trigger] old_stats[c]).ext@ == ext_key(pre[x].path@);
                    assert(stats@[c].ext@ == old_stats[c].ext@);
                } else {
                    assert(stats@[k as int].ext@ == ext_key(nxt[x].path@));
                }
            }
            assert forall|a: int, b: int| 0 <= a < b < stats@.len() implies (#[trigger] stats@[a]).ext@ != (#[trigger] stats@[b]).ext@ by {
                assert(stats@[a].ext@ == old_stats[a].ext@);
                assert(stats@[b].ext@ == old_stats[b].ext@);
            }
        }
    } else {
        proof {
            assert(!has_file_in(pre, key@)) by {
                if has_file_in(pre, key@) {
                    let w = choose|w: int| 0 <= w < pre.len() && ext_key((#[trigger] pre[w]).path@) == key@;
                    assert(has_stat(old_stats, ext_key(pre[w].path@)));
                }
            }
            lemma_count_zero(pre, key@);
            lemma_total_zero(pre, key@);
        }
        stats.push(ExtStat { ext: key, count: 1, total_size: size });
        proof {
            assert forall|a: int| 0 <= a < stats@.len() implies stat_of(nxt, #[trigger] stats@[a]) by {
                if a < old_stats.len() {
                    assert(stats@[a] == old_stats[a]);
                    assert(stat_of(pre, old_stats[a]));
                    assert(old_stats[a].ext@ != key@);
                    lemma_file_in_extends(pre, nxt, old_stats[a].ext@);
                }
            }
            assert forall|x: int| 0 <= x < nxt.len() implies has_stat(stats@, ext_key((#[trigger] nxt[x]).path@)) by {
                if x < i {
                    assert(nxt[x] == pre[x]);
                    assert(has_stat(old_stats, ext_key(pre[x].path@)));
                    let c = choose|c: int| 0 <= c < old_stats.len() && (#[trigger] old_stats[c]).ext@ == ext_key(pre[x].path@);
                    assert(stats@[c] == old_stats[c]);
                } else {
                    assert(stats@[old_stats.len() as int].ext@ == ext_key(nxt[x].path@));
                }
            }
            assert forall|a: int, b: int| 0 <= a < b < stats@.len() implies (#[trigger] stats@[a]).ext@ != (#[trigger] stats@[b]).ext@ by {
                assert(stats@[a] == old_stats[a]);
                if b < old_stats.len() {
                    assert(stats@[b] == old_stats[b]);
                }
            }
        }
    }
}

/// Per-bucket statistics in the order the buckets are first met.
fn collect_stats(files: &[FileEntry]) -> (r: Vec<ExtStat>)
    requires
        forall|i: int| 0 <= i < files@.len() ==> ext_total(files@, ext_key((#[trigger] files@[i]).path@)) <= u64::MAX,
    ensures
        covers(files@, r@),
{
    let mut stats: Vec<ExtStat> = Vec::new();
    let mut i: usize = 0;
    assert(files@.take(0) =~= Seq::<FileEntry>::empty());
    while i < files.len()
        invariant
            i <= files@.len(),
            forall|x: int| 0 <= x < files@.len() ==> ext_total(files@, ext_key((#[trigger] files@[x]).path@)) <= u64::MAX,
            covers(files@.take(i as int), stats@),
        decreases files@.len() - i,
    {
        record_file(&mut stats, files, i);
        i += 1;
    }
    assert(files@.take(files@.len() as int) =~= files@);
    stats
}

/// Whether `x` holds exactly the entries of `y`.
pub open spec fn same_entries(x: Seq<ExtStat>, y: Seq<ExtStat>) -> bool {
    &&& forall|a: int| 0 <= a < x.len() ==> y.contains(#[trigger] x[a])
    &&& forall|c: int| 0 <= c < y.len() ==> x.contains(#[trigger] y[c])
}

pub open spec fn distinct_exts(x: Seq<ExtStat>) -> bool {
    forall|a: int, b: int| 0 <= a < b < x.len() ==> (#[trigger] x[a]).ext@ != (#[trigger] x[b]).ext@
}

pub open spec fn by_total_desc(x: Seq<ExtStat>) -> bool {
    forall|a: int, b: int| 0 <= a < b < x.len() ==> (#[trigger] x[a]).total_size >= (#[trigger] x[b]).total_size
}

/// Inserts `s` into `out` after every entry of larger or equal total.
#[verifier::rlimit(40)]
fn insert_by_total(out: &mut Vec<ExtStat>, s: ExtStat)
    requires
        by_total_desc(old(out)@),
        distinct_exts(old(out)@),
        forall|a: int| 0 <= a < old(out)@.len() ==> (#[trigger] old(out)@[a]).ext@ != s.ext@,
    ensures
        by_total_desc(final(out)@),
        distinct_exts(final(out)@),
        forall|a: int| 0 <= a < final(out)@.len() ==> (old(out)@.contains(#[trigger] final(out)@[a]) || final(out)@[a] == s),
        forall|a: int| 0 <= a < old(out)@.len() ==> final(out)@.contains(#[trigger] old(out)@[a]),
        final(out)@.contains(s),
{
    let mut p: usize = 0;
    while p < out.len() && out[p].total_size >= s.total_size
        invariant
            p <= out@.len(),
            forall|a: int| 0 <= a < p ==> (#[trigger] out@[a]).total_size >= s.total_size,
        decreases out@.len() - p,
    {
        p += 1;
    }
    let ghost old_out = out@;
    let ghost sv = s;
    out.insert(p, s);
    proof {
        assert forall|a: int| 0 <= a < out@.len() && a != p implies out@[a] == (if a < p { old_out[a] } else { old_out[a - 1] }) by {}
        assert(out@[p as int] == sv);
        assert forall|a: int| 0 <= a < out@.len() implies (old_out.contains(#[trigger] out@[a]) || out@[a] == sv) by {
            if a < p {
                assert(old_out[a] == out@[a]);
            } else if a > p {
                assert(old_out[a - 1] == out@[a]);
            }
        }
        assert forall|a: int| 0 <= a < old_out.len() implies out@.contains(#[trigger] old_out[a]) by {
            if a < p {
                assert(out@[a] == old_out[a]);
            } else {
                assert(out@[a + 1] == old_out[a]);
            }
        }
        assert forall|a: int, b: int| 0 <= a < b < out@.len() implies (#[trigger] out@[a]).ext@ != (#[trigger] out@[b]).ext@ by {}
        assert forall|a: int, b: int| 0 <= a < b < out@.len() implies (#[trigger] out@[a]).total_size >= (#[trigger] out@[b]).total_size by {
            if a == p && b > p && b - 1 > p {
                assert(old_out[p as int].total_size >= old_out[b - 1].total_size);
            }
            if a < p && b > p {
                assert(old_out[a].total_size >= sv.total_size);
            }
        }
    }
}

/// The entries of `stats` ordered by total, largest first.
fn sort_by_total(stats: &Vec<ExtStat>) -> (r: Vec<ExtStat>)
    requires
        distinct_exts(stats@),
    ensures
        same_entries(r@, stats@),
        distinct_exts(r@),
        by_total_desc(r@),
{
    let mut out: Vec<ExtStat> = Vec::new();
    let mut k: usize = 0;
    while k < stats.len()
        invariant
            k <= stats@.len(),
            distinct_exts(stats@),
            same_entries(out@, stats@.take(k as int)),
            distinct_exts(out@),
            by_total_desc(out@),
        decreases stats@.len() - k,
    {
        let s = &stats[k];
        let copy = ExtStat { ext: s.ext.clone(), count: s.count, total_size: s.total_size };
        assert(copy == stats@[k as int]);
        proof {
            assert forall|a: int| 0 <= a < out@.len() implies (#[trigger] out@[a]).ext@ != copy.ext@ by {
                assert(stats@.take(k as int).contains(out@[a]));
                let c = choose|c: int| 0 <= c < k && stats@.take(k as int)[c] == out@[a];
                assert(stats@[c] == out@[a]);
            }
        }
        let ghost before = out@;
        insert_by_total(&mut out, copy);
        proof {
            let t1 = stats@.take(k + 1);
            let t0 = stats@.take(k as int);
            assert forall|a: int| 0 <= a < out@.len() implies t1.contains(#[trigger] out@[a]) by {
                if before.contains(out@[a]) {
                    let c = choose|c: int| 0 <= c < before.len() && before[c] == out@[a];
                    assert(t0.contains(before[c]));
                    let d = choose|d: int| 0 <= d < t0.len() && t0[d] == before[c];
                    assert(t1[d] == t0[d]);
                } else {
                    assert(t1[k as int] == out@[a]);
                }
            }
            assert forall|c: int| 0 <= c < t1.len() implies out@.contains(#[trigger] t1[c]) by {
                if c < k {
                    assert(t1[c] == t0[c]);
                    assert(before.contains(t0[c]));
                    let a = choose|a: int| 0 <= a < before.len() && before[a] == t0[c];
                    assert(out@.contains(before[a]));
                }
            }
        }
        k += 1;
    }
    assert(stats@.take(stats@.len() as int) =~= stats@);
    out
}

/// Counts and totals per extension (compared in lowercase; `(no ext)` for files
/// without one), largest total first. Buckets of equal total come in no promised
/// order.
pub fn aggregate(files: &[FileEntry]) -> (r: Vec<ExtStat>)
    requires
        forall|i: int| 0 <= i < files@.len() ==> ext_total(files@, ext_key((#[trigger] files@[i]).path@)) <= u64::MAX,
    ensures
        covers(files@, r@),
        by_total_desc(r@),
{
    let stats = collect_stats(files);
    let out = sort_by_total(&stats);
    proof {
        assert forall|k: int| 0 <= k < out@.len() implies stat_of(files@, #[trigger] out@[k]) by {
            assert(stats@.contains(out@[k]));
            let c = choose|c: int| 0 <= c < stats@.len() && stats@[c] == out@[k];
            assert(stat_of(files@, stats@[c]));
        }
        assert forall|x: int| 0 <= x < files@.len() implies has_stat(out@, ext_key((#[trigger] files@[x]).path@)) by {
            assert(has_stat(stats@, ext_key(files@[x].path@)));
            let c = choose|c: int| 0 <= c < stats@.len() && (#[trigger] stats@[c]).ext@ == ext_key(files@[x].path@);
            assert(out@.contains(stats@[c]));
            let a = choose|a: int| 0 <= a < out@.len() && out@[a] == stats@[c];
            assert(out@[a].ext@ == ext_key(files@[x].path@));
        }
    }
    out
}

proof fn lemma_count_zero(files: Seq<FileEntry>, e: Seq<char>)
    requires
        !has_file_in(files, e),
    ensures
        ext_count(files, e) == 0,
    decreases files.len(),
{
    if files.len() > 0 {
        assert(files[files.len() - 1] == files.last());
        assert(!has_file_in(files.drop_last(), e)) by {
            if has_file_in(files.drop_last(), e) {
                let w = choose|w: int| 0 <= w < files.drop_last().len() && ext_key((#[trigger] files.drop_last()[w]).path@) == e;
                assert(files[w] == files.drop_last()[w]);
            }
        }
        lemma_count_zero(files.drop_last(), e);
    }
}

proof fn lemma_total_zero(files: Seq<FileEntry>, e: Seq<char>)
    requires
        ext_count(files, e) == 0,
    ensures
        ext_total(files, e) == 0,
    decreases files.len(),
{
    if files.len() > 0 {
        lemma_total_zero(files.drop_last(), e);
    }
}

} // verus!
