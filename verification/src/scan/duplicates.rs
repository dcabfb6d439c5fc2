//! Duplicate file detection.
//!
//! Files that share both their exact byte size and their exact file name are very
//! likely duplicates (re-downloads, copies, backups). With hash verification, such
//! files are further split by the hash of their contents; files whose contents
//! could not be read drop out. Empty files are never reported.
use vstd::prelude::*;
use crate::path::{file_name, file_name_of};
use crate::scan::types::FileEntry;
use crate::text::{append_str, decimal, push_char, push_decimal, str_eq};

verus! {

broadcast use vstd::string::group_string_axioms;

/// Files that look like copies of each other.
#[derive(Debug, Clone)]
pub struct DuplicateGroup {
    /// `"<size>:<name>"`.
    pub key: String,
    pub size: u64,
    pub name: String,
    pub paths: Vec<String>,
    pub verified_by_hash: bool,
}

/// Bytes taken by the copies beyond the first, saturating.
pub open spec fn wasted(size: nat, copies: nat) -> nat {
    if copies <= 1 {
        0
    } else if size * (copies - 1) > u64::MAX {
        u64::MAX as nat
    } else {
        (size * (copies - 1)) as nat
    }
}

/// `wasted(size, copies)` in a `u64`.
fn wasted_u64(size: u64, copies: usize) -> (r: u64)
    ensures
        r == wasted(size as nat, copies as nat),
{
    if copies <= 1 {
        return 0;
    }
    let n = (copies as u64) - 1;
    match size.checked_mul(n) {
        Some(v) => v,
        None => u64::MAX,
    }
}

impl DuplicateGroup {
    /// Bytes that deleting all copies but one would free.
    pub fn wasted_bytes(&self) -> (r: u64)
        ensures
            r == wasted(self.size as nat, self.paths@.len()),
    {
        wasted_u64(self.size, self.paths.len())
    }
}

/// A duplicate class: size, file name and, when hashes were taken, content hash.
pub type ClassKey = (u64, Seq<char>, Option<u64>);

/// The class of file `j`: none for an empty file, a path without file name, or a
/// file whose contents could not be hashed.
pub open spec fn file_key(files: Seq<FileEntry>, hashes: Option<Seq<Option<u64>>>, j: int) -> Option<
    ClassKey,
> {
    if files[j].size == 0 {
        None
    } else {
        match file_name(files[j].path@) {
            None => None,
            Some(n) => match hashes {
                None => Some((files[j].size, n, None)),
                Some(h) => match h[j] {
                    None => None,
                    Some(x) => Some((files[j].size, n, Some(x))),
                },
            },
        }
    }
}

/// The positions, ascending, of the first `n` files that are in class `k`.
pub open spec fn class_members(
    files: Seq<FileEntry>,
    hashes: Option<Seq<Option<u64>>>,
    k: ClassKey,
    n: int,
) -> Seq<usize>
    decreases n,
{
    if n <= 0 {
        Seq::<usize>::empty()
    } else {
        let p = class_members(files, hashes, k, n - 1);
        if file_key(files, hashes, n - 1) == Some(k) {
            p.push((n - 1) as usize)
        } else {
            p
        }
    }
}

/// A class together with its members.
pub type Class = (u64, Seq<char>, Option<u64>, Seq<usize>);

pub open spec fn key_of(c: Class) -> ClassKey {
    (c.0, c.1, c.2)
}

/// File `j`, if its class has two or more files, has its class listed in `cl`.
pub open spec fn class_listed(
    files: Seq<FileEntry>,
    hashes: Option<Seq<Option<u64>>>,
    cl: Seq<Class>,
    j: int,
) -> bool {
    match file_key(files, hashes, j) {
        Some(k) => class_members(files, hashes, k, files.len() as int).len() >= 2 ==> exists|c: int|
            0 <= c < cl.len() && key_of(#[trigger] cl[c]) == k,
        None => true,
    }
}

/// `cl` lists, each once, the classes of two or more files, each with all its
/// members, most wasted bytes first.
pub open spec fn is_class_list(
    files: Seq<FileEntry>,
    hashes: Option<Seq<Option<u64>>>,
    cl: Seq<Class>,
) -> bool {
    &&& forall|k: int|
        0 <= k < cl.len() ==> (#[trigger] cl[k]).3 == class_members(
            files,
            hashes,
            key_of(cl[k]),
            files.len() as int,
        ) && cl[k].3.len() >= 2
    &&& forall|a: int, b: int| 0 <= a < b < cl.len() ==> key_of(#[trigger] cl[a]) != key_of(#[trigger] cl[b])
    &&& forall|j: int| 0 <= j < files.len() ==> #[trigger] class_listed(files, hashes, cl, j)
    &&& forall|a: int, b: int|
        0 <= a < b < cl.len() ==> wasted((#[trigger] cl[a]).0 as nat, cl[a].3.len()) >= wasted(
            (#[trigger] cl[b]).0 as nat,
            cl[b].3.len(),
        )
}

/// `g` reports class `c`.
pub open spec fn reports(files: Seq<FileEntry>, verified: bool, c: Class, g: DuplicateGroup) -> bool {
    &&& g.size == c.0
    &&& g.name@ == c.1
    &&& g.key@ == decimal(c.0 as nat) + seq![':'] + c.1
    &&& g.paths@ == c.3.map_values(|j: usize| files[j as int].path)
    &&& g.verified_by_hash == verified
}

/// Working state: every class met among the first `n` files, in the order met.
spec fn all_classes_upto(
    files: Seq<FileEntry>,
    hashes: Option<Seq<Option<u64>>>,
    cl: Seq<Class>,
    n: int,
) -> bool {
    &&& forall|k: int|
        0 <= k < cl.len() ==> (#[trigger] cl[k]).3 == class_members(files, hashes, key_of(cl[k]), n)
            && cl[k].3.len() >= 1
    &&& forall|a: int, b: int| 0 <= a < b < cl.len() ==> key_of(#[trigger] cl[a]) != key_of(#[trigger] cl[b])
    &&& forall|j: int|
        0 <= j < n ==> (#[trigger] file_key(files, hashes, j) matches Some(k) ==> exists|c: int|
            0 <= c < cl.len() && key_of(#[trigger] cl[c]) == k)
}

proof fn lemma_members_step(
    files: Seq<FileEntry>,
    hashes: Option<Seq<Option<u64>>>,
    k: ClassKey,
    n: int,
)
    requires
        0 <= n,
        file_key(files, hashes, n) != Some(k),
    ensures
        class_members(files, hashes, k, n + 1) == class_members(files, hashes, k, n),
{
}

proof fn lemma_members_empty(files: Seq<FileEntry>, hashes: Option<Seq<Option<u64>>>, k: ClassKey, n: int)
    requires
        0 <= n,
        forall|j: int| 0 <= j < n ==> file_key(files, hashes, j) != Some(k),
    ensures
        class_members(files, hashes, k, n).len() == 0,
    decreases n,
{
    if n > 0 {
        lemma_members_empty(files, hashes, k, n - 1);
    }
}

/// Exec form of a class.
struct ClassRow {
    size: u64,
    name: String,
    hash: Option<u64>,
    members: Vec<usize>,
}

spec fn row_view(r: ClassRow) -> Class {
    (r.size, r.name@, r.hash, r.members@)
}

spec fn rows_view(rs: Seq<ClassRow>) -> Seq<Class> {
    rs.map_values(|r: ClassRow| row_view(r))
}

pub open spec fn hashes_view(h: Option<&Vec<Option<u64>>>) -> Option<Seq<Option<u64>>> {
    match h {
        None => None,
        Some(v) => Some(v@),
    }
}

fn same_hash(a: Option<u64>, b: Option<u64>) -> (r: bool)
    ensures
        r == (a == b),
{
    match (a, b) {
        (None, None) => true,
        (Some(x), Some(y)) => x == y,
        _ => false,
    }
}

fn copy_row(r: &ClassRow) -> (c: ClassRow)
    ensures
        row_view(c) == row_view(*r),
{
    ClassRow { size: r.size, name: r.name.clone(), hash: r.hash, members: r.members.clone() }
}

/// Adds file `j` to the classes of the files before it.
#[verifier::rlimit(60)]
fn add_to_classes(
    rows: &mut Vec<ClassRow>,
    files: &[FileEntry],
    hashes: Option<&Vec<Option<u64>>>,
    j: usize,
)
    requires
        j < files@.len(),
        hashes matches Some(h) ==> h@.len() == files@.len(),
        all_classes_upto(files@, hashes_view(hashes), rows_view(old(rows)@), j as int),
    ensures
        all_classes_upto(files@, hashes_view(hashes), rows_view(final(rows)@), j + 1),
{
    let ghost hv = hashes_view(hashes);
    let ghost fs = files@;
    let ghost old_v = rows_view(rows@);
    let f = &files[j];
    let ghost jk = file_key(fs, hv, j as int);
    if f.size == 0 {
        proof {
            assert forall|k: int| 0 <= k < old_v.len() implies (#[trigger] old_v[k]).3 == class_members(fs, hv, key_of(old_v[k]), j + 1) by {
                lemma_members_step(fs, hv, key_of(old_v[k]), j as int);
            }
        }
        return;
    }
    let name = match file_name_of(f.path.as_str()) {
        None => {
            proof {
                assert forall|k: int| 0 <= k < old_v.len() implies (#[trigger] old_v[k]).3 == class_members(fs, hv, key_of(old_v[k]), j + 1) by {
                    lemma_members_step(fs, hv, key_of(old_v[k]), j as int);
                }
            }
            return;
        },
        Some(n) => n,
    };
    let hash: Option<u64> = match hashes {
        None => None,
        Some(h) => match h[j] {
            None => {
                proof {
                    assert forall|k: int| 0 <= k < old_v.len() implies (#[trigger] old_v[k]).3 == class_members(fs, hv, key_of(old_v[k]), j + 1) by {
                        lemma_members_step(fs, hv, key_of(old_v[k]), j as int);
                    }
                }
                return;
            },
            Some(x) => Some(x),
        },
    };
    let ghost key: ClassKey = (f.size, name@, hash);
    assert(jk == Some(key));
    let mut c: usize = 0;
    while c < rows.len() && !(rows[c].size == f.size && same_hash(rows[c].hash, hash) && str_eq(rows[c].name.as_str(), name.as_str()))
        invariant
            c <= rows@.len(),
            rows_view(rows@) == old_v,
            key == (f.size, name@, hash),
            forall|a: int| 0 <= a < c ==> key_of(#[trigger] old_v[a]) != key,
        decreases rows@.len() - c,
    {
        c += 1;
    }
    if c < rows.len() {
        assert(key_of(old_v[c as int]) == key);
        let mut row = rows.remove(c);
        row.members.push(j);
        rows.insert(c, row);
        proof {
            let nv = rows_view(rows@);
            assert forall|a: int| 0 <= a < nv.len() implies nv[a] == (if a == c { (old_v[a].0, old_v[a].1, old_v[a].2, old_v[a].3.push(j)) } else { old_v[a] }) by {}
            assert forall|k: int| 0 <= k < nv.len() implies (#[trigger] nv[k]).3 == class_members(fs, hv, key_of(nv[k]), j + 1) && nv[k].3.len() >= 1 by {
                if k != c {
                    assert(key_of(old_v[k]) != key);
                    lemma_members_step(fs, hv, key_of(old_v[k]), j as int);
                }
            }
            assert forall|a: int, b: int| 0 <= a < b < nv.len() implies key_of(#[trigger] nv[a]) != key_of(#[trigger] nv[b]) by {
                assert(key_of(nv[a]) == key_of(old_v[a]));
                assert(key_of(nv[b]) == key_of(old_v[b]));
            }
            assert forall|x: int| 0 <= x < j + 1 implies (#[trigger] file_key(fs, hv, x) matches Some(k) ==> exists|d: int| 0 <= d < nv.len() && key_of(#[trigger] nv[d]) == k) by {
                if x < j {
                    if let Some(k) = file_key(fs, hv, x) {
                        let d = choose|d: int| 0 <= d < old_v.len() && key_of(#[trigger] old_v[d]) == k;
                        assert(key_of(nv[d]) == key_of(old_v[d]));
                    }
                } else {
                    assert(key_of(nv[c as int]) == key);
                }
            }
        }
    } else {
        let mut members: Vec<usize> = Vec::new();
        members.push(j);
        rows.push(ClassRow { size: f.size, name, hash, members });
        proof {
            let nv = rows_view(rows@);
            assert(nv.drop_last() =~= old_v);
            assert forall|x: int| 0 <= x < j implies file_key(fs, hv, x) != Some(key) by {
                if file_key(fs, hv, x) == Some(key) {
                    let d = choose|d: int| 0 <= d < old_v.len() && key_of(#[trigger] old_v[d]) == key;
                }
            }
            lemma_members_empty(fs, hv, key, j as int);
            assert(nv.last().3 =~= class_members(fs, hv, key, j + 1));
            assert forall|k: int| 0 <= k < nv.len() implies (#[trigger] nv[k]).3 == class_members(fs, hv, key_of(nv[k]), j + 1) && nv[k].3.len() >= 1 by {
                if k < old_v.len() {
                    assert(nv[k] == old_v[k]);
                    assert(key_of(old_v[k]) != key);
                    lemma_members_step(fs, hv, key_of(old_v[k]), j as int);
                }
            }
            assert forall|a: int, b: int| 0 <= a < b < nv.len() implies key_of(#[trigger] nv[a]) != key_of(#[trigger] nv[b]) by {
                assert(nv[a] == old_v[a]);
                if b < old_v.len() {
                    assert(nv[b] == old_v[b]);
                }
            }
            assert forall|x: int| 0 <= x < j + 1 implies (#[trigger] file_key(fs, hv, x) matches Some(k) ==> exists|d: int| 0 <= d < nv.len() && key_of(#[trigger] nv[d]) == k) by {
                if x < j {
                    if let Some(k) = file_key(fs, hv, x) {
                        let d = choose|d: int| 0 <= d < old_v.len() && key_of(#[trigger] old_v[d]) == k;
                        assert(nv[d] == old_v[d]);
                    }
                } else {
                    assert(key_of(nv[old_v.len() as int]) == key);
                }
            }
        }
    }
}

/// Every class of the files, with its members, in the order first met.
fn collect_classes(files: &[FileEntry], hashes: Option<&Vec<Option<u64>>>) -> (r: Vec<ClassRow>)
    requires
        hashes matches Some(h) ==> h@.len() == files@.len(),
    ensures
        all_classes_upto(files@, hashes_view(hashes), rows_view(r@), files@.len() as int),
{
    let mut rows: Vec<ClassRow> = Vec::new();
    let mut j: usize = 0;
    while j < files.len()
        invariant
            j <= files@.len(),
            hashes matches Some(h) ==> h@.len() == files@.len(),
            all_classes_upto(files@, hashes_view(hashes), rows_view(rows@), j as int),
        decreases files@.len() - j,
    {
        add_to_classes(&mut rows, files, hashes, j);
        j += 1;
    }
    rows
}

spec fn wasted_of(c: Class) -> nat {
    wasted(c.0 as nat, c.3.len())
}

spec fn by_wasted_desc(x: Seq<Class>) -> bool {
    forall|a: int, b: int| 0 <= a < b < x.len() ==> wasted_of(#[trigger] x[a]) >= wasted_of(#[trigger] x[b])
}

fn row_wasted(r: &ClassRow) -> (w: u64)
    ensures
        w == wasted_of(row_view(*r)),
{
    wasted_u64(r.size, r.members.len())
}

/// Inserts `row` after every class that wastes at least as much.
#[verifier::rlimit(40)]
fn insert_by_wasted(out: &mut Vec<ClassRow>, row: ClassRow)
    requires
        by_wasted_desc(rows_view(old(out)@)),
    ensures
        by_wasted_desc(rows_view(final(out)@)),
        exists|p: int|
            0 <= p <= old(out)@.len() && rows_view(final(out)@) == rows_view(old(out)@).take(p).push(row_view(row)) + rows_view(old(out)@).skip(p),
{
    let w = row_wasted(&row);
    let mut p: usize = 0;
    while p < out.len() && row_wasted(&out[p]) >= w
        invariant
            p <= out@.len(),
            w == wasted_of(row_view(row)),
            forall|a: int| 0 <= a < p ==> wasted_of(row_view(#[trigger] out@[a])) >= w,
        decreases out@.len() - p,
    {
        p += 1;
    }
    let ghost ov = rows_view(out@);
    let ghost rv = row_view(row);
    out.insert(p, row);
    proof {
        let nv = rows_view(out@);
        assert(nv =~= ov.take(p as int).push(rv) + ov.skip(p as int));
        assert forall|a: int, b: int| 0 <= a < b < nv.len() implies wasted_of(#[trigger] nv[a]) >= wasted_of(#[trigger] nv[b]) by {
            if a < p {
                assert(nv[a] == ov[a]);
                assert(wasted_of(row_view(old(out)@[a])) >= w);
            }
            if a == p && b > p + 1 {
                assert(nv[b] == ov[b - 1]);
                assert(wasted_of(ov[p as int]) >= wasted_of(ov[b - 1]));
            }
            if a > p {
                assert(nv[a] == ov[a - 1]);
                assert(nv[b] == ov[b - 1]);
            }
            if a < p && b > p {
                assert(nv[b] == ov[b - 1]);
                if b - 1 > p {
                    assert(wasted_of(ov[p as int]) >= wasted_of(ov[b - 1]));
                }
            }
        }
    }
}

/// The classes of `rows` with two or more members, most wasted bytes first.
#[verifier::rlimit(40)]
fn repeated_by_wasted(rows: &Vec<ClassRow>) -> (r: Vec<ClassRow>)
    requires
        forall|a: int, b: int| 0 <= a < b < rows@.len() ==> key_of(#[trigger] rows_view(rows@)[a]) != key_of(#[trigger] rows_view(rows@)[b]),
    ensures
        by_wasted_desc(rows_view(r@)),
        forall|a: int| 0 <= a < r@.len() ==> rows_view(rows@).contains(#[trigger] rows_view(r@)[a]) && rows_view(r@)[a].3.len() >= 2,
        forall|c: int| 0 <= c < rows@.len() && (#[trigger] rows_view(rows@)[c]).3.len() >= 2 ==> rows_view(r@).contains(rows_view(rows@)[c]),
        forall|a: int, b: int| 0 <= a < b < r@.len() ==> key_of(#[trigger] rows_view(r@)[a]) != key_of(#[trigger] rows_view(r@)[b]),
{
    let ghost all = rows_view(rows@);
    let mut sorted: Vec<ClassRow> = Vec::new();
    let mut k: usize = 0;
    while k < rows.len()
        invariant
            k <= rows@.len(),
            all == rows_view(rows@),
            forall|a: int, b: int| 0 <= a < b < all.len() ==> key_of(#[trigger] all[a]) != key_of(#[trigger] all[b]),
            by_wasted_desc(rows_view(sorted@)),
            forall|a: int| 0 <= a < sorted@.len() ==> all.take(k as int).contains(#[trigger] rows_view(sorted@)[a]) && rows_view(sorted@)[a].3.len() >= 2,
            forall|c: int| 0 <= c < k && (#[trigger] all[c]).3.len() >= 2 ==> rows_view(sorted@).contains(all[c]),
            forall|a: int, b: int| 0 <= a < b < sorted@.len() ==> key_of(#[trigger] rows_view(sorted@)[a]) != key_of(#[trigger] rows_view(sorted@)[b]),
        decreases rows@.len() - k,
    {
        let row = copy_row(&rows[k]);
        assert(row_view(row) == all[k as int]);
        if row.members.len() >= 2 {
            let ghost before = rows_view(sorted@);
            let ghost rv = row_view(row);
            insert_by_wasted(&mut sorted, row);
            proof {
                let nv = rows_view(sorted@);
                let p = choose|p: int| 0 <= p <= before.len() && nv == before.take(p).push(rv) + before.skip(p);
                assert forall|a: int| 0 <= a < nv.len() implies all.take(k + 1).contains(#[trigger] nv[a]) && nv[a].3.len() >= 2 by {
                    let src = if a < p { a } else { a - 1 };
                    if a == p {
                        assert(all.take(k + 1)[k as int] == nv[a]);
                    } else {
                        assert(nv[a] == before[src]);
                        assert(all.take(k as int).contains(before[src]));
                        let c = choose|c: int| 0 <= c < k && all.take(k as int)[c] == before[src];
                        assert(all.take(k + 1)[c] == nv[a]);
                    }
                }
                assert forall|c: int| 0 <= c < k + 1 && (#[trigger] all[c]).3.len() >= 2 implies nv.contains(all[c]) by {
                    if c == k {
                        assert(nv[p] == all[c]);
                    } else {
                        assert(before.contains(all[c]));
                        let a = choose|a: int| 0 <= a < before.len() && before[a] == all[c];
                        if a < p {
                            assert(nv[a] == all[c]);
                        } else {
                            assert(nv[a + 1] == all[c]);
                        }
                    }
                }
                assert forall|a: int| 0 <= a < before.len() implies key_of(#[trigger] before[a]) != key_of(rv) by {
                    assert(all.take(k as int).contains(before[a]));
                    let c = choose|c: int| 0 <= c < k && all.take(k as int)[c] == before[a];
                    assert(all[c] == before[a]);
                }
                assert forall|a: int, b: int| 0 <= a < b < nv.len() implies key_of(#[trigger] nv[a]) != key_of(#[trigger] nv[b]) by {
                    if a < p && b < p {
                        assert(nv[a] == before[a] && nv[b] == before[b]);
                    } else if a < p && b == p {
                        assert(nv[a] == before[a]);
                    } else if a < p && b > p {
                        assert(nv[a] == before[a] && nv[b] == before[b - 1]);
                    } else if a == p {
                        assert(nv[b] == before[b - 1]);
                    } else {
                        assert(nv[a] == before[a - 1] && nv[b] == before[b - 1]);
                    }
                }
            }
        } else {
            proof {
                let sv = rows_view(sorted@);
                assert forall|a: int| 0 <= a < sv.len() implies all.take(k + 1).contains(#[trigger] sv[a]) && sv[a].3.len() >= 2 by {
                    assert(all.take(k as int).contains(sv[a]));
                    let c = choose|c: int| 0 <= c < k && all.take(k as int)[c] == sv[a];
                    assert(all.take(k + 1)[c] == sv[a]);
                }
            }
        }
        k += 1;
    }
    proof {
        assert(all.take(all.len() as int) =~= all);
    }
    sorted
}

/// The paths of the files at `members`.
fn paths_of(files: &[FileEntry], members: &Vec<usize>) -> (r: Vec<String>)
    requires
        forall|x: int| 0 <= x < members@.len() ==> #[trigger] members@[x] < files@.len(),
    ensures
        r@ == members@.map_values(|j: usize| files@[j as int].path),
{
    let mut paths: Vec<String> = Vec::new();
    let mut t: usize = 0;
    while t < members.len()
        invariant
            t <= members@.len(),
            forall|x: int| 0 <= x < members@.len() ==> #[trigger] members@[x] < files@.len(),
            paths@ == members@.take(t as int).map_values(|j: usize| files@[j as int].path),
        decreases members@.len() - t,
    {
        paths.push(files[members[t]].path.clone());
        assert(members@.take(t + 1).map_values(|j: usize| files@[j as int].path) =~= members@.take(t as int).map_values(|j: usize| files@[j as int].path).push(files@[members@[t as int] as int].path));
        t += 1;
    }
    assert(members@.take(members@.len() as int) =~= members@);
    paths
}

/// Groups `files` by (size, file name) and, when `hashes` is given (the content
/// hash of each file, `None` where it could not be read), further by hash; reports
/// every group of two or more files, most wasted bytes first (equal amounts in no
/// promised order). Empty files and unhashed files are left out.
pub fn find(files: &[FileEntry], hashes: Option<&Vec<Option<u64>>>) -> (r: Vec<DuplicateGroup>)
    requires
        hashes matches Some(h) ==> h@.len() == files@.len(),
    ensures
        exists|cl: Seq<Class>|
            is_class_list(files@, hashes_view(hashes), cl) && r@.len() == cl.len() && forall|k: int|
                0 <= k < cl.len() ==> reports(files@, hashes is Some, cl[k], #[trigger] r@[k]),
{
    let ghost hv = hashes_view(hashes);
    let ghost n = files@.len() as int;
    let rows = collect_classes(files, hashes);
    let ghost all = rows_view(rows@);
    let sorted = repeated_by_wasted(&rows);
    let ghost cl = rows_view(sorted@);
    let nlen = files.len();
    proof {
        assert forall|c: int| 0 <= c < cl.len() implies (#[trigger] cl[c]).3 == class_members(files@, hv, key_of(cl[c]), n) && cl[c].3.len() >= 2 by {
            assert(all.contains(cl[c]));
            let x = choose|x: int| 0 <= x < all.len() && all[x] == cl[c];
        }
        assert forall|j: int| 0 <= j < n implies #[trigger] class_listed(files@, hv, cl, j) by {
            if let Some(kk) = file_key(files@, hv, j) {
                let x = choose|x: int| 0 <= x < all.len() && key_of(#[trigger] all[x]) == kk;
                if class_members(files@, hv, kk, n).len() >= 2 {
                    assert(all[x].3.len() >= 2);
                    assert(cl.contains(all[x]));
                    let a = choose|a: int| 0 <= a < cl.len() && cl[a] == all[x];
                    assert(key_of(cl[a]) == kk);
                }
            }
        }
        assert(is_class_list(files@, hv, cl));
    }
    let mut out: Vec<DuplicateGroup> = Vec::new();
    let mut i: usize = 0;
    while i < sorted.len()
        invariant
            i <= sorted@.len(),
            n == files@.len(),
            files@.len() <= usize::MAX,
            cl == rows_view(sorted@),
            forall|c: int| 0 <= c < cl.len() ==> (#[trigger] cl[c]).3 == class_members(files@, hv, key_of(cl[c]), n),
            out@.len() == i,
            forall|c: int| 0 <= c < i ==> reports(files@, hashes is Some, cl[c], #[trigger] out@[c]),
        decreases sorted@.len() - i,
    {
        let row = &sorted[i];
        assert(row.members@ == cl[i as int].3);
        proof {
            lemma_members_in_range(files@, hv, key_of(cl[i as int]), n);
        }
        let paths = paths_of(files, &row.members);
        let mut key = String::new();
        push_decimal(&mut key, row.size);
        push_char(&mut key, ':');
        append_str(&mut key, row.name.as_str());
        assert(key@ =~= decimal(row.size as nat) + seq![':'] + row.name@);
        out.push(DuplicateGroup {
            key,
            size: row.size,
            name: row.name.clone(),
            paths,
            verified_by_hash: hashes.is_some(),
        });
        i += 1;
    }
    out
}

proof fn lemma_members_in_range(files: Seq<FileEntry>, hashes: Option<Seq<Option<u64>>>, k: ClassKey, n: int)
    requires
        0 <= n <= files.len(),
        files.len() <= usize::MAX,
    ensures
        forall|x: int| 0 <= x < class_members(files, hashes, k, n).len() ==> #[trigger] class_members(files, hashes, k, n)[x] < n,
    decreases n,
{
    if n > 0 {
        lemma_members_in_range(files, hashes, k, n - 1);
        let p = class_members(files, hashes, k, n - 1);
        let m = class_members(files, hashes, k, n);
        assert forall|x: int| 0 <= x < m.len() implies #[trigger] m[x] < n by {
            if x < p.len() {
                assert(m[x] == p[x]);
            }
        }
    }
}

/// The members of class `k` among the first `n` files are exactly the files of that
/// class.
pub proof fn lemma_class_members_exact(files: Seq<FileEntry>, hashes: Option<Seq<Option<u64>>>, k: ClassKey, n: int)
    requires
        0 <= n <= files.len(),
        files.len() <= usize::MAX,
    ensures
        forall|j: int|
            0 <= j < n ==> (class_members(files, hashes, k, n).contains(j as usize) <==> #[trigger] file_key(
                files,
                hashes,
                j,
            ) == Some(k)),
        forall|x: int|
            0 <= x < class_members(files, hashes, k, n).len() ==> file_key(
                files,
                hashes,
                #[trigger] class_members(files, hashes, k, n)[x] as int,
            ) == Some(k),
    decreases n,
{
    if n > 0 {
        lemma_class_members_exact(files, hashes, k, n - 1);
        lemma_members_in_range(files, hashes, k, n - 1);
        let p = class_members(files, hashes, k, n - 1);
        let m = class_members(files, hashes, k, n);
        assert forall|j: int| 0 <= j < n implies (m.contains(j as usize) <==> #[trigger] file_key(files, hashes, j)
            == Some(k)) by {
            if j < n - 1 {
                if m.contains(j as usize) {
                    let x = choose|x: int| 0 <= x < m.len() && m[x] == j as usize;
                    if x < p.len() {
                        assert(m[x] == p[x]);
                    } else {
                        assert(m[x] == (n - 1) as usize);
                    }
                }
                if p.contains(j as usize) {
                    let x = choose|x: int| 0 <= x < p.len() && p[x] == j as usize;
                    assert(m[x] == p[x]);
                }
            } else {
                if file_key(files, hashes, j) == Some(k) {
                    assert(m[m.len() - 1] == j as usize);
                } else if m.contains(j as usize) {
                    let x = choose|x: int| 0 <= x < m.len() && m[x] == j as usize;
                    assert(m[x] == p[x]);
                    assert(p[x] < n - 1);
                }
            }
        }
        assert forall|x: int| 0 <= x < m.len() implies file_key(files, hashes, #[trigger] m[x] as int) == Some(k) by {
            if x < p.len() {
                assert(m[x] == p[x]);
            }
        }
    }
}

} // verus!
