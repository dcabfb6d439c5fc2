//! Ordering of the file lists shared by the text and JSON reports.
use vstd::prelude::*;
use crate::cli::ScanSort;
use crate::path::{components_of, compare_keys, key_order, lemma_key_order, path_components, PathKey};
use crate::scan::types::FileEntry;

verus! {

/// Whether file `a` comes before file `b` (both positions in `files`): by size or
/// age descending, or by path ascending; equal keys keep their relative order.
pub open spec fn entry_before(files: Seq<FileEntry>, by: ScanSort, a: int, b: int) -> bool {
    match by {
        ScanSort::Size => files[a].size > files[b].size || (files[a].size == files[b].size && a < b),
        ScanSort::Age => files[a].age_secs > files[b].age_secs || (files[a].age_secs
            == files[b].age_secs && a < b),
        ScanSort::Path => {
            let o = key_order(path_components(files[a].path@), path_components(files[b].path@));
            o < 0 || (o == 0 && a < b)
        },
    }
}

/// `ord` lists every position of `files` once, in sorted order.
pub open spec fn is_sort_order(files: Seq<FileEntry>, by: ScanSort, ord: Seq<usize>) -> bool {
    &&& ord.len() == files.len()
    &&& forall|k: int| 0 <= k < ord.len() ==> #[trigger] ord[k] < files.len()
    &&& forall|k1: int, k2: int|
        0 <= k1 < k2 < ord.len() ==> entry_before(files, by, #[trigger] ord[k1] as int, #[trigger] ord[k2] as int)
}

proof fn lemma_before(files: Seq<FileEntry>, by: ScanSort, a: int, b: int, c: int)
    ensures
        a != b ==> (entry_before(files, by, a, b) <==> !entry_before(files, by, b, a)),
        !entry_before(files, by, a, a),
        entry_before(files, by, a, b) && entry_before(files, by, b, c) ==> entry_before(files, by, a, c),
{
    lemma_key_order(path_components(files[a].path@), path_components(files[b].path@), path_components(files[c].path@));
    lemma_key_order(path_components(files[b].path@), path_components(files[a].path@), path_components(files[c].path@));
    lemma_key_order(path_components(files[a].path@), path_components(files[c].path@), path_components(files[b].path@));
    lemma_key_order(path_components(files[a].path@), path_components(files[a].path@), path_components(files[a].path@));
    lemma_key_order(path_components(files[b].path@), path_components(files[c].path@), path_components(files[a].path@));
}

fn before(files: &Vec<FileEntry>, keys: &Vec<PathKey>, by: ScanSort, a: usize, b: usize) -> (r: bool)
    requires
        a < files@.len(),
        b < files@.len(),
        keys@.len() == files@.len(),
        forall|k: int| 0 <= k < keys@.len() ==> (#[trigger] keys@[k]).wf() && keys@[k].key() == path_components(files@[k].path@),
    ensures
        r == entry_before(files@, by, a as int, b as int),
{
    match by {
        ScanSort::Size => files[a].size > files[b].size || (files[a].size == files[b].size && a < b),
        ScanSort::Age => files[a].age_secs > files[b].age_secs || (files[a].age_secs == files[b].age_secs && a < b),
        ScanSort::Path => {
            let o = compare_keys(&keys[a], &keys[b]);
            o < 0 || (o == 0 && a < b)
        },
    }
}

/// The sort order of `files`: positions ordered by `entry_before`.
pub fn sort_order(files: &Vec<FileEntry>, by: ScanSort) -> (ord: Vec<usize>)
    ensures
        is_sort_order(files@, by, ord@),
{
    let mut keys: Vec<PathKey> = Vec::new();
    let mut i: usize = 0;
    while i < files.len()
        invariant
            i <= files@.len(),
            keys@.len() == i,
            forall|k: int| 0 <= k < i ==> (#[trigger] keys@[k]).wf() && keys@[k].key() == path_components(files@[k].path@),
        decreases files@.len() - i,
    {
        keys.push(components_of(files[i].path.as_str()));
        i += 1;
    }
    let mut ord: Vec<usize> = Vec::new();
    let mut i: usize = 0;
    while i < files.len()
        invariant
            i <= files@.len(),
            keys@.len() == files@.len(),
            forall|k: int| 0 <= k < keys@.len() ==> (#[trigger] keys@[k]).wf() && keys@[k].key() == path_components(files@[k].path@),
            ord@.len() == i,
            forall|k: int| 0 <= k < ord@.len() ==> #[trigger] ord@[k] < i,
            forall|k1: int, k2: int|
                0 <= k1 < k2 < ord@.len() ==> entry_before(files@, by, #[trigger] ord@[k1] as int, #[trigger] ord@[k2] as int),
        decreases files@.len() - i,
    {
        let mut p: usize = 0;
        while p < ord.len() && !before(files, &keys, by, i, ord[p])
            invariant
                p <= ord@.len(),
                i < files@.len(),
                keys@.len() == files@.len(),
                forall|k: int| 0 <= k < keys@.len() ==> (#[trigger] keys@[k]).wf() && keys@[k].key() == path_components(files@[k].path@),
                forall|k: int| 0 <= k < ord@.len() ==> #[trigger] ord@[k] < i,
                forall|k: int| 0 <= k < p ==> !entry_before(files@, by, i as int, #[trigger] ord@[k] as int),
            decreases ord@.len() - p,
        {
            p += 1;
        }
        let ghost old_ord = ord@;
        ord.insert(p, i);
        proof {
            assert forall|k: int| 0 <= k < ord@.len() && k != p implies ord@[k] == (if k < p { old_ord[k] } else { old_ord[k - 1] }) by {}
            assert forall|k1: int, k2: int|
                0 <= k1 < k2 < ord@.len() implies entry_before(files@, by, #[trigger] ord@[k1] as int, #[trigger] ord@[k2] as int) by {
                if k1 == p {
                    lemma_before(files@, by, i as int, old_ord[p as int] as int, old_ord[k2 - 1] as int);
                    if k2 - 1 > p {
                        assert(entry_before(files@, by, old_ord[p as int] as int, old_ord[k2 - 1] as int));
                    }
                } else if k2 == p {
                    lemma_before(files@, by, old_ord[k1] as int, i as int, i as int);
                } else if k1 < p && k2 > p {
                    lemma_before(files@, by, old_ord[k1] as int, i as int, old_ord[k2 - 1] as int);
                    lemma_before(files@, by, i as int, old_ord[p as int] as int, old_ord[k2 - 1] as int);
                    if k2 - 1 > p {
                        assert(entry_before(files@, by, old_ord[p as int] as int, old_ord[k2 - 1] as int));
                    }
                }
            }
        }
        i += 1;
    }
    ord
}

/// Sorts `files` by size or age (largest or oldest first) or by path (ascending);
/// files with equal keys keep their order.
pub fn sort_files(files: &mut Vec<FileEntry>, by: ScanSort)
    ensures
        exists|ord: Seq<usize>|
            is_sort_order(old(files)@, by, ord) && final(files)@ == ord.map_values(|i: usize| old(files)@[i as int]),
{
    let ord = sort_order(files, by);
    let mut out: Vec<FileEntry> = Vec::new();
    let mut k: usize = 0;
    while k < ord.len()
        invariant
            k <= ord@.len(),
            is_sort_order(files@, by, ord@),
            out@ == ord@.take(k as int).map_values(|i: usize| files@[i as int]),
        decreases ord@.len() - k,
    {
        out.push(files[ord[k]].duplicate());
        assert(ord@.take(k + 1).map_values(|i: usize| files@[i as int]) =~= ord@.take(k as int).map_values(|i: usize| files@[i as int]).push(files@[ord@[k as int] as int]));
        k += 1;
    }
    assert(ord@.take(ord@.len() as int) =~= ord@);
    let ghost before_files = files@;
    *files = out;
    assert(files@ == ord@.map_values(|i: usize| before_files[i as int]));
}

} // verus!
