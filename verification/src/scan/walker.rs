//! The scan walk: every file under the roots once, with its size and age, given
//! the trees a walk meets there. Threshold filtering is left to the report.
use vstd::prelude::*;
use crate::clean::walk::FsNode;
use crate::path::extension;
use crate::scan::ignore::IgnoreRules;
use crate::scan::plan::{builtin_skip_names, enters_dir, MAX_DEPTH};
use crate::scan::types::FileEntry;

verus! {

/// A found file as plain values: path, size, age in seconds.
pub open spec fn entry_view(e: FileEntry) -> (Seq<char>, u64, u64) {
    (e.path@, e.size, e.age_secs)
}

/// The found files as plain values.
pub open spec fn entries_view(v: Seq<FileEntry>) -> Seq<(Seq<char>, u64, u64)> {
    Seq::new(v.len(), |i: int| entry_view(v[i]))
}

/// The age at `now_secs` of an entry modified at `modified_secs`; nothing modified
/// in the future is older than zero.
pub open spec fn age_of(modified_secs: u64, now_secs: u64) -> u64 {
    if modified_secs <= now_secs {
        (now_secs - modified_secs) as u64
    } else {
        0
    }
}

/// Whether a directory named `name`, met while reading a directory at `depth`, is
/// entered: within the depth limit, not a built-in skip, not ignored.
pub open spec fn dir_entered(name: Seq<char>, depth: nat, ignore: IgnoreRules) -> bool {
    depth + 1 < MAX_DEPTH && !builtin_skip_names().contains(name) && !ignore.dirs().contains(name)
}

/// Whether a file named `name` is ignored by its extension.
pub open spec fn file_ignored(name: Seq<char>, ignore: IgnoreRules) -> bool {
    match extension(name) {
        Some(e) => e.len() > 0 && ignore.exts().contains(e),
        None => false,
    }
}

/// The files found among `nodes`, the entries of a directory read at `depth`, in
/// walk order: a file is found unless ignored, an entered directory gives what its
/// entries give.
pub open spec fn scanned(nodes: Seq<FsNode>, depth: nat, ignore: IgnoreRules, now_secs: u64) -> Seq<
    (Seq<char>, u64, u64),
>
    decreases nodes,
{
    if nodes.len() == 0 {
        seq![]
    } else {
        let n = nodes.last();
        let here = if n.is_dir {
            if dir_entered(n.name@, depth, ignore) {
                scanned(n.children@, depth + 1, ignore, now_secs)
            } else {
                seq![]
            }
        } else if file_ignored(n.name@, ignore) {
            seq![]
        } else {
            seq![(n.path@, n.size, age_of(n.modified_secs, now_secs))]
        };
        scanned(nodes.drop_last(), depth, ignore, now_secs) + here
    }
}

/// The files found under `roots`, root by root; a root that is not a directory
/// gives nothing.
pub open spec fn scanned_roots(roots: Seq<FsNode>, ignore: IgnoreRules, now_secs: u64) -> Seq<
    (Seq<char>, u64, u64),
>
    decreases roots.len(),
{
    if roots.len() == 0 {
        seq![]
    } else {
        scanned_roots(roots.drop_last(), ignore, now_secs) + if roots.last().is_dir {
            scanned(roots.last().children@, 0, ignore, now_secs)
        } else {
            seq![]
        }
    }
}

/// Two entry sequences, read at `depth`, that the scan cannot tell apart: entry by
/// entry the same path, name, kind, size and time, and the same entries wherever
/// the scan enters; what lies inside the directories it does not enter may differ.
pub open spec fn same_for_scan(a: Seq<FsNode>, b: Seq<FsNode>, depth: nat, ignore: IgnoreRules) -> bool
    decreases a,
{
    &&& a.len() == b.len()
    &&& a.len() > 0 ==> {
        let x = a.last();
        let y = b.last();
        &&& same_for_scan(a.drop_last(), b.drop_last(), depth, ignore)
        &&& x.path@ == y.path@
        &&& x.name@ == y.name@
        &&& x.is_dir == y.is_dir
        &&& x.size == y.size
        &&& x.modified_secs == y.modified_secs
        &&& (x.is_dir && dir_entered(x.name@, depth, ignore)) ==> same_for_scan(
            x.children@,
            y.children@,
            depth + 1,
            ignore,
        )
    }
}

/// Scans of entry sequences it cannot tell apart find the same files.
pub proof fn lemma_same_scanned(a: Seq<FsNode>, b: Seq<FsNode>, depth: nat, ignore: IgnoreRules, now_secs: u64)
    requires
        same_for_scan(a, b, depth, ignore),
    ensures
        scanned(a, depth, ignore, now_secs) == scanned(b, depth, ignore, now_secs),
    decreases a,
{
    if a.len() > 0 {
        let x = a.last();
        let y = b.last();
        lemma_same_scanned(a.drop_last(), b.drop_last(), depth, ignore, now_secs);
        if x.is_dir && dir_entered(x.name@, depth, ignore) {
            assert(decreases_to!(a => x.children@));
            lemma_same_scanned(x.children@, y.children@, depth + 1, ignore, now_secs);
        }
    }
}

fn age(modified_secs: u64, now_secs: u64) -> (r: u64)
    ensures
        r == age_of(modified_secs, now_secs),
{
    if modified_secs <= now_secs {
        now_secs - modified_secs
    } else {
        0
    }
}

/// Appends the files found among `nodes`, the entries of a directory read at
/// `depth`.
fn scan_into(nodes: &Vec<FsNode>, depth: usize, ignore: &IgnoreRules, now_secs: u64, out: &mut Vec<FileEntry>)
    requires
        depth < MAX_DEPTH,
    ensures
        entries_view(final(out)@) == entries_view(old(out)@) + scanned(nodes@, depth as nat, *ignore, now_secs),
    decreases nodes@,
{
    let ghost start = entries_view(out@);
    let mut i: usize = 0;
    while i < nodes.len()
        invariant
            i <= nodes@.len(),
            depth < MAX_DEPTH,
            entries_view(out@) == start + scanned(nodes@.take(i as int), depth as nat, *ignore, now_secs),
        decreases nodes@.len() - i,
    {
        let n = &nodes[i];
        let ghost before = entries_view(out@);
        proof {
            assert(nodes@.take(i as int + 1).drop_last() =~= nodes@.take(i as int));
            assert(nodes@.take(i as int + 1).last() == *n);
        }
        if n.is_dir {
            if enters_dir(n.name.as_str(), depth, ignore) {
                proof {
                    assert(decreases_to!(nodes@ => nodes@[i as int].children@));
                }
                scan_into(&n.children, depth + 1, ignore, now_secs, out);
            } else {
                assert(entries_view(out@) =~= before + Seq::<(Seq<char>, u64, u64)>::empty());
            }
        } else if ignore.skip_file(n.name.as_str()) {
            assert(entries_view(out@) =~= before + Seq::<(Seq<char>, u64, u64)>::empty());
        } else {
            let e = FileEntry { path: n.path.clone(), size: n.size, age_secs: age(n.modified_secs, now_secs) };
            out.push(e);
            assert(entries_view(out@) =~= before + seq![(n.path@, n.size, age_of(n.modified_secs, now_secs))]);
        }
        assert(entries_view(out@) =~= start + scanned(nodes@.take(i as int + 1), depth as nat, *ignore, now_secs));
        i += 1;
    }
    assert(nodes@.take(nodes@.len() as int) =~= nodes@);
}

/// Every file under `roots` once, with its size and its age at `now_secs`: ignored
/// files and the contents of skipped or too-deep directories are left out.
pub fn walk(roots: &Vec<FsNode>, ignore: &IgnoreRules, now_secs: u64) -> (r: Vec<FileEntry>)
    ensures
        entries_view(r@) == scanned_roots(roots@, *ignore, now_secs),
{
    let mut out: Vec<FileEntry> = Vec::new();
    let mut i: usize = 0;
    assert(entries_view(out@) =~= scanned_roots(roots@.take(0), *ignore, now_secs));
    while i < roots.len()
        invariant
            i <= roots@.len(),
            entries_view(out@) == scanned_roots(roots@.take(i as int), *ignore, now_secs),
        decreases roots@.len() - i,
    {
        let root = &roots[i];
        let ghost before = entries_view(out@);
        proof {
            assert(roots@.take(i as int + 1).drop_last() =~= roots@.take(i as int));
            assert(roots@.take(i as int + 1).last() == *root);
        }
        if root.is_dir {
            scan_into(&root.children, 0, ignore, now_secs, &mut out);
        } else {
            assert(entries_view(out@) =~= before + Seq::<(Seq<char>, u64, u64)>::empty());
        }
        i += 1;
    }
    assert(roots@.take(roots@.len() as int) =~= roots@);
    out
}

} // verus!
