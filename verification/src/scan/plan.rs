//! What a scan walks and keeps: the roots, the directories it skips, and which
//! files count as large or old.
use vstd::prelude::*;
use crate::scan::ignore::IgnoreRules;
use crate::scan::types::{FileEntry, ScanData};
use crate::text::{append_str, str_eq};

verus! {

broadcast use vstd::string::group_string_axioms;

/// The walk does not descend deeper than this many directory levels.
pub const MAX_DEPTH: usize = 12;

/// `p` appended to `base` (`Path::join`): an absolute `p` replaces `base`, else a
/// `/` separates them unless `base` is empty or already ends with one.
pub open spec fn join_text(base: Seq<char>, p: Seq<char>) -> Seq<char> {
    if p.len() > 0 && p[0] == '/' {
        p
    } else if base.len() == 0 || base.last() == '/' {
        base + p
    } else {
        base + seq!['/'] + p
    }
}

pub fn join_path(base: &str, p: &str) -> (r: String)
    ensures
        r@ == join_text(base@, p@),
{
    let pv = crate::text::chars_of(p);
    if pv.len() > 0 && pv[0] == '/' {
        return String::from_str(p);
    }
    let bv = crate::text::chars_of(base);
    let mut s = String::from_str(base);
    if bv.len() > 0 && bv[bv.len() - 1] != '/' {
        crate::text::push_char(&mut s, '/');
    }
    append_str(&mut s, p);
    assert(s@ =~= join_text(base@, p@));
    s
}

/// The folders scanned when no `--path` is given.
pub open spec fn default_folders() -> Seq<Seq<char>> {
    seq!["Downloads"@, "Desktop"@, "Documents"@]
}

/// The scan roots: each `--path` made absolute against `cwd` (kept as given when
/// the working directory is unknown); without `--path`, the default folders under
/// `home` (the caller keeps those that are directories).
pub open spec fn roots_text(custom: Seq<String>, home: Seq<char>, cwd: Option<Seq<char>>) -> Seq<Seq<char>> {
    if custom.len() > 0 {
        custom.map_values(|p: String| if p@.len() > 0 && p@[0] == '/' {
            p@
        } else {
            match cwd {
                Some(c) => join_text(c, p@),
                None => p@,
            }
        })
    } else {
        default_folders().map_values(|f: Seq<char>| join_text(home, f))
    }
}

pub fn resolve_roots(custom: &[String], home: &str, cwd: Option<&str>) -> (r: Vec<String>)
    ensures
        r@.map_values(|s: String| s@) == roots_text(custom@, home@, match cwd {
            Some(c) => Some(c@),
            None => None,
        }),
{
    let ghost cv = match cwd {
        Some(c) => Some(c@),
        None => None::<Seq<char>>,
    };
    let mut out: Vec<String> = Vec::new();
    if custom.len() > 0 {
        let mut i: usize = 0;
        while i < custom.len()
            invariant
                i <= custom@.len(),
                cv == (match cwd {
                    Some(c) => Some(c@),
                    None => None::<Seq<char>>,
                }),
                out@.map_values(|s: String| s@) == custom@.take(i as int).map_values(|p: String| if p@.len() > 0 && p@[0] == '/' {
                    p@
                } else {
                    match cv {
                        Some(c) => join_text(c, p@),
                        None => p@,
                    }
                }),
            decreases custom@.len() - i,
        {
            let p = custom[i].as_str();
            let pv = crate::text::chars_of(p);
            let resolved = if pv.len() > 0 && pv[0] == '/' {
                custom[i].clone()
            } else {
                match cwd {
                    Some(c) => join_path(c, p),
                    None => custom[i].clone(),
                }
            };
            let ghost before = out@;
            out.push(resolved);
            proof {
                let f = |p: String| if p@.len() > 0 && p@[0] == '/' {
                    p@
                } else {
                    match cv {
                        Some(c) => join_text(c, p@),
                        None => p@,
                    }
                };
                assert(custom@.take(i + 1).map_values(f) =~= custom@.take(i as int).map_values(f).push(f(custom@[i as int])));
                assert(out@.map_values(|s: String| s@) =~= before.map_values(|s: String| s@).push(resolved@));
            }
            i += 1;
        }
        assert(custom@.take(custom@.len() as int) =~= custom@);
    } else {
        out.push(join_path(home, "Downloads"));
        out.push(join_path(home, "Desktop"));
        out.push(join_path(home, "Documents"));
        assert(out@.map_values(|s: String| s@) =~= default_folders().map_values(|f: Seq<char>| join_text(home@, f)));
    }
    out
}

/// Directory names the walk never enters: version control, package and build
/// outputs, macOS metadata.
pub open spec fn builtin_skip_names() -> Seq<Seq<char>> {
    seq![
        ".git"@, ".svn"@, ".hg"@, "node_modules"@, "vendor"@, "target"@, "build"@, "dist"@,
        ".next"@, ".nuxt"@, ".turbo"@, ".cache"@, "__pycache__"@, ".venv"@, "venv"@, ".Trash"@,
        ".Spotlight-V100"@, ".fseventsd"@, ".DocumentRevisions-V100"@, ".TemporaryItems"@,
        ".DS_Store"@,
    ]
}

pub fn builtin_skip(name: &str) -> (r: bool)
    ensures
        r == builtin_skip_names().contains(name@),
{
    let names = vec![
        ".git", ".svn", ".hg", "node_modules", "vendor", "target", "build", "dist", ".next",
        ".nuxt", ".turbo", ".cache", "__pycache__", ".venv", "venv", ".Trash", ".Spotlight-V100",
        ".fseventsd", ".DocumentRevisions-V100", ".TemporaryItems", ".DS_Store",
    ];
    assert(names@.map_values(|s: &str| s@) =~= builtin_skip_names());
    let mut i: usize = 0;
    while i < names.len()
        invariant
            i <= names@.len(),
            names@.map_values(|s: &str| s@) == builtin_skip_names(),
            forall|k: int| 0 <= k < i ==> (#[trigger] names@[k])@ != name@,
        decreases names@.len() - i,
    {
        if str_eq(names[i], name) {
            assert(builtin_skip_names()[i as int] == name@);
            return true;
        }
        i += 1;
    }
    proof {
        if builtin_skip_names().contains(name@) {
            let k = choose|k: int| 0 <= k < builtin_skip_names().len() && builtin_skip_names()[k] == name@;
            assert(names@[k]@ == name@);
        }
    }
    false
}

/// Whether the walk enters a directory named `name` found at depth `depth`
/// (its parent being at `depth`): not past the depth limit, not a built-in
/// skip, not an ignored name.
pub fn enters_dir(name: &str, depth: usize, ignore: &IgnoreRules) -> (r: bool)
    ensures
        r == (depth + 1 < MAX_DEPTH && !builtin_skip_names().contains(name@) && !ignore.dirs().contains(name@)),
{
    depth < MAX_DEPTH - 1 && !builtin_skip(name) && !ignore.skip_dir(name)
}

/// `a * b`, saturating.
pub open spec fn sat_mul(a: nat, b: nat) -> nat {
    if a * b > u64::MAX {
        u64::MAX as nat
    } else {
        a * b
    }
}

fn saturating_mul(a: u64, b: u64) -> (r: u64)
    ensures
        r == sat_mul(a as nat, b as nat),
{
    match a.checked_mul(b) {
        Some(v) => v,
        None => u64::MAX,
    }
}

/// The entries of `files` that satisfy `keep`, in order.
pub open spec fn kept_entries(files: Seq<FileEntry>, keep: spec_fn(FileEntry) -> bool) -> Seq<FileEntry>
    decreases files.len(),
{
    if files.len() == 0 {
        Seq::<FileEntry>::empty()
    } else {
        let p = kept_entries(files.drop_last(), keep);
        if keep(files.last()) {
            p.push(files.last())
        } else {
            p
        }
    }
}

/// The report data: every file, and those at or above `min_size_mb` megabytes and
/// at or above `older_than_days` days (thresholds saturate).
pub fn build_scan_data(roots: Vec<String>, all_files: Vec<FileEntry>, min_size_mb: u64, older_than_days: u64) -> (r: ScanData)
    ensures
        r.roots == roots,
        r.all_files@ == all_files@,
        r.large@ == kept_entries(all_files@, |f: FileEntry| f.size >= sat_mul(min_size_mb as nat, 1048576)),
        r.old@ == kept_entries(all_files@, |f: FileEntry| f.age_secs >= sat_mul(older_than_days as nat, 86400)),
{
    let min_size_bytes = saturating_mul(min_size_mb, 1024 * 1024);
    let older_than_secs = saturating_mul(older_than_days, 86_400);
    let ghost kl = |f: FileEntry| f.size >= sat_mul(min_size_mb as nat, 1048576);
    let ghost ko = |f: FileEntry| f.age_secs >= sat_mul(older_than_days as nat, 86400);
    let mut large: Vec<FileEntry> = Vec::new();
    let mut old: Vec<FileEntry> = Vec::new();
    let mut i: usize = 0;
    assert(all_files@.take(0) =~= Seq::<FileEntry>::empty());
    while i < all_files.len()
        invariant
            i <= all_files@.len(),
            min_size_bytes == sat_mul(min_size_mb as nat, 1048576),
            older_than_secs == sat_mul(older_than_days as nat, 86400),
            kl == |f: FileEntry| f.size >= sat_mul(min_size_mb as nat, 1048576),
            ko == |f: FileEntry| f.age_secs >= sat_mul(older_than_days as nat, 86400),
            large@ == kept_entries(all_files@.take(i as int), kl),
            old@ == kept_entries(all_files@.take(i as int), ko),
        decreases all_files@.len() - i,
    {
        assert(all_files@.take(i + 1).drop_last() =~= all_files@.take(i as int));
        let f = &all_files[i];
        if f.size >= min_size_bytes {
            large.push(f.duplicate());
        }
        if f.age_secs >= older_than_secs {
            old.push(f.duplicate());
        }
        i += 1;
    }
    assert(all_files@.take(all_files@.len() as int) =~= all_files@);
    ScanData { roots, all_files, large, old }
}

} // verus!
