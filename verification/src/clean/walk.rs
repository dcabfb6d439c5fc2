//! The project walks of the dev-cache categories: which `__pycache__`, virtualenv,
//! `target` and `node_modules` directories under a search root are offered, given
//! the tree a symlink-safe walk meets there.
use vstd::prelude::*;
use crate::clean::rules::{idle_spec, is_idle, python_manifest_names};
use crate::text::{names, str_eq};
use crate::clean::runner::arg_texts;

verus! {

/// What a walk does with one entry.
#[derive(Debug, Clone, Copy, PartialEq, Eq, Structural)]
pub enum WalkStep {
    /// Report the entry and do not look inside it.
    Record,
    /// Look inside the entry.
    Descend,
    /// Neither report it nor look inside it.
    Prune,
}

/// `__pycache__` directories are reported wherever they are; other directories are
/// searched; files are passed over.
pub open spec fn pycache_step_spec(is_dir: bool, name: Seq<char>) -> WalkStep {
    if !is_dir {
        WalkStep::Prune
    } else if name == "__pycache__"@ {
        WalkStep::Record
    } else {
        WalkStep::Descend
    }
}

/// A project output directory is reported when its project manifest
/// exists and is idle (`manifest_idle` is `None` when there is no manifest), and is
/// never searched; other directories are searched; files are passed over.
pub open spec fn project_step_spec(
    is_dir: bool,
    is_output: bool,
    manifest_idle: Option<bool>,
) -> WalkStep {
    if !is_dir {
        WalkStep::Prune
    } else if is_output {
        if manifest_idle == Some(true) {
            WalkStep::Record
        } else {
            WalkStep::Prune
        }
    } else {
        WalkStep::Descend
    }
}

/// The names of Python virtualenv directories.
pub open spec fn is_venv_name(name: Seq<char>) -> bool {
    name == "venv"@ || name == ".venv"@ || name == "env"@
}

/// One entry met by a symlink-safe walk: a regular file (`is_dir` false) or a
/// directory. Symlinks, other special files and entries whose metadata cannot be
/// read are never part of a tree. A directory's `children` are its entries in the
/// order they were read; a directory that is not entered may come without them.
#[derive(Debug)]
pub struct FsNode {
    pub path: String,
    pub name: String,
    pub is_dir: bool,
    /// The length in bytes of a file.
    pub size: u64,
    /// Seconds since the epoch of the last modification.
    pub modified_secs: u64,
    pub children: Vec<FsNode>,
}

/// The project walks: what each of them looks for.
#[derive(Debug, Clone, Copy, PartialEq, Eq, Structural)]
pub enum Finder {
    /// `__pycache__` directories, anywhere.
    Pycache,
    /// Virtualenvs (`venv`, `.venv`, `env`) of idle Python projects.
    Venv,
    /// `target` directories of idle Cargo projects.
    Target,
    /// `node_modules` directories of idle npm projects.
    NodeModules,
}

/// The first plain file among `children` named `name`.
pub open spec fn child_file(children: Seq<FsNode>, name: Seq<char>) -> Option<FsNode>
    decreases children.len(),
{
    if children.len() == 0 {
        None
    } else {
        match child_file(children.drop_last(), name) {
            Some(f) => Some(f),
            None => if !children.last().is_dir && children.last().name@ == name {
                Some(children.last())
            } else {
                None
            },
        }
    }
}

/// The manifest among `children`: the file of the first of `names` present.
pub open spec fn manifest_in(children: Seq<FsNode>, names: Seq<Seq<char>>) -> Option<FsNode>
    decreases names.len(),
{
    if names.len() == 0 {
        None
    } else {
        match manifest_in(children, names.drop_last()) {
            Some(f) => Some(f),
            None => child_file(children, names.last()),
        }
    }
}

/// The manifest files of the projects that a walk looks at.
pub open spec fn manifest_names(f: Finder) -> Seq<Seq<char>> {
    match f {
        Finder::Pycache => seq![],
        Finder::Venv => seq!["pyproject.toml"@, "setup.py"@, "requirements.txt"@],
        Finder::Target => seq!["Cargo.toml"@],
        Finder::NodeModules => seq!["package.json"@],
    }
}

/// Whether the project manifest beside an entry is idle; `None` when the entry has
/// no parent in the tree or the parent holds no manifest.
pub open spec fn manifest_idle(
    parent: Option<FsNode>,
    f: Finder,
    idle_days: nat,
    now_secs: nat,
) -> Option<bool> {
    match parent {
        None => None,
        Some(p) => match manifest_in(p.children@, manifest_names(f)) {
            None => None,
            Some(m) => Some(idle_spec(m.modified_secs as nat, now_secs, idle_days)),
        },
    }
}

/// Whether a directory of this name is a project output that the walk `f` looks for.
pub open spec fn is_output_name(f: Finder, name: Seq<char>) -> bool {
    match f {
        Finder::Pycache => name == "__pycache__"@,
        Finder::Venv => is_venv_name(name),
        Finder::Target => name == "target"@,
        Finder::NodeModules => name == "node_modules"@,
    }
}

/// What the walk `f` does with `node`, whose parent in the tree is `parent`.
pub open spec fn step_of(
    f: Finder,
    node: FsNode,
    parent: Option<FsNode>,
    idle_days: nat,
    now_secs: nat,
) -> WalkStep {
    match f {
        Finder::Pycache => pycache_step_spec(node.is_dir, node.name@),
        _ => project_step_spec(
            node.is_dir,
            is_output_name(f, node.name@),
            manifest_idle(parent, f, idle_days, now_secs),
        ),
    }
}

/// The paths the walk `f` reports among `nodes` (siblings under `parent`), in walk
/// order: a recorded entry is reported and not entered, an entered directory
/// contributes what its children give.
pub open spec fn found_in(
    nodes: Seq<FsNode>,
    parent: Option<FsNode>,
    f: Finder,
    idle_days: nat,
    now_secs: nat,
) -> Seq<Seq<char>>
    decreases nodes,
{
    if nodes.len() == 0 {
        seq![]
    } else {
        let n = nodes.last();
        let here = match step_of(f, n, parent, idle_days, now_secs) {
            WalkStep::Record => seq![n.path@],
            WalkStep::Prune => seq![],
            WalkStep::Descend => found_in(n.children@, Some(n), f, idle_days, now_secs),
        };
        found_in(nodes.drop_last(), parent, f, idle_days, now_secs) + here
    }
}

/// A parent given by reference, as a value.
pub open spec fn parent_of(p: Option<&FsNode>) -> Option<FsNode> {
    match p {
        Some(n) => Some(*n),
        None => None,
    }
}

/// The child at an index found by a lookup.
pub open spec fn at(children: Seq<FsNode>, i: Option<usize>) -> Option<FsNode> {
    match i {
        Some(k) => Some(children[k as int]),
        None => None,
    }
}

/// The index of the first plain file among `children` named `name`.
fn first_file(children: &Vec<FsNode>, name: &str) -> (r: Option<usize>)
    ensures
        r matches Some(k) ==> k < children@.len(),
        at(children@, r) == child_file(children@, name@),
{
    let mut found: Option<usize> = None;
    let mut i: usize = 0;
    while i < children.len()
        invariant
            i <= children@.len(),
            found matches Some(k) ==> k < i,
            at(children@, found) == child_file(children@.take(i as int), name@),
        decreases children@.len() - i,
    {
        proof {
            assert(children@.take(i as int + 1).drop_last() =~= children@.take(i as int));
        }
        if found.is_none() && !children[i].is_dir && str_eq(children[i].name.as_str(), name) {
            found = Some(i);
        }
        i += 1;
    }
    proof {
        assert(children@.take(children@.len() as int) =~= children@);
    }
    found
}

/// The index of the manifest among `children`: the file of the first of `names`
/// present.
fn manifest_index(children: &Vec<FsNode>, names: &Vec<&str>) -> (r: Option<usize>)
    ensures
        r matches Some(k) ==> k < children@.len(),
        at(children@, r) == manifest_in(children@, arg_texts(names@)),
{
    let mut found: Option<usize> = None;
    let mut j: usize = 0;
    while j < names.len()
        invariant
            j <= names@.len(),
            found matches Some(k) ==> k < children@.len(),
            at(children@, found) == manifest_in(children@, arg_texts(names@).take(j as int)),
        decreases names@.len() - j,
    {
        proof {
            assert(arg_texts(names@).take(j as int + 1).drop_last() =~= arg_texts(names@).take(j as int));
        }
        if found.is_none() {
            found = first_file(children, names[j]);
        }
        j += 1;
    }
    proof {
        assert(arg_texts(names@).take(names@.len() as int) =~= arg_texts(names@));
    }
    found
}

/// The manifest files of the projects the walk `f` looks at.
fn manifest_names_of(f: Finder) -> (r: Vec<&'static str>)
    ensures
        arg_texts(r@) == manifest_names(f),
{
    let r = match f {
        Finder::Pycache => Vec::new(),
        Finder::Venv => python_manifest_names(),
        Finder::Target => vec!["Cargo.toml"],
        Finder::NodeModules => vec!["package.json"],
    };
    proof {
        assert(arg_texts(r@) =~= manifest_names(f));
    }
    r
}

/// Whether a directory named `name` is a project output that the walk `f` looks for.
fn output_name(f: Finder, name: &str) -> (r: bool)
    ensures
        r == is_output_name(f, name@),
{
    match f {
        Finder::Pycache => str_eq(name, "__pycache__"),
        Finder::Venv => str_eq(name, "venv") || str_eq(name, ".venv") || str_eq(name, "env"),
        Finder::Target => str_eq(name, "target"),
        Finder::NodeModules => str_eq(name, "node_modules"),
    }
}

/// Whether the walk `f` enters a directory named `name`; the directories it does not
/// enter are the ones whose contents a caller need not read.
pub fn walk_enters(f: Finder, name: &str) -> (r: bool)
    ensures
        r == !is_output_name(f, name@),
        forall|node: FsNode, parent: Option<FsNode>, idle_days: nat, now_secs: nat|
            node.is_dir && node.name@ == name@ ==> ((#[trigger] step_of(f, node, parent, idle_days, now_secs)
                is Descend) <==> r),
{
    !output_name(f, name)
}

/// What the walk `f` does with `node`; the manifest is looked up only for a project
/// output directory.
fn step(f: Finder, node: &FsNode, parent: Option<&FsNode>, idle_days: u64, now_secs: u64) -> (r: WalkStep)
    ensures
        r == step_of(f, *node, parent_of(parent), idle_days as nat, now_secs as nat),
{
    if !node.is_dir {
        return WalkStep::Prune;
    }
    if !output_name(f, node.name.as_str()) {
        return WalkStep::Descend;
    }
    if f == Finder::Pycache {
        return WalkStep::Record;
    }
    let idle: Option<bool> = match parent {
        None => None,
        Some(p) => {
            let names = manifest_names_of(f);
            match manifest_index(&p.children, &names) {
                None => None,
                Some(k) => Some(is_idle(p.children[k].modified_secs, now_secs, idle_days)),
            }
        },
    };
    match idle {
        Some(true) => WalkStep::Record,
        _ => WalkStep::Prune,
    }
}


/// What the walk reports at one node: its path when recorded, nothing when pruned,
/// and what its children give when entered.
proof fn lemma_found_single(n: FsNode, parent: Option<FsNode>, f: Finder, idle_days: nat, now_secs: nat)
    ensures
        found_in(seq![n], parent, f, idle_days, now_secs) == match step_of(f, n, parent, idle_days, now_secs) {
            WalkStep::Record => seq![n.path@],
            WalkStep::Prune => Seq::<Seq<char>>::empty(),
            WalkStep::Descend => found_in(n.children@, Some(n), f, idle_days, now_secs),
        },
{
    let s = seq![n];
    assert(s.drop_last() =~= Seq::<FsNode>::empty());
    assert(s.last() == n);
    assert(found_in(Seq::<FsNode>::empty(), parent, f, idle_days, now_secs) == Seq::<Seq<char>>::empty());
    let here = match step_of(f, n, parent, idle_days, now_secs) {
        WalkStep::Record => seq![n.path@],
        WalkStep::Prune => Seq::<Seq<char>>::empty(),
        WalkStep::Descend => found_in(n.children@, Some(n), f, idle_days, now_secs),
    };
    assert(Seq::<Seq<char>>::empty() + here =~= here);
}

/// A walk over siblings reports, after what the earlier ones give, what the last one
/// gives.
proof fn lemma_found_push(
    s: Seq<FsNode>,
    n: FsNode,
    parent: Option<FsNode>,
    f: Finder,
    idle_days: nat,
    now_secs: nat,
)
    ensures
        found_in(s.push(n), parent, f, idle_days, now_secs) == found_in(s, parent, f, idle_days, now_secs)
            + found_in(seq![n], parent, f, idle_days, now_secs),
{
    assert(s.push(n).drop_last() =~= s);
    assert(s.push(n).last() == n);
    lemma_found_single(n, parent, f, idle_days, now_secs);
}


/// Two sibling sequences that a walk `f` cannot tell apart: entry by entry the same
/// path, name, kind, size and time, and the same children wherever `f` enters;
/// what lies inside the directories it does not enter may differ.
pub open spec fn same_for_walk(a: Seq<FsNode>, b: Seq<FsNode>, f: Finder) -> bool
    decreases a,
{
    &&& a.len() == b.len()
    &&& a.len() > 0 ==> {
        let x = a.last();
        let y = b.last();
        &&& same_for_walk(a.drop_last(), b.drop_last(), f)
        &&& x.path@ == y.path@
        &&& x.name@ == y.name@
        &&& x.is_dir == y.is_dir
        &&& x.size == y.size
        &&& x.modified_secs == y.modified_secs
        &&& (x.is_dir && !is_output_name(f, x.name@)) ==> same_for_walk(x.children@, y.children@, f)
    }
}

/// Sequences the walk cannot tell apart hold the same plain file of each name, up to
/// its time.
proof fn lemma_same_child_file(a: Seq<FsNode>, b: Seq<FsNode>, f: Finder, name: Seq<char>)
    requires
        same_for_walk(a, b, f),
    ensures
        child_file(a, name) is Some <==> child_file(b, name) is Some,
        child_file(a, name) is Some ==> child_file(a, name)->0.modified_secs
            == child_file(b, name)->0.modified_secs,
    decreases a.len(),
{
    if a.len() > 0 {
        lemma_same_child_file(a.drop_last(), b.drop_last(), f, name);
    }
}

/// Sequences the walk cannot tell apart hold the same manifest, up to its time.
proof fn lemma_same_manifest(a: Seq<FsNode>, b: Seq<FsNode>, f: Finder, names: Seq<Seq<char>>)
    requires
        same_for_walk(a, b, f),
    ensures
        manifest_in(a, names) is Some <==> manifest_in(b, names) is Some,
        manifest_in(a, names) is Some ==> manifest_in(a, names)->0.modified_secs
            == manifest_in(b, names)->0.modified_secs,
    decreases names.len(),
{
    if names.len() > 0 {
        lemma_same_manifest(a, b, f, names.drop_last());
        lemma_same_child_file(a, b, f, names.last());
    }
}

/// Walks over sequences it cannot tell apart, under parents whose manifests agree,
/// report the same.
pub proof fn lemma_same_found(
    a: Seq<FsNode>,
    b: Seq<FsNode>,
    pa: Option<FsNode>,
    pb: Option<FsNode>,
    f: Finder,
    idle_days: nat,
    now_secs: nat,
)
    requires
        same_for_walk(a, b, f),
        manifest_idle(pa, f, idle_days, now_secs) == manifest_idle(pb, f, idle_days, now_secs),
    ensures
        found_in(a, pa, f, idle_days, now_secs) == found_in(b, pb, f, idle_days, now_secs),
    decreases a,
{
    if a.len() > 0 {
        let x = a.last();
        let y = b.last();
        lemma_same_found(a.drop_last(), b.drop_last(), pa, pb, f, idle_days, now_secs);
        assert(step_of(f, x, pa, idle_days, now_secs) == step_of(f, y, pb, idle_days, now_secs));
        if step_of(f, x, pa, idle_days, now_secs) is Descend {
            lemma_same_manifest(x.children@, y.children@, f, manifest_names(f));
            assert(manifest_idle(Some(x), f, idle_days, now_secs) == manifest_idle(Some(y), f, idle_days, now_secs));
            assert(decreases_to!(a => x.children@));
            lemma_same_found(x.children@, y.children@, Some(x), Some(y), f, idle_days, now_secs);
        }
    }
}

/// Whether `n` is one of `nodes` or lies anywhere below one of them.
pub open spec fn in_tree(nodes: Seq<FsNode>, n: FsNode) -> bool
    decreases nodes,
{
    if nodes.len() == 0 {
        false
    } else {
        ||| in_tree(nodes.drop_last(), n)
        ||| nodes.last() == n
        ||| in_tree(nodes.last().children@, n)
    }
}

/// Whether `p` is the path of a directory in the tree below `nodes` that is a
/// project output of `f`.
pub open spec fn offered_from(nodes: Seq<FsNode>, f: Finder, p: Seq<char>) -> bool {
    exists|n: FsNode| #[trigger] in_tree(nodes, n) && n.is_dir && is_output_name(f, n.name@) && n.path@ == p
}

/// Every path a walk reports among `nodes` is that of a directory in the tree below
/// them that is a project output of `f`.
pub proof fn lemma_found_are_outputs(
    nodes: Seq<FsNode>,
    parent: Option<FsNode>,
    f: Finder,
    idle_days: nat,
    now_secs: nat,
)
    ensures
        forall|k: int|
            0 <= k < found_in(nodes, parent, f, idle_days, now_secs).len() ==> offered_from(
                nodes,
                f,
                #[trigger] found_in(nodes, parent, f, idle_days, now_secs)[k],
            ),
    decreases nodes,
{
    if nodes.len() > 0 {
        let x = nodes.last();
        let rest = nodes.drop_last();
        let before = found_in(rest, parent, f, idle_days, now_secs);
        let all = found_in(nodes, parent, f, idle_days, now_secs);
        lemma_found_are_outputs(rest, parent, f, idle_days, now_secs);
        if step_of(f, x, parent, idle_days, now_secs) is Descend {
            assert(decreases_to!(nodes => x.children@));
            lemma_found_are_outputs(x.children@, Some(x), f, idle_days, now_secs);
        }
        assert forall|k: int| 0 <= k < all.len() implies offered_from(nodes, f, #[trigger] all[k]) by {
            if k < before.len() {
                assert(all[k] == before[k]);
                assert(offered_from(rest, f, before[k]));
                let n = choose|n: FsNode|
                    #[trigger] in_tree(rest, n) && n.is_dir && is_output_name(f, n.name@) && n.path@ == before[k];
                assert(in_tree(nodes, n));
            } else {
                match step_of(f, x, parent, idle_days, now_secs) {
                    WalkStep::Record => {
                        assert(all[k] == x.path@);
                        assert(in_tree(nodes, x));
                    },
                    WalkStep::Prune => {
                        assert(false);
                    },
                    WalkStep::Descend => {
                        let below = found_in(x.children@, Some(x), f, idle_days, now_secs);
                        assert(all[k] == below[k - before.len()]);
                        assert(offered_from(x.children@, f, below[k - before.len()]));
                        let n = choose|n: FsNode|
                            #[trigger] in_tree(x.children@, n) && n.is_dir && is_output_name(f, n.name@) && n.path@
                                == below[k - before.len()];
                        assert(in_tree(nodes, n));
                    },
                }
            }
        }
    } else {
        assert(found_in(nodes, parent, f, idle_days, now_secs).len() == 0);
    }
}

/// Appends to `found` what the walk `f` reports at `node`, whose parent is `parent`.
fn collect(
    node: &FsNode,
    parent: Option<&FsNode>,
    f: Finder,
    idle_days: u64,
    now_secs: u64,
    found: &mut Vec<String>,
)
    ensures
        names(final(found)@) == names(old(found)@) + found_in(
            seq![*node],
            parent_of(parent),
            f,
            idle_days as nat,
            now_secs as nat,
        ),
    decreases *node,
{
    let ghost start = names(found@);
    proof {
        lemma_found_single(*node, parent_of(parent), f, idle_days as nat, now_secs as nat);
    }
    match step(f, node, parent, idle_days, now_secs) {
        WalkStep::Record => {
            found.push(node.path.clone());
            assert(names(found@) =~= start + seq![node.path@]);
        },
        WalkStep::Prune => {
            assert(names(found@) =~= start + Seq::<Seq<char>>::empty());
        },
        WalkStep::Descend => {
            let mut i: usize = 0;
            while i < node.children.len()
                invariant
                    i <= node.children@.len(),
                    names(found@) == start + found_in(
                        node.children@.take(i as int),
                        Some(*node),
                        f,
                        idle_days as nat,
                        now_secs as nat,
                    ),
                decreases node.children@.len() - i,
            {
                proof {
                    assert(decreases_to!(*node => node.children@[i as int]));
                }
                collect(&node.children[i], Some(node), f, idle_days, now_secs, found);
                proof {
                    let c = node.children@[i as int];
                    assert(node.children@.take(i as int + 1) =~= node.children@.take(i as int).push(c));
                    lemma_found_push(
                        node.children@.take(i as int),
                        c,
                        Some(*node),
                        f,
                        idle_days as nat,
                        now_secs as nat,
                    );
                    assert(names(found@) =~= start + found_in(
                        node.children@.take(i as int + 1),
                        Some(*node),
                        f,
                        idle_days as nat,
                        now_secs as nat,
                    ));
                }
                i += 1;
            }
            proof {
                assert(node.children@.take(node.children@.len() as int) =~= node.children@);
            }
        },
    }
}

/// Walks `root` with `f`: the paths it reports, in walk order. The root is judged
/// like any other entry; its own parent is not part of the tree, so a root that is
/// itself a project output is never reported by the project walks.
fn walk_tree(root: &FsNode, f: Finder, idle_days: u64, now_secs: u64) -> (r: Vec<String>)
    ensures
        names(r@) == found_in(seq![*root], None, f, idle_days as nat, now_secs as nat),
{
    let mut found: Vec<String> = Vec::new();
    collect(root, None, f, idle_days, now_secs, &mut found);
    assert(names(found@) =~= names(Seq::<String>::empty()) + found_in(seq![*root], None, f, idle_days as nat, now_secs as nat));
    found
}

/// The `__pycache__` directories under `root`, in walk order; none is entered, and
/// no project manifest is needed.
pub fn find_pycache(root: &FsNode) -> (r: Vec<String>)
    ensures
        names(r@) == found_in(seq![*root], None, Finder::Pycache, 0, 0),
{
    walk_tree(root, Finder::Pycache, 0, 0)
}

/// The virtualenvs (`venv`, `.venv`, `env`) under `root` whose project holds a
/// Python manifest idle for more than `idle_days` days at `now_secs`; no virtualenv
/// is entered.
pub fn find_orphan_venv(root: &FsNode, idle_days: u64, now_secs: u64) -> (r: Vec<String>)
    ensures
        names(r@) == found_in(seq![*root], None, Finder::Venv, idle_days as nat, now_secs as nat),
{
    walk_tree(root, Finder::Venv, idle_days, now_secs)
}

/// The `target` directories under `root` whose `Cargo.toml` beside them is idle for
/// more than `idle_days` days at `now_secs`; no `target` directory is entered.
pub fn find_rust_targets(root: &FsNode, idle_days: u64, now_secs: u64) -> (r: Vec<String>)
    ensures
        names(r@) == found_in(seq![*root], None, Finder::Target, idle_days as nat, now_secs as nat),
{
    walk_tree(root, Finder::Target, idle_days, now_secs)
}

/// The `node_modules` directories under `root` whose `package.json` beside them is
/// idle for more than `idle_days` days at `now_secs`; no `node_modules` is entered.
pub fn find_node_modules(root: &FsNode, idle_days: u64, now_secs: u64) -> (r: Vec<String>)
    ensures
        names(r@) == found_in(seq![*root], None, Finder::NodeModules, idle_days as nat, now_secs as nat),
{
    walk_tree(root, Finder::NodeModules, idle_days, now_secs)
}

/// The first Python manifest in `dir` (`pyproject.toml`, `setup.py`,
/// `requirements.txt`, in that order of preference), by path.
pub fn python_manifest(dir: &FsNode) -> (r: Option<String>)
    ensures
        match manifest_in(dir.children@, manifest_names(Finder::Venv)) {
            Some(m) => r is Some && r->0@ == m.path@,
            None => r is None,
        },
{
    let names = manifest_names_of(Finder::Venv);
    match manifest_index(&dir.children, &names) {
        Some(k) => Some(dir.children[k].path.clone()),
        None => None,
    }
}

} // verus!
