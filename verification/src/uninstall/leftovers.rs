//! Where an app leaves files behind under `~/Library`.
use vstd::prelude::*;
use crate::clean::tools::has_text;
use crate::scan::plan::{join_path, join_text};
use crate::text::{append_str, chars_of, find_from, starts_with, str_starts_with};

verus! {

broadcast use vstd::string::group_string_axioms;

pub open spec fn lib(home: Seq<char>, sub: Seq<char>) -> Seq<char> {
    join_text(home, sub)
}

/// The names of `entries` that start with `prefix`, in order.
pub open spec fn names_starting(entries: Seq<String>, prefix: Seq<char>) -> Seq<Seq<char>>
    decreases entries.len(),
{
    if entries.len() == 0 {
        Seq::<Seq<char>>::empty()
    } else {
        let p = names_starting(entries.drop_last(), prefix);
        if starts_with(entries.last()@, prefix) {
            p.push(entries.last()@)
        } else {
            p
        }
    }
}

/// The names of `entries` that contain `part`, in order.
pub open spec fn names_containing(entries: Seq<String>, part: Seq<char>) -> Seq<Seq<char>>
    decreases entries.len(),
{
    if entries.len() == 0 {
        Seq::<Seq<char>>::empty()
    } else {
        let p = names_containing(entries.drop_last(), part);
        if has_text(entries.last()@, part) {
            p.push(entries.last()@)
        } else {
            p
        }
    }
}

/// The places, in the order checked, where an app may have left files: the
/// bundle-id keyed folders and files (when the id is known), the `LaunchAgents`
/// entries starting with the id, the `Group Containers` entries containing it, then
/// the name keyed folders. `launch_agents` and `group_containers` are the entries of
/// those two folders.
pub open spec fn leftover_paths(
    home: Seq<char>,
    app_name: Seq<char>,
    bundle_id: Option<Seq<char>>,
    launch_agents: Seq<String>,
    group_containers: Seq<String>,
) -> Seq<Seq<char>> {
    (match bundle_id {
        Some(b) => seq![
            join_text(lib(home, "Library/Application Support"@), b),
            join_text(lib(home, "Library/Caches"@), b),
            join_text(lib(home, "Library/Preferences"@), b + ".plist"@),
            join_text(lib(home, "Library/Containers"@), b),
            join_text(lib(home, "Library/Saved Application State"@), b + ".savedState"@),
            join_text(lib(home, "Library/HTTPStorages"@), b),
            join_text(lib(home, "Library/HTTPStorages"@), b + ".binarycookies"@),
            join_text(lib(home, "Library/WebKit"@), b),
        ] + names_starting(launch_agents, b).map_values(|n: Seq<char>| join_text(lib(home, "Library/LaunchAgents"@), n))
            + names_containing(group_containers, b).map_values(|n: Seq<char>| join_text(lib(home, "Library/Group Containers"@), n)),
        None => Seq::<Seq<char>>::empty(),
    }) + seq![
        join_text(lib(home, "Library/Application Support"@), app_name),
        join_text(lib(home, "Library/Logs"@), app_name),
        join_text(lib(home, "Library/Caches"@), app_name),
    ]
}

fn push_path(out: &mut Vec<String>, home: &str, sub: &str, name: &str)
    ensures
        final(out)@.map_values(|s: String| s@) == old(out)@.map_values(|s: String| s@).push(join_text(join_text(home@, sub@), name@)),
{
    let dir = join_path(home, sub);
    let p = join_path(dir.as_str(), name);
    let ghost before = out@.map_values(|s: String| s@);
    out.push(p);
    assert(out@.map_values(|s: String| s@) =~= before.push(join_text(join_text(home@, sub@), name@)));
}

fn push_path_with(out: &mut Vec<String>, home: &str, sub: &str, name: &str, suffix: &str)
    ensures
        final(out)@.map_values(|s: String| s@) == old(out)@.map_values(|s: String| s@).push(join_text(join_text(home@, sub@), name@ + suffix@)),
{
    let mut n = String::from_str(name);
    append_str(&mut n, suffix);
    push_path(out, home, sub, n.as_str());
}

fn text_contains(s: &str, t: &str) -> (r: bool)
    ensures
        r == has_text(s@, t@),
{
    let v = chars_of(s);
    let w = chars_of(t);
    find_from(&v, &w, 0).is_some()
}

/// The candidate leftover paths of an app (see `leftover_paths`); the caller keeps
/// those that exist.
pub fn leftover_candidates(
    home: &str,
    app_name: &str,
    bundle_id: Option<&str>,
    launch_agents: &Vec<String>,
    group_containers: &Vec<String>,
) -> (r: Vec<String>)
    ensures
        r@.map_values(|s: String| s@) == leftover_paths(home@, app_name@, match bundle_id {
            Some(b) => Some(b@),
            None => None,
        }, launch_agents@, group_containers@),
{
    let mut out: Vec<String> = Vec::new();
    match bundle_id {
        Some(bid) => {
            push_path(&mut out, home, "Library/Application Support", bid);
            push_path(&mut out, home, "Library/Caches", bid);
            push_path_with(&mut out, home, "Library/Preferences", bid, ".plist");
            push_path(&mut out, home, "Library/Containers", bid);
            push_path_with(&mut out, home, "Library/Saved Application State", bid, ".savedState");
            push_path(&mut out, home, "Library/HTTPStorages", bid);
            push_path_with(&mut out, home, "Library/HTTPStorages", bid, ".binarycookies");
            push_path(&mut out, home, "Library/WebKit", bid);
            let ghost fixed = out@.map_values(|s: String| s@);
            let ghost fa = |n: Seq<char>| join_text(lib(home@, "Library/LaunchAgents"@), n);
            let mut i: usize = 0;
            assert(launch_agents@.take(0) =~= Seq::<String>::empty());
            assert(fixed + names_starting(launch_agents@.take(0), bid@).map_values(fa) =~= fixed);
            while i < launch_agents.len()
                invariant
                    i <= launch_agents@.len(),
                    fa == |n: Seq<char>| join_text(lib(home@, "Library/LaunchAgents"@), n),
                    out@.map_values(|s: String| s@) == fixed + names_starting(launch_agents@.take(i as int), bid@).map_values(fa),
                decreases launch_agents@.len() - i,
            {
                assert(launch_agents@.take(i + 1).drop_last() =~= launch_agents@.take(i as int));
                if str_starts_with(launch_agents[i].as_str(), bid) {
                    let ghost prev = names_starting(launch_agents@.take(i as int), bid@);
                    push_path(&mut out, home, "Library/LaunchAgents", launch_agents[i].as_str());
                    assert(prev.push(launch_agents@[i as int]@).map_values(fa) =~= prev.map_values(fa).push(fa(launch_agents@[i as int]@)));
                }
                i += 1;
            }
            assert(launch_agents@.take(launch_agents@.len() as int) =~= launch_agents@);
            let ghost mid = out@.map_values(|s: String| s@);
            let ghost fg = |n: Seq<char>| join_text(lib(home@, "Library/Group Containers"@), n);
            let mut i: usize = 0;
            assert(group_containers@.take(0) =~= Seq::<String>::empty());
            assert(mid + names_containing(group_containers@.take(0), bid@).map_values(fg) =~= mid);
            while i < group_containers.len()
                invariant
                    i <= group_containers@.len(),
                    fg == |n: Seq<char>| join_text(lib(home@, "Library/Group Containers"@), n),
                    out@.map_values(|s: String| s@) == mid + names_containing(group_containers@.take(i as int), bid@).map_values(fg),
                decreases group_containers@.len() - i,
            {
                assert(group_containers@.take(i + 1).drop_last() =~= group_containers@.take(i as int));
                if text_contains(group_containers[i].as_str(), bid) {
                    let ghost prev = names_containing(group_containers@.take(i as int), bid@);
                    push_path(&mut out, home, "Library/Group Containers", group_containers[i].as_str());
                    assert(prev.push(group_containers@[i as int]@).map_values(fg) =~= prev.map_values(fg).push(fg(group_containers@[i as int]@)));
                }
                i += 1;
            }
            assert(group_containers@.take(group_containers@.len() as int) =~= group_containers@);
        },
        None => {},
    }
    push_path(&mut out, home, "Library/Application Support", app_name);
    push_path(&mut out, home, "Library/Logs", app_name);
    push_path(&mut out, home, "Library/Caches", app_name);
    assert(out@.map_values(|s: String| s@) =~= leftover_paths(home@, app_name@, match bundle_id {
        Some(b) => Some(b@),
        None => None,
    }, launch_agents@, group_containers@));
    out
}

} // verus!
