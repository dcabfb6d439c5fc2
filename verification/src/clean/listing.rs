//! The listing-based categories: which entries of a folder (or a few levels of one)
//! are offered, given what a symlink-safe read of it met.
use vstd::prelude::*;
use crate::clean::rules::{idle_spec, is_idle, is_telegram_account, is_telegram_container, is_version_dir_name, version_dir_name};
use crate::clean::tools::{is_screenshot_name, is_screenshot_name_text};
use crate::clean::walk::{at, FsNode};
use crate::text::{ends_with, names, starts_with, str_eq};

verus! {

/// The paths of the entries among `entries` that `keep` accepts, in listing order.
pub open spec fn paths_where(entries: Seq<FsNode>, keep: spec_fn(FsNode) -> bool) -> Seq<Seq<char>>
    decreases entries.len(),
{
    if entries.len() == 0 {
        seq![]
    } else {
        paths_where(entries.drop_last(), keep) + if keep(entries.last()) {
            seq![entries.last().path@]
        } else {
            Seq::<Seq<char>>::empty()
        }
    }
}

/// A plain file untouched for more than `idle_days` days at `now_secs`.
pub open spec fn is_old_file(e: FsNode, idle_days: nat, now_secs: nat) -> bool {
    !e.is_dir && idle_spec(e.modified_secs as nat, now_secs, idle_days)
}

/// An old file named like a macOS screenshot.
pub open spec fn is_old_screenshot(e: FsNode, idle_days: nat, now_secs: nat) -> bool {
    is_old_file(e, idle_days, now_secs) && is_screenshot_name_text(e.name@)
}

/// A directory named like a Mail store version (`V` and digits).
pub open spec fn is_version_dir(e: FsNode) -> bool {
    e.is_dir && version_dir_name(e.name@)
}

/// One step of a listing filter: what the first `i + 1` entries give is what the
/// first `i` give, then the entry at `i` if kept.
proof fn lemma_paths_step(entries: Seq<FsNode>, keep: spec_fn(FsNode) -> bool, i: int)
    requires
        0 <= i < entries.len(),
    ensures
        paths_where(entries.take(i + 1), keep) == paths_where(entries.take(i), keep) + if keep(entries[i]) {
            seq![entries[i].path@]
        } else {
            Seq::<Seq<char>>::empty()
        },
{
    assert(entries.take(i + 1).drop_last() =~= entries.take(i));
    assert(entries.take(i + 1).last() == entries[i]);
}

/// The idle plain files directly in `dir`, in listing order.
pub fn list_old_files(dir: &FsNode, idle_days: u64, now_secs: u64) -> (r: Vec<String>)
    ensures
        names(r@) == paths_where(dir.children@, |e: FsNode| is_old_file(e, idle_days as nat, now_secs as nat)),
{
    let ghost keep = |e: FsNode| is_old_file(e, idle_days as nat, now_secs as nat);
    let mut out: Vec<String> = Vec::new();
    let mut i: usize = 0;
    while i < dir.children.len()
        invariant
            keep == (|e: FsNode| is_old_file(e, idle_days as nat, now_secs as nat)),
            i <= dir.children@.len(),
            names(out@) == paths_where(dir.children@.take(i as int), keep),
        decreases dir.children@.len() - i,
    {
        let e = &dir.children[i];
        proof {
            lemma_paths_step(dir.children@, keep, i as int);
        }
        let ghost before = names(out@);
        let kept = !e.is_dir && is_idle(e.modified_secs, now_secs, idle_days);
        assert(kept == keep(dir.children@[i as int]));
        if kept {
            out.push(e.path.clone());
            assert(names(out@) =~= before + seq![e.path@]);
        } else {
            assert(names(out@) =~= before + Seq::<Seq<char>>::empty());
        }
        i += 1;
    }
    assert(dir.children@.take(dir.children@.len() as int) =~= dir.children@);
    out
}

/// The idle plain files directly in `dir` named like macOS screenshots
/// (`Screenshot …` or `Screen Shot …`), in listing order.
pub fn list_old_screenshots(dir: &FsNode, idle_days: u64, now_secs: u64) -> (r: Vec<String>)
    ensures
        names(r@) == paths_where(
            dir.children@,
            |e: FsNode| is_old_screenshot(e, idle_days as nat, now_secs as nat),
        ),
{
    let ghost keep = |e: FsNode| is_old_screenshot(e, idle_days as nat, now_secs as nat);
    let mut out: Vec<String> = Vec::new();
    let mut i: usize = 0;
    while i < dir.children.len()
        invariant
            keep == (|e: FsNode| is_old_screenshot(e, idle_days as nat, now_secs as nat)),
            i <= dir.children@.len(),
            names(out@) == paths_where(dir.children@.take(i as int), keep),
        decreases dir.children@.len() - i,
    {
        let e = &dir.children[i];
        proof {
            lemma_paths_step(dir.children@, keep, i as int);
        }
        let ghost before = names(out@);
        let kept = !e.is_dir && is_screenshot_name(e.name.as_str()) && is_idle(e.modified_secs, now_secs, idle_days);
        assert(kept == keep(dir.children@[i as int]));
        if kept {
            out.push(e.path.clone());
            assert(names(out@) =~= before + seq![e.path@]);
        } else {
            assert(names(out@) =~= before + Seq::<Seq<char>>::empty());
        }
        i += 1;
    }
    assert(dir.children@.take(dir.children@.len() as int) =~= dir.children@);
    out
}

/// The Mail store version folders (`V2`, `V10`, …) directly in `mail_root`.
pub fn v_dirs(mail_root: &FsNode) -> (r: Vec<String>)
    ensures
        names(r@) == paths_where(mail_root.children@, |e: FsNode| is_version_dir(e)),
{
    let ghost keep = |e: FsNode| is_version_dir(e);
    let mut out: Vec<String> = Vec::new();
    let mut i: usize = 0;
    while i < mail_root.children.len()
        invariant
            keep == (|e: FsNode| is_version_dir(e)),
            i <= mail_root.children@.len(),
            names(out@) == paths_where(mail_root.children@.take(i as int), keep),
        decreases mail_root.children@.len() - i,
    {
        let e = &mail_root.children[i];
        proof {
            lemma_paths_step(mail_root.children@, keep, i as int);
        }
        let ghost before = names(out@);
        let kept = e.is_dir && is_version_dir_name(e.name.as_str());
        assert(kept == keep(mail_root.children@[i as int]));
        if kept {
            out.push(e.path.clone());
            assert(names(out@) =~= before + seq![e.path@]);
        } else {
            assert(names(out@) =~= before + Seq::<Seq<char>>::empty());
        }
        i += 1;
    }
    assert(mail_root.children@.take(mail_root.children@.len() as int) =~= mail_root.children@);
    out
}

/// The first directory among `children` named `name`.
pub open spec fn child_dir(children: Seq<FsNode>, name: Seq<char>) -> Option<FsNode>
    decreases children.len(),
{
    if children.len() == 0 {
        None
    } else {
        match child_dir(children.drop_last(), name) {
            Some(d) => Some(d),
            None => if children.last().is_dir && children.last().name@ == name {
                Some(children.last())
            } else {
                None
            },
        }
    }
}

/// The index of the first directory among `children` named `name`.
fn first_dir(children: &Vec<FsNode>, name: &str) -> (r: Option<usize>)
    ensures
        r matches Some(k) ==> k < children@.len(),
        at(children@, r) == child_dir(children@, name@),
{
    let mut found: Option<usize> = None;
    let mut i: usize = 0;
    while i < children.len()
        invariant
            i <= children@.len(),
            found matches Some(k) ==> k < i,
            at(children@, found) == child_dir(children@.take(i as int), name@),
        decreases children@.len() - i,
    {
        proof {
            assert(children@.take(i as int + 1).drop_last() =~= children@.take(i as int));
        }
        if found.is_none() && children[i].is_dir && str_eq(children[i].name.as_str(), name) {
            found = Some(i);
        }
        i += 1;
    }
    proof {
        assert(children@.take(children@.len() as int) =~= children@);
    }
    found
}

/// The `cache2` folder of a Firefox profile, when it has one.
pub open spec fn cache2_of(profile: FsNode) -> Seq<Seq<char>> {
    match child_dir(profile.children@, "cache2"@) {
        Some(c) => seq![c.path@],
        None => Seq::<Seq<char>>::empty(),
    }
}

/// The `cache2` folders of the profile directories among `profiles`, in listing order.
pub open spec fn firefox_caches(profiles: Seq<FsNode>) -> Seq<Seq<char>>
    decreases profiles.len(),
{
    if profiles.len() == 0 {
        seq![]
    } else {
        firefox_caches(profiles.drop_last()) + if profiles.last().is_dir {
            cache2_of(profiles.last())
        } else {
            Seq::<Seq<char>>::empty()
        }
    }
}

/// The `cache2` folders of the Firefox profiles in `profiles_root`.
pub fn firefox_cache_dirs(profiles_root: &FsNode) -> (r: Vec<String>)
    ensures
        names(r@) == firefox_caches(profiles_root.children@),
{
    let mut out: Vec<String> = Vec::new();
    let mut i: usize = 0;
    while i < profiles_root.children.len()
        invariant
            i <= profiles_root.children@.len(),
            names(out@) == firefox_caches(profiles_root.children@.take(i as int)),
        decreases profiles_root.children@.len() - i,
    {
        let p = &profiles_root.children[i];
        let ghost before = names(out@);
        proof {
            assert(profiles_root.children@.take(i as int + 1).drop_last() =~= profiles_root.children@.take(i as int));
            assert(profiles_root.children@.take(i as int + 1).last() == *p);
        }
        if p.is_dir {
            match first_dir(&p.children, "cache2") {
                Some(k) => {
                    out.push(p.children[k].path.clone());
                    assert(names(out@) =~= before + cache2_of(*p));
                },
                None => {
                    assert(names(out@) =~= before + cache2_of(*p));
                },
            }
        } else {
            assert(names(out@) =~= before + Seq::<Seq<char>>::empty());
        }
        i += 1;
    }
    assert(profiles_root.children@.take(profiles_root.children@.len() as int) =~= profiles_root.children@);
    out
}

/// The `postbox/media` folder of a Telegram account folder, when it has one.
pub open spec fn media_of(account: FsNode) -> Seq<Seq<char>> {
    match child_dir(account.children@, "postbox"@) {
        Some(pb) => match child_dir(pb.children@, "media"@) {
            Some(m) => seq![m.path@],
            None => Seq::<Seq<char>>::empty(),
        },
        None => Seq::<Seq<char>>::empty(),
    }
}

/// The media folders of the account folders (`account-…`) among `accounts`.
pub open spec fn account_media(accounts: Seq<FsNode>) -> Seq<Seq<char>>
    decreases accounts.len(),
{
    if accounts.len() == 0 {
        seq![]
    } else {
        account_media(accounts.drop_last()) + if starts_with(accounts.last().name@, "account-"@) {
            media_of(accounts.last())
        } else {
            Seq::<Seq<char>>::empty()
        }
    }
}

/// The account media folders of the Telegram containers (`….ru.keepcoder.Telegram`)
/// among `containers`, container by container.
pub open spec fn telegram_media(containers: Seq<FsNode>) -> Seq<Seq<char>>
    decreases containers.len(),
{
    if containers.len() == 0 {
        seq![]
    } else {
        telegram_media(containers.drop_last()) + if ends_with(
            containers.last().name@,
            ".ru.keepcoder.Telegram"@,
        ) {
            account_media(containers.last().children@)
        } else {
            Seq::<Seq<char>>::empty()
        }
    }
}

/// Appends the media folder of `account`, when it has one.
fn push_media(account: &FsNode, out: &mut Vec<String>)
    ensures
        names(final(out)@) == names(old(out)@) + media_of(*account),
{
    let ghost before = names(out@);
    match first_dir(&account.children, "postbox") {
        Some(k) => {
            let pb = &account.children[k];
            match first_dir(&pb.children, "media") {
                Some(j) => {
                    out.push(pb.children[j].path.clone());
                    assert(names(out@) =~= before + media_of(*account));
                },
                None => {
                    assert(names(out@) =~= before + media_of(*account));
                },
            }
        },
        None => {
            assert(names(out@) =~= before + media_of(*account));
        },
    }
}

/// Appends the media folders of the accounts in `container`.
fn push_account_media(container: &FsNode, out: &mut Vec<String>)
    ensures
        names(final(out)@) == names(old(out)@) + account_media(container.children@),
{
    let ghost start = names(out@);
    let mut i: usize = 0;
    while i < container.children.len()
        invariant
            i <= container.children@.len(),
            names(out@) == start + account_media(container.children@.take(i as int)),
        decreases container.children@.len() - i,
    {
        let a = &container.children[i];
        let ghost before = names(out@);
        proof {
            assert(container.children@.take(i as int + 1).drop_last() =~= container.children@.take(i as int));
            assert(container.children@.take(i as int + 1).last() == *a);
        }
        if is_telegram_account(a.name.as_str()) {
            push_media(a, out);
            assert(names(out@) =~= start + account_media(container.children@.take(i as int + 1)));
        } else {
            assert(names(out@) =~= start + account_media(container.children@.take(i as int + 1)));
        }
        i += 1;
    }
    assert(container.children@.take(container.children@.len() as int) =~= container.children@);
}

/// The media folders of the Telegram accounts in `group_containers`: for each
/// Telegram container, each `account-…` folder's `postbox/media`.
pub fn telegram_media_dirs(group_containers: &FsNode) -> (r: Vec<String>)
    ensures
        names(r@) == telegram_media(group_containers.children@),
{
    let mut out: Vec<String> = Vec::new();
    let mut i: usize = 0;
    while i < group_containers.children.len()
        invariant
            i <= group_containers.children@.len(),
            names(out@) == telegram_media(group_containers.children@.take(i as int)),
        decreases group_containers.children@.len() - i,
    {
        let c = &group_containers.children[i];
        let ghost before = names(out@);
        proof {
            assert(group_containers.children@.take(i as int + 1).drop_last()
                =~= group_containers.children@.take(i as int));
            assert(group_containers.children@.take(i as int + 1).last() == *c);
        }
        if is_telegram_container(c.name.as_str()) {
            push_account_media(c, &mut out);
        } else {
            assert(names(out@) =~= before + Seq::<Seq<char>>::empty());
        }
        i += 1;
    }
    assert(group_containers.children@.take(group_containers.children@.len() as int) =~= group_containers.children@);
    out
}

} // verus!
