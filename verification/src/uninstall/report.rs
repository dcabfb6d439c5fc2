//! What the uninstall command prints and asks.
use vstd::prelude::*;
use crate::text::names;
use crate::cli::UninstallOpts;
use crate::path::{file_stem, file_stem_of};
use crate::scan::plan::{join_path, join_text};
use crate::text::{append_str, chars_of, decimal, push_decimal};
use crate::uninstall::plan::{items_size, AppEntry, ItemKind, Plan, RemovalItem};
use crate::util::{append_padded_left, append_padded_right, bytes_text, format_bytes, pad_left, pad_right, plural, plural_text, truncate, truncated};

verus! {

broadcast use vstd::string::group_string_axioms;


fn push_line(out: &mut Vec<String>, s: String)
    ensures
        names(final(out)@) == names(old(out)@).push(s@),
{
    let ghost before = out@;
    out.push(s);
    assert(names(out@) =~= names(before).push(s@));
}

/// The mode line's description of what the uninstall does.
pub open spec fn mode_text(opts: UninstallOpts) -> Seq<char> {
    if opts.hard {
        "rm -rf (NOT recoverable)"@
    } else if opts.shallow {
        "shallow (only /Applications, move to Trash)"@
    } else if opts.leftovers_only {
        "leftovers only (only ~/Library, move to Trash)"@
    } else {
        "full (move to Trash)"@
    }
}

pub open spec fn kind_text(k: ItemKind) -> Seq<char> {
    match k {
        ItemKind::AppBundle => "app  "@,
        ItemKind::Leftover => "left."@,
    }
}

/// The line of one removal item.
pub open spec fn item_line(i: RemovalItem) -> Seq<char> {
    "  "@ + kind_text(i.kind) + " "@ + pad_left(bytes_text(i.size as nat), 10) + "  "@ + i.path@
}

/// The lines of one plan.
pub open spec fn plan_text(p: Plan) -> Seq<Seq<char>> {
    seq!["== "@ + p.app.name@ + " =="@] + (match p.blocked {
        Some(b) => seq!["  BLOCKED: "@ + b@],
        None => Seq::<Seq<char>>::empty(),
    }) + (match p.app.bundle_id {
        Some(b) => seq!["  bundle: "@ + b@],
        None => Seq::<Seq<char>>::empty(),
    }) + (if p.items@.len() == 0 {
        seq!["  (nothing to remove)"@]
    } else {
        Seq::<Seq<char>>::empty()
    }) + p.items@.map_values(|i: RemovalItem| item_line(i)) + seq![
        "  → subtotal: "@ + bytes_text(items_size(p.items@)),
        Seq::<char>::empty(),
    ]
}

/// `a + b`, saturating.
pub open spec fn sat_add(a: nat, b: nat) -> nat {
    if a + b > u64::MAX {
        u64::MAX as nat
    } else {
        a + b
    }
}

/// The grand total of the plans, saturating after each plan.
pub open spec fn grand_total(plans: Seq<Plan>) -> nat
    decreases plans.len(),
{
    if plans.len() == 0 {
        0
    } else {
        sat_add(grand_total(plans.drop_last()), items_size(plans.last().items@))
    }
}

pub open spec fn plans_text(plans: Seq<Plan>) -> Seq<Seq<char>>
    decreases plans.len(),
{
    if plans.len() == 0 {
        Seq::<Seq<char>>::empty()
    } else {
        plans_text(plans.drop_last()) + plan_text(plans.last())
    }
}

/// The report of the plans: the mode, each plan, the grand total.
pub open spec fn report_text(plans: Seq<Plan>, opts: UninstallOpts) -> Seq<Seq<char>> {
    seq!["Mode: "@ + mode_text(opts), Seq::<char>::empty()] + plans_text(plans) + seq![
        "Grand total: "@ + bytes_text(grand_total(plans)),
    ]
}

/// Every plan's size fits in a `u64`.
pub open spec fn plan_sizes_fit(plans: Seq<Plan>) -> bool {
    forall|k: int| 0 <= k < plans.len() ==> items_size((#[trigger] plans[k]).items@) <= u64::MAX
}

fn mode_str(opts: &UninstallOpts) -> (r: &'static str)
    ensures
        r@ == mode_text(*opts),
{
    if opts.hard {
        "rm -rf (NOT recoverable)"
    } else if opts.shallow {
        "shallow (only /Applications, move to Trash)"
    } else if opts.leftovers_only {
        "leftovers only (only ~/Library, move to Trash)"
    } else {
        "full (move to Trash)"
    }
}

fn plan_lines_of(out: &mut Vec<String>, p: &Plan)
    requires
        items_size(p.items@) <= u64::MAX,
    ensures
        names(final(out)@) == names(old(out)@) + plan_text(*p),
{
    let ghost start = names(out@);
    let mut h = String::from_str("== ");
    append_str(&mut h, p.app.name.as_str());
    append_str(&mut h, " ==");
    push_line(out, h);
    match &p.blocked {
        Some(b) => {
            let mut s = String::from_str("  BLOCKED: ");
            append_str(&mut s, b.as_str());
            push_line(out, s);
        },
        None => {},
    }
    match &p.app.bundle_id {
        Some(b) => {
            let mut s = String::from_str("  bundle: ");
            append_str(&mut s, b.as_str());
            push_line(out, s);
        },
        None => {},
    }
    if p.items.len() == 0 {
        push_line(out, String::from_str("  (nothing to remove)"));
    }
    let ghost mid = names(out@);
    let mut i: usize = 0;
    while i < p.items.len()
        invariant
            i <= p.items@.len(),
            names(out@) == mid + p.items@.take(i as int).map_values(|i: RemovalItem| item_line(i)),
        decreases p.items@.len() - i,
    {
        let it = &p.items[i];
        let mut s = String::from_str("  ");
        append_str(&mut s, match it.kind {
            ItemKind::AppBundle => "app  ",
            ItemKind::Leftover => "left.",
        });
        append_str(&mut s, " ");
        let b = format_bytes(it.size);
        append_padded_left(&mut s, b.as_str(), 10);
        append_str(&mut s, "  ");
        append_str(&mut s, it.path.as_str());
        assert(s@ =~= item_line(*it));
        push_line(out, s);
        assert(p.items@.take(i + 1).map_values(|i: RemovalItem| item_line(i)) =~= p.items@.take(i as int).map_values(|i: RemovalItem| item_line(i)).push(item_line(p.items@[i as int])));
        i += 1;
    }
    assert(p.items@.take(p.items@.len() as int) =~= p.items@);
    let total = p.total_size();
    let mut s = String::from_str("  → subtotal: ");
    let b = format_bytes(total);
    append_str(&mut s, b.as_str());
    push_line(out, s);
    push_line(out, String::new());
    assert(names(out@) =~= start + plan_text(*p));
}

/// The printed report of the plans.
pub fn plan_lines(plans: &Vec<Plan>, opts: &UninstallOpts) -> (r: Vec<String>)
    requires
        plan_sizes_fit(plans@),
    ensures
        names(r@) == report_text(plans@, *opts),
{
    let mut out: Vec<String> = Vec::new();
    let mut m = String::from_str("Mode: ");
    append_str(&mut m, mode_str(opts));
    push_line(&mut out, m);
    push_line(&mut out, String::new());
    let ghost head = names(out@);
    let mut grand: u64 = 0;
    let mut k: usize = 0;
    assert(plans@.take(0) =~= Seq::<Plan>::empty());
    assert(head + plans_text(plans@.take(0)) =~= head);
    while k < plans.len()
        invariant
            k <= plans@.len(),
            plan_sizes_fit(plans@),
            names(out@) == head + plans_text(plans@.take(k as int)),
            grand == grand_total(plans@.take(k as int)),
        decreases plans@.len() - k,
    {
        let p = &plans[k];
        assert(items_size(plans@[k as int].items@) <= u64::MAX);
        plan_lines_of(&mut out, p);
        let t = p.total_size();
        grand = match grand.checked_add(t) {
            Some(x) => x,
            None => u64::MAX,
        };
        assert(plans@.take(k + 1).drop_last() =~= plans@.take(k as int));
        k += 1;
    }
    assert(plans@.take(plans@.len() as int) =~= plans@);
    let mut g = String::from_str("Grand total: ");
    let b = format_bytes(grand);
    append_str(&mut g, b.as_str());
    push_line(&mut out, g);
    assert(names(out@) =~= report_text(plans@, *opts));
    out
}

/// How long ago an app was last used.
pub open spec fn last_used_text(d: Option<u64>) -> Seq<char> {
    match d {
        Some(n) => if n == 0 {
            "today"@
        } else {
            decimal(n as nat) + "d ago"@
        },
        None => "never"@,
    }
}

/// The picker row of an app: name cut and padded to 32, size right-aligned to 10,
/// and when it was last used.
pub open spec fn app_label_text(a: AppEntry) -> Seq<char> {
    pad_right(truncated(a.name@, 32), 32) + " "@ + pad_left(bytes_text(a.size as nat), 10) + "    last used "@
        + last_used_text(a.last_used_days)
}

pub fn app_label(a: &AppEntry) -> (s: String)
    ensures
        s@ == app_label_text(*a),
{
    let mut s = String::new();
    let t = truncate(a.name.as_str(), 32);
    append_padded_right(&mut s, t.as_str(), 32);
    append_str(&mut s, " ");
    let b = format_bytes(a.size);
    append_padded_left(&mut s, b.as_str(), 10);
    append_str(&mut s, "    last used ");
    match a.last_used_days {
        Some(d) => {
            if d == 0 {
                append_str(&mut s, "today");
            } else {
                push_decimal(&mut s, d);
                append_str(&mut s, "d ago");
            }
        },
        None => append_str(&mut s, "never"),
    }
    assert(s@ =~= app_label_text(*a));
    s
}

/// Number of items over all plans.
pub open spec fn item_count(plans: Seq<Plan>) -> nat
    decreases plans.len(),
{
    if plans.len() == 0 {
        0
    } else {
        item_count(plans.drop_last()) + plans.last().items@.len()
    }
}

/// Bytes over all plans.
pub open spec fn plans_size(plans: Seq<Plan>) -> nat
    decreases plans.len(),
{
    if plans.len() == 0 {
        0
    } else {
        plans_size(plans.drop_last()) + items_size(plans.last().items@)
    }
}

proof fn lemma_plans_prefix(plans: Seq<Plan>, j: int)
    requires
        0 <= j <= plans.len(),
    ensures
        plans_size(plans.take(j)) <= plans_size(plans),
        item_count(plans.take(j)) <= item_count(plans),
        forall|k: int| 0 <= k < plans.len() ==> items_size((#[trigger] plans[k]).items@) <= plans_size(plans),
    decreases plans.len() - j,
{
    if j < plans.len() {
        lemma_plans_prefix(plans, j + 1);
        assert(plans.take(j + 1).drop_last() =~= plans.take(j));
    } else {
        assert(plans.take(j) =~= plans);
        lemma_each_plan_size(plans);
    }
}

proof fn lemma_each_plan_size(plans: Seq<Plan>)
    ensures
        forall|k: int| 0 <= k < plans.len() ==> items_size((#[trigger] plans[k]).items@) <= plans_size(plans),
    decreases plans.len(),
{
    if plans.len() > 0 {
        lemma_each_plan_size(plans.drop_last());
        assert forall|k: int| 0 <= k < plans.len() implies items_size((#[trigger] plans[k]).items@) <= plans_size(plans) by {
            if k < plans.len() - 1 {
                assert(plans[k] == plans.drop_last()[k]);
            }
        }
    }
}

/// The hard-delete confirmation question of the uninstall.
pub open spec fn confirm_text(plans: Seq<Plan>) -> Seq<char> {
    "PERMANENTLY DELETE "@ + plural_text(item_count(plans), "item"@) + " ("@ + bytes_text(plans_size(plans))
        + ") — this CANNOT be undone. Are you sure?"@
}

pub fn confirm_prompt(plans: &Vec<Plan>) -> (s: String)
    requires
        plans_size(plans@) <= u64::MAX,
        item_count(plans@) <= usize::MAX,
    ensures
        s@ == confirm_text(plans@),
{
    let mut total: u64 = 0;
    let mut count: usize = 0;
    let mut k: usize = 0;
    assert(plans@.take(0) =~= Seq::<Plan>::empty());
    proof {
        lemma_plans_prefix(plans@, 0);
    }
    while k < plans.len()
        invariant
            k <= plans@.len(),
            plans_size(plans@) <= u64::MAX,
            item_count(plans@) <= usize::MAX,
            forall|x: int| 0 <= x < plans@.len() ==> items_size((#[trigger] plans@[x]).items@) <= plans_size(plans@),
            total == plans_size(plans@.take(k as int)),
            count == item_count(plans@.take(k as int)),
        decreases plans@.len() - k,
    {
        assert(plans@.take(k + 1).drop_last() =~= plans@.take(k as int));
        proof {
            lemma_plans_prefix(plans@, k + 1);
        }
        assert(items_size(plans@[k as int].items@) <= u64::MAX);
        total = total + plans[k].total_size();
        count = count + plans[k].items.len();
        k += 1;
    }
    assert(plans@.take(plans@.len() as int) =~= plans@);
    let mut s = String::from_str("PERMANENTLY DELETE ");
    let pl = plural(count, "item");
    append_str(&mut s, pl.as_str());
    append_str(&mut s, " (");
    let b = format_bytes(total);
    append_str(&mut s, b.as_str());
    append_str(&mut s, ") — this CANNOT be undone. Are you sure?");
    assert(s@ =~= confirm_text(plans@));
    s
}

/// What the uninstall does once the plans are shown.
#[derive(Debug, Clone, Copy, PartialEq, Eq, Structural)]
pub enum Action {
    Trash,
    Hard,
    DryRun,
    Cancel,
}

/// The action fixed by the flags: `--dry-run`, or `--yes` (with or without
/// `--hard`); none when the menu must ask.
pub fn preset_action(opts: &UninstallOpts) -> (r: Option<Action>)
    ensures
        r == (if opts.dry_run {
            Some(Action::DryRun)
        } else if opts.yes {
            Some(if opts.hard { Action::Hard } else { Action::Trash })
        } else {
            None::<Action>
        }),
{
    if opts.dry_run {
        return Some(Action::DryRun);
    }
    if opts.yes {
        return Some(if opts.hard { Action::Hard } else { Action::Trash });
    }
    None
}

/// The rows of the action menu.
pub fn action_menu_items() -> (r: Vec<&'static str>)
    ensures
        r@.len() == 4,
        r@[0]@ == "Move to Trash (recoverable)"@,
        r@[1]@ == "Dry-run (no changes)"@,
        r@[2]@ == "Hard delete (NOT recoverable)"@,
        r@[3]@ == "Cancel"@,
{
    vec!["Move to Trash (recoverable)", "Dry-run (no changes)", "Hard delete (NOT recoverable)", "Cancel"]
}

/// The row the menu starts on: hard delete with `--hard`, else Move to Trash.
pub fn menu_default(opts: &UninstallOpts) -> (r: usize)
    ensures
        r == (if opts.hard { 2usize } else { 0usize }),
{
    if opts.hard { 2 } else { 0 }
}

/// The action of the selected menu row.
pub fn menu_action(row: usize) -> (r: Action)
    ensures
        r == (if row == 0 {
            Action::Trash
        } else if row == 1 {
            Action::DryRun
        } else if row == 2 {
            Action::Hard
        } else {
            Action::Cancel
        }),
{
    if row == 0 {
        Action::Trash
    } else if row == 1 {
        Action::DryRun
    } else if row == 2 {
        Action::Hard
    } else {
        Action::Cancel
    }
}

/// The code of a character after ASCII case folding.
pub open spec fn ascii_lower(c: char) -> u32 {
    if 'A' <= c && c <= 'Z' {
        ((c as u32) + 32) as u32
    } else {
        c as u32
    }
}

/// `a.eq_ignore_ascii_case(b)`.
pub open spec fn eq_ascii_case(a: Seq<char>, b: Seq<char>) -> bool {
    a.len() == b.len() && forall|i: int| 0 <= i < a.len() ==> ascii_lower(#[trigger] a[i]) == ascii_lower(b[i])
}

fn lower_char(c: char) -> (r: u32)
    ensures
        r == ascii_lower(c),
{
    if 'A' <= c && c <= 'Z' {
        (c as u32) + 32
    } else {
        c as u32
    }
}

pub fn eq_ignore_ascii_case(a: &str, b: &str) -> (r: bool)
    ensures
        r == eq_ascii_case(a@, b@),
{
    let x = chars_of(a);
    let y = chars_of(b);
    if x.len() != y.len() {
        return false;
    }
    let mut i: usize = 0;
    while i < x.len()
        invariant
            i <= x@.len(),
            x@.len() == y@.len(),
            x@ == a@,
            y@ == b@,
            forall|k: int| 0 <= k < i ==> ascii_lower(#[trigger] x@[k]) == ascii_lower(y@[k]),
        decreases x@.len() - i,
    {
        if lower_char(x[i]) != lower_char(y[i]) {
            return false;
        }
        i += 1;
    }
    true
}

/// Where an app named `name` would sit in `/Applications`.
pub fn direct_app_path(name: &str) -> (r: String)
    ensures
        r@ == join_text("/Applications"@, name@ + ".app"@),
{
    let mut n = String::from_str(name);
    append_str(&mut n, ".app");
    join_path("/Applications", n.as_str())
}

/// The name an app is listed by: its bundle's file stem, else its whole path.
pub fn app_name_of(path: &str) -> (r: String)
    ensures
        r@ == (match file_stem(path@) {
            Some(s) => s,
            None => path@,
        }),
{
    match file_stem_of(path) {
        Some(s) => s,
        None => String::from_str(path),
    }
}

/// The error when no app of that name exists.
pub fn no_app_error(name: &str) -> (r: String)
    ensures
        r@ == "no app named '"@ + name@ + "' found in /Applications"@,
{
    let mut s = String::from_str("no app named '");
    append_str(&mut s, name);
    append_str(&mut s, "' found in /Applications");
    s
}

/// How many plans are refused.
pub open spec fn blocked_in(plans: Seq<Plan>) -> nat
    decreases plans.len(),
{
    if plans.len() == 0 {
        0
    } else {
        blocked_in(plans.drop_last()) + (if plans.last().blocked is Some {
            1nat
        } else {
            0nat
        })
    }
}

proof fn lemma_blocked_in_bound(plans: Seq<Plan>)
    ensures
        blocked_in(plans) <= plans.len(),
    decreases plans.len(),
{
    if plans.len() > 0 {
        lemma_blocked_in_bound(plans.drop_last());
    }
}

pub fn blocked_count(plans: &Vec<Plan>) -> (r: usize)
    ensures
        r == blocked_in(plans@),
{
    let mut n: usize = 0;
    let mut i: usize = 0;
    assert(plans@.take(0) =~= Seq::<Plan>::empty());
    while i < plans.len()
        invariant
            i <= plans@.len(),
            n == blocked_in(plans@.take(i as int)),
        decreases plans@.len() - i,
    {
        assert(plans@.take(i + 1).drop_last() =~= plans@.take(i as int));
        proof {
            lemma_blocked_in_bound(plans@.take(i as int));
        }
        if plans[i].blocked.is_some() {
            n = n + 1;
        }
        i += 1;
    }
    assert(plans@.take(plans@.len() as int) =~= plans@);
    n
}

/// The error when some apps may not be removed.
pub fn blocked_error(count: usize) -> (r: String)
    ensures
        r@ == decimal(count as nat) + " app(s) blocked from removal — see report above. Use --force to override Homebrew warning."@,
{
    let mut s = String::new();
    push_decimal(&mut s, count as u64);
    append_str(&mut s, " app(s) blocked from removal — see report above. Use --force to override Homebrew warning.");
    s
}

/// The line reporting how removing one app went.
pub fn removal_line(app_name: &str, outcome: &Result<(), String>) -> (r: String)
    ensures
        r@ == (match outcome {
            Ok(()) => "✓ removed "@ + app_name@,
            Err(e) => "✗ "@ + app_name@ + ": "@ + e@,
        }),
{
    match outcome {
        Ok(()) => {
            let mut s = String::from_str("✓ removed ");
            append_str(&mut s, app_name);
            s
        },
        Err(e) => {
            let mut s = String::from_str("✗ ");
            append_str(&mut s, app_name);
            append_str(&mut s, ": ");
            append_str(&mut s, e.as_str());
            s
        },
    }
}

/// `names` joined by `, `.
pub open spec fn joined(names: Seq<String>) -> Seq<char>
    decreases names.len(),
{
    if names.len() == 0 {
        Seq::<char>::empty()
    } else if names.len() == 1 {
        names[0]@
    } else {
        joined(names.drop_last()) + ", "@ + names.last()@
    }
}

/// The error when some apps could not be removed completely.
pub fn failures_error(names: &Vec<String>) -> (r: String)
    ensures
        r@ == "failed to fully remove: "@ + joined(names@),
{
    let mut s = String::from_str("failed to fully remove: ");
    let ghost start = s@;
    let mut i: usize = 0;
    assert(names@.take(0) =~= Seq::<String>::empty());
    while i < names.len()
        invariant
            i <= names@.len(),
            start == "failed to fully remove: "@,
            s@ == start + joined(names@.take(i as int)),
        decreases names@.len() - i,
    {
        assert(names@.take(i + 1).drop_last() =~= names@.take(i as int));
        if i > 0 {
            append_str(&mut s, ", ");
        }
        append_str(&mut s, names[i].as_str());
        assert(s@ =~= start + joined(names@.take(i + 1)));
        i += 1;
    }
    assert(names@.take(names@.len() as int) =~= names@);
    s
}

} // verus!
