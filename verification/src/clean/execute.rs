//! Execute a plan against the per-category executors.
//!
//! Translates the user-facing `CleanAction` into category-specific `ExecAction`s:
//! - `CleanAction::Trash` becomes `ExecAction::Trash` for every category. The trash
//!   category rejects it; a plan that holds the `trash` group therefore refuses
//!   `Trash` outright (the user must pick Hard delete instead).
//! - `CleanAction::HardDelete` becomes `ExecAction::EmptyTrash` for the trash
//!   category and `ExecAction::HardDelete` for everyone else.
use vstd::prelude::*;
use crate::clean::discover::CategoryGroup;
use crate::clean::providers::ProviderIo;
use crate::clean::registry::{category_from_id, id_of, lookup_id, Category};
use crate::clean::types::{CleanAction, CleanItem, ExecAction, ExecReport};
use crate::text::{append_str, str_eq};

verus! {

broadcast use vstd::string::group_string_axioms;

/// Why a plan, or one group of it, was not executed.
#[derive(Debug)]
pub enum ExecError {
    /// The plan holds the `trash` group and the action is `Trash`.
    TrashNeedsHard,
    /// The trash category was asked to move its items to the trash.
    TrashRejected,
    /// Dry run and cancel are handled before execution.
    NotExecutable,
    /// A group whose id names no category.
    UnknownCategory(String),
    /// No category of the given list carries the id.
    NoProvider(String),
    /// The executor of a category failed with this message.
    Provider(String),
}

pub open spec fn exec_error_text(e: ExecError) -> Seq<char> {
    match e {
        ExecError::TrashNeedsHard => "trash category requires --hard (cannot 'move trash to trash')"@,
        ExecError::TrashRejected => "trash provider rejects Trash action"@,
        ExecError::NotExecutable => "DryRun/Cancel must be handled before execute()"@,
        ExecError::UnknownCategory(id) => "internal error: no provider registered for category '"@
            + id@ + "'"@,
        ExecError::NoProvider(id) => "no provider for '"@ + id@ + "'"@,
        ExecError::Provider(msg) => msg@,
    }
}

impl ExecError {
    /// The message shown to the user.
    pub fn to_string(&self) -> (r: String)
        ensures
            r@ == exec_error_text(*self),
    {
        let mut s = String::new();
        match self {
            ExecError::TrashNeedsHard => append_str(
                &mut s,
                "trash category requires --hard (cannot 'move trash to trash')",
            ),
            ExecError::TrashRejected => append_str(&mut s, "trash provider rejects Trash action"),
            ExecError::NotExecutable => append_str(
                &mut s,
                "DryRun/Cancel must be handled before execute()",
            ),
            ExecError::UnknownCategory(id) => {
                append_str(&mut s, "internal error: no provider registered for category '");
                append_str(&mut s, id.as_str());
                append_str(&mut s, "'");
            },
            ExecError::NoProvider(id) => {
                append_str(&mut s, "no provider for '");
                append_str(&mut s, id.as_str());
                append_str(&mut s, "'");
            },
            ExecError::Provider(msg) => append_str(&mut s, msg.as_str()),
        }
        assert(s@ =~= exec_error_text(*self));
        s
    }
}

pub open spec fn trash_id() -> Seq<char> {
    "trash"@
}

/// The executor action for a menu action on the category named `id`.
pub open spec fn action_for(action: CleanAction, id: Seq<char>) -> Result<ExecAction, ExecError> {
    match action {
        CleanAction::Trash => if id == trash_id() {
            Err(ExecError::TrashRejected)
        } else {
            Ok(ExecAction::Trash)
        },
        CleanAction::HardDelete => if id == trash_id() {
            Ok(ExecAction::EmptyTrash)
        } else {
            Ok(ExecAction::HardDelete)
        },
        CleanAction::DryRun | CleanAction::Cancel => Err(ExecError::NotExecutable),
    }
}

/// Map a menu action to the category's `ExecAction`.
pub fn map_action(action: CleanAction, provider_id: &str) -> (r: Result<ExecAction, ExecError>)
    ensures
        r == action_for(action, provider_id@),
{
    let is_trash = str_eq(provider_id, "trash");
    match action {
        CleanAction::Trash => {
            if is_trash {
                Err(ExecError::TrashRejected)
            } else {
                Ok(ExecAction::Trash)
            }
        },
        CleanAction::HardDelete => {
            if is_trash {
                Ok(ExecAction::EmptyTrash)
            } else {
                Ok(ExecAction::HardDelete)
            }
        },
        CleanAction::DryRun | CleanAction::Cancel => Err(ExecError::NotExecutable),
    }
}

/// Whether `p` is one of the excluded paths.
pub open spec fn is_excluded(excluded: Seq<String>, p: Seq<char>) -> bool {
    exists|j: int| 0 <= j < excluded.len() && (#[trigger] excluded[j])@ == p
}

/// The items whose path is not excluded, in order.
pub open spec fn kept_items(items: Seq<CleanItem>, excluded: Seq<String>) -> Seq<CleanItem>
    decreases items.len(),
{
    if items.len() == 0 {
        Seq::<CleanItem>::empty()
    } else {
        let p = kept_items(items.drop_last(), excluded);
        if is_excluded(excluded, items.last().path@) {
            p
        } else {
            p.push(items.last())
        }
    }
}

fn excluded_contains(excluded: &Vec<String>, p: &str) -> (r: bool)
    ensures
        r == is_excluded(excluded@, p@),
{
    let mut j: usize = 0;
    while j < excluded.len()
        invariant
            j <= excluded@.len(),
            forall|k: int| 0 <= k < j ==> (#[trigger] excluded@[k])@ != p@,
        decreases excluded@.len() - j,
    {
        if str_eq(excluded[j].as_str(), p) {
            return true;
        }
        j += 1;
    }
    false
}

/// Copies of the items whose path is not excluded.
pub fn keep_unexcluded(items: &Vec<CleanItem>, excluded: &Vec<String>) -> (r: Vec<CleanItem>)
    ensures
        r@ == kept_items(items@, excluded@),
{
    let mut r: Vec<CleanItem> = Vec::new();
    let mut i: usize = 0;
    assert(items@.take(0) =~= Seq::<CleanItem>::empty());
    while i < items.len()
        invariant
            i <= items@.len(),
            r@ == kept_items(items@.take(i as int), excluded@),
        decreases items@.len() - i,
    {
        assert(items@.take(i + 1).drop_last() =~= items@.take(i as int));
        if !excluded_contains(excluded, items[i].path.as_str()) {
            r.push(items[i].duplicate());
        }
        i += 1;
    }
    assert(items@.take(items@.len() as int) =~= items@);
    r
}

/// Whether executing group `g` stops the plan before any outside call for it: it
/// keeps some item, and its id names no category or the action does not apply.
pub open spec fn group_refused(g: CategoryGroup, action: CleanAction, excluded: Seq<String>) -> bool {
    &&& kept_items(g.items@, excluded).len() > 0
    &&& (lookup_id(g.id@) is None || action_for(action, g.id@) is Err)
}

/// The error a refused group stops the plan with.
pub open spec fn refusal_is(
    e: ExecError,
    g: CategoryGroup,
    action: CleanAction,
    excluded: Seq<String>,
) -> bool {
    if lookup_id(g.id@) is None {
        e matches ExecError::UnknownCategory(id) && id@ == g.id@
    } else {
        action_for(action, g.id@) == Err::<ExecAction, ExecError>(e)
    }
}

/// What executing group `g` hands to the executor: nothing when it keeps no item,
/// else its category, the kept items and the mapped action; or the refusal.
pub fn plan_group(g: &CategoryGroup, action: CleanAction, excluded: &Vec<String>) -> (r: Result<
    Option<(Category, Vec<CleanItem>, ExecAction)>,
    ExecError,
>)
    ensures
        r is Err <==> group_refused(*g, action, excluded@),
        r matches Err(e) ==> refusal_is(e, *g, action, excluded@),
        r matches Ok(None) <==> kept_items(g.items@, excluded@).len() == 0,
        r matches Ok(Some(p)) ==> {
            &&& lookup_id(g.id@) == Some(p.0)
            &&& p.1@ == kept_items(g.items@, excluded@)
            &&& action_for(action, g.id@) == Ok::<ExecAction, ExecError>(p.2)
        },
{
    let filtered = keep_unexcluded(&g.items, excluded);
    if filtered.len() == 0 {
        return Ok(None);
    }
    let c = match category_from_id(g.id.as_str()) {
        Some(c) => c,
        None => {
            return Err(ExecError::UnknownCategory(g.id.clone()));
        },
    };
    match map_action(action, g.id.as_str()) {
        Ok(a) => Ok(Some((c, filtered, a))),
        Err(e) => Err(e),
    }
}

/// A report as plain values: removed paths, failed paths with reasons, and the app
/// a category was skipped for.
pub open spec fn full_report(r: ExecReport) -> (Seq<Seq<char>>, Seq<(Seq<char>, Seq<char>)>, Option<Seq<char>>) {
    (
        Seq::new(r.removed_paths@.len(), |i: int| r.removed_paths@[i]@),
        Seq::new(r.failed@.len(), |i: int| (r.failed@[i].0@, r.failed@[i].1@)),
        match r.skipped_running_app {
            Some(a) => Some(a@),
            None => None,
        },
    )
}

/// Two reports one after the other: paths appended, the first skipped app kept.
pub open spec fn merged(
    a: (Seq<Seq<char>>, Seq<(Seq<char>, Seq<char>)>, Option<Seq<char>>),
    b: (Seq<Seq<char>>, Seq<(Seq<char>, Seq<char>)>, Option<Seq<char>>),
) -> (Seq<Seq<char>>, Seq<(Seq<char>, Seq<char>)>, Option<Seq<char>>) {
    (a.0 + b.0, a.1 + b.1, if a.2 is None { b.2 } else { a.2 })
}

/// An execution error as plain values: its kind (in declaration order) and text.
pub open spec fn error_view(e: ExecError) -> (int, Seq<char>) {
    match e {
        ExecError::TrashNeedsHard => (0, seq![]),
        ExecError::TrashRejected => (1, seq![]),
        ExecError::NotExecutable => (2, seq![]),
        ExecError::UnknownCategory(s) => (3, s@),
        ExecError::NoProvider(s) => (4, s@),
        ExecError::Provider(s) => (5, s@),
    }
}

/// An executor's answer as plain values.
pub open spec fn exec_answer_view(a: Result<ExecReport, String>) -> Result<
    (Seq<Seq<char>>, Seq<(Seq<char>, Seq<char>)>, Option<Seq<char>>),
    Seq<char>,
> {
    match a {
        Ok(rep) => Ok(full_report(rep)),
        Err(m) => Err(m@),
    }
}

pub open spec fn exec_answers_view(v: Seq<Result<ExecReport, String>>) -> Seq<
    Result<(Seq<Seq<char>>, Seq<(Seq<char>, Seq<char>)>, Option<Seq<char>>), Seq<char>>,
> {
    Seq::new(v.len(), |i: int| exec_answer_view(v[i]))
}

/// A plan's result as plain values.
pub open spec fn exec_outcome_view(r: Result<ExecReport, ExecError>) -> Result<
    (Seq<Seq<char>>, Seq<(Seq<char>, Seq<char>)>, Option<Seq<char>>),
    (int, Seq<char>),
> {
    match r {
        Ok(rep) => Ok(full_report(rep)),
        Err(e) => Err(error_view(e)),
    }
}

/// The answer of the executor of group `k`; a group without one counts as an empty
/// report.
pub open spec fn exec_answer_at(
    ans: Seq<Result<(Seq<Seq<char>>, Seq<(Seq<char>, Seq<char>)>, Option<Seq<char>>), Seq<char>>>,
    k: int,
) -> Result<(Seq<Seq<char>>, Seq<(Seq<char>, Seq<char>)>, Option<Seq<char>>), Seq<char>> {
    if 0 <= k < ans.len() {
        ans[k]
    } else {
        Ok((seq![], seq![], None))
    }
}

/// The error a refused group stops the plan with.
pub open spec fn refusal_view(g: CategoryGroup, action: CleanAction) -> (int, Seq<char>) {
    if lookup_id(g.id@) is None {
        (3, g.id@)
    } else {
        error_view(action_for(action, g.id@)->Err_0)
    }
}

/// What running the first `n` groups of the plan gives, group by group, given the
/// answer of each group's executor: a refused group stops the plan with its refusal;
/// a group that keeps no item is passed over and its executor is not asked; an
/// executor's error stops the plan as a provider error; its report is merged after
/// the earlier ones.
pub open spec fn executed_upto(
    groups: Seq<&CategoryGroup>,
    action: CleanAction,
    excluded: Seq<String>,
    ans: Seq<Result<(Seq<Seq<char>>, Seq<(Seq<char>, Seq<char>)>, Option<Seq<char>>), Seq<char>>>,
    n: nat,
) -> Result<(Seq<Seq<char>>, Seq<(Seq<char>, Seq<char>)>, Option<Seq<char>>), (int, Seq<char>)>
    decreases n,
{
    if n == 0 {
        Ok((seq![], seq![], None))
    } else {
        let k = n - 1;
        match executed_upto(groups, action, excluded, ans, (n - 1) as nat) {
            Err(e) => Err(e),
            Ok(rv) => {
                let g = *groups[k];
                if group_refused(g, action, excluded) {
                    Err(refusal_view(g, action))
                } else if kept_items(g.items@, excluded).len() == 0 {
                    Ok(rv)
                } else {
                    match exec_answer_at(ans, k) {
                        Ok(part) => Ok(merged(rv, part)),
                        Err(m) => Err((5, m)),
                    }
                }
            },
        }
    }
}

/// What running the whole plan gives for the executors' answers.
pub open spec fn plan_result(
    groups: Seq<&CategoryGroup>,
    action: CleanAction,
    excluded: Seq<String>,
    ans: Seq<Result<(Seq<Seq<char>>, Seq<(Seq<char>, Seq<char>)>, Option<Seq<char>>), Seq<char>>>,
) -> Result<(Seq<Seq<char>>, Seq<(Seq<char>, Seq<char>)>, Option<Seq<char>>), (int, Seq<char>)> {
    executed_upto(groups, action, excluded, ans, groups.len())
}

/// Once the plan has stopped, it stays stopped with that error.
pub proof fn lemma_stop_persists(
    groups: Seq<&CategoryGroup>,
    action: CleanAction,
    excluded: Seq<String>,
    ans: Seq<Result<(Seq<Seq<char>>, Seq<(Seq<char>, Seq<char>)>, Option<Seq<char>>), Seq<char>>>,
    m: nat,
    n: nat,
)
    requires
        m <= n,
        executed_upto(groups, action, excluded, ans, m) is Err,
    ensures
        executed_upto(groups, action, excluded, ans, n) == executed_upto(groups, action, excluded, ans, m),
    decreases n - m,
{
    if m < n {
        lemma_stop_persists(groups, action, excluded, ans, m, (n - 1) as nat);
    }
}

/// When no group keeps an item, the plan succeeds with an empty report whatever the
/// answers, for no executor is asked.
pub proof fn lemma_nothing_kept(
    groups: Seq<&CategoryGroup>,
    action: CleanAction,
    excluded: Seq<String>,
    ans: Seq<Result<(Seq<Seq<char>>, Seq<(Seq<char>, Seq<char>)>, Option<Seq<char>>), Seq<char>>>,
    n: nat,
)
    requires
        n <= groups.len(),
        forall|k: int| 0 <= k < groups.len() ==> kept_items((#[trigger] groups[k]).items@, excluded).len() == 0,
    ensures
        executed_upto(groups, action, excluded, ans, n) == Ok::<
            (Seq<Seq<char>>, Seq<(Seq<char>, Seq<char>)>, Option<Seq<char>>),
            (int, Seq<char>),
        >((seq![], seq![], None)),
    decreases n,
{
    if n > 0 {
        lemma_nothing_kept(groups, action, excluded, ans, (n - 1) as nat);
        assert(kept_items(groups[n - 1].items@, excluded).len() == 0);
    }
}

/// The answers not yet consumed: those from index `i` on.
pub open spec fn exec_answers_from(v: Seq<Result<ExecReport, String>>, i: int) -> Seq<Result<ExecReport, String>> {
    if i <= v.len() {
        v.skip(i)
    } else {
        Seq::<Result<ExecReport, String>>::empty()
    }
}

/// The result of the plan for the executors' answers given, group by group (see
/// `executed_upto`); `answers[k]` is the answer for group `k`, and is ignored for a
/// group that keeps no item.
pub fn assemble_execution(
    groups: &[&CategoryGroup],
    action: CleanAction,
    excluded_paths: &Vec<String>,
    answers: Vec<Result<ExecReport, String>>,
) -> (r: Result<ExecReport, ExecError>)
    ensures
        exec_outcome_view(r) == plan_result(groups@, action, excluded_paths@, exec_answers_view(answers@)),
{
    let ghost orig = answers@;
    let ghost ans = exec_answers_view(answers@);
    let mut rest = answers;
    let mut report = ExecReport::new();
    let mut i: usize = 0;
    assert(rest@ =~= exec_answers_from(orig, 0));
    assert(full_report(report) =~= (seq![], seq![], None));
    while i < groups.len()
        invariant
            i <= groups@.len(),
            orig == answers@,
            ans == exec_answers_view(orig),
            rest@ == exec_answers_from(orig, i as int),
            executed_upto(groups@, action, excluded_paths@, ans, i as nat) == Ok::<
                (Seq<Seq<char>>, Seq<(Seq<char>, Seq<char>)>, Option<Seq<char>>),
                (int, Seq<char>),
            >(full_report(report)),
        decreases groups@.len() - i,
    {
        let ghost k = i as int;
        let a = if rest.len() > 0 {
            rest.remove(0)
        } else {
            Ok(ExecReport::new())
        };
        proof {
            assert(rest@ =~= exec_answers_from(orig, k + 1));
            if k < orig.len() {
                assert(a == orig[k]);
            } else {
                assert(full_report(a->Ok_0) =~= (seq![], seq![], None));
            }
            assert(exec_answer_view(a) == exec_answer_at(ans, k));
        }
        let ghost before = full_report(report);
        let g: &CategoryGroup = groups[i];
        i += 1;
        match plan_group(g, action, excluded_paths) {
            Err(e) => {
                proof {
                    lemma_stop_persists(groups@, action, excluded_paths@, ans, (k + 1) as nat, groups@.len());
                }
                return Err(e);
            },
            Ok(None) => {},
            Ok(Some(_)) => {
                match a {
                    Ok(part) => {
                        let ghost pv = full_report(part);
                        report.merge(part);
                        proof {
                            assert(full_report(report).0 =~= before.0 + pv.0);
                            assert(full_report(report).1 =~= before.1 + pv.1);
                        }
                    },
                    Err(msg) => {
                        proof {
                            lemma_stop_persists(groups@, action, excluded_paths@, ans, (k + 1) as nat, groups@.len());
                        }
                        return Err(ExecError::Provider(msg));
                    },
                }
            },
        }
    }
    Ok(report)
}

/// Whether `a` is what the executor of group `g` answered when the plan ran it: for a
/// group that keeps items, an answer the I/O layer can give when asked to execute the
/// mapped action on exactly the group's kept items, in the group's category; for one
/// that keeps none, an empty report, for nobody is asked.
pub open spec fn executor_asked<S: ProviderIo>(
    io: &S,
    g: CategoryGroup,
    action: CleanAction,
    excluded: Seq<String>,
    a: Result<(Seq<Seq<char>>, Seq<(Seq<char>, Seq<char>)>, Option<Seq<char>>), Seq<char>>,
) -> bool {
    if kept_items(g.items@, excluded).len() == 0 {
        a == Ok::<(Seq<Seq<char>>, Seq<(Seq<char>, Seq<char>)>, Option<Seq<char>>), Seq<char>>(
            (seq![], seq![], None),
        )
    } else {
        io.execute_answer(
            lookup_id(g.id@)->Some_0,
            kept_items(g.items@, excluded),
            action_for(action, g.id@)->Ok_0,
            a,
        )
    }
}

/// Whether group `g` was run, not refused, and `a` is its executor's answer as
/// `executor_asked` says.
pub open spec fn ran_as_asked<S: ProviderIo>(
    io: &S,
    g: CategoryGroup,
    action: CleanAction,
    excluded: Seq<String>,
    a: Result<(Seq<Seq<char>>, Seq<(Seq<char>, Seq<char>)>, Option<Seq<char>>), Seq<char>>,
) -> bool {
    !group_refused(g, action, excluded) && executor_asked(io, g, action, excluded, a)
}

/// Whether `ans` holds, in order, the executors' answers for the groups the plan ran:
/// one per group run, none refused, each answer as `executor_asked` says; every answer
/// before the last is a report; the run ends before the last group only at a refused
/// group or after an executor's error.
pub open spec fn executors_asked<S: ProviderIo>(
    io: &S,
    groups: Seq<&CategoryGroup>,
    action: CleanAction,
    excluded: Seq<String>,
    ans: Seq<Result<(Seq<Seq<char>>, Seq<(Seq<char>, Seq<char>)>, Option<Seq<char>>), Seq<char>>>,
) -> bool {
    &&& ans.len() <= groups.len()
    &&& forall|k: int|
        0 <= k < ans.len() ==> ran_as_asked(io, *groups[k], action, excluded, #[trigger] ans[k])
    &&& forall|k: int| 0 <= k < ans.len() - 1 ==> (#[trigger] ans[k]) is Ok
    &&& ans.len() < groups.len() ==> (group_refused(*groups[ans.len() as int], action, excluded) || (ans.len() > 0
        && ans[ans.len() - 1] is Err))
}

/// One more answer, for the next group, as `executor_asked` says, keeps every answer
/// so far as the plan asked it.
proof fn lemma_one_more_asked<S: ProviderIo>(
    io: &S,
    groups: Seq<&CategoryGroup>,
    action: CleanAction,
    excluded: Seq<String>,
    ans: Seq<Result<(Seq<Seq<char>>, Seq<(Seq<char>, Seq<char>)>, Option<Seq<char>>), Seq<char>>>,
    a: Result<(Seq<Seq<char>>, Seq<(Seq<char>, Seq<char>)>, Option<Seq<char>>), Seq<char>>,
)
    requires
        ans.len() < groups.len(),
        forall|k: int|
            0 <= k < ans.len() ==> ran_as_asked(io, *groups[k], action, excluded, #[trigger] ans[k]),
        !group_refused(*groups[ans.len() as int], action, excluded),
        executor_asked(io, *groups[ans.len() as int], action, excluded, a),
    ensures
        forall|k: int|
            0 <= k < ans.len() + 1 ==> ran_as_asked(io, *groups[k], action, excluded, #[trigger] ans.push(a)[k]),
{
    assert forall|k: int| 0 <= k < ans.len() + 1 implies ran_as_asked(io, *groups[k], action, excluded, #[trigger] ans.push(a)[k]) by {
        if k < ans.len() {
            assert(ans.push(a)[k] == ans[k]);
        }
    }
}

/// Runs the plan group by group: drops the excluded items, passes over groups left
/// with none, stops at the first refused group, hands each other group's kept items
/// and mapped action to the executor of its category, stops at an executor's error,
/// and merges their reports in order. The result is what `assemble_execution` makes
/// of the executors' answers so asked (see `executor_asked`); when no group keeps an
/// item, no executor is asked and the report is empty.
pub fn execute_with_providers<S: ProviderIo>(
    groups: &[&CategoryGroup],
    action: CleanAction,
    excluded_paths: &Vec<String>,
    io: &S,
) -> (r: Result<ExecReport, ExecError>)
    ensures
        exists|ans: Seq<Result<(Seq<Seq<char>>, Seq<(Seq<char>, Seq<char>)>, Option<Seq<char>>), Seq<char>>>|
            #[trigger] executors_asked(io, groups@, action, excluded_paths@, ans) && exec_outcome_view(r)
                == plan_result(groups@, action, excluded_paths@, ans),
        (forall|k: int|
            0 <= k < groups@.len() ==> kept_items((#[trigger] groups@[k]).items@, excluded_paths@).len() == 0)
            ==> (r matches Ok(rep) && full_report(rep) == (Seq::<Seq<char>>::empty(), Seq::<
            (Seq<char>, Seq<char>),
        >::empty(), Option::<Seq<char>>::None)),
{
    let mut answers: Vec<Result<ExecReport, String>> = Vec::new();
    let mut i: usize = 0;
    while i < groups.len()
        invariant_except_break
            i <= groups@.len(),
            answers@.len() == i,
            forall|k: int|
                0 <= k < i ==> ran_as_asked(io, *groups@[k], action, excluded_paths@, #[trigger] exec_answers_view(answers@)[k]),
            forall|k: int| 0 <= k < i ==> (#[trigger] exec_answers_view(answers@)[k]) is Ok,
        ensures
            answers@.len() <= groups@.len(),
            forall|k: int|
                0 <= k < answers@.len() ==> ran_as_asked(io, *groups@[k], action, excluded_paths@, #[trigger] exec_answers_view(answers@)[k]),
            forall|k: int| 0 <= k < answers@.len() - 1 ==> (#[trigger] exec_answers_view(answers@)[k]) is Ok,
            answers@.len() < groups@.len() ==> (group_refused(*groups@[answers@.len() as int], action, excluded_paths@)
                || (answers@.len() > 0 && exec_answers_view(answers@)[answers@.len() - 1] is Err)),
        decreases groups@.len() - i,
    {
        let g: &CategoryGroup = groups[i];
        let ghost before = exec_answers_view(answers@);
        i += 1;
        match plan_group(g, action, excluded_paths) {
            Err(_) => {
                proof {
                    assert(before =~= exec_answers_view(answers@));
                }
                break;
            },
            Ok(None) => {
                let a: Result<ExecReport, String> = Ok(ExecReport::new());
                proof {
                    assert(full_report(a->Ok_0) =~= (seq![], seq![], None));
                }
                answers.push(a);
                proof {
                    lemma_one_more_asked(io, groups@, action, excluded_paths@, before, exec_answer_view(a));
                    assert(exec_answers_view(answers@) =~= before.push(exec_answer_view(a)));
                }
            },
            Ok(Some((c, filtered, exec_action))) => {
                let answer = io.execute(c, filtered.as_slice(), exec_action);
                let failed = answer.is_err();
                let ghost av = exec_answer_view(answer);
                answers.push(answer);
                proof {
                    lemma_one_more_asked(io, groups@, action, excluded_paths@, before, av);
                    assert(exec_answers_view(answers@) =~= before.push(av));
                }
                if failed {
                    break;
                }
            },
        }
    }
    let ghost ans = exec_answers_view(answers@);
    let r = assemble_execution(groups, action, excluded_paths, answers);
    proof {
        if forall|k: int|
            0 <= k < groups@.len() ==> kept_items((#[trigger] groups@[k]).items@, excluded_paths@).len() == 0 {
            lemma_nothing_kept(groups@, action, excluded_paths@, ans, groups@.len());
            assert(r is Ok);
        }
        assert(executors_asked(io, groups@, action, excluded_paths@, ans));
    }
    r
}

/// Whether some group of the plan is the `trash` group.
pub open spec fn plan_has_trash(groups: Seq<&CategoryGroup>) -> bool {
    exists|i: int| 0 <= i < groups.len() && (#[trigger] groups[i]).id@ == trash_id()
}

/// Runs the plan; a plan holding the `trash` group refuses `Trash` before any
/// executor is asked (whatever the executors would answer).
pub fn execute<S: ProviderIo>(
    groups: &[&CategoryGroup],
    action: CleanAction,
    excluded_paths: &Vec<String>,
    io: &S,
) -> (r: Result<ExecReport, ExecError>)
    ensures
        plan_has_trash(groups@) && action == CleanAction::Trash ==> r matches Err(
            ExecError::TrashNeedsHard,
        ),
        !(plan_has_trash(groups@) && action == CleanAction::Trash) ==> exists|
            ans: Seq<Result<(Seq<Seq<char>>, Seq<(Seq<char>, Seq<char>)>, Option<Seq<char>>), Seq<char>>>,
        |
            #[trigger] executors_asked(io, groups@, action, excluded_paths@, ans) && exec_outcome_view(r)
                == plan_result(groups@, action, excluded_paths@, ans),
        !(plan_has_trash(groups@) && action == CleanAction::Trash) && (forall|k: int|
            0 <= k < groups@.len() ==> kept_items((#[trigger] groups@[k]).items@, excluded_paths@).len() == 0)
            ==> (r matches Ok(rep) && full_report(rep) == (Seq::<Seq<char>>::empty(), Seq::<
            (Seq<char>, Seq<char>),
        >::empty(), Option::<Seq<char>>::None)),
{
    let mut has_trash = false;
    let mut i: usize = 0;
    while i < groups.len()
        invariant
            i <= groups@.len(),
            has_trash == exists|j: int| 0 <= j < i && (#[trigger] groups@[j]).id@ == trash_id(),
        decreases groups@.len() - i,
    {
        if str_eq(groups[i].id.as_str(), "trash") {
            has_trash = true;
        }
        i += 1;
    }
    if has_trash && action == CleanAction::Trash {
        return Err(ExecError::TrashNeedsHard);
    }
    execute_with_providers(groups, action, excluded_paths, io)
}

/// Succeeds when some category of `providers` carries the id `id`.
pub fn ensure_provider_exists(providers: &[Category], id: &str) -> (r: Result<(), ExecError>)
    ensures
        r is Ok <==> exists|i: int| 0 <= i < providers@.len() && id_of(#[trigger] providers@[i]) == id@,
        r matches Err(e) ==> e matches ExecError::NoProvider(s) && s@ == id@,
{
    let mut i: usize = 0;
    while i < providers.len()
        invariant
            i <= providers@.len(),
            forall|j: int| 0 <= j < i ==> id_of(#[trigger] providers@[j]) != id@,
        decreases providers@.len() - i,
    {
        if str_eq(providers[i].id(), id) {
            return Ok(());
        }
        i += 1;
    }
    Err(ExecError::NoProvider(String::from_str(id)))
}

} // verus!
