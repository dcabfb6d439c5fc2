//! Running-app detection, behind a trait so callers can inject answers.
use vstd::prelude::*;

verus! {

/// A running-app checker. Its relation says which answers it may give; a checker
/// that does not narrow it may give any answer, so callers learn of an answer only
/// by asking for it.
pub trait ProcessChecker {
    /// Whether `answer` is an answer this checker can give about `name`.
    open spec fn running_answer(&self, name: Seq<char>, answer: bool) -> bool {
        true
    }

    /// Returns true if any process is currently running with the given name.
    fn is_running(&self, name: &str) -> (r: bool)
        ensures
            self.running_answer(name@, r),
    ;
}

/// Whether the answers to the first `answers.len()` names say what `any_running`
/// returned: it asks about each name in order, stops at the first one reported
/// running, and returns whether it found one.
pub open spec fn asked_in_order(n: nat, answers: Seq<bool>, r: bool) -> bool {
    &&& answers.len() <= n
    &&& forall|k: int| 0 <= k < answers.len() - 1 ==> !#[trigger] answers[k]
    &&& r == (answers.len() > 0 && answers[answers.len() - 1])
    &&& !r ==> answers.len() == n
}

/// Whether the checker's answers, one per name asked, report any name running.
pub fn running_verdict(answers: &Vec<bool>) -> (r: bool)
    ensures
        r == answers@.contains(true),
{
    let mut i: usize = 0;
    while i < answers.len()
        invariant
            i <= answers@.len(),
            forall|k: int| 0 <= k < i ==> !#[trigger] answers@[k],
        decreases answers@.len() - i,
    {
        if answers[i] {
            return true;
        }
        i += 1;
    }
    false
}

/// Returns true if any of the given names is running; asks the checker about
/// each name in order, stops at the first running one, and returns the
/// `running_verdict` of the answers.
pub fn any_running<C: ProcessChecker>(checker: &C, names: &[&str]) -> (r: bool)
    ensures
        exists|answers: Seq<bool>|
            {
                &&& asked_in_order(names@.len(), answers, r)
                &&& forall|k: int|
                    0 <= k < answers.len() ==> checker.running_answer(#[trigger] names@[k]@, answers[k])
            },
        names@.len() == 0 ==> !r,
{
    let mut answers: Vec<bool> = Vec::new();
    let mut i: usize = 0;
    while i < names.len()
        invariant_except_break
            i <= names@.len(),
            answers@.len() == i,
            forall|k: int| 0 <= k < answers@.len() ==> !#[trigger] answers@[k],
            forall|k: int| 0 <= k < answers@.len() ==> checker.running_answer(#[trigger] names@[k]@, answers@[k]),
        ensures
            answers@.len() <= names@.len(),
            forall|k: int| 0 <= k < answers@.len() ==> checker.running_answer(#[trigger] names@[k]@, answers@[k]),
            forall|k: int| 0 <= k < answers@.len() - 1 ==> !#[trigger] answers@[k],
            (answers@.len() > 0 && answers@[answers@.len() - 1]) || (answers@.len() == names@.len() && forall|k: int|
                0 <= k < answers@.len() ==> !#[trigger] answers@[k]),
        decreases names@.len() - i,
    {
        let busy = checker.is_running(names[i]);
        answers.push(busy);
        if busy {
            break;
        }
        i += 1;
    }
    let r = running_verdict(&answers);
    proof {
        if answers@.len() > 0 && answers@[answers@.len() - 1] {
            assert(answers@.contains(true));
            assert(asked_in_order(names@.len(), answers@, true));
        } else {
            assert(!answers@.contains(true));
            assert(asked_in_order(names@.len(), answers@, false));
        }
    }
    r
}

} // verus!
