//! Subprocess abstraction for providers that shell out (`docker`, `go`, `tmutil`,
//! `mdfind`, `defaults`, `getconf`, ...), behind a trait so callers can inject
//! answers.
use vstd::prelude::*;

verus! {

/// Outcome of one subprocess run. Failures (spawn error, non-utf8 output,
/// non-zero exit) collapse to `success == false`, `stdout == ""`.
#[derive(Debug, Clone)]
pub struct CommandOutput {
    pub success: bool,
    pub stdout: String,
}

/// The texts of a sequence of string slices.
pub open spec fn arg_texts(v: Seq<&str>) -> Seq<Seq<char>> {
    Seq::new(v.len(), |i: int| v[i]@)
}

/// A command runner. Its two relations say which answers it may give; a runner that
/// does not narrow them may give any answer, so callers learn of an answer only by
/// asking for it.
pub trait CommandRunner {
    /// Whether `answer` is an answer this runner can give to `which bin`.
    open spec fn which_answer(&self, bin: Seq<char>, answer: bool) -> bool {
        true
    }

    /// Whether `(success, stdout)` is an answer this runner can give to running
    /// `bin` with `args`.
    open spec fn run_answer(&self, bin: Seq<char>, args: Seq<Seq<char>>, success: bool, stdout: Seq<char>) -> bool {
        true
    }

    /// Returns true iff `which <bin>` succeeds.
    fn which(&self, bin: &str) -> (r: bool)
        ensures
            self.which_answer(bin@, r),
    ;

    /// Runs `bin args...`, returning `(success, stdout)`.
    fn run(&self, bin: &str, args: &[&str]) -> (r: CommandOutput)
        ensures
            self.run_answer(bin@, arg_texts(args@), r.success, r.stdout@),
    ;
}

} // verus!
