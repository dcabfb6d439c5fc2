//! Pre-execution validation of `clean` flag combinations. Refusing early gives
//! the user a clear error before discovery runs.
use vstd::prelude::*;
use crate::cli::CleanOpts;
use crate::clean::registry::{catalogue, category_from_id, id_of, is_known_id, known_category_ids};
use crate::text::{append_joined, append_str, join};

verus! {

broadcast use vstd::string::group_string_axioms;

/// Why a flag combination is refused.
#[derive(Debug)]
pub enum ValidationError {
    /// A `--category` value that names no category.
    UnknownCategory(String),
    /// `--idle-days 0`.
    ZeroIdleDays,
    /// `--include-destructive --hard --yes` without `--category`.
    DestructiveHardYesWithoutCategory,
    /// `--yes` without `--category`.
    YesWithoutCategory,
    /// `--hard --yes` without `TINY_CONFIRM_HARD=1`.
    HardYesWithoutConfirm,
}

/// The ids accepted by `--category`, joined by ", ".
pub open spec fn valid_ids_text() -> Seq<char> {
    join(catalogue().map_values(|c| id_of(c)), ", "@)
}

pub open spec fn error_text(e: ValidationError) -> Seq<char> {
    match e {
        ValidationError::UnknownCategory(c) => "unknown --category '"@ + c@ + "'. valid: "@
            + valid_ids_text(),
        ValidationError::ZeroIdleDays => "--idle-days must be > 0"@,
        ValidationError::DestructiveHardYesWithoutCategory =>
            "--include-destructive --hard --yes requires --category to specify scope"@,
        ValidationError::YesWithoutCategory => "--yes requires --category to specify scope"@,
        ValidationError::HardYesWithoutConfirm =>
            "--hard with --yes requires TINY_CONFIRM_HARD=1 in the environment"@,
    }
}

impl ValidationError {
    /// The message shown to the user.
    pub fn to_string(&self) -> (r: String)
        ensures
            r@ == error_text(*self),
    {
        let mut s = String::new();
        match self {
            ValidationError::UnknownCategory(c) => {
                append_str(&mut s, "unknown --category '");
                append_str(&mut s, c.as_str());
                append_str(&mut s, "'. valid: ");
                let ids = known_category_ids();
                append_joined(&mut s, &ids, ", ");
                assert(ids@.map_values(|p: &str| p@) =~= catalogue().map_values(|c| id_of(c)));
            },
            ValidationError::ZeroIdleDays => append_str(&mut s, "--idle-days must be > 0"),
            ValidationError::DestructiveHardYesWithoutCategory => append_str(
                &mut s,
                "--include-destructive --hard --yes requires --category to specify scope",
            ),
            ValidationError::YesWithoutCategory => append_str(
                &mut s,
                "--yes requires --category to specify scope",
            ),
            ValidationError::HardYesWithoutConfirm => append_str(
                &mut s,
                "--hard with --yes requires TINY_CONFIRM_HARD=1 in the environment",
            ),
        }
        assert(s@ =~= error_text(*self));
        s
    }
}

/// Position of the first `--category` value that names no category.
pub open spec fn first_unknown(cats: Seq<String>) -> Option<int> {
    if exists|i: int| 0 <= i < cats.len() && !is_known_id(#[trigger] cats[i]@) {
        Some(choose|i: int|
            0 <= i < cats.len() && !is_known_id(#[trigger] cats[i]@) && forall|j: int|
                0 <= j < i ==> is_known_id(#[trigger] cats[j]@))
    } else {
        None
    }
}

/// The refusal owed for `opts`, checked in this order: unknown categories, a zero idle
/// threshold, `--include-destructive --hard --yes` without scope, `--yes` without scope,
/// `--hard --yes` without the confirmation variable.
pub open spec fn refusal(opts: CleanOpts, confirm_hard_env: bool) -> Option<ValidationError> {
    let cats = opts.category@;
    if first_unknown(cats) is Some {
        Some(ValidationError::UnknownCategory(cats[first_unknown(cats)->0]))
    } else if opts.idle_days == 0 {
        Some(ValidationError::ZeroIdleDays)
    } else if opts.include_destructive && opts.hard && opts.yes && cats.len() == 0 {
        Some(ValidationError::DestructiveHardYesWithoutCategory)
    } else if opts.yes && cats.len() == 0 {
        Some(ValidationError::YesWithoutCategory)
    } else if opts.hard && opts.yes && !confirm_hard_env {
        Some(ValidationError::HardYesWithoutConfirm)
    } else {
        None
    }
}

/// Checks the flag combination; `confirm_hard_env` says whether `TINY_CONFIRM_HARD=1`
/// is set.
pub fn validate_with_env(opts: &CleanOpts, confirm_hard_env: bool) -> (r: Result<(), ValidationError>)
    ensures
        r is Ok <==> refusal(*opts, confirm_hard_env) is None,
        r matches Err(e) ==> refusal(*opts, confirm_hard_env) == Some(e),
{
    let mut i: usize = 0;
    while i < opts.category.len()
        invariant
            i <= opts.category@.len(),
            forall|j: int| 0 <= j < i ==> is_known_id(#[trigger] opts.category@[j]@),
        decreases opts.category@.len() - i,
    {
        if category_from_id(opts.category[i].as_str()).is_none() {
            let ghost cats = opts.category@;
            assert(first_unknown(cats) == Some(i as int)) by {
                assert(0 <= i < cats.len() && !is_known_id(cats[i as int]@));
                let k = choose|k: int|
                    0 <= k < cats.len() && !is_known_id(#[trigger] cats[k]@) && forall|j: int|
                        0 <= j < k ==> is_known_id(#[trigger] cats[j]@);
                assert(forall|j: int| 0 <= j < i ==> is_known_id(#[trigger] cats[j]@));
                if k < i {
                    assert(is_known_id(cats[k]@));
                } else if k > i {
                    assert(is_known_id(cats[i as int]@));
                }
            }
            return Err(ValidationError::UnknownCategory(opts.category[i].clone()));
        }
        i += 1;
    }
    assert(first_unknown(opts.category@) is None);
    if opts.idle_days == 0 {
        return Err(ValidationError::ZeroIdleDays);
    }
    if opts.include_destructive && opts.hard && opts.yes && opts.category.len() == 0 {
        return Err(ValidationError::DestructiveHardYesWithoutCategory);
    }
    if opts.yes && opts.category.len() == 0 {
        return Err(ValidationError::YesWithoutCategory);
    }
    if opts.hard && opts.yes && !confirm_hard_env {
        return Err(ValidationError::HardYesWithoutConfirm);
    }
    Ok(())
}

} // verus!
