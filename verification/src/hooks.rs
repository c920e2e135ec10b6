//! The pre-push gate: which commits the hooks are run on, and what their
//! outcome means for the submission.

use vstd::prelude::*;

use crate::error::{ErrorView, JjGtError};
use crate::text::opt_view;

verus! {

/// A program that runs hooks.
#[derive(Debug, Clone, Copy, PartialEq, Eq, Structural)]
pub enum Runner {
    PreCommit,
    Prek,
    Lefthook,
    Hk,
}

/// How the hooks are run.
#[derive(Debug, Clone, Copy, PartialEq, Eq, Structural)]
pub struct HookOpts {
    /// The runner to use in place of the one that is detected from the commit
    /// that is pushed.
    pub runner_override: Option<Runner>,
}

impl Default for HookOpts {
    fn default() -> (res: Self)
        ensures
            res.runner_override is None,
    {
        HookOpts { runner_override: None }
    }
}

/// What a hook run did.
#[derive(Debug, PartialEq, Eq)]
pub struct HookOutcome {
    /// Every hook succeeded.
    pub success: bool,
    /// The commit that holds what the hooks changed, if they changed anything.
    pub fixup_commit: Option<String>,
}

/// The contents of a [`HookOutcome`].
pub struct OutcomeView {
    pub success: bool,
    pub fixup_commit: Option<Seq<char>>,
}

impl View for HookOutcome {
    type V = OutcomeView;

    open spec fn view(&self) -> OutcomeView {
        OutcomeView { success: self.success, fixup_commit: opt_view(self.fixup_commit) }
    }
}

/// The revset that `git push` would send for a stack: everything up to `tip`
/// that is not in `trunk`.
pub open spec fn push_range(trunk: Seq<char>, tip: Seq<char>) -> Seq<char> {
    trunk + ".."@ + tip
}

/// Why a hook run on `revset` stops the submission, if it does. An empty
/// revset has nothing to gate; a clean run lets it pass; failing hooks stop it,
/// and so do hooks that changed files, since what is pushed would not be what
/// they left behind.
pub open spec fn gate_error(revset: Seq<char>, outcome: Option<OutcomeView>) -> Option<ErrorView> {
    match outcome {
        None => None,
        Some(run) => if !run.success {
            Some(ErrorView::Invalid("pre-push hooks failed for revset `"@ + revset + "`"@))
        } else {
            match run.fixup_commit {
                None => None,
                Some(commit) => Some(
                    ErrorView::Invalid(
                        "pre-push hooks modified files (fixup commit "@ + commit
                            + "); squash it into the relevant bookmark and re-run `jj-gt submit`"@,
                    ),
                ),
            }
        },
    }
}

/// The revset that the pre-push hooks are run on.
pub fn pre_push_revset(trunk: &str, tip: &str) -> (res: String)
    ensures
        res@ == push_range(trunk@, tip@),
        res@.len() == trunk@.len() + 2 + tip@.len(),
        res@.take(trunk@.len() as int) == trunk@,
        res@[trunk@.len() as int] == '.' && res@[trunk@.len() as int + 1] == '.',
        res@.skip(trunk@.len() as int + 2) == tip@,
{
    proof {
        range_runs_from_trunk_to_tip(trunk@, tip@);
    }
    trunk.to_owned().concat("..").concat(tip)
}

/// Judges the outcome of the pre-push hooks on `revset`: `Ok` lets the
/// submission go on, an error stops it and says why.
pub fn judge_pre_push(revset: &str, outcome: Option<HookOutcome>) -> (res: Result<(), JjGtError>)
    ensures
        match res {
            Ok(()) => gate_error(revset@, opt_view(outcome)) is None,
            Err(error) => gate_error(revset@, opt_view(outcome)) == Some(error@),
        },
        res is Ok <==> (outcome is None || (outcome->0.success && outcome->0.fixup_commit is None)),
        outcome is Some && !outcome->0.success ==> res->Err_0 is Invalid && res->Err_0->Invalid_0@
            == "pre-push hooks failed for revset `"@ + revset@ + "`"@,
        outcome is Some && outcome->0.success && outcome->0.fixup_commit is Some
            ==> res->Err_0 is Invalid && res->Err_0->Invalid_0@
            == "pre-push hooks modified files (fixup commit "@ + outcome->0.fixup_commit->0@
            + "); squash it into the relevant bookmark and re-run `jj-gt submit`"@,
{
    match outcome {
        None => Ok(()),
        Some(run) => {
            if !run.success {
                return Err(
                    JjGtError::Invalid(
                        "pre-push hooks failed for revset `".to_owned().concat(revset).concat("`"),
                    ),
                );
            }
            match run.fixup_commit {
                None => Ok(()),
                Some(commit) => Err(
                    JjGtError::Invalid(
                        "pre-push hooks modified files (fixup commit ".to_owned().concat(
                            commit.as_str(),
                        ).concat(
                            "); squash it into the relevant bookmark and re-run `jj-gt submit`",
                        ),
                    ),
                ),
            }
        },
    }
}

/// A push passes exactly if there is nothing to push, or the hooks succeeded and
/// changed nothing. Where hooks both failed and changed files, the failure is
/// what is told.
pub proof fn only_clean_runs_pass(revset: Seq<char>, outcome: Option<OutcomeView>)
    ensures
        gate_error(revset, outcome) is None <==> (outcome matches Some(run) ==> run.success
            && run.fixup_commit is None),
        outcome matches Some(run) ==> !run.success ==> gate_error(revset, outcome) == Some(
            ErrorView::Invalid("pre-push hooks failed for revset `"@ + revset + "`"@),
        ),
{
}

/// The range that is pushed begins with trunk, goes on with two dots and ends with
/// the tip, and holds nothing else.
pub proof fn range_runs_from_trunk_to_tip(trunk: Seq<char>, tip: Seq<char>)
    ensures
        push_range(trunk, tip).len() == trunk.len() + 2 + tip.len(),
        push_range(trunk, tip).take(trunk.len() as int) == trunk,
        push_range(trunk, tip)[trunk.len() as int] == '.',
        push_range(trunk, tip)[trunk.len() as int + 1] == '.',
        push_range(trunk, tip).skip(trunk.len() as int + 2) == tip,
{
    reveal_strlit("..");
    let range = push_range(trunk, tip);
    assert(range.take(trunk.len() as int) =~= trunk);
    assert(range.skip(trunk.len() as int + 2) =~= tip);
}

/// Hooks that succeeded and left a commit behind stop the push with the name of that
/// commit and the way on; hooks that failed stop it with the range that they ran on.
pub proof fn stopped_pushes_say_why(
    revset: Seq<char>,
    success: bool,
    fixup_commit: Option<Seq<char>>,
)
    ensures
        !success ==> gate_error(revset, Some(OutcomeView { success, fixup_commit })) == Some(
            ErrorView::Invalid("pre-push hooks failed for revset `"@ + revset + "`"@),
        ),
        success && fixup_commit is Some ==> gate_error(
            revset,
            Some(OutcomeView { success, fixup_commit }),
        ) == Some(
            ErrorView::Invalid(
                "pre-push hooks modified files (fixup commit "@ + fixup_commit->0
                    + "); squash it into the relevant bookmark and re-run `jj-gt submit`"@,
            ),
        ),
        success && fixup_commit is None ==> gate_error(
            revset,
            Some(OutcomeView { success, fixup_commit }),
        ) is None,
        gate_error(revset, None) is None,
{
}

/// The view of an outcome tells of the same success and the same commit.
pub proof fn outcome_views(outcome: HookOutcome)
    ensures
        outcome@.success == outcome.success,
        outcome@.fixup_commit is Some <==> outcome.fixup_commit is Some,
        outcome.fixup_commit matches Some(commit) ==> outcome@.fixup_commit == Some(commit@),
{
}

} // verus!
