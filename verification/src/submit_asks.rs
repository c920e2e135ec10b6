//! What a `jj-gt submit` pipeline asks for, word by word: the lines, the
//! arguments and the commands, in terms of what was requested and what was
//! replied.

use vstd::prelude::*;

use crate::command::{CommandView, ReplyView};
use crate::error::ErrorView;
use crate::hooks::OutcomeView;
use crate::stack::{tip_of, ParentView, StackedView};
use crate::submit_laws::{
    answered, sound, stack_told, submit_after, submit_is_sound, submit_keeps_the_stack_told,
    submit_stays_sound, SubmitRequest,
};
use crate::submit_model::{
    follow_steps, submit_argv, submit_or_say, submit_step, track_or_say, track_steps, warning,
    SubmitOpts, SubmitOptsView, SubmitPhase, SubmitView,
};

verus! {

/// The view of the options holds each text and each switch in its own place.
pub proof fn submit_option_views(opts: SubmitOpts)
    ensures
        opts@.remote == opts.remote@,
        opts@.flags == opts.flags@.map(|i: int, flag: String| flag@),
        opts@.dry_run == opts.dry_run,
        opts@.no_export == opts.no_export,
        opts@.no_hooks == opts.no_hooks,
        opts@.hooks.runner_override == opts.hooks.runner_override,
        opts@.no_restore_cwc == opts.no_restore_cwc,
{
}

/// A real run tracks a bookmark on its parent; a dry run prints the command line
/// that would: first the bookmark, then, behind `--parent`, the parent.
pub proof fn tracking_names_bookmark_then_parent(name: Seq<char>, parent: Seq<char>)
    ensures
        track_or_say(false, name, parent) == (CommandView::GtTrack { name, parent }),
        track_or_say(true, name, parent) matches CommandView::Print(line) && {
            &&& line.len() == name.len() + parent.len() + 26
            &&& line.take(16) == "would: gt track "@
            &&& line.skip(16).take(name.len() as int) == name
            &&& line.skip(name.len() as int + 16).take(10) == " --parent "@
            &&& line.skip(name.len() as int + 26) == parent
        },
{
    reveal_strlit("would: gt track ");
    reveal_strlit(" --parent ");
    let line = "would: gt track "@ + name + " --parent "@ + parent;
    assert(line.take(16) =~= "would: gt track "@);
    assert(line.skip(16).take(name.len() as int) =~= name);
    assert(line.skip(name.len() as int + 16).take(10) =~= " --parent "@);
    assert(line.skip(name.len() as int + 26) =~= parent);
}

/// A stack is tracked entry by entry, each on the bookmark that it is stacked on, or
/// on trunk.
pub proof fn stack_is_tracked_in_order(trunk: Seq<char>, order: Seq<StackedView>, i: int)
    requires
        0 <= i < order.len(),
    ensures
        track_steps(false, trunk, order).len() == order.len(),
        track_steps(true, trunk, order).len() == order.len(),
        order[i].parent matches ParentView::Bookmark(parent) ==> track_steps(
            false,
            trunk,
            order,
        )[i] == (CommandView::GtTrack { name: order[i].name, parent }),
        order[i].parent is Trunk ==> track_steps(false, trunk, order)[i] == (
        CommandView::GtTrack { name: order[i].name, parent: trunk }),
        order[i].parent matches ParentView::Bookmark(parent) ==> track_steps(
            true,
            trunk,
            order,
        )[i] == CommandView::Print(
            "would: gt track "@ + order[i].name + " --parent "@ + parent,
        ),
        order[i].parent is Trunk ==> track_steps(true, trunk, order)[i] == CommandView::Print(
            "would: gt track "@ + order[i].name + " --parent "@ + trunk,
        ),
{
}

/// A stack is submitted by its tip: `submit --stack --branch`, the tip, and behind it
/// the further arguments in their order.
pub proof fn submission_goes_by_the_tip(tip: Seq<char>, flags: Seq<Seq<char>>, i: int)
    requires
        0 <= i < flags.len(),
    ensures
        submit_argv(tip, flags).len() == flags.len() + 4,
        submit_argv(tip, flags)[0] == "submit"@,
        submit_argv(tip, flags)[1] == "--stack"@,
        submit_argv(tip, flags)[2] == "--branch"@,
        submit_argv(tip, flags)[3] == tip,
        submit_argv(tip, flags)[i + 4] == flags[i],
{
}

/// Without further arguments the tip comes last.
pub proof fn submission_without_flags(tip: Seq<char>)
    ensures
        submit_argv(tip, Seq::empty()) == seq!["submit"@, "--stack"@, "--branch"@, tip],
{
    assert(submit_argv(tip, Seq::empty()) =~= seq!["submit"@, "--stack"@, "--branch"@, tip]);
}

/// A real run hands the arguments to `gt`; a dry run prints the command line that
/// would: the fixed words, the tip, and one more word for every further argument.
pub proof fn submission_is_done_or_said(
    opts: SubmitOptsView,
    tip: Seq<char>,
    flag: Seq<char>,
)
    ensures
        !opts.dry_run ==> submit_or_say(opts, tip) == (CommandView::GtSubmit {
            argv: seq!["submit"@, "--stack"@, "--branch"@, tip] + opts.flags,
        }),
        opts.dry_run && opts.flags.len() == 0 ==> submit_or_say(opts, tip) == CommandView::Print(
            "would: gt "@ + ("submit"@ + " "@ + "--stack"@ + " "@ + "--branch"@ + " "@ + tip),
        ),
        opts.dry_run ==> {
            let more = SubmitOptsView { flags: opts.flags.push(flag), ..opts };
            &&& submit_or_say(opts, tip) is Print
            &&& submit_or_say(more, tip) == CommandView::Print(
                submit_or_say(opts, tip)->Print_0 + " "@ + flag,
            )
        },
{
    let argv = submit_argv(tip, opts.flags);
    let sep = " "@;
    if opts.flags.len() == 0 {
        let one = seq!["submit"@];
        let two = seq!["submit"@, "--stack"@];
        let three = seq!["submit"@, "--stack"@, "--branch"@];
        crate::text::joining_adds_at_the_end(one, "submit"@, sep);
        crate::text::joining_adds_at_the_end(one, "--stack"@, sep);
        assert(one.push("--stack"@) =~= two);
        crate::text::joining_adds_at_the_end(two, "--branch"@, sep);
        assert(two.push("--branch"@) =~= three);
        crate::text::joining_adds_at_the_end(three, tip, sep);
        assert(three.push(tip) =~= argv);
    }
    crate::text::joining_adds_at_the_end(argv, flag, sep);
    assert(argv.push(flag) =~= submit_argv(tip, opts.flags.push(flag)));
    let whole = crate::text::joined(argv, sep);
    assert("would: gt "@ + (whole + sep + flag) =~= "would: gt "@ + whole + sep + flag);
}

/// After a push every bookmark of the stack is tracked on the remote, in order.
pub proof fn stack_is_followed_in_order(remote: Seq<char>, order: Seq<StackedView>, i: int)
    requires
        0 <= i < order.len(),
    ensures
        follow_steps(remote, order).len() == order.len(),
        follow_steps(remote, order)[i] == (CommandView::TrackOnRemote {
            name: order[i].name,
            remote,
        }),
{
}

/// What fails after the submission is warned of, with what was attempted and why it
/// failed; nothing else is.
pub proof fn warnings_say_what_failed(command: CommandView, error: ErrorView)
    ensures
        command matches CommandView::TrackOnRemote { name, remote } ==> warning(command, error)
            == Some(
            CommandView::Warn(
                "jj-gt: warning: could not track `"@ + name + "@"@ + remote + "`: "@
                    + error.message(),
            ),
        ),
        command matches CommandView::EditChange { change } ==> warning(command, error) == Some(
            CommandView::Warn("jj-gt: could not restore @ to "@ + change + ": "@ + error.message()),
        ),
        warning(command, error) is Some <==> command is TrackOnRemote || command is EditChange,
{
}

proof fn lemma_stacking_comes_first(
    request: SubmitRequest,
    replies: Seq<Result<ReplyView, ErrorView>>,
)
    requires
        submit_after(request, replies).phase is Stacking,
    ensures
        replies.len() == 0,
{
    if replies.len() > 0 {
        submit_is_sound(request, replies.drop_last());
    }
}

/// A submission begins with the question how exactly the selected bookmarks are
/// stacked on exactly the trunk of the request.
pub proof fn submit_begins_with_the_stack(request: SubmitRequest)
    requires
        request.selected.len() > 0,
    ensures
        submit_after(request, Seq::empty()).pending() == Some(
            CommandView::DeriveParents { names: request.selected, trunk: request.trunk },
        ),
        submit_after(request, Seq::empty()).error is None,
{
}

/// Whenever a submission waits for the stack, it has asked about the selected
/// bookmarks and the trunk of the request; and it asks about them only once.
pub proof fn submit_asks_for_the_selected(
    request: SubmitRequest,
    replies: Seq<Result<ReplyView, ErrorView>>,
)
    ensures
        submit_after(request, replies).phase is Stacking ==> submit_after(
            request,
            replies,
        ).pending() == Some(
            CommandView::DeriveParents { names: request.selected, trunk: request.trunk },
        ),
        submit_after(request, replies).pending() matches Some(
            CommandView::DeriveParents { names, trunk },
        ) ==> names == request.selected && trunk == request.trunk && replies.len() == 0,
{
    submit_is_sound(request, replies);
    let s = submit_after(request, replies);
    if s.phase is Stacking {
        lemma_stacking_comes_first(request, replies);
    }
    lemma_pending_by_phase(request, replies);
}

/// The kind of the pending command in each phase.
proof fn lemma_pending_by_phase(
    request: SubmitRequest,
    replies: Seq<Result<ReplyView, ErrorView>>,
)
    ensures
        ({
            let s = submit_after(request, replies);
            s.pending() matches Some(command) ==> match s.phase {
                SubmitPhase::Stacking => command is DeriveParents,
                SubmitPhase::Exporting => command is GitExport,
                SubmitPhase::Gating => command is RunHooks,
                SubmitPhase::Tracking => if s.opts.dry_run {
                    command is Print
                } else {
                    command is GtTrack
                },
                SubmitPhase::Saving => command is CurrentChange,
                SubmitPhase::Submitting => if s.opts.dry_run {
                    command is Print
                } else {
                    command is GtSubmit
                },
                SubmitPhase::Following => command is TrackOnRemote || command is Warn,
                SubmitPhase::Restoring => command is EditChange || command is Warn,
                SubmitPhase::Finished => false,
            }
        }),
{
    submit_is_sound(request, replies);
    let s = submit_after(request, replies);
    if s.phase is Tracking {
        let steps = track_steps(s.opts.dry_run, s.trunk, s.order);
        let at = s.order.len() - s.todo.len();
        assert(s.todo[0] == steps.skip(at)[0]);
        assert(steps.skip(at)[0] == steps[at]);
    }
}

/// The hooks run on the whole stack, and on nothing else: the revset that they are
/// given begins with the trunk of the request, goes on with two dots, and ends with
/// the tip of the stack that was told; the runner is that of the request.
pub proof fn submit_runs_hooks_on_the_whole_stack(
    request: SubmitRequest,
    replies: Seq<Result<ReplyView, ErrorView>>,
    k: int,
    stacked: Seq<StackedView>,
    revset: Seq<char>,
    runner: Option<crate::hooks::Runner>,
)
    requires
        stack_told(request, replies, k, stacked),
        submit_after(request, replies).pending() == Some(
            CommandView::RunHooks { revset, runner },
        ),
    ensures
        !request.opts.no_hooks,
        runner == request.opts.hooks.runner_override,
        tip_of(stacked) matches Some(tip) && {
            &&& revset.len() == request.trunk.len() + 2 + tip.len()
            &&& revset.take(request.trunk.len() as int) == request.trunk
            &&& revset[request.trunk.len() as int] == '.'
            &&& revset[request.trunk.len() as int + 1] == '.'
            &&& revset.skip(request.trunk.len() as int + 2) == tip
        },
{
    submit_is_sound(request, replies);
    lemma_pending_by_phase(request, replies);
    submit_keeps_the_stack_told(request, replies, k, stacked);
    crate::hooks::range_runs_from_trunk_to_tip(
        request.trunk,
        submit_after(request, replies).tip,
    );
}

/// With a stack that has a single tip, the bookmarks are exported next, unless that
/// is switched off; then the hooks are run, unless those are switched off.
pub proof fn submit_exports_and_runs_hooks(
    request: SubmitRequest,
    replies: Seq<Result<ReplyView, ErrorView>>,
    stacked: Seq<StackedView>,
)
    requires
        submit_after(request, replies).phase is Stacking,
        tip_of(stacked) is Some,
    ensures
        ({
            let n = submit_step(
                submit_after(request, replies),
                Ok(ReplyView::Parents(stacked)),
            );
            &&& n.error is None
            &&& !request.opts.no_export ==> n.pending() == Some(CommandView::GitExport)
            &&& !request.opts.no_hooks ==> {
                let hooks = if request.opts.no_export {
                    n
                } else {
                    submit_step(n, Ok(ReplyView::Done))
                };
                hooks.pending() == Some(
                    CommandView::RunHooks {
                        revset: request.trunk + ".."@ + tip_of(stacked)->0,
                        runner: request.opts.hooks.runner_override,
                    },
                )
            }
        }),
{
    submit_is_sound(request, replies);
}

/// A stack without a single tip ends the submission.
pub proof fn submit_needs_a_single_tip(
    request: SubmitRequest,
    replies: Seq<Result<ReplyView, ErrorView>>,
    stacked: Seq<StackedView>,
)
    requires
        submit_after(request, replies).phase is Stacking,
        tip_of(stacked) is None,
    ensures
        ({
            let n = submit_step(
                submit_after(request, replies),
                Ok(ReplyView::Parents(stacked)),
            );
            n.pending() is None && n.error == Some(ErrorView::NoSingleTip)
        }),
{
    submit_is_sound(request, replies);
}

/// Hooks that had nothing to look at, or that succeeded and changed nothing, let the
/// submission go on.
pub proof fn submit_goes_on_after_clean_hooks(
    request: SubmitRequest,
    replies: Seq<Result<ReplyView, ErrorView>>,
    outcome: Option<OutcomeView>,
)
    requires
        submit_after(request, replies).phase is Gating,
        outcome matches Some(run) ==> run.success && run.fixup_commit is None,
    ensures
        submit_step(
            submit_after(request, replies),
            Ok(ReplyView::Hooks(outcome)),
        ).error is None,
        submit_step(
            submit_after(request, replies),
            Ok(ReplyView::Hooks(outcome)),
        ).pending() is Some,
{
    submit_is_sound(request, replies);
}

/// Hooks that failed, or that left a commit behind, end the submission; what is told
/// names the range that they ran on, or the commit.
pub proof fn submit_ends_after_other_hooks(
    request: SubmitRequest,
    replies: Seq<Result<ReplyView, ErrorView>>,
    run: OutcomeView,
)
    requires
        submit_after(request, replies).phase is Gating,
        !run.success || run.fixup_commit is Some,
    ensures
        ({
            let s = submit_after(request, replies);
            let n = submit_step(s, Ok(ReplyView::Hooks(Some(run))));
            &&& n.pending() is None
            &&& !run.success ==> n.error == Some(
                ErrorView::Invalid(
                    "pre-push hooks failed for revset `"@ + (request.trunk + ".."@ + s.tip)
                        + "`"@,
                ),
            )
            &&& run.success ==> n.error == Some(
                ErrorView::Invalid(
                    "pre-push hooks modified files (fixup commit "@ + run.fixup_commit->0
                        + "); squash it into the relevant bookmark and re-run `jj-gt submit`"@,
                ),
            )
        }),
{
    submit_is_sound(request, replies);
}

/// Tracking goes through the order of the stack: the command that waits in a real
/// run tracks the next bookmark on what it is stacked on, and in a dry run says so.
pub proof fn submit_tracks_the_next_bookmark(
    request: SubmitRequest,
    replies: Seq<Result<ReplyView, ErrorView>>,
)
    requires
        submit_after(request, replies).phase is Tracking,
    ensures
        ({
            let s = submit_after(request, replies);
            let next = s.order[s.order.len() - s.todo.len()];
            let parent = match next.parent {
                ParentView::Bookmark(parent) => parent,
                ParentView::Trunk => request.trunk,
            };
            s.pending() == Some(
                if request.opts.dry_run {
                    CommandView::Print(
                        "would: gt track "@ + next.name + " --parent "@ + parent,
                    )
                } else {
                    CommandView::GtTrack { name: next.name, parent }
                },
            )
        }),
{
    submit_is_sound(request, replies);
    let s = submit_after(request, replies);
    let steps = track_steps(s.opts.dry_run, s.trunk, s.order);
    let at = s.order.len() - s.todo.len();
    assert(s.todo[0] == steps.skip(at)[0]);
    assert(steps.skip(at)[0] == steps[at]);
}

/// What waits in the submitting phase: in a real run `gt submit` for the stack below
/// the tip that was told, with the further arguments of the request; in a dry run the
/// line that says so.
pub proof fn submit_submits_the_tip_told(
    request: SubmitRequest,
    replies: Seq<Result<ReplyView, ErrorView>>,
    k: int,
    stacked: Seq<StackedView>,
)
    requires
        stack_told(request, replies, k, stacked),
        submit_after(request, replies).phase is Submitting,
    ensures
        tip_of(stacked) matches Some(tip) && {
            &&& !request.opts.dry_run ==> submit_after(request, replies).pending() == Some(
                CommandView::GtSubmit {
                    argv: seq!["submit"@, "--stack"@, "--branch"@, tip] + request.opts.flags,
                },
            )
            &&& request.opts.dry_run && request.opts.flags.len() == 0 ==> submit_after(
                request,
                replies,
            ).pending() == Some(
                CommandView::Print(
                    "would: gt "@ + ("submit"@ + " "@ + "--stack"@ + " "@ + "--branch"@ + " "@
                        + tip),
                ),
            )
        },
{
    submit_is_sound(request, replies);
    submit_keeps_the_stack_told(request, replies, k, stacked);
    let s = submit_after(request, replies);
    submission_is_done_or_said(s.opts, s.tip, Seq::empty());
}

/// Whether `gt` has been asked to submit with these arguments, and did.
pub open spec fn was_submitted(
    request: SubmitRequest,
    replies: Seq<Result<ReplyView, ErrorView>>,
    argv: Seq<Seq<char>>,
) -> bool {
    exists|k: int|
        {
            &&& #[trigger] answered(request, replies, k, CommandView::GtSubmit { argv })
            &&& replies[k] == Ok::<ReplyView, ErrorView>(ReplyView::Done)
        }
}

proof fn lemma_submitted(request: SubmitRequest, replies: Seq<Result<ReplyView, ErrorView>>)
    requires
        !request.opts.dry_run,
        crate::submit_laws::past_submission(submit_after(request, replies)),
    ensures
        was_submitted(
            request,
            replies,
            seq!["submit"@, "--stack"@, "--branch"@, submit_after(request, replies).tip]
                + request.opts.flags,
        ),
    decreases replies.len(),
{
    if replies.len() > 0 {
        let front = replies.drop_last();
        let s = submit_after(request, front);
        submit_is_sound(request, front);
        submit_stays_sound(s, replies.last());
        let command = CommandView::GtSubmit {
            argv: seq!["submit"@, "--stack"@, "--branch"@, s.tip] + request.opts.flags,
        };
        if crate::submit_laws::past_submission(s) {
            lemma_submitted(request, front);
            let k = choose|k: int|
                {
                    &&& #[trigger] answered(request, front, k, command)
                    &&& front[k] == Ok::<ReplyView, ErrorView>(ReplyView::Done)
                };
            assert(front.take(k) =~= replies.take(k));
            assert(answered(request, replies, k, command));
            assert(replies[k] == front[k]);
        } else {
            assert(s.phase is Submitting);
            assert(s.todo[0] == command);
            assert(replies.take(replies.len() - 1) =~= front);
            assert(answered(request, replies, replies.len() - 1, command));
        }
    }
}

/// A real submission that ends well has submitted the stack: `gt submit` was asked
/// for, for the stack below its tip, and went through.
pub proof fn submit_ends_well_only_if_submitted(
    request: SubmitRequest,
    replies: Seq<Result<ReplyView, ErrorView>>,
)
    requires
        !request.opts.dry_run,
        submit_after(request, replies).phase is Finished,
        submit_after(request, replies).error is None,
    ensures
        was_submitted(
            request,
            replies,
            seq!["submit"@, "--stack"@, "--branch"@, submit_after(request, replies).tip]
                + request.opts.flags,
        ),
{
    lemma_submitted(request, replies);
}

/// A reply of the wrong kind ends the submission, and is told as such.
pub proof fn submit_refuses_other_replies(
    request: SubmitRequest,
    replies: Seq<Result<ReplyView, ErrorView>>,
    reply: ReplyView,
)
    requires
        submit_after(request, replies).pending() matches Some(command) && !command.expects(reply),
    ensures
        submit_step(submit_after(request, replies), Ok(reply)).pending() is None,
        submit_step(submit_after(request, replies), Ok(reply)).error == Some(
            ErrorView::UnexpectedReply,
        ),
{
}

/// What fails after the submission is told on standard error before anything else is
/// asked for.
pub proof fn submit_warns_of_late_failures(
    request: SubmitRequest,
    replies: Seq<Result<ReplyView, ErrorView>>,
    error: ErrorView,
)
    ensures
        submit_after(request, replies).pending() matches Some(
            CommandView::TrackOnRemote { name, remote },
        ) ==> remote == request.opts.remote && submit_step(
            submit_after(request, replies),
            Err(error),
        ).pending() == Some(
            CommandView::Warn(
                "jj-gt: warning: could not track `"@ + name + "@"@ + remote + "`: "@
                    + error.message(),
            ),
        ),
        submit_after(request, replies).pending() matches Some(CommandView::EditChange { change })
            ==> submit_step(submit_after(request, replies), Err(error)).pending() == Some(
            CommandView::Warn("jj-gt: could not restore @ to "@ + change + ": "@ + error.message()),
        ),
{
    submit_is_sound(request, replies);
    lemma_pending_by_phase(request, replies);
}

/// A run that has ended stays as it is.
pub proof fn submit_ends_for_good(
    request: SubmitRequest,
    replies: Seq<Result<ReplyView, ErrorView>>,
    reply: Result<ReplyView, ErrorView>,
)
    requires
        submit_after(request, replies).pending() is None,
    ensures
        submit_step(submit_after(request, replies), reply) == submit_after(request, replies),
        submit_after(request, replies).phase is Finished,
{
    submit_is_sound(request, replies);
}

/// Where the working copy is to be restored, its change is asked for between the
/// tracking and the submission, and nothing else is; else nothing is asked for there.
pub proof fn submit_asks_for_the_working_copy(
    request: SubmitRequest,
    replies: Seq<Result<ReplyView, ErrorView>>,
    change: Seq<char>,
)
    requires
        submit_after(request, replies).phase is Saving,
    ensures
        !request.opts.no_restore_cwc,
        submit_after(request, replies).pending() == Some(CommandView::CurrentChange),
        submit_step(
            submit_after(request, replies),
            Ok(ReplyView::Change(change)),
        ).saved == Some(change),
        submit_step(
            submit_after(request, replies),
            Ok(ReplyView::Change(change)),
        ).phase is Submitting,
{
    submit_is_sound(request, replies);
}

/// With the last bookmark tracked, the working copy is asked for, unless that is
/// switched off; then the submission begins at once.
pub proof fn submit_saves_before_submitting(
    request: SubmitRequest,
    replies: Seq<Result<ReplyView, ErrorView>>,
)
    requires
        submit_after(request, replies).phase is Tracking,
        submit_after(request, replies).todo.len() == 1,
    ensures
        ({
            let n = submit_step(submit_after(request, replies), Ok(ReplyView::Done));
            &&& !request.opts.no_restore_cwc ==> n.pending() == Some(CommandView::CurrentChange)
            &&& request.opts.no_restore_cwc ==> n.phase is Submitting && n.saved is None
        }),
{
    submit_is_sound(request, replies);
    lemma_pending_by_phase(request, replies);
}

/// After the submission a real run tracks every bookmark on the remote of the request,
/// the first of the order first; a dry run ends.
pub proof fn submit_follows_after_submitting(
    request: SubmitRequest,
    replies: Seq<Result<ReplyView, ErrorView>>,
)
    requires
        submit_after(request, replies).phase is Submitting,
    ensures
        ({
            let s = submit_after(request, replies);
            let n = submit_step(s, Ok(ReplyView::Done));
            &&& n.error is None
            &&& request.opts.dry_run ==> n.pending() is None
            &&& !request.opts.dry_run && s.order.len() > 0 ==> n.pending() == Some(
                CommandView::TrackOnRemote {
                    name: s.order[0].name,
                    remote: request.opts.remote,
                },
            )
        }),
{
    submit_is_sound(request, replies);
    lemma_pending_by_phase(request, replies);
}

/// Whether a dry run has printed that `name` would be tracked on `parent`.
pub open spec fn was_said(
    request: SubmitRequest,
    replies: Seq<Result<ReplyView, ErrorView>>,
    name: Seq<char>,
    parent: Seq<char>,
) -> bool {
    exists|k: int| #[trigger]
        answered(
            request,
            replies,
            k,
            CommandView::Print("would: gt track "@ + name + " --parent "@ + parent),
        )
}

/// How a dry run goes on from the tracking: line by line, and not past a bookmark
/// that has not been told of.
#[verifier::spinoff_prover]
proof fn lemma_dry_run_goes_on(s: SubmitView, reply: Result<ReplyView, ErrorView>, i: int)
    requires
        sound(s),
        s.opts.dry_run,
        submit_step(s, reply).error is None,
        0 <= i < submit_step(s, reply).order.len(),
        ({
            let n = submit_step(s, reply);
            n.phase is Saving || n.phase is Submitting || n.phase is Finished || (n.phase
                is Tracking && i < n.order.len() - n.todo.len())
        }),
    ensures
        s.error is None,
        submit_step(s, reply).order == s.order,
        s.phase is Saving || s.phase is Submitting || s.phase is Finished || (s.phase is Tracking
            && i <= s.order.len() - s.todo.len()),
{
    submit_stays_sound(s, reply);
}

proof fn lemma_said(
    request: SubmitRequest,
    replies: Seq<Result<ReplyView, ErrorView>>,
    i: int,
)
    requires
        request.opts.dry_run,
        ({
            let s = submit_after(request, replies);
            &&& 0 <= i < s.order.len()
            &&& s.error is None
            &&& s.phase is Saving || s.phase is Submitting || s.phase is Finished || (s.phase
                is Tracking && i < s.order.len() - s.todo.len())
        }),
    ensures
        ({
            let entry = submit_after(request, replies).order[i];
            was_said(
                request,
                replies,
                entry.name,
                match entry.parent {
                    ParentView::Bookmark(parent) => parent,
                    ParentView::Trunk => request.trunk,
                },
            )
        }),
    decreases replies.len(),
{
    if replies.len() > 0 {
        let front = replies.drop_last();
        let s = submit_after(request, front);
        submit_is_sound(request, front);
        lemma_dry_run_goes_on(s, replies.last(), i);
        if s.phase is Tracking && i == s.order.len() - s.todo.len() {
            submit_tracks_the_next_bookmark(request, front);
            assert(replies.take(replies.len() - 1) =~= front);
            assert(answered(request, replies, replies.len() - 1, s.pending()->0));
        } else {
            lemma_said(request, front, i);
            let entry = s.order[i];
            let parent = match entry.parent {
                ParentView::Bookmark(parent) => parent,
                ParentView::Trunk => request.trunk,
            };
            let line = CommandView::Print(
                "would: gt track "@ + entry.name + " --parent "@ + parent,
            );
            let k = choose|k: int| #[trigger] answered(request, front, k, line);
            assert(front.take(k) =~= replies.take(k));
            assert(answered(request, replies, k, line));
        }
    }
}

/// A dry run that ends well has told of every bookmark how it would be tracked.
pub proof fn submit_dry_run_tells_of_every_bookmark(
    request: SubmitRequest,
    replies: Seq<Result<ReplyView, ErrorView>>,
    i: int,
)
    requires
        request.opts.dry_run,
        submit_after(request, replies).phase is Finished,
        submit_after(request, replies).error is None,
        0 <= i < submit_after(request, replies).order.len(),
    ensures
        ({
            let entry = submit_after(request, replies).order[i];
            was_said(
                request,
                replies,
                entry.name,
                match entry.parent {
                    ParentView::Bookmark(parent) => parent,
                    ParentView::Trunk => request.trunk,
                },
            )
        }),
{
    lemma_said(request, replies, i);
}

/// What a submission works on is what it was told: an order of exactly the entries of
/// the stack, and its tip.
pub proof fn submit_works_on_the_entries_told(
    request: SubmitRequest,
    replies: Seq<Result<ReplyView, ErrorView>>,
    k: int,
    stacked: Seq<StackedView>,
)
    requires
        stack_told(request, replies, k, stacked),
        submit_after(request, replies).error is None,
    ensures
        submit_after(request, replies).order.to_multiset() == stacked.to_multiset(),
        tip_of(stacked) == Some(submit_after(request, replies).tip),
{
    submit_keeps_the_stack_told(request, replies, k, stacked);
    crate::stack::tracking_order_is_permutation(stacked);
}

} // verus!
