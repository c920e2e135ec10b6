//! What holds of every `jj-gt submit` pipeline, whatever the tools reply.

use vstd::prelude::*;

use crate::command::{CommandView, ReplyView};
use crate::error::ErrorView;
use crate::hooks::{gate_error, push_range};
use crate::stack::{acyclic, parents_first, sits_on, tip_of, tracking_order, StackedView};
use crate::submit_model::{
    follow_steps, submit_argv, submit_or_say, submit_start, submit_step, track_steps,
    SubmitOptsView, SubmitPhase, SubmitView,
};

verus! {

/// A pipeline as it is begun: what was selected, on which trunk, and how.
pub struct SubmitRequest {
    pub selected: Seq<Seq<char>>,
    pub trunk: Seq<char>,
    pub opts: SubmitOptsView,
}

/// The state that a pipeline is in after these replies.
pub open spec fn submit_after(
    request: SubmitRequest,
    replies: Seq<Result<ReplyView, ErrorView>>,
) -> SubmitView
    decreases replies.len(),
{
    if replies.len() == 0 {
        submit_start(request.selected, request.trunk, request.opts)
    } else {
        submit_step(submit_after(request, replies.drop_last()), replies.last())
    }
}

/// Whether the reply at `k` was the one to `command`.
pub open spec fn answered(
    request: SubmitRequest,
    replies: Seq<Result<ReplyView, ErrorView>>,
    k: int,
    command: CommandView,
) -> bool {
    &&& 0 <= k < replies.len()
    &&& submit_after(request, replies.take(k)).pending() == Some(command)
}

/// Whether the pending commands are those of the phase, and what the phase
/// rests on is known.
pub open spec fn in_phase(s: SubmitView) -> bool {
    match s.phase {
        SubmitPhase::Stacking => {
            &&& s.saved is None
            &&& s.todo.len() == 1
            &&& s.todo[0] is DeriveParents
        },
        SubmitPhase::Exporting => {
            &&& s.saved is None
            &&& !s.opts.no_export
            &&& s.todo == seq![CommandView::GitExport]
        },
        SubmitPhase::Gating => {
            &&& s.saved is None
            &&& !s.opts.no_hooks
            &&& s.todo == seq![
                CommandView::RunHooks {
                    revset: push_range(s.trunk, s.tip),
                    runner: s.opts.hooks.runner_override,
                },
            ]
        },
        SubmitPhase::Tracking => {
            &&& s.saved is None
            &&& 0 < s.todo.len() <= s.order.len()
            &&& s.todo == track_steps(s.opts.dry_run, s.trunk, s.order).skip(
                s.order.len() - s.todo.len(),
            )
        },
        SubmitPhase::Saving => {
            &&& s.saved is None
            &&& !s.opts.no_restore_cwc
            &&& s.todo == seq![CommandView::CurrentChange]
        },
        SubmitPhase::Submitting => {
            &&& s.saved is None <==> s.opts.no_restore_cwc
            &&& s.todo == seq![submit_or_say(s.opts, s.tip)]
        },
        SubmitPhase::Following => {
            &&& s.saved is None <==> s.opts.no_restore_cwc
            &&& !s.opts.dry_run
            &&& 0 < s.todo.len() <= s.order.len()
            &&& s.todo[0] is Warn || s.todo[0] == follow_steps(s.opts.remote, s.order)[s.order.len()
                - s.todo.len()]
            &&& s.todo.drop_first() == follow_steps(s.opts.remote, s.order).skip(
                s.order.len() - s.todo.len() + 1,
            )
        },
        SubmitPhase::Restoring => {
            &&& !s.opts.no_restore_cwc
            &&& s.saved is Some
            &&& !s.opts.dry_run
            &&& s.todo.len() == 1
            &&& s.todo[0] is Warn || s.todo[0] == CommandView::EditChange { change: s.saved->0 }
        },
        SubmitPhase::Finished => {
            &&& s.todo.len() == 0
            &&& s.error is None ==> (s.saved is None <==> s.opts.no_restore_cwc)
        },
    }
}

/// The invariant of the pipeline.
pub open spec fn sound(s: SubmitView) -> bool {
    &&& in_phase(s)
    &&& s.error is Some ==> s.phase is Finished
}

proof fn lemma_skip_one(steps: Seq<CommandView>, at: int)
    requires
        0 <= at < steps.len(),
    ensures
        steps.skip(at).drop_first() == steps.skip(at + 1),
        steps.skip(at)[0] == steps[at],
{
    assert(steps.skip(at).drop_first() =~= steps.skip(at + 1));
}

/// Every reply leads from a sound state to a sound state, and leaves what was
/// asked for as it was.
pub proof fn submit_stays_sound(s: SubmitView, reply: Result<ReplyView, ErrorView>)
    requires
        sound(s),
    ensures
        sound(submit_step(s, reply)),
        submit_step(s, reply).opts == s.opts,
        submit_step(s, reply).trunk == s.trunk,
        !(s.phase is Stacking) ==> submit_step(s, reply).order == s.order && submit_step(
            s,
            reply,
        ).tip == s.tip,
{
    let tracks = track_steps(s.opts.dry_run, s.trunk, s.order);
    let follows = follow_steps(s.opts.remote, s.order);
    assert(tracks.skip(0) =~= tracks);
    assert(follows.skip(0) =~= follows);
    if s.order.len() > 0 {
        lemma_skip_one(follows, 0);
    }
    if s.phase is Tracking {
        lemma_skip_one(tracks, s.order.len() - s.todo.len());
    }
    if s.phase is Following {
        let n = submit_step(s, reply);
        let at = s.order.len() - s.todo.len();
        lemma_skip_one(follows, at);
        if s.todo.len() > 1 {
            lemma_skip_one(follows, at + 1);
        }
        if let Err(error) = reply {
            if s.todo[0] is TrackOnRemote {
                assert(n.todo.drop_first() =~= s.todo.drop_first());
            }
        }
    }
    if let Ok(ReplyView::Parents(stacked)) = reply {
        let order = tracking_order(stacked);
        let steps = track_steps(s.opts.dry_run, s.trunk, order);
        assert(steps.skip(0) =~= steps);
    }
}

/// Whatever the tools reply, a pipeline is in a sound state.
pub proof fn submit_is_sound(request: SubmitRequest, replies: Seq<Result<ReplyView, ErrorView>>)
    ensures
        sound(submit_after(request, replies)),
        submit_after(request, replies).opts == request.opts,
        submit_after(request, replies).trunk == request.trunk,
    decreases replies.len(),
{
    if replies.len() > 0 {
        submit_is_sound(request, replies.drop_last());
        submit_stays_sound(submit_after(request, replies.drop_last()), replies.last());
    }
}

proof fn lemma_answered_stays(
    request: SubmitRequest,
    replies: Seq<Result<ReplyView, ErrorView>>,
    k: int,
    command: CommandView,
)
    requires
        replies.len() > 0,
        answered(request, replies.drop_last(), k, command),
    ensures
        answered(request, replies, k, command),
        replies[k] == replies.drop_last()[k],
{
    assert(replies.drop_last().take(k) =~= replies.take(k));
}

proof fn lemma_answered_now(request: SubmitRequest, replies: Seq<Result<ReplyView, ErrorView>>)
    requires
        replies.len() > 0,
        submit_after(request, replies.drop_last()).pending() is Some,
    ensures
        answered(
            request,
            replies,
            replies.len() - 1,
            submit_after(request, replies.drop_last()).pending()->0,
        ),
{
    assert(replies.take(replies.len() - 1) =~= replies.drop_last());
}

/// Whether the phase lies behind the hook gate.
pub open spec fn past_gate(phase: SubmitPhase) -> bool {
    phase is Tracking || phase is Saving || phase is Submitting || phase is Following
        || phase is Restoring
}

/// The command that runs the hooks on `revset` the way the request says.
pub open spec fn hook_run(request: SubmitRequest, revset: Seq<char>) -> CommandView {
    CommandView::RunHooks { revset, runner: request.opts.hooks.runner_override }
}

/// Whether the hooks were run on `revset`, with the runner of the request, and
/// let it pass.
pub open spec fn gate_passed(
    request: SubmitRequest,
    replies: Seq<Result<ReplyView, ErrorView>>,
    revset: Seq<char>,
) -> bool {
    exists|k: int|
        {
            &&& #[trigger] answered(request, replies, k, hook_run(request, revset))
            &&& replies[k] matches Ok(ReplyView::Hooks(outcome))
            &&& gate_error(revset, outcome) is None
        }
}

proof fn lemma_gate(request: SubmitRequest, replies: Seq<Result<ReplyView, ErrorView>>)
    requires
        !request.opts.no_hooks,
        past_gate(submit_after(request, replies).phase),
    ensures
        gate_passed(
            request,
            replies,
            push_range(request.trunk, submit_after(request, replies).tip),
        ),
    decreases replies.len(),
{
    if replies.len() > 0 {
        let front = replies.drop_last();
        let s = submit_after(request, front);
        submit_is_sound(request, front);
        submit_stays_sound(s, replies.last());
        let revset = push_range(request.trunk, s.tip);
        if past_gate(s.phase) {
            lemma_gate(request, front);
            let k = choose|k: int|
                {
                    &&& #[trigger] answered(request, front, k, hook_run(request, revset))
                    &&& front[k] matches Ok(ReplyView::Hooks(outcome))
                    &&& gate_error(revset, outcome) is None
                };
            lemma_answered_stays(request, replies, k, hook_run(request, revset));
        } else {
            assert(s.phase is Gating);
            lemma_answered_now(request, replies);
            assert(answered(
                request,
                replies,
                replies.len() - 1,
                hook_run(request, revset),
            ));
        }
    }
}

/// Nothing reaches `gt` past failing hooks: unless the hooks are switched off, a
/// bookmark is tracked, and a stack submitted, only after the hooks were run on
/// everything between trunk and the tip and let it pass.
pub proof fn submit_gates_before_gt(
    request: SubmitRequest,
    replies: Seq<Result<ReplyView, ErrorView>>,
    command: CommandView,
)
    requires
        !request.opts.no_hooks,
        submit_after(request, replies).pending() == Some(command),
        command is GtTrack || command is GtSubmit,
    ensures
        gate_passed(
            request,
            replies,
            push_range(request.trunk, submit_after(request, replies).tip),
        ),
{
    submit_is_sound(request, replies);
    lemma_gate(request, replies);
}

/// Hooks that fail or change files end the pipeline with the reason.
pub proof fn submit_stops_at_failing_hooks(
    request: SubmitRequest,
    replies: Seq<Result<ReplyView, ErrorView>>,
    outcome: Option<crate::hooks::OutcomeView>,
)
    requires
        submit_after(request, replies).phase is Gating,
        gate_error(
            push_range(request.trunk, submit_after(request, replies).tip),
            outcome,
        ) is Some,
    ensures
        ({
            let s = submit_after(request, replies);
            let n = submit_step(s, Ok(ReplyView::Hooks(outcome)));
            &&& n.phase is Finished
            &&& n.error == gate_error(push_range(request.trunk, s.tip), outcome)
        }),
{
    submit_is_sound(request, replies);
}

/// A dry run exports the bookmarks, unless that is switched off too, and changes
/// nothing else: nothing is tracked, submitted or checked out.
pub proof fn submit_dry_run_only_exports(
    request: SubmitRequest,
    replies: Seq<Result<ReplyView, ErrorView>>,
)
    requires
        request.opts.dry_run,
    ensures
        submit_after(request, replies).pending() matches Some(command) ==> command.mutates()
            ==> command is GitExport && !request.opts.no_export,
{
    submit_is_sound(request, replies);
}

/// Whether `entry` has been tracked, on what it is stacked on.
pub open spec fn was_tracked(
    request: SubmitRequest,
    replies: Seq<Result<ReplyView, ErrorView>>,
    entry: StackedView,
) -> bool {
    exists|k: int|
        {
            &&& #[trigger] answered(
                request,
                replies,
                k,
                CommandView::GtTrack {
                    name: entry.name,
                    parent: entry.parent.branch_name(request.trunk),
                },
            )
            &&& replies[k] is Ok
        }
}

proof fn lemma_tracked(
    request: SubmitRequest,
    replies: Seq<Result<ReplyView, ErrorView>>,
    i: int,
)
    requires
        !request.opts.dry_run,
        past_gate(submit_after(request, replies).phase),
        0 <= i < submit_after(request, replies).order.len(),
        submit_after(request, replies).phase is Tracking ==> i < submit_after(
            request,
            replies,
        ).order.len() - submit_after(request, replies).todo.len(),
    ensures
        was_tracked(request, replies, submit_after(request, replies).order[i]),
    decreases replies.len(),
{
    if replies.len() > 0 {
        let front = replies.drop_last();
        let s = submit_after(request, front);
        let n = submit_after(request, replies);
        submit_is_sound(request, front);
        submit_stays_sound(s, replies.last());
        submit_is_sound(request, replies);
        if s.pending() is None {
            assert(false);
        }
        assert(past_gate(s.phase));
        let entry = s.order[i];
        let command = CommandView::GtTrack {
            name: entry.name,
            parent: entry.parent.branch_name(request.trunk),
        };
        if s.phase is Tracking && i == s.order.len() - s.todo.len() {
            let steps = track_steps(s.opts.dry_run, s.trunk, s.order);
            lemma_skip_one(steps, i);
            assert(s.todo[0] == command);
            lemma_answered_now(request, replies);
            assert(answered(request, replies, replies.len() - 1, command));
        } else {
            lemma_tracked(request, front, i);
            let k = choose|k: int|
                #[trigger] answered(request, front, k, command) && front[k] is Ok;
            lemma_answered_stays(request, replies, k, command);
        }
    }
}

/// A stack is submitted only once every bookmark of it has been tracked, and
/// what is submitted is the stack below its tip.
pub proof fn submit_tracks_before_submitting(
    request: SubmitRequest,
    replies: Seq<Result<ReplyView, ErrorView>>,
    argv: Seq<Seq<char>>,
)
    requires
        submit_after(request, replies).pending() == Some(CommandView::GtSubmit { argv }),
    ensures
        forall|i: int|
            0 <= i < submit_after(request, replies).order.len() ==> was_tracked(
                request,
                replies,
                #[trigger] submit_after(request, replies).order[i],
            ),
        argv == submit_argv(submit_after(request, replies).tip, request.opts.flags),
{
    submit_is_sound(request, replies);
    let s = submit_after(request, replies);
    if s.phase is Tracking {
        lemma_skip_one(
            track_steps(s.opts.dry_run, s.trunk, s.order),
            s.order.len() - s.todo.len(),
        );
    }
    assert(s.phase is Submitting);
    assert forall|i: int| 0 <= i < s.order.len() implies was_tracked(
        request,
        replies,
        #[trigger] s.order[i],
    ) by {
        lemma_tracked(request, replies, i);
    }
}

/// The stack is tracked from the bottom up: with the stack at hand, the pipeline
/// keeps it in an order in which no bookmark comes before the one that it is
/// stacked on.
pub proof fn submit_goes_bottom_up(s: SubmitView, stacked: Seq<StackedView>)
    requires
        sound(s),
        s.phase is Stacking,
        acyclic(stacked),
        submit_step(s, Ok(ReplyView::Parents(stacked))).error is None,
    ensures
        submit_step(s, Ok(ReplyView::Parents(stacked))).order == tracking_order(stacked),
        parents_first(tracking_order(stacked)),
        tracking_order(stacked).to_multiset() == stacked.to_multiset(),
{
    crate::stack::tracking_order_puts_parents_first(stacked);
    crate::stack::tracking_order_is_permutation(stacked);
}

/// Whether the reply at `k` told how the selected bookmarks are stacked.
pub open spec fn stack_told(
    request: SubmitRequest,
    replies: Seq<Result<ReplyView, ErrorView>>,
    k: int,
    stacked: Seq<StackedView>,
) -> bool {
    &&& 0 <= k < replies.len()
    &&& submit_after(request, replies.take(k)).phase is Stacking
    &&& replies[k] == Ok::<ReplyView, ErrorView>(ReplyView::Parents(stacked))
}

/// The pipeline works with the stack that it was told: from then on it keeps the
/// tracking order of that stack, and its tip; a stack without a single tip ends
/// it.
pub proof fn submit_keeps_the_stack_told(
    request: SubmitRequest,
    replies: Seq<Result<ReplyView, ErrorView>>,
    k: int,
    stacked: Seq<StackedView>,
)
    requires
        stack_told(request, replies, k, stacked),
    ensures
        !(submit_after(request, replies).phase is Stacking),
        match tip_of(stacked) {
            Some(tip) => submit_after(request, replies).tip == tip && submit_after(
                request,
                replies,
            ).order == tracking_order(stacked),
            None => submit_after(request, replies).error == Some(ErrorView::NoSingleTip),
        },
    decreases replies.len(),
{
    let front = replies.drop_last();
    let s = submit_after(request, front);
    submit_is_sound(request, front);
    submit_stays_sound(s, replies.last());
    if k == replies.len() - 1 {
        assert(replies.take(k) =~= front);
    } else {
        assert(replies.take(k) =~= front.take(k));
        submit_keeps_the_stack_told(request, front, k, stacked);
    }
}

proof fn lemma_stack_was_told(
    request: SubmitRequest,
    replies: Seq<Result<ReplyView, ErrorView>>,
) -> (r: (int, Seq<StackedView>))
    requires
        submit_after(request, replies).error is None,
        !(submit_after(request, replies).phase is Stacking),
    ensures
        stack_told(request, replies, r.0, r.1),
        tip_of(r.1) is Some,
    decreases replies.len(),
{
    let front = replies.drop_last();
    let s = submit_after(request, front);
    submit_is_sound(request, front);
    if s.phase is Stacking {
        assert(replies.take(replies.len() - 1) =~= front);
        (replies.len() - 1, replies.last()->Ok_0->Parents_0)
    } else {
        let r = lemma_stack_was_told(request, front);
        assert(front.take(r.0) =~= replies.take(r.0));
        r
    }
}

/// The order in which a pipeline works is the tracking order of a stack that it
/// was told, and the tip is that stack's only one: so it is in every pipeline that
/// has got past asking for the stack and has not been stopped.
pub proof fn submit_order_is_the_tracking_order(
    request: SubmitRequest,
    replies: Seq<Result<ReplyView, ErrorView>>,
)
    requires
        submit_after(request, replies).error is None,
        !(submit_after(request, replies).phase is Stacking),
    ensures
        exists|k: int, stacked: Seq<StackedView>|
            #![trigger stack_told(request, replies, k, stacked)]
            {
                &&& stack_told(request, replies, k, stacked)
                &&& submit_after(request, replies).order == tracking_order(stacked)
                &&& tip_of(stacked) == Some(submit_after(request, replies).tip)
            },
{
    let (k, stacked) = lemma_stack_was_told(request, replies);
    submit_keeps_the_stack_told(request, replies, k, stacked);
}

/// No bookmark is tracked before the one that it is stacked on: while a stack
/// without cycles is tracked, the pending command tracks the first bookmark that
/// is left, and the one that this bookmark is stacked on, if it belongs to the
/// stack, has been tracked.
pub proof fn submit_tracks_parents_first(
    request: SubmitRequest,
    replies: Seq<Result<ReplyView, ErrorView>>,
    k: int,
    stacked: Seq<StackedView>,
    j: int,
)
    requires
        !request.opts.dry_run,
        stack_told(request, replies, k, stacked),
        acyclic(stacked),
        submit_after(request, replies).phase is Tracking,
        ({
            let s = submit_after(request, replies);
            &&& 0 <= j < s.order.len()
            &&& sits_on(s.order[s.order.len() - s.todo.len()], s.order[j].name)
        }),
    ensures
        ({
            let s = submit_after(request, replies);
            let next = s.order[s.order.len() - s.todo.len()];
            &&& s.pending() == Some(
                CommandView::GtTrack {
                    name: next.name,
                    parent: next.parent.branch_name(request.trunk),
                },
            )
            &&& was_tracked(request, replies, s.order[j])
        }),
{
    let s = submit_after(request, replies);
    submit_is_sound(request, replies);
    submit_keeps_the_stack_told(request, replies, k, stacked);
    crate::stack::tracking_order_puts_parents_first(stacked);
    let at = s.order.len() - s.todo.len();
    lemma_skip_one(track_steps(s.opts.dry_run, s.trunk, s.order), at);
    lemma_tracked(request, replies, j);
}

/// A submission that went through is not undone by what comes after it: once the
/// pipeline is past the submission, no failure ends it with an error.
pub proof fn submit_survives_late_failures(s: SubmitView, error: ErrorView)
    requires
        sound(s),
        s.phase is Following || s.phase is Restoring,
    ensures
        submit_step(s, Err(error)).error is None,
        submit_step(s, Err(error)).phase is Following || submit_step(s, Err(error)).phase
            is Restoring || submit_step(s, Err(error)).phase is Finished,
{
    if s.phase is Following {
        lemma_skip_one(
            follow_steps(s.opts.remote, s.order),
            s.order.len() - s.todo.len(),
        );
    }
}

/// Before the submission, any failure ends the pipeline with that very error;
/// only what is printed in a dry run cannot fail.
pub proof fn submit_stops_at_early_failures(s: SubmitView, error: ErrorView)
    requires
        sound(s),
        s.pending() matches Some(command) && !command.best_effort(),
    ensures
        submit_step(s, Err(error)).phase is Finished,
        submit_step(s, Err(error)).error == Some(error),
{
}

/// Whether the pipeline was told that `change` is the working copy, and asked to
/// go back to it.
pub open spec fn restored(
    request: SubmitRequest,
    replies: Seq<Result<ReplyView, ErrorView>>,
    change: Seq<char>,
) -> bool {
    &&& exists|j: int|
        #[trigger] answered(request, replies, j, CommandView::CurrentChange) && replies[j] == Ok::<
            ReplyView,
            ErrorView,
        >(ReplyView::Change(change))
    &&& exists|k: int| #[trigger]
        answered(request, replies, k, CommandView::EditChange { change })
}

proof fn lemma_saved(request: SubmitRequest, replies: Seq<Result<ReplyView, ErrorView>>)
    requires
        submit_after(request, replies).saved is Some,
    ensures
        exists|j: int| #[trigger]
            answered(request, replies, j, CommandView::CurrentChange) && replies[j] == Ok::<
                ReplyView,
                ErrorView,
            >(ReplyView::Change(submit_after(request, replies).saved->0)),
    decreases replies.len(),
{
    if replies.len() > 0 {
        let front = replies.drop_last();
        let s = submit_after(request, front);
        submit_is_sound(request, front);
        if s.saved is Some {
            lemma_saved(request, front);
            let j = choose|j: int| #[trigger]
                answered(request, front, j, CommandView::CurrentChange) && front[j] == Ok::<
                    ReplyView,
                    ErrorView,
                >(ReplyView::Change(s.saved->0));
            lemma_answered_stays(request, replies, j, CommandView::CurrentChange);
        } else {
            assert(s.phase is Saving);
            lemma_answered_now(request, replies);
            assert(answered(request, replies, replies.len() - 1, CommandView::CurrentChange));
        }
    }
}

proof fn lemma_edit_was_asked(request: SubmitRequest, replies: Seq<Result<ReplyView, ErrorView>>)
    requires
        !request.opts.dry_run,
        submit_after(request, replies).saved is Some,
        submit_after(request, replies).error is None,
        submit_after(request, replies).phase is Finished || (submit_after(request, replies).phase
            is Restoring && submit_after(request, replies).todo[0] is Warn),
    ensures
        exists|k: int| #[trigger]
            answered(
                request,
                replies,
                k,
                CommandView::EditChange { change: submit_after(request, replies).saved->0 },
            ),
    decreases replies.len(),
{
    if replies.len() > 0 {
        let front = replies.drop_last();
        let s = submit_after(request, front);
        submit_is_sound(request, front);
        submit_stays_sound(s, replies.last());
        let command = CommandView::EditChange { change: s.saved->0 };
        assert(s.phase is Finished || s.phase is Restoring);
        if s.phase is Finished || s.todo[0] is Warn {
            lemma_edit_was_asked(request, front);
            let k = choose|k: int| #[trigger] answered(request, front, k, command);
            lemma_answered_stays(request, replies, k, command);
        } else {
            lemma_answered_now(request, replies);
            assert(answered(request, replies, replies.len() - 1, command));
        }
    }
}

/// The working copy is seen to: unless that is switched off, a real submission
/// that ends well has asked which change is the working copy, and has asked to
/// go back to that very change.
pub proof fn submit_restores_working_copy(
    request: SubmitRequest,
    replies: Seq<Result<ReplyView, ErrorView>>,
)
    requires
        !request.opts.dry_run,
        !request.opts.no_restore_cwc,
        submit_after(request, replies).phase is Finished,
        submit_after(request, replies).error is None,
    ensures
        exists|change: Seq<char>| restored(request, replies, change),
{
    submit_is_sound(request, replies);
    lemma_saved(request, replies);
    lemma_edit_was_asked(request, replies);
    assert(restored(request, replies, submit_after(request, replies).saved->0));
}

/// Whether the tracking of `name` on the remote has been asked for.
pub open spec fn was_followed(
    request: SubmitRequest,
    replies: Seq<Result<ReplyView, ErrorView>>,
    name: Seq<char>,
) -> bool {
    exists|k: int| #[trigger]
        answered(
            request,
            replies,
            k,
            CommandView::TrackOnRemote { name, remote: request.opts.remote },
        )
}

/// Whether the submission went through.
pub open spec fn past_submission(s: SubmitView) -> bool {
    s.phase is Following || s.phase is Restoring || (s.phase is Finished && s.error is None)
}

proof fn lemma_followed(
    request: SubmitRequest,
    replies: Seq<Result<ReplyView, ErrorView>>,
    i: int,
)
    requires
        !request.opts.dry_run,
        past_submission(submit_after(request, replies)),
        0 <= i < submit_after(request, replies).order.len(),
        ({
            let s = submit_after(request, replies);
            let at = s.order.len() - s.todo.len();
            s.phase is Following ==> i < at || (i == at && s.todo[0] is Warn)
        }),
    ensures
        was_followed(request, replies, submit_after(request, replies).order[i].name),
    decreases replies.len(),
{
    if replies.len() > 0 {
        let front = replies.drop_last();
        let s = submit_after(request, front);
        submit_is_sound(request, front);
        submit_stays_sound(s, replies.last());
        submit_is_sound(request, replies);
        let at = s.order.len() - s.todo.len();
        assert(past_submission(s));
        let command = CommandView::TrackOnRemote {
            name: s.order[i].name,
            remote: request.opts.remote,
        };
        if s.phase is Following && i == at && !(s.todo[0] is Warn) {
            lemma_answered_now(request, replies);
            assert(answered(request, replies, replies.len() - 1, command));
        } else {
            lemma_followed(request, front, i);
            let k = choose|k: int| #[trigger] answered(request, front, k, command);
            lemma_answered_stays(request, replies, k, command);
        }
    }
}

/// What was pushed stays mutable: a real submission that ends well has asked, for
/// every bookmark of the stack, to track it on the remote that it was pushed to.
pub proof fn submit_follows_every_bookmark(
    request: SubmitRequest,
    replies: Seq<Result<ReplyView, ErrorView>>,
    i: int,
)
    requires
        !request.opts.dry_run,
        submit_after(request, replies).phase is Finished,
        submit_after(request, replies).error is None,
        0 <= i < submit_after(request, replies).order.len(),
    ensures
        was_followed(request, replies, submit_after(request, replies).order[i].name),
{
    lemma_followed(request, replies, i);
}

/// An empty selection is refused, and nothing is asked for.
pub proof fn submit_refuses_empty_selection(
    request: SubmitRequest,
    replies: Seq<Result<ReplyView, ErrorView>>,
)
    requires
        request.selected.len() == 0,
    ensures
        submit_after(request, replies).pending() is None,
        submit_after(request, replies).error == Some(ErrorView::NoBookmarksSelected),
    decreases replies.len(),
{
    if replies.len() > 0 {
        submit_refuses_empty_selection(request, replies.drop_last());
    }
}

/// How many phases lie ahead at most.
pub open spec fn phases_left(phase: SubmitPhase) -> nat {
    match phase {
        SubmitPhase::Stacking => 8,
        SubmitPhase::Exporting => 7,
        SubmitPhase::Gating => 6,
        SubmitPhase::Tracking => 5,
        SubmitPhase::Saving => 4,
        SubmitPhase::Submitting => 3,
        SubmitPhase::Following => 2,
        SubmitPhase::Restoring => 1,
        SubmitPhase::Finished => 0,
    }
}

/// How many replies the phase can still take: two for a command whose failure is
/// warned of, one for any other.
pub open spec fn replies_left(s: SubmitView) -> int {
    match s.phase {
        SubmitPhase::Following | SubmitPhase::Restoring => 2 * s.todo.len() - (if s.todo[0] is Warn {
            1int
        } else {
            0int
        }),
        _ => s.todo.len() as int,
    }
}

/// Each reply takes a pipeline to a later phase, or leaves fewer replies to wait
/// for in the same one.
pub proof fn submit_gets_nearer(s: SubmitView, reply: Result<ReplyView, ErrorView>)
    requires
        sound(s),
        s.pending() is Some,
    ensures
        ({
            let n = submit_step(s, reply);
            ||| phases_left(n.phase) < phases_left(s.phase)
            ||| n.phase == s.phase && 0 <= replies_left(n) < replies_left(s)
        }),
{
    submit_stays_sound(s, reply);
    if s.phase is Following {
        let follows = follow_steps(s.opts.remote, s.order);
        lemma_skip_one(follows, s.order.len() - s.todo.len());
    }
}

/// Every pipeline comes to an end: whatever the tools go on replying, some number
/// of replies finishes it.
pub proof fn submit_ends(
    request: SubmitRequest,
    reply_at: spec_fn(int) -> Result<ReplyView, ErrorView>,
)
    ensures
        exists|n: nat|
            (#[trigger] submit_after(request, Seq::new(n, reply_at))).phase is Finished,
{
    let n = lemma_submit_ends(request, reply_at, 0);
    assert(submit_after(request, Seq::new(n, reply_at)).phase is Finished);
}

proof fn lemma_submit_ends(
    request: SubmitRequest,
    reply_at: spec_fn(int) -> Result<ReplyView, ErrorView>,
    k: nat,
) -> (n: nat)
    ensures
        submit_after(request, Seq::new(n, reply_at)).phase is Finished,
    decreases
        phases_left(submit_after(request, Seq::new(k, reply_at)).phase),
        replies_left(submit_after(request, Seq::new(k, reply_at))),
{
    let replies = Seq::new(k, reply_at);
    let s = submit_after(request, replies);
    submit_is_sound(request, replies);
    if s.phase is Finished {
        k
    } else {
        let more = Seq::new(k + 1, reply_at);
        assert(more.drop_last() =~= replies);
        submit_gets_nearer(s, more.last());
        lemma_submit_ends(request, reply_at, k + 1)
    }
}

} // verus!
