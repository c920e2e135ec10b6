//! The `jj-gt submit` pipeline as a transition system: its states, what each
//! state asks for, and how a reply leads from one state to the next.

use vstd::prelude::*;

use crate::command::{CommandView, ReplyView};
use crate::error::ErrorView;
use crate::hooks::{gate_error, push_range, HookOpts, OutcomeView};
use crate::stack::{tip_of, tracking_order, StackedView};
use crate::text::{joined, views};

verus! {

/// What `jj-gt submit` was asked to do.
#[derive(Debug, PartialEq, Eq)]
pub struct SubmitOpts {
    /// The remote that the stack is pushed to.
    pub remote: String,
    /// Further arguments for `gt submit`.
    pub flags: Vec<String>,
    pub dry_run: bool,
    pub no_export: bool,
    pub no_hooks: bool,
    /// How the hooks are run.
    pub hooks: HookOpts,
    pub no_restore_cwc: bool,
}

/// The texts and switches of [`SubmitOpts`].
pub struct SubmitOptsView {
    pub remote: Seq<char>,
    pub flags: Seq<Seq<char>>,
    pub dry_run: bool,
    pub no_export: bool,
    pub no_hooks: bool,
    pub hooks: HookOpts,
    pub no_restore_cwc: bool,
}

impl View for SubmitOpts {
    type V = SubmitOptsView;

    open spec fn view(&self) -> SubmitOptsView {
        SubmitOptsView {
            remote: self.remote@,
            flags: views(self.flags@),
            dry_run: self.dry_run,
            no_export: self.no_export,
            no_hooks: self.no_hooks,
            hooks: self.hooks,
            no_restore_cwc: self.no_restore_cwc,
        }
    }
}

/// Which part of the pipeline is under way.
#[derive(Debug, Clone, Copy, PartialEq, Eq, Structural)]
pub enum SubmitPhase {
    Stacking,
    Exporting,
    Gating,
    Tracking,
    Saving,
    Submitting,
    Following,
    Restoring,
    Finished,
}

/// A state of the pipeline.
pub struct SubmitView {
    pub opts: SubmitOptsView,
    pub trunk: Seq<char>,
    pub phase: SubmitPhase,
    /// The commands of this phase that are not answered yet; the first of them
    /// is pending.
    pub todo: Seq<CommandView>,
    /// The stack, bottom to top.
    pub order: Seq<StackedView>,
    /// The head of the stack.
    pub tip: Seq<char>,
    /// The change to return to.
    pub saved: Option<Seq<char>>,
    /// What stopped the pipeline, if anything did.
    pub error: Option<ErrorView>,
}

impl SubmitView {
    /// The command to be carried out next; none once the pipeline has ended.
    pub open spec fn pending(self) -> Option<CommandView> {
        if self.phase is Finished || self.todo.len() == 0 {
            None
        } else {
            Some(self.todo[0])
        }
    }
}

/// How one bookmark is tracked: in a dry run it is only said.
pub open spec fn track_or_say(
    dry_run: bool,
    name: Seq<char>,
    parent: Seq<char>,
) -> CommandView {
    if dry_run {
        CommandView::Print("would: gt track "@ + name + " --parent "@ + parent)
    } else {
        CommandView::GtTrack { name, parent }
    }
}

/// The tracking commands for a stack, in its order.
pub open spec fn track_steps(
    dry_run: bool,
    trunk: Seq<char>,
    order: Seq<StackedView>,
) -> Seq<CommandView> {
    Seq::new(
        order.len(),
        |i: int| track_or_say(dry_run, order[i].name, order[i].parent.branch_name(trunk)),
    )
}

/// The arguments of `gt` that submit the stack below `tip`.
pub open spec fn submit_argv(tip: Seq<char>, flags: Seq<Seq<char>>) -> Seq<Seq<char>> {
    seq!["submit"@, "--stack"@, "--branch"@, tip] + flags
}

/// How the stack is submitted: in a dry run it is only said.
pub open spec fn submit_or_say(opts: SubmitOptsView, tip: Seq<char>) -> CommandView {
    let argv = submit_argv(tip, opts.flags);
    if opts.dry_run {
        CommandView::Print("would: gt "@ + joined(argv, " "@))
    } else {
        CommandView::GtSubmit { argv }
    }
}

/// The commands that track the pushed bookmarks on the remote.
pub open spec fn follow_steps(remote: Seq<char>, order: Seq<StackedView>) -> Seq<CommandView> {
    Seq::new(
        order.len(),
        |i: int| CommandView::TrackOnRemote { name: order[i].name, remote },
    )
}

/// The warning for a command whose failure does not undo the submission.
pub open spec fn warning(command: CommandView, error: ErrorView) -> Option<CommandView> {
    match command {
        CommandView::TrackOnRemote { name, remote } => Some(
            CommandView::Warn(
                "jj-gt: warning: could not track `"@ + name + "@"@ + remote + "`: "@
                    + error.message(),
            ),
        ),
        CommandView::EditChange { change } => Some(
            CommandView::Warn(
                "jj-gt: could not restore @ to "@ + change + ": "@ + error.message(),
            ),
        ),
        _ => None,
    }
}

/// The first state of the pipeline. An empty selection is refused at once.
pub open spec fn submit_start(
    selected: Seq<Seq<char>>,
    trunk: Seq<char>,
    opts: SubmitOptsView,
) -> SubmitView {
    let s = SubmitView {
        opts,
        trunk,
        phase: SubmitPhase::Stacking,
        todo: seq![CommandView::DeriveParents { names: selected, trunk }],
        order: Seq::empty(),
        tip: Seq::empty(),
        saved: None,
        error: None,
    };
    if selected.len() == 0 {
        fail(s, ErrorView::NoBookmarksSelected)
    } else {
        s
    }
}

/// The pipeline turns to another phase, with these commands.
pub open spec fn turn(s: SubmitView, phase: SubmitPhase, todo: Seq<CommandView>) -> SubmitView {
    SubmitView { phase, todo, ..s }
}

/// The pipeline ends.
pub open spec fn finish(s: SubmitView) -> SubmitView {
    turn(s, SubmitPhase::Finished, Seq::empty())
}

/// The pipeline ends with an error.
pub open spec fn fail(s: SubmitView, error: ErrorView) -> SubmitView {
    SubmitView { error: Some(error), ..finish(s) }
}

/// With the stack at hand: find its tip, then export.
pub open spec fn after_stacking(s: SubmitView, stacked: Seq<StackedView>) -> SubmitView {
    match tip_of(stacked) {
        None => fail(s, ErrorView::NoSingleTip),
        Some(tip) => {
            let s = SubmitView { tip, order: tracking_order(stacked), ..s };
            if s.opts.no_export {
                after_exporting(s)
            } else {
                turn(s, SubmitPhase::Exporting, seq![CommandView::GitExport])
            }
        },
    }
}

/// After the export: run the hooks.
pub open spec fn after_exporting(s: SubmitView) -> SubmitView {
    if s.opts.no_hooks {
        after_gate(s)
    } else {
        turn(
            s,
            SubmitPhase::Gating,
            seq![
                CommandView::RunHooks {
                    revset: push_range(s.trunk, s.tip),
                    runner: s.opts.hooks.runner_override,
                },
            ],
        )
    }
}

/// With the outcome of the hooks at hand: go on or stop.
pub open spec fn after_hooks(s: SubmitView, outcome: Option<OutcomeView>) -> SubmitView {
    match gate_error(push_range(s.trunk, s.tip), outcome) {
        Some(error) => fail(s, error),
        None => after_gate(s),
    }
}

/// The hooks have nothing against it: track the stack.
pub open spec fn after_gate(s: SubmitView) -> SubmitView {
    let todo = track_steps(s.opts.dry_run, s.trunk, s.order);
    if todo.len() == 0 {
        after_tracking(s)
    } else {
        turn(s, SubmitPhase::Tracking, todo)
    }
}

/// With the stack tracked: remember where the working copy is.
pub open spec fn after_tracking(s: SubmitView) -> SubmitView {
    if s.opts.no_restore_cwc {
        begin_submit(s)
    } else {
        turn(s, SubmitPhase::Saving, seq![CommandView::CurrentChange])
    }
}

/// Submit the stack.
pub open spec fn begin_submit(s: SubmitView) -> SubmitView {
    turn(s, SubmitPhase::Submitting, seq![submit_or_say(s.opts, s.tip)])
}

/// After the submission: track what was pushed on the remote. A dry run has
/// pushed nothing and ends here.
pub open spec fn after_submitting(s: SubmitView) -> SubmitView {
    if s.opts.dry_run {
        finish(s)
    } else {
        let todo = follow_steps(s.opts.remote, s.order);
        if todo.len() == 0 {
            after_following(s)
        } else {
            turn(s, SubmitPhase::Following, todo)
        }
    }
}

/// At last: return to where the working copy was.
pub open spec fn after_following(s: SubmitView) -> SubmitView {
    match s.saved {
        None => finish(s),
        Some(change) => turn(
            s,
            SubmitPhase::Restoring,
            seq![CommandView::EditChange { change }],
        ),
    }
}

/// The pending command was the last one of a phase whose commands say nothing
/// but that they are done.
pub open spec fn end_of_phase(s: SubmitView) -> SubmitView {
    match s.phase {
        SubmitPhase::Exporting => after_exporting(s),
        SubmitPhase::Tracking => after_tracking(s),
        SubmitPhase::Submitting => after_submitting(s),
        SubmitPhase::Following => after_following(s),
        SubmitPhase::Restoring => finish(s),
        _ => s,
    }
}

/// The pending command is done.
pub open spec fn advance(s: SubmitView) -> SubmitView {
    if s.todo.len() > 1 {
        SubmitView { todo: s.todo.drop_first(), ..s }
    } else {
        end_of_phase(s)
    }
}

/// The pending command has been answered with a reply of its kind.
pub open spec fn absorb(s: SubmitView, reply: ReplyView) -> SubmitView {
    match reply {
        ReplyView::Parents(stacked) => after_stacking(s, stacked),
        ReplyView::Hooks(outcome) => after_hooks(s, outcome),
        ReplyView::Change(change) => begin_submit(SubmitView { saved: Some(change), ..s }),
        _ => advance(s),
    }
}

/// The pending command has failed. What fails after the submission is only
/// warned of; what is printed cannot fail; anything else ends the pipeline.
pub open spec fn give_up(s: SubmitView, command: CommandView, error: ErrorView) -> SubmitView {
    match warning(command, error) {
        Some(warn) => SubmitView { todo: seq![warn] + s.todo.drop_first(), ..s },
        None => if command.best_effort() {
            advance(s)
        } else {
            fail(s, error)
        },
    }
}

/// One step of the pipeline: what came back from the pending command leads to
/// the next state. A pipeline that has ended stays as it is.
pub open spec fn submit_step(s: SubmitView, reply: Result<ReplyView, ErrorView>) -> SubmitView {
    match s.pending() {
        None => s,
        Some(command) => match reply {
            Ok(reply) => if command.expects(reply) {
                absorb(s, reply)
            } else {
                fail(s, ErrorView::UnexpectedReply)
            },
            Err(error) => give_up(s, command, error),
        },
    }
}

} // verus!
