//! The `jj-gt submit` pipeline.
//!
//! The pipeline is a state machine: [`SubmitRun::start`] gives its first state,
//! [`SubmitRun::pending`] the command to be carried out next, and
//! [`submit_cmd`] takes what came back and moves on. The steps:
//!
//! 1. Find out how the selected bookmarks are stacked, and where the stack ends.
//! 2. Export the bookmarks to git.
//! 3. Run the pre-push hooks on everything between trunk and the tip.
//! 4. Track the stack, bottom to top.
//! 5. Remember the working-copy change.
//! 6. Submit the stack.
//! 7. Track the pushed bookmarks on the remote.
//! 8. Return to the working-copy change.

use vstd::prelude::*;

use crate::command::{only, reply_view, Command, CommandView, Reply};
use crate::error::JjGtError;
use crate::hooks::{judge_pre_push, pre_push_revset, HookOutcome, Runner};
use crate::stack::{find_tip, sort_for_tracking, StackedBookmark};
use crate::submit_model::{
    advance, after_exporting, after_following, after_gate, after_hooks, after_stacking,
    after_submitting, after_tracking, begin_submit, end_of_phase, fail, finish, follow_steps,
    submit_argv, submit_start, submit_step, track_or_say, track_steps, turn, warning, SubmitOpts,
    SubmitPhase, SubmitView,
};
use crate::text::{join, opt_view, views};

verus! {

/// A `jj-gt submit` pipeline under way.
pub struct SubmitRun {
    opts: SubmitOpts,
    trunk: String,
    phase: SubmitPhase,
    todo: Vec<Command>,
    order: Vec<StackedBookmark>,
    tip: String,
    saved: Option<String>,
    error: Option<JjGtError>,
}

impl View for SubmitRun {
    type V = SubmitView;

    closed spec fn view(&self) -> SubmitView {
        SubmitView {
            opts: self.opts@,
            trunk: self.trunk@,
            phase: self.phase,
            todo: views(self.todo@),
            order: views(self.order@),
            tip: self.tip@,
            saved: opt_view(self.saved),
            error: opt_view(self.error),
        }
    }
}

/// Tracks a bookmark, or says so in a dry run.
pub fn track_command(dry_run: bool, name: &str, parent: &str) -> (res: Command)
    ensures
        res@ == track_or_say(dry_run, name@, parent@),
        dry_run ==> (res matches Command::Print(line) && line@ == "would: gt track "@ + name@
            + " --parent "@ + parent@),
        !dry_run ==> (res matches Command::GtTrack { name: bookmark, parent: base } && bookmark@
            == name@ && base@ == parent@),
{
    if dry_run {
        Command::Print(
            "would: gt track ".to_owned().concat(name).concat(" --parent ").concat(parent),
        )
    } else {
        Command::GtTrack { name: name.to_owned(), parent: parent.to_owned() }
    }
}

/// Tracks a stack in its order, or says so in a dry run.
pub fn track_commands(dry_run: bool, trunk: &str, order: &Vec<StackedBookmark>) -> (res: Vec<
    Command,
>)
    ensures
        views(res@) == track_steps(dry_run, trunk@, views(order@)),
        res@.len() == order@.len(),
        forall|i: int|
            0 <= i < order@.len() && !dry_run ==> (#[trigger] res@[i])@ == (CommandView::GtTrack {
                name: order@[i].name@,
                parent: order@[i].parent@.branch_name(trunk@),
            }),
        forall|i: int|
            0 <= i < order@.len() && dry_run ==> (#[trigger] res@[i])@ == CommandView::Print(
                "would: gt track "@ + order@[i].name@ + " --parent "@
                    + order@[i].parent@.branch_name(trunk@),
            ),
{
    let mut res: Vec<Command> = Vec::new();
    for i in 0..order.len()
        invariant
            views(res@) =~= track_steps(dry_run, trunk@, views(order@)).take(i as int),
    {
        let command: Command = track_command(
            dry_run,
            order[i].name.as_str(),
            order[i].parent.as_branch_name(trunk),
        );
        proof {
            crate::text::lemma_views_push(res@, command);
            assert(command@ == track_steps(dry_run, trunk@, views(order@))[i as int]);
        }
        res.push(command);
    }
    proof {
        let steps = track_steps(dry_run, trunk@, views(order@));
        assert(steps.take(order@.len() as int) =~= steps);
        assert(views(res@).len() == res@.len());
        assert forall|i: int| 0 <= i < order@.len() implies (#[trigger] res@[i])@ == steps[i] by {
            assert(views(res@)[i] == res@[i]@);
        }
    }
    res
}

/// The arguments of `gt` that submit the stack below `tip`.
pub fn build_submit_argv(tip: &str, flags: &Vec<String>) -> (res: Vec<String>)
    ensures
        views(res@) == submit_argv(tip@, views(flags@)),
        res@.len() == flags@.len() + 4,
        res@[0]@ == "submit"@ && res@[1]@ == "--stack"@ && res@[2]@ == "--branch"@,
        res@[3]@ == tip@,
        forall|i: int| 0 <= i < flags@.len() ==> res@[i + 4]@ == (#[trigger] flags@[i])@,
{
    let mut res: Vec<String> = Vec::new();
    res.push("submit".to_owned());
    res.push("--stack".to_owned());
    res.push("--branch".to_owned());
    res.push(tip.to_owned());
    assert(views(res@) =~= submit_argv(tip@, Seq::empty()));
    for i in 0..flags.len()
        invariant
            views(res@) =~= submit_argv(tip@, views(flags@).take(i as int)),
    {
        let flag: String = flags[i].clone();
        proof {
            crate::text::lemma_views_push(res@, flag);
        }
        res.push(flag);
    }
    proof {
        assert(views(flags@).take(flags@.len() as int) =~= views(flags@));
        let argv = submit_argv(tip@, views(flags@));
        assert(views(res@).len() == res@.len());
        assert forall|i: int| 0 <= i < res@.len() implies (#[trigger] res@[i])@ == argv[i] by {
            assert(views(res@)[i] == res@[i]@);
        }
        assert forall|i: int| 0 <= i < flags@.len() implies res@[i + 4]@ == (
        #[trigger] flags@[i])@ by {
            assert(argv[i + 4] == views(flags@)[i]);
        }
    }
    res
}

fn follow_commands(remote: &String, order: &Vec<StackedBookmark>) -> (res: Vec<Command>)
    ensures
        views(res@) == follow_steps(remote@, views(order@)),
{
    let mut res: Vec<Command> = Vec::new();
    for i in 0..order.len()
        invariant
            views(res@) =~= follow_steps(remote@, views(order@)).take(i as int),
    {
        let command: Command = Command::TrackOnRemote {
            name: order[i].name.clone(),
            remote: remote.clone(),
        };
        proof {
            crate::text::lemma_views_push(res@, command);
        }
        res.push(command);
    }
    res
}

fn warn_of(command: &Command, error: &JjGtError) -> (res: Option<Command>)
    ensures
        opt_view(res) == warning(command@, error@),
{
    match command {
        Command::TrackOnRemote { name, remote } => {
            let reason: String = error.message();
            Some(
                Command::Warn(
                    "jj-gt: warning: could not track `".to_owned().concat(name.as_str()).concat(
                        "@",
                    ).concat(remote.as_str()).concat("`: ").concat(reason.as_str()),
                ),
            )
        },
        Command::EditChange { change } => {
            let reason: String = error.message();
            Some(
                Command::Warn(
                    "jj-gt: could not restore @ to ".to_owned().concat(change.as_str()).concat(
                        ": ",
                    ).concat(reason.as_str()),
                ),
            )
        },
        _ => None,
    }
}

impl SubmitRun {
    /// Begins a pipeline for the selected bookmarks.
    pub fn start(selected: Vec<String>, trunk: String, opts: SubmitOpts) -> (res: SubmitRun)
        ensures
            res@ == submit_start(views(selected@), trunk@, opts@),
            selected@.len() > 0 ==> res@.pending() == Some(
                CommandView::DeriveParents { names: views(selected@), trunk: trunk@ },
            ) && res@.error is None,
            selected@.len() == 0 ==> res@.pending() is None && res@.error == Some(
                crate::error::ErrorView::NoBookmarksSelected,
            ),
            res@.opts == opts@,
            res@.trunk == trunk@,
    {
        let empty: bool = selected.len() == 0;
        let command: Command = Command::DeriveParents { names: selected, trunk: trunk.clone() };
        let order: Vec<StackedBookmark> = Vec::new();
        assert(views(order@) =~= Seq::<crate::stack::StackedView>::empty());
        let run = SubmitRun {
            opts,
            trunk,
            phase: SubmitPhase::Stacking,
            todo: only(command),
            order,
            tip: String::new(),
            saved: None,
            error: None,
        };
        if empty {
            run.fail(JjGtError::NoBookmarksSelected)
        } else {
            run
        }
    }

    /// The command to be carried out next; none once the pipeline has ended.
    pub fn pending(&self) -> (res: Option<&Command>)
        ensures
            opt_view(res) == self@.pending(),
    {
        match self.phase {
            SubmitPhase::Finished => None,
            _ => if self.todo.len() == 0 {
                None
            } else {
                Some(&self.todo[0])
            },
        }
    }

    /// How a pipeline that has ended came out.
    pub fn into_result(self) -> (res: Result<(), JjGtError>)
        ensures
            match res {
                Ok(()) => self@.error is None,
                Err(error) => self@.error == Some(error@),
            },
    {
        match self.error {
            None => Ok(()),
            Some(error) => Err(error),
        }
    }

    fn turn(self, phase: SubmitPhase, todo: Vec<Command>) -> (res: SubmitRun)
        ensures
            res@ == turn(self@, phase, views(todo@)),
    {
        SubmitRun { phase, todo, ..self }
    }

    fn finish(self) -> (res: SubmitRun)
        ensures
            res@ == finish(self@),
    {
        let none: Vec<Command> = Vec::new();
        assert(views(none@) =~= Seq::<CommandView>::empty());
        self.turn(SubmitPhase::Finished, none)
    }

    fn fail(self, error: JjGtError) -> (res: SubmitRun)
        ensures
            res@ == fail(self@, error@),
    {
        SubmitRun { error: Some(error), ..self.finish() }
    }

    fn after_stacking(self, stacked: Vec<StackedBookmark>) -> (res: SubmitRun)
        ensures
            res@ == after_stacking(self@, views(stacked@)),
    {
        match find_tip(&stacked) {
            Err(error) => self.fail(error),
            Ok(tip) => {
                let run = SubmitRun { tip, order: sort_for_tracking(&stacked), ..self };
                if run.opts.no_export {
                    run.after_exporting()
                } else {
                    run.turn(SubmitPhase::Exporting, only(Command::GitExport))
                }
            },
        }
    }

    fn after_exporting(self) -> (res: SubmitRun)
        ensures
            res@ == after_exporting(self@),
    {
        if self.opts.no_hooks {
            self.after_gate()
        } else {
            let revset: String = pre_push_revset(self.trunk.as_str(), self.tip.as_str());
            let runner: Option<Runner> = self.opts.hooks.runner_override;
            self.turn(SubmitPhase::Gating, only(Command::RunHooks { revset, runner }))
        }
    }

    fn after_hooks(self, outcome: Option<HookOutcome>) -> (res: SubmitRun)
        ensures
            res@ == after_hooks(self@, opt_view(outcome)),
    {
        let revset: String = pre_push_revset(self.trunk.as_str(), self.tip.as_str());
        match judge_pre_push(revset.as_str(), outcome) {
            Err(error) => self.fail(error),
            Ok(()) => self.after_gate(),
        }
    }

    fn after_gate(self) -> (res: SubmitRun)
        ensures
            res@ == after_gate(self@),
    {
        let todo: Vec<Command> = track_commands(
            self.opts.dry_run,
            self.trunk.as_str(),
            &self.order,
        );
        if todo.len() == 0 {
            self.after_tracking()
        } else {
            self.turn(SubmitPhase::Tracking, todo)
        }
    }

    fn after_tracking(self) -> (res: SubmitRun)
        ensures
            res@ == after_tracking(self@),
    {
        if self.opts.no_restore_cwc {
            self.begin_submit()
        } else {
            self.turn(SubmitPhase::Saving, only(Command::CurrentChange))
        }
    }

    fn begin_submit(self) -> (res: SubmitRun)
        ensures
            res@ == begin_submit(self@),
    {
        let argv: Vec<String> = build_submit_argv(self.tip.as_str(), &self.opts.flags);
        let command: Command = if self.opts.dry_run {
            Command::Print("would: gt ".to_owned().concat(join(&argv, " ").as_str()))
        } else {
            Command::GtSubmit { argv }
        };
        self.turn(SubmitPhase::Submitting, only(command))
    }

    fn after_submitting(self) -> (res: SubmitRun)
        ensures
            res@ == after_submitting(self@),
    {
        if self.opts.dry_run {
            return self.finish();
        }
        let todo: Vec<Command> = follow_commands(&self.opts.remote, &self.order);
        if todo.len() == 0 {
            self.after_following()
        } else {
            self.turn(SubmitPhase::Following, todo)
        }
    }

    fn after_following(self) -> (res: SubmitRun)
        ensures
            res@ == after_following(self@),
    {
        let saved: Option<String> = match &self.saved {
            Some(change) => Some(change.clone()),
            None => None,
        };
        match saved {
            None => self.finish(),
            Some(change) => self.turn(SubmitPhase::Restoring, only(Command::EditChange { change })),
        }
    }

    fn end_of_phase(self) -> (res: SubmitRun)
        ensures
            res@ == end_of_phase(self@),
    {
        match self.phase {
            SubmitPhase::Exporting => self.after_exporting(),
            SubmitPhase::Tracking => self.after_tracking(),
            SubmitPhase::Submitting => self.after_submitting(),
            SubmitPhase::Following => self.after_following(),
            SubmitPhase::Restoring => self.finish(),
            _ => self,
        }
    }

    fn advance(self) -> (res: SubmitRun)
        ensures
            res@ == advance(self@),
    {
        if self.todo.len() > 1 {
            let mut run = self;
            let ghost before = views(run.todo@);
            run.todo.remove(0);
            assert(run@.todo =~= before.drop_first());
            run
        } else {
            self.end_of_phase()
        }
    }
}

/// Takes what came back from the pending command, and moves the pipeline on to
/// the next command or to its end.
///
/// What a tool failed at ends the pipeline with that error, up to the
/// submission; what fails after it is only warned of.
pub fn submit_cmd(run: SubmitRun, reply: Result<Reply, JjGtError>) -> (res: SubmitRun)
    ensures
        res@ == submit_step(run@, reply_view(reply)),
{
    let (fits, attempt, warn) = match run.pending() {
        None => {
            return run;
        },
        Some(command) => match &reply {
            Ok(reply) => (command.accepts(reply), false, None),
            Err(error) => (false, command.is_best_effort(), warn_of(command, error)),
        },
    };
    match reply {
        Err(error) => match warn {
            Some(line) => {
                let mut run = run;
                let ghost before = views(run.todo@);
                run.todo.set(0, line);
                assert(run@.todo =~= seq![line@] + before.drop_first());
                run
            },
            None => if attempt {
                run.advance()
            } else {
                run.fail(error)
            },
        },
        Ok(reply) => if !fits {
            run.fail(JjGtError::UnexpectedReply)
        } else {
            match reply {
                Reply::Parents(stacked) => run.after_stacking(stacked),
                Reply::Hooks(outcome) => run.after_hooks(outcome),
                Reply::Change(change) => SubmitRun { saved: Some(change), ..run }.begin_submit(),
                _ => run.advance(),
            }
        },
    }
}

} // verus!
