//! The `jj-gt track` pipeline.
//!
//! The pipeline is a state machine: [`TrackRun::start`] gives its first state,
//! [`TrackRun::pending`] the command to be carried out next, and [`track_cmd`]
//! takes what came back and moves on. The bookmarks are exported to git; then
//! each selected one is tracked, either on the parent that the user names or,
//! bottom to top, on the one that it is stacked on.

use vstd::prelude::*;

use crate::command::{only, reply_view, Command, CommandView, Reply, ReplyView};
use crate::error::{ErrorView, JjGtError};
use crate::stack::{
    acyclic, parents_first, sort_for_tracking, tracking_order, ParentView, StackedBookmark,
    StackedView,
};
use crate::submit::{track_command, track_commands};
use crate::submit_model::{track_or_say, track_steps};
use crate::text::{opt_view, views};

verus! {

/// Which part of the pipeline is under way.
#[derive(Debug, Clone, Copy, PartialEq, Eq, Structural)]
pub enum TrackPhase {
    Exporting,
    Stacking,
    Tracking,
    Finished,
}

/// What `jj-gt track` was asked to do.
#[derive(Debug, PartialEq, Eq)]
pub struct TrackOpts {
    /// The parent to track every bookmark on, in place of the one that it is
    /// stacked on.
    pub parent: Option<String>,
    pub no_export: bool,
    pub dry_run: bool,
}

/// The contents of [`TrackOpts`].
pub struct TrackOptsView {
    pub parent: Option<Seq<char>>,
    pub no_export: bool,
    pub dry_run: bool,
}

impl View for TrackOpts {
    type V = TrackOptsView;

    open spec fn view(&self) -> TrackOptsView {
        TrackOptsView {
            parent: opt_view(self.parent),
            no_export: self.no_export,
            dry_run: self.dry_run,
        }
    }
}

/// A state of the pipeline.
pub struct TrackView {
    pub opts: TrackOptsView,
    pub selected: Seq<Seq<char>>,
    pub trunk: Seq<char>,
    pub phase: TrackPhase,
    /// The commands of this phase that are not answered yet; the first of them
    /// is pending.
    pub todo: Seq<CommandView>,
    /// What stopped the pipeline, if anything did.
    pub error: Option<ErrorView>,
}

impl TrackView {
    /// The command to be carried out next; none once the pipeline has ended.
    pub open spec fn pending(self) -> Option<CommandView> {
        if self.phase is Finished || self.todo.len() == 0 {
            None
        } else {
            Some(self.todo[0])
        }
    }
}

/// The tracking commands for bookmarks that all get the same parent, in the
/// order in which they were selected.
pub open spec fn override_steps(
    dry_run: bool,
    selected: Seq<Seq<char>>,
    parent: Seq<char>,
) -> Seq<CommandView> {
    Seq::new(selected.len(), |i: int| track_or_say(dry_run, selected[i], parent))
}

/// The pipeline turns to another phase, with these commands; without any, it
/// ends.
pub open spec fn turn(s: TrackView, phase: TrackPhase, todo: Seq<CommandView>) -> TrackView {
    if todo.len() == 0 {
        TrackView { phase: TrackPhase::Finished, todo, ..s }
    } else {
        TrackView { phase, todo, ..s }
    }
}

/// The pipeline ends with an error.
pub open spec fn fail(s: TrackView, error: ErrorView) -> TrackView {
    TrackView {
        phase: TrackPhase::Finished,
        todo: Seq::empty(),
        error: Some(error),
        ..s
    }
}

/// The first state of the pipeline. An empty selection is refused at once.
pub open spec fn track_start(
    selected: Seq<Seq<char>>,
    trunk: Seq<char>,
    opts: TrackOptsView,
) -> TrackView {
    let s = TrackView {
        opts,
        selected,
        trunk,
        phase: TrackPhase::Exporting,
        todo: seq![CommandView::GitExport],
        error: None,
    };
    if selected.len() == 0 {
        fail(s, ErrorView::NoBookmarksSelected)
    } else if opts.no_export {
        after_exporting(s)
    } else {
        s
    }
}

/// After the export: track on the parent that was named, or find out how the
/// bookmarks are stacked.
pub open spec fn after_exporting(s: TrackView) -> TrackView {
    match s.opts.parent {
        Some(parent) => turn(
            s,
            TrackPhase::Tracking,
            override_steps(s.opts.dry_run, s.selected, parent),
        ),
        None => turn(
            s,
            TrackPhase::Stacking,
            seq![CommandView::DeriveParents { names: s.selected, trunk: s.trunk }],
        ),
    }
}

/// With the stack at hand: track it, bottom to top.
pub open spec fn after_stacking(s: TrackView, stacked: Seq<StackedView>) -> TrackView {
    turn(
        s,
        TrackPhase::Tracking,
        track_steps(s.opts.dry_run, s.trunk, tracking_order(stacked)),
    )
}

/// The pending command is done.
pub open spec fn advance(s: TrackView) -> TrackView {
    match s.phase {
        TrackPhase::Exporting => after_exporting(s),
        _ => turn(s, s.phase, s.todo.drop_first()),
    }
}

/// One step of the pipeline: what came back from the pending command leads to
/// the next state. A failure ends the pipeline with that error; a pipeline that
/// has ended stays as it is.
pub open spec fn track_step(s: TrackView, reply: Result<ReplyView, ErrorView>) -> TrackView {
    match s.pending() {
        None => s,
        Some(command) => match reply {
            Ok(reply) => if !command.expects(reply) {
                fail(s, ErrorView::UnexpectedReply)
            } else {
                match reply {
                    ReplyView::Parents(stacked) => after_stacking(s, stacked),
                    _ => advance(s),
                }
            },
            Err(error) => if command.best_effort() {
                advance(s)
            } else {
                fail(s, error)
            },
        },
    }
}

/// The state that a pipeline is in after these replies.
pub open spec fn track_after(
    selected: Seq<Seq<char>>,
    trunk: Seq<char>,
    opts: TrackOptsView,
    replies: Seq<Result<ReplyView, ErrorView>>,
) -> TrackView
    decreases replies.len(),
{
    if replies.len() == 0 {
        track_start(selected, trunk, opts)
    } else {
        track_step(track_after(selected, trunk, opts, replies.drop_last()), replies.last())
    }
}

/// Whether the pending commands are those of the phase.
pub open spec fn in_phase(s: TrackView) -> bool {
    &&& match s.phase {
        TrackPhase::Exporting => !s.opts.no_export && s.todo == seq![CommandView::GitExport],
        TrackPhase::Stacking => s.opts.parent is None && s.todo == seq![
            CommandView::DeriveParents { names: s.selected, trunk: s.trunk },
        ],
        TrackPhase::Tracking => s.todo.len() > 0 && forall|i: int|
            0 <= i < s.todo.len() ==> if s.opts.dry_run {
                (#[trigger] s.todo[i]) is Print
            } else {
                s.todo[i] is GtTrack && (s.opts.parent matches Some(parent)
                    ==> s.todo[i]->GtTrack_parent == parent)
            },
        TrackPhase::Finished => s.todo.len() == 0,
    }
    &&& s.error is Some ==> s.phase is Finished
}

/// Whatever the tools reply, a pipeline asks for the commands of its phase, and
/// what it was asked to do stays as it was.
pub proof fn track_is_sound(
    selected: Seq<Seq<char>>,
    trunk: Seq<char>,
    opts: TrackOptsView,
    replies: Seq<Result<ReplyView, ErrorView>>,
)
    ensures
        in_phase(track_after(selected, trunk, opts, replies)),
        track_after(selected, trunk, opts, replies).opts == opts,
        track_after(selected, trunk, opts, replies).selected == selected,
        track_after(selected, trunk, opts, replies).trunk == trunk,
    decreases replies.len(),
{
    if replies.len() > 0 {
        track_is_sound(selected, trunk, opts, replies.drop_last());
        let s = track_after(selected, trunk, opts, replies.drop_last());
        let n = track_after(selected, trunk, opts, replies);
        if s.phase is Tracking && n.phase is Tracking {
            assert forall|i: int| 0 <= i < n.todo.len() implies n.todo[i] == #[trigger] s.todo[i
                + 1] by {}
        }
    }
}

/// A dry run exports the bookmarks, unless that is switched off too, and changes
/// nothing else.
pub proof fn track_dry_run_only_exports(
    selected: Seq<Seq<char>>,
    trunk: Seq<char>,
    opts: TrackOptsView,
    replies: Seq<Result<ReplyView, ErrorView>>,
)
    requires
        opts.dry_run,
    ensures
        track_after(selected, trunk, opts, replies).pending() matches Some(command)
            ==> command.mutates() ==> command is GitExport && !opts.no_export,
{
    track_is_sound(selected, trunk, opts, replies);
}

/// A parent that the user names is the parent of every bookmark that is
/// tracked.
pub proof fn track_override_wins(
    selected: Seq<Seq<char>>,
    trunk: Seq<char>,
    opts: TrackOptsView,
    replies: Seq<Result<ReplyView, ErrorView>>,
    name: Seq<char>,
    parent: Seq<char>,
)
    requires
        opts.parent is Some,
        track_after(selected, trunk, opts, replies).pending() == Some(
            CommandView::GtTrack { name, parent },
        ),
    ensures
        parent == opts.parent->0,
{
    track_is_sound(selected, trunk, opts, replies);
}

/// An empty selection is refused, and nothing is asked for.
pub proof fn track_refuses_empty_selection(
    trunk: Seq<char>,
    opts: TrackOptsView,
    replies: Seq<Result<ReplyView, ErrorView>>,
)
    ensures
        track_after(Seq::empty(), trunk, opts, replies).pending() is None,
        track_after(Seq::empty(), trunk, opts, replies).error == Some(
            ErrorView::NoBookmarksSelected,
        ),
    decreases replies.len(),
{
    if replies.len() > 0 {
        track_refuses_empty_selection(trunk, opts, replies.drop_last());
    }
}

/// Each reply takes a pipeline to a later phase, or leaves fewer commands in the
/// same one.
pub proof fn track_gets_nearer(s: TrackView, reply: Result<ReplyView, ErrorView>)
    requires
        in_phase(s),
        s.pending() is Some,
    ensures
        ({
            let n = track_step(s, reply);
            ||| phases_left(n.phase) < phases_left(s.phase)
            ||| n.phase == s.phase && n.todo.len() < s.todo.len()
        }),
{
}

/// How many phases lie ahead at most.
pub open spec fn phases_left(phase: TrackPhase) -> nat {
    match phase {
        TrackPhase::Exporting => 3,
        TrackPhase::Stacking => 2,
        TrackPhase::Tracking => 1,
        TrackPhase::Finished => 0,
    }
}

/// Every pipeline comes to an end: whatever the tools go on replying, some number
/// of replies finishes it.
pub proof fn track_ends(
    selected: Seq<Seq<char>>,
    trunk: Seq<char>,
    opts: TrackOptsView,
    reply_at: spec_fn(int) -> Result<ReplyView, ErrorView>,
)
    ensures
        exists|n: nat|
            (#[trigger] track_after(selected, trunk, opts, Seq::new(n, reply_at))).phase
                is Finished,
{
    let n = lemma_track_ends(selected, trunk, opts, reply_at, 0);
    assert(track_after(selected, trunk, opts, Seq::new(n, reply_at)).phase is Finished);
}

proof fn lemma_track_ends(
    selected: Seq<Seq<char>>,
    trunk: Seq<char>,
    opts: TrackOptsView,
    reply_at: spec_fn(int) -> Result<ReplyView, ErrorView>,
    k: nat,
) -> (n: nat)
    ensures
        track_after(selected, trunk, opts, Seq::new(n, reply_at)).phase is Finished,
    decreases
        phases_left(track_after(selected, trunk, opts, Seq::new(k, reply_at)).phase),
        track_after(selected, trunk, opts, Seq::new(k, reply_at)).todo.len(),
{
    let replies = Seq::new(k, reply_at);
    let s = track_after(selected, trunk, opts, replies);
    track_is_sound(selected, trunk, opts, replies);
    if s.phase is Finished {
        k
    } else {
        let more = Seq::new(k + 1, reply_at);
        assert(more.drop_last() =~= replies);
        track_gets_nearer(s, more.last());
        lemma_track_ends(selected, trunk, opts, reply_at, k + 1)
    }
}

/// A stack is tracked from the bottom up: with the stack at hand, the pipeline
/// asks for one command per bookmark, and no bookmark comes before the one that
/// it is stacked on.
pub proof fn track_goes_bottom_up(s: TrackView, stacked: Seq<StackedView>)
    requires
        s.phase is Stacking,
        in_phase(s),
        acyclic(stacked),
    ensures
        track_step(s, Ok(ReplyView::Parents(stacked))).todo == track_steps(
            s.opts.dry_run,
            s.trunk,
            tracking_order(stacked),
        ),
        parents_first(tracking_order(stacked)),
        tracking_order(stacked).to_multiset() == stacked.to_multiset(),
{
    crate::stack::tracking_order_puts_parents_first(stacked);
    crate::stack::tracking_order_is_permutation(stacked);
}

/// A pipeline as it is begun: what was selected, on which trunk, and how.
pub struct TrackRequest {
    pub selected: Seq<Seq<char>>,
    pub trunk: Seq<char>,
    pub opts: TrackOptsView,
}

impl TrackRequest {
    /// The state that the pipeline is in after these replies.
    pub open spec fn after(self, replies: Seq<Result<ReplyView, ErrorView>>) -> TrackView {
        track_after(self.selected, self.trunk, self.opts, replies)
    }
}

/// The commands that track a bookmark, or say so in a dry run, and that have been
/// answered, in order.
pub open spec fn tracking_answered(
    request: TrackRequest,
    replies: Seq<Result<ReplyView, ErrorView>>,
) -> Seq<CommandView>
    decreases replies.len(),
{
    if replies.len() == 0 {
        Seq::empty()
    } else {
        let s = request.after(replies.drop_last());
        let before = tracking_answered(request, replies.drop_last());
        if s.phase is Tracking {
            before.push(s.todo[0])
        } else {
            before
        }
    }
}

/// Whether the reply at `k` told how the selected bookmarks are stacked.
pub open spec fn stack_told(
    request: TrackRequest,
    replies: Seq<Result<ReplyView, ErrorView>>,
    k: int,
    stacked: Seq<StackedView>,
) -> bool {
    &&& 0 <= k < replies.len()
    &&& request.after(replies.take(k)).phase is Stacking
    &&& replies[k] == Ok::<ReplyView, ErrorView>(ReplyView::Parents(stacked))
}

/// Whether `steps` are the tracking commands that the request leads to: with a
/// parent that the user names, one for each selected bookmark in order; else those
/// of the stack that was told, in its tracking order.
pub open spec fn planned(
    request: TrackRequest,
    replies: Seq<Result<ReplyView, ErrorView>>,
    steps: Seq<CommandView>,
) -> bool {
    match request.opts.parent {
        Some(parent) => steps == override_steps(request.opts.dry_run, request.selected, parent),
        None => exists|k: int, stacked: Seq<StackedView>|
            #![trigger stack_told(request, replies, k, stacked)]
            stack_told(request, replies, k, stacked) && steps == track_steps(
                request.opts.dry_run,
                request.trunk,
                tracking_order(stacked),
            ),
    }
}

proof fn lemma_plan_stays(
    request: TrackRequest,
    replies: Seq<Result<ReplyView, ErrorView>>,
    steps: Seq<CommandView>,
)
    requires
        replies.len() > 0,
        planned(request, replies.drop_last(), steps),
    ensures
        planned(request, replies, steps),
{
    if request.opts.parent is None {
        let front = replies.drop_last();
        let (k, stacked) = choose|k: int, stacked: Seq<StackedView>|
            #![trigger stack_told(request, front, k, stacked)]
            stack_told(request, front, k, stacked) && steps == track_steps(
                request.opts.dry_run,
                request.trunk,
                tracking_order(stacked),
            );
        assert(front.take(k) =~= replies.take(k));
        assert(stack_told(request, replies, k, stacked));
    }
}

/// What has been tracked and what is left make up the plan.
proof fn lemma_plan(request: TrackRequest, replies: Seq<Result<ReplyView, ErrorView>>) -> (steps:
    Seq<CommandView>)
    requires
        request.after(replies).phase is Tracking || (request.after(replies).phase is Finished
            && request.after(replies).error is None),
    ensures
        planned(request, replies, steps),
        tracking_answered(request, replies) + request.after(replies).todo == steps,
    decreases replies.len(),
{
    let n = request.after(replies);
    track_is_sound(request.selected, request.trunk, request.opts, replies);
    if replies.len() == 0 {
        assert(tracking_answered(request, replies) + n.todo =~= n.todo);
        n.todo
    } else {
        let front = replies.drop_last();
        let s = request.after(front);
        track_is_sound(request.selected, request.trunk, request.opts, front);
        if s.phase is Tracking || s.phase is Finished {
            let steps = lemma_plan(request, front);
            lemma_plan_stays(request, replies, steps);
            assert(tracking_answered(request, replies) + n.todo =~= tracking_answered(
                request,
                front,
            ) + s.todo);
            steps
        } else {
            lemma_nothing_answered_yet(request, front);
            assert(tracking_answered(request, replies) + n.todo =~= n.todo);
            if s.phase is Stacking {
                assert(replies.take(replies.len() - 1) =~= front);
                assert(stack_told(
                    request,
                    replies,
                    replies.len() - 1,
                    replies.last()->Ok_0->Parents_0,
                ));
            }
            n.todo
        }
    }
}

proof fn lemma_nothing_answered_yet(
    request: TrackRequest,
    replies: Seq<Result<ReplyView, ErrorView>>,
)
    requires
        request.after(replies).phase is Exporting || request.after(replies).phase is Stacking,
    ensures
        tracking_answered(request, replies).len() == 0,
    decreases replies.len(),
{
    if replies.len() > 0 {
        track_is_sound(request.selected, request.trunk, request.opts, replies.drop_last());
        lemma_nothing_answered_yet(request, replies.drop_last());
    }
}

/// A run that ends without error has tracked everything, in order: the tracking
/// commands that were answered are, one by one, those that the request leads to.
/// In a dry run they are printed lines.
pub proof fn track_carries_out_the_plan(
    request: TrackRequest,
    replies: Seq<Result<ReplyView, ErrorView>>,
)
    requires
        request.after(replies).phase is Finished,
        request.after(replies).error is None,
    ensures
        planned(request, replies, tracking_answered(request, replies)),
{
    let steps = lemma_plan(request, replies);
    track_is_sound(request.selected, request.trunk, request.opts, replies);
    assert(tracking_answered(request, replies) + request.after(replies).todo
        =~= tracking_answered(request, replies));
}

/// Whatever comes back, tracking follows the plan: if anything has been tracked,
/// or attempted, it was the plan's commands from the first on.
pub proof fn track_follows_the_plan(
    request: TrackRequest,
    replies: Seq<Result<ReplyView, ErrorView>>,
)
    requires
        tracking_answered(request, replies).len() > 0,
    ensures
        exists|steps: Seq<CommandView>|
            #![trigger planned(request, replies, steps)]
            planned(request, replies, steps) && tracking_answered(
                request,
                replies,
            ).is_prefix_of(steps),
    decreases replies.len(),
{
    let front = replies.drop_last();
    let s = request.after(front);
    let answered = tracking_answered(request, replies);
    if s.phase is Tracking {
        track_is_sound(request.selected, request.trunk, request.opts, front);
        let steps = lemma_plan(request, front);
        lemma_plan_stays(request, replies, steps);
        assert(answered =~= steps.subrange(0, answered.len() as int));
    } else {
        track_follows_the_plan(request, front);
        let steps = choose|steps: Seq<CommandView>|
            #![trigger planned(request, front, steps)]
            planned(request, front, steps) && tracking_answered(request, front).is_prefix_of(
                steps,
            );
        lemma_plan_stays(request, replies, steps);
    }
}

/// A bookmark that cannot be tracked is the last one: the run ends with that very
/// error, and nothing is tracked after it.
pub proof fn track_stops_at_a_failure(
    request: TrackRequest,
    replies: Seq<Result<ReplyView, ErrorView>>,
    k: int,
    error: ErrorView,
)
    requires
        0 <= k < replies.len(),
        request.after(replies.take(k)).pending() matches Some(command) && command is GtTrack,
        replies[k] == Err::<ReplyView, ErrorView>(error),
    ensures
        request.after(replies).phase is Finished,
        request.after(replies).error == Some(error),
        tracking_answered(request, replies) == tracking_answered(request, replies.take(k + 1)),
    decreases replies.len(),
{
    let front = replies.drop_last();
    if k == replies.len() - 1 {
        assert(replies.take(k) =~= front);
        assert(replies.take(k + 1) =~= replies);
    } else {
        assert(replies.take(k) =~= front.take(k));
        assert(replies.take(k + 1) =~= front.take(k + 1));
        track_stops_at_a_failure(request, front, k, error);
    }
}

/// A `jj-gt track` pipeline under way.
pub struct TrackRun {
    opts: TrackOpts,
    selected: Vec<String>,
    trunk: String,
    phase: TrackPhase,
    todo: Vec<Command>,
    error: Option<JjGtError>,
}

impl View for TrackRun {
    type V = TrackView;

    closed spec fn view(&self) -> TrackView {
        TrackView {
            opts: self.opts@,
            selected: views(self.selected@),
            trunk: self.trunk@,
            phase: self.phase,
            todo: views(self.todo@),
            error: opt_view(self.error),
        }
    }
}

fn override_commands(dry_run: bool, selected: &Vec<String>, parent: &str) -> (res: Vec<Command>)
    ensures
        views(res@) == override_steps(dry_run, views(selected@), parent@),
        res@.len() == selected@.len(),
        forall|i: int|
            0 <= i < selected@.len() && !dry_run ==> (#[trigger] res@[i])@ == (
            CommandView::GtTrack { name: selected@[i]@, parent: parent@ }),
        forall|i: int|
            0 <= i < selected@.len() && dry_run ==> (#[trigger] res@[i])@ == CommandView::Print(
                "would: gt track "@ + selected@[i]@ + " --parent "@ + parent@,
            ),
{
    let mut res: Vec<Command> = Vec::new();
    for i in 0..selected.len()
        invariant
            views(res@) =~= override_steps(dry_run, views(selected@), parent@).take(i as int),
    {
        let command: Command = track_command(dry_run, selected[i].as_str(), parent);
        proof {
            crate::text::lemma_views_push(res@, command);
        }
        res.push(command);
    }
    proof {
        let steps = override_steps(dry_run, views(selected@), parent@);
        assert(steps.take(selected@.len() as int) =~= steps);
        assert(views(res@).len() == res@.len());
        assert forall|i: int| 0 <= i < selected@.len() implies (#[trigger] res@[i])@
            == steps[i] by {
            assert(views(res@)[i] == res@[i]@);
        }
    }
    res
}

impl TrackRun {
    /// Begins a pipeline for the selected bookmarks.
    pub fn start(selected: Vec<String>, trunk: String, opts: TrackOpts) -> (res: TrackRun)
        ensures
            res@ == track_start(views(selected@), trunk@, opts@),
            selected@.len() == 0 ==> res@.pending() is None && res@.error == Some(
                ErrorView::NoBookmarksSelected,
            ),
            selected@.len() > 0 && !opts.no_export ==> res@.pending() == Some(
                CommandView::GitExport,
            ),
            selected@.len() > 0 && opts.no_export && opts.parent is None ==> res@.pending() == Some(
                CommandView::DeriveParents { names: views(selected@), trunk: trunk@ },
            ),
            selected@.len() > 0 && opts.no_export && !opts.dry_run && opts.parent is Some
                ==> res@.pending() == Some(
                CommandView::GtTrack { name: selected@[0]@, parent: opts.parent->0@ },
            ),
            selected@.len() > 0 && opts.no_export && opts.dry_run && opts.parent is Some
                ==> res@.pending() == Some(
                CommandView::Print(
                    "would: gt track "@ + selected@[0]@ + " --parent "@ + opts.parent->0@,
                ),
            ),
    {
        let run = TrackRun {
            opts,
            selected,
            trunk,
            phase: TrackPhase::Exporting,
            todo: only(Command::GitExport),
            error: None,
        };
        if run.selected.len() == 0 {
            run.fail(JjGtError::NoBookmarksSelected)
        } else if run.opts.no_export {
            run.after_exporting()
        } else {
            run
        }
    }

    /// The command to be carried out next; none once the pipeline has ended.
    pub fn pending(&self) -> (res: Option<&Command>)
        ensures
            opt_view(res) == self@.pending(),
    {
        match self.phase {
            TrackPhase::Finished => None,
            _ => if self.todo.len() == 0 {
                None
            } else {
                Some(&self.todo[0])
            },
        }
    }

    /// How a pipeline that has ended came out.
    pub fn into_result(self) -> (res: Result<(), JjGtError>)
        ensures
            match res {
                Ok(()) => self@.error is None,
                Err(error) => self@.error == Some(error@),
            },
    {
        match self.error {
            None => Ok(()),
            Some(error) => Err(error),
        }
    }

    fn turn(self, phase: TrackPhase, todo: Vec<Command>) -> (res: TrackRun)
        ensures
            res@ == turn(self@, phase, views(todo@)),
    {
        if todo.len() == 0 {
            TrackRun { phase: TrackPhase::Finished, todo, ..self }
        } else {
            TrackRun { phase, todo, ..self }
        }
    }

    fn fail(self, error: JjGtError) -> (res: TrackRun)
        ensures
            res@ == fail(self@, error@),
    {
        let none: Vec<Command> = Vec::new();
        assert(views(none@) =~= Seq::<CommandView>::empty());
        TrackRun { phase: TrackPhase::Finished, todo: none, error: Some(error), ..self }
    }

    fn after_exporting(self) -> (res: TrackRun)
        ensures
            res@ == after_exporting(self@),
    {
        let todo: Option<Vec<Command>> = match &self.opts.parent {
            Some(parent) => Some(
                override_commands(self.opts.dry_run, &self.selected, parent.as_str()),
            ),
            None => None,
        };
        match todo {
            Some(todo) => self.turn(TrackPhase::Tracking, todo),
            None => {
                let names: Vec<String> = crate::text::copy_names(&self.selected);
                let trunk: String = self.trunk.clone();
                self.turn(TrackPhase::Stacking, only(Command::DeriveParents { names, trunk }))
            },
        }
    }

    fn after_stacking(self, stacked: Vec<StackedBookmark>) -> (res: TrackRun)
        ensures
            res@ == after_stacking(self@, views(stacked@)),
    {
        let order: Vec<StackedBookmark> = sort_for_tracking(&stacked);
        let todo: Vec<Command> = track_commands(self.opts.dry_run, self.trunk.as_str(), &order);
        self.turn(TrackPhase::Tracking, todo)
    }

    fn advance(self) -> (res: TrackRun)
        requires
            self@.todo.len() > 0,
        ensures
            res@ == advance(self@),
    {
        match self.phase {
            TrackPhase::Exporting => self.after_exporting(),
            phase => {
                let mut run = self;
                let ghost before = views(run.todo@);
                run.todo.remove(0);
                assert(views(run.todo@) =~= before.drop_first());
                if run.todo.len() == 0 {
                    run.phase = TrackPhase::Finished;
                }
                run
            },
        }
    }
}

/// Takes what came back from the pending command, and moves the pipeline on to
/// the next command or to its end.
pub fn track_cmd(run: TrackRun, reply: Result<Reply, JjGtError>) -> (res: TrackRun)
    ensures
        res@ == track_step(run@, reply_view(reply)),
{
    let (fits, attempt) = match run.pending() {
        None => {
            return run;
        },
        Some(command) => match &reply {
            Ok(reply) => (command.accepts(reply), false),
            Err(_) => (false, command.is_best_effort()),
        },
    };
    match reply {
        Err(error) => if attempt {
            run.advance()
        } else {
            run.fail(error)
        },
        Ok(reply) => if !fits {
            run.fail(JjGtError::UnexpectedReply)
        } else {
            match reply {
                Reply::Parents(stacked) => run.after_stacking(stacked),
                _ => run.advance(),
            }
        },
    }
}

/// The view of the options holds the parent, if one is named, and the switches.
pub proof fn track_option_views(opts: TrackOpts)
    ensures
        opts@.parent is Some <==> opts.parent is Some,
        opts.parent matches Some(parent) ==> opts@.parent == Some(parent@),
        opts@.no_export == opts.no_export,
        opts@.dry_run == opts.dry_run,
{
}

/// With a parent that the user names, the selected bookmarks are tracked one by one,
/// in the order of the selection, each on that parent; a dry run prints the command
/// lines that would.
pub proof fn override_goes_through_the_selection(
    selected: Seq<Seq<char>>,
    parent: Seq<char>,
    i: int,
)
    requires
        0 <= i < selected.len(),
    ensures
        override_steps(false, selected, parent).len() == selected.len(),
        override_steps(true, selected, parent).len() == selected.len(),
        override_steps(false, selected, parent)[i] == (CommandView::GtTrack {
            name: selected[i],
            parent,
        }),
        override_steps(true, selected, parent)[i] == CommandView::Print(
            "would: gt track "@ + selected[i] + " --parent "@ + parent,
        ),
        override_steps(true, selected, parent)[i] matches CommandView::Print(line) && {
            &&& line.len() == selected[i].len() + parent.len() + 26
            &&& line.skip(16).take(selected[i].len() as int) == selected[i]
            &&& line.skip(selected[i].len() as int + 26) == parent
        },
{
    crate::submit_asks::tracking_names_bookmark_then_parent(selected[i], parent);
}

/// A run exports the bookmarks first, unless that is switched off; then it asks how
/// the selected bookmarks are stacked on the trunk of the request, unless the user
/// names a parent.
pub proof fn track_begins_with_export_and_stack(request: TrackRequest)
    requires
        request.selected.len() > 0,
    ensures
        ({
            let s = request.after(Seq::empty());
            let n = if request.opts.no_export {
                s
            } else {
                track_step(s, Ok(ReplyView::Done))
            };
            &&& s.error is None
            &&& !request.opts.no_export ==> s.pending() == Some(CommandView::GitExport)
            &&& request.opts.parent is None ==> n.pending() == Some(
                CommandView::DeriveParents { names: request.selected, trunk: request.trunk },
            )
            &&& request.opts.parent is Some && !request.opts.dry_run ==> n.pending() == Some(
                CommandView::GtTrack {
                    name: request.selected[0],
                    parent: request.opts.parent->0,
                },
            )
            &&& request.opts.parent is Some && request.opts.dry_run ==> n.pending() == Some(
                CommandView::Print(
                    "would: gt track "@ + request.selected[0] + " --parent "@
                        + request.opts.parent->0,
                ),
            )
        }),
{
}

/// Whenever a run asks how bookmarks are stacked, it asks about the selected ones and
/// the trunk of the request; whenever it exports, that is not switched off.
pub proof fn track_asks_for_the_selected(
    request: TrackRequest,
    replies: Seq<Result<ReplyView, ErrorView>>,
)
    ensures
        request.after(replies).phase is Stacking ==> request.after(replies).pending() == Some(
            CommandView::DeriveParents { names: request.selected, trunk: request.trunk },
        ),
        request.after(replies).pending() matches Some(CommandView::DeriveParents { names, trunk })
            ==> names == request.selected && trunk == request.trunk && request.opts.parent is None,
        request.after(replies).pending() matches Some(CommandView::GitExport)
            ==> !request.opts.no_export,
{
    track_is_sound(request.selected, request.trunk, request.opts, replies);
}

/// With a parent that the user names, a run that ends well has gone through the whole
/// selection: the `i`th tracking command that was answered is the one for the `i`th
/// selected bookmark.
pub proof fn track_override_covers_the_selection(
    request: TrackRequest,
    replies: Seq<Result<ReplyView, ErrorView>>,
    i: int,
)
    requires
        request.opts.parent is Some,
        request.after(replies).phase is Finished,
        request.after(replies).error is None,
        0 <= i < request.selected.len(),
    ensures
        tracking_answered(request, replies).len() == request.selected.len(),
        !request.opts.dry_run ==> tracking_answered(request, replies)[i] == (
        CommandView::GtTrack { name: request.selected[i], parent: request.opts.parent->0 }),
        request.opts.dry_run ==> tracking_answered(request, replies)[i] == CommandView::Print(
            "would: gt track "@ + request.selected[i] + " --parent "@ + request.opts.parent->0,
        ),
{
    track_carries_out_the_plan(request, replies);
}

/// Without such a parent, a run that ends well has gone through the stack that it was
/// told, in its tracking order, each bookmark on what it is stacked on.
pub proof fn track_covers_the_stack_told(
    request: TrackRequest,
    replies: Seq<Result<ReplyView, ErrorView>>,
)
    requires
        request.opts.parent is None,
        request.after(replies).phase is Finished,
        request.after(replies).error is None,
    ensures
        exists|k: int, stacked: Seq<StackedView>|
            #![trigger stack_told(request, replies, k, stacked)]
            {
                &&& stack_told(request, replies, k, stacked)
                &&& tracking_answered(request, replies).len() == stacked.len()
                &&& tracks_each(request, tracking_answered(request, replies), stacked)
            },
{
    track_carries_out_the_plan(request, replies);
    let steps = tracking_answered(request, replies);
    let (k, stacked) = choose|k: int, stacked: Seq<StackedView>|
        #![trigger stack_told(request, replies, k, stacked)]
        stack_told(request, replies, k, stacked) && steps == track_steps(
            request.opts.dry_run,
            request.trunk,
            tracking_order(stacked),
        );
    crate::stack::tracking_order_is_permutation(stacked);
    let order = tracking_order(stacked);
    assert(order.len() == stacked.len()) by {
        order.to_multiset_ensures();
        stacked.to_multiset_ensures();
    }
    assert forall|i: int| 0 <= i < steps.len() implies tracks_entry(
        request,
        #[trigger] steps[i],
        tracking_order(stacked)[i],
    ) by {
        crate::submit_asks::stack_is_tracked_in_order(request.trunk, order, i);
    }
    assert(tracks_each(request, steps, stacked));
}

/// Whether `command` tracks `entry` on what it is stacked on, or says so in a dry
/// run.
pub open spec fn tracks_entry(
    request: TrackRequest,
    command: CommandView,
    entry: StackedView,
) -> bool {
    let parent = match entry.parent {
        ParentView::Bookmark(parent) => parent,
        ParentView::Trunk => request.trunk,
    };
    if request.opts.dry_run {
        command == CommandView::Print("would: gt track "@ + entry.name + " --parent "@ + parent)
    } else {
        command == CommandView::GtTrack { name: entry.name, parent }
    }
}

/// Whether `steps` track the entries of a stack, one by one, in its tracking order.
pub open spec fn tracks_each(
    request: TrackRequest,
    steps: Seq<CommandView>,
    stacked: Seq<StackedView>,
) -> bool {
    forall|i: int|
        0 <= i < steps.len() ==> tracks_entry(
            request,
            #[trigger] steps[i],
            tracking_order(stacked)[i],
        )
}

/// A reply of the wrong kind ends the run, and is told as such; a failure ends it with
/// that very error, unless it was only a line that could not be printed.
pub proof fn track_refuses_other_replies(
    request: TrackRequest,
    replies: Seq<Result<ReplyView, ErrorView>>,
    reply: ReplyView,
    error: ErrorView,
)
    requires
        request.after(replies).pending() is Some,
    ensures
        !request.after(replies).pending()->0.expects(reply) ==> track_step(
            request.after(replies),
            Ok(reply),
        ).pending() is None && track_step(request.after(replies), Ok(reply)).error == Some(
            ErrorView::UnexpectedReply,
        ),
        !(request.after(replies).pending()->0 is Print) ==> track_step(
            request.after(replies),
            Err(error),
        ).pending() is None && track_step(request.after(replies), Err(error)).error == Some(error),
{
    track_is_sound(request.selected, request.trunk, request.opts, replies);
}

/// A run that has ended stays as it is.
pub proof fn track_ends_for_good(
    request: TrackRequest,
    replies: Seq<Result<ReplyView, ErrorView>>,
    reply: Result<ReplyView, ErrorView>,
)
    requires
        request.after(replies).pending() is None,
    ensures
        track_step(request.after(replies), reply) == request.after(replies),
        request.after(replies).phase is Finished,
{
    track_is_sound(request.selected, request.trunk, request.opts, replies);
}

} // verus!
