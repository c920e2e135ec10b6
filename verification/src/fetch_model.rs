//! The `jj-gt fetch` pipeline as a transition system: its states, what each
//! state asks for, and how a reply leads from one state to the next.

use vstd::prelude::*;

use crate::cleanup::{
    gtmq_decision, has_prefix, local_decision, ActionView, CleanupAction, FetchOptsView,
};
use crate::command::{CommandView, ReplyView};
use crate::error::ErrorView;
use crate::gh::{first_pr, PrView};
use crate::jj::{names_of, BookmarkView, LocalBookmark};
use crate::stack::{tracking_order, ParentView, StackedView};

verus! {

/// How many pull requests are asked for at most, for ordinary bookmarks.
pub const PR_LIMIT: u32 = 200;

/// How many pull requests are asked for at most, for queue-test branches.
pub const QUEUE_PR_LIMIT: u32 = 500;

/// Which part of the pipeline is under way.
#[derive(Debug, Clone, Copy, PartialEq, Eq, Structural)]
pub enum FetchPhase {
    Fetching,
    Listing,
    Matching,
    Stacking,
    Backfilling,
    Marking,
    Syncing,
    QueueMatching,
    Pruning,
    Previewing,
    Relisting,
    Rebasing,
    Orphans,
    Finished,
}

/// A bookmark and what became of it.
pub type LogEntry = (LocalBookmark, CleanupAction);

/// The view of a [`LogEntry`].
pub type LogView = (BookmarkView, ActionView);

/// The views of the entries of a log.
pub open spec fn log_views(log: Seq<LogEntry>) -> Seq<LogView> {
    Seq::new(log.len(), |i: int| (log[i].0@, log[i].1@))
}

/// A state of the pipeline.
pub struct FetchView {
    pub opts: FetchOptsView,
    pub phase: FetchPhase,
    /// The commands of this phase that are not answered yet; the first of them
    /// is pending.
    pub todo: Seq<CommandView>,
    /// The bookmarks outside the merge queue.
    pub normal: Seq<BookmarkView>,
    /// The queue-test branches.
    pub queue: Seq<BookmarkView>,
    /// The pull requests of the bookmarks outside the merge queue.
    pub prs: Seq<PrView>,
    /// The pull requests of the queue-test branches.
    pub queue_prs: Seq<PrView>,
    /// How the bookmarks outside the merge queue are stacked.
    pub stacked: Seq<StackedView>,
    /// The bookmarks that are left after the sync.
    pub remaining: Seq<BookmarkView>,
    /// What became of each bookmark so far: first those outside the merge
    /// queue, in order, then the queue-test branches.
    pub log: Seq<LogView>,
    /// The log entry that is being asked about.
    pub cursor: int,
    /// What stopped the pipeline, if anything did.
    pub error: Option<ErrorView>,
}

impl FetchView {
    /// The command to be carried out next; none once the pipeline has ended.
    pub open spec fn pending(self) -> Option<CommandView> {
        if self.phase is Finished || self.todo.len() == 0 {
            None
        } else {
            Some(self.todo[0])
        }
    }
}

/// Selects the bookmarks outside the merge queue.
pub open spec fn outside_queue(prefixes: Seq<Seq<char>>) -> spec_fn(BookmarkView) -> bool {
    |b: BookmarkView| !has_prefix(b.name, prefixes)
}

/// Selects the queue-test branches.
pub open spec fn inside_queue(prefixes: Seq<Seq<char>>) -> spec_fn(BookmarkView) -> bool {
    |b: BookmarkView| has_prefix(b.name, prefixes)
}

/// Selects the stacked bookmarks that have a pull request.
pub open spec fn has_pr(prs: Seq<PrView>) -> spec_fn(StackedView) -> bool {
    |b: StackedView| first_pr(prs, b.name) is Some
}

/// How a bookmark is tracked: in a dry run it is only said.
pub open spec fn track_step(opts: FetchOptsView, entry: StackedView) -> CommandView {
    let parent = entry.parent.branch_name(opts.trunk);
    if opts.dry_run {
        CommandView::Log("[dry-run] would: gt track "@ + entry.name + " --parent "@ + parent)
    } else {
        CommandView::GtTrack { name: entry.name, parent }
    }
}

/// The tracking commands for a stack: one for each bookmark that has a pull
/// request, bottom to top.
pub open spec fn backfill_steps(
    opts: FetchOptsView,
    prs: Seq<PrView>,
    stacked: Seq<StackedView>,
) -> Seq<CommandView> {
    let order = tracking_order(stacked).filter(has_pr(prs));
    Seq::new(order.len(), |i: int| track_step(opts, order[i]))
}

/// How one queue-test branch is pruned, if it is.
pub open spec fn prune_step(
    opts: FetchOptsView,
    branch: BookmarkView,
    prs: Seq<PrView>,
) -> Seq<CommandView> {
    if !(gtmq_decision(first_pr(prs, branch.name)) is GtmqPruned) {
        Seq::empty()
    } else if opts.dry_run {
        seq![
            CommandView::Log(
                "[dry-run] would: jj bookmark delete "@ + branch.name + " && git push --delete "@
                    + opts.remote + " "@ + branch.name,
            ),
        ]
    } else {
        seq![
            CommandView::DeleteBookmark { name: branch.name },
            CommandView::DeleteRemoteBranch { remote: opts.remote, name: branch.name },
        ]
    }
}

/// The pruning commands for the queue-test branches, in order.
pub open spec fn prune_steps(
    opts: FetchOptsView,
    queue: Seq<BookmarkView>,
    prs: Seq<PrView>,
) -> Seq<CommandView>
    decreases queue.len(),
{
    if queue.len() == 0 {
        Seq::empty()
    } else {
        prune_steps(opts, queue.drop_last(), prs) + prune_step(opts, queue.last(), prs)
    }
}

/// The decisions on the queue-test branches, in order.
pub open spec fn queue_log(queue: Seq<BookmarkView>, prs: Seq<PrView>) -> Seq<LogView> {
    Seq::new(queue.len(), |i: int| (queue[i], gtmq_decision(first_pr(prs, queue[i].name))))
}

/// Whether `entry` tells that the bookmark called `name` was stacked on a bookmark
/// that is gone.
pub open spec fn lost_parent(
    entry: StackedView,
    remaining: Seq<BookmarkView>,
    name: Seq<char>,
) -> bool {
    &&& entry.name == name
    &&& entry.parent matches ParentView::Bookmark(parent) && !names_of(remaining).contains(parent)
}

/// Whether `b` is an orphaned child: the bookmark that it was stacked on is no
/// longer there.
pub open spec fn orphaned(
    stacked: Seq<StackedView>,
    remaining: Seq<BookmarkView>,
    b: BookmarkView,
) -> bool {
    exists|i: int|
        0 <= i < stacked.len() && lost_parent(#[trigger] stacked[i], remaining, b.name)
}

/// Selects the orphaned children.
pub open spec fn is_orphaned(
    stacked: Seq<StackedView>,
    remaining: Seq<BookmarkView>,
) -> spec_fn(BookmarkView) -> bool {
    |b: BookmarkView| orphaned(stacked, remaining, b)
}

/// The rebase commands: one for each orphaned child among the bookmarks that
/// remain, in order.
pub open spec fn rebase_steps(
    opts: FetchOptsView,
    stacked: Seq<StackedView>,
    remaining: Seq<BookmarkView>,
) -> Seq<CommandView> {
    if opts.no_rebase {
        Seq::empty()
    } else {
        let orphans = remaining.filter(is_orphaned(stacked, remaining));
        Seq::new(
            orphans.len(),
            |i: int| CommandView::Rebase { revset: orphans[i].name, destination: opts.trunk },
        )
    }
}

/// The log line for a failure that the pipeline passes over with a note: a rebase,
/// which the user can do by hand; the stack, where it is needed for rebases only;
/// and the second listing, where nothing is to be rebased.
pub open spec fn failure_note(
    s: FetchView,
    command: CommandView,
    error: ErrorView,
) -> Option<CommandView> {
    match command {
        CommandView::Rebase { revset, destination } => Some(
            CommandView::Log(
                "could not rebase "@ + revset + " onto "@ + destination + ": "@
                    + error.message(),
            ),
        ),
        CommandView::DeriveParents { .. } => if s.opts.no_backfill {
            Some(CommandView::Log("could not find orphaned bookmarks: "@ + error.message()))
        } else {
            None
        },
        CommandView::ListBookmarks => if s.phase is Relisting && s.opts.no_rebase {
            Some(CommandView::Log("could not list what gt sync left: "@ + error.message()))
        } else {
            None
        },
        _ => None,
    }
}

/// Selects the log entries that stand for a deletion.
pub open spec fn is_orphan() -> spec_fn(LogView) -> bool {
    |entry: LogView| entry.1 is OrphanDeleted
}

/// What a dry run says of the deletions in `log`.
pub open spec fn preview_steps(log: Seq<LogView>) -> Seq<CommandView> {
    let orphans = log.filter(is_orphan());
    Seq::new(
        orphans.len(),
        |i: int| CommandView::Log("[dry-run] would: jj bookmark delete "@ + orphans[i].0.name),
    )
}

/// The log once `gt sync` has run: of the first `count` bookmarks, those that
/// no longer exist were deleted by it.
pub open spec fn synced_log(
    log: Seq<LogView>,
    count: int,
    remaining: Seq<BookmarkView>,
) -> Seq<LogView> {
    Seq::new(
        log.len(),
        |i: int|
            if i < count && !names_of(remaining).contains(log[i].0.name) {
                (log[i].0, ActionView::GtSyncDeleted)
            } else {
                log[i]
            },
    )
}

/// The first state of the pipeline.
pub open spec fn fetch_start(opts: FetchOptsView) -> FetchView {
    FetchView {
        opts,
        phase: FetchPhase::Fetching,
        todo: seq![
            if opts.dry_run {
                CommandView::Log("[dry-run] would: jj git fetch --remote "@ + opts.remote)
            } else {
                CommandView::GitFetch { remote: opts.remote }
            },
        ],
        normal: Seq::empty(),
        queue: Seq::empty(),
        prs: Seq::empty(),
        queue_prs: Seq::empty(),
        stacked: Seq::empty(),
        remaining: Seq::empty(),
        log: Seq::empty(),
        cursor: 0,
        error: None,
    }
}

/// The pipeline turns to another phase, with these commands.
pub open spec fn turn(s: FetchView, phase: FetchPhase, todo: Seq<CommandView>) -> FetchView {
    FetchView { phase, todo, ..s }
}

/// The pipeline ends, with the log as it stands.
pub open spec fn finish(s: FetchView) -> FetchView {
    turn(s, FetchPhase::Finished, Seq::empty())
}

/// The pipeline ends with an error.
pub open spec fn fail(s: FetchView, error: ErrorView) -> FetchView {
    FetchView { error: Some(error), ..finish(s) }
}

/// After the fetch: list the bookmarks.
pub open spec fn after_fetching(s: FetchView) -> FetchView {
    turn(s, FetchPhase::Listing, seq![CommandView::ListBookmarks])
}

/// After the listing: find the pull requests of the bookmarks outside the
/// merge queue, if there are any such bookmarks.
pub open spec fn after_listing(s: FetchView, bookmarks: Seq<BookmarkView>) -> FetchView {
    let normal = bookmarks.filter(outside_queue(s.opts.gtmq_prefixes));
    let queue = bookmarks.filter(inside_queue(s.opts.gtmq_prefixes));
    let s = FetchView { normal, queue, ..s };
    if normal.len() == 0 {
        after_matching(s, Seq::empty())
    } else {
        turn(
            s,
            FetchPhase::Matching,
            seq![CommandView::FindPrs { names: names_of(normal), limit: PR_LIMIT }],
        )
    }
}

/// Whether the pipeline needs to know how the bookmarks are stacked: to track
/// them, or to find the orphaned children later on.
pub open spec fn needs_stack(opts: FetchOptsView) -> bool {
    !opts.no_backfill || (!opts.no_rebase && !opts.dry_run)
}

/// With the pull requests at hand: find out how the bookmarks are stacked, if
/// that is needed.
pub open spec fn after_matching(s: FetchView, prs: Seq<PrView>) -> FetchView {
    let s = FetchView { prs, ..s };
    if needs_stack(s.opts) {
        turn(
            s,
            FetchPhase::Stacking,
            seq![CommandView::DeriveParents { names: names_of(s.normal), trunk: s.opts.trunk }],
        )
    } else {
        mark_rest(s)
    }
}

/// With the stack at hand: track it, unless that is switched off.
pub open spec fn after_stacking(s: FetchView, stacked: Seq<StackedView>) -> FetchView {
    let s = FetchView { stacked, ..s };
    let todo = if s.opts.no_backfill {
        Seq::empty()
    } else {
        backfill_steps(s.opts, s.prs, stacked)
    };
    if todo.len() == 0 {
        mark_rest(s)
    } else {
        turn(s, FetchPhase::Backfilling, todo)
    }
}

/// Classifies the bookmarks from where the log ends. For a pull request that is
/// closed or merged, its merge marker is looked for first; once every bookmark
/// is classified, the sync begins.
pub open spec fn mark_rest(s: FetchView) -> FetchView
    decreases s.normal.len() - s.log.len(),
{
    if s.log.len() >= s.normal.len() {
        begin_sync(s)
    } else {
        let local = s.normal[s.log.len() as int];
        let pr = first_pr(s.prs, local.name);
        if pr is Some && pr->0.state.terminal() {
            turn(
                s,
                FetchPhase::Marking,
                seq![CommandView::FindMergeMarker { pr: pr->0.number, trunk: s.opts.trunk }],
            )
        } else {
            mark_rest(log_next(s, None))
        }
    }
}

/// Classifies the next bookmark, with this merge marker.
pub open spec fn log_next(s: FetchView, marker: Option<Seq<char>>) -> FetchView {
    let local = s.normal[s.log.len() as int];
    let action = local_decision(local, first_pr(s.prs, local.name), marker);
    FetchView { log: s.log.push((local, action)), ..s }
}

/// With every bookmark classified: sync, and import what the sync deleted.
pub open spec fn begin_sync(s: FetchView) -> FetchView {
    turn(
        s,
        FetchPhase::Syncing,
        if s.opts.dry_run {
            seq![CommandView::Log("[dry-run] would: gt sync --no-restack --force"@)]
        } else {
            seq![CommandView::GtSync, CommandView::GitImport]
        },
    )
}

/// After the sync: find the pull requests of the queue-test branches, if these
/// are to be pruned and there are any.
pub open spec fn after_syncing(s: FetchView) -> FetchView {
    if s.opts.no_gtmq_prune || s.queue.len() == 0 {
        after_pruning(s)
    } else {
        turn(
            s,
            FetchPhase::QueueMatching,
            seq![
                CommandView::FindQueuePrs { prefixes: s.opts.gtmq_prefixes, limit: QUEUE_PR_LIMIT },
            ],
        )
    }
}

/// With the pull requests of the queue-test branches at hand: prune them.
pub open spec fn after_queue_matching(s: FetchView, prs: Seq<PrView>) -> FetchView {
    let s = FetchView { queue_prs: prs, log: s.log + queue_log(s.queue, prs), ..s };
    let todo = prune_steps(s.opts, s.queue, prs);
    if todo.len() == 0 {
        after_pruning(s)
    } else {
        turn(s, FetchPhase::Pruning, todo)
    }
}

/// After the pruning: list what remains, or say what a real run would delete.
pub open spec fn after_pruning(s: FetchView) -> FetchView {
    if s.opts.dry_run {
        let todo = preview_steps(s.log);
        if todo.len() == 0 {
            finish(s)
        } else {
            turn(s, FetchPhase::Previewing, todo)
        }
    } else {
        turn(s, FetchPhase::Relisting, seq![CommandView::ListBookmarks])
    }
}

/// The state with the remaining bookmarks, and with what `gt sync` deleted in the
/// log.
pub open spec fn relisted(s: FetchView, remaining: Seq<BookmarkView>) -> FetchView {
    FetchView { remaining, log: synced_log(s.log, s.normal.len() as int, remaining), ..s }
}

/// With the remaining bookmarks at hand: rebase the orphaned children.
pub open spec fn after_relisting(s: FetchView, remaining: Seq<BookmarkView>) -> FetchView {
    let s = relisted(s, remaining);
    let todo = rebase_steps(s.opts, s.stacked, remaining);
    if todo.len() == 0 {
        orphans_from(s, 0)
    } else {
        turn(s, FetchPhase::Rebasing, todo)
    }
}

/// Goes through the log entries from `i` on: what stands there as a deletion
/// is deleted, on the user's word unless `auto` is set.
pub open spec fn orphans_from(s: FetchView, i: int) -> FetchView
    decreases s.log.len() - i,
{
    if i < 0 || i >= s.log.len() {
        finish(s)
    } else {
        match s.log[i].1 {
            ActionView::OrphanDeleted { pr, merge_commit_id } => {
                let name = s.log[i].0.name;
                let todo = if s.opts.auto {
                    seq![CommandView::DeleteBookmark { name }]
                } else {
                    seq![CommandView::ConfirmDelete { name, pr, merge_commit_id }]
                };
                turn(FetchView { cursor: i, ..s }, FetchPhase::Orphans, todo)
            },
            _ => orphans_from(s, i + 1),
        }
    }
}

/// After the user's answer on the log entry at the cursor.
pub open spec fn after_answer(s: FetchView, yes: bool) -> FetchView {
    let entry = s.log[s.cursor];
    if yes {
        turn(s, FetchPhase::Orphans, seq![CommandView::DeleteBookmark { name: entry.0.name }])
    } else {
        orphans_from(FetchView { log: s.log.update(s.cursor, skipped(entry)), ..s }, s.cursor + 1)
    }
}

/// The log entry of a bookmark that the user wants to keep.
pub open spec fn skipped(entry: LogView) -> LogView {
    match entry.1 {
        ActionView::OrphanDeleted { pr, merge_commit_id } => (
            entry.0,
            ActionView::OrphanSkipped { pr, merge_commit_id },
        ),
        _ => entry,
    }
}

/// The pending command was the last one of its phase, and it says nothing but that
/// it is done. Where the stack could not be found, none is known; where the
/// remaining bookmarks could not be listed, all are taken to remain.
pub open spec fn end_of_phase(s: FetchView) -> FetchView {
    match s.phase {
        FetchPhase::Fetching => after_fetching(s),
        FetchPhase::Stacking => after_stacking(s, Seq::empty()),
        FetchPhase::Backfilling => mark_rest(s),
        FetchPhase::Syncing => after_syncing(s),
        FetchPhase::Pruning => after_pruning(s),
        FetchPhase::Previewing => finish(s),
        FetchPhase::Relisting => after_relisting(s, s.normal),
        FetchPhase::Rebasing => orphans_from(s, 0),
        FetchPhase::Orphans => orphans_from(s, s.cursor + 1),
        _ => s,
    }
}

/// The pending command is done.
pub open spec fn advance(s: FetchView) -> FetchView {
    if s.todo.len() > 1 {
        FetchView { todo: s.todo.drop_first(), ..s }
    } else {
        end_of_phase(s)
    }
}

/// The pending command has been answered with a reply of its kind.
pub open spec fn absorb(s: FetchView, reply: ReplyView) -> FetchView {
    match reply {
        ReplyView::Bookmarks(bookmarks) => if s.phase is Listing {
            after_listing(s, bookmarks)
        } else {
            after_relisting(s, bookmarks)
        },
        ReplyView::Prs(prs) => if s.phase is Matching {
            after_matching(s, prs)
        } else {
            after_queue_matching(s, prs)
        },
        ReplyView::Parents(stacked) => after_stacking(s, stacked),
        ReplyView::Marker(marker) => mark_rest(log_next(s, marker)),
        ReplyView::Answer(yes) => after_answer(s, yes),
        _ => advance(s),
    }
}

/// The pending command has failed. Some failures are noted in the log and passed
/// over; what else was an attempt only counts as done; any other failure ends the
/// pipeline with that error.
pub open spec fn give_up(s: FetchView, command: CommandView, error: ErrorView) -> FetchView {
    match failure_note(s, command, error) {
        Some(note) => FetchView { todo: seq![note] + s.todo.drop_first(), ..s },
        None => if command.best_effort() {
            advance(s)
        } else {
            fail(s, error)
        },
    }
}

/// One step of the pipeline: what came back from the pending command leads to
/// the next state. A pipeline that has ended stays as it is.
pub open spec fn fetch_step(s: FetchView, reply: Result<ReplyView, ErrorView>) -> FetchView {
    match s.pending() {
        None => s,
        Some(command) => match reply {
            Ok(reply) => if command.expects(reply) {
                absorb(s, reply)
            } else {
                fail(s, ErrorView::UnexpectedReply)
            },
            Err(error) => give_up(s, command, error),
        },
    }
}

} // verus!
