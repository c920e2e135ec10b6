//! The `jj-gt fetch` pipeline.
//!
//! The pipeline is a state machine: [`FetchRun::start`] gives its first state,
//! [`FetchRun::pending`] the command to be carried out next, and [`run_fetch`]
//! takes what came back and moves on. The steps:
//!
//! 1. Fetch from the remote.
//! 2. List the local bookmarks, and set queue-test branches apart.
//! 3. Find the pull requests of the others and how they are stacked, and track
//!    those that have one, bottom to top.
//! 4. Classify them; for a closed or merged pull request, look for its merge
//!    marker on trunk.
//! 5. `gt sync`, then import what it deleted.
//! 6. Prune queue-test branches without an open pull request.
//! 7. List the bookmarks that remain, and rebase onto trunk those whose parent is
//!    gone.
//! 8. Offer to delete what remains of landed pull requests.

use vstd::prelude::*;

use crate::cleanup::{
    classify_gtmq_branch, classify_local_bookmark, is_gtmq_branch, CleanupAction, FetchOpts,
};
use crate::command::{only, reply_view, Command, CommandView, Reply};
use crate::error::JjGtError;
use crate::fetch_laws::sound;
use crate::fetch_model::{
    absorb, advance, after_answer, after_listing, after_matching, after_pruning,
    after_queue_matching, after_relisting, after_stacking, after_syncing, backfill_steps,
    begin_sync, end_of_phase, fail, failure_note, fetch_start, fetch_step, finish, give_up, has_pr,
    inside_queue, is_orphan, is_orphaned, log_next, log_views, lost_parent, mark_rest, needs_stack,
    orphaned, orphans_from, outside_queue, preview_steps, prune_step, prune_steps, queue_log,
    rebase_steps, skipped, synced_log, track_step, turn, FetchPhase, FetchView, LogEntry, PR_LIMIT,
    QUEUE_PR_LIMIT,
};
use crate::gh::{find_pr, PrInfo, PrView};
use crate::jj::{bookmark_names, copy_bookmarks, names_of, LocalBookmark};
use crate::stack::{sort_for_tracking, BookmarkOrTrunk, StackedBookmark};
use crate::text::{copy_names, has_name, opt_view, same_text, views};

verus! {

/// A `jj-gt fetch` pipeline under way.
pub struct FetchRun {
    opts: FetchOpts,
    phase: FetchPhase,
    todo: Vec<Command>,
    normal: Vec<LocalBookmark>,
    queue: Vec<LocalBookmark>,
    prs: Vec<PrInfo>,
    queue_prs: Vec<PrInfo>,
    stacked: Vec<StackedBookmark>,
    remaining: Vec<LocalBookmark>,
    log: Vec<LogEntry>,
    cursor: usize,
    error: Option<JjGtError>,
}

impl View for FetchRun {
    type V = FetchView;

    closed spec fn view(&self) -> FetchView {
        FetchView {
            opts: self.opts@,
            phase: self.phase,
            todo: views(self.todo@),
            normal: views(self.normal@),
            queue: views(self.queue@),
            prs: views(self.prs@),
            queue_prs: views(self.queue_prs@),
            stacked: views(self.stacked@),
            remaining: views(self.remaining@),
            log: log_views(self.log@),
            cursor: self.cursor as int,
            error: opt_view(self.error),
        }
    }
}

fn partition(bookmarks: Vec<LocalBookmark>, prefixes: &Vec<String>) -> (res: (
    Vec<LocalBookmark>,
    Vec<LocalBookmark>,
))
    ensures
        views(res.0@) == views(bookmarks@).filter(outside_queue(views(prefixes@))),
        views(res.1@) == views(bookmarks@).filter(inside_queue(views(prefixes@))),
{
    let ghost all = views(bookmarks@);
    let mut normal: Vec<LocalBookmark> = Vec::new();
    let mut queue: Vec<LocalBookmark> = Vec::new();
    proof {
        reveal(Seq::filter);
        assert(views(normal@) =~= all.take(0).filter(outside_queue(views(prefixes@))));
        assert(views(queue@) =~= all.take(0).filter(inside_queue(views(prefixes@))));
    }
    for i in 0..bookmarks.len()
        invariant
            all == views(bookmarks@),
            views(normal@) == all.take(i as int).filter(outside_queue(views(prefixes@))),
            views(queue@) == all.take(i as int).filter(inside_queue(views(prefixes@))),
    {
        let bookmark: LocalBookmark = bookmarks[i].clone();
        proof {
            crate::text::lemma_filter_step(all, outside_queue(views(prefixes@)), i as int);
            crate::text::lemma_filter_step(all, inside_queue(views(prefixes@)), i as int);
            crate::text::lemma_views_push(normal@, bookmark);
            crate::text::lemma_views_push(queue@, bookmark);
        }
        if is_gtmq_branch(bookmark.name.as_str(), prefixes.as_slice()) {
            queue.push(bookmark);
        } else {
            normal.push(bookmark);
        }
    }
    assert(all.take(all.len() as int) =~= all);
    (normal, queue)
}

fn backfill(opts: &FetchOpts, prs: &Vec<PrInfo>, stacked: &Vec<StackedBookmark>) -> (res: Vec<
    Command,
>)
    ensures
        views(res@) == backfill_steps(opts@, views(prs@), views(stacked@)),
{
    let sorted: Vec<StackedBookmark> = sort_for_tracking(stacked);
    let ghost order = views(sorted@);
    let ghost keep = has_pr(views(prs@));
    let mut res: Vec<Command> = Vec::new();
    proof {
        reveal(Seq::filter);
        assert(order.take(0).filter(keep).len() == 0);
    }
    for i in 0..sorted.len()
        invariant
            order == views(sorted@),
            keep == has_pr(views(prs@)),
            views(res@) =~= Seq::new(
                order.take(i as int).filter(keep).len(),
                |j: int| track_step(opts@, order.take(i as int).filter(keep)[j]),
            ),
    {
        let entry: &StackedBookmark = &sorted[i];
        proof {
            crate::text::lemma_filter_step(order, keep, i as int);
        }
        if find_pr(prs, &entry.name).is_some() {
            let parent: &str = entry.parent.as_branch_name(opts.trunk.as_str());
            let command: Command = if opts.dry_run {
                Command::Log(
                    "[dry-run] would: gt track ".to_owned().concat(entry.name.as_str()).concat(
                        " --parent ",
                    ).concat(parent),
                )
            } else {
                Command::GtTrack { name: entry.name.clone(), parent: parent.to_owned() }
            };
            proof {
                assert(command@ == track_step(opts@, entry@));
                crate::text::lemma_views_push(res@, command);
            }
            res.push(command);
        }
    }
    assert(order.take(order.len() as int) =~= order);
    res
}

fn prune(opts: &FetchOpts, queue: &Vec<LocalBookmark>, prs: &Vec<PrInfo>) -> (res: (
    Vec<Command>,
    Vec<LogEntry>,
))
    ensures
        views(res.0@) == prune_steps(opts@, views(queue@), views(prs@)),
        log_views(res.1@) == queue_log(views(queue@), views(prs@)),
{
    let ghost all = views(queue@);
    let mut commands: Vec<Command> = Vec::new();
    let mut log: Vec<LogEntry> = Vec::new();
    for i in 0..queue.len()
        invariant
            all == views(queue@),
            views(commands@) =~= prune_steps(opts@, all.take(i as int), views(prs@)),
            log_views(log@) =~= queue_log(all, views(prs@)).take(i as int),
    {
        let ghost logged = log_views(log@);
        let branch: LocalBookmark = queue[i].clone();
        let action: CleanupAction = classify_gtmq_branch(find_pr(prs, &branch.name));
        let ghost before = views(commands@);
        proof {
            assert(all.take(i + 1).drop_last() =~= all.take(i as int));
            assert(all.take(i + 1).last() == branch@);
        }
        if let CleanupAction::GtmqPruned { .. } = &action {
            if opts.dry_run {
                let line: String = "[dry-run] would: jj bookmark delete ".to_owned().concat(
                    branch.name.as_str(),
                ).concat(" && git push --delete ").concat(opts.remote.as_str()).concat(" ").concat(
                    branch.name.as_str(),
                );
                commands.push(Command::Log(line));
            } else {
                commands.push(Command::DeleteBookmark { name: branch.name.clone() });
                commands.push(
                    Command::DeleteRemoteBranch {
                        remote: opts.remote.clone(),
                        name: branch.name.clone(),
                    },
                );
            }
        }
        assert(views(commands@) =~= before + prune_step(opts@, branch@, views(prs@)));
        let ghost entry = (branch@, action@);
        log.push((branch, action));
        assert(log_views(log@) =~= logged.push(entry));
    }
    assert(all.take(all.len() as int) =~= all);
    assert(queue_log(all, views(prs@)).take(all.len() as int) =~= queue_log(all, views(prs@)));
    (commands, log)
}

fn preview(log: &Vec<LogEntry>) -> (res: Vec<Command>)
    ensures
        views(res@) == preview_steps(log_views(log@)),
{
    let ghost all = log_views(log@);
    let mut res: Vec<Command> = Vec::new();
    proof {
        reveal(Seq::filter);
        assert(all.take(0).filter(is_orphan()).len() == 0);
    }
    for i in 0..log.len()
        invariant
            all == log_views(log@),
            views(res@) =~= preview_steps(all.take(i as int)),
    {
        proof {
            crate::text::lemma_filter_step(all, is_orphan(), i as int);
        }
        if let CleanupAction::OrphanDeleted { .. } = &log[i].1 {
            let command: Command = Command::Log(
                "[dry-run] would: jj bookmark delete ".to_owned().concat(log[i].0.name.as_str()),
            );
            proof {
                crate::text::lemma_views_push(res@, command);
            }
            res.push(command);
        }
    }
    assert(all.take(all.len() as int) =~= all);
    res
}

fn mark_synced(log: Vec<LogEntry>, count: usize, remaining: &Vec<LocalBookmark>) -> (res: Vec<
    LogEntry,
>)
    ensures
        log_views(res@) == synced_log(log_views(log@), count as int, views(remaining@)),
{
    let names: Vec<String> = bookmark_names(remaining);
    let mut log = log;
    let ghost before = log_views(log@);
    let total: usize = log.len();
    for i in 0..total
        invariant
            log.len() == total,
            total == before.len(),
            views(names@) == names_of(views(remaining@)),
            log_views(log@).take(i as int) =~= synced_log(
                before,
                count as int,
                views(remaining@),
            ).take(i as int),
            log_views(log@).skip(i as int) =~= before.skip(i as int),
    {
        let ghost now = log_views(log@);
        assert(now[i as int] == now.skip(i as int)[0]);
        if i < count && !has_name(&names, &log[i].0.name) {
            let bookmark: LocalBookmark = log[i].0.clone();
            log.set(i, (bookmark, CleanupAction::GtSyncDeleted));
        }
        proof {
            let want = synced_log(before, count as int, views(remaining@));
            let after = log_views(log@);
            assert(after[i as int] == want[i as int]);
            assert forall|j: int| 0 <= j < i implies after[j] == want[j] by {
                assert(after[j] == now[j]);
                assert(now.take(i as int)[j] == want.take(i as int)[j]);
            }
            assert forall|j: int| i < j < before.len() implies after[j] == before[j] by {
                assert(after[j] == now[j]);
                assert(now.skip(i as int)[j - i] == before.skip(i as int)[j - i]);
            }
        }
    }
    assert(log_views(log@) =~= log_views(log@).take(log@.len() as int));
    log
}

fn lost_its_parent(entry: &StackedBookmark, names: &Vec<String>, name: &String) -> (res: bool)
    ensures
        forall|remaining: Seq<crate::jj::BookmarkView>|
            names_of(remaining) == views(names@) ==> res == #[trigger] lost_parent(
                entry@,
                remaining,
                name@,
            ),
{
    if !same_text(&entry.name, name) {
        return false;
    }
    match &entry.parent {
        BookmarkOrTrunk::Bookmark(parent) => !has_name(names, parent),
        BookmarkOrTrunk::Trunk => false,
    }
}

fn is_orphan_child(
    stacked: &Vec<StackedBookmark>,
    remaining: &Vec<LocalBookmark>,
    names: &Vec<String>,
    bookmark: &LocalBookmark,
) -> (res: bool)
    requires
        views(names@) == names_of(views(remaining@)),
    ensures
        res == orphaned(views(stacked@), views(remaining@), bookmark@),
{
    for i in 0..stacked.len()
        invariant
            views(names@) == names_of(views(remaining@)),
            forall|j: int|
                0 <= j < i ==> !lost_parent(
                    #[trigger] views(stacked@)[j],
                    views(remaining@),
                    bookmark@.name,
                ),
    {
        let lost: bool = lost_its_parent(&stacked[i], names, &bookmark.name);
        assert(lost == lost_parent(views(stacked@)[i as int], views(remaining@), bookmark@.name));
        if lost {
            return true;
        }
    }
    false
}

fn rebase_orphans(
    opts: &FetchOpts,
    stacked: &Vec<StackedBookmark>,
    remaining: &Vec<LocalBookmark>,
) -> (res: Vec<Command>)
    ensures
        views(res@) == rebase_steps(opts@, views(stacked@), views(remaining@)),
{
    let mut res: Vec<Command> = Vec::new();
    if opts.no_rebase {
        return res;
    }
    let names: Vec<String> = bookmark_names(remaining);
    let ghost all = views(remaining@);
    let ghost keep = is_orphaned(views(stacked@), all);
    proof {
        reveal(Seq::filter);
        assert(all.take(0).filter(keep).len() == 0);
    }
    for i in 0..remaining.len()
        invariant
            !opts.no_rebase,
            all == views(remaining@),
            keep == is_orphaned(views(stacked@), all),
            views(names@) == names_of(all),
            res@.len() == all.take(i as int).filter(keep).len(),
            forall|j: int|
                0 <= j < res@.len() ==> (#[trigger] res@[j])@ == (CommandView::Rebase {
                    revset: all.take(i as int).filter(keep)[j].name,
                    destination: opts.trunk@,
                }),
    {
        proof {
            crate::text::lemma_filter_step(all, keep, i as int);
        }
        if is_orphan_child(stacked, remaining, &names, &remaining[i]) {
            assert(keep(all[i as int]));
            res.push(
                Command::Rebase {
                    revset: remaining[i].name.clone(),
                    destination: opts.trunk.clone(),
                },
            );
        } else {
            assert(!keep(all[i as int]));
        }
    }
    assert(all.take(all.len() as int) =~= all);
    res
}

fn stack_is_needed(opts: &FetchOpts) -> (res: bool)
    ensures
        res == needs_stack(opts@),
{
    !opts.no_backfill || (!opts.no_rebase && !opts.dry_run)
}

impl FetchRun {
    /// Begins a pipeline.
    pub fn start(opts: FetchOpts) -> (res: FetchRun)
        ensures
            res@ == fetch_start(opts@),
            sound(res@),
            !opts.dry_run ==> res@.pending() == Some(
                CommandView::GitFetch { remote: opts.remote@ },
            ),
            opts.dry_run ==> res@.pending() == Some(
                CommandView::Log("[dry-run] would: jj git fetch --remote "@ + opts.remote@),
            ),
            res@.error is None,
    {
        proof {
            crate::fetch_laws::fetch_starts_sound(opts@);
        }
        let first: Command = if opts.dry_run {
            Command::Log(
                "[dry-run] would: jj git fetch --remote ".to_owned().concat(opts.remote.as_str()),
            )
        } else {
            Command::GitFetch { remote: opts.remote.clone() }
        };
        let res = FetchRun {
            opts,
            phase: FetchPhase::Fetching,
            todo: only(first),
            normal: Vec::new(),
            queue: Vec::new(),
            prs: Vec::new(),
            queue_prs: Vec::new(),
            stacked: Vec::new(),
            remaining: Vec::new(),
            log: Vec::new(),
            cursor: 0,
            error: None,
        };
        proof {
            let want = fetch_start(opts@);
            assert(res@.normal =~= want.normal);
            assert(res@.queue =~= want.queue);
            assert(res@.prs =~= want.prs);
            assert(res@.queue_prs =~= want.queue_prs);
            assert(res@.stacked =~= want.stacked);
            assert(res@.remaining =~= want.remaining);
            assert(res@.log =~= want.log);
        }
        res
    }

    /// The command to be carried out next; none once the pipeline has ended.
    pub fn pending(&self) -> (res: Option<&Command>)
        ensures
            opt_view(res) == self@.pending(),
    {
        match self.phase {
            FetchPhase::Finished => None,
            _ => if self.todo.len() == 0 {
                None
            } else {
                Some(&self.todo[0])
            },
        }
    }

    /// The log of a pipeline that has ended, or the error that ended it.
    pub fn into_log(self) -> (res: Result<Vec<LogEntry>, JjGtError>)
        ensures
            match res {
                Ok(log) => self@.error is None && log_views(log@) == self@.log && log@.len()
                    == self@.log.len() && forall|i: int|
                    0 <= i < log@.len() ==> (#[trigger] log@[i]).0@ == self@.log[i].0
                        && log@[i].1@ == self@.log[i].1,
                Err(error) => self@.error == Some(error@),
            },
    {
        match self.error {
            None => {
                proof {
                    crate::fetch_asks::logs_go_by_entry(self.log@);
                }
                Ok(self.log)
            },
            Some(error) => Err(error),
        }
    }

    fn turn(self, phase: FetchPhase, todo: Vec<Command>) -> (res: FetchRun)
        ensures
            res@ == turn(self@, phase, views(todo@)),
    {
        FetchRun { phase, todo, ..self }
    }

    fn finish(self) -> (res: FetchRun)
        ensures
            res@ == finish(self@),
    {
        let none: Vec<Command> = Vec::new();
        assert(views(none@) =~= Seq::<CommandView>::empty());
        self.turn(FetchPhase::Finished, none)
    }

    fn fail(self, error: JjGtError) -> (res: FetchRun)
        ensures
            res@ == fail(self@, error@),
    {
        FetchRun { error: Some(error), ..self.finish() }
    }

    fn after_listing(self, bookmarks: Vec<LocalBookmark>) -> (res: FetchRun)
        ensures
            res@ == after_listing(self@, views(bookmarks@)),
    {
        let (normal, queue) = partition(bookmarks, &self.opts.gtmq_prefixes);
        let names: Vec<String> = bookmark_names(&normal);
        let empty: bool = normal.len() == 0;
        let run = FetchRun { normal, queue, ..self };
        if empty {
            let none: Vec<PrInfo> = Vec::new();
            assert(views(none@) =~= Seq::<PrView>::empty());
            run.after_matching(none)
        } else {
            run.turn(FetchPhase::Matching, only(Command::FindPrs { names, limit: PR_LIMIT }))
        }
    }

    fn after_matching(self, prs: Vec<PrInfo>) -> (res: FetchRun)
        ensures
            res@ == after_matching(self@, views(prs@)),
    {
        let run = FetchRun { prs, ..self };
        if stack_is_needed(&run.opts) {
            let command: Command = Command::DeriveParents {
                names: bookmark_names(&run.normal),
                trunk: run.opts.trunk.clone(),
            };
            run.turn(FetchPhase::Stacking, only(command))
        } else {
            run.mark_rest()
        }
    }

    fn after_stacking(self, stacked: Vec<StackedBookmark>) -> (res: FetchRun)
        ensures
            res@ == after_stacking(self@, views(stacked@)),
    {
        let todo: Vec<Command> = if self.opts.no_backfill {
            let none: Vec<Command> = Vec::new();
            assert(views(none@) =~= Seq::<CommandView>::empty());
            none
        } else {
            backfill(&self.opts, &self.prs, &stacked)
        };
        let run = FetchRun { stacked, ..self };
        if todo.len() == 0 {
            run.mark_rest()
        } else {
            run.turn(FetchPhase::Backfilling, todo)
        }
    }

    fn mark_rest(self) -> (res: FetchRun)
        ensures
            res@ == mark_rest(self@),
    {
        let mut run = self;
        while run.log.len() < run.normal.len()
            invariant
                mark_rest(run@) == mark_rest(self@),
            decreases run.normal.len() - run.log.len(),
        {
            let local: LocalBookmark = run.normal[run.log.len()].clone();
            let question: Option<u32> = match find_pr(&run.prs, &local.name) {
                Some(pr) if pr.state.is_terminal() => Some(pr.number),
                _ => None,
            };
            match question {
                Some(pr) => {
                    let trunk: String = run.opts.trunk.clone();
                    return run.turn(
                        FetchPhase::Marking,
                        only(Command::FindMergeMarker { pr, trunk }),
                    );
                },
                None => {
                    run = run.log_next(None);
                },
            }
        }
        run.begin_sync()
    }

    fn log_next(self, marker: Option<String>) -> (res: FetchRun)
        requires
            self@.log.len() < self@.normal.len(),
        ensures
            res@ == log_next(self@, opt_view(marker)),
    {
        let mut run = self;
        let local: LocalBookmark = run.normal[run.log.len()].clone();
        let action: CleanupAction = match &marker {
            Some(sha) => classify_local_bookmark(
                &local,
                find_pr(&run.prs, &local.name),
                Some(sha.as_str()),
            ),
            None => classify_local_bookmark(&local, find_pr(&run.prs, &local.name), None),
        };
        let ghost entry = (local@, action@);
        run.log.push((local, action));
        assert(run@.log =~= self@.log.push(entry));
        run
    }

    fn begin_sync(self) -> (res: FetchRun)
        ensures
            res@ == begin_sync(self@),
    {
        if self.opts.dry_run {
            let line: String = "[dry-run] would: gt sync --no-restack --force".to_owned();
            self.turn(FetchPhase::Syncing, only(Command::Log(line)))
        } else {
            let mut todo: Vec<Command> = only(Command::GtSync);
            proof {
                crate::text::lemma_views_push(todo@, Command::GitImport);
            }
            todo.push(Command::GitImport);
            assert(views(todo@) =~= seq![CommandView::GtSync, CommandView::GitImport]);
            self.turn(FetchPhase::Syncing, todo)
        }
    }

    fn after_syncing(self) -> (res: FetchRun)
        ensures
            res@ == after_syncing(self@),
    {
        if self.opts.no_gtmq_prune || self.queue.len() == 0 {
            self.after_pruning()
        } else {
            let prefixes: Vec<String> = copy_names(&self.opts.gtmq_prefixes);
            self.turn(
                FetchPhase::QueueMatching,
                only(Command::FindQueuePrs { prefixes, limit: QUEUE_PR_LIMIT }),
            )
        }
    }

    fn after_queue_matching(self, prs: Vec<PrInfo>) -> (res: FetchRun)
        ensures
            res@ == after_queue_matching(self@, views(prs@)),
    {
        let (todo, mut entries) = prune(&self.opts, &self.queue, &prs);
        let mut run = FetchRun { queue_prs: prs, ..self };
        let ghost tail = log_views(entries@);
        run.log.append(&mut entries);
        assert(run@.log =~= self@.log + tail);
        if todo.len() == 0 {
            run.after_pruning()
        } else {
            run.turn(FetchPhase::Pruning, todo)
        }
    }

    fn after_pruning(self) -> (res: FetchRun)
        ensures
            res@ == after_pruning(self@),
    {
        if self.opts.dry_run {
            let todo: Vec<Command> = preview(&self.log);
            if todo.len() == 0 {
                self.finish()
            } else {
                self.turn(FetchPhase::Previewing, todo)
            }
        } else {
            self.turn(FetchPhase::Relisting, only(Command::ListBookmarks))
        }
    }

    fn after_relisting(self, remaining: Vec<LocalBookmark>) -> (res: FetchRun)
        ensures
            res@ == after_relisting(self@, views(remaining@)),
    {
        let count: usize = self.normal.len();
        let todo: Vec<Command> = rebase_orphans(&self.opts, &self.stacked, &remaining);
        let log: Vec<LogEntry> = mark_synced(self.log, count, &remaining);
        let run = FetchRun { remaining, log, ..self };
        if todo.len() == 0 {
            run.orphans_from(0)
        } else {
            run.turn(FetchPhase::Rebasing, todo)
        }
    }

    fn orphans_from(self, from: usize) -> (res: FetchRun)
        ensures
            res@ == orphans_from(self@, from as int),
    {
        let mut i: usize = from;
        while i < self.log.len()
            invariant
                orphans_from(self@, i as int) == orphans_from(self@, from as int),
            decreases self.log.len() - i,
        {
            assert(self@.log[i as int] == (self.log@[i as int].0@, self.log@[i as int].1@));
            if let CleanupAction::OrphanDeleted { pr, merge_commit_id } = &self.log[i].1 {
                let name: String = self.log[i].0.name.clone();
                let command: Command = if self.opts.auto {
                    Command::DeleteBookmark { name }
                } else {
                    Command::ConfirmDelete {
                        name,
                        pr: *pr,
                        merge_commit_id: merge_commit_id.clone(),
                    }
                };
                return FetchRun { cursor: i, ..self }.turn(FetchPhase::Orphans, only(command));
            }
            i = i + 1;
        }
        self.finish()
    }

    fn after_answer(self, yes: bool) -> (res: FetchRun)
        requires
            self@.cursor < self@.log.len(),
        ensures
            res@ == after_answer(self@, yes),
    {
        let at: usize = self.cursor;
        assert(self@.log[at as int] == (self.log@[at as int].0@, self.log@[at as int].1@));
        let bookmark: LocalBookmark = self.log[at].0.clone();
        if yes {
            return self.turn(
                FetchPhase::Orphans,
                only(Command::DeleteBookmark { name: bookmark.name }),
            );
        }
        let mut run = self;
        let kept: Option<CleanupAction> = match &run.log[at].1 {
            CleanupAction::OrphanDeleted { pr, merge_commit_id } => Some(
                CleanupAction::OrphanSkipped { pr: *pr, merge_commit_id: merge_commit_id.clone() },
            ),
            _ => None,
        };
        if let Some(action) = kept {
            run.log.set(at, (bookmark, action));
        }
        assert(run@.log =~= self@.log.update(at as int, skipped(self@.log[at as int])));
        assert(at < run.log.len());
        run.orphans_from(at + 1)
    }

    fn end_of_phase(self) -> (res: FetchRun)
        requires
            self@.phase is Orphans ==> self@.cursor < self@.log.len(),
        ensures
            res@ == end_of_phase(self@),
    {
        match self.phase {
            FetchPhase::Fetching => self.turn(FetchPhase::Listing, only(Command::ListBookmarks)),
            FetchPhase::Stacking => {
                let none: Vec<StackedBookmark> = Vec::new();
                assert(views(none@) =~= Seq::<crate::stack::StackedView>::empty());
                self.after_stacking(none)
            },
            FetchPhase::Backfilling => self.mark_rest(),
            FetchPhase::Syncing => self.after_syncing(),
            FetchPhase::Pruning => self.after_pruning(),
            FetchPhase::Previewing => self.finish(),
            FetchPhase::Relisting => {
                let remaining: Vec<LocalBookmark> = copy_bookmarks(&self.normal);
                self.after_relisting(remaining)
            },
            FetchPhase::Rebasing => self.orphans_from(0),
            FetchPhase::Orphans => {
                assert(self.cursor < self.log.len());
                let next: usize = self.cursor + 1;
                self.orphans_from(next)
            },
            _ => self,
        }
    }

    fn advance(self) -> (res: FetchRun)
        requires
            self@.phase is Orphans ==> self@.cursor < self@.log.len(),
            self@.todo.len() > 0,
        ensures
            res@ == advance(self@),
    {
        if self.todo.len() > 1 {
            let mut run = self;
            let ghost before = views(run.todo@);
            run.todo.remove(0);
            assert(run@.todo =~= before.drop_first());
            run
        } else {
            self.end_of_phase()
        }
    }

    fn note_of(&self, error: &JjGtError) -> (res: Option<Command>)
        requires
            self@.pending() is Some,
        ensures
            opt_view(res) == failure_note(self@, self@.pending()->0, error@),
    {
        let reason: String = error.message();
        match &self.todo[0] {
            Command::Rebase { revset, destination } => Some(
                Command::Log(
                    "could not rebase ".to_owned().concat(revset.as_str()).concat(" onto ").concat(
                        destination.as_str(),
                    ).concat(": ").concat(reason.as_str()),
                ),
            ),
            Command::DeriveParents { .. } => if self.opts.no_backfill {
                Some(
                    Command::Log(
                        "could not find orphaned bookmarks: ".to_owned().concat(reason.as_str()),
                    ),
                )
            } else {
                None
            },
            Command::ListBookmarks => match self.phase {
                FetchPhase::Relisting if self.opts.no_rebase => Some(
                    Command::Log(
                        "could not list what gt sync left: ".to_owned().concat(reason.as_str()),
                    ),
                ),
                _ => None,
            },
            _ => None,
        }
    }

    fn give_up(self, error: JjGtError) -> (res: FetchRun)
        requires
            self@.pending() is Some,
            self@.phase is Orphans ==> self@.cursor < self@.log.len(),
        ensures
            res@ == give_up(self@, self@.pending()->0, error@),
    {
        let attempt: bool = self.todo[0].is_best_effort();
        match self.note_of(&error) {
            Some(line) => {
                let mut run = self;
                let ghost before = views(run.todo@);
                run.todo.set(0, line);
                assert(run@.todo =~= seq![line@] + before.drop_first());
                run
            },
            None => if attempt {
                self.advance()
            } else {
                self.fail(error)
            },
        }
    }

    fn absorb(self, reply: Reply) -> (res: FetchRun)
        requires
            sound(self@),
            self@.pending() is Some,
            self@.pending()->0.expects(reply@),
        ensures
            res@ == absorb(self@, reply@),
    {
        match reply {
            Reply::Bookmarks(bookmarks) => match self.phase {
                FetchPhase::Listing => self.after_listing(bookmarks),
                _ => self.after_relisting(bookmarks),
            },
            Reply::Prs(prs) => match self.phase {
                FetchPhase::Matching => self.after_matching(prs),
                _ => self.after_queue_matching(prs),
            },
            Reply::Parents(stacked) => self.after_stacking(stacked),
            Reply::Marker(marker) => self.log_next(marker).mark_rest(),
            Reply::Answer(yes) => self.after_answer(yes),
            _ => self.advance(),
        }
    }
}

/// Takes what came back from the pending command, and moves the pipeline on to
/// the next command or to its end.
///
/// What a tool failed at ends the pipeline with that error, except for the
/// commands that are attempts only. A rebase that fails is noted in the log, and so
/// is the stack that cannot be found where it is needed for rebases only, and the
/// second listing where nothing is to be rebased.
pub fn run_fetch(run: FetchRun, reply: Result<Reply, JjGtError>) -> (res: FetchRun)
    requires
        sound(run@),
    ensures
        res@ == fetch_step(run@, reply_view(reply)),
        sound(res@),
{
    proof {
        crate::fetch_laws::fetch_stays_sound(run@, reply_view(reply));
    }
    let fits: bool = match run.pending() {
        None => {
            return run;
        },
        Some(command) => match &reply {
            Ok(reply) => command.accepts(reply),
            Err(_) => false,
        },
    };
    match reply {
        Err(error) => run.give_up(error),
        Ok(reply) => if fits {
            run.absorb(reply)
        } else {
            run.fail(JjGtError::UnexpectedReply)
        },
    }
}

} // verus!
