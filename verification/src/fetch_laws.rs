//! What holds of every `jj-gt fetch` pipeline, whatever the tools reply.

use vstd::prelude::*;

use crate::cleanup::{
    drifted, gtmq_decision, has_prefix, local_decision, ActionView, FetchOptsView,
};
use crate::command::{CommandView, ReplyView};
use crate::error::ErrorView;
use crate::fetch_frames::{group_frames, wants_marker};
use crate::fetch_model::{
    absorb, advance, after_answer, after_listing, after_matching, after_pruning,
    after_queue_matching, after_relisting, after_stacking, after_syncing, backfill_steps,
    begin_sync, fail, failure_note, fetch_start, fetch_step, give_up, has_pr, inside_queue,
    log_next, mark_rest, needs_stack, orphans_from, outside_queue, prune_step, prune_steps,
    queue_log, rebase_steps, relisted, skipped, track_step, turn, FetchPhase, FetchView,
};
use crate::gh::{first_pr, PrView};
use crate::jj::BookmarkView;
use crate::stack::{acyclic, parents_first, sits_on, tracking_order, StackedView};

verus! {

/// The state after one reply. It is opaque, so that what is proved of whole runs
/// goes by what is known of single steps.
#[verifier::opaque]
pub open spec fn after_reply(s: FetchView, reply: Result<ReplyView, ErrorView>) -> FetchView {
    fetch_step(s, reply)
}

/// The state that a pipeline is in after these replies.
pub open spec fn fetch_after(
    opts: FetchOptsView,
    replies: Seq<Result<ReplyView, ErrorView>>,
) -> FetchView
    decreases replies.len(),
{
    if replies.len() == 0 {
        fetch_start(opts)
    } else {
        after_reply(fetch_after(opts, replies.drop_last()), replies.last())
    }
}

/// Whether a bookmark that was decided on this way may end with `action`: the
/// decision itself, or `gt sync` deleted the bookmark, or the decision was a
/// deletion and the user objected.
pub open spec fn settled_as(decision: ActionView, action: ActionView) -> bool {
    ||| action == decision
    ||| action is GtSyncDeleted
    ||| decision matches ActionView::OrphanDeleted { pr, merge_commit_id } && action
        == (ActionView::OrphanSkipped { pr, merge_commit_id })
}

/// Whether `action` is a proper end for a bookmark outside the merge queue that
/// has this pull request: what some merge marker leads to, where one may have
/// been looked for, or what no marker leads to.
pub open spec fn justified(local: BookmarkView, pr: Option<PrView>, action: ActionView) -> bool {
    exists|marker: Option<Seq<char>>|
        (marker is Some ==> wants_marker(pr)) && settled_as(
            #[trigger] local_decision(local, pr, marker),
            action,
        )
}

/// Whether a bookmark outside the merge queue may be deleted: its pull request
/// is closed or merged, and the local commit is the one that was pushed.
pub open spec fn has_landed(local: BookmarkView, pr: Option<PrView>) -> bool {
    pr is Some && pr->0.state.terminal() && !drifted(local, pr->0)
}

/// Whether the bookmarks are set apart by the queue prefixes, and the log so
/// far tells of the bookmarks outside the merge queue, in order.
pub open spec fn well_logged(s: FetchView) -> bool {
    &&& forall|i: int|
        0 <= i < s.normal.len() ==> !has_prefix(
            (#[trigger] s.normal[i]).name,
            s.opts.gtmq_prefixes,
        )
    &&& forall|i: int|
        0 <= i < s.queue.len() ==> has_prefix((#[trigger] s.queue[i]).name, s.opts.gtmq_prefixes)
    &&& forall|i: int|
        0 <= i < s.log.len() && i < s.normal.len() ==> (#[trigger] s.log[i]).0 == s.normal[i]
            && justified(s.normal[i], first_pr(s.prs, s.normal[i].name), s.log[i].1)
}

/// Whether the log tells of every bookmark that it is to tell of: each one
/// outside the merge queue, then each queue-test branch if these are pruned.
pub open spec fn complete(s: FetchView) -> bool {
    if s.opts.no_gtmq_prune {
        s.log.len() == s.normal.len()
    } else {
        &&& s.log.len() == s.normal.len() + s.queue.len()
        &&& s.log.skip(s.normal.len() as int) == queue_log(s.queue, s.queue_prs)
    }
}

/// Whether `command` prunes a queue-test branch, or says so in a dry run.
pub open spec fn prunes(s: FetchView, command: CommandView) -> bool {
    if s.opts.dry_run {
        command is Log
    } else {
        exists|i: int|
            0 <= i < s.queue.len() && gtmq_decision(
                first_pr(s.queue_prs, (#[trigger] s.queue[i]).name),
            ) is GtmqPruned && (command == CommandView::DeleteBookmark { name: s.queue[i].name }
                || command == CommandView::DeleteRemoteBranch {
                remote: s.opts.remote,
                name: s.queue[i].name,
            })
    }
}

/// Whether `todo` is what is left of `steps` once some of them, from the first on,
/// are done.
#[verifier::opaque]
pub open spec fn is_tail(todo: Seq<CommandView>, steps: Seq<CommandView>) -> bool {
    todo.len() <= steps.len() && todo == steps.skip(steps.len() - todo.len())
}

pub(crate) proof fn lemma_whole_is_tail(steps: Seq<CommandView>)
    ensures
        is_tail(steps, steps),
{
    reveal(is_tail);
    assert(steps.skip(0) =~= steps);
}

pub(crate) proof fn lemma_tail(todo: Seq<CommandView>, steps: Seq<CommandView>)
    requires
        is_tail(todo, steps),
    ensures
        todo.len() <= steps.len(),
        todo.len() > 0 ==> todo[0] == steps[steps.len() - todo.len()],
        todo.len() > 0 ==> is_tail(todo.drop_first(), steps),
{
    reveal(is_tail);
    if todo.len() > 0 {
        assert(todo.drop_first() =~= steps.skip(steps.len() - todo.len() + 1));
    }
}

/// How many rebases have been asked for, the pending one not counted.
pub open spec fn rebases_done(s: FetchView) -> int {
    rebase_steps(s.opts, s.stacked, s.remaining).len() - s.todo.len()
}

/// Whether the pending commands are those of the phase, and the log has got as
/// far as the phase says.
pub open spec fn in_phase(s: FetchView) -> bool {
    match s.phase {
        FetchPhase::Fetching => {
            &&& s.log.len() == 0
            &&& s.normal.len() == 0
            &&& s.queue.len() == 0
            &&& s.todo == fetch_start(s.opts).todo
        },
        FetchPhase::Listing => {
            &&& s.log.len() == 0
            &&& s.normal.len() == 0
            &&& s.queue.len() == 0
            &&& s.todo == seq![CommandView::ListBookmarks]
        },
        FetchPhase::Matching => {
            &&& s.log.len() == 0
            &&& s.todo.len() == 1
            &&& s.todo[0] is FindPrs
        },
        FetchPhase::Stacking => {
            &&& s.log.len() == 0
            &&& needs_stack(s.opts)
            &&& s.todo.len() == 1
            &&& s.todo[0] is DeriveParents || (s.opts.no_backfill && s.todo[0] is Log)
        },
        FetchPhase::Backfilling => {
            &&& s.log.len() == 0
            &&& !s.opts.no_backfill
            &&& s.todo.len() > 0
            &&& is_tail(s.todo, backfill_steps(s.opts, s.prs, s.stacked))
            &&& forall|i: int|
                0 <= i < s.todo.len() ==> if s.opts.dry_run {
                    (#[trigger] s.todo[i]) is Log
                } else {
                    s.todo[i] is GtTrack
                }
        },
        FetchPhase::Marking => {
            &&& s.log.len() < s.normal.len()
            &&& wants_marker(first_pr(s.prs, s.normal[s.log.len() as int].name))
            &&& s.todo == seq![
                CommandView::FindMergeMarker {
                    pr: first_pr(s.prs, s.normal[s.log.len() as int].name)->0.number,
                    trunk: s.opts.trunk,
                },
            ]
        },
        FetchPhase::Syncing => {
            &&& s.log.len() == s.normal.len()
            &&& if s.opts.dry_run {
                s.todo == begin_sync(s).todo
            } else {
                s.todo == seq![CommandView::GtSync, CommandView::GitImport] || s.todo == seq![
                    CommandView::GitImport,
                ]
            }
        },
        FetchPhase::QueueMatching => {
            &&& s.log.len() == s.normal.len()
            &&& !s.opts.no_gtmq_prune
            &&& s.todo.len() == 1
            &&& s.todo[0] is FindQueuePrs
        },
        FetchPhase::Pruning => {
            &&& complete(s)
            &&& !s.opts.no_gtmq_prune
            &&& s.todo.len() > 0
            &&& is_tail(s.todo, prune_steps(s.opts, s.queue, s.queue_prs))
            &&& forall|i: int| 0 <= i < s.todo.len() ==> prunes(s, #[trigger] s.todo[i])
        },
        FetchPhase::Previewing => {
            &&& complete(s)
            &&& s.opts.dry_run
            &&& s.todo.len() > 0
            &&& forall|i: int| 0 <= i < s.todo.len() ==> (#[trigger] s.todo[i]) is Log
        },
        FetchPhase::Relisting => {
            &&& complete(s)
            &&& !s.opts.dry_run
            &&& s.todo.len() == 1
            &&& s.todo[0] is ListBookmarks || (s.opts.no_rebase && s.todo[0] is Log)
        },
        FetchPhase::Rebasing => {
            &&& complete(s)
            &&& !s.opts.dry_run
            &&& !s.opts.no_rebase
            &&& s.todo.len() > 0
            &&& if s.todo[0] is Log {
                is_tail(s.todo.drop_first(), rebase_steps(s.opts, s.stacked, s.remaining))
                    && rebases_done(s) >= 0
            } else {
                is_tail(s.todo, rebase_steps(s.opts, s.stacked, s.remaining))
            }
            &&& forall|i: int|
                0 <= i < s.todo.len() ==> (i == 0 && s.todo[0] is Log) || ((
                #[trigger] s.todo[i]) is Rebase && s.todo[i]->destination == s.opts.trunk)
        },
        FetchPhase::Orphans => {
            &&& complete(s)
            &&& !s.opts.dry_run
            &&& 0 <= s.cursor < s.normal.len()
            &&& s.log[s.cursor].1 is OrphanDeleted
            &&& s.todo.len() == 1
            &&& {
                ||| s.todo[0] == CommandView::DeleteBookmark { name: s.normal[s.cursor].name }
                ||| !s.opts.auto && s.todo[0] == CommandView::ConfirmDelete {
                    name: s.normal[s.cursor].name,
                    pr: s.log[s.cursor].1->OrphanDeleted_pr,
                    merge_commit_id: s.log[s.cursor].1->OrphanDeleted_merge_commit_id,
                }
            }
        },
        FetchPhase::Finished => s.error is None ==> complete(s),
    }
}

/// The invariant of the pipeline.
pub open spec fn sound(s: FetchView) -> bool {
    &&& well_logged(s)
    &&& in_phase(s)
    &&& s.error is Some ==> s.phase is Finished
}

proof fn lemma_orphans_from(s: FetchView, i: int)
    requires
        well_logged(s),
        complete(s),
        !s.opts.dry_run,
        s.error is None,
        0 <= i,
    ensures
        sound(orphans_from(s, i)),
    decreases s.log.len() - i,
{
    if i < s.log.len() {
        if s.log[i].1 is OrphanDeleted {
            if i >= s.normal.len() {
                assert(s.log[i] == s.log.skip(s.normal.len() as int)[i - s.normal.len()]);
                assert(s.log[i] == queue_log(s.queue, s.queue_prs)[i - s.normal.len()]);
                assert(false);
            }
            assert(s.log[i].0 == s.normal[i]);
        } else {
            lemma_orphans_from(s, i + 1);
        }
    }
}

proof fn lemma_begin_sync(s: FetchView)
    requires
        well_logged(s),
        s.log.len() == s.normal.len(),
        s.error is None,
    ensures
        sound(begin_sync(s)),
{
}

proof fn lemma_log_next(s: FetchView, marker: Option<Seq<char>>)
    requires
        well_logged(s),
        s.log.len() < s.normal.len(),
        marker is Some ==> wants_marker(first_pr(s.prs, s.normal[s.log.len() as int].name)),
    ensures
        well_logged(log_next(s, marker)),
{
    let next = log_next(s, marker);
    assert forall|i: int| 0 <= i < next.log.len() && i < next.normal.len() implies (
    #[trigger] next.log[i]).0 == next.normal[i] && justified(
        next.normal[i],
        first_pr(next.prs, next.normal[i].name),
        next.log[i].1,
    ) by {
        if i < s.log.len() {
            assert(next.log[i] == s.log[i]);
        } else {
            assert(next.log[i].1 == local_decision(
                s.normal[i],
                first_pr(s.prs, s.normal[i].name),
                marker,
            ));
        }
    }
}

proof fn lemma_mark_rest(s: FetchView)
    requires
        well_logged(s),
        s.log.len() <= s.normal.len(),
        s.error is None,
    ensures
        sound(mark_rest(s)),
    decreases s.normal.len() - s.log.len(),
{
    if s.log.len() < s.normal.len() {
        let pr = first_pr(s.prs, s.normal[s.log.len() as int].name);
        if !(pr is Some && pr->0.state.terminal()) {
            lemma_log_next(s, None);
            lemma_mark_rest(log_next(s, None));
        }
    } else {
        lemma_begin_sync(s);
    }
}

proof fn lemma_after_pruning(s: FetchView)
    requires
        well_logged(s),
        complete(s),
        s.error is None,
    ensures
        sound(after_pruning(s)),
{
}

proof fn lemma_after_syncing(s: FetchView)
    requires
        well_logged(s),
        s.log.len() == s.normal.len(),
        s.error is None,
    ensures
        sound(after_syncing(s)),
{
    if s.opts.no_gtmq_prune || s.queue.len() == 0 {
        assert(s.log.skip(s.normal.len() as int) =~= queue_log(s.queue, s.queue_prs)
            || s.opts.no_gtmq_prune);
        lemma_after_pruning(s);
    }
}

proof fn lemma_prune_steps(s: FetchView, n: int)
    requires
        0 <= n <= s.queue.len(),
    ensures
        forall|i: int|
            0 <= i < prune_steps(s.opts, s.queue.take(n), s.queue_prs).len() ==> prunes(
                s,
                #[trigger] prune_steps(s.opts, s.queue.take(n), s.queue_prs)[i],
            ),
    decreases n,
{
    if n > 0 {
        lemma_prune_steps(s, n - 1);
        let steps = prune_steps(s.opts, s.queue.take(n), s.queue_prs);
        let before = prune_steps(s.opts, s.queue.take(n - 1), s.queue_prs);
        assert(s.queue.take(n).drop_last() =~= s.queue.take(n - 1));
        let last = prune_step(s.opts, s.queue[n - 1], s.queue_prs);
        assert(steps == before + last);
        assert forall|i: int| 0 <= i < steps.len() implies prunes(s, #[trigger] steps[i]) by {
            if i < before.len() {
                assert(steps[i] == before[i]);
            } else {
                assert(steps[i] == last[i - before.len()]);
                assert(gtmq_decision(first_pr(s.queue_prs, s.queue[n - 1].name)) is GtmqPruned);
            }
        }
    }
}

proof fn lemma_after_queue_matching(s: FetchView, prs: Seq<PrView>)
    requires
        well_logged(s),
        s.log.len() == s.normal.len(),
        !s.opts.no_gtmq_prune,
        s.error is None,
    ensures
        sound(after_queue_matching(s, prs)),
{
    let t = FetchView { queue_prs: prs, log: s.log + queue_log(s.queue, prs), ..s };
    assert(t.log.skip(t.normal.len() as int) =~= queue_log(t.queue, t.queue_prs));
    assert forall|i: int| 0 <= i < t.log.len() && i < t.normal.len() implies (#[trigger] t.log[i]).0
        == t.normal[i] && justified(
        t.normal[i],
        first_pr(t.prs, t.normal[i].name),
        t.log[i].1,
    ) by {
        assert(t.log[i] == s.log[i]);
    }
    assert(t.queue.take(t.queue.len() as int) =~= t.queue);
    lemma_prune_steps(t, t.queue.len() as int);
    let steps = prune_steps(t.opts, t.queue, prs);
    if steps.len() == 0 {
        lemma_after_pruning(t);
    } else {
        let n = turn(t, FetchPhase::Pruning, steps);
        lemma_whole_is_tail(steps);
        assert forall|i: int| 0 <= i < n.todo.len() implies prunes(n, #[trigger] n.todo[i]) by {
            assert(prunes(t, steps[i]));
        }
        assert(well_logged(n));
    }
}

proof fn lemma_after_relisting(s: FetchView, remaining: Seq<BookmarkView>)
    requires
        well_logged(s),
        complete(s),
        !s.opts.dry_run,
        s.error is None,
    ensures
        sound(after_relisting(s, remaining)),
{
    let t = relisted(s, remaining);
    assert(t.log.skip(t.normal.len() as int) =~= s.log.skip(s.normal.len() as int));
    assert forall|i: int| 0 <= i < t.log.len() && i < t.normal.len() implies (#[trigger] t.log[i]).0
        == t.normal[i] && justified(
        t.normal[i],
        first_pr(t.prs, t.normal[i].name),
        t.log[i].1,
    ) by {
        assert(s.log[i].0 == s.normal[i]);
        lemma_justified_sync(t.normal[i], first_pr(t.prs, t.normal[i].name));
    }
    lemma_orphans_from(t, 0);
    let steps = rebase_steps(t.opts, t.stacked, t.remaining);
    if steps.len() > 0 {
        let n = turn(t, FetchPhase::Rebasing, steps);
        lemma_whole_is_tail(steps);
        assert(well_logged(n));
    }
}

proof fn lemma_justified_sync(local: BookmarkView, pr: Option<PrView>)
    ensures
        justified(local, pr, ActionView::GtSyncDeleted),
{
    assert(settled_as(local_decision(local, pr, None), ActionView::GtSyncDeleted));
}

proof fn lemma_after_answer(s: FetchView, yes: bool)
    requires
        sound(s),
        s.phase is Orphans,
    ensures
        sound(after_answer(s, yes)),
{
    let entry = s.log[s.cursor];
    assert(entry.0 == s.normal[s.cursor]);
    if yes {
        let n = after_answer(s, yes);
        assert(well_logged(n));
    } else {
        let t = FetchView { log: s.log.update(s.cursor, skipped(entry)), ..s };
        assert(t.log.skip(t.normal.len() as int) =~= s.log.skip(s.normal.len() as int));
        assert forall|i: int| 0 <= i < t.log.len() && i < t.normal.len() implies (
        #[trigger] t.log[i]).0 == t.normal[i] && justified(
            t.normal[i],
            first_pr(t.prs, t.normal[i].name),
            t.log[i].1,
        ) by {
            if i == s.cursor {
                let pr = first_pr(s.prs, s.normal[i].name);
                let marker = choose|marker: Option<Seq<char>>|
                    (marker is Some ==> wants_marker(pr)) && settled_as(
                        #[trigger] local_decision(s.normal[i], pr, marker),
                        entry.1,
                    );
                assert(settled_as(local_decision(s.normal[i], pr, marker), t.log[i].1));
            } else {
                assert(t.log[i] == s.log[i]);
            }
        }
        lemma_orphans_from(t, s.cursor + 1);
    }
}

proof fn lemma_after_matching(s: FetchView, prs: Seq<PrView>)
    requires
        well_logged(s),
        s.log.len() == 0,
        s.error is None,
    ensures
        sound(after_matching(s, prs)),
{
    let t = FetchView { prs, ..s };
    assert(well_logged(t));
    lemma_mark_rest(t);
}

proof fn lemma_after_listing(s: FetchView, bookmarks: Seq<BookmarkView>)
    requires
        s.log.len() == 0,
        s.error is None,
    ensures
        sound(after_listing(s, bookmarks)),
{
    let outside = outside_queue(s.opts.gtmq_prefixes);
    let inside = inside_queue(s.opts.gtmq_prefixes);
    let normal = bookmarks.filter(outside);
    let queue = bookmarks.filter(inside);
    let t = FetchView { normal, queue, ..s };
    assert forall|i: int| 0 <= i < normal.len() implies !has_prefix(
        (#[trigger] normal[i]).name,
        s.opts.gtmq_prefixes,
    ) by {
        assert(normal.contains(normal[i]));
        crate::text::lemma_filter_members(bookmarks, outside, normal[i]);
    }
    assert forall|i: int| 0 <= i < queue.len() implies has_prefix(
        (#[trigger] queue[i]).name,
        s.opts.gtmq_prefixes,
    ) by {
        assert(queue.contains(queue[i]));
        crate::text::lemma_filter_members(bookmarks, inside, queue[i]);
    }
    assert(well_logged(t));
    lemma_after_matching(t, Seq::empty());
}

proof fn lemma_after_stacking(s: FetchView, stacked: Seq<StackedView>)
    requires
        well_logged(s),
        s.log.len() == 0,
        needs_stack(s.opts),
        s.error is None,
    ensures
        sound(after_stacking(s, stacked)),
{
    let t = FetchView { stacked, ..s };
    assert(well_logged(t));
    lemma_mark_rest(t);
    let steps = backfill_steps(t.opts, t.prs, stacked);
    lemma_whole_is_tail(steps);
}

proof fn lemma_give_up(s: FetchView, error: ErrorView)
    requires
        sound(s),
        s.pending() is Some,
    ensures
        sound(give_up(s, s.pending()->0, error)),
{
    let n = give_up(s, s.pending()->0, error);
    if s.phase is Pruning {
        assert(prunes(s, s.todo[0]));
    }
    if failure_note(s, s.pending()->0, error) is Some {
        assert(n.todo.drop_first() =~= s.todo.drop_first());
        assert(forall|i: int| 0 < i < n.todo.len() ==> #[trigger] n.todo[i] == s.todo[i]);
        if s.phase is Rebasing {
            lemma_tail(s.todo, rebase_steps(s.opts, s.stacked, s.remaining));
        }
        assert(well_logged(n));
    } else if s.pending()->0.best_effort() {
        lemma_advance(s);
    }
}

proof fn lemma_advance(s: FetchView)
    requires
        sound(s),
        s.pending() is Some,
        s.pending()->0.expects(ReplyView::Done),
    ensures
        sound(advance(s)),
{
    if s.todo.len() > 1 {
        let n = advance(s);
        assert(well_logged(n));
        assert forall|i: int| 0 <= i < n.todo.len() implies n.todo[i] == #[trigger] s.todo[i
            + 1] by {}
        match s.phase {
            FetchPhase::Pruning => {
                assert forall|i: int| 0 <= i < n.todo.len() implies prunes(
                    n,
                    #[trigger] n.todo[i],
                ) by {
                    assert(prunes(s, s.todo[i + 1]));
                }
                let steps = prune_steps(s.opts, s.queue, s.queue_prs);
                lemma_tail(s.todo, steps);
            },
            FetchPhase::Backfilling => {
                let steps = backfill_steps(s.opts, s.prs, s.stacked);
                lemma_tail(s.todo, steps);
            },
            FetchPhase::Syncing => {
                assert(n.todo =~= seq![CommandView::GitImport]);
            },
            FetchPhase::Rebasing => {
                let steps = rebase_steps(s.opts, s.stacked, s.remaining);
                if !(s.todo[0] is Log) {
                    lemma_tail(s.todo, steps);
                }
            },
            _ => {},
        }
    } else {
        match s.phase {
            FetchPhase::Fetching => {},
            FetchPhase::Stacking => {
                lemma_after_stacking(s, Seq::empty());
            },
            FetchPhase::Backfilling => {
                lemma_mark_rest(s);
            },
            FetchPhase::Syncing => {
                lemma_after_syncing(s);
            },
            FetchPhase::Pruning => {
                lemma_after_pruning(s);
            },
            FetchPhase::Relisting => {
                lemma_after_relisting(s, s.normal);
            },
            FetchPhase::Rebasing => {
                lemma_orphans_from(s, 0);
            },
            FetchPhase::Orphans => {
                lemma_orphans_from(s, s.cursor + 1);
            },
            _ => {},
        }
    }
}

proof fn lemma_absorb(s: FetchView, reply: ReplyView)
    requires
        sound(s),
        s.pending() is Some,
        s.pending()->0.expects(reply),
    ensures
        sound(absorb(s, reply)),
{
    match reply {
        ReplyView::Bookmarks(bookmarks) => {
            if s.phase is Listing {
                lemma_after_listing(s, bookmarks);
            } else {
                lemma_after_relisting(s, bookmarks);
            }
        },
        ReplyView::Prs(prs) => {
            if s.phase is Matching {
                lemma_after_matching(s, prs);
            } else {
                lemma_after_queue_matching(s, prs);
            }
        },
        ReplyView::Parents(stacked) => {
            lemma_after_stacking(s, stacked);
        },
        ReplyView::Marker(marker) => {
            lemma_log_next(s, marker);
            lemma_mark_rest(log_next(s, marker));
        },
        ReplyView::Answer(yes) => {
            lemma_after_answer(s, yes);
        },
        _ => {
            lemma_advance(s);
        },
    }
}

proof fn lemma_step_keeps_opts(s: FetchView, reply: Result<ReplyView, ErrorView>)
    ensures
        fetch_step(s, reply).opts == s.opts,
{
    broadcast use group_frames;

}

/// A pipeline begins in a sound state.
pub proof fn fetch_starts_sound(opts: FetchOptsView)
    ensures
        sound(fetch_start(opts)),
{
}

/// Every reply leads from a sound state to a sound state.
pub proof fn fetch_stays_sound(s: FetchView, reply: Result<ReplyView, ErrorView>)
    requires
        sound(s),
    ensures
        sound(fetch_step(s, reply)),
{
    if let Some(command) = s.pending() {
        match reply {
            Ok(reply) => {
                if command.expects(reply) {
                    lemma_absorb(s, reply);
                }
            },
            Err(error) => {
                lemma_give_up(s, error);
            },
        }
    }
}

/// Whatever the tools reply, a pipeline is in a sound state.
pub proof fn fetch_is_sound(opts: FetchOptsView, replies: Seq<Result<ReplyView, ErrorView>>)
    ensures
        sound(fetch_after(opts, replies)),
        fetch_after(opts, replies).opts == opts,
    decreases replies.len(),
{
    reveal(after_reply);
    if replies.len() == 0 {
        fetch_starts_sound(opts);
    } else {
        fetch_is_sound(opts, replies.drop_last());
        fetch_stays_sound(fetch_after(opts, replies.drop_last()), replies.last());
        lemma_step_keeps_opts(fetch_after(opts, replies.drop_last()), replies.last());
    }
}

/// A pipeline asks for something until it has ended, and for nothing after that.
pub proof fn fetch_pending_until_finished(s: FetchView)
    requires
        sound(s),
    ensures
        s.pending() is None <==> s.phase is Finished,
{
}

/// A dry run changes nothing: whatever the tools reply, no command that changes
/// the repository, a remote or the forge is ever asked for, and the user is not
/// asked anything.
pub proof fn fetch_dry_run_changes_nothing(
    opts: FetchOptsView,
    replies: Seq<Result<ReplyView, ErrorView>>,
)
    requires
        opts.dry_run,
    ensures
        fetch_after(opts, replies).pending() matches Some(command) ==> !command.mutates()
            && !(command is ConfirmDelete),
{
    fetch_is_sound(opts, replies);
    let s = fetch_after(opts, replies);
    if s.phase is Pruning {
        assert(prunes(s, s.todo[0]));
    }
}

/// A local bookmark is deleted for one of two reasons only: it is a queue-test
/// branch without an open pull request, or it lies outside the merge queue, its
/// pull request is closed or merged, and the local commit is the one that was
/// pushed.
pub proof fn fetch_deletes_for_a_reason(
    opts: FetchOptsView,
    replies: Seq<Result<ReplyView, ErrorView>>,
    name: Seq<char>,
)
    requires
        fetch_after(opts, replies).pending() == Some(CommandView::DeleteBookmark { name }),
    ensures
        ({
            let s = fetch_after(opts, replies);
            ||| exists|i: int|
                0 <= i < s.queue.len() && (#[trigger] s.queue[i]).name == name && has_prefix(
                    name,
                    opts.gtmq_prefixes,
                ) && gtmq_decision(first_pr(s.queue_prs, name)) is GtmqPruned
            ||| exists|i: int|
                0 <= i < s.normal.len() && (#[trigger] s.normal[i]).name == name && !has_prefix(
                    name,
                    opts.gtmq_prefixes,
                ) && has_landed(s.normal[i], first_pr(s.prs, name))
        }),
{
    fetch_is_sound(opts, replies);
    let s = fetch_after(opts, replies);
    assert(s.phase is Pruning || s.phase is Orphans);
    if s.phase is Pruning {
        assert(prunes(s, s.todo[0]));
        let i = choose|i: int|
            0 <= i < s.queue.len() && gtmq_decision(
                first_pr(s.queue_prs, (#[trigger] s.queue[i]).name),
            ) is GtmqPruned && s.todo[0] == CommandView::DeleteBookmark { name: s.queue[i].name };
        assert(s.queue[i].name == name);
    } else {
        lemma_orphans_have_landed(s, s.cursor);
    }
}

proof fn lemma_orphans_have_landed(s: FetchView, i: int)
    requires
        well_logged(s),
        0 <= i < s.log.len(),
        i < s.normal.len(),
        s.log[i].1 is OrphanDeleted,
    ensures
        has_landed(s.normal[i], first_pr(s.prs, s.normal[i].name)),
{
    let local = s.normal[i];
    let pr = first_pr(s.prs, local.name);
    assert(justified(local, pr, s.log[i].1));
}

/// The pipeline never asks to delete unpushed work: a bookmark outside the merge queue whose
/// local commit is not the one that was pushed stays, even if its pull request
/// is closed or merged and a merge marker turns up on trunk.
pub proof fn fetch_keeps_unpushed_work(
    opts: FetchOptsView,
    replies: Seq<Result<ReplyView, ErrorView>>,
    name: Seq<char>,
)
    requires
        !has_prefix(name, opts.gtmq_prefixes),
        forall|i: int|
            0 <= i < fetch_after(opts, replies).normal.len() && (#[trigger] fetch_after(
                opts,
                replies,
            ).normal[i]).name == name && first_pr(fetch_after(opts, replies).prs, name) is Some
                ==> drifted(
                fetch_after(opts, replies).normal[i],
                first_pr(fetch_after(opts, replies).prs, name)->0,
            ),
    ensures
        fetch_after(opts, replies).pending() != Some(CommandView::DeleteBookmark { name }),
{
    if fetch_after(opts, replies).pending() == Some(CommandView::DeleteBookmark { name }) {
        fetch_deletes_for_a_reason(opts, replies, name);
    }
}

/// On the remote, only queue-test branches without an open pull request are
/// deleted, and only where they are to be pruned.
pub proof fn fetch_deletes_only_queue_branches_remotely(
    opts: FetchOptsView,
    replies: Seq<Result<ReplyView, ErrorView>>,
    remote: Seq<char>,
    name: Seq<char>,
)
    requires
        fetch_after(opts, replies).pending() == Some(
            CommandView::DeleteRemoteBranch { remote, name },
        ),
    ensures
        remote == opts.remote,
        has_prefix(name, opts.gtmq_prefixes),
        !opts.no_gtmq_prune,
        gtmq_decision(first_pr(fetch_after(opts, replies).queue_prs, name)) is GtmqPruned,
{
    fetch_is_sound(opts, replies);
    let s = fetch_after(opts, replies);
    assert(s.phase is Pruning);
    assert(prunes(s, s.todo[0]));
}

/// The switches hold: without backfill nothing is tracked, without rebase
/// nothing is rebased, without either nobody asks for the stack, and a rebase
/// goes onto trunk.
pub proof fn fetch_obeys_switches(
    opts: FetchOptsView,
    replies: Seq<Result<ReplyView, ErrorView>>,
    command: CommandView,
)
    requires
        fetch_after(opts, replies).pending() == Some(command),
    ensures
        command is GtTrack ==> !opts.no_backfill,
        command is DeriveParents ==> needs_stack(opts),
        command is Rebase ==> !opts.no_rebase && command->destination == opts.trunk,
        command is FindQueuePrs ==> !opts.no_gtmq_prune,
        command is ConfirmDelete ==> !opts.auto,
{
    fetch_is_sound(opts, replies);
    let s = fetch_after(opts, replies);
    if s.phase is Pruning {
        assert(prunes(s, s.todo[0]));
    }
}

/// The log of a pipeline that ended well tells of every bookmark once and in
/// order: first each one outside the merge queue, with an end that is justified
/// by its pull request, then each queue-test branch with its decision, if these
/// are pruned.
pub proof fn fetch_log_is_complete(
    opts: FetchOptsView,
    replies: Seq<Result<ReplyView, ErrorView>>,
)
    requires
        fetch_after(opts, replies).phase is Finished,
        fetch_after(opts, replies).error is None,
    ensures
        ({
            let s = fetch_after(opts, replies);
            &&& complete(s)
            &&& forall|i: int|
                0 <= i < s.normal.len() ==> (#[trigger] s.log[i]).0 == s.normal[i] && justified(
                    s.normal[i],
                    first_pr(s.prs, s.normal[i].name),
                    s.log[i].1,
                )
        }),
{
    fetch_is_sound(opts, replies);
}

/// A failure counts only where it must: a command that is an attempt only may
/// fail, and the pipeline goes on as if it had gone through, with a note of it
/// where one is due; any other failure ends the pipeline with that very error.
pub proof fn fetch_failures(s: FetchView, command: CommandView, error: ErrorView)
    requires
        s.pending() == Some(command),
    ensures
        failure_note(s, command, error) is None && command.best_effort() ==> fetch_step(
            s,
            Err(error),
        ) == fetch_step(s, Ok(ReplyView::Done)),
        failure_note(s, command, error) is None && !command.best_effort() ==> fetch_step(
            s,
            Err(error),
        ).phase is Finished && fetch_step(s, Err(error)).error == Some(error),
        failure_note(s, command, error) is Some ==> fetch_step(s, Err(error)).pending()
            == failure_note(s, command, error) && fetch_step(s, Err(error)).error == s.error,
{
}

/// Where a failure is noted in the log: at a rebase; at the stack, if nothing is
/// to be tracked, so that it serves the rebases only; and at the second listing,
/// if nothing is to be rebased.
pub proof fn fetch_notes(s: FetchView, command: CommandView, error: ErrorView)
    requires
        sound(s),
        s.pending() == Some(command),
    ensures
        failure_note(s, command, error) is Some <==> (command is Rebase || (command is DeriveParents
            && s.opts.no_backfill) || (command is ListBookmarks && s.phase is Relisting
            && s.opts.no_rebase)),
{
}

/// A failure that is noted changes nothing else: with the note written, the
/// pipeline is where it would be had the rebase gone through, had no stack been
/// found, or had the second listing held every bookmark.
pub proof fn fetch_passes_over_noted_failures(
    s: FetchView,
    command: CommandView,
    error: ErrorView,
)
    requires
        sound(s),
        s.pending() == Some(command),
        failure_note(s, command, error) is Some,
    ensures
        fetch_step(fetch_step(s, Err(error)), Ok(ReplyView::Done)) == fetch_step(
            s,
            Ok(
                match command {
                    CommandView::DeriveParents { .. } => ReplyView::Parents(Seq::empty()),
                    CommandView::ListBookmarks => ReplyView::Bookmarks(s.normal),
                    _ => ReplyView::Done,
                },
            ),
        ),
{
    let n = fetch_step(s, Err(error));
    assert(n.todo.drop_first() =~= s.todo.drop_first());
    match command {
        CommandView::DeriveParents { .. } => {
            assert(s.phase is Stacking);
            lemma_mark_rest_any_todo(FetchView { stacked: Seq::empty(), ..s }, n.todo);
        },
        CommandView::ListBookmarks => {
            lemma_orphans_from_any_todo(relisted(s, s.normal), n.todo, 0);
        },
        _ => {
            if s.phase is Pruning {
                assert(prunes(s, s.todo[0]));
            }
            assert(s.phase is Rebasing);
            lemma_orphans_from_any_todo(s, n.todo, 0);
        },
    }
}

proof fn lemma_mark_rest_any_todo(s: FetchView, todo: Seq<CommandView>)
    ensures
        mark_rest(FetchView { todo, ..s }) == mark_rest(s),
    decreases s.normal.len() - s.log.len(),
{
    if s.log.len() < s.normal.len() {
        lemma_mark_rest_any_todo(log_next(s, None), todo);
    }
}

proof fn lemma_orphans_from_any_todo(s: FetchView, todo: Seq<CommandView>, i: int)
    ensures
        orphans_from(FetchView { todo, ..s }, i) == orphans_from(s, i),
    decreases s.log.len() - i,
{
    if 0 <= i < s.log.len() {
        lemma_orphans_from_any_todo(s, todo, i + 1);
    }
}

/// What outlived the sync is deleted on the user's word only: unless `auto` is
/// set, the deletion of a bookmark outside the merge queue is asked for when the
/// user has just said yes to that bookmark, and never else.
pub proof fn fetch_asks_before_deleting(
    s: FetchView,
    reply: Result<ReplyView, ErrorView>,
    name: Seq<char>,
)
    requires
        sound(s),
        !s.opts.auto,
        s.pending() is Some,
        fetch_step(s, reply).phase is Orphans,
        fetch_step(s, reply).pending() == Some(CommandView::DeleteBookmark { name }),
    ensures
        s.pending()->0 is ConfirmDelete,
        s.pending()->0->ConfirmDelete_name == name,
        reply == Ok::<ReplyView, ErrorView>(ReplyView::Answer(true)),
{
    broadcast use group_frames;

    if s.phase is Orphans {
        assert(s.log[s.cursor].0 == s.normal[s.cursor]);
    }
}

/// How many phases lie ahead at most.
pub open spec fn phases_left(phase: FetchPhase) -> nat {
    match phase {
        FetchPhase::Fetching => 12,
        FetchPhase::Listing => 11,
        FetchPhase::Matching => 10,
        FetchPhase::Stacking => 9,
        FetchPhase::Backfilling => 8,
        FetchPhase::Marking => 7,
        FetchPhase::Syncing => 6,
        FetchPhase::QueueMatching => 5,
        FetchPhase::Pruning => 4,
        FetchPhase::Previewing => 3,
        FetchPhase::Relisting => 3,
        FetchPhase::Rebasing => 2,
        FetchPhase::Orphans => 1,
        FetchPhase::Finished => 0,
    }
}

/// How many bookmarks the phase has still to go through.
pub open spec fn bookmarks_left(s: FetchView) -> int {
    match s.phase {
        FetchPhase::Marking => s.normal.len() - s.log.len(),
        FetchPhase::Orphans => s.log.len() - s.cursor,
        _ => 0,
    }
}

/// How many replies the phase has still to take on this bookmark: two for a
/// question that may lead to a deletion, and two for a command whose failure is
/// noted.
pub open spec fn replies_left(s: FetchView) -> int {
    match s.phase {
        FetchPhase::Orphans => if s.todo[0] is ConfirmDelete {
            2
        } else {
            1
        },
        FetchPhase::Stacking | FetchPhase::Relisting | FetchPhase::Rebasing => 2 * s.todo.len() - (
        if s.todo[0] is Log {
            1int
        } else {
            0int
        }),
        _ => s.todo.len() as int,
    }
}

/// Whether `to` is nearer to the end of the pipeline than `from`.
pub open spec fn nearer_end(from: FetchView, to: FetchView) -> bool {
    ||| phases_left(to.phase) < phases_left(from.phase)
    ||| to.phase == from.phase && 0 <= bookmarks_left(to) < bookmarks_left(from)
    ||| to.phase == from.phase && bookmarks_left(to) == bookmarks_left(from) && 0 <= replies_left(
        to,
    ) < replies_left(from)
}

/// Each reply brings a pipeline nearer to its end.
pub proof fn fetch_gets_nearer(s: FetchView, reply: Result<ReplyView, ErrorView>)
    requires
        sound(s),
        s.pending() is Some,
    ensures
        nearer_end(s, fetch_step(s, reply)),
{
    broadcast use group_frames;

    let command = s.pending()->0;
    if s.phase is Pruning {
        assert(prunes(s, s.todo[0]));
    }
}

/// Every pipeline comes to an end: whatever the tools go on replying, some number
/// of replies finishes it.
pub proof fn fetch_ends(
    opts: FetchOptsView,
    reply_at: spec_fn(int) -> Result<ReplyView, ErrorView>,
)
    ensures
        exists|n: nat|
            (#[trigger] fetch_after(opts, Seq::new(n, reply_at))).phase is Finished,
{
    let n = lemma_fetch_ends(opts, reply_at, 0);
    assert(fetch_after(opts, Seq::new(n, reply_at)).phase is Finished);
}

proof fn lemma_reply_gets_nearer(s: FetchView, reply: Result<ReplyView, ErrorView>)
    requires
        sound(s),
        s.pending() is Some,
    ensures
        nearer_end(s, after_reply(s, reply)),
{
    reveal(after_reply);
    fetch_gets_nearer(s, reply);
}

proof fn lemma_fetch_ends(
    opts: FetchOptsView,
    reply_at: spec_fn(int) -> Result<ReplyView, ErrorView>,
    k: nat,
) -> (n: nat)
    ensures
        fetch_after(opts, Seq::new(n, reply_at)).phase is Finished,
    decreases
        phases_left(fetch_after(opts, Seq::new(k, reply_at)).phase),
        bookmarks_left(fetch_after(opts, Seq::new(k, reply_at))),
        replies_left(fetch_after(opts, Seq::new(k, reply_at))),
{
    let replies = Seq::new(k, reply_at);
    let s = fetch_after(opts, replies);
    fetch_is_sound(opts, replies);
    if s.phase is Finished {
        k
    } else {
        let more = Seq::new(k + 1, reply_at);
        assert(more.drop_last() =~= replies);
        lemma_reply_gets_nearer(s, more.last());
        lemma_fetch_ends(opts, reply_at, k + 1)
    }
}

pub(crate) proof fn lemma_filter_keeps_order(
    entries: Seq<StackedView>,
    keep: spec_fn(StackedView) -> bool,
)
    requires
        parents_first(entries),
    ensures
        parents_first(entries.filter(keep)),
    decreases entries.len(),
{
    reveal(Seq::filter);
    if entries.len() > 0 {
        let front = entries.drop_last();
        let last = entries.last();
        assert(parents_first(front)) by {
            assert forall|i: int, j: int| 0 <= i <= j < front.len() implies !sits_on(
                #[trigger] front[i],
                (#[trigger] front[j]).name,
            ) by {
                assert(front[i] == entries[i] && front[j] == entries[j]);
            }
        }
        lemma_filter_keeps_order(front, keep);
        let kept = entries.filter(keep);
        let before = front.filter(keep);
        assert forall|i: int, j: int| 0 <= i <= j < kept.len() implies !sits_on(
            #[trigger] kept[i],
            (#[trigger] kept[j]).name,
        ) by {
            if j < before.len() {
                assert(kept[i] == before[i] && kept[j] == before[j]);
            } else {
                assert(kept[j] == last);
                if i < before.len() {
                    assert(kept[i] == before[i]);
                    assert(before.contains(before[i]));
                    crate::text::lemma_filter_members(front, keep, before[i]);
                    let k = choose|k: int| 0 <= k < front.len() && front[k] == before[i];
                    assert(entries[k] == before[i]);
                } else {
                    assert(kept[i] == last);
                }
                assert(entries[entries.len() - 1] == last);
            }
        }
    }
}

/// Tracking goes from the bottom up: of the bookmarks that are tracked, none
/// comes before the one that it is stacked on. Exactly those bookmarks are
/// tracked that have a pull request.
pub proof fn backfill_goes_bottom_up(
    opts: FetchOptsView,
    prs: Seq<PrView>,
    stacked: Seq<StackedView>,
)
    requires
        acyclic(stacked),
    ensures
        parents_first(tracking_order(stacked).filter(has_pr(prs))),
        forall|entry: StackedView|
            #[trigger] tracking_order(stacked).filter(has_pr(prs)).contains(entry) <==> (
            stacked.contains(entry) && first_pr(prs, entry.name) is Some),
        forall|i: int|
            0 <= i < backfill_steps(opts, prs, stacked).len()
                ==> #[trigger] backfill_steps(opts, prs, stacked)[i] == track_step(
                opts,
                tracking_order(stacked).filter(has_pr(prs))[i],
            ),
        backfill_steps(opts, prs, stacked).len() == tracking_order(stacked).filter(
            has_pr(prs),
        ).len(),
{
    crate::stack::tracking_order_puts_parents_first(stacked);
    let order = tracking_order(stacked);
    let keep = has_pr(prs);
    lemma_filter_keeps_order(order, keep);
    assert forall|entry: StackedView| #[trigger] order.filter(keep).contains(entry) <==> (
    stacked.contains(entry) && first_pr(prs, entry.name) is Some) by {
        crate::stack::lemma_order_holds_same_entries(stacked, entry);
        crate::text::lemma_filter_members(order, keep, entry);
    }
}

} // verus!
