//! What a `jj-gt fetch` run that ends well has asked for, from its first command to
//! its last.

use vstd::prelude::*;

use crate::cleanup::{gtmq_decision, ActionView, FetchOptsView};
use crate::command::{CommandView, ReplyView};
use crate::error::ErrorView;
use crate::fetch_frames::group_frames;
use crate::fetch_history::{
    answered, lemma_answered_now, lemma_asked_stays, lemma_step_keeps, told_in, was_asked,
};
use crate::fetch_laws::{
    after_reply, fetch_after, fetch_is_sound, lemma_tail, phases_left, sound,
};
use crate::fetch_model::{
    backfill_steps, has_pr, is_orphan, preview_steps, prune_steps, track_step, FetchPhase,
    FetchView, LogView,
};
use crate::fetch_order::{lemma_all_tracked, was_done};
use crate::fetch_turns::{lemma_worded, worded};
use crate::gh::{first_pr, PrView};
use crate::jj::BookmarkView;
use crate::stack::{acyclic, sits_on, tracking_order, ParentView, StackedView};

verus! {

/// A real run that has not been stopped began with the fetch from the remote of the
/// request, and the fetch went through.
pub proof fn fetch_fetches_first(
    opts: FetchOptsView,
    replies: Seq<Result<ReplyView, ErrorView>>,
)
    requires
        !opts.dry_run,
        replies.len() > 0,
        fetch_after(opts, replies).error is None,
    ensures
        answered(opts, replies, 0, CommandView::GitFetch { remote: opts.remote }),
        replies[0] is Ok,
    decreases replies.len(),
{
    let front = replies.drop_last();
    fetch_is_sound(opts, front);
    lemma_step_keeps(fetch_after(opts, front), replies.last());
    if replies.len() == 1 {
        assert(replies.take(0) =~= front);
        reveal(after_reply);
    } else {
        fetch_fetches_first(opts, front);
        assert(front.take(0) =~= replies.take(0));
    }
}

/// How a run gets past its questions: with the answer, and with what it says.
proof fn lemma_leaves_questions(s: FetchView, reply: Result<ReplyView, ErrorView>)
    requires
        sound(s),
        worded(s),
        after_reply(s, reply).error is None,
    ensures
        ({
            let n = after_reply(s, reply);
            &&& phases_left(s.phase) > 9 && phases_left(n.phase) <= 9 && n.normal.len() > 0
                ==> s.phase is Matching && s.pending() is Some && reply == Ok::<
                ReplyView,
                ErrorView,
            >(ReplyView::Prs(n.prs))
            &&& !s.opts.no_backfill && phases_left(s.phase) > 8 && phases_left(n.phase) <= 8
                ==> s.phase is Stacking && s.pending() is Some && s.pending()->0 is DeriveParents
                && reply == Ok::<ReplyView, ErrorView>(ReplyView::Parents(n.stacked))
            &&& !s.opts.no_gtmq_prune && phases_left(s.phase) > 4 && phases_left(n.phase) <= 4
                && n.queue.len() > 0 ==> s.phase is QueueMatching && s.pending() is Some && reply
                == Ok::<ReplyView, ErrorView>(ReplyView::Prs(n.queue_prs))
        }),
{
    broadcast use group_frames;

    reveal(after_reply);
}

/// Whatever is decided on pull requests is decided on those that came back when the
/// bookmarks outside the merge queue were searched for.
pub proof fn fetch_was_told_the_pull_requests(
    opts: FetchOptsView,
    replies: Seq<Result<ReplyView, ErrorView>>,
)
    requires
        fetch_after(opts, replies).error is None,
        phases_left(fetch_after(opts, replies).phase) <= 9,
        fetch_after(opts, replies).normal.len() > 0,
    ensures
        exists|k: int|
            told_in(
                opts,
                replies,
                k,
                FetchPhase::Matching,
                ReplyView::Prs(fetch_after(opts, replies).prs),
            ),
    decreases replies.len(),
{
    if replies.len() > 0 {
        let front = replies.drop_last();
        let s = fetch_after(opts, front);
        let n = fetch_after(opts, replies);
        fetch_is_sound(opts, front);
        lemma_worded(opts, front);
        lemma_step_keeps(s, replies.last());
        let reply = ReplyView::Prs(n.prs);
        if phases_left(s.phase) <= 9 {
            fetch_was_told_the_pull_requests(opts, front);
            let k = choose|k: int| told_in(opts, front, k, FetchPhase::Matching, reply);
            assert(front.take(k) =~= replies.take(k));
            assert(told_in(opts, replies, k, FetchPhase::Matching, reply));
        } else {
            lemma_leaves_questions(s, replies.last());
            assert(replies.take(replies.len() - 1) =~= front);
            assert(told_in(opts, replies, replies.len() - 1, FetchPhase::Matching, reply));
        }
    }
}

/// Where bookmarks are to be tracked, they are tracked by the stack that came back
/// when it was asked for.
pub proof fn fetch_was_told_the_stack(
    opts: FetchOptsView,
    replies: Seq<Result<ReplyView, ErrorView>>,
)
    requires
        !opts.no_backfill,
        fetch_after(opts, replies).error is None,
        phases_left(fetch_after(opts, replies).phase) <= 8,
    ensures
        exists|k: int|
            told_in(
                opts,
                replies,
                k,
                FetchPhase::Stacking,
                ReplyView::Parents(fetch_after(opts, replies).stacked),
            ),
    decreases replies.len(),
{
    if replies.len() > 0 {
        let front = replies.drop_last();
        let s = fetch_after(opts, front);
        let n = fetch_after(opts, replies);
        fetch_is_sound(opts, front);
        lemma_worded(opts, front);
        lemma_step_keeps(s, replies.last());
        let reply = ReplyView::Parents(n.stacked);
        if phases_left(s.phase) <= 8 {
            fetch_was_told_the_stack(opts, front);
            let k = choose|k: int| told_in(opts, front, k, FetchPhase::Stacking, reply);
            assert(front.take(k) =~= replies.take(k));
            assert(told_in(opts, replies, k, FetchPhase::Stacking, reply));
        } else {
            lemma_leaves_questions(s, replies.last());
            assert(replies.take(replies.len() - 1) =~= front);
            assert(told_in(opts, replies, replies.len() - 1, FetchPhase::Stacking, reply));
        }
    }
}

/// Where queue-test branches are pruned, they are pruned by the pull requests that
/// came back when they were searched for.
pub proof fn fetch_was_told_the_queue(
    opts: FetchOptsView,
    replies: Seq<Result<ReplyView, ErrorView>>,
)
    requires
        !opts.no_gtmq_prune,
        fetch_after(opts, replies).error is None,
        phases_left(fetch_after(opts, replies).phase) <= 4,
        fetch_after(opts, replies).queue.len() > 0,
    ensures
        exists|k: int|
            told_in(
                opts,
                replies,
                k,
                FetchPhase::QueueMatching,
                ReplyView::Prs(fetch_after(opts, replies).queue_prs),
            ),
    decreases replies.len(),
{
    if replies.len() > 0 {
        let front = replies.drop_last();
        let s = fetch_after(opts, front);
        let n = fetch_after(opts, replies);
        fetch_is_sound(opts, front);
        lemma_worded(opts, front);
        lemma_step_keeps(s, replies.last());
        let reply = ReplyView::Prs(n.queue_prs);
        if phases_left(s.phase) <= 4 {
            fetch_was_told_the_queue(opts, front);
            let k = choose|k: int| told_in(opts, front, k, FetchPhase::QueueMatching, reply);
            assert(front.take(k) =~= replies.take(k));
            assert(told_in(opts, replies, k, FetchPhase::QueueMatching, reply));
        } else {
            lemma_leaves_questions(s, replies.last());
            assert(replies.take(replies.len() - 1) =~= front);
            assert(told_in(opts, replies, replies.len() - 1, FetchPhase::QueueMatching, reply));
        }
    }
}

/// The decision on each queue-test branch, in the log of a run that ended well: it is
/// left alone exactly if its pull request, among those that came back for the queue,
/// is open.
pub proof fn fetch_logs_the_queue(
    opts: FetchOptsView,
    replies: Seq<Result<ReplyView, ErrorView>>,
    i: int,
)
    requires
        !opts.no_gtmq_prune,
        fetch_after(opts, replies).phase is Finished,
        fetch_after(opts, replies).error is None,
        0 <= i < fetch_after(opts, replies).queue.len(),
    ensures
        ({
            let s = fetch_after(opts, replies);
            let entry = s.log[s.normal.len() + i];
            &&& s.log.len() == s.normal.len() + s.queue.len()
            &&& entry.0 == s.queue[i]
            &&& match first_pr(s.queue_prs, s.queue[i].name) {
                Some(pr) => entry.1 == if pr.state is Open {
                    ActionView::GtmqLeftAlone { pr: pr.number }
                } else {
                    ActionView::GtmqPruned { had_pr: Some(pr.number) }
                },
                None => entry.1 == (ActionView::GtmqPruned { had_pr: None }),
            }
        }),
{
    fetch_is_sound(opts, replies);
    let s = fetch_after(opts, replies);
    crate::fetch_asks::queue_is_logged_in_order(s.queue, s.queue_prs, i);
    assert(s.log.skip(s.normal.len() as int)[i] == s.log[s.normal.len() + i]);
}

/// Tracking, pruning and the preview begin whole and go on one by one; none of them
/// is left out.
proof fn lemma_steps_go_on(s: FetchView, reply: Result<ReplyView, ErrorView>)
    requires
        sound(s),
        worded(s),
        after_reply(s, reply).error is None,
    ensures
        ({
            let n = after_reply(s, reply);
            let tracks = backfill_steps(n.opts, n.prs, n.stacked);
            let prunes = prune_steps(n.opts, n.queue, n.queue_prs);
            &&& !s.opts.no_backfill && phases_left(s.phase) > 8 && phases_left(n.phase) <= 8
                ==> if n.phase is Backfilling {
                n.todo == tracks
            } else {
                tracks.len() == 0
            }
            &&& s.phase is Backfilling ==> if n.phase is Backfilling {
                n.todo.len() == s.todo.len() - 1
            } else {
                s.todo.len() == 1
            }
            &&& !s.opts.no_gtmq_prune && phases_left(s.phase) > 4 && phases_left(n.phase) <= 4
                ==> if n.phase is Pruning {
                n.todo == prunes
            } else {
                prunes.len() == 0
            }
            &&& s.phase is Pruning ==> if n.phase is Pruning {
                n.todo.len() == s.todo.len() - 1
            } else {
                s.todo.len() == 1
            }
            &&& s.opts.dry_run && phases_left(s.phase) > 3 && phases_left(n.phase) <= 3
                ==> if n.phase is Previewing {
                n.todo == preview_steps(n.log)
            } else {
                preview_steps(n.log).len() == 0
            }
            &&& s.phase is Previewing ==> n.log == s.log && if n.phase is Previewing {
                n.todo.len() == s.todo.len() - 1
            } else {
                s.todo.len() == 1
            }
        }),
{
    broadcast use group_frames;

    reveal(after_reply);
    if s.phase is Pruning {
        assert(crate::fetch_laws::prunes(s, s.todo[0]));
    }
}

proof fn lemma_tracking_asked(
    opts: FetchOptsView,
    replies: Seq<Result<ReplyView, ErrorView>>,
    i: int,
)
    requires
        !opts.no_backfill,
        fetch_after(opts, replies).error is None,
        phases_left(fetch_after(opts, replies).phase) <= 8,
        ({
            let s = fetch_after(opts, replies);
            let steps = backfill_steps(opts, s.prs, s.stacked);
            &&& 0 <= i < steps.len()
            &&& s.phase is Backfilling ==> i < steps.len() - s.todo.len()
        }),
    ensures
        ({
            let s = fetch_after(opts, replies);
            was_asked(opts, replies, backfill_steps(opts, s.prs, s.stacked)[i])
        }),
    decreases replies.len(),
{
    if replies.len() > 0 {
        let front = replies.drop_last();
        let s = fetch_after(opts, front);
        let n = fetch_after(opts, replies);
        fetch_is_sound(opts, front);
        fetch_is_sound(opts, replies);
        lemma_worded(opts, front);
        lemma_step_keeps(s, replies.last());
        lemma_steps_go_on(s, replies.last());
        let steps = backfill_steps(opts, n.prs, n.stacked);
        lemma_asked_stays(opts, replies, steps[i]);
        if s.phase is Backfilling && i == steps.len() - s.todo.len() {
            lemma_tail(s.todo, steps);
            lemma_answered_now(opts, replies);
        } else {
            lemma_tracking_asked(opts, front, i);
        }
    }
}

proof fn lemma_pruning_asked(
    opts: FetchOptsView,
    replies: Seq<Result<ReplyView, ErrorView>>,
    i: int,
)
    requires
        !opts.no_gtmq_prune,
        fetch_after(opts, replies).error is None,
        phases_left(fetch_after(opts, replies).phase) <= 4,
        ({
            let s = fetch_after(opts, replies);
            let steps = prune_steps(opts, s.queue, s.queue_prs);
            &&& 0 <= i < steps.len()
            &&& s.phase is Pruning ==> i < steps.len() - s.todo.len()
        }),
    ensures
        ({
            let s = fetch_after(opts, replies);
            was_asked(opts, replies, prune_steps(opts, s.queue, s.queue_prs)[i])
        }),
    decreases replies.len(),
{
    if replies.len() > 0 {
        let front = replies.drop_last();
        let s = fetch_after(opts, front);
        let n = fetch_after(opts, replies);
        fetch_is_sound(opts, front);
        fetch_is_sound(opts, replies);
        lemma_worded(opts, front);
        lemma_step_keeps(s, replies.last());
        lemma_steps_go_on(s, replies.last());
        let steps = prune_steps(opts, n.queue, n.queue_prs);
        lemma_asked_stays(opts, replies, steps[i]);
        if s.phase is Pruning && i == steps.len() - s.todo.len() {
            lemma_tail(s.todo, steps);
            lemma_answered_now(opts, replies);
        } else {
            lemma_pruning_asked(opts, front, i);
        }
    }
}

proof fn lemma_preview_asked(
    opts: FetchOptsView,
    replies: Seq<Result<ReplyView, ErrorView>>,
    i: int,
)
    requires
        opts.dry_run,
        fetch_after(opts, replies).error is None,
        phases_left(fetch_after(opts, replies).phase) <= 3,
        ({
            let s = fetch_after(opts, replies);
            let steps = preview_steps(s.log);
            &&& 0 <= i < steps.len()
            &&& s.phase is Previewing ==> i < steps.len() - s.todo.len()
        }),
    ensures
        was_asked(opts, replies, preview_steps(fetch_after(opts, replies).log)[i]),
    decreases replies.len(),
{
    if replies.len() > 0 {
        let front = replies.drop_last();
        let s = fetch_after(opts, front);
        let n = fetch_after(opts, replies);
        fetch_is_sound(opts, front);
        fetch_is_sound(opts, replies);
        lemma_worded(opts, front);
        lemma_step_keeps(s, replies.last());
        lemma_steps_go_on(s, replies.last());
        let steps = preview_steps(n.log);
        lemma_asked_stays(opts, replies, steps[i]);
        if s.phase is Previewing && i == steps.len() - s.todo.len() {
            lemma_tail(s.todo, steps);
            lemma_answered_now(opts, replies);
        } else {
            lemma_preview_asked(opts, front, i);
        }
    }
}

/// A dry run that ends well has told, of every bookmark of the stack that has a pull
/// request, how it would be tracked.
pub proof fn fetch_dry_run_tells_of_tracking(
    opts: FetchOptsView,
    replies: Seq<Result<ReplyView, ErrorView>>,
    entry: StackedView,
)
    requires
        opts.dry_run,
        !opts.no_backfill,
        fetch_after(opts, replies).phase is Finished,
        fetch_after(opts, replies).error is None,
        fetch_after(opts, replies).stacked.contains(entry),
        first_pr(fetch_after(opts, replies).prs, entry.name) is Some,
    ensures
        was_asked(
            opts,
            replies,
            CommandView::Log(
                "[dry-run] would: gt track "@ + entry.name + " --parent "@ + (match entry.parent {
                    ParentView::Bookmark(parent) => parent,
                    ParentView::Trunk => opts.trunk,
                }),
            ),
        ),
{
    let s = fetch_after(opts, replies);
    let order = tracking_order(s.stacked);
    let kept = order.filter(has_pr(s.prs));
    crate::stack::lemma_order_holds_same_entries(s.stacked, entry);
    crate::text::lemma_filter_members(order, has_pr(s.prs), entry);
    let at = choose|at: int| 0 <= at < kept.len() && kept[at] == entry;
    crate::fetch_asks::backfill_names_bookmark_then_parent(opts, entry);
    assert(backfill_steps(opts, s.prs, s.stacked)[at] == track_step(opts, entry));
    lemma_tracking_asked(opts, replies, at);
}

proof fn lemma_prune_line(
    opts: FetchOptsView,
    queue: Seq<BookmarkView>,
    prs: Seq<PrView>,
    i: int,
) -> (at: int)
    requires
        opts.dry_run,
        0 <= i < queue.len(),
        gtmq_decision(first_pr(prs, queue[i].name)) is GtmqPruned,
    ensures
        0 <= at < prune_steps(opts, queue, prs).len(),
        prune_steps(opts, queue, prs)[at] == CommandView::Log(
            "[dry-run] would: jj bookmark delete "@ + queue[i].name + " && git push --delete "@
                + opts.remote + " "@ + queue[i].name,
        ),
    decreases queue.len(),
{
    let front = queue.drop_last();
    let before = prune_steps(opts, front, prs);
    crate::fetch_asks::pruning_deletes_here_and_there(opts, queue.last(), prs);
    if i < front.len() {
        let at = lemma_prune_line(opts, front, prs, i);
        assert(prune_steps(opts, queue, prs)[at] == before[at]);
        at
    } else {
        assert(prune_steps(opts, queue, prs)[before.len() as int]
            == crate::fetch_model::prune_step(opts, queue.last(), prs)[0]);
        before.len() as int
    }
}

/// A dry run that ends well has told of every queue-test branch without an open pull
/// request that it would be deleted, here and on the remote.
pub proof fn fetch_dry_run_tells_of_pruning(
    opts: FetchOptsView,
    replies: Seq<Result<ReplyView, ErrorView>>,
    i: int,
)
    requires
        opts.dry_run,
        !opts.no_gtmq_prune,
        fetch_after(opts, replies).phase is Finished,
        fetch_after(opts, replies).error is None,
        ({
            let s = fetch_after(opts, replies);
            &&& 0 <= i < s.queue.len()
            &&& !(first_pr(s.queue_prs, s.queue[i].name) is Some && first_pr(
                s.queue_prs,
                s.queue[i].name,
            )->0.state is Open)
        }),
    ensures
        ({
            let name = fetch_after(opts, replies).queue[i].name;
            was_asked(
                opts,
                replies,
                CommandView::Log(
                    "[dry-run] would: jj bookmark delete "@ + name + " && git push --delete "@
                        + opts.remote + " "@ + name,
                ),
            )
        }),
{
    let s = fetch_after(opts, replies);
    let at = lemma_prune_line(opts, s.queue, s.queue_prs, i);
    lemma_pruning_asked(opts, replies, at);
}

/// A dry run that ends well has told of every deletion in its log.
pub proof fn fetch_dry_run_tells_of_deletions(
    opts: FetchOptsView,
    replies: Seq<Result<ReplyView, ErrorView>>,
    i: int,
)
    requires
        opts.dry_run,
        fetch_after(opts, replies).phase is Finished,
        fetch_after(opts, replies).error is None,
        0 <= i < fetch_after(opts, replies).log.len(),
        fetch_after(opts, replies).log[i].1 is OrphanDeleted,
    ensures
        was_asked(
            opts,
            replies,
            CommandView::Log(
                "[dry-run] would: jj bookmark delete "@ + fetch_after(opts, replies).log[i].0.name,
            ),
        ),
{
    let log = fetch_after(opts, replies).log;
    let entry: LogView = log[i];
    let kept = log.filter(is_orphan());
    crate::text::lemma_filter_members(log, is_orphan(), entry);
    assert(log.contains(entry));
    let at = choose|at: int| 0 <= at < kept.len() && kept[at] == entry;
    assert(preview_steps(log)[at] == CommandView::Log(
        "[dry-run] would: jj bookmark delete "@ + entry.0.name,
    ));
    lemma_preview_asked(opts, replies, at);
}

/// While a stack without cycles is tracked, whatever the next bookmark is stacked on
/// has been tracked with success, if it belongs to the stack and has a pull request.
pub proof fn fetch_tracks_parents_first(
    opts: FetchOptsView,
    replies: Seq<Result<ReplyView, ErrorView>>,
    name: Seq<char>,
    base: StackedView,
)
    requires
        !opts.dry_run,
        acyclic(fetch_after(opts, replies).stacked),
        fetch_after(opts, replies).pending() == Some(
            CommandView::GtTrack { name, parent: base.name },
        ),
        fetch_after(opts, replies).stacked.contains(base),
        first_pr(fetch_after(opts, replies).prs, base.name) is Some,
        base.name != opts.trunk,
    ensures
        was_done(
            opts,
            replies,
            CommandView::GtTrack {
                name: base.name,
                parent: match base.parent {
                    ParentView::Bookmark(parent) => parent,
                    ParentView::Trunk => opts.trunk,
                },
            },
        ),
{
    fetch_is_sound(opts, replies);
    let s = fetch_after(opts, replies);
    crate::fetch_turns::lemma_question_phases(s);
    let steps = backfill_steps(s.opts, s.prs, s.stacked);
    lemma_tail(s.todo, steps);
    let order = tracking_order(s.stacked);
    let kept = order.filter(has_pr(s.prs));
    let at = steps.len() - s.todo.len();
    crate::stack::lemma_order_holds_same_entries(s.stacked, base);
    crate::text::lemma_filter_members(order, has_pr(s.prs), base);
    let j = choose|j: int| 0 <= j < kept.len() && kept[j] == base;
    crate::stack::tracking_order_puts_parents_first(s.stacked);
    crate::fetch_laws::lemma_filter_keeps_order(order, has_pr(s.prs));
    assert(sits_on(kept[at], kept[j].name));
    assert(j < at);
    assert(steps[j] == track_step(opts, base));
    lemma_all_tracked(opts, replies, j);
}

/// How a dry run gets past the sync: with the line that tells of it.
proof fn lemma_leaves_dry_sync(s: FetchView, reply: Result<ReplyView, ErrorView>)
    requires
        sound(s),
        s.opts.dry_run,
        phases_left(s.phase) > 5,
        phases_left(after_reply(s, reply).phase) <= 5,
        after_reply(s, reply).error is None,
    ensures
        s.pending() == Some(CommandView::Log("[dry-run] would: gt sync --no-restack --force"@)),
{
    broadcast use group_frames;

    reveal(after_reply);
}

/// A dry run that ends well has told of the sync, and began with telling of the fetch.
pub proof fn fetch_dry_run_tells_of_fetch_and_sync(
    opts: FetchOptsView,
    replies: Seq<Result<ReplyView, ErrorView>>,
)
    requires
        opts.dry_run,
        phases_left(fetch_after(opts, replies).phase) <= 5,
        fetch_after(opts, replies).error is None,
    ensures
        was_asked(
            opts,
            replies,
            CommandView::Log("[dry-run] would: gt sync --no-restack --force"@),
        ),
        answered(
            opts,
            replies,
            0,
            CommandView::Log("[dry-run] would: jj git fetch --remote "@ + opts.remote),
        ),
    decreases replies.len(),
{
    if replies.len() > 0 {
        let front = replies.drop_last();
        let s = fetch_after(opts, front);
        fetch_is_sound(opts, front);
        lemma_step_keeps(s, replies.last());
        lemma_asked_stays(
            opts,
            replies,
            CommandView::Log("[dry-run] would: gt sync --no-restack --force"@),
        );
        if phases_left(s.phase) <= 5 {
            fetch_dry_run_tells_of_fetch_and_sync(opts, front);
        } else {
            lemma_leaves_dry_sync(s, replies.last());
            lemma_answered_now(opts, replies);
        }
        assert(replies.take(0) =~= Seq::empty());
    }
}

} // verus!
