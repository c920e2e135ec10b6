//! What a `jj-gt fetch` log says against what the pipeline has asked for, and
//! what came back, up to that point.

use vstd::prelude::*;

use crate::cleanup::{gtmq_decision, local_decision, ActionView, FetchOptsView};
use crate::command::{CommandView, ReplyView};
use crate::error::ErrorView;
use crate::fetch_frames::{group_frames, wants_marker};
use crate::fetch_laws::{
    after_reply, fetch_after, fetch_asks_before_deleting, fetch_gets_nearer, fetch_is_sound,
    fetch_stays_sound, lemma_tail, phases_left, prunes, settled_as, sound,
};
use crate::fetch_model::{
    inside_queue, log_next, mark_rest, outside_queue, prune_step, prune_steps, queue_log, skipped,
    FetchPhase, FetchView, LogView,
};
use crate::gh::{first_pr, PrView};
use crate::jj::{names_of, BookmarkView};

verus! {

/// Whether the reply at `k` was the one to `command`.
pub open spec fn answered(
    opts: FetchOptsView,
    replies: Seq<Result<ReplyView, ErrorView>>,
    k: int,
    command: CommandView,
) -> bool {
    &&& 0 <= k < replies.len()
    &&& fetch_after(opts, replies.take(k)).pending() == Some(command)
}

/// Whether the reply at `k` was this one, of the kind that the pending command is
/// answered with, and the pipeline was in this phase.
pub open spec fn told_in(
    opts: FetchOptsView,
    replies: Seq<Result<ReplyView, ErrorView>>,
    k: int,
    phase: FetchPhase,
    reply: ReplyView,
) -> bool {
    &&& 0 <= k < replies.len()
    &&& fetch_after(opts, replies.take(k)).phase == phase
    &&& fetch_after(opts, replies.take(k)).pending() matches Some(command)
    &&& command.expects(reply)
    &&& replies[k] == Ok::<ReplyView, ErrorView>(reply)
}

/// Whether `command` has been carried out, or attempted.
pub open spec fn was_asked(
    opts: FetchOptsView,
    replies: Seq<Result<ReplyView, ErrorView>>,
    command: CommandView,
) -> bool {
    exists|k: int| answered(opts, replies, k, command)
}

/// Whether the user was asked about a bookmark and gave this answer.
pub open spec fn user_said(
    opts: FetchOptsView,
    replies: Seq<Result<ReplyView, ErrorView>>,
    question: CommandView,
    yes: bool,
) -> bool {
    exists|k: int| #[trigger]
        answered(opts, replies, k, question) && replies[k] == Ok::<ReplyView, ErrorView>(
            ReplyView::Answer(yes),
        )
}

/// The question whether to delete a bookmark whose pull request has landed.
pub open spec fn question(name: Seq<char>, pr: u32, merge_commit_id: Seq<char>) -> CommandView {
    CommandView::ConfirmDelete { name, pr, merge_commit_id }
}

/// Whether a log entry of a real run tells of what was done: a deletion was
/// carried out, on the user's yes unless `auto` was set; a bookmark was spared
/// on the user's no.
pub open spec fn told_truly(
    opts: FetchOptsView,
    replies: Seq<Result<ReplyView, ErrorView>>,
    entry: LogView,
) -> bool {
    match entry.1 {
        ActionView::OrphanDeleted { pr, merge_commit_id } => {
            &&& was_asked(opts, replies, CommandView::DeleteBookmark { name: entry.0.name })
            &&& opts.auto || user_said(
                opts,
                replies,
                question(entry.0.name, pr, merge_commit_id),
                true,
            )
        },
        ActionView::OrphanSkipped { pr, merge_commit_id } => user_said(
            opts,
            replies,
            question(entry.0.name, pr, merge_commit_id),
            false,
        ),
        ActionView::GtmqPruned { .. } => {
            &&& was_asked(opts, replies, CommandView::DeleteBookmark { name: entry.0.name })
            &&& was_asked(
                opts,
                replies,
                CommandView::DeleteRemoteBranch { remote: opts.remote, name: entry.0.name },
            )
        },
        _ => true,
    }
}

pub(crate) proof fn lemma_answered_stays(
    opts: FetchOptsView,
    replies: Seq<Result<ReplyView, ErrorView>>,
    k: int,
    command: CommandView,
)
    requires
        replies.len() > 0,
        answered(opts, replies.drop_last(), k, command),
    ensures
        answered(opts, replies, k, command),
        replies[k] == replies.drop_last()[k],
{
    assert(replies.drop_last().take(k) =~= replies.take(k));
}

pub(crate) proof fn lemma_asked_stays(
    opts: FetchOptsView,
    replies: Seq<Result<ReplyView, ErrorView>>,
    command: CommandView,
)
    requires
        replies.len() > 0,
    ensures
        was_asked(opts, replies.drop_last(), command) ==> was_asked(opts, replies, command),
        forall|yes: bool|
            user_said(opts, replies.drop_last(), command, yes) ==> user_said(
                opts,
                replies,
                command,
                yes,
            ),
{
    let front = replies.drop_last();
    if was_asked(opts, front, command) {
        let k = choose|k: int| answered(opts, front, k, command);
        lemma_answered_stays(opts, replies, k, command);
    }
    assert forall|yes: bool| user_said(opts, front, command, yes) implies user_said(
        opts,
        replies,
        command,
        yes,
    ) by {
        let k = choose|k: int| #[trigger]
            answered(opts, front, k, command) && front[k] == Ok::<ReplyView, ErrorView>(
                ReplyView::Answer(yes),
            );
        lemma_answered_stays(opts, replies, k, command);
    }
}

pub(crate) proof fn lemma_answered_now(opts: FetchOptsView, replies: Seq<Result<ReplyView, ErrorView>>)
    requires
        replies.len() > 0,
        fetch_after(opts, replies.drop_last()).pending() is Some,
    ensures
        answered(
            opts,
            replies,
            replies.len() - 1,
            fetch_after(opts, replies.drop_last()).pending()->0,
        ),
        was_asked(opts, replies, fetch_after(opts, replies.drop_last()).pending()->0),
{
    assert(replies.take(replies.len() - 1) =~= replies.drop_last());
}

proof fn lemma_told_stays(
    opts: FetchOptsView,
    replies: Seq<Result<ReplyView, ErrorView>>,
    entry: LogView,
)
    requires
        replies.len() > 0,
        told_truly(opts, replies.drop_last(), entry),
    ensures
        told_truly(opts, replies, entry),
{
    lemma_asked_stays(opts, replies, CommandView::DeleteBookmark { name: entry.0.name });
    lemma_asked_stays(
        opts,
        replies,
        CommandView::DeleteRemoteBranch { remote: opts.remote, name: entry.0.name },
    );
    match entry.1 {
        ActionView::OrphanDeleted { pr, merge_commit_id } => {
            lemma_asked_stays(opts, replies, question(entry.0.name, pr, merge_commit_id));
        },
        ActionView::OrphanSkipped { pr, merge_commit_id } => {
            lemma_asked_stays(opts, replies, question(entry.0.name, pr, merge_commit_id));
        },
        _ => {},
    }
}

/// Whether the queue-test branches have been pruned.
pub open spec fn past_pruning(s: FetchView) -> bool {
    s.phase is Relisting || s.phase is Rebasing || s.phase is Orphans || (s.phase is Finished
        && s.error is None)
}

proof fn lemma_all_pruned(opts: FetchOptsView, replies: Seq<Result<ReplyView, ErrorView>>, i: int)
    requires
        !opts.dry_run,
        past_pruning(fetch_after(opts, replies)) || fetch_after(opts, replies).phase is Pruning,
        !opts.no_gtmq_prune,
        ({
            let s = fetch_after(opts, replies);
            let steps = prune_steps(opts, s.queue, s.queue_prs);
            &&& 0 <= i < steps.len()
            &&& s.phase is Pruning ==> i < steps.len() - s.todo.len()
        }),
    ensures
        ({
            let s = fetch_after(opts, replies);
            was_asked(opts, replies, prune_steps(opts, s.queue, s.queue_prs)[i])
        }),
    decreases replies.len(),
{
    if replies.len() > 0 {
        let front = replies.drop_last();
        let s = fetch_after(opts, front);
        let n = fetch_after(opts, replies);
        let steps = prune_steps(opts, n.queue, n.queue_prs);
        fetch_is_sound(opts, front);
        fetch_is_sound(opts, replies);
        lemma_step_keeps(s, replies.last());
        lemma_reaches_pruning(s, replies.last());
        if s.phase is Pruning {
            lemma_tail(s.todo, prune_steps(s.opts, s.queue, s.queue_prs));
        }
        lemma_asked_stays(opts, replies, steps[i]);
        if s.phase is Pruning && i == steps.len() - s.todo.len() {
            lemma_answered_now(opts, replies);
        } else if past_pruning(s) || s.phase is Pruning {
            lemma_all_pruned(opts, front, i);
        }
    }
}

/// What one step leaves as it was: a fact that was asked for in an earlier phase.
/// No step goes back to an earlier phase.
pub(crate) proof fn lemma_step_keeps(s: FetchView, reply: Result<ReplyView, ErrorView>)
    requires
        sound(s),
    ensures
        s.pending() is None ==> after_reply(s, reply) == s,
        s.error is Some ==> after_reply(s, reply) == s,
        phases_left(after_reply(s, reply).phase) <= phases_left(s.phase),
        phases_left(s.phase) <= 10 ==> after_reply(s, reply).normal == s.normal && after_reply(
            s,
            reply,
        ).queue == s.queue,
        phases_left(s.phase) <= 9 ==> after_reply(s, reply).prs == s.prs,
        !(s.phase is Stacking) ==> after_reply(s, reply).stacked == s.stacked,
        phases_left(s.phase) <= 4 ==> after_reply(s, reply).queue_prs == s.queue_prs,
        phases_left(s.phase) <= 2 ==> after_reply(s, reply).remaining == s.remaining,
{
    broadcast use group_frames;

    reveal(after_reply);
    if s.pending() is Some {
        fetch_gets_nearer(s, reply);
    }
}

/// How the pipeline gets to the pruning, and past it: with every branch still to
/// be pruned, and not without pruning what there is.
proof fn lemma_reaches_pruning(s: FetchView, reply: Result<ReplyView, ErrorView>)
    requires
        sound(s),
    ensures
        s.phase is Pruning && after_reply(s, reply).phase is Pruning ==> after_reply(
            s,
            reply,
        ).todo.len() == s.todo.len() - 1,
        s.phase is Pruning && past_pruning(after_reply(s, reply)) ==> s.todo.len() == 1,
        past_pruning(after_reply(s, reply)) ==> past_pruning(s) || s.phase is Pruning
            || s.opts.dry_run || s.opts.no_gtmq_prune || prune_steps(
            s.opts,
            after_reply(s, reply).queue,
            after_reply(s, reply).queue_prs,
        ).len() == 0,
        after_reply(s, reply).phase is Pruning ==> s.phase is Pruning || after_reply(
            s,
            reply,
        ).todo.len() == prune_steps(
            s.opts,
            after_reply(s, reply).queue,
            after_reply(s, reply).queue_prs,
        ).len(),
{
    broadcast use group_frames;

    reveal(after_reply);
}

proof fn lemma_prune_steps_hold(
    opts: FetchOptsView,
    queue: Seq<BookmarkView>,
    prs: Seq<PrView>,
    i: int,
)
    requires
        !opts.dry_run,
        0 <= i < queue.len(),
        gtmq_decision(first_pr(prs, queue[i].name)) is GtmqPruned,
    ensures
        prune_steps(opts, queue, prs).contains(CommandView::DeleteBookmark { name: queue[i].name }),
        prune_steps(opts, queue, prs).contains(
            CommandView::DeleteRemoteBranch { remote: opts.remote, name: queue[i].name },
        ),
    decreases queue.len(),
{
    let front = queue.drop_last();
    let before = prune_steps(opts, front, prs);
    let last = prune_step(opts, queue.last(), prs);
    let steps = prune_steps(opts, queue, prs);
    assert(steps == before + last);
    let local = CommandView::DeleteBookmark { name: queue[i].name };
    let remote = CommandView::DeleteRemoteBranch { remote: opts.remote, name: queue[i].name };
    if i == queue.len() - 1 {
        assert(steps[before.len() as int] == last[0]);
        assert(steps[before.len() as int + 1] == last[1]);
    } else {
        assert(front[i] == queue[i]);
        lemma_prune_steps_hold(opts, front, prs, i);
        let a = choose|a: int| 0 <= a < before.len() && before[a] == local;
        let b = choose|b: int| 0 <= b < before.len() && before[b] == remote;
        assert(steps[a] == local);
        assert(steps[b] == remote);
    }
}

/// How the log comes by an entry outside the merge queue in one step: it was there
/// before, or the bookmark has just been classified, or the sync turns out to
/// have deleted it, or the user has objected to its deletion.
pub open spec fn logged_by(
    s: FetchView,
    reply: Result<ReplyView, ErrorView>,
    n: FetchView,
    j: int,
) -> bool {
    let e = n.log[j];
    let pr = first_pr(n.prs, n.normal[j].name);
    ||| {
        &&& j < s.log.len()
        &&& j < s.normal.len()
        &&& e == s.log[j]
        &&& s.phase is Relisting ==> n.phase is Relisting || n.error is Some || names_of(
            n.remaining,
        ).contains(e.0.name)
    }
    ||| {
        &&& j >= s.log.len()
        &&& n.phase is Marking || n.phase is Syncing
        &&& !wants_marker(pr)
        &&& e == (n.normal[j], local_decision(n.normal[j], pr, None))
    }
    ||| {
        &&& s.phase is Marking
        &&& j == s.log.len()
        &&& n.phase is Marking || n.phase is Syncing
        &&& wants_marker(pr)
        &&& s.pending() == Some(
            CommandView::FindMergeMarker { pr: pr->0.number, trunk: s.opts.trunk },
        )
        &&& reply matches Ok(ReplyView::Marker(marker))
        &&& e == (n.normal[j], local_decision(n.normal[j], pr, marker))
    }
    ||| {
        &&& s.phase is Relisting
        &&& j < s.log.len()
        &&& n.error is None
        &&& !(n.phase is Relisting)
        &&& e == (s.log[j].0, ActionView::GtSyncDeleted)
        &&& !names_of(n.remaining).contains(e.0.name)
    }
    ||| {
        &&& s.phase is Orphans
        &&& j == s.cursor
        &&& s.todo[0] is ConfirmDelete
        &&& reply == Ok::<ReplyView, ErrorView>(ReplyView::Answer(false))
        &&& e == skipped(s.log[j])
    }
}

#[verifier::spinoff_prover]
proof fn lemma_step_log_listing(s: FetchView, reply: Result<ReplyView, ErrorView>, j: int)
    requires
        sound(s),
        s.phase is Fetching || s.phase is Listing,
        0 <= j < after_reply(s, reply).log.len(),
        j < after_reply(s, reply).normal.len(),
    ensures
        logged_by(s, reply, after_reply(s, reply), j),
{
    broadcast use group_frames;

    reveal(after_reply);
}

#[verifier::spinoff_prover]
proof fn lemma_step_log_matching(s: FetchView, reply: Result<ReplyView, ErrorView>, j: int)
    requires
        sound(s),
        s.phase is Matching,
        0 <= j < after_reply(s, reply).log.len(),
        j < after_reply(s, reply).normal.len(),
    ensures
        logged_by(s, reply, after_reply(s, reply), j),
{
    broadcast use group_frames;

    reveal(after_reply);
}

#[verifier::spinoff_prover]
proof fn lemma_step_log_stacking(s: FetchView, reply: Result<ReplyView, ErrorView>, j: int)
    requires
        sound(s),
        s.phase is Stacking || s.phase is Backfilling,
        0 <= j < after_reply(s, reply).log.len(),
        j < after_reply(s, reply).normal.len(),
    ensures
        logged_by(s, reply, after_reply(s, reply), j),
{
    broadcast use group_frames;

    reveal(after_reply);
    let n = after_reply(s, reply);
    let stacked = match reply {
        Ok(ReplyView::Parents(stacked)) => stacked,
        _ => Seq::empty(),
    };
    let t = if s.phase is Stacking {
        FetchView { stacked, ..s }
    } else {
        s
    };
    assert(t.log.len() == 0);
    assert(n == mark_rest(t) || n.log.len() == 0);
    if n == mark_rest(t) {
        assert(mark_rest(t).log[j] == (
            t.normal[j],
            local_decision(t.normal[j], first_pr(t.prs, t.normal[j].name), None),
        ));
    }
}

#[verifier::spinoff_prover]
proof fn lemma_step_log_marking(s: FetchView, reply: Result<ReplyView, ErrorView>, j: int)
    requires
        sound(s),
        s.phase is Marking,
        0 <= j < after_reply(s, reply).log.len(),
        j < after_reply(s, reply).normal.len(),
    ensures
        logged_by(s, reply, after_reply(s, reply), j),
{
    broadcast use group_frames;

    reveal(after_reply);
    let n = after_reply(s, reply);
    if let Ok(ReplyView::Marker(marker)) = reply {
        let t = log_next(s, marker);
        assert(n == mark_rest(t));
        assert(s.log.len() < s.normal.len());
        if j < t.log.len() {
            assert(mark_rest(t).log[j] == t.log[j]);
            if j < s.log.len() {
                assert(t.log[j] == s.log[j]);
            }
        } else {
            assert(mark_rest(t).log[j] == (
                t.normal[j],
                local_decision(t.normal[j], first_pr(t.prs, t.normal[j].name), None),
            ));
        }
    } else {
        assert(n.log == s.log);
    }
}

#[verifier::spinoff_prover]
proof fn lemma_step_log_syncing(s: FetchView, reply: Result<ReplyView, ErrorView>, j: int)
    requires
        sound(s),
        s.phase is Syncing || s.phase is QueueMatching || s.phase is Pruning,
        0 <= j < after_reply(s, reply).log.len(),
        j < after_reply(s, reply).normal.len(),
    ensures
        logged_by(s, reply, after_reply(s, reply), j),
{
    broadcast use group_frames;

    reveal(after_reply);
}

#[verifier::spinoff_prover]
proof fn lemma_step_log_relisting(s: FetchView, reply: Result<ReplyView, ErrorView>, j: int)
    requires
        sound(s),
        s.phase is Relisting,
        0 <= j < after_reply(s, reply).log.len(),
        j < after_reply(s, reply).normal.len(),
    ensures
        logged_by(s, reply, after_reply(s, reply), j),
{
    broadcast use group_frames;

    reveal(after_reply);
    assert(s.log[j].0 == s.normal[j]);
    assert(names_of(s.normal)[j] == s.normal[j].name);
}

#[verifier::spinoff_prover]
proof fn lemma_step_log_end(s: FetchView, reply: Result<ReplyView, ErrorView>, j: int)
    requires
        sound(s),
        s.phase is Previewing || s.phase is Rebasing || s.phase is Orphans || s.phase is Finished,
        0 <= j < after_reply(s, reply).log.len(),
        j < after_reply(s, reply).normal.len(),
    ensures
        logged_by(s, reply, after_reply(s, reply), j),
{
    broadcast use group_frames;

    reveal(after_reply);
}

pub(crate) proof fn lemma_step_log(s: FetchView, reply: Result<ReplyView, ErrorView>, j: int)
    requires
        sound(s),
        0 <= j < after_reply(s, reply).log.len(),
        j < after_reply(s, reply).normal.len(),
    ensures
        logged_by(s, reply, after_reply(s, reply), j),
        j < s.log.len() ==> after_reply(s, reply).normal == s.normal && after_reply(s, reply).prs
            == s.prs,
{
    lemma_step_keeps(s, reply);
    match s.phase {
        FetchPhase::Fetching | FetchPhase::Listing => {
            lemma_step_log_listing(s, reply, j);
        },
        FetchPhase::Matching => {
            lemma_step_log_matching(s, reply, j);
        },
        FetchPhase::Stacking | FetchPhase::Backfilling => {
            lemma_step_log_stacking(s, reply, j);
        },
        FetchPhase::Marking => {
            lemma_step_log_marking(s, reply, j);
        },
        FetchPhase::Syncing | FetchPhase::QueueMatching | FetchPhase::Pruning => {
            lemma_step_log_syncing(s, reply, j);
        },
        FetchPhase::Relisting => {
            lemma_step_log_relisting(s, reply, j);
        },
        _ => {
            lemma_step_log_end(s, reply, j);
        },
    }
}

/// Whether the merge of a pull request was seen: its marker was looked for on
/// trunk, and this commit came back.
pub open spec fn merge_seen(
    opts: FetchOptsView,
    replies: Seq<Result<ReplyView, ErrorView>>,
    pr: u32,
    merge_commit_id: Seq<char>,
) -> bool {
    exists|k: int| #[trigger]
        answered(opts, replies, k, CommandView::FindMergeMarker { pr, trunk: opts.trunk })
            && replies[k] == Ok::<ReplyView, ErrorView>(ReplyView::Marker(Some(merge_commit_id)))
}

/// A bookmark is taken to be merged only on evidence: every log entry that
/// stands for a deletion, or for one that the user objected to, names a commit
/// that was found on trunk with the merge marker of the pull request in the
/// entry. This holds at every point of the pipeline.
pub proof fn fetch_needs_a_merge_marker(
    opts: FetchOptsView,
    replies: Seq<Result<ReplyView, ErrorView>>,
    j: int,
)
    requires
        0 <= j < fetch_after(opts, replies).log.len(),
        j < fetch_after(opts, replies).normal.len(),
    ensures
        fetch_after(opts, replies).log[j].1 matches ActionView::OrphanDeleted {
            pr,
            merge_commit_id,
        } ==> merge_seen(opts, replies, pr, merge_commit_id),
        fetch_after(opts, replies).log[j].1 matches ActionView::OrphanSkipped {
            pr,
            merge_commit_id,
        } ==> merge_seen(opts, replies, pr, merge_commit_id),
    decreases replies.len(),
{
    if replies.len() > 0 {
        let front = replies.drop_last();
        let s = fetch_after(opts, front);
        let n = fetch_after(opts, replies);
        fetch_is_sound(opts, front);
        lemma_step_log(s, replies.last(), j);
        if j < s.log.len() && j < s.normal.len() {
            fetch_needs_a_merge_marker(opts, front, j);
            lemma_merge_stays(opts, replies);
        }
        if s.pending() is Some {
            lemma_answered_now(opts, replies);
        }
    }
}

proof fn lemma_merge_stays(opts: FetchOptsView, replies: Seq<Result<ReplyView, ErrorView>>)
    requires
        replies.len() > 0,
    ensures
        forall|pr: u32, merge_commit_id: Seq<char>|
            merge_seen(opts, replies.drop_last(), pr, merge_commit_id) ==> merge_seen(
                opts,
                replies,
                pr,
                merge_commit_id,
            ),
{
    let front = replies.drop_last();
    assert forall|pr: u32, merge_commit_id: Seq<char>|
        merge_seen(opts, front, pr, merge_commit_id) implies merge_seen(
        opts,
        replies,
        pr,
        merge_commit_id,
    ) by {
        let command = CommandView::FindMergeMarker { pr, trunk: opts.trunk };
        let k = choose|k: int| #[trigger]
            answered(opts, front, k, command) && front[k] == Ok::<ReplyView, ErrorView>(
                ReplyView::Marker(Some(merge_commit_id)),
            );
        lemma_answered_stays(opts, replies, k, command);
    }
}

/// Whether the deletion of the bookmark at `j` is settled: it has been carried
/// out, or it is none.
pub open spec fn settled(s: FetchView, j: int) -> bool {
    ||| s.phase is Finished && s.error is None
    ||| s.phase is Orphans && j < s.cursor
    ||| !(s.log[j].1 is OrphanDeleted)
}

/// Whether a deletion that is pending outside the merge queue has been agreed to.
pub open spec fn agreed(opts: FetchOptsView, replies: Seq<Result<ReplyView, ErrorView>>) -> bool {
    let s = fetch_after(opts, replies);
    s.phase is Orphans && s.todo[0] is DeleteBookmark && !opts.auto ==> user_said(
        opts,
        replies,
        question(
            s.log[s.cursor].0.name,
            s.log[s.cursor].1->OrphanDeleted_pr,
            s.log[s.cursor].1->OrphanDeleted_merge_commit_id,
        ),
        true,
    )
}

proof fn lemma_agreed(opts: FetchOptsView, replies: Seq<Result<ReplyView, ErrorView>>)
    ensures
        agreed(opts, replies),
{
    let n = fetch_after(opts, replies);
    if n.phase is Orphans && n.todo[0] is DeleteBookmark && !opts.auto {
        let front = replies.drop_last();
        fetch_is_sound(opts, front);
        fetch_is_sound(opts, replies);
        lemma_step_keeps(fetch_after(opts, front), replies.last());
        lemma_agrees_now(fetch_after(opts, front), replies.last());
        lemma_answered_now(opts, replies);
    }
}

proof fn lemma_agrees_now(s: FetchView, reply: Result<ReplyView, ErrorView>)
    requires
        sound(s),
        !s.opts.auto,
        after_reply(s, reply).phase is Orphans,
        after_reply(s, reply).todo[0] is DeleteBookmark,
        after_reply(s, reply).opts == s.opts,
        s.pending() is Some,
    ensures
        ({
            let n = after_reply(s, reply);
            &&& s.pending() == Some(
                question(
                    n.log[n.cursor].0.name,
                    n.log[n.cursor].1->OrphanDeleted_pr,
                    n.log[n.cursor].1->OrphanDeleted_merge_commit_id,
                ),
            )
            &&& reply == Ok::<ReplyView, ErrorView>(ReplyView::Answer(true))
        }),
{
    reveal(after_reply);
    let n = after_reply(s, reply);
    fetch_stays_sound(s, reply);
    fetch_asks_before_deleting(s, reply, n.todo[0]->DeleteBookmark_name);
    assert(s.log[s.cursor].0 == s.normal[s.cursor]);
}

proof fn lemma_orphans_told(opts: FetchOptsView, replies: Seq<Result<ReplyView, ErrorView>>, j: int)
    requires
        !opts.dry_run,
        0 <= j < fetch_after(opts, replies).log.len(),
        j < fetch_after(opts, replies).normal.len(),
        settled(fetch_after(opts, replies), j),
    ensures
        told_truly(opts, replies, fetch_after(opts, replies).log[j]),
    decreases replies.len(),
{
    if replies.len() > 0 {
        let front = replies.drop_last();
        let s = fetch_after(opts, front);
        let n = fetch_after(opts, replies);
        fetch_is_sound(opts, front);
        fetch_is_sound(opts, replies);
        lemma_step_log(s, replies.last(), j);
        if s.pending() is Some {
            lemma_answered_now(opts, replies);
        }
        if j < s.log.len() && j < s.normal.len() && n.log[j] == s.log[j] {
            if settled(s, j) {
                lemma_orphans_told(opts, front, j);
                lemma_told_stays(opts, replies, s.log[j]);
            } else {
                lemma_settled_now(s, replies.last(), j);
                lemma_agreed(opts, front);
                let action = s.log[j].1;
                lemma_asked_stays(
                    opts,
                    replies,
                    question(
                        s.log[j].0.name,
                        action->OrphanDeleted_pr,
                        action->OrphanDeleted_merge_commit_id,
                    ),
                );
                assert(s.log[j].0 == s.normal[j]);
            }
        } else {
            assert(s.phase is Orphans ==> s.log[s.cursor].0 == s.normal[s.cursor]);
        }
    }
}

/// A deletion gets settled when it has just been asked for, and in no other way.
proof fn lemma_settled_now(s: FetchView, reply: Result<ReplyView, ErrorView>, j: int)
    requires
        sound(s),
        !s.opts.dry_run,
        0 <= j < s.log.len(),
        j < s.normal.len(),
        after_reply(s, reply).log.len() > j,
        after_reply(s, reply).log[j] == s.log[j],
        !settled(s, j),
        settled(after_reply(s, reply), j),
    ensures
        s.phase is Orphans,
        s.cursor == j,
        s.pending() == Some(CommandView::DeleteBookmark { name: s.normal[j].name }),
{
    broadcast use group_frames;

    reveal(after_reply);
}

/// The log of a real run that ended well tells the truth: each deletion in it
/// was carried out or attempted, outside the merge queue on the user's yes to
/// that very bookmark unless `auto` was set, and for a queue-test branch both
/// locally and on the remote; and each bookmark that it calls spared was spared
/// on the user's no.
pub proof fn fetch_log_tells_the_truth(
    opts: FetchOptsView,
    replies: Seq<Result<ReplyView, ErrorView>>,
    j: int,
)
    requires
        !opts.dry_run,
        fetch_after(opts, replies).phase is Finished,
        fetch_after(opts, replies).error is None,
        0 <= j < fetch_after(opts, replies).log.len(),
    ensures
        told_truly(opts, replies, fetch_after(opts, replies).log[j]),
{
    let s = fetch_after(opts, replies);
    fetch_is_sound(opts, replies);
    if j < s.normal.len() {
        lemma_orphans_told(opts, replies, j);
    } else {
        let i = j - s.normal.len();
        assert(s.log[j] == s.log.skip(s.normal.len() as int)[i]);
        assert(s.log[j] == queue_log(s.queue, s.queue_prs)[i]);
        if s.log[j].1 is GtmqPruned {
            let steps = prune_steps(opts, s.queue, s.queue_prs);
            let local = CommandView::DeleteBookmark { name: s.queue[i].name };
            let remote = CommandView::DeleteRemoteBranch {
                remote: opts.remote,
                name: s.queue[i].name,
            };
            lemma_prune_steps_hold(opts, s.queue, s.queue_prs, i);
            lemma_all_pruned(
                opts,
                replies,
                choose|a: int| 0 <= a < steps.len() && steps[a] == local,
            );
            lemma_all_pruned(
                opts,
                replies,
                choose|b: int| 0 <= b < steps.len() && steps[b] == remote,
            );
        }
    }
}

/// The pipeline works with what it was told: the bookmarks that the first listing
/// held, set apart by the queue prefixes, the pull requests and the stack that
/// were found, and the bookmarks that the second listing held.
pub proof fn fetch_remembers(
    opts: FetchOptsView,
    replies: Seq<Result<ReplyView, ErrorView>>,
    k: int,
    reply: ReplyView,
)
    ensures
        told_in(opts, replies, k, FetchPhase::Listing, reply) ==> (reply matches ReplyView::Bookmarks(
            bookmarks,
        ) ==> fetch_after(opts, replies).normal == bookmarks.filter(
            outside_queue(opts.gtmq_prefixes),
        ) && fetch_after(opts, replies).queue == bookmarks.filter(
            inside_queue(opts.gtmq_prefixes),
        )),
        told_in(opts, replies, k, FetchPhase::Matching, reply) ==> (reply matches ReplyView::Prs(
            prs,
        ) ==> fetch_after(opts, replies).prs == prs),
        told_in(opts, replies, k, FetchPhase::Stacking, reply) ==> (
        reply matches ReplyView::Parents(stacked) ==> fetch_after(opts, replies).stacked
            == stacked),
        told_in(opts, replies, k, FetchPhase::QueueMatching, reply) ==> (
        reply matches ReplyView::Prs(prs) ==> fetch_after(opts, replies).queue_prs == prs),
        told_in(opts, replies, k, FetchPhase::Relisting, reply) ==> (
        reply matches ReplyView::Bookmarks(remaining) ==> fetch_after(opts, replies).remaining
            == remaining),
        0 <= k < replies.len() ==> phases_left(fetch_after(opts, replies).phase) <= phases_left(
            fetch_after(opts, replies.take(k)).phase,
        ),
        0 <= k < replies.len() && replies[k] == Ok::<ReplyView, ErrorView>(reply) && answers(
            fetch_after(opts, replies.take(k)),
            reply,
        ) ==> phases_left(fetch_after(opts, replies).phase) < phases_left(
            fetch_after(opts, replies.take(k)).phase,
        ),
    decreases replies.len(),
{
    if 0 <= k < replies.len() {
        let front = replies.drop_last();
        let s = fetch_after(opts, front);
        fetch_is_sound(opts, front);
        lemma_step_keeps(s, replies.last());
        if k == replies.len() - 1 {
            assert(replies.take(k) =~= front);
            if answers(s, reply) {
                lemma_step_learns(s, reply);
            }
        } else {
            assert(replies.take(k) =~= front.take(k));
            fetch_remembers(opts, front, k, reply);
        }
    }
}

/// Whether `reply` tells what is asked for, and the phase ends with it.
pub open spec fn answers(s: FetchView, reply: ReplyView) -> bool {
    &&& s.pending() matches Some(command)
    &&& command.expects(reply)
    &&& reply is Bookmarks || reply is Prs || reply is Parents
}

proof fn lemma_step_learns(s: FetchView, reply: ReplyView)
    requires
        sound(s),
        answers(s, reply),
    ensures
        ({
            let n = after_reply(s, Ok(reply));
            &&& phases_left(n.phase) < phases_left(s.phase)
            &&& s.phase is Listing ==> (reply matches ReplyView::Bookmarks(bookmarks) ==> n.normal
                == bookmarks.filter(outside_queue(s.opts.gtmq_prefixes)) && n.queue
                == bookmarks.filter(inside_queue(s.opts.gtmq_prefixes)))
            &&& s.phase is Matching ==> (reply matches ReplyView::Prs(prs) ==> n.prs == prs)
            &&& s.phase is Stacking ==> (reply matches ReplyView::Parents(stacked) ==> n.stacked
                == stacked)
            &&& s.phase is QueueMatching ==> (reply matches ReplyView::Prs(prs) ==> n.queue_prs
                == prs)
            &&& s.phase is Relisting ==> (reply matches ReplyView::Bookmarks(remaining)
                ==> n.remaining == remaining)
        }),
{
    broadcast use group_frames;

    reveal(after_reply);
}

/// The pipeline gets past the first listing with a list of bookmarks.
proof fn lemma_leaves_listing(s: FetchView, reply: Result<ReplyView, ErrorView>)
    requires
        sound(s),
        phases_left(s.phase) > 10,
        phases_left(after_reply(s, reply).phase) <= 10,
        after_reply(s, reply).error is None,
    ensures
        s.phase is Listing,
        s.pending() == Some(CommandView::ListBookmarks),
        reply is Ok,
        reply->Ok_0 is Bookmarks,
{
    reveal(after_reply);
}

proof fn lemma_was_listed(opts: FetchOptsView, replies: Seq<Result<ReplyView, ErrorView>>) -> (r: (
    int,
    Seq<BookmarkView>,
))
    requires
        fetch_after(opts, replies).error is None,
        phases_left(fetch_after(opts, replies).phase) <= 10,
    ensures
        told_in(opts, replies, r.0, FetchPhase::Listing, ReplyView::Bookmarks(r.1)),
    decreases replies.len(),
{
    let front = replies.drop_last();
    let s = fetch_after(opts, front);
    fetch_is_sound(opts, front);
    lemma_step_keeps(s, replies.last());
    if phases_left(s.phase) <= 10 {
        let r = lemma_was_listed(opts, front);
        assert(front.take(r.0) =~= replies.take(r.0));
        r
    } else {
        assert(replies.take(replies.len() - 1) =~= front);
        lemma_leaves_listing(s, replies.last());
        (replies.len() - 1, replies.last()->Ok_0->Bookmarks_0)
    }
}

/// The bookmarks that a log tells of, in order.
pub open spec fn bookmarks_of(log: Seq<LogView>) -> Seq<BookmarkView> {
    Seq::new(log.len(), |i: int| log[i].0)
}

/// The log of a pipeline that ended well tells of exactly what the first listing
/// held: the bookmarks outside the merge queue, in order, then the queue-test
/// branches, in order, if these are pruned.
pub proof fn fetch_log_names_the_listing(
    opts: FetchOptsView,
    replies: Seq<Result<ReplyView, ErrorView>>,
)
    requires
        fetch_after(opts, replies).phase is Finished,
        fetch_after(opts, replies).error is None,
    ensures
        exists|k: int, bookmarks: Seq<BookmarkView>|
            #![trigger told_in(opts, replies, k, FetchPhase::Listing, ReplyView::Bookmarks(bookmarks))]
            told_in(opts, replies, k, FetchPhase::Listing, ReplyView::Bookmarks(bookmarks))
                && bookmarks_of(fetch_after(opts, replies).log) == bookmarks.filter(
                outside_queue(opts.gtmq_prefixes),
            ) + (if opts.no_gtmq_prune {
                Seq::empty()
            } else {
                bookmarks.filter(inside_queue(opts.gtmq_prefixes))
            }),
{
    let s = fetch_after(opts, replies);
    fetch_is_sound(opts, replies);
    let (k, bookmarks) = lemma_was_listed(opts, replies);
    fetch_remembers(opts, replies, k, ReplyView::Bookmarks(bookmarks));
    let named = s.normal + (if opts.no_gtmq_prune {
        Seq::empty()
    } else {
        s.queue
    });
    assert forall|i: int| 0 <= i < s.log.len() implies s.log[i].0 == #[trigger] named[i] by {
        if i >= s.normal.len() {
            assert(s.log[i] == s.log.skip(s.normal.len() as int)[i - s.normal.len()]);
        }
    }
    assert(bookmarks_of(s.log) =~= named);
    assert(told_in(opts, replies, k, FetchPhase::Listing, ReplyView::Bookmarks(bookmarks)));
}

/// A merge marker is looked for only where the pull request of the bookmark that
/// is next is closed or merged, and on trunk.
pub proof fn fetch_looks_for_landed_markers_only(
    opts: FetchOptsView,
    replies: Seq<Result<ReplyView, ErrorView>>,
    pr: u32,
    trunk: Seq<char>,
)
    requires
        fetch_after(opts, replies).pending() == Some(CommandView::FindMergeMarker { pr, trunk }),
    ensures
        ({
            let s = fetch_after(opts, replies);
            let found = first_pr(s.prs, s.normal[s.log.len() as int].name);
            &&& s.log.len() < s.normal.len()
            &&& found is Some
            &&& found->0.state.terminal()
            &&& pr == found->0.number
            &&& trunk == opts.trunk
        }),
{
    fetch_is_sound(opts, replies);
    let s = fetch_after(opts, replies);
    if s.phase is Pruning {
        assert(prunes(s, s.todo[0]));
    }
    assert(s.phase is Marking);
}

/// Whether `marker` is what is known of the merge of the pull request of the
/// bookmark at `j`: where the pull request is closed or merged, it came back when
/// the marker was looked for on behalf of that bookmark; else there is none.
pub open spec fn marker_told(
    opts: FetchOptsView,
    replies: Seq<Result<ReplyView, ErrorView>>,
    j: int,
    pr: Option<PrView>,
    marker: Option<Seq<char>>,
) -> bool {
    if wants_marker(pr) {
        exists|k: int|
            {
                &&& #[trigger] answered(
                    opts,
                    replies,
                    k,
                    CommandView::FindMergeMarker { pr: pr->0.number, trunk: opts.trunk },
                )
                &&& fetch_after(opts, replies.take(k)).log.len() == j
                &&& replies[k] == Ok::<ReplyView, ErrorView>(ReplyView::Marker(marker))
            }
    } else {
        marker is None
    }
}

/// Each bookmark outside the merge queue is decided on by its pull request and by
/// the merge marker that came back for it: its log entry is that decision, unless
/// `gt sync` deleted it or the user objected. This holds at every point of the
/// pipeline.
pub proof fn fetch_decides_by_the_marker(
    opts: FetchOptsView,
    replies: Seq<Result<ReplyView, ErrorView>>,
    j: int,
)
    requires
        0 <= j < fetch_after(opts, replies).log.len(),
        j < fetch_after(opts, replies).normal.len(),
    ensures
        ({
            let s = fetch_after(opts, replies);
            let pr = first_pr(s.prs, s.normal[j].name);
            exists|marker: Option<Seq<char>>|
                #![trigger marker_told(opts, replies, j, pr, marker)]
                marker_told(opts, replies, j, pr, marker) && settled_as(
                    local_decision(s.normal[j], pr, marker),
                    s.log[j].1,
                )
        }),
    decreases replies.len(),
{
    if replies.len() > 0 {
        let front = replies.drop_last();
        let s = fetch_after(opts, front);
        let n = fetch_after(opts, replies);
        fetch_is_sound(opts, front);
        lemma_step_log(s, replies.last(), j);
        let pr = first_pr(n.prs, n.normal[j].name);
        if j < s.log.len() {
            fetch_decides_by_the_marker(opts, front, j);
            let marker = choose|marker: Option<Seq<char>>|
                #![trigger marker_told(opts, front, j, pr, marker)]
                marker_told(opts, front, j, pr, marker) && settled_as(
                    local_decision(s.normal[j], pr, marker),
                    s.log[j].1,
                );
            lemma_marker_stays(opts, replies, j, pr, marker);
            lemma_settled_stays(s, replies.last(), j, local_decision(s.normal[j], pr, marker));
        } else if wants_marker(pr) {
            lemma_marker_now(opts, replies, pr, replies.last()->Ok_0->Marker_0);
        } else {
            assert(marker_told(opts, replies, j, pr, None));
        }
    }
}

proof fn lemma_marker_stays(
    opts: FetchOptsView,
    replies: Seq<Result<ReplyView, ErrorView>>,
    j: int,
    pr: Option<PrView>,
    marker: Option<Seq<char>>,
)
    requires
        replies.len() > 0,
        marker_told(opts, replies.drop_last(), j, pr, marker),
    ensures
        marker_told(opts, replies, j, pr, marker),
{
    if wants_marker(pr) {
        let front = replies.drop_last();
        let command = CommandView::FindMergeMarker { pr: pr->0.number, trunk: opts.trunk };
        let k = choose|k: int|
            {
                &&& #[trigger] answered(opts, front, k, command)
                &&& fetch_after(opts, front.take(k)).log.len() == j
                &&& front[k] == Ok::<ReplyView, ErrorView>(ReplyView::Marker(marker))
            };
        lemma_answered_stays(opts, replies, k, command);
        assert(front.take(k) =~= replies.take(k));
    }
}

proof fn lemma_marker_now(
    opts: FetchOptsView,
    replies: Seq<Result<ReplyView, ErrorView>>,
    pr: Option<PrView>,
    marker: Option<Seq<char>>,
)
    requires
        replies.len() > 0,
        wants_marker(pr),
        fetch_after(opts, replies.drop_last()).pending() == Some(
            CommandView::FindMergeMarker { pr: pr->0.number, trunk: opts.trunk },
        ),
        replies.last() == Ok::<ReplyView, ErrorView>(ReplyView::Marker(marker)),
    ensures
        marker_told(
            opts,
            replies,
            fetch_after(opts, replies.drop_last()).log.len() as int,
            pr,
            marker,
        ),
{
    lemma_answered_now(opts, replies);
    assert(replies.take(replies.len() - 1) =~= replies.drop_last());
}

proof fn lemma_settled_stays(
    s: FetchView,
    reply: Result<ReplyView, ErrorView>,
    j: int,
    decision: ActionView,
)
    requires
        sound(s),
        0 <= j < s.log.len(),
        j < s.normal.len(),
        j < after_reply(s, reply).log.len(),
        logged_by(s, reply, after_reply(s, reply), j),
        settled_as(decision, s.log[j].1),
    ensures
        settled_as(decision, after_reply(s, reply).log[j].1),
{
    reveal(after_reply);
    let n = after_reply(s, reply);
    assert(n.log[j] == s.log[j] || n.log[j].1 is GtSyncDeleted || (n.log[j] == skipped(s.log[j])
        && s.log[j].1 is OrphanDeleted));
}

/// Whether the second listing has been taken in.
pub open spec fn past_relisting(s: FetchView) -> bool {
    s.phase is Rebasing || s.phase is Orphans || (s.phase is Finished && s.error is None
        && !s.opts.dry_run)
}

/// A bookmark outside the merge queue is said to have been deleted by `gt sync`
/// exactly if the second listing does not hold it; before that listing, and in a
/// dry run, none is.
pub proof fn fetch_logs_what_the_sync_deleted(
    opts: FetchOptsView,
    replies: Seq<Result<ReplyView, ErrorView>>,
    j: int,
)
    requires
        0 <= j < fetch_after(opts, replies).log.len(),
        j < fetch_after(opts, replies).normal.len(),
        fetch_after(opts, replies).error is None,
    ensures
        ({
            let s = fetch_after(opts, replies);
            s.log[j].1 is GtSyncDeleted <==> past_relisting(s) && !names_of(
                s.remaining,
            ).contains(s.normal[j].name)
        }),
    decreases replies.len(),
{
    if replies.len() > 0 {
        let front = replies.drop_last();
        let s = fetch_after(opts, front);
        fetch_is_sound(opts, front);
        fetch_is_sound(opts, replies);
        lemma_step_log(s, replies.last(), j);
        lemma_step_keeps(s, replies.last());
        lemma_reaches_relisting(s, replies.last());
        if j < s.log.len() && j < s.normal.len() {
            fetch_logs_what_the_sync_deleted(opts, front, j);
            assert(s.log[j].0 == s.normal[j]);
        }
        assert(fetch_after(opts, replies).log[j].0 == fetch_after(opts, replies).normal[j]);
    }
}

pub(crate) proof fn lemma_reaches_relisting(s: FetchView, reply: Result<ReplyView, ErrorView>)
    requires
        sound(s),
    ensures
        past_relisting(after_reply(s, reply)) ==> past_relisting(s) || s.phase is Relisting,
        s.phase is Relisting ==> past_relisting(after_reply(s, reply)) || after_reply(
            s,
            reply,
        ).error is Some || after_reply(s, reply).phase is Relisting,
        past_relisting(s) ==> past_relisting(after_reply(s, reply)) || after_reply(
            s,
            reply,
        ).error is Some,
{
    broadcast use group_frames;

    reveal(after_reply);
}

} // verus!
