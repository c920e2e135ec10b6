//! In what order a `jj-gt fetch` pipeline goes about its work, and which bookmarks
//! it rebases.

use vstd::prelude::*;

use crate::cleanup::FetchOptsView;
use crate::command::{CommandView, ReplyView};
use crate::error::ErrorView;
use crate::fetch_history::{
    answered, fetch_remembers, lemma_answered_now, lemma_answered_stays, lemma_asked_stays,
    lemma_reaches_relisting, lemma_step_keeps, past_relisting, told_in, was_asked,
};
use crate::fetch_frames::group_frames;
use crate::fetch_laws::{
    after_reply, fetch_after, fetch_is_sound, lemma_tail, phases_left, prunes, rebases_done, sound,
};
use crate::fetch_model::{
    backfill_steps, has_pr, is_orphaned, orphaned, rebase_steps, FetchPhase, FetchView,
};
use crate::gh::first_pr;
use crate::jj::BookmarkView;
use crate::stack::{tracking_order, StackedView};

verus! {

/// Whether `command` deletes or moves a bookmark, or asks about it.
pub open spec fn cleans_up(command: CommandView) -> bool {
    command is DeleteBookmark || command is DeleteRemoteBranch || command is Rebase
        || command is ConfirmDelete
}

/// Whether the sync took place with the reply at `a`, and the import right after
/// it, both with success; every bookmark was tracked before, and whatever cleans
/// up came after.
pub open spec fn synced_at(
    opts: FetchOptsView,
    replies: Seq<Result<ReplyView, ErrorView>>,
    a: int,
) -> bool {
    &&& answered(opts, replies, a, CommandView::GtSync)
    &&& replies[a] is Ok
    &&& answered(opts, replies, a + 1, CommandView::GitImport)
    &&& replies[a + 1] is Ok
    &&& forall|k: int, command: CommandView| #[trigger]
        answered(opts, replies, k, command) ==> (command is GtTrack ==> k < a) && (cleans_up(
            command,
        ) ==> k > a + 1)
}

proof fn lemma_half_synced(opts: FetchOptsView, replies: Seq<Result<ReplyView, ErrorView>>)
    requires
        !opts.dry_run,
        fetch_after(opts, replies).phase is Syncing,
        fetch_after(opts, replies).todo.len() == 1,
    ensures
        replies.len() > 0,
        answered(opts, replies, replies.len() - 1, CommandView::GtSync),
        replies.last() is Ok,
{
    let front = replies.drop_last();
    let s = fetch_after(opts, front);
    fetch_is_sound(opts, front);
    lemma_sync_begins_whole(s, replies.last());
    lemma_answered_now(opts, replies);
}

/// A sync begins with both its commands, and an import is all that is left of it
/// once the sync went through.
proof fn lemma_sync_begins_whole(s: FetchView, reply: Result<ReplyView, ErrorView>)
    requires
        sound(s),
        !s.opts.dry_run,
        after_reply(s, reply).phase is Syncing,
        after_reply(s, reply).todo.len() == 1,
    ensures
        s.pending() == Some(CommandView::GtSync),
        reply is Ok,
{
    broadcast use group_frames;

    reveal(after_reply);
}

/// The pipeline gets past the sync with the import, which went through.
proof fn lemma_leaves_sync(s: FetchView, reply: Result<ReplyView, ErrorView>)
    requires
        sound(s),
        !s.opts.dry_run,
        phases_left(s.phase) > 5,
        phases_left(after_reply(s, reply).phase) <= 5,
        after_reply(s, reply).error is None,
    ensures
        s.phase is Syncing,
        s.pending() == Some(CommandView::GitImport),
        s.todo.len() == 1,
        reply is Ok,
{
    broadcast use group_frames;

    reveal(after_reply);
}

proof fn lemma_synced(opts: FetchOptsView, replies: Seq<Result<ReplyView, ErrorView>>) -> (a: int)
    requires
        !opts.dry_run,
        fetch_after(opts, replies).error is None,
        phases_left(fetch_after(opts, replies).phase) <= 5,
    ensures
        answered(opts, replies, a, CommandView::GtSync),
        replies[a] is Ok,
        answered(opts, replies, a + 1, CommandView::GitImport),
        replies[a + 1] is Ok,
    decreases replies.len(),
{
    let front = replies.drop_last();
    let s = fetch_after(opts, front);
    fetch_is_sound(opts, front);
    lemma_step_keeps(s, replies.last());
    if phases_left(s.phase) <= 5 {
        let a = lemma_synced(opts, front);
        lemma_answered_stays(opts, replies, a, CommandView::GtSync);
        lemma_answered_stays(opts, replies, a + 1, CommandView::GitImport);
        a
    } else {
        lemma_leaves_sync(s, replies.last());
        lemma_half_synced(opts, front);
        lemma_answered_now(opts, replies);
        lemma_answered_stays(opts, replies, front.len() - 1, CommandView::GtSync);
        front.len() - 1
    }
}

/// The phase in which a command is asked for, as far as it can be told from the
/// command.
proof fn lemma_phase_of(s: FetchView, command: CommandView)
    requires
        sound(s),
        s.pending() == Some(command),
    ensures
        command is GtTrack ==> s.phase is Backfilling,
        command is GtSync || command is GitImport ==> s.phase is Syncing,
        cleans_up(command) ==> phases_left(s.phase) <= 4,
{
    if s.phase is Pruning {
        assert(prunes(s, s.todo[0]));
    }
}

/// No later reply finds the pipeline in an earlier phase.
proof fn lemma_phases_pass(
    opts: FetchOptsView,
    replies: Seq<Result<ReplyView, ErrorView>>,
    i: int,
    k: int,
)
    requires
        0 <= i <= k <= replies.len(),
    ensures
        phases_left(fetch_after(opts, replies.take(k)).phase) <= phases_left(
            fetch_after(opts, replies.take(i)).phase,
        ),
{
    if i < k {
        let upto = replies.take(k);
        assert(upto.take(i) =~= replies.take(i));
        fetch_remembers(opts, upto, i, ReplyView::Done);
    }
}

/// The sync stands in between: a real run that ends well, or that is about to
/// clean something up, has asked for `gt sync` and right after it for the import
/// of what the sync deleted, both with success, after the last bookmark was
/// tracked and before any deletion or rebase.
pub proof fn fetch_syncs_in_between(
    opts: FetchOptsView,
    replies: Seq<Result<ReplyView, ErrorView>>,
)
    requires
        !opts.dry_run,
        fetch_after(opts, replies).error is None,
        fetch_after(opts, replies).phase is Finished || (fetch_after(
            opts,
            replies,
        ).pending() matches Some(command) && cleans_up(command)),
    ensures
        exists|a: int| synced_at(opts, replies, a),
{
    fetch_is_sound(opts, replies);
    if let Some(command) = fetch_after(opts, replies).pending() {
        lemma_phase_of(fetch_after(opts, replies), command);
    }
    let a = lemma_synced(opts, replies);
    assert forall|k: int, command: CommandView| #[trigger]
        answered(opts, replies, k, command) implies (command is GtTrack ==> k < a) && (cleans_up(
        command,
    ) ==> k > a + 1) by {
        fetch_is_sound(opts, replies.take(k));
        fetch_is_sound(opts, replies.take(a));
        fetch_is_sound(opts, replies.take(a + 1));
        lemma_phase_of(fetch_after(opts, replies.take(k)), command);
        lemma_phase_of(fetch_after(opts, replies.take(a)), CommandView::GtSync);
        lemma_phase_of(fetch_after(opts, replies.take(a + 1)), CommandView::GitImport);
        if a <= k {
            lemma_phases_pass(opts, replies, a, k);
        }
        if k <= a + 1 {
            lemma_phases_pass(opts, replies, k, a + 1);
        }
    }
    assert(synced_at(opts, replies, a));
}

proof fn lemma_was_relisted(opts: FetchOptsView, replies: Seq<Result<ReplyView, ErrorView>>) -> (k:
    int)
    requires
        !opts.no_rebase,
        past_relisting(fetch_after(opts, replies)),
    ensures
        told_in(
            opts,
            replies,
            k,
            FetchPhase::Relisting,
            ReplyView::Bookmarks(fetch_after(opts, replies).remaining),
        ),
    decreases replies.len(),
{
    let front = replies.drop_last();
    let s = fetch_after(opts, front);
    fetch_is_sound(opts, front);
    lemma_reaches_relisting(s, replies.last());
    lemma_step_keeps(s, replies.last());
    if past_relisting(s) {
        let k = lemma_was_relisted(opts, front);
        assert(front.take(k) =~= replies.take(k));
        k
    } else {
        lemma_leaves_relisting(s, replies.last());
        assert(replies.take(replies.len() - 1) =~= front);
        replies.len() - 1
    }
}

proof fn lemma_learns_stack(s: FetchView, reply: Result<ReplyView, ErrorView>)
    requires
        sound(s),
        s.phase is Stacking,
        after_reply(s, reply).stacked.len() > 0,
        after_reply(s, reply).stacked != s.stacked,
    ensures
        s.pending() matches Some(command) && command is DeriveParents,
        reply == Ok::<ReplyView, ErrorView>(ReplyView::Parents(after_reply(s, reply).stacked)),
{
    broadcast use group_frames;

    reveal(after_reply);
}

proof fn lemma_was_stacked(opts: FetchOptsView, replies: Seq<Result<ReplyView, ErrorView>>) -> (i:
    int)
    requires
        fetch_after(opts, replies).stacked.len() > 0,
    ensures
        told_in(
            opts,
            replies,
            i,
            FetchPhase::Stacking,
            ReplyView::Parents(fetch_after(opts, replies).stacked),
        ),
    decreases replies.len(),
{
    let front = replies.drop_last();
    let s = fetch_after(opts, front);
    fetch_is_sound(opts, front);
    lemma_step_keeps(s, replies.last());
    if fetch_after(opts, replies).stacked != s.stacked {
        lemma_learns_stack(s, replies.last());
        assert(replies.take(replies.len() - 1) =~= front);
        replies.len() - 1
    } else {
        let i = lemma_was_stacked(opts, front);
        assert(front.take(i) =~= replies.take(i));
        i
    }
}

/// Only orphaned children are rebased, and only onto trunk: a bookmark whose
/// rebase is asked for is held by the second listing, and it was found to be
/// stacked on a bookmark that this listing does not hold. Nothing is rebased in a
/// dry run, or where that is switched off.
pub proof fn fetch_rebases_orphans_only(
    opts: FetchOptsView,
    replies: Seq<Result<ReplyView, ErrorView>>,
    revset: Seq<char>,
    destination: Seq<char>,
)
    requires
        fetch_after(opts, replies).pending() == Some(CommandView::Rebase { revset, destination }),
    ensures
        destination == opts.trunk,
        !opts.no_rebase,
        !opts.dry_run,
        ({
            let s = fetch_after(opts, replies);
            &&& exists|b: BookmarkView|
                s.remaining.contains(b) && b.name == revset && #[trigger] orphaned(
                    s.stacked,
                    s.remaining,
                    b,
                )
            &&& exists|i: int|
                told_in(opts, replies, i, FetchPhase::Stacking, ReplyView::Parents(s.stacked))
            &&& exists|k: int|
                told_in(
                    opts,
                    replies,
                    k,
                    FetchPhase::Relisting,
                    ReplyView::Bookmarks(s.remaining),
                )
        }),
{
    let s = fetch_after(opts, replies);
    fetch_is_sound(opts, replies);
    if s.phase is Pruning {
        assert(prunes(s, s.todo[0]));
    }
    assert(s.phase is Rebasing);
    let keep = is_orphaned(s.stacked, s.remaining);
    let orphans = s.remaining.filter(keep);
    lemma_tail(s.todo, rebase_steps(s.opts, s.stacked, s.remaining));
    let b = orphans[rebases_done(s)];
    assert(orphans.contains(b));
    crate::text::lemma_filter_members(s.remaining, keep, b);
    assert(orphaned(s.stacked, s.remaining, b));
    let i = lemma_was_stacked(opts, replies);
    let k = lemma_was_relisted(opts, replies);
}

/// The rebases go on one by one: each is done, or failed and is noted first.
proof fn lemma_rebases_go_on(s: FetchView, reply: Result<ReplyView, ErrorView>)
    requires
        sound(s),
        s.phase is Rebasing,
        past_relisting(after_reply(s, reply)),
    ensures
        ({
            let n = after_reply(s, reply);
            if n.phase is Rebasing {
                n.todo.len() == s.todo.len() - 1 && !(n.todo[0] is Log) || (n.todo.len()
                    == s.todo.len() && n.todo[0] is Log && !(s.todo[0] is Log))
            } else {
                s.todo.len() == 1
            }
        }),
{
    broadcast use group_frames;

    reveal(after_reply);
}

proof fn lemma_all_rebased(opts: FetchOptsView, replies: Seq<Result<ReplyView, ErrorView>>, i: int)
    requires
        past_relisting(fetch_after(opts, replies)),
        ({
            let s = fetch_after(opts, replies);
            &&& 0 <= i < rebase_steps(opts, s.stacked, s.remaining).len()
            &&& s.phase is Rebasing ==> i < rebases_done(s) || (i == rebases_done(s)
                && s.todo[0] is Log)
        }),
    ensures
        ({
            let s = fetch_after(opts, replies);
            was_asked(opts, replies, rebase_steps(opts, s.stacked, s.remaining)[i])
        }),
    decreases replies.len(),
{
    let front = replies.drop_last();
    let s = fetch_after(opts, front);
    let n = fetch_after(opts, replies);
    fetch_is_sound(opts, front);
    fetch_is_sound(opts, replies);
    lemma_reaches_relisting(s, replies.last());
    lemma_step_keeps(s, replies.last());
    let steps = rebase_steps(opts, n.stacked, n.remaining);
    if s.phase is Rebasing && !(s.todo[0] is Log) {
        lemma_tail(s.todo, steps);
    }
    lemma_asked_stays(opts, replies, steps[i]);
    if past_relisting(s) {
        if s.phase is Rebasing && i == rebases_done(s) && !(s.todo[0] is Log) {
            lemma_answered_now(opts, replies);
        } else {
            if s.phase is Rebasing {
                lemma_rebases_go_on(s, replies.last());
            }
            lemma_all_rebased(opts, front, i);
        }
    } else {
        lemma_leaves_relisting(s, replies.last());
    }
}

/// The rebases begin whole: from the second listing, either all of them lie ahead,
/// or there are none.
proof fn lemma_leaves_relisting(s: FetchView, reply: Result<ReplyView, ErrorView>)
    requires
        sound(s),
        s.phase is Relisting,
        past_relisting(after_reply(s, reply)),
    ensures
        ({
            let n = after_reply(s, reply);
            let steps = rebase_steps(n.opts, n.stacked, n.remaining);
            &&& if n.phase is Rebasing {
                n.todo == steps && !(n.todo[0] is Log)
            } else {
                steps.len() == 0
            }
            &&& !s.opts.no_rebase ==> s.pending() == Some(CommandView::ListBookmarks) && reply
                == Ok::<ReplyView, ErrorView>(ReplyView::Bookmarks(n.remaining))
        }),
{
    broadcast use group_frames;

    reveal(after_reply);
}

/// Every orphaned child is rebased: in a real run that ends well, and unless that
/// is switched off, the rebase onto trunk has been asked for of each bookmark
/// that the second listing holds and that was stacked on one which it does not
/// hold.
pub proof fn fetch_rebases_every_orphan(
    opts: FetchOptsView,
    replies: Seq<Result<ReplyView, ErrorView>>,
    b: BookmarkView,
)
    requires
        !opts.dry_run,
        !opts.no_rebase,
        fetch_after(opts, replies).phase is Finished,
        fetch_after(opts, replies).error is None,
        fetch_after(opts, replies).remaining.contains(b),
        orphaned(fetch_after(opts, replies).stacked, fetch_after(opts, replies).remaining, b),
    ensures
        was_asked(
            opts,
            replies,
            CommandView::Rebase { revset: b.name, destination: opts.trunk },
        ),
{
    let s = fetch_after(opts, replies);
    fetch_is_sound(opts, replies);
    let keep = is_orphaned(s.stacked, s.remaining);
    crate::text::lemma_filter_members(s.remaining, keep, b);
    let orphans = s.remaining.filter(keep);
    let i = choose|i: int| 0 <= i < orphans.len() && orphans[i] == b;
    lemma_all_rebased(opts, replies, i);
}

/// Whether `command` has been carried out with success.
pub open spec fn was_done(
    opts: FetchOptsView,
    replies: Seq<Result<ReplyView, ErrorView>>,
    command: CommandView,
) -> bool {
    exists|k: int| #[trigger] answered(opts, replies, k, command) && replies[k] is Ok
}

/// The tracking begins whole and goes on one by one, each with success; it is not
/// left out.
proof fn lemma_backfill_goes_on(s: FetchView, reply: Result<ReplyView, ErrorView>)
    requires
        sound(s),
        !s.opts.dry_run,
        !s.opts.no_backfill,
        phases_left(s.phase) > 7,
        phases_left(after_reply(s, reply).phase) <= 8,
        after_reply(s, reply).error is None,
    ensures
        ({
            let n = after_reply(s, reply);
            let steps = backfill_steps(n.opts, n.prs, n.stacked);
            if s.phase is Backfilling {
                &&& reply is Ok
                &&& if n.phase is Backfilling {
                    n.todo.len() == s.todo.len() - 1
                } else {
                    s.todo.len() == 1
                }
            } else {
                if n.phase is Backfilling {
                    n.todo == steps
                } else {
                    steps.len() == 0
                }
            }
        }),
{
    broadcast use group_frames;

    reveal(after_reply);
}

pub(crate) proof fn lemma_all_tracked(
    opts: FetchOptsView,
    replies: Seq<Result<ReplyView, ErrorView>>,
    i: int,
)
    requires
        !opts.dry_run,
        !opts.no_backfill,
        fetch_after(opts, replies).error is None,
        phases_left(fetch_after(opts, replies).phase) <= 8,
        ({
            let s = fetch_after(opts, replies);
            let steps = backfill_steps(opts, s.prs, s.stacked);
            &&& 0 <= i < steps.len()
            &&& s.phase is Backfilling ==> i < steps.len() - s.todo.len()
        }),
    ensures
        ({
            let s = fetch_after(opts, replies);
            was_done(opts, replies, backfill_steps(opts, s.prs, s.stacked)[i])
        }),
    decreases replies.len(),
{
    let front = replies.drop_last();
    let s = fetch_after(opts, front);
    let n = fetch_after(opts, replies);
    fetch_is_sound(opts, front);
    fetch_is_sound(opts, replies);
    lemma_step_keeps(s, replies.last());
    if phases_left(s.phase) > 7 {
        lemma_backfill_goes_on(s, replies.last());
    }
    let steps = backfill_steps(opts, n.prs, n.stacked);
    if s.phase is Backfilling && i == steps.len() - s.todo.len() {
        lemma_tail(s.todo, steps);
        lemma_answered_now(opts, replies);
        assert(answered(opts, replies, replies.len() - 1, steps[i]));
    } else {
        lemma_all_tracked(opts, front, i);
        let k = choose|k: int| #[trigger]
            answered(opts, front, k, steps[i]) && front[k] is Ok;
        lemma_answered_stays(opts, replies, k, steps[i]);
    }
}

/// The backfill is carried out: in a real run that ends well, and unless that is
/// switched off, every bookmark of the stack that has a pull request has been
/// tracked, with success, on what it is stacked on.
pub proof fn fetch_tracks_every_pull_request(
    opts: FetchOptsView,
    replies: Seq<Result<ReplyView, ErrorView>>,
    entry: StackedView,
)
    requires
        !opts.dry_run,
        !opts.no_backfill,
        fetch_after(opts, replies).phase is Finished,
        fetch_after(opts, replies).error is None,
        fetch_after(opts, replies).stacked.contains(entry),
        first_pr(fetch_after(opts, replies).prs, entry.name) is Some,
    ensures
        was_done(
            opts,
            replies,
            CommandView::GtTrack {
                name: entry.name,
                parent: entry.parent.branch_name(opts.trunk),
            },
        ),
{
    let s = fetch_after(opts, replies);
    let order = tracking_order(s.stacked);
    let keep = has_pr(s.prs);
    crate::stack::lemma_order_holds_same_entries(s.stacked, entry);
    crate::text::lemma_filter_members(order, keep, entry);
    let kept = order.filter(keep);
    let i = choose|i: int| 0 <= i < kept.len() && kept[i] == entry;
    lemma_all_tracked(opts, replies, i);
}

} // verus!
