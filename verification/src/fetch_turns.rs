//! What a `jj-gt fetch` pipeline asks for next, with what it was told, and what a
//! run that ends well has asked for.

use vstd::prelude::*;

use crate::cleanup::{ActionView, FetchOptsView};
use crate::command::{CommandView, ReplyView};
use crate::error::ErrorView;
use crate::fetch_frames::group_frames;
use crate::fetch_laws::{
    after_reply, fetch_after, fetch_is_sound, is_tail, lemma_tail, lemma_whole_is_tail, prunes,
    sound,
};
use crate::fetch_model::{
    backfill_steps, fetch_step, has_pr, outside_queue, preview_steps, prune_steps, FetchPhase,
    FetchView,
};
use crate::gh::{first_pr, PrView};
use crate::jj::{names_of, BookmarkView};
use crate::stack::{tracking_order, ParentView, StackedView};

verus! {

/// Whether the questions that are pending are put in the right words.
pub open spec fn worded(s: FetchView) -> bool {
    match s.phase {
        FetchPhase::Matching => s.todo == seq![
            CommandView::FindPrs { names: names_of(s.normal), limit: 200 },
        ] && s.normal.len() > 0,
        FetchPhase::Stacking => s.todo[0] is DeriveParents ==> s.todo[0]
            == (CommandView::DeriveParents { names: names_of(s.normal), trunk: s.opts.trunk }),
        FetchPhase::QueueMatching => s.todo == seq![
            CommandView::FindQueuePrs { prefixes: s.opts.gtmq_prefixes, limit: 500 },
        ] && s.queue.len() > 0,
        FetchPhase::Previewing => is_tail(s.todo, preview_steps(s.log)),
        _ => true,
    }
}

proof fn lemma_stays_worded(s: FetchView, reply: Result<ReplyView, ErrorView>)
    requires
        sound(s),
        worded(s),
    ensures
        worded(after_reply(s, reply)),
{
    broadcast use group_frames;

    reveal(after_reply);
    let n = after_reply(s, reply);
    if n.phase is Previewing {
        if s.phase is Previewing {
            lemma_tail(s.todo, preview_steps(s.log));
        } else {
            lemma_whole_is_tail(preview_steps(n.log));
        }
    }
}

pub(crate) proof fn lemma_worded(opts: FetchOptsView, replies: Seq<Result<ReplyView, ErrorView>>)
    ensures
        worded(fetch_after(opts, replies)),
    decreases replies.len(),
{
    if replies.len() > 0 {
        fetch_is_sound(opts, replies.drop_last());
        lemma_worded(opts, replies.drop_last());
        lemma_stays_worded(fetch_after(opts, replies.drop_last()), replies.last());
    }
}

/// Every question is about what it should be about: the search for pull requests and
/// the question for the stack name exactly the bookmarks outside the merge queue, in
/// order; the stack is asked for on the trunk of the request; the search for the
/// queue has the prefixes of the request; and the fetch goes to its remote.
pub proof fn fetch_asks_in_the_right_words(
    opts: FetchOptsView,
    replies: Seq<Result<ReplyView, ErrorView>>,
    i: int,
)
    requires
        0 <= i < fetch_after(opts, replies).normal.len(),
    ensures
        fetch_after(opts, replies).pending() matches Some(CommandView::FindPrs { names, limit })
            ==> limit == 200 && names.len() == fetch_after(opts, replies).normal.len() && names[i]
            == fetch_after(opts, replies).normal[i].name,
        fetch_after(opts, replies).pending() matches Some(
            CommandView::DeriveParents { names, trunk },
        ) ==> trunk == opts.trunk && names.len() == fetch_after(opts, replies).normal.len()
            && names[i] == fetch_after(opts, replies).normal[i].name,
{
    fetch_is_sound(opts, replies);
    lemma_worded(opts, replies);
    lemma_question_phases(fetch_after(opts, replies));
}

/// The phases in which the questions are asked.
pub(crate) proof fn lemma_question_phases(s: FetchView)
    requires
        sound(s),
    ensures
        s.pending() matches Some(command) ==> {
            &&& command is FindPrs ==> s.phase is Matching
            &&& command is DeriveParents ==> s.phase is Stacking
            &&& command is FindQueuePrs ==> s.phase is QueueMatching
            &&& command is GitFetch ==> s.phase is Fetching
            &&& command is GtTrack ==> s.phase is Backfilling
            &&& command is ConfirmDelete ==> s.phase is Orphans
        },
{
    if s.phase is Pruning {
        assert(prunes(s, s.todo[0]));
    }
}

/// Where no bookmark lies outside the merge queue, no pull request of one is searched
/// for, and the stack is asked for of none; the queue is searched by the prefixes of
/// the request, and the fetch goes to the remote of the request.
pub proof fn fetch_asks_by_the_request(
    opts: FetchOptsView,
    replies: Seq<Result<ReplyView, ErrorView>>,
)
    ensures
        fetch_after(opts, replies).pending() matches Some(CommandView::FindPrs { names, limit })
            ==> names.len() > 0 && limit == 200,
        fetch_after(opts, replies).pending() matches Some(
            CommandView::DeriveParents { names, trunk },
        ) ==> trunk == opts.trunk && names.len() == fetch_after(opts, replies).normal.len(),
        fetch_after(opts, replies).pending() matches Some(
            CommandView::FindQueuePrs { prefixes, limit },
        ) ==> prefixes == opts.gtmq_prefixes && limit == 500 && fetch_after(
            opts,
            replies,
        ).queue.len() > 0,
        fetch_after(opts, replies).pending() matches Some(CommandView::GitFetch { remote })
            ==> remote == opts.remote && replies.len() == 0,
{
    fetch_is_sound(opts, replies);
    lemma_worded(opts, replies);
    let s = fetch_after(opts, replies);
    lemma_question_phases(s);
    if s.phase is Fetching && replies.len() > 0 {
        fetch_is_sound(opts, replies.drop_last());
        lemma_fetching_comes_first(fetch_after(opts, replies.drop_last()), replies.last());
    }
}

proof fn lemma_fetching_comes_first(s: FetchView, reply: Result<ReplyView, ErrorView>)
    requires
        sound(s),
    ensures
        !(after_reply(s, reply).phase is Fetching),
{
    broadcast use group_frames;

    reveal(after_reply);
}

/// A bookmark is tracked only if it belongs to the stack that was found and has a
/// pull request, and it is tracked on what it is stacked on there.
pub proof fn fetch_tracks_pull_requests_only(
    opts: FetchOptsView,
    replies: Seq<Result<ReplyView, ErrorView>>,
    name: Seq<char>,
    parent: Seq<char>,
)
    requires
        fetch_after(opts, replies).pending() == Some(CommandView::GtTrack { name, parent }),
    ensures
        !opts.dry_run,
        !opts.no_backfill,
        exists|entry: StackedView|
            {
                &&& #[trigger] fetch_after(opts, replies).stacked.contains(entry)
                &&& entry.name == name
                &&& parent == (match entry.parent {
                    ParentView::Bookmark(bookmark) => bookmark,
                    ParentView::Trunk => opts.trunk,
                })
                &&& first_pr(fetch_after(opts, replies).prs, name) is Some
            },
{
    fetch_is_sound(opts, replies);
    let s = fetch_after(opts, replies);
    lemma_question_phases(s);
    let steps = backfill_steps(s.opts, s.prs, s.stacked);
    lemma_tail(s.todo, steps);
    let order = tracking_order(s.stacked);
    let kept = order.filter(has_pr(s.prs));
    let entry = kept[steps.len() - s.todo.len()];
    assert(kept.contains(entry));
    crate::text::lemma_filter_members(order, has_pr(s.prs), entry);
    crate::stack::lemma_order_holds_same_entries(s.stacked, entry);
    assert(s.stacked.contains(entry));
}

/// The user is asked about a bookmark that the log has up for deletion, with the pull
/// request and the commit that the log names.
pub proof fn fetch_asks_about_logged_deletions(
    opts: FetchOptsView,
    replies: Seq<Result<ReplyView, ErrorView>>,
    name: Seq<char>,
    pr: u32,
    merge_commit_id: Seq<char>,
)
    requires
        fetch_after(opts, replies).pending() == Some(
            CommandView::ConfirmDelete { name, pr, merge_commit_id },
        ),
    ensures
        !opts.auto,
        !opts.dry_run,
        exists|i: int|
            {
                &&& 0 <= i < fetch_after(opts, replies).log.len()
                &&& (#[trigger] fetch_after(opts, replies).log[i]).0.name == name
                &&& fetch_after(opts, replies).log[i].1 == (ActionView::OrphanDeleted {
                    pr,
                    merge_commit_id,
                })
            },
{
    fetch_is_sound(opts, replies);
    let s = fetch_after(opts, replies);
    lemma_question_phases(s);
    assert(s.log[s.cursor].0 == s.normal[s.cursor]);
    assert(s.log[s.cursor].0.name == name);
}

/// What comes after the fetch: the listing of the bookmarks. A fetch that fails ends
/// the run with that error.
pub proof fn fetch_lists_after_fetching(s: FetchView, error: ErrorView)
    requires
        sound(s),
        s.phase is Fetching,
    ensures
        fetch_step(s, Ok(ReplyView::Done)).pending() == Some(CommandView::ListBookmarks),
        fetch_step(s, Ok(ReplyView::Done)).phase is Listing,
        !s.opts.dry_run ==> fetch_step(s, Err(error)).pending() is None && fetch_step(
            s,
            Err(error),
        ).error == Some(error),
{
}

/// What comes after the listing: where some bookmark does not begin with a queue
/// prefix, the search for the pull requests of all such bookmarks.
pub proof fn fetch_searches_after_listing(
    s: FetchView,
    bookmarks: Seq<BookmarkView>,
    b: BookmarkView,
)
    requires
        sound(s),
        s.phase is Listing,
        bookmarks.contains(b),
        forall|i: int|
            0 <= i < s.opts.gtmq_prefixes.len() ==> !(
            #[trigger] s.opts.gtmq_prefixes[i]).is_prefix_of(b.name),
    ensures
        ({
            let n = fetch_step(s, Ok(ReplyView::Bookmarks(bookmarks)));
            &&& n.phase is Matching
            &&& n.normal.contains(b)
            &&& !n.queue.contains(b)
            &&& n.pending() matches Some(CommandView::FindPrs { names, limit }) && limit == 200
                && names.contains(b.name) && names.len() == n.normal.len()
        }),
{
    crate::fetch_asks::queue_is_set_apart(bookmarks, s.opts.gtmq_prefixes, b);
    let normal = bookmarks.filter(outside_queue(s.opts.gtmq_prefixes));
    let i = choose|i: int| 0 <= i < normal.len() && normal[i] == b;
    assert(names_of(normal)[i] == b.name);
}

/// What comes after the pull requests: the question for the stack, wherever bookmarks
/// are to be tracked, or rebased in a real run; else nothing but the classification.
pub proof fn fetch_asks_for_the_stack_when_needed(s: FetchView, prs: Seq<PrView>)
    requires
        sound(s),
        s.phase is Matching,
        worded(s),
    ensures
        ({
            let n = fetch_step(s, Ok(ReplyView::Prs(prs)));
            &&& n.prs == prs
            &&& !s.opts.no_backfill || (!s.opts.no_rebase && !s.opts.dry_run) ==> n.pending()
                == Some(
                CommandView::DeriveParents { names: names_of(s.normal), trunk: s.opts.trunk },
            )
            &&& s.opts.no_backfill && (s.opts.no_rebase || s.opts.dry_run) ==> n.phase is Marking
                || n.phase is Syncing
        }),
{
    broadcast use group_frames;

}

/// What comes after the sync: where queue-test branches are there and are to be
/// pruned, the search for their pull requests; else the second listing, or the end of
/// a dry run.
pub proof fn fetch_searches_the_queue_after_syncing(s: FetchView)
    requires
        sound(s),
        s.phase is Syncing,
        s.todo.len() == 1,
    ensures
        ({
            let n = fetch_step(s, Ok(ReplyView::Done));
            &&& !s.opts.no_gtmq_prune && s.queue.len() > 0 ==> n.pending() == Some(
                CommandView::FindQueuePrs { prefixes: s.opts.gtmq_prefixes, limit: 500 },
            )
            &&& (s.opts.no_gtmq_prune || s.queue.len() == 0) && !s.opts.dry_run ==> n.pending()
                == Some(CommandView::ListBookmarks) && n.phase is Relisting
        }),
{
}

/// What comes after the classification: `gt sync`, or in a dry run the line that says
/// so.
pub proof fn fetch_syncs_with_force_and_without_restack(
    opts: FetchOptsView,
    replies: Seq<Result<ReplyView, ErrorView>>,
)
    requires
        fetch_after(opts, replies).phase is Syncing,
    ensures
        opts.dry_run ==> fetch_after(opts, replies).pending() == Some(
            CommandView::Log("[dry-run] would: gt sync --no-restack --force"@),
        ),
        !opts.dry_run ==> fetch_after(opts, replies).pending() == Some(CommandView::GtSync)
            || fetch_after(opts, replies).pending() == Some(CommandView::GitImport),
{
    fetch_is_sound(opts, replies);
}

/// What comes after the pull requests of the queue: every queue-test branch is in the
/// log with its decision, behind what was there, and the pruning begins with the
/// first branch that is to go.
pub proof fn fetch_prunes_after_searching_the_queue(s: FetchView, prs: Seq<PrView>, i: int)
    requires
        sound(s),
        s.phase is QueueMatching,
        0 <= i < s.queue.len(),
    ensures
        ({
            let n = fetch_step(s, Ok(ReplyView::Prs(prs)));
            &&& n.queue_prs == prs
            &&& n.log.len() == s.log.len() + s.queue.len()
            &&& n.log[s.log.len() + i].0 == s.queue[i]
            &&& n.log[s.log.len() + i].1 is GtmqLeftAlone <==> (first_pr(prs, s.queue[i].name)
                is Some && first_pr(prs, s.queue[i].name)->0.state is Open)
            &&& prune_steps(s.opts, s.queue, prs).len() > 0 ==> n.phase is Pruning
                && n.pending() == Some(prune_steps(s.opts, s.queue, prs)[0])
        }),
{
    crate::fetch_asks::queue_is_logged_in_order(s.queue, prs, i);
}

/// A reply of the wrong kind ends the run, and is told as such.
pub proof fn fetch_refuses_other_replies(s: FetchView, reply: ReplyView)
    requires
        s.pending() matches Some(command) && !command.expects(reply),
    ensures
        fetch_step(s, Ok(reply)).pending() is None,
        fetch_step(s, Ok(reply)).error == Some(ErrorView::UnexpectedReply),
        fetch_step(s, Ok(reply)).log == s.log,
{
}

/// A run that has ended stays as it is.
pub proof fn fetch_ends_for_good(s: FetchView, reply: Result<ReplyView, ErrorView>)
    requires
        s.pending() is None,
    ensures
        fetch_step(s, reply) == s,
{
}

/// The first entry of the log that stands for a deletion comes first when the rest is
/// done: it is asked about, or deleted at once where `auto` is set.
pub proof fn fetch_goes_through_the_deletions(
    opts: FetchOptsView,
    replies: Seq<Result<ReplyView, ErrorView>>,
)
    requires
        fetch_after(opts, replies).phase is Orphans,
    ensures
        ({
            let s = fetch_after(opts, replies);
            &&& 0 <= s.cursor < s.log.len()
            &&& s.log[s.cursor].1 matches ActionView::OrphanDeleted { pr, merge_commit_id }
            &&& opts.auto ==> s.pending() == Some(
                CommandView::DeleteBookmark { name: s.log[s.cursor].0.name },
            )
            &&& !opts.auto ==> s.pending() == Some(
                CommandView::ConfirmDelete { name: s.log[s.cursor].0.name, pr, merge_commit_id },
            ) || s.pending() == Some(
                CommandView::DeleteBookmark { name: s.log[s.cursor].0.name },
            )
        }),
{
    fetch_is_sound(opts, replies);
    let s = fetch_after(opts, replies);
    assert(s.log[s.cursor].0 == s.normal[s.cursor]);
}

/// A yes is followed by the deletion of that very bookmark; a no by none, and the log
/// says so.
pub proof fn fetch_follows_the_answer(s: FetchView)
    requires
        sound(s),
        s.phase is Orphans,
        s.todo[0] is ConfirmDelete,
    ensures
        fetch_step(s, Ok(ReplyView::Answer(true))).pending() == Some(
            CommandView::DeleteBookmark { name: s.todo[0]->ConfirmDelete_name },
        ),
        fetch_step(s, Ok(ReplyView::Answer(true))).log == s.log,
        fetch_step(s, Ok(ReplyView::Answer(false))).log[s.cursor].0 == s.log[s.cursor].0,
        fetch_step(s, Ok(ReplyView::Answer(false))).log[s.cursor].1 == (
        ActionView::OrphanSkipped {
            pr: s.todo[0]->ConfirmDelete_pr,
            merge_commit_id: s.todo[0]->ConfirmDelete_merge_commit_id,
        }),
        fetch_step(s, Ok(ReplyView::Answer(false))).cursor != s.cursor || fetch_step(
            s,
            Ok(ReplyView::Answer(false)),
        ).phase is Finished,
{
    broadcast use group_frames;

    assert(s.log[s.cursor].0 == s.normal[s.cursor]);
}

} // verus!
