//! What a `jj-gt fetch` pipeline asks for, word by word: the lines, the lists and
//! the commands, in terms of what was requested and what was replied.

use vstd::prelude::*;

use crate::cleanup::{has_prefix, ActionView, FetchOptsView};
use crate::command::CommandView;
use crate::error::ErrorView;
use crate::fetch_model::{
    backfill_steps, failure_note, fetch_start, has_pr, inside_queue, is_orphan, is_orphaned,
    log_views, lost_parent, needs_stack, orphaned, outside_queue, preview_steps, prune_step,
    prune_steps, queue_log, rebase_steps, skipped, synced_log, track_step, FetchView,
    LogEntry, LogView, PR_LIMIT, QUEUE_PR_LIMIT,
};
use crate::gh::{first_pr, PrView};
use crate::jj::{names_of, BookmarkView};
use crate::stack::{tracking_order, ParentView, StackedView};

verus! {

/// A run begins with the fetch from the remote of the request; a dry run with the
/// line that says so. Nothing is known yet.
pub proof fn fetch_begins_with_the_remote(opts: FetchOptsView)
    ensures
        !opts.dry_run ==> fetch_start(opts).pending() == Some(
            CommandView::GitFetch { remote: opts.remote },
        ),
        opts.dry_run ==> fetch_start(opts).pending() == Some(
            CommandView::Log("[dry-run] would: jj git fetch --remote "@ + opts.remote),
        ),
        fetch_start(opts).opts == opts,
        fetch_start(opts).log.len() == 0,
        fetch_start(opts).error is None,
{
}

/// At most two hundred pull requests are asked for, and five hundred for the merge
/// queue.
pub proof fn searches_are_limited()
    ensures
        PR_LIMIT == 200,
        QUEUE_PR_LIMIT == 500,
{
}

/// A bookmark is tracked on what it is stacked on; a dry run says so in the log.
pub proof fn backfill_names_bookmark_then_parent(opts: FetchOptsView, entry: StackedView)
    ensures
        ({
            let parent = match entry.parent {
                ParentView::Bookmark(parent) => parent,
                ParentView::Trunk => opts.trunk,
            };
            if opts.dry_run {
                &&& track_step(opts, entry) == CommandView::Log(
                    "[dry-run] would: gt track "@ + entry.name + " --parent "@ + parent,
                )
                &&& track_step(opts, entry)->Log_0.len() == entry.name.len() + parent.len() + 36
                &&& track_step(opts, entry)->Log_0.skip(26).take(entry.name.len() as int)
                    == entry.name
                &&& track_step(opts, entry)->Log_0.skip(entry.name.len() as int + 36) == parent
            } else {
                track_step(opts, entry) == (CommandView::GtTrack { name: entry.name, parent })
            }
        }),
{
    reveal_strlit("[dry-run] would: gt track ");
    reveal_strlit(" --parent ");
    if opts.dry_run {
        let line = track_step(opts, entry)->Log_0;
        let parent = entry.parent.branch_name(opts.trunk);
        assert(line.skip(26).take(entry.name.len() as int) =~= entry.name);
        assert(line.skip(entry.name.len() as int + 36) =~= parent);
    }
}

/// A stacked bookmark is tracked exactly if some pull request has it as its branch:
/// each step is the one for such a bookmark of the stack, and every such bookmark has
/// its step.
pub proof fn backfill_follows_the_pull_requests(
    opts: FetchOptsView,
    prs: Seq<PrView>,
    stacked: Seq<StackedView>,
    entry: StackedView,
    k: int,
    i: int,
)
    requires
        stacked.contains(entry),
        0 <= k < prs.len(),
        prs[k].head_ref_name == entry.name,
        0 <= i < backfill_steps(opts, prs, stacked).len(),
    ensures
        backfill_steps(opts, prs, stacked).contains(track_step(opts, entry)),
        exists|e: StackedView, j: int|
            #![trigger stacked.contains(e), prs[j]]
            stacked.contains(e) && 0 <= j < prs.len() && prs[j].head_ref_name == e.name
                && backfill_steps(opts, prs, stacked)[i] == track_step(opts, e),
{
    let order = tracking_order(stacked);
    let kept = order.filter(has_pr(prs));
    crate::gh::listed_pr_is_found(prs, entry.name, k);
    crate::stack::lemma_order_holds_same_entries(stacked, entry);
    crate::text::lemma_filter_members(order, has_pr(prs), entry);
    let at = choose|at: int| 0 <= at < kept.len() && kept[at] == entry;
    assert(backfill_steps(opts, prs, stacked)[at] == track_step(opts, entry));
    let e = kept[i];
    assert(kept.contains(e));
    crate::text::lemma_filter_members(order, has_pr(prs), e);
    crate::stack::lemma_order_holds_same_entries(stacked, e);
    crate::gh::found_pr_is_listed(prs, e.name);
    let j = choose|j: int|
        0 <= j < prs.len() && #[trigger] prs[j] == first_pr(prs, e.name)->0;
    assert(stacked.contains(e));
    assert(prs[j].head_ref_name == e.name);
}

/// A queue-test branch is pruned unless its pull request is open: locally first, then
/// on the remote. A dry run says both in one line of the log.
pub proof fn pruning_deletes_here_and_there(
    opts: FetchOptsView,
    branch: BookmarkView,
    prs: Seq<PrView>,
)
    ensures
        first_pr(prs, branch.name) is Some && first_pr(prs, branch.name)->0.state is Open
            ==> prune_step(opts, branch, prs).len() == 0,
        !(first_pr(prs, branch.name) is Some && first_pr(prs, branch.name)->0.state is Open)
            && !opts.dry_run ==> prune_step(opts, branch, prs).len() == 2 && prune_step(
            opts,
            branch,
            prs,
        )[0] == (CommandView::DeleteBookmark { name: branch.name }) && prune_step(
            opts,
            branch,
            prs,
        )[1] == (CommandView::DeleteRemoteBranch { remote: opts.remote, name: branch.name }),
        !(first_pr(prs, branch.name) is Some && first_pr(prs, branch.name)->0.state is Open)
            && opts.dry_run ==> prune_step(opts, branch, prs).len() == 1 && prune_step(
            opts,
            branch,
            prs,
        )[0] == CommandView::Log(
            "[dry-run] would: jj bookmark delete "@ + branch.name + " && git push --delete "@
                + opts.remote + " "@ + branch.name,
        ),
{
}

/// Pruning goes branch by branch: one branch more adds its own commands at the end.
pub proof fn pruning_goes_branch_by_branch(
    opts: FetchOptsView,
    queue: Seq<BookmarkView>,
    branch: BookmarkView,
    prs: Seq<PrView>,
)
    ensures
        prune_steps(opts, Seq::empty(), prs).len() == 0,
        prune_steps(opts, queue.push(branch), prs) == prune_steps(opts, queue, prs) + prune_step(
            opts,
            branch,
            prs,
        ),
{
    assert(queue.push(branch).drop_last() =~= queue);
}

/// The log tells of each queue-test branch in order: it is left alone if its pull
/// request is open, and pruned else; either names the pull request, if there is one.
pub proof fn queue_is_logged_in_order(queue: Seq<BookmarkView>, prs: Seq<PrView>, i: int)
    requires
        0 <= i < queue.len(),
    ensures
        queue_log(queue, prs).len() == queue.len(),
        queue_log(queue, prs)[i].0 == queue[i],
        match first_pr(prs, queue[i].name) {
            Some(pr) => queue_log(queue, prs)[i].1 == if pr.state is Open {
                ActionView::GtmqLeftAlone { pr: pr.number }
            } else {
                ActionView::GtmqPruned { had_pr: Some(pr.number) }
            },
            None => queue_log(queue, prs)[i].1 == (ActionView::GtmqPruned { had_pr: None }),
        },
{
}

/// A bookmark is orphaned exactly if it was found to be stacked on a bookmark whose
/// name is none of those that remain; on trunk it cannot be.
pub proof fn orphans_have_lost_their_parent(
    stacked: Seq<StackedView>,
    remaining: Seq<BookmarkView>,
    b: BookmarkView,
    i: int,
)
    requires
        0 <= i < stacked.len(),
        stacked[i].name == b.name,
    ensures
        stacked[i].parent matches ParentView::Bookmark(parent) ==> (forall|k: int|
            0 <= k < remaining.len() ==> (#[trigger] remaining[k]).name != parent) ==> orphaned(
            stacked,
            remaining,
            b,
        ),
        orphaned(stacked, remaining, b) && (forall|j: int|
            0 <= j < stacked.len() && (#[trigger] stacked[j]).name == b.name ==> j == i) ==> (
        stacked[i].parent matches ParentView::Bookmark(parent) && (forall|k: int|
            0 <= k < remaining.len() ==> (#[trigger] remaining[k]).name != parent)),
{
    let names = names_of(remaining);
    if let ParentView::Bookmark(parent) = stacked[i].parent {
        if forall|k: int| 0 <= k < remaining.len() ==> (#[trigger] remaining[k]).name != parent {
            assert forall|k: int| 0 <= k < names.len() implies names[k] != parent by {
                assert(names[k] == remaining[k].name);
            }
            assert(lost_parent(stacked[i], remaining, b.name));
        }
    }
    if orphaned(stacked, remaining, b) && (forall|j: int|
        0 <= j < stacked.len() && (#[trigger] stacked[j]).name == b.name ==> j == i) {
        let j = choose|j: int|
            0 <= j < stacked.len() && lost_parent(#[trigger] stacked[j], remaining, b.name);
        assert(j == i);
        let parent = stacked[i].parent->Bookmark_0;
        assert forall|k: int| 0 <= k < remaining.len() implies (#[trigger] remaining[k]).name
            != parent by {
            assert(names[k] == remaining[k].name);
        }
    }
}

/// Rebasing goes onto trunk, and goes for the orphaned ones among the bookmarks that
/// remain, and for all of them; switched off, it goes for none.
pub proof fn rebases_go_for_orphans(
    opts: FetchOptsView,
    stacked: Seq<StackedView>,
    remaining: Seq<BookmarkView>,
    b: BookmarkView,
    i: int,
)
    ensures
        opts.no_rebase ==> rebase_steps(opts, stacked, remaining).len() == 0,
        !opts.no_rebase && remaining.contains(b) && orphaned(stacked, remaining, b)
            ==> rebase_steps(opts, stacked, remaining).contains(
            CommandView::Rebase { revset: b.name, destination: opts.trunk },
        ),
        0 <= i < rebase_steps(opts, stacked, remaining).len() ==> exists|c: BookmarkView|
            remaining.contains(c) && #[trigger] orphaned(stacked, remaining, c) && rebase_steps(
                opts,
                stacked,
                remaining,
            )[i] == (CommandView::Rebase { revset: c.name, destination: opts.trunk }),
{
    let keep = is_orphaned(stacked, remaining);
    let orphans = remaining.filter(keep);
    let steps = rebase_steps(opts, stacked, remaining);
    crate::text::lemma_filter_members(remaining, keep, b);
    if !opts.no_rebase && remaining.contains(b) && orphaned(stacked, remaining, b) {
        assert(orphans.contains(b));
        let at = choose|at: int| 0 <= at < orphans.len() && orphans[at] == b;
        assert(steps[at] == CommandView::Rebase { revset: b.name, destination: opts.trunk });
    }
    if 0 <= i < steps.len() {
        let c = orphans[i];
        assert(orphans.contains(c));
        crate::text::lemma_filter_members(remaining, keep, c);
        assert(orphaned(stacked, remaining, c));
    }
}

/// A dry run tells of each deletion in the log, in order, and of nothing else.
pub proof fn preview_tells_of_deletions(log: Seq<LogView>, entry: LogView)
    ensures
        preview_steps(Seq::empty()).len() == 0,
        entry.1 is OrphanDeleted ==> preview_steps(log.push(entry)) == preview_steps(log).push(
            CommandView::Log("[dry-run] would: jj bookmark delete "@ + entry.0.name),
        ),
        !(entry.1 is OrphanDeleted) ==> preview_steps(log.push(entry)) == preview_steps(log),
{
    let more = log.push(entry);
    crate::text::lemma_filter_step(more, is_orphan(), log.len() as int);
    assert(more.take(log.len() as int) =~= log);
    assert(more.take(log.len() as int + 1) =~= more);
    reveal(Seq::filter);
    assert(Seq::<LogView>::empty().filter(is_orphan()).len() == 0);
    if entry.1 is OrphanDeleted {
        assert(preview_steps(more) =~= preview_steps(log).push(
            CommandView::Log("[dry-run] would: jj bookmark delete "@ + entry.0.name),
        ));
    }
}

/// Of the first `count` entries, those whose bookmark is gone were deleted by the
/// sync; every other entry, and the bookmark of every entry, stays as it was.
pub proof fn sync_explains_what_is_gone(
    log: Seq<LogView>,
    count: int,
    remaining: Seq<BookmarkView>,
    i: int,
)
    requires
        0 <= i < log.len(),
    ensures
        synced_log(log, count, remaining).len() == log.len(),
        synced_log(log, count, remaining)[i].0 == log[i].0,
        i < count && (forall|k: int|
            0 <= k < remaining.len() ==> (#[trigger] remaining[k]).name != log[i].0.name)
            ==> synced_log(log, count, remaining)[i].1 is GtSyncDeleted,
        i >= count || (exists|k: int|
            0 <= k < remaining.len() && (#[trigger] remaining[k]).name == log[i].0.name)
            ==> synced_log(log, count, remaining)[i] == log[i],
{
    let names = names_of(remaining);
    if names.contains(log[i].0.name) {
        let k = choose|k: int| 0 <= k < names.len() && names[k] == log[i].0.name;
        assert(remaining[k].name == log[i].0.name);
    }
    if exists|k: int| 0 <= k < remaining.len() && (#[trigger] remaining[k]).name == log[i].0.name {
        let k = choose|k: int|
            0 <= k < remaining.len() && (#[trigger] remaining[k]).name == log[i].0.name;
        assert(names[k] == log[i].0.name);
    }
}

/// A bookmark that the user keeps is logged as skipped, with the same pull request
/// and the same commit; no other entry changes.
pub proof fn objections_are_logged(entry: LogView)
    ensures
        skipped(entry).0 == entry.0,
        entry.1 matches ActionView::OrphanDeleted { pr, merge_commit_id } ==> skipped(entry).1 == (
        ActionView::OrphanSkipped { pr, merge_commit_id }),
        !(entry.1 is OrphanDeleted) ==> skipped(entry) == entry,
{
}

/// A failure that is passed over is noted with what was attempted and why it failed.
pub proof fn notes_say_what_failed(s: FetchView, command: CommandView, error: ErrorView)
    ensures
        command matches CommandView::Rebase { revset, destination } ==> failure_note(
            s,
            command,
            error,
        ) == Some(
            CommandView::Log(
                "could not rebase "@ + revset + " onto "@ + destination + ": "@
                    + error.message(),
            ),
        ),
        command is DeriveParents && s.opts.no_backfill ==> failure_note(s, command, error) == Some(
            CommandView::Log("could not find orphaned bookmarks: "@ + error.message()),
        ),
        command is ListBookmarks && s.phase is Relisting && s.opts.no_rebase ==> failure_note(
            s,
            command,
            error,
        ) == Some(CommandView::Log("could not list what gt sync left: "@ + error.message())),
        failure_note(s, command, error) is Some ==> command is Rebase || (command is DeriveParents
            && s.opts.no_backfill) || (command is ListBookmarks && s.phase is Relisting
            && s.opts.no_rebase),
{
}

/// Nobody needs the stack exactly if nothing is tracked and nothing will be rebased.
pub proof fn stack_serves_tracking_and_rebasing(opts: FetchOptsView)
    ensures
        !opts.no_backfill ==> needs_stack(opts),
        opts.no_backfill && opts.no_rebase ==> !needs_stack(opts),
        opts.no_backfill && opts.dry_run ==> !needs_stack(opts),
        !opts.no_rebase && !opts.dry_run ==> needs_stack(opts),
{
}

/// A bookmark is set apart with the merge queue exactly if its name begins with one
/// of the prefixes; no bookmark is on both sides, and none is on neither.
pub proof fn queue_is_set_apart(
    bookmarks: Seq<BookmarkView>,
    prefixes: Seq<Seq<char>>,
    b: BookmarkView,
)
    requires
        bookmarks.contains(b),
    ensures
        bookmarks.filter(inside_queue(prefixes)).contains(b) <==> exists|i: int|
            0 <= i < prefixes.len() && (#[trigger] prefixes[i]).is_prefix_of(b.name),
        bookmarks.filter(outside_queue(prefixes)).contains(b) <==> !(exists|i: int|
            0 <= i < prefixes.len() && (#[trigger] prefixes[i]).is_prefix_of(b.name)),
{
    crate::text::lemma_filter_members(bookmarks, inside_queue(prefixes), b);
    crate::text::lemma_filter_members(bookmarks, outside_queue(prefixes), b);
    assert(has_prefix(b.name, prefixes) <==> exists|i: int|
        0 <= i < prefixes.len() && (#[trigger] prefixes[i]).is_prefix_of(b.name));
}

/// The view of a log goes entry by entry.
pub proof fn logs_go_by_entry(log: Seq<LogEntry>)
    ensures
        log_views(log).len() == log.len(),
        forall|i: int|
            0 <= i < log.len() ==> (#[trigger] log_views(log)[i]).0 == log[i].0@ && log_views(
                log,
            )[i].1 == log[i].1@,
{
}

} // verus!
