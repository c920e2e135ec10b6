//! Per-bookmark cleanup decisions of `jj-gt fetch`.
//!
//! Everything here is a function of plain values: what the tools reported
//! goes in, the decision comes out.

use vstd::prelude::*;

pub use crate::fetch::run_fetch;
use crate::gh::{PrInfo, PrState, PrView};
use crate::jj::{BookmarkView, LocalBookmark};
use crate::text::{copy_names, starts_with, views};

verus! {

/// What `jj-gt fetch` was asked to do.
#[derive(Debug, PartialEq, Eq)]
pub struct FetchOpts {
    pub remote: String,
    pub trunk: String,
    pub no_backfill: bool,
    pub no_rebase: bool,
    pub no_gtmq_prune: bool,
    pub gtmq_prefixes: Vec<String>,
    pub auto: bool,
    pub dry_run: bool,
}

/// The texts and switches of [`FetchOpts`].
pub struct FetchOptsView {
    pub remote: Seq<char>,
    pub trunk: Seq<char>,
    pub no_backfill: bool,
    pub no_rebase: bool,
    pub no_gtmq_prune: bool,
    pub gtmq_prefixes: Seq<Seq<char>>,
    pub auto: bool,
    pub dry_run: bool,
}

impl View for FetchOpts {
    type V = FetchOptsView;

    open spec fn view(&self) -> FetchOptsView {
        FetchOptsView {
            remote: self.remote@,
            trunk: self.trunk@,
            no_backfill: self.no_backfill,
            no_rebase: self.no_rebase,
            no_gtmq_prune: self.no_gtmq_prune,
            gtmq_prefixes: views(self.gtmq_prefixes@),
            auto: self.auto,
            dry_run: self.dry_run,
        }
    }
}

impl Clone for FetchOpts {
    fn clone(&self) -> (res: Self)
        ensures
            res@ == self@,
    {
        FetchOpts {
            remote: self.remote.clone(),
            trunk: self.trunk.clone(),
            no_backfill: self.no_backfill,
            no_rebase: self.no_rebase,
            no_gtmq_prune: self.no_gtmq_prune,
            gtmq_prefixes: copy_names(&self.gtmq_prefixes),
            auto: self.auto,
            dry_run: self.dry_run,
        }
    }
}

impl Default for FetchOpts {
    fn default() -> (res: Self)
        ensures
            res@ == (FetchOptsView {
                remote: "origin"@,
                trunk: "main"@,
                no_backfill: false,
                no_rebase: false,
                no_gtmq_prune: false,
                gtmq_prefixes: seq!["gtmq_"@],
                auto: false,
                dry_run: false,
            }),
    {
        let res = FetchOpts {
            remote: "origin".to_owned(),
            trunk: "main".to_owned(),
            no_backfill: false,
            no_rebase: false,
            no_gtmq_prune: false,
            gtmq_prefixes: vec!["gtmq_".to_owned()],
            auto: false,
            dry_run: false,
        };
        assert(res@.gtmq_prefixes =~= seq!["gtmq_"@]);
        res
    }
}

/// What became of one bookmark.
#[derive(Debug, PartialEq, Eq)]
pub enum CleanupAction {
    /// `gt sync` deleted this branch; the bookmark is already gone.
    GtSyncDeleted,
    /// Graphite queue-test branch (`gtmq_*`) without an open pull request;
    /// deleted both locally and on the remote.
    GtmqPruned { had_pr: Option<u32> },
    /// `gtmq_*` branch with an open pull request, left alone: the queue is
    /// running.
    GtmqLeftAlone { pr: u32 },
    /// Pull request closed and merge marker found on trunk; the user confirmed
    /// the deletion, or `auto` was set.
    OrphanDeleted { pr: u32, merge_commit_id: String },
    /// Pull request closed and merge marker found, but the user said no.
    OrphanSkipped { pr: u32, merge_commit_id: String },
    /// The local commit and the pushed one differ: the local bookmark has
    /// changes that the pull request has not.
    SkippedDueToDrift { pr: u32, local_sha: String, pushed_sha: String },
    /// Nothing to clean up.
    LeftAlone,
}

/// The texts and numbers of a [`CleanupAction`].
pub enum ActionView {
    GtSyncDeleted,
    GtmqPruned { had_pr: Option<u32> },
    GtmqLeftAlone { pr: u32 },
    OrphanDeleted { pr: u32, merge_commit_id: Seq<char> },
    OrphanSkipped { pr: u32, merge_commit_id: Seq<char> },
    SkippedDueToDrift { pr: u32, local_sha: Seq<char>, pushed_sha: Seq<char> },
    LeftAlone,
}

impl View for CleanupAction {
    type V = ActionView;

    open spec fn view(&self) -> ActionView {
        match self {
            CleanupAction::GtSyncDeleted => ActionView::GtSyncDeleted,
            CleanupAction::GtmqPruned { had_pr } => ActionView::GtmqPruned { had_pr: *had_pr },
            CleanupAction::GtmqLeftAlone { pr } => ActionView::GtmqLeftAlone { pr: *pr },
            CleanupAction::OrphanDeleted { pr, merge_commit_id } => ActionView::OrphanDeleted {
                pr: *pr,
                merge_commit_id: merge_commit_id@,
            },
            CleanupAction::OrphanSkipped { pr, merge_commit_id } => ActionView::OrphanSkipped {
                pr: *pr,
                merge_commit_id: merge_commit_id@,
            },
            CleanupAction::SkippedDueToDrift { pr, local_sha, pushed_sha } =>
                ActionView::SkippedDueToDrift {
                    pr: *pr,
                    local_sha: local_sha@,
                    pushed_sha: pushed_sha@,
                },
            CleanupAction::LeftAlone => ActionView::LeftAlone,
        }
    }
}

impl Clone for CleanupAction {
    fn clone(&self) -> (res: Self)
        ensures
            res@ == self@,
    {
        match self {
            CleanupAction::GtSyncDeleted => CleanupAction::GtSyncDeleted,
            CleanupAction::GtmqPruned { had_pr } => CleanupAction::GtmqPruned { had_pr: *had_pr },
            CleanupAction::GtmqLeftAlone { pr } => CleanupAction::GtmqLeftAlone { pr: *pr },
            CleanupAction::OrphanDeleted { pr, merge_commit_id } => CleanupAction::OrphanDeleted {
                pr: *pr,
                merge_commit_id: merge_commit_id.clone(),
            },
            CleanupAction::OrphanSkipped { pr, merge_commit_id } => CleanupAction::OrphanSkipped {
                pr: *pr,
                merge_commit_id: merge_commit_id.clone(),
            },
            CleanupAction::SkippedDueToDrift { pr, local_sha, pushed_sha } =>
                CleanupAction::SkippedDueToDrift {
                    pr: *pr,
                    local_sha: local_sha.clone(),
                    pushed_sha: pushed_sha.clone(),
                },
            CleanupAction::LeftAlone => CleanupAction::LeftAlone,
        }
    }
}

/// Whether two commit ids name the same commit: one of them may be a
/// shortened form of the other.
pub open spec fn same_commit(left: Seq<char>, right: Seq<char>) -> bool {
    left.is_prefix_of(right) || right.is_prefix_of(left)
}

/// Whether the local bookmark has moved away from what was pushed for `pr`.
/// Where the pushed head is not known, nothing can be said against it.
pub open spec fn drifted(local: BookmarkView, pr: PrView) -> bool {
    pr.head_ref_oid.len() != 0 && !same_commit(local.commit_id, pr.head_ref_oid)
}

/// The decision on a bookmark outside the merge queue.
pub open spec fn local_decision(
    local: BookmarkView,
    pr: Option<PrView>,
    marker: Option<Seq<char>>,
) -> ActionView {
    match pr {
        None => ActionView::LeftAlone,
        Some(pr) => if drifted(local, pr) {
            ActionView::SkippedDueToDrift {
                pr: pr.number,
                local_sha: local.commit_id,
                pushed_sha: pr.head_ref_oid,
            }
        } else if pr.state.terminal() && marker is Some {
            ActionView::OrphanDeleted { pr: pr.number, merge_commit_id: marker->0 }
        } else {
            ActionView::LeftAlone
        },
    }
}

/// The decision on a queue-test branch.
pub open spec fn gtmq_decision(pr: Option<PrView>) -> ActionView {
    match pr {
        None => ActionView::GtmqPruned { had_pr: None },
        Some(pr) => if pr.state is Open {
            ActionView::GtmqLeftAlone { pr: pr.number }
        } else {
            ActionView::GtmqPruned { had_pr: Some(pr.number) }
        },
    }
}

/// Whether `name` begins with one of `prefixes`.
pub open spec fn has_prefix(name: Seq<char>, prefixes: Seq<Seq<char>>) -> bool {
    exists|i: int| 0 <= i < prefixes.len() && (#[trigger] prefixes[i]).is_prefix_of(name)
}

/// Decides what to do with a local bookmark outside the merge queue.
///
/// `pr` is `None` if no pull request was found for the bookmark;
/// `merge_marker_on_trunk` is the commit on trunk that carries the merge
/// marker of that pull request, if there is one.
pub fn classify_local_bookmark(
    local: &LocalBookmark,
    pr: Option<&PrInfo>,
    merge_marker_on_trunk: Option<&str>,
) -> (res: CleanupAction)
    ensures
        res@ == local_decision(
            local@,
            crate::text::opt_view(pr),
            crate::text::opt_view(merge_marker_on_trunk),
        ),
        ({
            let drift = pr is Some && pr->0.head_ref_oid@.len() > 0
                && !pr->0.head_ref_oid@.is_prefix_of(local.commit_id@)
                && !local.commit_id@.is_prefix_of(pr->0.head_ref_oid@);
            let landed = pr is Some && (pr->0.state is Closed || pr->0.state is Merged)
                && merge_marker_on_trunk is Some;
            match res {
                CleanupAction::SkippedDueToDrift { pr: number, local_sha, pushed_sha } => drift
                    && number == pr->0.number && local_sha@ == local.commit_id@ && pushed_sha@
                    == pr->0.head_ref_oid@,
                CleanupAction::OrphanDeleted { pr: number, merge_commit_id } => !drift && landed
                    && number == pr->0.number && merge_commit_id@ == merge_marker_on_trunk->0@,
                CleanupAction::LeftAlone => !drift && !landed,
                _ => false,
            }
        }),
{
    match pr {
        None => CleanupAction::LeftAlone,
        Some(pr) => {
            // The local id may be a short one while the forge reports the full
            // one, so a prefix in either direction counts as a match.
            let drift: bool = !pr.head_ref_oid.as_str().is_empty()
                && !starts_with(pr.head_ref_oid.as_str(), local.commit_id.as_str())
                && !starts_with(local.commit_id.as_str(), pr.head_ref_oid.as_str());
            if drift {
                return CleanupAction::SkippedDueToDrift {
                    pr: pr.number,
                    local_sha: local.commit_id.clone(),
                    pushed_sha: pr.head_ref_oid.clone(),
                };
            }
            match merge_marker_on_trunk {
                Some(sha) if pr.state.is_terminal() => CleanupAction::OrphanDeleted {
                    pr: pr.number,
                    merge_commit_id: sha.to_owned(),
                },
                _ => CleanupAction::LeftAlone,
            }
        },
    }
}

/// Decides what to do with a `gtmq_*` queue-test branch, given its pull
/// request, if there is one.
pub fn classify_gtmq_branch(pr: Option<&PrInfo>) -> (res: CleanupAction)
    ensures
        res@ == gtmq_decision(crate::text::opt_view(pr)),
        match (pr, res) {
            (Some(pr), CleanupAction::GtmqLeftAlone { pr: number }) => pr.state is Open && number
                == pr.number,
            (Some(pr), CleanupAction::GtmqPruned { had_pr }) => !(pr.state is Open) && had_pr
                == Some(pr.number),
            (None, CleanupAction::GtmqPruned { had_pr }) => had_pr is None,
            _ => false,
        },
{
    match pr {
        Some(pr) if pr.state == PrState::Open => CleanupAction::GtmqLeftAlone { pr: pr.number },
        Some(pr) => CleanupAction::GtmqPruned { had_pr: Some(pr.number) },
        None => CleanupAction::GtmqPruned { had_pr: None },
    }
}

/// Whether `name` begins with one of the configured queue prefixes.
pub fn is_gtmq_branch(name: &str, prefixes: &[String]) -> (res: bool)
    ensures
        res == has_prefix(name@, views(prefixes@)),
        res <==> exists|i: int|
            0 <= i < prefixes@.len() && (#[trigger] prefixes@[i])@.is_prefix_of(name@),
{
    for i in 0..prefixes.len()
        invariant
            forall|j: int|
                0 <= j < i ==> !(#[trigger] views(prefixes@)[j]).is_prefix_of(name@),
    {
        if starts_with(name, prefixes[i].as_str()) {
            assert(views(prefixes@)[i as int].is_prefix_of(name@));
            assert(prefixes@[i as int]@.is_prefix_of(name@));
            return true;
        }
    }
    assert forall|i: int| 0 <= i < prefixes@.len() implies !(
    #[trigger] prefixes@[i])@.is_prefix_of(name@) by {
        assert(!views(prefixes@)[i].is_prefix_of(name@));
    }
    false
}

/// The prefixes that count, given those of the user.
pub open spec fn prefixes_or_default(given: Seq<Seq<char>>) -> Seq<Seq<char>> {
    if given.len() > 0 {
        given
    } else {
        seq!["gtmq_"@]
    }
}

/// The user's prefixes count as they are; without any, a branch belongs to the queue
/// exactly if its name begins with `gtmq_`.
pub proof fn default_prefix_is_that_of_graphite(given: Seq<Seq<char>>, name: Seq<char>)
    ensures
        given.len() > 0 ==> prefixes_or_default(given) == given,
        given.len() == 0 ==> (has_prefix(name, prefixes_or_default(given))
            <==> "gtmq_"@.is_prefix_of(name)),
{
    if given.len() == 0 {
        let prefixes = prefixes_or_default(given);
        assert(prefixes[0] == "gtmq_"@);
        if "gtmq_"@.is_prefix_of(name) {
            assert(prefixes[0].is_prefix_of(name));
        }
    }
}

/// The prefixes that a queue-test branch may begin with, as the user gave them;
/// without any, it is the one that Graphite uses.
pub fn queue_prefixes(given: Vec<String>) -> (res: Vec<String>)
    ensures
        views(res@) == (if given@.len() == 0 {
            seq!["gtmq_"@]
        } else {
            views(given@)
        }),
        views(res@) == prefixes_or_default(views(given@)),
        given@.len() == 0 ==> res@.len() == 1 && res@[0]@ == "gtmq_"@,
        given@.len() > 0 ==> res == given,
{
    if given.len() == 0 {
        let res: Vec<String> = vec!["gtmq_".to_owned()];
        assert(views(res@) =~= seq!["gtmq_"@]);
        res
    } else {
        given
    }
}

/// Drift wins: a bookmark that has moved away from what was pushed is skipped,
/// whatever the state of its pull request and whether or not a merge marker
/// turned up.
pub proof fn drift_wins(local: BookmarkView, pr: PrView, marker: Option<Seq<char>>)
    requires
        drifted(local, pr),
    ensures
        local_decision(local, Some(pr), marker) == (ActionView::SkippedDueToDrift {
            pr: pr.number,
            local_sha: local.commit_id,
            pushed_sha: pr.head_ref_oid,
        }),
{
}

/// A bookmark outside the merge queue is up for deletion exactly if it has a
/// pull request that is closed or merged, it has not drifted, and the merge
/// marker was found on trunk. Without a pull request a marker counts for
/// nothing.
pub proof fn deletion_needs_all_signs(
    local: BookmarkView,
    pr: Option<PrView>,
    marker: Option<Seq<char>>,
)
    ensures
        local_decision(local, pr, marker) is OrphanDeleted <==> (pr is Some && marker is Some
            && pr->0.state.terminal() && !drifted(local, pr->0)),
        local_decision(local, pr, marker) matches ActionView::OrphanDeleted {
            pr: number,
            merge_commit_id,
        } ==> number == pr->0.number && merge_commit_id == marker->0,
        pr is None ==> local_decision(local, pr, marker) is LeftAlone,
{
}

/// A short commit id matches the full one that it begins, whichever side has
/// the short one; an id always matches itself; and where the forge does not
/// know the pushed head, nothing counts as drift.
pub proof fn short_ids_do_not_drift(local: BookmarkView, pr: PrView)
    requires
        local.commit_id.is_prefix_of(pr.head_ref_oid) || pr.head_ref_oid.is_prefix_of(
            local.commit_id,
        ) || pr.head_ref_oid.len() == 0,
    ensures
        !drifted(local, pr),
{
}

/// Whether two ids name the same commit does not depend on their order.
pub proof fn same_commit_is_symmetric(left: Seq<char>, right: Seq<char>)
    ensures
        same_commit(left, right) == same_commit(right, left),
        same_commit(left, left),
{
    assert(left =~= left.subrange(0, left.len() as int));
}

/// A queue-test branch is left alone exactly if its pull request is open, and
/// pruned in every other case; the decision names the pull request, if any.
pub proof fn queue_keeps_open_branches_only(pr: Option<PrView>)
    ensures
        gtmq_decision(pr) is GtmqLeftAlone <==> (pr is Some && pr->0.state is Open),
        gtmq_decision(pr) is GtmqPruned <==> !(pr is Some && pr->0.state is Open),
        gtmq_decision(pr) matches ActionView::GtmqLeftAlone { pr: number } ==> number
            == pr->0.number,
        gtmq_decision(pr) matches ActionView::GtmqPruned { had_pr } ==> had_pr == (match pr {
            Some(pr) => Some(pr.number),
            None => None,
        }),
{
}

/// More prefixes never take a branch out of the queue, and without prefixes no
/// branch is in it.
pub proof fn prefixes_only_widen(
    name: Seq<char>,
    prefixes: Seq<Seq<char>>,
    more: Seq<Seq<char>>,
)
    ensures
        has_prefix(name, prefixes + more) <==> has_prefix(name, prefixes) || has_prefix(name, more),
        !has_prefix(name, Seq::empty()),
{
    let all = prefixes + more;
    if has_prefix(name, prefixes) {
        let i = choose|i: int|
            0 <= i < prefixes.len() && (#[trigger] prefixes[i]).is_prefix_of(name);
        assert(all[i] == prefixes[i]);
    }
    if has_prefix(name, more) {
        let i = choose|i: int| 0 <= i < more.len() && (#[trigger] more[i]).is_prefix_of(name);
        assert(all[prefixes.len() + i] == more[i]);
    }
    if has_prefix(name, all) {
        let i = choose|i: int| 0 <= i < all.len() && (#[trigger] all[i]).is_prefix_of(name);
        if i < prefixes.len() {
            assert(prefixes[i] == all[i]);
        } else {
            assert(more[i - prefixes.len()] == all[i]);
        }
    }
}

/// A bookmark is skipped for drift exactly if the forge knows the pushed commit and
/// neither of the two commit ids begins with the other, whatever the state of the
/// pull request; the decision then names both ids, the local one first.
pub proof fn different_commits_are_drift(
    local: BookmarkView,
    pr: PrView,
    marker: Option<Seq<char>>,
)
    ensures
        local_decision(local, Some(pr), marker) is SkippedDueToDrift <==> (pr.head_ref_oid.len() > 0
            && !pr.head_ref_oid.is_prefix_of(local.commit_id) && !local.commit_id.is_prefix_of(
            pr.head_ref_oid,
        )),
        local_decision(local, Some(pr), marker) matches ActionView::SkippedDueToDrift {
            pr: number,
            local_sha,
            pushed_sha,
        } ==> number == pr.number && local_sha == local.commit_id && pushed_sha
            == pr.head_ref_oid,
{
}

/// Where there is no drift, a bookmark is up for deletion exactly if its pull
/// request is closed or merged and a merge marker was found, and is left alone
/// else; no other decision is taken outside the merge queue.
pub proof fn decisions_outside_the_queue(
    local: BookmarkView,
    pr: Option<PrView>,
    marker: Option<Seq<char>>,
)
    ensures
        match local_decision(local, pr, marker) {
            ActionView::SkippedDueToDrift { .. } => pr is Some,
            ActionView::OrphanDeleted { pr: number, merge_commit_id } => pr is Some && (
            pr->0.state is Closed || pr->0.state is Merged) && marker == Some(merge_commit_id)
                && number == pr->0.number,
            ActionView::LeftAlone => pr is None || marker is None || pr->0.state is Open
                || pr->0.state is Unknown,
            _ => false,
        },
{
}

/// A branch belongs to the merge queue exactly if its name begins, character by
/// character, with one of the prefixes.
pub proof fn queue_branches_begin_with_a_prefix(name: Seq<char>, prefixes: Seq<Seq<char>>)
    ensures
        has_prefix(name, prefixes) <==> exists|i: int|
            0 <= i < prefixes.len() && (#[trigger] prefixes[i]).len() <= name.len() && name.take(
                prefixes[i].len() as int,
            ) == prefixes[i],
{
    if has_prefix(name, prefixes) {
        let i = choose|i: int|
            0 <= i < prefixes.len() && (#[trigger] prefixes[i]).is_prefix_of(name);
        assert(name.take(prefixes[i].len() as int) =~= prefixes[i]);
    }
    if exists|i: int|
        0 <= i < prefixes.len() && (#[trigger] prefixes[i]).len() <= name.len() && name.take(
            prefixes[i].len() as int,
        ) == prefixes[i] {
        let i = choose|i: int|
            0 <= i < prefixes.len() && (#[trigger] prefixes[i]).len() <= name.len() && name.take(
                prefixes[i].len() as int,
            ) == prefixes[i];
        assert(prefixes[i] =~= name.subrange(0, prefixes[i].len() as int));
        assert(prefixes[i].is_prefix_of(name));
    }
}

/// The view of the options holds each of them under its own name.
pub proof fn fetch_options_views(opts: FetchOpts)
    ensures
        opts@.remote == opts.remote@,
        opts@.trunk == opts.trunk@,
        opts@.no_backfill == opts.no_backfill,
        opts@.no_rebase == opts.no_rebase,
        opts@.no_gtmq_prune == opts.no_gtmq_prune,
        opts@.gtmq_prefixes.len() == opts.gtmq_prefixes@.len(),
        forall|i: int|
            0 <= i < opts.gtmq_prefixes@.len() ==> #[trigger] opts@.gtmq_prefixes[i]
                == opts.gtmq_prefixes@[i]@,
        opts@.auto == opts.auto,
        opts@.dry_run == opts.dry_run,
{
}

/// The view of an action is of the same kind and holds the same numbers and texts.
pub proof fn action_views(action: CleanupAction)
    ensures
        action is GtSyncDeleted <==> action@ is GtSyncDeleted,
        action is LeftAlone <==> action@ is LeftAlone,
        action matches CleanupAction::GtmqPruned { had_pr } ==> action@ == (
        ActionView::GtmqPruned { had_pr }),
        action matches CleanupAction::GtmqLeftAlone { pr } ==> action@ == (
        ActionView::GtmqLeftAlone { pr }),
        action matches CleanupAction::OrphanDeleted { pr, merge_commit_id } ==> action@ == (
        ActionView::OrphanDeleted { pr, merge_commit_id: merge_commit_id@ }),
        action matches CleanupAction::OrphanSkipped { pr, merge_commit_id } ==> action@ == (
        ActionView::OrphanSkipped { pr, merge_commit_id: merge_commit_id@ }),
        action matches CleanupAction::SkippedDueToDrift { pr, local_sha, pushed_sha } ==> action@
            == (ActionView::SkippedDueToDrift {
            pr,
            local_sha: local_sha@,
            pushed_sha: pushed_sha@,
        }),
{
}

} // verus!
