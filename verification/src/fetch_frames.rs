//! What the two loops of the `jj-gt fetch` pipeline, over the bookmarks to be
//! classified and over the log entries to be deleted, change and what they leave.

use vstd::prelude::*;

use crate::cleanup::{local_decision, ActionView};
use crate::command::CommandView;
use crate::fetch_model::{begin_sync, log_next, mark_rest, orphans_from, FetchView};
use crate::gh::{first_pr, PrView};

verus! {

/// Whether two states know the same of the repository and the forge, and of what
/// stopped the pipeline.
pub open spec fn same_facts(a: FetchView, b: FetchView) -> bool {
    &&& a.opts == b.opts
    &&& a.normal == b.normal
    &&& a.queue == b.queue
    &&& a.prs == b.prs
    &&& a.queue_prs == b.queue_prs
    &&& a.stacked == b.stacked
    &&& a.remaining == b.remaining
    &&& a.error == b.error
}

/// Whether a merge marker may have been looked for: the pull request is closed or
/// merged.
pub open spec fn wants_marker(pr: Option<PrView>) -> bool {
    pr is Some && pr->0.state.terminal()
}

/// Classifying goes on until a marker has to be looked for, or until the sync; it
/// adds to the log the decisions that need no marker, and changes nothing else.
pub broadcast proof fn mark_rest_frame(s: FetchView)
    ensures
        #![trigger mark_rest(s)]
        same_facts(mark_rest(s), s),
        mark_rest(s).phase is Marking || mark_rest(s).phase is Syncing,
        mark_rest(s).phase is Marking ==> mark_rest(s).log.len() < s.normal.len(),
        mark_rest(s).phase is Syncing ==> mark_rest(s).todo == begin_sync(s).todo,
        mark_rest(s).log.len() >= s.log.len(),
        forall|j: int|
            0 <= j < s.log.len() ==> #[trigger] mark_rest(s).log[j] == s.log[j],
        forall|j: int|
            s.log.len() <= j < mark_rest(s).log.len() ==> #[trigger] mark_rest(s).log[j] == (
                s.normal[j],
                local_decision(s.normal[j], first_pr(s.prs, s.normal[j].name), None),
            ) && !wants_marker(first_pr(s.prs, s.normal[j].name)),
    decreases s.normal.len() - s.log.len(),
{
    if s.log.len() < s.normal.len() {
        mark_rest_frame(log_next(s, None));
    }
}

/// Going through the log stops at the first deletion, which is asked about unless
/// `auto` is set, and else ends the pipeline; it changes nothing else.
pub broadcast proof fn orphans_from_frame(s: FetchView, i: int)
    ensures
        #![trigger orphans_from(s, i)]
        same_facts(orphans_from(s, i), s),
        orphans_from(s, i).log == s.log,
        orphans_from(s, i).phase is Orphans || orphans_from(s, i).phase is Finished,
        orphans_from(s, i).phase is Orphans ==> {
            let n = orphans_from(s, i);
            &&& i <= n.cursor < s.log.len()
            &&& s.log[n.cursor].1 matches ActionView::OrphanDeleted { pr, merge_commit_id }
            &&& n.todo == seq![
                if s.opts.auto {
                    CommandView::DeleteBookmark { name: s.log[n.cursor].0.name }
                } else {
                    CommandView::ConfirmDelete {
                        name: s.log[n.cursor].0.name,
                        pr,
                        merge_commit_id,
                    }
                },
            ]
        },
        forall|j: int|
            0 <= i <= j < s.log.len() && (orphans_from(s, i).phase is Finished || j < orphans_from(
                s,
                i,
            ).cursor) ==> !((#[trigger] s.log[j]).1 is OrphanDeleted),
    decreases s.log.len() - i,
{
    if 0 <= i < s.log.len() {
        orphans_from_frame(s, i + 1);
    }
}

pub broadcast group group_frames {
    mark_rest_frame,
    orphans_from_frame,
}

} // verus!
