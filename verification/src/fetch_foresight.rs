//! What a `jj-gt fetch` log can be foretold from: the repository and the forge as
//! they are read, whether or not anything is changed.

use vstd::prelude::*;

use crate::cleanup::{local_decision, FetchOptsView};
use crate::command::{CommandView, ReplyView};
use crate::error::ErrorView;
use crate::fetch_frames::{group_frames, wants_marker};
use crate::fetch_history::{
    answered, fetch_decides_by_the_marker, fetch_logs_what_the_sync_deleted,
    lemma_reaches_relisting, lemma_step_keeps, lemma_step_log, marker_told, past_relisting,
};
use crate::fetch_laws::{
    after_reply, fetch_after, fetch_is_sound, phases_left, prunes, settled_as, sound,
};
use crate::fetch_model::{inside_queue, outside_queue, queue_log, FetchPhase, FetchView, LogView};
use crate::gh::{first_pr, PrView};
use crate::jj::{names_of, BookmarkView};

verus! {

/// A repository and its forge, as far as decisions rest on them.
pub struct World {
    /// The local bookmarks.
    pub bookmarks: Seq<BookmarkView>,
    /// The pull requests of the bookmarks outside the merge queue.
    pub prs: Seq<PrView>,
    /// The pull requests of the queue-test branches.
    pub queue_prs: Seq<PrView>,
    /// The commits on trunk that carry a merge marker, by pull request.
    pub markers: Map<u32, Seq<char>>,
}

impl World {
    /// The commit that carries the merge marker of a pull request, if there is one.
    pub open spec fn marker(self, pr: u32) -> Option<Seq<char>> {
        if self.markers.dom().contains(pr) {
            Some(self.markers[pr])
        } else {
            None
        }
    }

    /// The bookmarks outside the merge queue.
    pub open spec fn normal(self, opts: FetchOptsView) -> Seq<BookmarkView> {
        self.bookmarks.filter(outside_queue(opts.gtmq_prefixes))
    }

    /// The queue-test branches.
    pub open spec fn queue(self, opts: FetchOptsView) -> Seq<BookmarkView> {
        self.bookmarks.filter(inside_queue(opts.gtmq_prefixes))
    }
}

/// Whether every bookmark outside the merge queue is among `remaining`.
pub open spec fn all_remain(
    world: World,
    opts: FetchOptsView,
    remaining: Seq<BookmarkView>,
) -> bool {
    forall|i: int|
        0 <= i < world.normal(opts).len() ==> names_of(remaining).contains(
            (#[trigger] world.normal(opts)[i]).name,
        )
}

/// Whether `reply` agrees with the world: what is read is what is there, the sync
/// has deleted no bookmark outside the merge queue, and the user, if asked, says
/// yes.
pub open spec fn tells(world: World, s: FetchView, reply: ReplyView) -> bool {
    match s.phase {
        FetchPhase::Listing => reply == ReplyView::Bookmarks(world.bookmarks),
        FetchPhase::Matching => reply == ReplyView::Prs(world.prs),
        FetchPhase::Marking => s.todo[0] matches CommandView::FindMergeMarker { pr, .. } && reply
            == ReplyView::Marker(world.marker(pr)),
        FetchPhase::QueueMatching => reply == ReplyView::Prs(world.queue_prs),
        FetchPhase::Relisting => reply matches ReplyView::Bookmarks(remaining) ==> all_remain(
            world,
            s.opts,
            remaining,
        ),
        FetchPhase::Orphans => s.todo[0] is ConfirmDelete ==> reply == ReplyView::Answer(true),
        _ => true,
    }
}

/// Whether the reply at `k`, unless it is a failure, agrees with the world.
pub open spec fn faithful_at(
    world: World,
    opts: FetchOptsView,
    replies: Seq<Result<ReplyView, ErrorView>>,
    k: int,
) -> bool {
    replies[k] matches Ok(reply) ==> tells(world, fetch_after(opts, replies.take(k)), reply)
}

/// Whether every reply of a run that is no failure agrees with the world.
pub open spec fn faithful(
    world: World,
    opts: FetchOptsView,
    replies: Seq<Result<ReplyView, ErrorView>>,
) -> bool {
    forall|k: int| 0 <= k < replies.len() ==> #[trigger] faithful_at(world, opts, replies, k)
}

/// The decision on a bookmark outside the merge queue in this world.
pub open spec fn foretold_entry(world: World, b: BookmarkView) -> LogView {
    let pr = first_pr(world.prs, b.name);
    let marker = if wants_marker(pr) {
        world.marker(pr->0.number)
    } else {
        None
    };
    (b, local_decision(b, pr, marker))
}

/// The log that this world leads to.
pub open spec fn foretold_log(world: World, opts: FetchOptsView) -> Seq<LogView> {
    Seq::new(
        world.normal(opts).len(),
        |i: int| foretold_entry(world, world.normal(opts)[i]),
    ) + (if opts.no_gtmq_prune {
        Seq::empty()
    } else {
        queue_log(world.queue(opts), world.queue_prs)
    })
}

proof fn lemma_faithful_front(
    world: World,
    opts: FetchOptsView,
    replies: Seq<Result<ReplyView, ErrorView>>,
)
    requires
        replies.len() > 0,
        faithful(world, opts, replies),
    ensures
        faithful(world, opts, replies.drop_last()),
        replies.last() matches Ok(reply) ==> tells(
            world,
            fetch_after(opts, replies.drop_last()),
            reply,
        ),
{
    let front = replies.drop_last();
    assert forall|k: int| 0 <= k < front.len() implies #[trigger] faithful_at(
        world,
        opts,
        front,
        k,
    ) by {
        assert(faithful_at(world, opts, replies, k));
        assert(front.take(k) =~= replies.take(k));
    }
    assert(faithful_at(world, opts, replies, replies.len() - 1));
    assert(replies.take(replies.len() - 1) =~= front);
}

/// Whether the state knows the world, as far as it has got.
pub open spec fn knows(world: World, s: FetchView) -> bool {
    &&& phases_left(s.phase) <= 10 ==> s.normal == world.normal(s.opts) && s.queue == world.queue(
        s.opts,
    )
    &&& phases_left(s.phase) <= 9 && s.normal.len() > 0 ==> s.prs == world.prs
    &&& phases_left(s.phase) <= 4 && !s.opts.no_gtmq_prune && s.queue.len() > 0 ==> s.queue_prs
        == world.queue_prs
    &&& past_relisting(s) ==> all_remain(world, s.opts, s.remaining)
}

proof fn lemma_step_knows(world: World, s: FetchView, reply: Result<ReplyView, ErrorView>)
    requires
        sound(s),
        knows(world, s),
        reply matches Ok(r) ==> tells(world, s, r),
        after_reply(s, reply).error is None,
        after_reply(s, reply).opts == s.opts,
    ensures
        knows(world, after_reply(s, reply)),
{
    broadcast use group_frames;

    reveal(after_reply);
    lemma_step_keeps(s, reply);
    lemma_reaches_relisting(s, reply);
    if s.phase is Relisting {
        assert(all_remain(world, s.opts, s.normal)) by {
            assert forall|i: int| 0 <= i < world.normal(s.opts).len() implies names_of(
                s.normal,
            ).contains((#[trigger] world.normal(s.opts)[i]).name) by {
                assert(names_of(s.normal)[i] == s.normal[i].name);
            }
        }
    }
}

proof fn lemma_knows(
    world: World,
    opts: FetchOptsView,
    replies: Seq<Result<ReplyView, ErrorView>>,
)
    requires
        faithful(world, opts, replies),
        fetch_after(opts, replies).error is None,
    ensures
        knows(world, fetch_after(opts, replies)),
    decreases replies.len(),
{
    if replies.len() > 0 {
        let front = replies.drop_last();
        fetch_is_sound(opts, front);
        fetch_is_sound(opts, replies);
        lemma_faithful_front(world, opts, replies);
        if fetch_after(opts, front).error is Some {
            lemma_error_stays(fetch_after(opts, front), replies.last());
        }
        lemma_knows(world, opts, front);
        lemma_step_knows(world, fetch_after(opts, front), replies.last());
    }
}

proof fn lemma_error_stays(s: FetchView, reply: Result<ReplyView, ErrorView>)
    requires
        sound(s),
        s.error is Some,
    ensures
        after_reply(s, reply) == s,
{
    reveal(after_reply);
}

/// Nobody objects where the user says yes.
proof fn lemma_none_skipped(
    world: World,
    opts: FetchOptsView,
    replies: Seq<Result<ReplyView, ErrorView>>,
    j: int,
)
    requires
        faithful(world, opts, replies),
        0 <= j < fetch_after(opts, replies).log.len(),
        j < fetch_after(opts, replies).normal.len(),
    ensures
        !(fetch_after(opts, replies).log[j].1 is OrphanSkipped),
    decreases replies.len(),
{
    if replies.len() > 0 {
        let front = replies.drop_last();
        let s = fetch_after(opts, front);
        fetch_is_sound(opts, front);
        lemma_faithful_front(world, opts, replies);
        lemma_step_log(s, replies.last(), j);
        if j < s.log.len() && j < s.normal.len() {
            lemma_none_skipped(world, opts, front, j);
        }
    }
}

/// A merge marker that came back is the one of the world.
proof fn lemma_marker_is_true(
    world: World,
    opts: FetchOptsView,
    replies: Seq<Result<ReplyView, ErrorView>>,
    j: int,
    pr: Option<PrView>,
    marker: Option<Seq<char>>,
)
    requires
        faithful(world, opts, replies),
        marker_told(opts, replies, j, pr, marker),
    ensures
        wants_marker(pr) ==> marker == world.marker(pr->0.number),
        !wants_marker(pr) ==> marker is None,
{
    if wants_marker(pr) {
        let command = CommandView::FindMergeMarker { pr: pr->0.number, trunk: opts.trunk };
        let k = choose|k: int|
            {
                &&& #[trigger] answered(opts, replies, k, command)
                &&& fetch_after(opts, replies.take(k)).log.len() == j
                &&& replies[k] == Ok::<ReplyView, ErrorView>(ReplyView::Marker(marker))
            };
        let s = fetch_after(opts, replies.take(k));
        fetch_is_sound(opts, replies.take(k));
        if s.phase is Pruning {
            assert(prunes(s, s.todo[0]));
        }
        assert(s.phase is Marking);
        assert(faithful_at(world, opts, replies, k));
    }
}

/// The log of a run that ended well is foretold by the world that it read, where
/// the sync deletes no bookmark outside the merge queue and the user, if asked,
/// says yes: each bookmark has the decision that its pull request and its merge
/// marker lead to. Of the options, only the queue prefixes and the pruning count.
pub proof fn fetch_log_is_foretold(
    world: World,
    opts: FetchOptsView,
    replies: Seq<Result<ReplyView, ErrorView>>,
)
    requires
        faithful(world, opts, replies),
        fetch_after(opts, replies).phase is Finished,
        fetch_after(opts, replies).error is None,
    ensures
        fetch_after(opts, replies).log == foretold_log(world, opts),
{
    let s = fetch_after(opts, replies);
    let want = foretold_log(world, opts);
    fetch_is_sound(opts, replies);
    lemma_knows(world, opts, replies);
    let prs = if s.queue.len() > 0 {
        s.queue_prs
    } else {
        world.queue_prs
    };
    assert(queue_log(s.queue, s.queue_prs) =~= queue_log(s.queue, prs));
    assert(s.log.len() == want.len());
    assert forall|j: int| 0 <= j < s.log.len() implies #[trigger] s.log[j] == want[j] by {
        if j < s.normal.len() {
            lemma_entry_is_foretold(world, opts, replies, j);
        } else {
            assert(s.log[j] == s.log.skip(s.normal.len() as int)[j - s.normal.len()]);
        }
    }
    assert(s.log =~= want);
}

proof fn lemma_entry_is_foretold(
    world: World,
    opts: FetchOptsView,
    replies: Seq<Result<ReplyView, ErrorView>>,
    j: int,
)
    requires
        faithful(world, opts, replies),
        fetch_after(opts, replies).phase is Finished,
        fetch_after(opts, replies).error is None,
        0 <= j < fetch_after(opts, replies).log.len(),
        j < fetch_after(opts, replies).normal.len(),
    ensures
        fetch_after(opts, replies).log[j] == foretold_entry(
            world,
            fetch_after(opts, replies).normal[j],
        ),
{
    let s = fetch_after(opts, replies);
    fetch_is_sound(opts, replies);
    lemma_knows(world, opts, replies);
    let pr = first_pr(s.prs, s.normal[j].name);
    fetch_decides_by_the_marker(opts, replies, j);
    let marker = choose|marker: Option<Seq<char>>|
        #![trigger marker_told(opts, replies, j, pr, marker)]
        marker_told(opts, replies, j, pr, marker) && settled_as(
            local_decision(s.normal[j], pr, marker),
            s.log[j].1,
        );
    lemma_marker_is_true(world, opts, replies, j, pr, marker);
    lemma_none_skipped(world, opts, replies, j);
    fetch_logs_what_the_sync_deleted(opts, replies, j);
    assert(s.normal[j] == world.normal(opts)[j]);
    assert(s.log[j].0 == s.normal[j]);
}

/// Whether two requests ask for the same but for what is done about it: whether
/// anything is done at all, what is tracked and rebased, and who is asked.
pub open spec fn same_but_for_doing(a: FetchOptsView, b: FetchOptsView) -> bool {
    &&& a.remote == b.remote
    &&& a.trunk == b.trunk
    &&& a.no_gtmq_prune == b.no_gtmq_prune
    &&& a.gtmq_prefixes == b.gtmq_prefixes
}

/// A dry run foretells the log of the real one, and neither tracking nor rebasing
/// changes a decision: two runs that end well have the same log if their options
/// differ at most in `dry_run`, `no_backfill`, `no_rebase` and `auto`, they read
/// the same world, and in both the sync deletes no bookmark outside the merge
/// queue and the user, if asked, says yes. With `auto` nobody is asked.
pub proof fn dry_run_foretells_the_log(
    world: World,
    a: FetchOptsView,
    replies_a: Seq<Result<ReplyView, ErrorView>>,
    b: FetchOptsView,
    replies_b: Seq<Result<ReplyView, ErrorView>>,
)
    requires
        same_but_for_doing(a, b),
        faithful(world, a, replies_a),
        faithful(world, b, replies_b),
        fetch_after(a, replies_a).phase is Finished,
        fetch_after(a, replies_a).error is None,
        fetch_after(b, replies_b).phase is Finished,
        fetch_after(b, replies_b).error is None,
    ensures
        fetch_after(a, replies_a).log == fetch_after(b, replies_b).log,
{
    fetch_log_is_foretold(world, a, replies_a);
    fetch_log_is_foretold(world, b, replies_b);
}

} // verus!
