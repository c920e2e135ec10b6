//! Stacks of bookmarks: which bookmark sits on which, in what order they are
//! to be tracked, and where a stack ends.

use vstd::prelude::*;

use crate::error::JjGtError;
use crate::text::{same_text, views};

verus! {

/// What a bookmark is stacked on.
#[derive(Debug, PartialEq, Eq)]
pub enum BookmarkOrTrunk {
    Bookmark(String),
    Trunk,
}

/// The texts of a [`BookmarkOrTrunk`].
pub enum ParentView {
    Bookmark(Seq<char>),
    Trunk,
}

impl View for BookmarkOrTrunk {
    type V = ParentView;

    open spec fn view(&self) -> ParentView {
        match self {
            BookmarkOrTrunk::Bookmark(name) => ParentView::Bookmark(name@),
            BookmarkOrTrunk::Trunk => ParentView::Trunk,
        }
    }
}

impl ParentView {
    /// The branch that this parent stands for, where trunk is called `trunk`.
    pub open spec fn branch_name(self, trunk: Seq<char>) -> Seq<char> {
        match self {
            ParentView::Bookmark(name) => name,
            ParentView::Trunk => trunk,
        }
    }
}

impl BookmarkOrTrunk {
    /// The branch that this parent stands for, where trunk is called `trunk`.
    pub fn as_branch_name<'a>(&'a self, trunk: &'a str) -> (res: &'a str)
        ensures
            res@ == self@.branch_name(trunk@),
            match *self {
                BookmarkOrTrunk::Bookmark(name) => res@ == name@,
                BookmarkOrTrunk::Trunk => res@ == trunk@,
            },
    {
        match self {
            BookmarkOrTrunk::Bookmark(name) => name.as_str(),
            BookmarkOrTrunk::Trunk => trunk,
        }
    }
}

impl Clone for BookmarkOrTrunk {
    fn clone(&self) -> (res: Self)
        ensures
            res@ == self@,
    {
        match self {
            BookmarkOrTrunk::Bookmark(name) => BookmarkOrTrunk::Bookmark(name.clone()),
            BookmarkOrTrunk::Trunk => BookmarkOrTrunk::Trunk,
        }
    }
}

/// A bookmark together with what it is stacked on.
#[derive(Debug, PartialEq, Eq)]
pub struct StackedBookmark {
    pub name: String,
    pub parent: BookmarkOrTrunk,
}

/// The texts of a [`StackedBookmark`].
pub struct StackedView {
    pub name: Seq<char>,
    pub parent: ParentView,
}

impl View for StackedBookmark {
    type V = StackedView;

    open spec fn view(&self) -> StackedView {
        StackedView { name: self.name@, parent: self.parent@ }
    }
}

impl Clone for StackedBookmark {
    fn clone(&self) -> (res: Self)
        ensures
            res@ == self@,
    {
        StackedBookmark { name: self.name.clone(), parent: self.parent.clone() }
    }
}

/// Whether `entry` is stacked on the bookmark called `name`.
pub open spec fn sits_on(entry: StackedView, name: Seq<char>) -> bool {
    entry.parent == ParentView::Bookmark(name)
}

/// Whether the parent of the entry at `i` is none of `entries`.
pub open spec fn ready(entries: Seq<StackedView>, i: int) -> bool {
    forall|j: int| 0 <= j < entries.len() ==> !sits_on(entries[i], (#[trigger] entries[j]).name)
}

/// The first ready entry at `from` or after it, or 0 where there is none.
pub open spec fn first_ready(entries: Seq<StackedView>, from: int) -> int
    decreases entries.len() - from,
{
    if from >= entries.len() {
        0
    } else if ready(entries, from) {
        from
    } else {
        first_ready(entries, from + 1)
    }
}

/// The order in which a stack is tracked: again and again the first entry whose
/// parent is not still waiting. Where every entry waits for another one, the
/// first of them goes next.
pub open spec fn tracking_order(entries: Seq<StackedView>) -> Seq<StackedView>
    decreases entries.len(),
{
    if entries.len() == 0 {
        Seq::empty()
    } else {
        let k = first_ready(entries, 0);
        if 0 <= k < entries.len() {
            seq![entries[k]] + tracking_order(entries.remove(k))
        } else {
            Seq::empty()
        }
    }
}

/// Whether no entry comes before the one that it is stacked on.
pub open spec fn parents_first(entries: Seq<StackedView>) -> bool {
    forall|i: int, j: int|
        0 <= i <= j < entries.len() ==> !sits_on(#[trigger] entries[i], (#[trigger] entries[j]).name)
}

/// Whether `rank` puts every entry above the listed entry that it is stacked on.
pub open spec fn ranked(entries: Seq<StackedView>, rank: spec_fn(Seq<char>) -> nat) -> bool {
    forall|i: int, j: int|
        0 <= i < entries.len() && 0 <= j < entries.len() && sits_on(
            #[trigger] entries[i],
            (#[trigger] entries[j]).name,
        ) ==> rank(entries[j].name) < rank(entries[i].name)
}

/// Whether the parent relation has no cycle among `entries`.
pub open spec fn acyclic(entries: Seq<StackedView>) -> bool {
    exists|rank: spec_fn(Seq<char>) -> nat| ranked(entries, rank)
}

proof fn lemma_first_ready_in_range(entries: Seq<StackedView>, from: int)
    requires
        0 <= from,
        entries.len() > 0,
    ensures
        0 <= first_ready(entries, from) < entries.len(),
    decreases entries.len() - from,
{
    if from < entries.len() && !ready(entries, from) {
        lemma_first_ready_in_range(entries, from + 1);
    }
}

proof fn lemma_first_ready_is_ready(entries: Seq<StackedView>, from: int, at: int)
    requires
        0 <= from <= at < entries.len(),
        ready(entries, at),
    ensures
        from <= first_ready(entries, from) < entries.len(),
        ready(entries, first_ready(entries, from)),
    decreases entries.len() - from,
{
    if !ready(entries, from) {
        lemma_first_ready_is_ready(entries, from + 1, at);
    }
}

/// An entry of least rank among the first `n`.
proof fn lemma_least_rank(entries: Seq<StackedView>, rank: spec_fn(Seq<char>) -> nat, n: nat) -> (k:
    int)
    requires
        0 < n <= entries.len(),
    ensures
        0 <= k < n,
        forall|j: int| 0 <= j < n ==> rank(entries[k].name) <= rank((#[trigger] entries[j]).name),
    decreases n,
{
    if n == 1 {
        0
    } else {
        let k = lemma_least_rank(entries, rank, (n - 1) as nat);
        if rank(entries[n - 1].name) < rank(entries[k].name) {
            n - 1
        } else {
            k
        }
    }
}

/// Tracking a stack leaves nothing out and adds nothing: the order is a
/// rearrangement of the entries.
pub proof fn tracking_order_is_permutation(entries: Seq<StackedView>)
    ensures
        tracking_order(entries).to_multiset() == entries.to_multiset(),
        tracking_order(entries).len() == entries.len(),
    decreases entries.len(),
{
    broadcast use vstd::seq_lib::group_to_multiset_ensures;

    if entries.len() > 0 {
        let k = first_ready(entries, 0);
        lemma_first_ready_in_range(entries, 0);
        let rest = entries.remove(k);
        tracking_order_is_permutation(rest);
        let order = tracking_order(entries);
        assert(order == seq![entries[k]] + tracking_order(rest));
        assert(seq![entries[k]] + tracking_order(rest) =~= tracking_order(rest).insert(
            0,
            entries[k],
        ));
        assert(rest.insert(k, entries[k]) =~= entries);
        assert(order.to_multiset() =~= tracking_order(rest).to_multiset().insert(entries[k]));
        assert(entries.to_multiset() =~= rest.to_multiset().insert(entries[k]));
    } else {
        assert(entries =~= Seq::<StackedView>::empty());
    }
}

pub proof fn lemma_order_holds_same_entries(entries: Seq<StackedView>, entry: StackedView)
    ensures
        tracking_order(entries).contains(entry) == entries.contains(entry),
{
    broadcast use vstd::seq_lib::group_to_multiset_ensures;

    tracking_order_is_permutation(entries);
    assert(tracking_order(entries).to_multiset().count(entry) == entries.to_multiset().count(entry));
}

/// A stack without cycles is tracked from the bottom up: no bookmark comes
/// before the one that it is stacked on.
pub proof fn tracking_order_puts_parents_first(entries: Seq<StackedView>)
    requires
        acyclic(entries),
    ensures
        parents_first(tracking_order(entries)),
    decreases entries.len(),
{
    if entries.len() > 0 {
        let rank = choose|rank: spec_fn(Seq<char>) -> nat| ranked(entries, rank);
        let least = lemma_least_rank(entries, rank, entries.len());
        assert(ready(entries, least)) by {
            assert forall|j: int| 0 <= j < entries.len() implies !sits_on(
                entries[least],
                (#[trigger] entries[j]).name,
            ) by {}
        }
        lemma_first_ready_is_ready(entries, 0, least);
        let k = first_ready(entries, 0);
        let rest = entries.remove(k);
        assert(ranked(rest, rank)) by {
            assert forall|i: int, j: int|
                0 <= i < rest.len() && 0 <= j < rest.len() && sits_on(
                    #[trigger] rest[i],
                    (#[trigger] rest[j]).name,
                ) implies rank(rest[j].name) < rank(rest[i].name) by {
                let a = if i < k { i } else { i + 1 };
                let b = if j < k { j } else { j + 1 };
                assert(rest[i] == entries[a] && rest[j] == entries[b]);
            }
        }
        tracking_order_puts_parents_first(rest);
        let tail = tracking_order(rest);
        let order = tracking_order(entries);
        assert(order == seq![entries[k]] + tail);
        assert forall|i: int, j: int| 0 <= i <= j < order.len() implies !sits_on(
            #[trigger] order[i],
            (#[trigger] order[j]).name,
        ) by {
            if i > 0 {
                assert(order[i] == tail[i - 1] && order[j] == tail[j - 1]);
            } else if j > 0 {
                assert(order[j] == tail[j - 1]);
                assert(tail.contains(order[j]));
                lemma_order_holds_same_entries(rest, order[j]);
                let b = choose|b: int| 0 <= b < rest.len() && rest[b] == order[j];
                let c = if b < k { b } else { b + 1 };
                assert(entries[c] == order[j]);
            } else {
                assert(order[0] == entries[k]);
            }
        }
    }
}

/// A stack that is already given from the bottom up is tracked as it is given.
pub proof fn tracking_order_keeps_sorted_stacks(entries: Seq<StackedView>)
    requires
        parents_first(entries),
    ensures
        tracking_order(entries) == entries,
    decreases entries.len(),
{
    if entries.len() > 0 {
        assert(ready(entries, 0));
        let rest = entries.remove(0);
        assert(parents_first(rest)) by {
            assert forall|i: int, j: int| 0 <= i <= j < rest.len() implies !sits_on(
                #[trigger] rest[i],
                (#[trigger] rest[j]).name,
            ) by {
                assert(rest[i] == entries[i + 1] && rest[j] == entries[j + 1]);
            }
        }
        tracking_order_keeps_sorted_stacks(rest);
        assert(seq![entries[0]] + rest =~= entries);
    } else {
        assert(entries =~= Seq::<StackedView>::empty());
    }
}

fn is_stacked_on(entry: &StackedBookmark, name: &String) -> (res: bool)
    ensures
        res == sits_on(entry@, name@),
{
    match &entry.parent {
        BookmarkOrTrunk::Bookmark(parent) => same_text(parent, name),
        BookmarkOrTrunk::Trunk => false,
    }
}

fn is_ready(entries: &Vec<StackedBookmark>, i: usize) -> (res: bool)
    requires
        i < entries.len(),
    ensures
        res == ready(views(entries@), i as int),
{
    for j in 0..entries.len()
        invariant
            i < entries.len(),
            forall|m: int|
                0 <= m < j ==> !sits_on(
                    views(entries@)[i as int],
                    (#[trigger] views(entries@)[m]).name,
                ),
    {
        if is_stacked_on(&entries[i], &entries[j].name) {
            assert(sits_on(views(entries@)[i as int], views(entries@)[j as int].name));
            return false;
        }
    }
    true
}

fn next_ready(entries: &Vec<StackedBookmark>) -> (res: usize)
    requires
        entries.len() > 0,
    ensures
        res == first_ready(views(entries@), 0),
        res < entries.len(),
{
    for i in 0..entries.len()
        invariant
            entries.len() > 0,
            first_ready(views(entries@), 0) == first_ready(views(entries@), i as int),
    {
        if is_ready(entries, i) {
            return i;
        }
    }
    0
}

/// Orders a stack so that it can be tracked entry by entry: a bookmark can be
/// tracked only once the one that it is stacked on is.
pub fn sort_for_tracking(stacked: &Vec<StackedBookmark>) -> (res: Vec<StackedBookmark>)
    ensures
        views(res@) == tracking_order(views(stacked@)),
        acyclic(views(stacked@)) ==> parents_first(views(res@)),
        res@.len() == stacked@.len(),
        views(res@).to_multiset() == views(stacked@).to_multiset(),
{
    let mut waiting: Vec<StackedBookmark> = Vec::new();
    for i in 0..stacked.len()
        invariant
            views(waiting@) =~= views(stacked@).take(i as int),
    {
        let entry: StackedBookmark = stacked[i].clone();
        proof {
            crate::text::lemma_views_push(waiting@, entry);
        }
        waiting.push(entry);
    }
    assert(views(waiting@) =~= views(stacked@));
    let mut res: Vec<StackedBookmark> = Vec::new();
    while waiting.len() > 0
        invariant
            views(res@) + tracking_order(views(waiting@)) =~= tracking_order(views(stacked@)),
        decreases waiting.len(),
    {
        let ghost before = views(waiting@);
        let ghost done = views(res@);
        let k: usize = next_ready(&waiting);
        let next: StackedBookmark = waiting.remove(k);
        proof {
            crate::text::lemma_views_push(res@, next);
            assert(views(waiting@) =~= before.remove(k as int));
            assert(tracking_order(before) == seq![next@] + tracking_order(views(waiting@)));
            assert(done.push(next@) + tracking_order(views(waiting@)) =~= done + tracking_order(
                before,
            ));
        }
        res.push(next);
    }
    proof {
        tracking_order_is_permutation(views(stacked@));
        assert(views(res@).len() == views(stacked@).len());
        if acyclic(views(stacked@)) {
            tracking_order_puts_parents_first(views(stacked@));
        }
    }
    res
}

/// Whether nothing among `entries` is stacked on the entry at `i`.
pub open spec fn is_tip(entries: Seq<StackedView>, i: int) -> bool {
    forall|j: int| 0 <= j < entries.len() ==> !sits_on(#[trigger] entries[j], entries[i].name)
}

/// Whether the entry at `i` is the only tip.
pub open spec fn only_tip(entries: Seq<StackedView>, i: int) -> bool {
    &&& 0 <= i < entries.len()
    &&& is_tip(entries, i)
    &&& forall|j: int| 0 <= j < entries.len() && #[trigger] is_tip(entries, j) ==> j == i
}

/// The outcome of [`find_tip`]: the name of the only tip, if there is just one.
pub open spec fn tip_of(entries: Seq<StackedView>) -> Option<Seq<char>> {
    if exists|i: int| only_tip(entries, i) {
        Some(entries[choose|i: int| only_tip(entries, i)].name)
    } else {
        None
    }
}

fn ends_stack(entries: &Vec<StackedBookmark>, i: usize) -> (res: bool)
    requires
        i < entries.len(),
    ensures
        res == is_tip(views(entries@), i as int),
{
    for j in 0..entries.len()
        invariant
            i < entries.len(),
            forall|m: int|
                0 <= m < j ==> !sits_on(
                    #[trigger] views(entries@)[m],
                    views(entries@)[i as int].name,
                ),
    {
        if is_stacked_on(&entries[j], &entries[i].name) {
            assert(sits_on(views(entries@)[j as int], views(entries@)[i as int].name));
            return false;
        }
    }
    true
}

/// Finds the bookmark at the head of the stack: the one that nothing else is
/// stacked on. It is an error if there is none, or more than one.
pub fn find_tip(stacked: &Vec<StackedBookmark>) -> (res: Result<String, JjGtError>)
    ensures
        match res {
            Ok(tip) => tip_of(views(stacked@)) == Some(tip@),
            Err(error) => tip_of(views(stacked@)) is None && error == JjGtError::NoSingleTip,
        },
        res matches Ok(tip) ==> exists|i: int|
            0 <= i < stacked@.len() && (#[trigger] stacked@[i]).name@ == tip@,
        res matches Ok(tip) ==> forall|j: int|
            0 <= j < stacked@.len() ==> (#[trigger] stacked@[j]).parent@ != ParentView::Bookmark(
                tip@,
            ),
{
    let ghost entries = views(stacked@);
    let mut found: Option<usize> = None;
    for i in 0..stacked.len()
        invariant
            entries == views(stacked@),
            match found {
                Some(k) => k < i && is_tip(entries, k as int) && forall|j: int|
                    0 <= j < i && #[trigger] is_tip(entries, j) ==> j == k,
                None => forall|j: int| 0 <= j < i ==> !#[trigger] is_tip(entries, j),
            },
    {
        if ends_stack(stacked, i) {
            if let Some(k) = found {
                proof {
                    if exists|m: int| only_tip(entries, m) {
                        let m = choose|m: int| only_tip(entries, m);
                        assert(is_tip(entries, i as int) && is_tip(entries, k as int));
                        assert(false);
                    }
                }
                return Err(JjGtError::NoSingleTip);
            }
            found = Some(i);
        }
    }
    match found {
        Some(k) => {
            assert(only_tip(entries, k as int));
            proof {
                tip_carries_nothing(entries);
                assert(stacked@[k as int].name@ == entries[k as int].name);
                assert forall|j: int| 0 <= j < stacked@.len() implies (
                #[trigger] stacked@[j]).parent@ != ParentView::Bookmark(
                    entries[k as int].name,
                ) by {
                    assert(entries[j] == stacked@[j]@);
                }
            }
            Ok(stacked[k].name.clone())
        },
        None => Err(JjGtError::NoSingleTip),
    }
}

/// The text of [`parent_revset`].
pub open spec fn base_revset(name: Seq<char>, trunk: Seq<char>) -> Seq<char> {
    "heads(::"@ + name + " & bookmarks() ~ "@ + name + " ~ ::"@ + trunk + ")"@
}

/// The revset asks for the heads among the bookmarked ancestors of a bookmark, leaves
/// out the bookmark itself, and behind it what trunk holds.
pub proof fn base_revset_leaves_out_itself_and_trunk(name: Seq<char>, trunk: Seq<char>)
    ensures
        base_revset(name, trunk).len() == 2 * name.len() + trunk.len() + 31,
        base_revset(name, trunk).take(8) == "heads(::"@,
        base_revset(name, trunk).skip(8).take(name.len() as int) == name,
        base_revset(name, trunk).skip(name.len() as int + 8).take(17) == " & bookmarks() ~ "@,
        base_revset(name, trunk).skip(name.len() as int + 25).take(name.len() as int) == name,
        base_revset(name, trunk).skip(2 * name.len() as int + 25).take(5) == " ~ ::"@,
        base_revset(name, trunk).skip(2 * name.len() as int + 30).take(trunk.len() as int)
            == trunk,
        base_revset(name, trunk).last() == ')',
{
    reveal_strlit("heads(::");
    reveal_strlit(" & bookmarks() ~ ");
    reveal_strlit(" ~ ::");
    reveal_strlit(")");
    let text = base_revset(name, trunk);
    assert(text.take(8) =~= "heads(::"@);
    assert(text.skip(8).take(name.len() as int) =~= name);
    assert(text.skip(name.len() as int + 8).take(17) =~= " & bookmarks() ~ "@);
    assert(text.skip(name.len() as int + 25).take(name.len() as int) =~= name);
    assert(text.skip(2 * name.len() as int + 25).take(5) =~= " ~ ::"@);
    assert(text.skip(2 * name.len() as int + 30).take(trunk.len() as int) =~= trunk);
}

/// The revset of the bookmarks that `name` may be stacked on: the nearest
/// bookmarked ancestors that trunk does not hold.
pub fn parent_revset(name: &str, trunk: &str) -> (res: String)
    ensures
        res@ == "heads(::"@ + name@ + " & bookmarks() ~ "@ + name@ + " ~ ::"@ + trunk@ + ")"@,
        res@ == base_revset(name@, trunk@),
        res@.len() == 2 * name@.len() + trunk@.len() + 31,
        res@.skip(8).take(name@.len() as int) == name@,
        res@.skip(name@.len() as int + 25).take(name@.len() as int) == name@,
        res@.skip(2 * name@.len() as int + 30).take(trunk@.len() as int) == trunk@,
{
    proof {
        base_revset_leaves_out_itself_and_trunk(name@, trunk@);
    }
    "heads(::".to_owned().concat(name).concat(" & bookmarks() ~ ").concat(name).concat(
        " ~ ::",
    ).concat(trunk).concat(")")
}

/// What a bookmark is stacked on, given the nearest bookmarks below it.
pub open spec fn nearest_of(names: Seq<Seq<char>>) -> ParentView {
    if names.len() > 0 {
        ParentView::Bookmark(names[0])
    } else {
        ParentView::Trunk
    }
}

/// The first of the nearest bookmarks counts, whatever follows it; without any, it is
/// trunk.
pub proof fn the_first_of_the_nearest_counts(name: Seq<char>, more: Seq<Seq<char>>)
    ensures
        nearest_of(seq![name] + more) == ParentView::Bookmark(name),
        nearest_of(Seq::empty()) is Trunk,
{
}

/// The parent, given the bookmarks that [`parent_revset`] names: the first of
/// them, or trunk where there is none.
pub fn parent_among(names: &Vec<String>) -> (res: BookmarkOrTrunk)
    ensures
        res@ == (if names@.len() == 0 {
            ParentView::Trunk
        } else {
            ParentView::Bookmark(names@[0]@)
        }),
        res@ == nearest_of(views(names@)),
{
    if names.len() == 0 {
        BookmarkOrTrunk::Trunk
    } else {
        BookmarkOrTrunk::Bookmark(names[0].clone())
    }
}

/// Whether `chain` is a linear stack, bottom first: the names are distinct, the
/// bottom one sits on none of them, and each other one sits on the one below.
pub open spec fn linear(chain: Seq<StackedView>) -> bool {
    &&& forall|i: int, j: int|
        0 <= i < j < chain.len() ==> (#[trigger] chain[i]).name != (#[trigger] chain[j]).name
    &&& forall|j: int| 0 <= j < chain.len() ==> !sits_on(chain[0], (#[trigger] chain[j]).name)
    &&& forall|i: int| 0 < i < chain.len() ==> sits_on(#[trigger] chain[i], chain[i - 1].name)
}

proof fn lemma_same_entries(chain: Seq<StackedView>, given: Seq<StackedView>)
    requires
        given.to_multiset() == chain.to_multiset(),
    ensures
        given.len() == chain.len(),
        forall|entry: StackedView| #[trigger] given.contains(entry) <==> chain.contains(entry),
{
    vstd::seq_lib::to_multiset_len(given);
    vstd::seq_lib::to_multiset_len(chain);
    assert forall|entry: StackedView| #[trigger] given.contains(entry) <==> chain.contains(
        entry,
    ) by {
        vstd::seq_lib::to_multiset_contains(given, entry);
        vstd::seq_lib::to_multiset_contains(chain, entry);
    }
}

proof fn lemma_chain_bottom_is_ready(chain: Seq<StackedView>, given: Seq<StackedView>, i: int)
    requires
        linear(chain),
        given.to_multiset() == chain.to_multiset(),
        0 <= i < given.len(),
    ensures
        ready(given, i) <==> given[i] == chain[0],
{
    lemma_same_entries(chain, given);
    assert(given.contains(given[i]));
    let m = choose|m: int| 0 <= m < chain.len() && chain[m] == given[i];
    if m > 0 {
        let below = chain[m - 1];
        assert(chain.contains(below));
        assert(given.contains(below));
        let b = choose|b: int| 0 <= b < given.len() && given[b] == below;
        assert(sits_on(chain[m], below.name));
        assert(sits_on(given[i], given[b].name));
    } else {
        assert forall|j: int| 0 <= j < given.len() implies !sits_on(
            given[i],
            (#[trigger] given[j]).name,
        ) by {
            assert(given.contains(given[j]));
            let n = choose|n: int| 0 <= n < chain.len() && chain[n] == given[j];
            assert(!sits_on(chain[0], chain[n].name));
        }
    }
}

/// A linear stack is tracked bottom to top, in whatever order its bookmarks are
/// given.
pub proof fn linear_stack_is_tracked_bottom_up(chain: Seq<StackedView>, given: Seq<StackedView>)
    requires
        linear(chain),
        given.to_multiset() == chain.to_multiset(),
    ensures
        tracking_order(given) == chain,
    decreases chain.len(),
{
    broadcast use vstd::seq_lib::group_to_multiset_ensures;

    lemma_same_entries(chain, given);
    if chain.len() > 0 {
        assert(chain.contains(chain[0]));
        assert(given.contains(chain[0]));
        let p = choose|p: int| 0 <= p < given.len() && given[p] == chain[0];
        lemma_chain_bottom_is_ready(chain, given, p);
        lemma_first_ready_is_ready(given, 0, p);
        let k = first_ready(given, 0);
        lemma_chain_bottom_is_ready(chain, given, k);
        let rest = given.remove(k);
        let above = chain.remove(0);
        assert(rest.insert(k, given[k]) =~= given);
        assert(above.insert(0, chain[0]) =~= chain);
        assert(rest.to_multiset() =~= above.to_multiset());
        assert(linear(above)) by {
            assert forall|i: int, j: int| 0 <= i < j < above.len() implies (
            #[trigger] above[i]).name != (#[trigger] above[j]).name by {
                assert(above[i] == chain[i + 1] && above[j] == chain[j + 1]);
            }
            assert forall|j: int| 0 <= j < above.len() implies !sits_on(
                above[0],
                (#[trigger] above[j]).name,
            ) by {
                assert(above[j] == chain[j + 1]);
                assert(sits_on(chain[1], chain[0].name));
            }
            assert forall|i: int| 0 < i < above.len() implies sits_on(
                #[trigger] above[i],
                above[i - 1].name,
            ) by {
                assert(above[i] == chain[i + 1] && above[i - 1] == chain[i]);
                assert(sits_on(chain[i + 1], chain[i].name));
            }
        }
        linear_stack_is_tracked_bottom_up(above, rest);
        assert(seq![chain[0]] + above =~= chain);
    } else {
        assert(chain =~= tracking_order(given));
    }
}

/// The tip of a linear stack is its top bookmark, in whatever order its
/// bookmarks are given.
pub proof fn linear_stack_ends_at_top(chain: Seq<StackedView>, given: Seq<StackedView>)
    requires
        linear(chain),
        chain.len() > 0,
        given.to_multiset() == chain.to_multiset(),
    ensures
        tip_of(given) == Some(chain.last().name),
{
    lemma_same_entries(chain, given);
    let top = chain.last();
    assert(chain.contains(top));
    assert(given.contains(top));
    let t = choose|t: int| 0 <= t < given.len() && given[t] == top;
    assert forall|i: int| 0 <= i < given.len() implies (#[trigger] is_tip(given, i) <==> given[i]
        == top) by {
        assert(given.contains(given[i]));
        let m = choose|m: int| 0 <= m < chain.len() && chain[m] == given[i];
        if m < chain.len() - 1 {
            assert(chain.contains(chain[m + 1]));
            assert(given.contains(chain[m + 1]));
            let a = choose|a: int| 0 <= a < given.len() && given[a] == chain[m + 1];
            assert(sits_on(given[a], given[i].name));
        } else {
            assert forall|j: int| 0 <= j < given.len() implies !sits_on(
                #[trigger] given[j],
                given[i].name,
            ) by {
                assert(given.contains(given[j]));
                let n = choose|n: int| 0 <= n < chain.len() && chain[n] == given[j];
                assert(chain[m].name == given[i].name);
                if n > 0 {
                    assert(sits_on(chain[n], chain[n - 1].name));
                }
            }
        }
    }
    assert(only_tip(given, t)) by {
        assert(chain.no_duplicates());
        chain.lemma_multiset_has_no_duplicates();
        given.lemma_multiset_has_no_duplicates_conv();
    }
    let c = choose|i: int| only_tip(given, i);
    assert(is_tip(given, c));
}

/// How one bookmark of a stack is shown, with what it is stacked on.
pub open spec fn stack_line(trunk: Seq<char>, entry: StackedView) -> Seq<char> {
    "  ● "@ + entry.name + "\n    └─ parent: "@ + entry.parent.branch_name(trunk)
}

/// How a stack is shown: two lines of heading, then the entries, last one first.
pub open spec fn stack_lines(trunk: Seq<char>, entries: Seq<StackedView>) -> Seq<Seq<char>> {
    seq!["trunk: "@ + trunk, "stack (top → bottom):"@] + Seq::new(
        entries.len(),
        |i: int| stack_line(trunk, entries[entries.len() - 1 - i]),
    )
}

/// Shows a stack, top first, each bookmark with what it is stacked on; the
/// entries are given bottom first.
pub fn show_stack(trunk: &str, stacked: &Vec<StackedBookmark>) -> (res: Vec<String>)
    ensures
        views(res@) == stack_lines(trunk@, views(stacked@)),
        res@.len() == stacked@.len() + 2,
        res@[0]@ == "trunk: "@ + trunk@,
        res@[1]@ == "stack (top → bottom):"@,
        forall|k: int|
            0 <= k < stacked@.len() ==> res@[stacked@.len() + 1 - k]@ == "  ● "@ + (
            #[trigger] stacked@[k]).name@ + "\n    └─ parent: "@ + stacked@[k].parent@.branch_name(
                trunk@,
            ),
{
    let mut res: Vec<String> = vec![
        "trunk: ".to_owned().concat(trunk),
        "stack (top → bottom):".to_owned(),
    ];
    let ghost lines = stack_lines(trunk@, views(stacked@));
    for i in 0..stacked.len()
        invariant
            lines == stack_lines(trunk@, views(stacked@)),
            views(res@) =~= lines.take(2 + i),
    {
        let entry: &StackedBookmark = &stacked[stacked.len() - 1 - i];
        let line: String = "  ● ".to_owned().concat(entry.name.as_str()).concat(
            "\n    └─ parent: ",
        ).concat(entry.parent.as_branch_name(trunk));
        proof {
            crate::text::lemma_views_push(res@, line);
            assert(lines[2 + i] == line@);
        }
        res.push(line);
    }
    assert(lines.take(lines.len() as int) =~= lines);
    proof {
        assert(views(res@).len() == lines.len());
        assert(views(res@)[0] == lines[0] && views(res@)[1] == lines[1]);
        assert forall|k: int| 0 <= k < stacked@.len() implies res@[stacked@.len() + 1 - k]@
            == "  ● "@ + (#[trigger] stacked@[k]).name@ + "\n    └─ parent: "@
            + stacked@[k].parent@.branch_name(trunk@) by {
            stack_is_shown_top_first(trunk@, views(stacked@), k);
            assert(views(res@)[stacked@.len() + 1 - k] == lines[stacked@.len() + 1 - k]);
            assert(views(stacked@)[k] == stacked@[k]@);
        }
    }
    res
}

/// A bookmark sits on another exactly if its parent is the bookmark of that name;
/// on trunk it sits on none.
pub proof fn sitting_goes_by_name(entry: StackedView, name: Seq<char>)
    ensures
        sits_on(entry, name) <==> entry.parent == ParentView::Bookmark(name),
        entry.parent is Trunk ==> !sits_on(entry, name),
{
}

/// The branch of a parent is the bookmark that it names, or trunk.
pub proof fn parents_are_branches(parent: ParentView, name: Seq<char>, trunk: Seq<char>)
    ensures
        ParentView::Bookmark(name).branch_name(trunk) == name,
        ParentView::Trunk.branch_name(trunk) == trunk,
        parent is Trunk ==> parent.branch_name(trunk) == trunk,
{
}

/// Views of parents and stacked bookmarks hold the same names, each in its place.
pub proof fn stacked_views(entry: StackedBookmark)
    ensures
        entry@.name == entry.name@,
        entry@.parent == entry.parent@,
        entry.parent is Trunk <==> entry@.parent is Trunk,
        entry.parent matches BookmarkOrTrunk::Bookmark(name) ==> entry@.parent
            == ParentView::Bookmark(name@),
{
}

/// Nothing is tracked before what it is stacked on: where some rank puts every entry
/// above the one that it names as its parent, an entry that is tracked first does
/// not name one that is tracked later.
pub proof fn parents_are_tracked_before(
    entries: Seq<StackedView>,
    rank: spec_fn(Seq<char>) -> nat,
    i: int,
    j: int,
)
    requires
        forall|a: int, b: int|
            0 <= a < entries.len() && 0 <= b < entries.len() && (#[trigger] entries[a]).parent
                == ParentView::Bookmark((#[trigger] entries[b]).name) ==> rank(entries[b].name)
                < rank(entries[a].name),
        0 <= i <= j < tracking_order(entries).len(),
    ensures
        tracking_order(entries)[i].parent != ParentView::Bookmark(
            tracking_order(entries)[j].name,
        ),
{
    assert(ranked(entries, rank));
    tracking_order_puts_parents_first(entries);
    assert(!sits_on(tracking_order(entries)[i], tracking_order(entries)[j].name));
}

/// A tip is one of the entries, and no entry names it as its parent.
pub proof fn tip_carries_nothing(entries: Seq<StackedView>)
    ensures
        tip_of(entries) matches Some(tip) ==> exists|i: int|
            0 <= i < entries.len() && (#[trigger] entries[i]).name == tip,
        tip_of(entries) matches Some(tip) ==> forall|j: int|
            0 <= j < entries.len() ==> (#[trigger] entries[j]).parent != ParentView::Bookmark(tip),
{
    if tip_of(entries) is Some {
        let i = choose|i: int| only_tip(entries, i);
        assert(entries[i].name == tip_of(entries)->0);
        assert forall|j: int| 0 <= j < entries.len() implies (#[trigger] entries[j]).parent
            != ParentView::Bookmark(entries[i].name) by {
            assert(!sits_on(entries[j], entries[i].name));
        }
    }
}

/// The only entry that nothing is stacked on is the tip.
pub proof fn single_tip_is_found(entries: Seq<StackedView>, i: int)
    requires
        0 <= i < entries.len(),
        forall|j: int|
            0 <= j < entries.len() ==> (#[trigger] entries[j]).parent != ParentView::Bookmark(
                entries[i].name,
            ),
        forall|m: int|
            0 <= m < entries.len() && m != i ==> exists|j: int|
                0 <= j < entries.len() && (#[trigger] entries[j]).parent == ParentView::Bookmark(
                    (#[trigger] entries[m]).name,
                ),
    ensures
        tip_of(entries) == Some(entries[i].name),
{
    assert forall|j: int| 0 <= j < entries.len() implies !sits_on(
        #[trigger] entries[j],
        entries[i].name,
    ) by {}
    assert forall|m: int| 0 <= m < entries.len() && #[trigger] is_tip(entries, m) implies m == i by {
        if m != i {
            assert(entries[m] == entries[m]);
            let j = choose|j: int|
                0 <= j < entries.len() && (#[trigger] entries[j]).parent == ParentView::Bookmark(
                    entries[m].name,
                );
            assert(sits_on(entries[j], entries[m].name));
        }
    }
    assert(only_tip(entries, i));
    let c = choose|c: int| only_tip(entries, c);
    assert(is_tip(entries, c));
}

/// Two entries that nothing is stacked on leave no single tip.
pub proof fn two_tips_are_none(entries: Seq<StackedView>, a: int, b: int)
    requires
        0 <= a < b < entries.len(),
        forall|j: int|
            0 <= j < entries.len() ==> (#[trigger] entries[j]).parent != ParentView::Bookmark(
                entries[a].name,
            ),
        forall|j: int|
            0 <= j < entries.len() ==> (#[trigger] entries[j]).parent != ParentView::Bookmark(
                entries[b].name,
            ),
    ensures
        tip_of(entries) is None,
{
    assert(is_tip(entries, a));
    assert(is_tip(entries, b));
}

/// A stack in which every entry has one stacked on it has no tip.
pub proof fn no_tip_is_none(entries: Seq<StackedView>)
    requires
        forall|m: int|
            0 <= m < entries.len() ==> exists|j: int|
                0 <= j < entries.len() && (#[trigger] entries[j]).parent == ParentView::Bookmark(
                    (#[trigger] entries[m]).name,
                ),
    ensures
        tip_of(entries) is None,
{
    if tip_of(entries) is Some {
        let i = choose|i: int| only_tip(entries, i);
        let j = choose|j: int|
            0 <= j < entries.len() && (#[trigger] entries[j]).parent == ParentView::Bookmark(
                entries[i].name,
            );
        assert(sits_on(entries[j], entries[i].name));
    }
}

/// A stack is shown top first below its two lines of heading: the line of the entry
/// at `k` has as many lines above it, besides the heading, as there are entries
/// above `k`, and it names the entry and what it is stacked on.
pub proof fn stack_is_shown_top_first(trunk: Seq<char>, entries: Seq<StackedView>, k: int)
    requires
        0 <= k < entries.len(),
    ensures
        stack_lines(trunk, entries).len() == entries.len() + 2,
        stack_lines(trunk, entries)[0] == "trunk: "@ + trunk,
        stack_lines(trunk, entries)[1] == "stack (top → bottom):"@,
        stack_lines(trunk, entries)[entries.len() + 1 - k] == "  ● "@ + entries[k].name
            + "\n    └─ parent: "@ + (match entries[k].parent {
            ParentView::Bookmark(parent) => parent,
            ParentView::Trunk => trunk,
        }),
{
}

/// A linear stack, given bottom first, is shown from its top down: right below the
/// line of each bookmark but the bottom one stands the line of the bookmark that it
/// is stacked on.
pub proof fn linear_stack_is_shown_downwards(
    trunk: Seq<char>,
    chain: Seq<StackedView>,
    k: int,
)
    requires
        0 < k < chain.len(),
        chain[k].parent == ParentView::Bookmark(chain[k - 1].name),
    ensures
        ({
            let lines = stack_lines(trunk, chain);
            let at = chain.len() + 1 - k;
            &&& lines[at] == "  ● "@ + chain[k].name + "\n    └─ parent: "@ + chain[k - 1].name
            &&& lines[at + 1].take(4 + chain[k - 1].name.len() as int) == "  ● "@ + chain[k
                - 1].name
        }),
{
    stack_is_shown_top_first(trunk, chain, k);
    stack_is_shown_top_first(trunk, chain, k - 1);
    reveal_strlit("  ● ");
    let lines = stack_lines(trunk, chain);
    let at = chain.len() + 1 - k;
    assert(lines[at + 1].take(4 + chain[k - 1].name.len() as int) =~= "  ● "@ + chain[k - 1].name);
}

/// What is tracked first is the first entry that is not stacked on any of the others;
/// the rest follows as if that entry had not been there.
pub proof fn first_free_entry_goes_first(entries: Seq<StackedView>, k: int)
    requires
        0 <= k < entries.len(),
        forall|j: int|
            0 <= j < entries.len() ==> entries[k].parent != ParentView::Bookmark(
                (#[trigger] entries[j]).name,
            ),
        forall|m: int|
            0 <= m < k ==> exists|j: int|
                0 <= j < entries.len() && (#[trigger] entries[m]).parent == ParentView::Bookmark(
                    (#[trigger] entries[j]).name,
                ),
    ensures
        tracking_order(entries) == seq![entries[k]] + tracking_order(entries.remove(k)),
{
    assert forall|m: int| 0 <= m < k implies !(#[trigger] ready(entries, m)) by {
        let j = choose|j: int|
            0 <= j < entries.len() && entries[m].parent == ParentView::Bookmark(
                (#[trigger] entries[j]).name,
            );
        assert(sits_on(entries[m], entries[j].name));
    }
    assert forall|j: int| 0 <= j < entries.len() implies !sits_on(
        entries[k],
        (#[trigger] entries[j]).name,
    ) by {}
    lemma_first_ready_is(entries, 0, k);
}

proof fn lemma_first_ready_is(entries: Seq<StackedView>, from: int, k: int)
    requires
        0 <= from <= k < entries.len(),
        ready(entries, k),
        forall|m: int| from <= m < k ==> !(#[trigger] ready(entries, m)),
    ensures
        first_ready(entries, from) == k,
    decreases k - from,
{
    if from < k {
        assert(!ready(entries, from));
        lemma_first_ready_is(entries, from + 1, k);
    }
}

/// A list in which nothing comes before what it is stacked on is tracked as it stands.
pub proof fn sorted_stacks_stay_as_they_are(entries: Seq<StackedView>)
    requires
        forall|i: int, j: int|
            0 <= i <= j < entries.len() ==> (#[trigger] entries[i]).parent != ParentView::Bookmark(
                (#[trigger] entries[j]).name,
            ),
    ensures
        tracking_order(entries) == entries,
    decreases entries.len(),
{
    if entries.len() > 0 {
        let rest = entries.remove(0);
        assert forall|i: int, j: int| 0 <= i <= j < rest.len() implies (
        #[trigger] rest[i]).parent != ParentView::Bookmark((#[trigger] rest[j]).name) by {
            assert(rest[i] == entries[i + 1] && rest[j] == entries[j + 1]);
        }
        sorted_stacks_stay_as_they_are(rest);
        assert forall|j: int| 0 <= j < entries.len() implies entries[0].parent
            != ParentView::Bookmark((#[trigger] entries[j]).name) by {
            assert(entries[0] == entries[0]);
        }
        first_free_entry_goes_first(entries, 0);
        assert(seq![entries[0]] + rest =~= entries);
    } else {
        assert(tracking_order(entries) =~= entries);
    }
}

} // verus!
