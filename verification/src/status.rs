//! What `jj-gt status` shows of a selection, and which branch is trunk.

use vstd::prelude::*;

use crate::error::JjGtError;
use crate::gh::{find_pr, first_pr, PrInfo, PrState, PrView};
use crate::jj::{BookmarkView, LocalBookmark};
use crate::stack::{BookmarkOrTrunk, ParentView, StackedBookmark, StackedView};
use crate::text::{opt_view, same_text, views};

verus! {

/// One bookmark with all that is known of it.
#[derive(Debug, PartialEq, Eq)]
pub struct StatusRow {
    pub name: String,
    /// The branch that the bookmark is stacked on.
    pub parent: String,
    /// The commit that the bookmark points at, if it is a local one.
    pub commit_id: Option<String>,
    /// Number and state of the pull request, if there is one.
    pub pr: Option<(u32, PrState)>,
}

/// The contents of a [`StatusRow`].
pub struct RowView {
    pub name: Seq<char>,
    pub parent: Seq<char>,
    pub commit_id: Option<Seq<char>>,
    pub pr: Option<(u32, PrState)>,
}

impl View for StatusRow {
    type V = RowView;

    open spec fn view(&self) -> RowView {
        RowView {
            name: self.name@,
            parent: self.parent@,
            commit_id: opt_view(self.commit_id),
            pr: self.pr,
        }
    }
}

/// The commit of the first bookmark called `name`.
pub open spec fn commit_of(locals: Seq<BookmarkView>, name: Seq<char>) -> Option<Seq<char>>
    decreases locals.len(),
{
    if locals.len() == 0 {
        None
    } else if locals[0].name == name {
        Some(locals[0].commit_id)
    } else {
        commit_of(locals.drop_first(), name)
    }
}

/// The row of one stacked bookmark.
pub open spec fn status_row(
    trunk: Seq<char>,
    entry: StackedView,
    locals: Seq<BookmarkView>,
    prs: Seq<PrView>,
) -> RowView {
    RowView {
        name: entry.name,
        parent: entry.parent.branch_name(trunk),
        commit_id: commit_of(locals, entry.name),
        pr: match first_pr(prs, entry.name) {
            Some(pr) => Some((pr.number, pr.state)),
            None => None,
        },
    }
}

fn find_commit(locals: &Vec<LocalBookmark>, name: &String) -> (res: Option<String>)
    ensures
        opt_view(res) == commit_of(views(locals@), name@),
{
    assert(views(locals@).skip(0) =~= views(locals@));
    for i in 0..locals.len()
        invariant
            commit_of(views(locals@), name@) == commit_of(views(locals@).skip(i as int), name@),
    {
        if same_text(&locals[i].name, name) {
            return Some(locals[i].commit_id.clone());
        }
        assert(views(locals@).skip(i as int).drop_first() =~= views(locals@).skip(i + 1));
    }
    None
}

/// Puts together what is known of each stacked bookmark, in order.
pub fn build(
    trunk: &str,
    stacked: &Vec<StackedBookmark>,
    locals: &Vec<LocalBookmark>,
    prs: &Vec<PrInfo>,
) -> (res: Vec<StatusRow>)
    ensures
        views(res@) == Seq::new(
            stacked@.len(),
            |i: int| status_row(trunk@, stacked@[i]@, views(locals@), views(prs@)),
        ),
        res@.len() == stacked@.len(),
        forall|i: int|
            0 <= i < stacked@.len() ==> {
                let row = #[trigger] res@[i];
                &&& row.name@ == stacked@[i].name@
                &&& row.parent@ == (match stacked@[i].parent {
                    BookmarkOrTrunk::Bookmark(parent) => parent@,
                    BookmarkOrTrunk::Trunk => trunk@,
                })
            },
        forall|i: int, k: int|
            0 <= i < stacked@.len() && 0 <= k < prs@.len() && (#[trigger] prs@[k]).head_ref_name@
                == stacked@[i].name@ ==> (#[trigger] res@[i]).pr is Some,
        forall|i: int|
            0 <= i < stacked@.len() && (#[trigger] res@[i]).pr is Some ==> shows_listed_pr(
                res@[i],
                prs@,
                stacked@[i].name@,
            ),
        forall|i: int, k: int|
            0 <= i < stacked@.len() && 0 <= k < locals@.len() && (#[trigger] locals@[k]).name@
                == stacked@[i].name@ ==> (#[trigger] res@[i]).commit_id is Some,
        forall|i: int|
            0 <= i < stacked@.len() && (#[trigger] res@[i]).commit_id is Some
                ==> shows_local_commit(res@[i], locals@, stacked@[i].name@),
{
    let mut res: Vec<StatusRow> = Vec::new();
    for i in 0..stacked.len()
        invariant
            res@.len() == i,
            forall|j: int|
                0 <= j < i ==> (#[trigger] res@[j])@ == status_row(
                    trunk@,
                    stacked@[j]@,
                    views(locals@),
                    views(prs@),
                ),
    {
        let entry: &StackedBookmark = &stacked[i];
        res.push(
            StatusRow {
                name: entry.name.clone(),
                parent: entry.parent.as_branch_name(trunk).to_owned(),
                commit_id: find_commit(locals, &entry.name),
                pr: match find_pr(prs, &entry.name) {
                    Some(pr) => Some((pr.number, pr.state)),
                    None => None,
                },
            },
        );
    }
    assert(views(res@) =~= Seq::new(
        stacked@.len(),
        |i: int| status_row(trunk@, stacked@[i]@, views(locals@), views(prs@)),
    ));
    proof {
        assert forall|i: int, k: int|
            0 <= i < stacked@.len() && 0 <= k < prs@.len() && (#[trigger] prs@[k]).head_ref_name@
                == stacked@[i].name@ implies (#[trigger] res@[i]).pr is Some by {
            assert(res@[i]@.pr == res@[i].pr);
            crate::gh::listed_pr_is_found(views(prs@), stacked@[i].name@, k);
        }
        assert forall|i: int|
            0 <= i < stacked@.len() && (#[trigger] res@[i]).pr is Some implies shows_listed_pr(
            res@[i],
            prs@,
            stacked@[i].name@,
        ) by {
            lemma_shows_listed_pr(trunk@, stacked@[i], views(locals@), prs@, res@[i]);
        }
        assert forall|i: int, k: int|
            0 <= i < stacked@.len() && 0 <= k < locals@.len() && (#[trigger] locals@[k]).name@
                == stacked@[i].name@ implies (#[trigger] res@[i]).commit_id is Some by {
            assert(res@[i]@.commit_id is Some <==> res@[i].commit_id is Some);
            listed_commit_is_found(views(locals@), stacked@[i].name@, k);
        }
        assert forall|i: int|
            0 <= i < stacked@.len() && (
            #[trigger] res@[i]).commit_id is Some implies shows_local_commit(
            res@[i],
            locals@,
            stacked@[i].name@,
        ) by {
            lemma_shows_local_commit(trunk@, stacked@[i], locals@, views(prs@), res@[i]);
        }
    }
    res
}

/// Whether the row shows number and state of one of the pull requests of a branch.
pub open spec fn shows_listed_pr(row: StatusRow, prs: Seq<PrInfo>, branch: Seq<char>) -> bool {
    exists|k: int|
        0 <= k < prs.len() && (#[trigger] prs[k]).head_ref_name@ == branch && row.pr == Some(
            (prs[k].number, prs[k].state),
        )
}

/// Whether the row shows the commit of one of the local bookmarks of that name.
pub open spec fn shows_local_commit(
    row: StatusRow,
    locals: Seq<LocalBookmark>,
    name: Seq<char>,
) -> bool {
    exists|k: int|
        0 <= k < locals.len() && (#[trigger] locals[k]).name@ == name && row.commit_id is Some
            && row.commit_id->0@ == locals[k].commit_id@
}

proof fn lemma_shows_listed_pr(
    trunk: Seq<char>,
    entry: StackedBookmark,
    locals: Seq<BookmarkView>,
    prs: Seq<PrInfo>,
    row: StatusRow,
)
    requires
        row@ == status_row(trunk, entry@, locals, views(prs)),
        row.pr is Some,
    ensures
        shows_listed_pr(row, prs, entry.name@),
{
    crate::gh::found_pr_is_listed(views(prs), entry.name@);
    let pr = first_pr(views(prs), entry.name@)->0;
    let k = choose|k: int| 0 <= k < views(prs).len() && views(prs)[k] == pr;
    assert(prs[k]@ == pr);
    assert(row@.pr == row.pr);
}

proof fn lemma_shows_local_commit(
    trunk: Seq<char>,
    entry: StackedBookmark,
    locals: Seq<LocalBookmark>,
    prs: Seq<PrView>,
    row: StatusRow,
)
    requires
        row@ == status_row(trunk, entry@, views(locals), prs),
        row.commit_id is Some,
    ensures
        shows_local_commit(row, locals, entry.name@),
{
    let k = found_commit_is_listed(views(locals), entry.name@);
    assert(locals[k]@ == views(locals)[k]);
}

/// The name of trunk, given what the user says and what is configured.
pub open spec fn trunk_of(
    given: Option<Seq<char>>,
    configured: Option<Seq<char>>,
) -> Seq<char> {
    if given is Some {
        given->0
    } else if configured is Some {
        configured->0
    } else {
        "main"@
    }
}

/// The user's word on trunk counts whatever is configured; without it the configured
/// one counts, and without either it is `main`.
pub proof fn the_users_trunk_wins(name: Seq<char>, configured: Option<Seq<char>>)
    ensures
        trunk_of(Some(name), configured) == name,
        trunk_of(None, Some(name)) == name,
        trunk_of(None, None) == "main"@,
{
}

/// Which branch is trunk: the one that the user names, else the one that the
/// repository is configured with, else `main`.
pub fn resolve_trunk(given: Option<String>, configured: Option<String>) -> (res: String)
    ensures
        res@ == (match (given, configured) {
            (Some(name), _) => name@,
            (None, Some(name)) => name@,
            (None, None) => "main"@,
        }),
        res@ == trunk_of(opt_view(given), opt_view(configured)),
{
    match given {
        Some(name) => name,
        None => match configured {
            Some(name) => name,
            None => "main".to_owned(),
        },
    }
}

/// Refuses a selection without bookmarks.
pub fn require_selection(selected: &Vec<String>) -> (res: Result<(), JjGtError>)
    ensures
        match res {
            Ok(()) => selected@.len() > 0,
            Err(error) => selected@.len() == 0 && error == JjGtError::NoBookmarksSelected,
        },
{
    if selected.len() == 0 {
        Err(JjGtError::NoBookmarksSelected)
    } else {
        Ok(())
    }
}

/// The commit that is found is the one of the first bookmark of that name: if the
/// bookmark at `i` has the name and none before it has, it is its commit.
pub proof fn found_commit_is_the_first(locals: Seq<BookmarkView>, name: Seq<char>, i: int)
    requires
        0 <= i < locals.len(),
        locals[i].name == name,
        forall|j: int| 0 <= j < i ==> (#[trigger] locals[j]).name != name,
    ensures
        commit_of(locals, name) == Some(locals[i].commit_id),
    decreases i,
{
    if i > 0 {
        let rest = locals.drop_first();
        assert(locals[0].name != name);
        assert forall|j: int| 0 <= j < i - 1 implies (#[trigger] rest[j]).name != name by {
            assert(rest[j] == locals[j + 1]);
        }
        found_commit_is_the_first(rest, name, i - 1);
    }
}

/// A commit is found if a bookmark of that name is listed at all.
pub proof fn listed_commit_is_found(locals: Seq<BookmarkView>, name: Seq<char>, i: int)
    requires
        0 <= i < locals.len(),
        locals[i].name == name,
    ensures
        commit_of(locals, name) is Some,
    decreases i,
{
    if locals[0].name != name {
        assert(locals.drop_first()[i - 1] == locals[i]);
        listed_commit_is_found(locals.drop_first(), name, i - 1);
    }
}

/// A commit that is found belongs to a listed bookmark of that name.
pub proof fn found_commit_is_listed(locals: Seq<BookmarkView>, name: Seq<char>) -> (i: int)
    requires
        commit_of(locals, name) is Some,
    ensures
        0 <= i < locals.len(),
        locals[i].name == name,
        commit_of(locals, name) == Some(locals[i].commit_id),
    decreases locals.len(),
{
    if locals[0].name == name {
        0
    } else {
        let k = found_commit_is_listed(locals.drop_first(), name);
        assert(locals.drop_first()[k] == locals[k + 1]);
        k + 1
    }
}

/// A row shows the bookmark itself, on what it is stacked on.
pub proof fn rows_show_the_bookmark(
    trunk: Seq<char>,
    entry: StackedView,
    locals: Seq<BookmarkView>,
    prs: Seq<PrView>,
)
    ensures
        status_row(trunk, entry, locals, prs).name == entry.name,
        status_row(trunk, entry, locals, prs).parent == (match entry.parent {
            ParentView::Bookmark(parent) => parent,
            ParentView::Trunk => trunk,
        }),
{
}

/// A row shows the pull request of its bookmark, whatever the state of it: if the one
/// listed at `i` was opened from a branch of that name, and none before it was, the
/// row has its number and its state.
pub proof fn rows_show_the_pull_request(
    trunk: Seq<char>,
    entry: StackedView,
    locals: Seq<BookmarkView>,
    prs: Seq<PrView>,
    i: int,
)
    requires
        0 <= i < prs.len(),
        prs[i].head_ref_name == entry.name,
        forall|j: int| 0 <= j < i ==> (#[trigger] prs[j]).head_ref_name != entry.name,
    ensures
        status_row(trunk, entry, locals, prs).pr == Some((prs[i].number, prs[i].state)),
{
    crate::gh::found_pr_is_the_first(prs, entry.name, i);
}

/// A row has no pull request if none of the listed ones was opened from a branch of
/// that name, and no commit if no listed bookmark has the name.
pub proof fn rows_make_nothing_up(
    trunk: Seq<char>,
    entry: StackedView,
    locals: Seq<BookmarkView>,
    prs: Seq<PrView>,
)
    ensures
        (forall|j: int| 0 <= j < prs.len() ==> (#[trigger] prs[j]).head_ref_name != entry.name)
            ==> status_row(trunk, entry, locals, prs).pr is None,
        (forall|j: int| 0 <= j < locals.len() ==> (#[trigger] locals[j]).name != entry.name)
            ==> status_row(trunk, entry, locals, prs).commit_id is None,
{
    crate::gh::found_pr_is_listed(prs, entry.name);
    if commit_of(locals, entry.name) is Some {
        let k = found_commit_is_listed(locals, entry.name);
    }
}

/// A row shows the commit of its bookmark: of those listed under its name, the first.
pub proof fn rows_show_the_commit(
    trunk: Seq<char>,
    entry: StackedView,
    locals: Seq<BookmarkView>,
    prs: Seq<PrView>,
    i: int,
)
    requires
        0 <= i < locals.len(),
        locals[i].name == entry.name,
        forall|j: int| 0 <= j < i ==> (#[trigger] locals[j]).name != entry.name,
    ensures
        status_row(trunk, entry, locals, prs).commit_id == Some(locals[i].commit_id),
{
    found_commit_is_the_first(locals, entry.name, i);
}

/// The view of a row holds each field under its own name.
pub proof fn row_views(row: StatusRow)
    ensures
        row@.name == row.name@,
        row@.parent == row.parent@,
        row@.commit_id is Some <==> row.commit_id is Some,
        row.commit_id matches Some(commit) ==> row@.commit_id == Some(commit@),
        row@.pr == row.pr,
{
}

} // verus!
