//! What the library knows of a bookmark in the local jj repository.

use vstd::prelude::*;

use crate::text::views;

verus! {

/// A local bookmark and the commit that it points at.
#[derive(Debug, PartialEq, Eq)]
pub struct LocalBookmark {
    pub name: String,
    /// Possibly shortened hexadecimal commit id.
    pub commit_id: String,
}

/// The texts of a [`LocalBookmark`].
pub struct BookmarkView {
    pub name: Seq<char>,
    pub commit_id: Seq<char>,
}

impl View for LocalBookmark {
    type V = BookmarkView;

    open spec fn view(&self) -> BookmarkView {
        BookmarkView { name: self.name@, commit_id: self.commit_id@ }
    }
}

impl Clone for LocalBookmark {
    fn clone(&self) -> (res: Self)
        ensures
            res@ == self@,
            res.name@ == self.name@,
            res.commit_id@ == self.commit_id@,
    {
        LocalBookmark { name: self.name.clone(), commit_id: self.commit_id.clone() }
    }
}

/// A copy of a list of bookmarks.
pub fn copy_bookmarks(bookmarks: &Vec<LocalBookmark>) -> (res: Vec<LocalBookmark>)
    ensures
        views(res@) == views(bookmarks@),
        res@.len() == bookmarks@.len(),
        forall|i: int|
            0 <= i < bookmarks@.len() ==> (#[trigger] res@[i]).name@ == bookmarks@[i].name@
                && res@[i].commit_id@ == bookmarks@[i].commit_id@,
{
    let mut res: Vec<LocalBookmark> = Vec::new();
    for i in 0..bookmarks.len()
        invariant
            views(res@) =~= views(bookmarks@).take(i as int),
    {
        let bookmark: LocalBookmark = bookmarks[i].clone();
        proof {
            crate::text::lemma_views_push(res@, bookmark);
        }
        res.push(bookmark);
    }
    assert(views(bookmarks@).take(bookmarks@.len() as int) =~= views(bookmarks@));
    assert forall|i: int| 0 <= i < bookmarks@.len() implies (#[trigger] res@[i]).name@
        == bookmarks@[i].name@ && res@[i].commit_id@ == bookmarks@[i].commit_id@ by {
        assert(views(res@)[i] == views(bookmarks@)[i]);
    }
    res
}

/// The names of `bookmarks`, in order.
pub open spec fn names_of(bookmarks: Seq<BookmarkView>) -> Seq<Seq<char>> {
    Seq::new(bookmarks.len(), |i: int| bookmarks[i].name)
}

/// Collects the names of `bookmarks`, in order.
pub fn bookmark_names(bookmarks: &Vec<LocalBookmark>) -> (res: Vec<String>)
    ensures
        views(res@) == names_of(views(bookmarks@)),
        res@.len() == bookmarks@.len(),
        forall|i: int| 0 <= i < bookmarks@.len() ==> (#[trigger] res@[i])@ == bookmarks@[i].name@,
{
    let mut res: Vec<String> = Vec::new();
    for i in 0..bookmarks.len()
        invariant
            views(res@) =~= names_of(views(bookmarks@)).take(i as int),
    {
        let name: String = bookmarks[i].name.clone();
        proof {
            crate::text::lemma_views_push(res@, name);
        }
        res.push(name);
    }
    assert(names_of(views(bookmarks@)).take(bookmarks@.len() as int) =~= names_of(views(bookmarks@)));
    assert forall|i: int| 0 <= i < bookmarks@.len() implies (#[trigger] res@[i])@
        == bookmarks@[i].name@ by {
        assert(views(res@)[i] == names_of(views(bookmarks@))[i]);
    }
    res
}

/// The view of a bookmark holds its name as the name and its commit as the commit.
pub proof fn bookmark_views(bookmark: LocalBookmark)
    ensures
        bookmark@.name == bookmark.name@,
        bookmark@.commit_id == bookmark.commit_id@,
{
}

/// Names are taken bookmark by bookmark.
pub proof fn names_go_by_bookmark(bookmarks: Seq<BookmarkView>)
    ensures
        names_of(bookmarks).len() == bookmarks.len(),
        forall|i: int|
            0 <= i < bookmarks.len() ==> #[trigger] names_of(bookmarks)[i] == bookmarks[i].name,
{
}

} // verus!
