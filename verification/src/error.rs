//! The errors that the library raises or passes on.

use vstd::prelude::*;

verus! {

/// Why a command could not be carried out.
#[derive(Debug, PartialEq, Eq)]
pub enum JjGtError {
    /// The selection names no bookmark at all.
    NoBookmarksSelected,
    /// The selected bookmarks do not end in exactly one tip.
    NoSingleTip,
    /// The request is refused, with the reason.
    Invalid(String),
    /// An external tool failed, with what it said.
    Tool(String),
    /// A command was answered with a reply of another kind.
    UnexpectedReply,
}

/// The texts of a [`JjGtError`].
pub enum ErrorView {
    NoBookmarksSelected,
    NoSingleTip,
    Invalid(Seq<char>),
    Tool(Seq<char>),
    UnexpectedReply,
}

impl View for JjGtError {
    type V = ErrorView;

    open spec fn view(&self) -> ErrorView {
        match self {
            JjGtError::NoBookmarksSelected => ErrorView::NoBookmarksSelected,
            JjGtError::NoSingleTip => ErrorView::NoSingleTip,
            JjGtError::Invalid(reason) => ErrorView::Invalid(reason@),
            JjGtError::Tool(said) => ErrorView::Tool(said@),
            JjGtError::UnexpectedReply => ErrorView::UnexpectedReply,
        }
    }
}

impl Clone for JjGtError {
    fn clone(&self) -> (res: Self)
        ensures
            res@ == self@,
    {
        match self {
            JjGtError::NoBookmarksSelected => JjGtError::NoBookmarksSelected,
            JjGtError::NoSingleTip => JjGtError::NoSingleTip,
            JjGtError::Invalid(reason) => JjGtError::Invalid(reason.clone()),
            JjGtError::Tool(said) => JjGtError::Tool(said.clone()),
            JjGtError::UnexpectedReply => JjGtError::UnexpectedReply,
        }
    }
}

impl ErrorView {
    /// The error as a line for the user.
    pub open spec fn message(self) -> Seq<char> {
        match self {
            ErrorView::NoBookmarksSelected => "no bookmarks selected"@,
            ErrorView::NoSingleTip => "the selected bookmarks do not form a single stack"@,
            ErrorView::Invalid(reason) => reason,
            ErrorView::Tool(said) => said,
            ErrorView::UnexpectedReply => "a command was answered with a reply of another kind"@,
        }
    }
}

impl JjGtError {
    /// The error as a line for the user.
    pub fn message(&self) -> (res: String)
        ensures
            res@ == self@.message(),
            match *self {
                JjGtError::NoBookmarksSelected => res@ == "no bookmarks selected"@,
                JjGtError::NoSingleTip => res@
                    == "the selected bookmarks do not form a single stack"@,
                JjGtError::Invalid(reason) => res@ == reason@,
                JjGtError::Tool(said) => res@ == said@,
                JjGtError::UnexpectedReply => res@
                    == "a command was answered with a reply of another kind"@,
            },
    {
        match self {
            JjGtError::NoBookmarksSelected => "no bookmarks selected".to_owned(),
            JjGtError::NoSingleTip => {
                "the selected bookmarks do not form a single stack".to_owned()
            },
            JjGtError::Invalid(reason) => reason.clone(),
            JjGtError::Tool(said) => said.clone(),
            JjGtError::UnexpectedReply => {
                "a command was answered with a reply of another kind".to_owned()
            },
        }
    }
}

/// An error that carries a text says that text, and nothing else; one that does not
/// has a line of its own.
pub proof fn errors_say_what_they_carry(text: Seq<char>)
    ensures
        ErrorView::Invalid(text).message() == text,
        ErrorView::Tool(text).message() == text,
        ErrorView::NoBookmarksSelected.message() == "no bookmarks selected"@,
        ErrorView::NoSingleTip.message() == "the selected bookmarks do not form a single stack"@,
        ErrorView::UnexpectedReply.message()
            == "a command was answered with a reply of another kind"@,
{
}

/// The view of an error is of the same kind and carries the same text.
pub proof fn error_views(error: JjGtError)
    ensures
        error is NoBookmarksSelected <==> error@ is NoBookmarksSelected,
        error is NoSingleTip <==> error@ is NoSingleTip,
        error is UnexpectedReply <==> error@ is UnexpectedReply,
        error matches JjGtError::Invalid(reason) ==> error@ == ErrorView::Invalid(reason@),
        error matches JjGtError::Tool(said) ==> error@ == ErrorView::Tool(said@),
{
}

} // verus!
