//! The vocabulary between the pipelines and the tools: what a pipeline asks to
//! be done next, and what it is told in return.

use vstd::prelude::*;

use crate::error::{ErrorView, JjGtError};
use crate::gh::{PrInfo, PrView};
use crate::hooks::{HookOutcome, OutcomeView, Runner};
use crate::jj::{BookmarkView, LocalBookmark};
use crate::stack::{StackedBookmark, StackedView};
use crate::text::{opt_view, views};

verus! {

/// One thing to be done outside the library.
#[derive(Debug, PartialEq, Eq)]
pub enum Command {
    /// `jj git fetch` from a remote.
    GitFetch { remote: String },
    /// `jj git import`.
    GitImport,
    /// `jj git export`.
    GitExport,
    /// List the local bookmarks.
    ListBookmarks,
    /// Find what each of these bookmarks is stacked on.
    DeriveParents { names: Vec<String>, trunk: String },
    /// Look for the merge marker of a pull request on trunk.
    FindMergeMarker { pr: u32, trunk: String },
    /// `jj rebase` a bookmark onto a destination.
    Rebase { revset: String, destination: String },
    /// `jj bookmark delete`.
    DeleteBookmark { name: String },
    /// Track a bookmark on a remote, so that its commits stay mutable.
    TrackOnRemote { name: String, remote: String },
    /// Ask for the id of the working-copy change.
    CurrentChange,
    /// Make a change the working copy again.
    EditChange { change: String },
    /// `gt track <name> --parent <parent>`.
    GtTrack { name: String, parent: String },
    /// `gt sync` without restacking.
    GtSync,
    /// `gt` with these arguments, which submit a stack.
    GtSubmit { argv: Vec<String> },
    /// Delete a branch on a remote.
    DeleteRemoteBranch { remote: String, name: String },
    /// List the pull requests of these branches.
    FindPrs { names: Vec<String>, limit: u32 },
    /// List the pull requests whose branch begins with one of these prefixes.
    FindQueuePrs { prefixes: Vec<String>, limit: u32 },
    /// Run the pre-push hooks on a revset, with this runner or the one that is
    /// detected.
    RunHooks { revset: String, runner: Option<Runner> },
    /// Ask the user whether to delete a bookmark whose pull request has landed.
    ConfirmDelete { name: String, pr: u32, merge_commit_id: String },
    /// A line on standard output.
    Print(String),
    /// A line on standard error.
    Warn(String),
    /// A line in the log.
    Log(String),
}

/// The texts and numbers of a [`Command`].
pub enum CommandView {
    GitFetch { remote: Seq<char> },
    GitImport,
    GitExport,
    ListBookmarks,
    DeriveParents { names: Seq<Seq<char>>, trunk: Seq<char> },
    FindMergeMarker { pr: u32, trunk: Seq<char> },
    Rebase { revset: Seq<char>, destination: Seq<char> },
    DeleteBookmark { name: Seq<char> },
    TrackOnRemote { name: Seq<char>, remote: Seq<char> },
    CurrentChange,
    EditChange { change: Seq<char> },
    GtTrack { name: Seq<char>, parent: Seq<char> },
    GtSync,
    GtSubmit { argv: Seq<Seq<char>> },
    DeleteRemoteBranch { remote: Seq<char>, name: Seq<char> },
    FindPrs { names: Seq<Seq<char>>, limit: u32 },
    FindQueuePrs { prefixes: Seq<Seq<char>>, limit: u32 },
    RunHooks { revset: Seq<char>, runner: Option<Runner> },
    ConfirmDelete { name: Seq<char>, pr: u32, merge_commit_id: Seq<char> },
    Print(Seq<char>),
    Warn(Seq<char>),
    Log(Seq<char>),
}

impl View for Command {
    type V = CommandView;

    open spec fn view(&self) -> CommandView {
        match self {
            Command::GitFetch { remote } => CommandView::GitFetch { remote: remote@ },
            Command::GitImport => CommandView::GitImport,
            Command::GitExport => CommandView::GitExport,
            Command::ListBookmarks => CommandView::ListBookmarks,
            Command::DeriveParents { names, trunk } => CommandView::DeriveParents {
                names: views(names@),
                trunk: trunk@,
            },
            Command::FindMergeMarker { pr, trunk } => CommandView::FindMergeMarker {
                pr: *pr,
                trunk: trunk@,
            },
            Command::Rebase { revset, destination } => CommandView::Rebase {
                revset: revset@,
                destination: destination@,
            },
            Command::DeleteBookmark { name } => CommandView::DeleteBookmark { name: name@ },
            Command::TrackOnRemote { name, remote } => CommandView::TrackOnRemote {
                name: name@,
                remote: remote@,
            },
            Command::CurrentChange => CommandView::CurrentChange,
            Command::EditChange { change } => CommandView::EditChange { change: change@ },
            Command::GtTrack { name, parent } => CommandView::GtTrack {
                name: name@,
                parent: parent@,
            },
            Command::GtSync => CommandView::GtSync,
            Command::GtSubmit { argv } => CommandView::GtSubmit { argv: views(argv@) },
            Command::DeleteRemoteBranch { remote, name } => CommandView::DeleteRemoteBranch {
                remote: remote@,
                name: name@,
            },
            Command::FindPrs { names, limit } => CommandView::FindPrs {
                names: views(names@),
                limit: *limit,
            },
            Command::FindQueuePrs { prefixes, limit } => CommandView::FindQueuePrs {
                prefixes: views(prefixes@),
                limit: *limit,
            },
            Command::RunHooks { revset, runner } => CommandView::RunHooks {
                revset: revset@,
                runner: *runner,
            },
            Command::ConfirmDelete { name, pr, merge_commit_id } => CommandView::ConfirmDelete {
                name: name@,
                pr: *pr,
                merge_commit_id: merge_commit_id@,
            },
            Command::Print(line) => CommandView::Print(line@),
            Command::Warn(line) => CommandView::Warn(line@),
            Command::Log(line) => CommandView::Log(line@),
        }
    }
}

/// What came back from a command that went through.
#[derive(Debug, PartialEq, Eq)]
pub enum Reply {
    /// Nothing but success.
    Done,
    Bookmarks(Vec<LocalBookmark>),
    Prs(Vec<PrInfo>),
    Parents(Vec<StackedBookmark>),
    /// The commit on trunk that carries a merge marker, if there is one.
    Marker(Option<String>),
    /// What the hooks did; `None` where the revset was empty.
    Hooks(Option<HookOutcome>),
    /// The id of a change.
    Change(String),
    /// The user's yes or no.
    Answer(bool),
}

/// The contents of a [`Reply`].
pub enum ReplyView {
    Done,
    Bookmarks(Seq<BookmarkView>),
    Prs(Seq<PrView>),
    Parents(Seq<StackedView>),
    Marker(Option<Seq<char>>),
    Hooks(Option<OutcomeView>),
    Change(Seq<char>),
    Answer(bool),
}

impl View for Reply {
    type V = ReplyView;

    open spec fn view(&self) -> ReplyView {
        match self {
            Reply::Done => ReplyView::Done,
            Reply::Bookmarks(bookmarks) => ReplyView::Bookmarks(views(bookmarks@)),
            Reply::Prs(prs) => ReplyView::Prs(views(prs@)),
            Reply::Parents(stacked) => ReplyView::Parents(views(stacked@)),
            Reply::Marker(marker) => ReplyView::Marker(opt_view(*marker)),
            Reply::Hooks(outcome) => ReplyView::Hooks(opt_view(*outcome)),
            Reply::Change(change) => ReplyView::Change(change@),
            Reply::Answer(yes) => ReplyView::Answer(*yes),
        }
    }
}

/// The contents of what came back from a command, whether it went through or
/// failed.
pub open spec fn reply_view(reply: Result<Reply, JjGtError>) -> Result<ReplyView, ErrorView> {
    match reply {
        Ok(reply) => Ok(reply@),
        Err(error) => Err(error@),
    }
}

impl CommandView {
    /// Whether `reply` is of the kind that this command is answered with.
    pub open spec fn expects(self, reply: ReplyView) -> bool {
        match self {
            CommandView::ListBookmarks => reply is Bookmarks,
            CommandView::DeriveParents { .. } => reply is Parents,
            CommandView::FindMergeMarker { .. } => reply is Marker,
            CommandView::CurrentChange => reply is Change,
            CommandView::FindPrs { .. } => reply is Prs,
            CommandView::FindQueuePrs { .. } => reply is Prs,
            CommandView::RunHooks { .. } => reply is Hooks,
            CommandView::ConfirmDelete { .. } => reply is Answer,
            _ => reply is Done,
        }
    }

    /// Whether a pipeline goes on even if this command fails.
    pub open spec fn best_effort(self) -> bool {
        self is Rebase || self is DeleteBookmark || self is DeleteRemoteBranch
            || self is TrackOnRemote || self is EditChange || self is Print || self is Warn
            || self is Log
    }

    /// Whether this command changes the repository, a remote or the forge.
    pub open spec fn mutates(self) -> bool {
        self is GitFetch || self is GitImport || self is GitExport || self is Rebase
            || self is DeleteBookmark || self is TrackOnRemote || self is EditChange
            || self is GtTrack || self is GtSync || self is GtSubmit || self is DeleteRemoteBranch
    }
}

impl Command {
    /// Whether `reply` is of the kind that this command is answered with.
    pub fn accepts(&self, reply: &Reply) -> (res: bool)
        ensures
            res == self@.expects(reply@),
            match *reply {
                Reply::Bookmarks(_) => res == (self is ListBookmarks),
                Reply::Prs(_) => res == (self is FindPrs || self is FindQueuePrs),
                Reply::Parents(_) => res == (self is DeriveParents),
                Reply::Marker(_) => res == (self is FindMergeMarker),
                Reply::Hooks(_) => res == (self is RunHooks),
                Reply::Change(_) => res == (self is CurrentChange),
                Reply::Answer(_) => res == (self is ConfirmDelete),
                Reply::Done => self is GtTrack || self is GtSubmit || self is GitFetch
                    || self is DeleteBookmark || self is Rebase ==> res,
            },
    {
        match self {
            Command::ListBookmarks => matches!(reply, Reply::Bookmarks(_)),
            Command::DeriveParents { .. } => matches!(reply, Reply::Parents(_)),
            Command::FindMergeMarker { .. } => matches!(reply, Reply::Marker(_)),
            Command::CurrentChange => matches!(reply, Reply::Change(_)),
            Command::FindPrs { .. } => matches!(reply, Reply::Prs(_)),
            Command::FindQueuePrs { .. } => matches!(reply, Reply::Prs(_)),
            Command::RunHooks { .. } => matches!(reply, Reply::Hooks(_)),
            Command::ConfirmDelete { .. } => matches!(reply, Reply::Answer(_)),
            _ => matches!(reply, Reply::Done),
        }
    }

    /// Whether a pipeline goes on even if this command fails.
    pub fn is_best_effort(&self) -> (res: bool)
        ensures
            res == self@.best_effort(),
            self is GtTrack || self is GtSubmit || self is GtSync || self is GitFetch
                || self is GitImport || self is GitExport || self is RunHooks ==> !res,
            self is Rebase || self is DeleteBookmark || self is DeleteRemoteBranch
                || self is TrackOnRemote || self is EditChange ==> res,
    {
        matches!(
            self,
            Command::Rebase { .. } | Command::DeleteBookmark { .. }
            | Command::DeleteRemoteBranch { .. } | Command::TrackOnRemote { .. }
            | Command::EditChange { .. } | Command::Print(_) | Command::Warn(_) | Command::Log(_)
        )
    }
}

/// A list of one command.
pub fn only(command: Command) -> (res: Vec<Command>)
    ensures
        views(res@) == seq![command@],
        res@.len() == 1,
        res@[0] == command,
{
    let mut res: Vec<Command> = Vec::new();
    res.push(command);
    assert(views(res@) =~= seq![command@]);
    res
}

/// Each kind of reply goes with the commands that ask for it, and no others: a list
/// of bookmarks with the listing, pull requests with the two searches for them, and
/// so on; a bare success with whatever asks for nothing.
pub proof fn replies_go_with_their_commands(command: CommandView, reply: ReplyView)
    ensures
        reply is Bookmarks ==> (command.expects(reply) <==> command is ListBookmarks),
        reply is Prs ==> (command.expects(reply) <==> command is FindPrs || command
            is FindQueuePrs),
        reply is Parents ==> (command.expects(reply) <==> command is DeriveParents),
        reply is Marker ==> (command.expects(reply) <==> command is FindMergeMarker),
        reply is Hooks ==> (command.expects(reply) <==> command is RunHooks),
        reply is Change ==> (command.expects(reply) <==> command is CurrentChange),
        reply is Answer ==> (command.expects(reply) <==> command is ConfirmDelete),
        reply is Done ==> (command.expects(reply) <==> command is GitFetch || command is GitImport
            || command is GitExport || command is Rebase || command is DeleteBookmark || command
            is TrackOnRemote || command is EditChange || command is GtTrack || command is GtSync
            || command is GtSubmit || command is DeleteRemoteBranch || command is Print || command
            is Warn || command is Log),
{
}

/// What the pipelines insist on, and what is an attempt only: they insist on every
/// question, on the exchange with git and on what `gt` does.
pub proof fn attempts_and_demands(command: CommandView)
    ensures
        command is GitFetch || command is GitImport || command is GitExport || command
            is ListBookmarks || command is DeriveParents || command is FindMergeMarker || command
            is CurrentChange || command is GtTrack || command is GtSync || command is GtSubmit
            || command is FindPrs || command is FindQueuePrs || command is RunHooks || command
            is ConfirmDelete <==> !command.best_effort(),
{
}

/// What only looks, asks or tells changes nothing; everything else does.
pub proof fn looking_changes_nothing(command: CommandView)
    ensures
        command is ListBookmarks || command is DeriveParents || command is FindMergeMarker
            || command is CurrentChange || command is FindPrs || command is FindQueuePrs || command
            is RunHooks || command is ConfirmDelete || command is Print || command is Warn
            || command is Log <==> !command.mutates(),
{
}

/// The view of a command holds what the command holds, each text in its own place.
pub proof fn command_views(command: Command)
    ensures
        command matches Command::GitFetch { remote } ==> command@ == (CommandView::GitFetch {
            remote: remote@,
        }),
        command is GitImport ==> command@ is GitImport,
        command is GitExport ==> command@ is GitExport,
        command is ListBookmarks ==> command@ is ListBookmarks,
        command is CurrentChange ==> command@ is CurrentChange,
        command is GtSync ==> command@ is GtSync,
        command matches Command::DeriveParents { names, trunk } ==> command@ is DeriveParents
            && command@->DeriveParents_trunk == trunk@ && command@->DeriveParents_names == names@.map(
            |i: int, name: String| name@,
        ),
        command matches Command::FindMergeMarker { pr, trunk } ==> command@ == (
        CommandView::FindMergeMarker { pr, trunk: trunk@ }),
        command matches Command::Rebase { revset, destination } ==> command@ == (
        CommandView::Rebase { revset: revset@, destination: destination@ }),
        command matches Command::DeleteBookmark { name } ==> command@ == (
        CommandView::DeleteBookmark { name: name@ }),
        command matches Command::TrackOnRemote { name, remote } ==> command@ == (
        CommandView::TrackOnRemote { name: name@, remote: remote@ }),
        command matches Command::EditChange { change } ==> command@ == (CommandView::EditChange {
            change: change@,
        }),
        command matches Command::GtTrack { name, parent } ==> command@ == (CommandView::GtTrack {
            name: name@,
            parent: parent@,
        }),
        command matches Command::GtSubmit { argv } ==> command@ is GtSubmit
            && command@->GtSubmit_argv == argv@.map(|i: int, arg: String| arg@),
        command matches Command::DeleteRemoteBranch { remote, name } ==> command@ == (
        CommandView::DeleteRemoteBranch { remote: remote@, name: name@ }),
        command matches Command::FindPrs { names, limit } ==> command@ is FindPrs
            && command@->FindPrs_limit == limit && command@->FindPrs_names == names@.map(
            |i: int, name: String| name@,
        ),
        command matches Command::FindQueuePrs { prefixes, limit } ==> command@ is FindQueuePrs
            && command@->FindQueuePrs_limit == limit && command@->FindQueuePrs_prefixes
            == prefixes@.map(|i: int, prefix: String| prefix@),
        command matches Command::RunHooks { revset, runner } ==> command@ == (
        CommandView::RunHooks { revset: revset@, runner }),
        command matches Command::ConfirmDelete { name, pr, merge_commit_id } ==> command@ == (
        CommandView::ConfirmDelete { name: name@, pr, merge_commit_id: merge_commit_id@ }),
        command matches Command::Print(line) ==> command@ == CommandView::Print(line@),
        command matches Command::Warn(line) ==> command@ == CommandView::Warn(line@),
        command matches Command::Log(line) ==> command@ == CommandView::Log(line@),
{
}

/// The view of a reply holds what the reply holds, item by item.
pub proof fn reply_views(reply: Reply)
    ensures
        reply is Done ==> reply@ is Done,
        reply matches Reply::Bookmarks(bookmarks) ==> reply@ is Bookmarks
            && reply@->Bookmarks_0 == bookmarks@.map(|i: int, b: LocalBookmark| b@),
        reply matches Reply::Prs(prs) ==> reply@ is Prs && reply@->Prs_0 == prs@.map(
            |i: int, pr: PrInfo| pr@,
        ),
        reply matches Reply::Parents(stacked) ==> reply@ is Parents && reply@->Parents_0
            == stacked@.map(|i: int, b: StackedBookmark| b@),
        reply matches Reply::Marker(None) ==> reply@ == ReplyView::Marker(None),
        reply matches Reply::Marker(Some(sha)) ==> reply@ == ReplyView::Marker(Some(sha@)),
        reply matches Reply::Hooks(None) ==> reply@ == ReplyView::Hooks(None),
        reply matches Reply::Hooks(Some(outcome)) ==> reply@ == ReplyView::Hooks(Some(outcome@)),
        reply matches Reply::Change(change) ==> reply@ == ReplyView::Change(change@),
        reply matches Reply::Answer(yes) ==> reply@ == ReplyView::Answer(yes),
{
}

/// What came back is a success or a failure in the view exactly as it came.
pub proof fn results_keep_their_side(reply: Result<Reply, JjGtError>)
    ensures
        reply matches Ok(value) ==> reply_view(reply) == Ok::<ReplyView, ErrorView>(value@),
        reply matches Err(error) ==> reply_view(reply) == Err::<ReplyView, ErrorView>(error@),
{
}

} // verus!
