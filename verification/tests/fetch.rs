use jj_gt::cleanup::{run_fetch, CleanupAction, FetchOpts};
use jj_gt::command::{Command, Reply};
use jj_gt::error::JjGtError;
use jj_gt::fetch::FetchRun;
use jj_gt::gh::{PrInfo, PrState};
use jj_gt::jj::LocalBookmark;
use jj_gt::stack::{BookmarkOrTrunk, StackedBookmark};

fn local(name: &str, commit: &str) -> LocalBookmark {
    LocalBookmark {
        name: name.into(),
        commit_id: commit.into(),
    }
}

fn pr(number: u32, branch: &str, head_oid: &str, state: PrState) -> PrInfo {
    PrInfo {
        number,
        head_ref_name: branch.into(),
        head_ref_oid: head_oid.into(),
        state,
        is_draft: false,
        merge_state_status: None,
        labels: Vec::new(),
    }
}

fn on(name: &str, parent: &str) -> StackedBookmark {
    StackedBookmark {
        name: name.into(),
        parent: BookmarkOrTrunk::Bookmark(parent.into()),
    }
}

fn on_trunk(name: &str) -> StackedBookmark {
    StackedBookmark {
        name: name.into(),
        parent: BookmarkOrTrunk::Trunk,
    }
}

fn tool(text: &str) -> JjGtError {
    JjGtError::Tool(text.into())
}

/// A repository with a forge, as far as the pipeline asks about them: a stack of
/// four bookmarks, of which one has landed, one has drifted after it landed,
/// one is under review and one has no pull request, and three queue-test
/// branches.
struct World {
    /// What is left of the bookmarks when they are listed again.
    remaining: Vec<&'static str>,
    /// What the user says to every question.
    yes: bool,
    /// The commands, by how they are shown, that fail.
    failing: Vec<&'static str>,
    /// Whether the bookmarks cannot be listed a second time.
    relisting_fails: bool,
    asked: Vec<String>,
    listed: usize,
}

impl World {
    fn new() -> World {
        World {
            remaining: vec!["landed", "drifted", "open", "none", "gtmq_open"],
            yes: true,
            failing: Vec::new(),
            relisting_fails: false,
            asked: Vec::new(),
            listed: 0,
        }
    }

    fn bookmarks() -> Vec<LocalBookmark> {
        vec![
            local("open", "c1"),
            local("gtmq_open", "q1"),
            local("landed", "abc123"),
            local("gtmq_closed", "q2"),
            local("drifted", "def456"),
            local("none", "c4"),
            local("gtmq_none", "q3"),
        ]
    }

    fn answer(&mut self, command: &Command) -> Result<Reply, JjGtError> {
        let shown = format!("{:?}", command);
        let fails = self.failing.iter().any(|start| shown.starts_with(start));
        self.asked.push(shown);
        if fails {
            return Err(tool("broken"));
        }
        Ok(match command {
            Command::ListBookmarks => {
                self.listed += 1;
                if self.listed > 1 && self.relisting_fails {
                    return Err(tool("broken"));
                }
                let mut found = World::bookmarks();
                if self.listed > 1 {
                    found.retain(|b| self.remaining.iter().any(|name| *name == b.name));
                }
                Reply::Bookmarks(found)
            }
            Command::FindPrs { .. } => Reply::Prs(vec![
                pr(1, "open", "c1", PrState::Open),
                pr(2, "landed", "abc123456", PrState::Merged),
                pr(3, "drifted", "fff", PrState::Closed),
            ]),
            Command::FindQueuePrs { .. } => Reply::Prs(vec![
                pr(11, "gtmq_open", "q1", PrState::Open),
                pr(12, "gtmq_closed", "q2", PrState::Closed),
            ]),
            Command::DeriveParents { .. } => Reply::Parents(vec![
                on("open", "landed"),
                on_trunk("landed"),
                on("drifted", "open"),
                on("none", "drifted"),
            ]),
            Command::FindMergeMarker { pr, .. } => Reply::Marker(Some(format!("merge{}", pr))),
            Command::ConfirmDelete { .. } => Reply::Answer(self.yes),
            _ => Reply::Done,
        })
    }

    fn run(&mut self, opts: FetchOpts) -> Result<Vec<(String, CleanupAction)>, JjGtError> {
        let mut run = FetchRun::start(opts);
        while let Some(command) = run.pending() {
            let reply = self.answer(command);
            run = run_fetch(run, reply);
        }
        let log = run.into_log()?;
        Ok(log
            .into_iter()
            .map(|(bookmark, action)| (bookmark.name, action))
            .collect())
    }

    fn asked_for(&self, start: &str) -> Vec<&str> {
        self.asked
            .iter()
            .filter(|shown| shown.starts_with(start))
            .map(|shown| shown.as_str())
            .collect()
    }
}

fn landed(kept: bool) -> CleanupAction {
    if kept {
        CleanupAction::OrphanSkipped {
            pr: 2,
            merge_commit_id: "merge2".into(),
        }
    } else {
        CleanupAction::OrphanDeleted {
            pr: 2,
            merge_commit_id: "merge2".into(),
        }
    }
}

fn drift() -> CleanupAction {
    CleanupAction::SkippedDueToDrift {
        pr: 3,
        local_sha: "def456".into(),
        pushed_sha: "fff".into(),
    }
}

#[test]
fn a_full_run_asks_for_everything_in_order() {
    let mut world = World::new();
    let log = world.run(FetchOpts::default()).unwrap();
    assert_eq!(
        world.asked,
        vec![
            "GitFetch { remote: \"origin\" }",
            "ListBookmarks",
            "FindPrs { names: [\"open\", \"landed\", \"drifted\", \"none\"], limit: 200 }",
            "DeriveParents { names: [\"open\", \"landed\", \"drifted\", \"none\"], trunk: \"main\" }",
            "GtTrack { name: \"landed\", parent: \"main\" }",
            "GtTrack { name: \"open\", parent: \"landed\" }",
            "GtTrack { name: \"drifted\", parent: \"open\" }",
            "FindMergeMarker { pr: 2, trunk: \"main\" }",
            "FindMergeMarker { pr: 3, trunk: \"main\" }",
            "GtSync",
            "GitImport",
            "FindQueuePrs { prefixes: [\"gtmq_\"], limit: 500 }",
            "DeleteBookmark { name: \"gtmq_closed\" }",
            "DeleteRemoteBranch { remote: \"origin\", name: \"gtmq_closed\" }",
            "DeleteBookmark { name: \"gtmq_none\" }",
            "DeleteRemoteBranch { remote: \"origin\", name: \"gtmq_none\" }",
            "ListBookmarks",
            "ConfirmDelete { name: \"landed\", pr: 2, merge_commit_id: \"merge2\" }",
            "DeleteBookmark { name: \"landed\" }",
        ]
    );
    assert_eq!(
        log,
        vec![
            ("open".to_owned(), CleanupAction::LeftAlone),
            ("landed".to_owned(), landed(false)),
            ("drifted".to_owned(), drift()),
            ("none".to_owned(), CleanupAction::LeftAlone),
            (
                "gtmq_open".to_owned(),
                CleanupAction::GtmqLeftAlone { pr: 11 }
            ),
            (
                "gtmq_closed".to_owned(),
                CleanupAction::GtmqPruned { had_pr: Some(12) }
            ),
            (
                "gtmq_none".to_owned(),
                CleanupAction::GtmqPruned { had_pr: None }
            ),
        ]
    );
}

#[test]
fn a_no_spares_the_bookmark() {
    let mut world = World::new();
    world.yes = false;
    let log = world.run(FetchOpts::default()).unwrap();
    assert_eq!(log[1], ("landed".to_owned(), landed(true)));
    assert_eq!(
        world.asked.last().unwrap(),
        "ConfirmDelete { name: \"landed\", pr: 2, merge_commit_id: \"merge2\" }"
    );
    assert_eq!(
        world.asked_for("DeleteBookmark"),
        vec![
            "DeleteBookmark { name: \"gtmq_closed\" }",
            "DeleteBookmark { name: \"gtmq_none\" }",
        ]
    );
}

#[test]
fn auto_deletes_without_a_question() {
    let mut world = World::new();
    world.yes = false;
    let log = world
        .run(FetchOpts {
            auto: true,
            ..FetchOpts::default()
        })
        .unwrap();
    assert_eq!(log[1], ("landed".to_owned(), landed(false)));
    assert!(world.asked_for("ConfirmDelete").is_empty());
    assert_eq!(
        world.asked.last().unwrap(),
        "DeleteBookmark { name: \"landed\" }"
    );
}

#[test]
fn what_the_sync_deleted_is_neither_asked_about_nor_deleted_again() {
    let mut world = World::new();
    world.remaining = vec!["open", "drifted", "gtmq_open"];
    let log = world.run(FetchOpts::default()).unwrap();
    assert_eq!(log[1], ("landed".to_owned(), CleanupAction::GtSyncDeleted));
    assert_eq!(log[3], ("none".to_owned(), CleanupAction::GtSyncDeleted));
    assert_eq!(log[0], ("open".to_owned(), CleanupAction::LeftAlone));
    assert!(world.asked_for("ConfirmDelete").is_empty());
    assert_eq!(
        world.asked_for("Rebase"),
        vec!["Rebase { revset: \"open\", destination: \"main\" }"]
    );
}

#[test]
fn only_orphaned_children_are_rebased() {
    let mut world = World::new();
    world.remaining = vec!["landed", "drifted", "none", "gtmq_open"];
    let log = world.run(FetchOpts::default()).unwrap();
    assert_eq!(log[0], ("open".to_owned(), CleanupAction::GtSyncDeleted));
    assert_eq!(
        world.asked_for("Rebase"),
        vec!["Rebase { revset: \"drifted\", destination: \"main\" }"]
    );
}

#[test]
fn a_bookmark_on_trunk_is_not_rebased() {
    let mut asked: Vec<String> = Vec::new();
    let mut run = FetchRun::start(FetchOpts::default());
    while let Some(command) = run.pending() {
        asked.push(format!("{:?}", command));
        let reply = match command {
            Command::ListBookmarks => Reply::Bookmarks(vec![local("solo", "abc")]),
            Command::FindPrs { .. } => Reply::Prs(Vec::new()),
            Command::DeriveParents { .. } => Reply::Parents(vec![on_trunk("solo")]),
            _ => Reply::Done,
        };
        run = run_fetch(run, Ok(reply));
    }
    assert_eq!(
        asked,
        vec![
            "GitFetch { remote: \"origin\" }",
            "ListBookmarks",
            "FindPrs { names: [\"solo\"], limit: 200 }",
            "DeriveParents { names: [\"solo\"], trunk: \"main\" }",
            "GtSync",
            "GitImport",
            "ListBookmarks",
        ]
    );
    assert_eq!(
        run.into_log(),
        Ok(vec![(local("solo", "abc"), CleanupAction::LeftAlone)])
    );
}

#[test]
fn orphans_are_found_without_a_backfill() {
    let mut world = World::new();
    world.remaining = vec!["open", "none"];
    world
        .run(FetchOpts {
            no_backfill: true,
            ..FetchOpts::default()
        })
        .unwrap();
    assert_eq!(world.asked_for("DeriveParents").len(), 1);
    assert!(world.asked_for("GtTrack").is_empty());
    assert_eq!(
        world.asked_for("Rebase"),
        vec![
            "Rebase { revset: \"open\", destination: \"main\" }",
            "Rebase { revset: \"none\", destination: \"main\" }",
        ]
    );
}

#[test]
fn a_dry_run_without_backfill_needs_no_stack() {
    let mut world = World::new();
    world
        .run(FetchOpts {
            no_backfill: true,
            dry_run: true,
            ..FetchOpts::default()
        })
        .unwrap();
    assert!(world.asked_for("DeriveParents").is_empty());
}

#[test]
fn a_failed_rebase_is_noted_and_passed_over() {
    let mut world = World::new();
    world.remaining = vec!["landed", "drifted", "gtmq_open"];
    world.failing = vec!["Rebase"];
    let log = world.run(FetchOpts::default()).unwrap();
    assert_eq!(log.len(), 7);
    let at = world.asked.len() - 4;
    assert_eq!(
        world.asked[at..],
        [
            "Rebase { revset: \"drifted\", destination: \"main\" }",
            "Log(\"could not rebase drifted onto main: broken\")",
            "ConfirmDelete { name: \"landed\", pr: 2, merge_commit_id: \"merge2\" }",
            "DeleteBookmark { name: \"landed\" }",
        ]
    );
}

#[test]
fn without_backfill_a_missing_stack_is_noted_and_passed_over() {
    let mut world = World::new();
    world.remaining = vec!["landed", "drifted", "gtmq_open"];
    world.failing = vec!["DeriveParents"];
    let log = world
        .run(FetchOpts {
            no_backfill: true,
            ..FetchOpts::default()
        })
        .unwrap();
    assert_eq!(
        world.asked[3..5],
        [
            "DeriveParents { names: [\"open\", \"landed\", \"drifted\", \"none\"], trunk: \"main\" }",
            "Log(\"could not find orphaned bookmarks: broken\")",
        ]
    );
    assert_eq!(world.asked_for("GtSync").len(), 1);
    assert!(world.asked_for("Rebase").is_empty());
    assert_eq!(log.len(), 7);
    assert_eq!(log[0], ("open".to_owned(), CleanupAction::GtSyncDeleted));
    assert_eq!(log[1], ("landed".to_owned(), landed(false)));
}

#[test]
fn without_rebase_a_missing_second_listing_keeps_the_log() {
    let mut whole = World::new();
    let expected = whole
        .run(FetchOpts {
            no_rebase: true,
            ..FetchOpts::default()
        })
        .unwrap();
    let mut world = World::new();
    world.relisting_fails = true;
    let log = world
        .run(FetchOpts {
            no_rebase: true,
            ..FetchOpts::default()
        })
        .unwrap();
    assert_eq!(log, expected);
    let at = world.asked.len() - 4;
    assert_eq!(
        world.asked[at..],
        [
            "ListBookmarks",
            "Log(\"could not list what gt sync left: broken\")",
            "ConfirmDelete { name: \"landed\", pr: 2, merge_commit_id: \"merge2\" }",
            "DeleteBookmark { name: \"landed\" }",
        ]
    );
}

#[test]
fn with_rebase_a_missing_second_listing_ends_the_run() {
    let mut world = World::new();
    world.relisting_fails = true;
    assert_eq!(world.run(FetchOpts::default()), Err(tool("broken")));
    assert_eq!(world.asked.last().unwrap(), "ListBookmarks");
}

#[test]
fn a_dry_run_foretells_the_log() {
    let real = World::new()
        .run(FetchOpts {
            auto: true,
            ..FetchOpts::default()
        })
        .unwrap();
    for (no_backfill, no_rebase) in [(false, false), (false, true), (true, false), (true, true)] {
        for dry_run in [false, true] {
            let log = World::new()
                .run(FetchOpts {
                    auto: true,
                    dry_run,
                    no_backfill,
                    no_rebase,
                    ..FetchOpts::default()
                })
                .unwrap();
            assert_eq!(log, real);
        }
    }
}

#[test]
fn a_dry_run_only_looks_and_tells() {
    let mut world = World::new();
    let log = world
        .run(FetchOpts {
            dry_run: true,
            remote: "up".into(),
            trunk: "dev".into(),
            ..FetchOpts::default()
        })
        .unwrap();
    assert_eq!(
        world.asked,
        vec![
            "Log(\"[dry-run] would: jj git fetch --remote up\")",
            "ListBookmarks",
            "FindPrs { names: [\"open\", \"landed\", \"drifted\", \"none\"], limit: 200 }",
            "DeriveParents { names: [\"open\", \"landed\", \"drifted\", \"none\"], trunk: \"dev\" }",
            "Log(\"[dry-run] would: gt track landed --parent dev\")",
            "Log(\"[dry-run] would: gt track open --parent landed\")",
            "Log(\"[dry-run] would: gt track drifted --parent open\")",
            "FindMergeMarker { pr: 2, trunk: \"dev\" }",
            "FindMergeMarker { pr: 3, trunk: \"dev\" }",
            "Log(\"[dry-run] would: gt sync --no-restack --force\")",
            "FindQueuePrs { prefixes: [\"gtmq_\"], limit: 500 }",
            "Log(\"[dry-run] would: jj bookmark delete gtmq_closed && git push --delete up gtmq_closed\")",
            "Log(\"[dry-run] would: jj bookmark delete gtmq_none && git push --delete up gtmq_none\")",
            "Log(\"[dry-run] would: jj bookmark delete landed\")",
        ]
    );
    assert_eq!(log.len(), 7);
    assert_eq!(log[1], ("landed".to_owned(), landed(false)));
}

#[test]
fn switches_leave_out_their_part() {
    let mut world = World::new();
    let log = world
        .run(FetchOpts {
            no_backfill: true,
            no_rebase: true,
            no_gtmq_prune: true,
            ..FetchOpts::default()
        })
        .unwrap();
    assert!(world.asked_for("DeriveParents").is_empty());
    assert!(world.asked_for("GtTrack").is_empty());
    assert!(world.asked_for("Rebase").is_empty());
    assert!(world.asked_for("FindQueuePrs").is_empty());
    assert!(world.asked_for("DeleteRemoteBranch").is_empty());
    assert_eq!(
        world.asked_for("DeleteBookmark"),
        vec!["DeleteBookmark { name: \"landed\" }"]
    );
    assert_eq!(log.len(), 4);
}

#[test]
fn other_prefixes_set_other_branches_apart() {
    let mut world = World::new();
    let log = world
        .run(FetchOpts {
            gtmq_prefixes: vec!["lan".into(), "gtmq_".into()],
            ..FetchOpts::default()
        })
        .unwrap();
    assert_eq!(
        world.asked[2],
        "FindPrs { names: [\"open\", \"drifted\", \"none\"], limit: 200 }"
    );
    assert_eq!(
        log[4],
        (
            "landed".to_owned(),
            CleanupAction::GtmqPruned { had_pr: None }
        )
    );
}

#[test]
fn attempts_may_fail() {
    let mut world = World::new();
    world.failing = vec!["DeleteBookmark", "DeleteRemoteBranch"];
    let log = world.run(FetchOpts::default()).unwrap();
    assert_eq!(log.len(), 7);
    assert_eq!(log[1], ("landed".to_owned(), landed(false)));
    assert_eq!(world.asked.len(), 19);
}

#[test]
fn other_failures_end_the_run() {
    for start in [
        "GitFetch",
        "ListBookmarks",
        "FindPrs",
        "DeriveParents",
        "GtTrack",
        "FindMergeMarker",
        "GtSync",
        "GitImport",
        "FindQueuePrs",
        "ConfirmDelete",
    ] {
        let mut world = World::new();
        world.failing = vec![start];
        assert_eq!(
            world.run(FetchOpts::default()),
            Err(tool("broken")),
            "{start}"
        );
        assert!(world.asked.last().unwrap().starts_with(start));
    }
}

#[test]
fn a_reply_of_another_kind_ends_the_run() {
    let run = FetchRun::start(FetchOpts::default());
    let run = run_fetch(run, Ok(Reply::Answer(true)));
    assert_eq!(run.pending(), None);
    assert_eq!(run.into_log(), Err(JjGtError::UnexpectedReply));
}

#[test]
fn a_run_that_has_ended_stays_as_it_is() {
    let run = run_fetch(FetchRun::start(FetchOpts::default()), Err(tool("x")));
    let run = run_fetch(run, Ok(Reply::Done));
    assert_eq!(run.pending(), None);
    assert_eq!(run.into_log(), Err(tool("x")));
}

#[test]
fn an_empty_repository_is_synced_all_the_same() {
    let mut asked: Vec<String> = Vec::new();
    let mut run = FetchRun::start(FetchOpts::default());
    while let Some(command) = run.pending() {
        asked.push(format!("{:?}", command));
        let reply = match command {
            Command::ListBookmarks => Reply::Bookmarks(Vec::new()),
            Command::DeriveParents { .. } => Reply::Parents(Vec::new()),
            _ => Reply::Done,
        };
        run = run_fetch(run, Ok(reply));
    }
    assert_eq!(
        asked,
        vec![
            "GitFetch { remote: \"origin\" }",
            "ListBookmarks",
            "DeriveParents { names: [], trunk: \"main\" }",
            "GtSync",
            "GitImport",
            "ListBookmarks",
        ]
    );
    assert_eq!(run.into_log(), Ok(Vec::new()));
}

#[test]
fn without_a_marker_a_landed_bookmark_stays() {
    let mut run = FetchRun::start(FetchOpts {
        no_backfill: true,
        no_rebase: true,
        ..FetchOpts::default()
    });
    while let Some(command) = run.pending() {
        let reply = match command {
            Command::ListBookmarks => Reply::Bookmarks(vec![local("landed", "abc")]),
            Command::FindPrs { .. } => Reply::Prs(vec![pr(5, "landed", "abc", PrState::Closed)]),
            Command::FindMergeMarker { .. } => Reply::Marker(None),
            Command::DeleteBookmark { .. } => unreachable!(),
            Command::ConfirmDelete { .. } => unreachable!(),
            _ => Reply::Done,
        };
        run = run_fetch(run, Ok(reply));
    }
    assert_eq!(
        run.into_log(),
        Ok(vec![(local("landed", "abc"), CleanupAction::LeftAlone)])
    );
}
