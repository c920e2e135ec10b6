use jj_gt::command::{Command, Reply};
use jj_gt::error::JjGtError;
use jj_gt::hooks::{HookOpts, HookOutcome};
use jj_gt::stack::{BookmarkOrTrunk, StackedBookmark};
use jj_gt::submit::{build_submit_argv, submit_cmd, SubmitRun};
use jj_gt::submit_model::SubmitOpts;
use jj_gt::track::{track_cmd, TrackOpts, TrackRun};
use jj_gt::Runner;

fn on(name: &str, parent: &str) -> StackedBookmark {
    StackedBookmark {
        name: name.into(),
        parent: BookmarkOrTrunk::Bookmark(parent.into()),
    }
}

fn on_trunk(name: &str) -> StackedBookmark {
    StackedBookmark {
        name: name.into(),
        parent: BookmarkOrTrunk::Trunk,
    }
}

fn three() -> Vec<StackedBookmark> {
    vec![on("top", "mid"), on_trunk("bottom"), on("mid", "bottom")]
}

fn selection() -> Vec<String> {
    vec!["top".into(), "bottom".into(), "mid".into()]
}

fn submit_opts() -> SubmitOpts {
    SubmitOpts {
        remote: "origin".into(),
        flags: vec!["--draft".into()],
        dry_run: false,
        no_export: false,
        no_hooks: false,
        hooks: HookOpts::default(),
        no_restore_cwc: false,
    }
}

fn track_opts() -> TrackOpts {
    TrackOpts {
        parent: None,
        no_export: false,
        dry_run: false,
    }
}

/// The tools, as far as the pipelines ask for them.
struct Tools {
    stacked: Vec<StackedBookmark>,
    hooks: Option<(bool, Option<&'static str>)>,
    /// The commands, by how they are shown, that fail.
    failing: Vec<&'static str>,
    asked: Vec<String>,
}

impl Tools {
    fn new() -> Tools {
        Tools {
            stacked: three(),
            hooks: Some((true, None)),
            failing: Vec::new(),
            asked: Vec::new(),
        }
    }

    fn answer(&mut self, command: &Command) -> Result<Reply, JjGtError> {
        let shown = format!("{:?}", command);
        let fails = self.failing.iter().any(|start| shown.starts_with(start));
        self.asked.push(shown);
        if fails {
            return Err(JjGtError::Tool("broken".into()));
        }
        Ok(match command {
            Command::DeriveParents { .. } => Reply::Parents(self.stacked.clone()),
            Command::RunHooks { .. } => {
                Reply::Hooks(self.hooks.map(|(success, fixup)| HookOutcome {
                    success,
                    fixup_commit: fixup.map(|commit| commit.to_owned()),
                }))
            }
            Command::CurrentChange => Reply::Change("kxyz".into()),
            _ => Reply::Done,
        })
    }

    fn submit(&mut self, selected: Vec<String>, opts: SubmitOpts) -> Result<(), JjGtError> {
        let mut run = SubmitRun::start(selected, "main".into(), opts);
        while let Some(command) = run.pending() {
            let reply = self.answer(command);
            run = submit_cmd(run, reply);
        }
        run.into_result()
    }

    fn track(&mut self, selected: Vec<String>, opts: TrackOpts) -> Result<(), JjGtError> {
        let mut run = TrackRun::start(selected, "main".into(), opts);
        while let Some(command) = run.pending() {
            let reply = self.answer(command);
            run = track_cmd(run, reply);
        }
        run.into_result()
    }
}

#[test]
fn a_submission_goes_through_every_step() {
    let mut tools = Tools::new();
    assert_eq!(tools.submit(selection(), submit_opts()), Ok(()));
    assert_eq!(
        tools.asked,
        vec![
            "DeriveParents { names: [\"top\", \"bottom\", \"mid\"], trunk: \"main\" }",
            "GitExport",
            "RunHooks { revset: \"main..top\", runner: None }",
            "GtTrack { name: \"bottom\", parent: \"main\" }",
            "GtTrack { name: \"mid\", parent: \"bottom\" }",
            "GtTrack { name: \"top\", parent: \"mid\" }",
            "CurrentChange",
            "GtSubmit { argv: [\"submit\", \"--stack\", \"--branch\", \"top\", \"--draft\"] }",
            "TrackOnRemote { name: \"bottom\", remote: \"origin\" }",
            "TrackOnRemote { name: \"mid\", remote: \"origin\" }",
            "TrackOnRemote { name: \"top\", remote: \"origin\" }",
            "EditChange { change: \"kxyz\" }",
        ]
    );
}

#[test]
fn a_dry_submission_only_exports_and_gates() {
    let mut tools = Tools::new();
    let opts = SubmitOpts {
        dry_run: true,
        ..submit_opts()
    };
    assert_eq!(tools.submit(selection(), opts), Ok(()));
    assert_eq!(
        tools.asked[1..],
        [
            "GitExport",
            "RunHooks { revset: \"main..top\", runner: None }",
            "Print(\"would: gt track bottom --parent main\")",
            "Print(\"would: gt track mid --parent bottom\")",
            "Print(\"would: gt track top --parent mid\")",
            "CurrentChange",
            "Print(\"would: gt submit --stack --branch top --draft\")",
        ]
    );
}

#[test]
fn submit_switches_leave_out_their_step() {
    let mut tools = Tools::new();
    let opts = SubmitOpts {
        no_export: true,
        no_hooks: true,
        no_restore_cwc: true,
        ..submit_opts()
    };
    assert_eq!(tools.submit(selection(), opts), Ok(()));
    assert_eq!(tools.asked.len(), 8);
    assert!(tools.asked[1].starts_with("GtTrack"));
    assert!(tools.asked[4].starts_with("GtSubmit"));
    assert!(tools.asked[7].starts_with("TrackOnRemote"));
}

#[test]
fn nothing_is_tracked_or_submitted_behind_failing_hooks() {
    for (hooks, reason) in [
        (
            (false, None),
            "pre-push hooks failed for revset `main..top`",
        ),
        (
            (true, Some("f00")),
            "pre-push hooks modified files (fixup commit f00); squash it into the relevant \
             bookmark and re-run `jj-gt submit`",
        ),
    ] {
        let mut tools = Tools::new();
        tools.hooks = Some(hooks);
        assert_eq!(
            tools.submit(selection(), submit_opts()),
            Err(JjGtError::Invalid(reason.into()))
        );
        assert_eq!(
            tools.asked.last().unwrap(),
            "RunHooks { revset: \"main..top\", runner: None }"
        );
    }
}

#[test]
fn the_hooks_are_run_with_the_runner_that_was_asked_for() {
    for (runner, shown) in [
        (Runner::PreCommit, "PreCommit"),
        (Runner::Prek, "Prek"),
        (Runner::Lefthook, "Lefthook"),
        (Runner::Hk, "Hk"),
    ] {
        let mut tools = Tools::new();
        let opts = SubmitOpts {
            hooks: HookOpts {
                runner_override: Some(runner),
            },
            ..submit_opts()
        };
        assert_eq!(tools.submit(selection(), opts), Ok(()));
        assert_eq!(
            tools.asked[2],
            format!("RunHooks {{ revset: \"main..top\", runner: Some({shown}) }}")
        );
    }
}

#[test]
fn an_empty_push_range_does_not_stop_the_submission() {
    let mut tools = Tools::new();
    tools.hooks = None;
    assert_eq!(tools.submit(selection(), submit_opts()), Ok(()));
    assert_eq!(tools.asked.len(), 12);
}

#[test]
fn failures_after_the_submission_are_warned_of() {
    let mut tools = Tools::new();
    tools.failing = vec!["TrackOnRemote { name: \"mid\"", "EditChange"];
    assert_eq!(tools.submit(selection(), submit_opts()), Ok(()));
    assert_eq!(
        tools.asked[8..],
        [
            "TrackOnRemote { name: \"bottom\", remote: \"origin\" }",
            "TrackOnRemote { name: \"mid\", remote: \"origin\" }",
            "Warn(\"jj-gt: warning: could not track `mid@origin`: broken\")",
            "TrackOnRemote { name: \"top\", remote: \"origin\" }",
            "EditChange { change: \"kxyz\" }",
            "Warn(\"jj-gt: could not restore @ to kxyz: broken\")",
        ]
    );
}

#[test]
fn failures_up_to_the_submission_end_it() {
    for start in [
        "DeriveParents",
        "GitExport",
        "RunHooks",
        "GtTrack",
        "CurrentChange",
        "GtSubmit",
    ] {
        let mut tools = Tools::new();
        tools.failing = vec![start];
        assert_eq!(
            tools.submit(selection(), submit_opts()),
            Err(JjGtError::Tool("broken".into()))
        );
        assert!(tools.asked.last().unwrap().starts_with(start));
    }
}

#[test]
fn an_empty_selection_is_not_submitted() {
    let mut tools = Tools::new();
    assert_eq!(
        tools.submit(Vec::new(), submit_opts()),
        Err(JjGtError::NoBookmarksSelected)
    );
    assert!(tools.asked.is_empty());
}

#[test]
fn a_forked_selection_is_not_submitted() {
    let mut tools = Tools::new();
    tools.stacked = vec![on_trunk("a"), on("b", "a"), on("c", "a")];
    assert_eq!(
        tools.submit(
            vec!["a".into(), "b".into(), "c".into()],
            submit_opts()
        ),
        Err(JjGtError::NoSingleTip)
    );
    assert_eq!(tools.asked.len(), 1);
}

#[test]
fn submit_arguments() {
    assert_eq!(
        build_submit_argv("top", &Vec::new()),
        vec!["submit", "--stack", "--branch", "top"]
    );
    assert_eq!(
        build_submit_argv("top", &vec!["--draft".into(), "-m".into()]),
        vec!["submit", "--stack", "--branch", "top", "--draft", "-m"]
    );
}

#[test]
fn an_unexpected_reply_ends_the_submission() {
    let run = SubmitRun::start(selection(), "main".into(), submit_opts());
    let run = submit_cmd(run, Ok(Reply::Done));
    assert_eq!(run.pending(), None);
    assert_eq!(run.into_result(), Err(JjGtError::UnexpectedReply));
}

#[test]
fn tracking_goes_bottom_up() {
    let mut tools = Tools::new();
    assert_eq!(tools.track(selection(), track_opts()), Ok(()));
    assert_eq!(
        tools.asked,
        vec![
            "GitExport",
            "DeriveParents { names: [\"top\", \"bottom\", \"mid\"], trunk: \"main\" }",
            "GtTrack { name: \"bottom\", parent: \"main\" }",
            "GtTrack { name: \"mid\", parent: \"bottom\" }",
            "GtTrack { name: \"top\", parent: \"mid\" }",
        ]
    );
}

#[test]
fn a_named_parent_is_taken_for_every_bookmark() {
    let mut tools = Tools::new();
    let opts = TrackOpts {
        parent: Some("base".into()),
        no_export: true,
        ..track_opts()
    };
    assert_eq!(tools.track(selection(), opts), Ok(()));
    assert_eq!(
        tools.asked,
        vec![
            "GtTrack { name: \"top\", parent: \"base\" }",
            "GtTrack { name: \"bottom\", parent: \"base\" }",
            "GtTrack { name: \"mid\", parent: \"base\" }",
        ]
    );
}

#[test]
fn a_dry_tracking_only_exports() {
    let mut tools = Tools::new();
    let opts = TrackOpts {
        dry_run: true,
        ..track_opts()
    };
    assert_eq!(tools.track(selection(), opts), Ok(()));
    assert_eq!(
        tools.asked[2..],
        [
            "Print(\"would: gt track bottom --parent main\")",
            "Print(\"would: gt track mid --parent bottom\")",
            "Print(\"would: gt track top --parent mid\")",
        ]
    );
}

#[test]
fn an_empty_selection_is_not_tracked() {
    let mut tools = Tools::new();
    assert_eq!(
        tools.track(Vec::new(), track_opts()),
        Err(JjGtError::NoBookmarksSelected)
    );
    assert!(tools.asked.is_empty());
}

#[test]
fn a_failure_ends_the_tracking() {
    for start in ["GitExport", "DeriveParents", "GtTrack { name: \"mid\""] {
        let mut tools = Tools::new();
        tools.failing = vec![start];
        assert_eq!(
            tools.track(selection(), track_opts()),
            Err(JjGtError::Tool("broken".into()))
        );
        assert!(tools.asked.last().unwrap().starts_with(start));
    }
}

#[test]
fn an_unexpected_reply_ends_the_tracking() {
    let run = TrackRun::start(selection(), "main".into(), track_opts());
    let run = track_cmd(run, Ok(Reply::Answer(true)));
    assert_eq!(run.pending(), None);
    assert_eq!(run.into_result(), Err(JjGtError::UnexpectedReply));
}
