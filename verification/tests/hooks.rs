use jj_gt::error::JjGtError;
use jj_gt::hooks::{judge_pre_push, pre_push_revset, HookOutcome};

#[test]
fn revset_is_trunk_dotdot_tip() {
    assert_eq!(pre_push_revset("main", "top--athena"), "main..top--athena");
}

#[test]
fn an_empty_revset_has_nothing_to_gate() {
    assert_eq!(judge_pre_push("main..top", None), Ok(()));
}

#[test]
fn a_clean_run_passes() {
    let outcome = HookOutcome {
        success: true,
        fixup_commit: None,
    };
    assert_eq!(judge_pre_push("main..top", Some(outcome)), Ok(()));
}

#[test]
fn failing_hooks_stop_the_push() {
    for fixup_commit in [None, Some("f00".to_owned())] {
        let outcome = HookOutcome {
            success: false,
            fixup_commit,
        };
        assert_eq!(
            judge_pre_push("main..top", Some(outcome)),
            Err(JjGtError::Invalid(
                "pre-push hooks failed for revset `main..top`".to_owned()
            ))
        );
    }
}

#[test]
fn hooks_that_changed_files_stop_the_push() {
    let outcome = HookOutcome {
        success: true,
        fixup_commit: Some("f00".to_owned()),
    };
    assert_eq!(
        judge_pre_push("main..top", Some(outcome)),
        Err(JjGtError::Invalid(
            "pre-push hooks modified files (fixup commit f00); squash it into the relevant \
             bookmark and re-run `jj-gt submit`"
                .to_owned()
        ))
    );
}

#[test]
fn error_lines() {
    assert_eq!(
        JjGtError::NoBookmarksSelected.message(),
        "no bookmarks selected"
    );
    assert_eq!(
        JjGtError::NoSingleTip.message(),
        "the selected bookmarks do not form a single stack"
    );
    assert_eq!(JjGtError::Invalid("why".to_owned()).message(), "why");
    assert_eq!(JjGtError::Tool("gt: no".to_owned()).message(), "gt: no");
    assert_eq!(
        JjGtError::UnexpectedReply.message(),
        "a command was answered with a reply of another kind"
    );
    let error = JjGtError::Tool("gt: no".to_owned());
    assert_eq!(error.clone(), error);
}
