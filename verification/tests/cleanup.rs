use jj_gt::cleanup::{
    classify_gtmq_branch, classify_local_bookmark, is_gtmq_branch, queue_prefixes, CleanupAction,
    FetchOpts,
};
use jj_gt::gh::{find_pr, head_search, PrInfo, PrState};
use jj_gt::jj::{bookmark_names, LocalBookmark};

fn local(name: &str, commit: &str) -> LocalBookmark {
    LocalBookmark {
        name: name.into(),
        commit_id: commit.into(),
    }
}

fn pr_with(number: u32, branch: &str, head_oid: &str, state: PrState) -> PrInfo {
    PrInfo {
        number,
        head_ref_name: branch.into(),
        head_ref_oid: head_oid.into(),
        state,
        is_draft: false,
        merge_state_status: None,
        labels: Vec::new(),
    }
}

#[test]
fn classify_no_pr_leaves_alone() {
    let b = local("foo", "abc123");
    assert_eq!(
        classify_local_bookmark(&b, None, None),
        CleanupAction::LeftAlone
    );
}

#[test]
fn classify_open_pr_same_sha_leaves_alone() {
    let b = local("foo", "abc123");
    let pr = pr_with(1, "foo", "abc12345678", PrState::Open);
    assert_eq!(
        classify_local_bookmark(&b, Some(&pr), None),
        CleanupAction::LeftAlone
    );
}

#[test]
fn classify_open_pr_different_sha_flags_drift() {
    let b = local("foo", "abc123");
    let pr = pr_with(1, "foo", "deadbeef", PrState::Open);
    let action = classify_local_bookmark(&b, Some(&pr), None);
    assert!(matches!(action, CleanupAction::SkippedDueToDrift { .. }));
}

#[test]
fn classify_merged_pr_with_marker_orphan_deletes() {
    let b = local("foo", "abc123");
    let pr = pr_with(7, "foo", "abc12345678", PrState::Merged);
    let action = classify_local_bookmark(&b, Some(&pr), Some("merge_sha_xyz"));
    assert_eq!(
        action,
        CleanupAction::OrphanDeleted {
            pr: 7,
            merge_commit_id: "merge_sha_xyz".into()
        }
    );
}

#[test]
fn classify_closed_no_marker_leaves_alone() {
    let b = local("foo", "abc123");
    let pr = pr_with(7, "foo", "abc12345678", PrState::Closed);
    let action = classify_local_bookmark(&b, Some(&pr), None);
    assert_eq!(action, CleanupAction::LeftAlone);
}

#[test]
fn classify_drift_short_circuits_marker_check() {
    // With drift and a merge marker, drift wins: a local bookmark that has
    // unpushed work is never deleted, even if a pull request of the same
    // number happened to land elsewhere.
    let b = local("foo", "abc123");
    let pr = pr_with(7, "foo", "deadbeef", PrState::Merged);
    let action = classify_local_bookmark(&b, Some(&pr), Some("merge_sha_xyz"));
    assert!(matches!(action, CleanupAction::SkippedDueToDrift { .. }));
}

#[test]
fn gtmq_open_pr_left_alone() {
    let pr = pr_with(101, "gtmq_xyz", "x", PrState::Open);
    assert_eq!(
        classify_gtmq_branch(Some(&pr)),
        CleanupAction::GtmqLeftAlone { pr: 101 }
    );
}

#[test]
fn gtmq_closed_pr_pruned() {
    let pr = pr_with(101, "gtmq_xyz", "x", PrState::Closed);
    assert_eq!(
        classify_gtmq_branch(Some(&pr)),
        CleanupAction::GtmqPruned { had_pr: Some(101) }
    );
}

#[test]
fn gtmq_no_pr_pruned() {
    assert_eq!(
        classify_gtmq_branch(None),
        CleanupAction::GtmqPruned { had_pr: None }
    );
}

#[test]
fn is_gtmq_branch_matches_default_prefix() {
    let prefixes = vec!["gtmq_".to_owned()];
    assert!(is_gtmq_branch("gtmq_abc", &prefixes));
    assert!(!is_gtmq_branch("feature/foo", &prefixes));
}

#[test]
fn is_gtmq_branch_matches_extra_prefixes() {
    let prefixes = vec!["gtmq_".to_owned(), "graphite-".to_owned()];
    assert!(is_gtmq_branch("graphite-tmp-1", &prefixes));
    assert!(!is_gtmq_branch("other", &prefixes));
}

#[test]
fn drift_names_both_commits() {
    let b = local("foo", "abc123");
    for state in [
        PrState::Open,
        PrState::Closed,
        PrState::Merged,
        PrState::Unknown,
    ] {
        let pr = pr_with(7, "foo", "deadbeef", state);
        for marker in [None, Some("merge_sha_xyz")] {
            assert_eq!(
                classify_local_bookmark(&b, Some(&pr), marker),
                CleanupAction::SkippedDueToDrift {
                    pr: 7,
                    local_sha: "abc123".into(),
                    pushed_sha: "deadbeef".into(),
                }
            );
        }
    }
}

#[test]
fn a_short_pushed_id_matches_a_full_local_one() {
    let b = local("foo", "abc12345678");
    let pr = pr_with(7, "foo", "abc123", PrState::Closed);
    assert_eq!(
        classify_local_bookmark(&b, Some(&pr), Some("m")),
        CleanupAction::OrphanDeleted {
            pr: 7,
            merge_commit_id: "m".into()
        }
    );
}

#[test]
fn an_unknown_pushed_head_is_no_drift() {
    let b = local("foo", "abc123");
    let pr = pr_with(7, "foo", "", PrState::Open);
    assert_eq!(
        classify_local_bookmark(&b, Some(&pr), None),
        CleanupAction::LeftAlone
    );
}

#[test]
fn a_marker_counts_only_with_a_landed_pull_request() {
    let b = local("foo", "abc123");
    assert_eq!(
        classify_local_bookmark(&b, None, Some("m")),
        CleanupAction::LeftAlone
    );
    for state in [PrState::Open, PrState::Unknown] {
        let pr = pr_with(7, "foo", "abc123", state);
        assert_eq!(
            classify_local_bookmark(&b, Some(&pr), Some("m")),
            CleanupAction::LeftAlone
        );
    }
}

#[test]
fn queue_branches_without_an_open_pull_request_are_pruned() {
    for state in [PrState::Merged, PrState::Unknown] {
        let pr = pr_with(101, "gtmq_xyz", "x", state);
        assert_eq!(
            classify_gtmq_branch(Some(&pr)),
            CleanupAction::GtmqPruned { had_pr: Some(101) }
        );
    }
}

#[test]
fn prefixes_are_literal() {
    let prefixes = vec!["gtmq_".to_owned()];
    assert!(is_gtmq_branch("gtmq_", &prefixes));
    assert!(!is_gtmq_branch("gtmq", &prefixes));
    assert!(!is_gtmq_branch("agtmq_x", &prefixes));
    assert!(!is_gtmq_branch("GTMQ_x", &prefixes));
    assert!(!is_gtmq_branch("gtmq_x", &[]));
    assert!(is_gtmq_branch("anything", &["".to_owned()]));
    assert!(is_gtmq_branch("größe-1", &["größe".to_owned()]));
}

#[test]
fn fetch_defaults() {
    let opts = FetchOpts::default();
    assert_eq!(opts.remote, "origin");
    assert_eq!(opts.trunk, "main");
    assert!(!opts.no_backfill);
    assert!(!opts.no_rebase);
    assert!(!opts.no_gtmq_prune);
    assert_eq!(opts.gtmq_prefixes, vec!["gtmq_".to_owned()]);
    assert!(!opts.auto);
    assert!(!opts.dry_run);
    assert_eq!(opts.clone(), opts);
}

#[test]
fn queue_prefixes_fall_back_to_the_usual_one() {
    assert_eq!(queue_prefixes(Vec::new()), vec!["gtmq_".to_owned()]);
    assert_eq!(
        queue_prefixes(vec!["a-".to_owned(), "b-".to_owned()]),
        vec!["a-".to_owned(), "b-".to_owned()]
    );
}

#[test]
fn terminal_states() {
    assert!(PrState::Closed.is_terminal());
    assert!(PrState::Merged.is_terminal());
    assert!(!PrState::Open.is_terminal());
    assert!(!PrState::Unknown.is_terminal());
}

#[test]
fn state_names() {
    assert_eq!(PrState::from_name("OPEN"), PrState::Open);
    assert_eq!(PrState::from_name("CLOSED"), PrState::Closed);
    assert_eq!(PrState::from_name("MERGED"), PrState::Merged);
    assert_eq!(PrState::from_name("open"), PrState::Unknown);
    assert_eq!(PrState::from_name(""), PrState::Unknown);
}

#[test]
fn the_first_pull_request_of_a_branch_is_found() {
    let prs = vec![
        pr_with(1, "a", "x", PrState::Open),
        pr_with(2, "b", "x", PrState::Open),
        pr_with(3, "b", "x", PrState::Closed),
    ];
    assert_eq!(find_pr(&prs, &"b".to_owned()), Some(&prs[1]));
    assert_eq!(find_pr(&prs, &"c".to_owned()), None);
    assert_eq!(prs[1].clone(), prs[1]);
}

#[test]
fn branches_are_searched_for_at_once() {
    assert_eq!(
        head_search(&vec!["a".to_owned(), "b/c".to_owned()]),
        "head:a head:b/c"
    );
    assert_eq!(head_search(&vec!["a".to_owned()]), "head:a");
    assert_eq!(head_search(&Vec::new()), "");
}

#[test]
fn bookmark_names_keep_their_order() {
    assert_eq!(
        bookmark_names(&vec![local("b", "1"), local("a", "2")]),
        vec!["b".to_owned(), "a".to_owned()]
    );
}
