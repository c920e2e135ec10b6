use jj_gt::error::JjGtError;
use jj_gt::gh::{PrInfo, PrState};
use jj_gt::jj::LocalBookmark;
use jj_gt::stack::{
    find_tip, parent_among, parent_revset, show_stack, sort_for_tracking, BookmarkOrTrunk,
    StackedBookmark,
};
use jj_gt::status::{build, require_selection, resolve_trunk, StatusRow};
use jj_gt::submit::track_command;

fn on(name: &str, parent: &str) -> StackedBookmark {
    StackedBookmark {
        name: name.to_owned(),
        parent: BookmarkOrTrunk::Bookmark(parent.to_owned()),
    }
}

fn on_trunk(name: &str) -> StackedBookmark {
    StackedBookmark {
        name: name.to_owned(),
        parent: BookmarkOrTrunk::Trunk,
    }
}

fn names(stacked: &Vec<StackedBookmark>) -> Vec<String> {
    stacked.iter().map(|entry| entry.name.clone()).collect()
}

/// What `parent_revset` names for a bookmark of the stack main, bottom, mid, top.
fn nearest_below(name: &str) -> Vec<String> {
    match name {
        "mid" => vec!["bottom".to_owned()],
        "top" => vec!["mid".to_owned()],
        _ => Vec::new(),
    }
}

fn derive(bookmarks: &Vec<String>) -> Vec<StackedBookmark> {
    bookmarks
        .iter()
        .map(|name| StackedBookmark {
            name: name.clone(),
            parent: parent_among(&nearest_below(name)),
        })
        .collect()
}

#[test]
fn derive_parents_linear_three_stack() {
    let bookmarks: Vec<String> = vec!["bottom".into(), "mid".into(), "top".into()];
    let stacked = derive(&bookmarks);

    let by_name: std::collections::HashMap<String, BookmarkOrTrunk> = stacked
        .iter()
        .map(|s| (s.name.clone(), s.parent.clone()))
        .collect();

    assert_eq!(by_name["bottom"], BookmarkOrTrunk::Trunk);
    assert_eq!(by_name["mid"], BookmarkOrTrunk::Bookmark("bottom".into()));
    assert_eq!(by_name["top"], BookmarkOrTrunk::Bookmark("mid".into()));

    let tip = find_tip(&stacked).unwrap();
    assert_eq!(tip, "top");
}

#[test]
fn bookmark_on_trunk_resolves_to_trunk_parent() {
    assert_eq!(
        parent_revset("solo", "main"),
        "heads(::solo & bookmarks() ~ solo ~ ::main)"
    );
    let stacked = derive(&vec!["solo".into()]);
    assert_eq!(stacked.len(), 1);
    assert_eq!(stacked[0].name, "solo");
    assert_eq!(stacked[0].parent, BookmarkOrTrunk::Trunk);
}

#[test]
fn submit_path_orders_track_calls_bottom_to_top() {
    let user_order = vec!["top".to_owned(), "bottom".to_owned(), "mid".to_owned()];
    let stacked = derive(&user_order);
    let sorted = sort_for_tracking(&stacked);
    let calls: Vec<String> = sorted
        .iter()
        .map(|sb| {
            let parent = sb.parent.as_branch_name("main");
            format!("{:?}", track_command(true, &sb.name, parent))
        })
        .collect();
    assert_eq!(
        calls,
        vec![
            "Print(\"would: gt track bottom --parent main\")",
            "Print(\"would: gt track mid --parent bottom\")",
            "Print(\"would: gt track top --parent mid\")",
        ]
    );
}

#[test]
fn every_order_of_a_linear_stack_is_sorted_and_ends_at_its_top() {
    for order in [
        ["bottom", "mid", "top"],
        ["bottom", "top", "mid"],
        ["mid", "bottom", "top"],
        ["mid", "top", "bottom"],
        ["top", "bottom", "mid"],
        ["top", "mid", "bottom"],
    ] {
        let given = derive(&order.iter().map(|name| name.to_string()).collect());
        assert_eq!(
            names(&sort_for_tracking(&given)),
            vec!["bottom", "mid", "top"]
        );
        assert_eq!(find_tip(&given), Ok("top".to_owned()));
    }
}

#[test]
fn a_sorted_stack_stays_as_it_is() {
    let given = vec![
        on_trunk("a"),
        on("b", "a"),
        on_trunk("c"),
        on("d", "outside"),
        on("e", "b"),
    ];
    assert_eq!(sort_for_tracking(&given), given);
}

#[test]
fn sorting_a_tree_puts_parents_first_and_keeps_everything() {
    let given = vec![
        on("left", "root"),
        on("leaf", "right"),
        on("right", "root"),
        on_trunk("root"),
    ];
    let sorted = sort_for_tracking(&given);
    assert_eq!(names(&sorted), vec!["root", "left", "right", "leaf"]);
}

#[test]
fn a_cycle_is_not_lost() {
    let given = vec![on("a", "b"), on("b", "a")];
    assert_eq!(sort_for_tracking(&given), given);
}

#[test]
fn nothing_to_sort() {
    assert_eq!(sort_for_tracking(&Vec::new()), Vec::new());
}

#[test]
fn two_tips_are_no_single_stack() {
    let given = vec![on_trunk("a"), on("b", "a"), on("c", "a")];
    assert_eq!(find_tip(&given), Err(JjGtError::NoSingleTip));
}

#[test]
fn no_tip_at_all() {
    assert_eq!(find_tip(&Vec::new()), Err(JjGtError::NoSingleTip));
    assert_eq!(
        find_tip(&vec![on("a", "b"), on("b", "a")]),
        Err(JjGtError::NoSingleTip)
    );
}

#[test]
fn branch_names() {
    assert_eq!(BookmarkOrTrunk::Trunk.as_branch_name("main"), "main");
    assert_eq!(
        BookmarkOrTrunk::Bookmark("a".to_owned()).as_branch_name("main"),
        "a"
    );
}

#[test]
fn the_first_candidate_is_the_parent() {
    assert_eq!(
        parent_among(&vec!["x".to_owned(), "y".to_owned()]),
        BookmarkOrTrunk::Bookmark("x".to_owned())
    );
}

#[test]
fn a_stack_is_shown_top_first() {
    assert_eq!(
        show_stack("main", &vec![on_trunk("bottom"), on("top", "bottom")]),
        vec![
            "trunk: main",
            "stack (top → bottom):",
            "  ● top\n    └─ parent: bottom",
            "  ● bottom\n    └─ parent: main",
        ]
    );
    assert_eq!(
        show_stack("trunk", &Vec::new()),
        vec!["trunk: trunk", "stack (top → bottom):"]
    );
}

#[test]
fn status_rows() {
    let stacked = vec![on_trunk("bottom"), on("top", "bottom")];
    let locals = vec![LocalBookmark {
        name: "top".to_owned(),
        commit_id: "abc".to_owned(),
    }];
    let prs = vec![PrInfo {
        number: 7,
        head_ref_name: "bottom".to_owned(),
        head_ref_oid: "123".to_owned(),
        state: PrState::Merged,
        is_draft: true,
        merge_state_status: Some("CLEAN".to_owned()),
        labels: vec!["x".to_owned()],
    }];
    assert_eq!(
        build("main", &stacked, &locals, &prs),
        vec![
            StatusRow {
                name: "bottom".to_owned(),
                parent: "main".to_owned(),
                commit_id: None,
                pr: Some((7, PrState::Merged)),
            },
            StatusRow {
                name: "top".to_owned(),
                parent: "bottom".to_owned(),
                commit_id: Some("abc".to_owned()),
                pr: None,
            },
        ]
    );
}

#[test]
fn trunk_is_given_or_configured_or_main() {
    let named = || Some("dev".to_owned());
    let configured = || Some("trunk".to_owned());
    assert_eq!(resolve_trunk(named(), configured()), "dev");
    assert_eq!(resolve_trunk(named(), None), "dev");
    assert_eq!(resolve_trunk(None, configured()), "trunk");
    assert_eq!(resolve_trunk(None, None), "main");
}

#[test]
fn an_empty_selection_is_refused() {
    assert_eq!(
        require_selection(&Vec::new()),
        Err(JjGtError::NoBookmarksSelected)
    );
    assert_eq!(require_selection(&vec!["a".to_owned()]), Ok(()));
}
