use jellycat::commands::submit::submit_plan;
use jellycat::commands::submit::{
    commit_body, compose_pr_body, existing_user_content, generate_stack_graph, head_owner,
    new_bookmark_name, plural, pr_head, pr_number_for, pr_title, submit_revset_for, draft_for, StackCommit,
    StackGraph,
    SubmitArgs, BODY_MARKER,
};

fn commit(change_id: &str, commit_id: &str, parent: Option<&str>, pr: Option<u32>) -> StackCommit {
    StackCommit {
        commit_id: commit_id.to_string(),
        change_id: change_id.to_string(),
        parents: parent.map(|p| vec![p.to_string()]).unwrap_or_default(),
        pr_number: pr,
    }
}

fn three_prs() -> Vec<StackCommit> {
    vec![
        commit("aaa", "c1", Some("base"), Some(1)),
        commit("bbb", "c2", Some("c1"), Some(2)),
        commit("ccc", "c3", Some("c2"), Some(3)),
    ]
}

#[test]
fn middle_of_a_stack_links_both_ways() {
    let g = generate_stack_graph(&three_prs(), "bbb", "o/r");
    assert_eq!(g.nav_prev.as_deref(), Some("[« PR #1](https://github.com/o/r/pull/1)"));
    assert_eq!(g.nav_next.as_deref(), Some("[PR #3 »](https://github.com/o/r/pull/3)"));
    assert_eq!(g.review_suffix, "changes/c2");
    assert_eq!(
        g.stack_md,
        "<details>\n<summary><b>Stack (2 of 3)</b></summary>\n\n1. #1\n2. **#2** ← *this PR*\n3. #3\n\n</details>\n"
    );
}

#[test]
fn ends_of_a_stack_have_one_link() {
    let bottom = generate_stack_graph(&three_prs(), "aaa", "o/r");
    assert!(bottom.nav_prev.is_none());
    assert_eq!(bottom.nav_next.as_deref(), Some("[PR #2 »](https://github.com/o/r/pull/2)"));
    let top = generate_stack_graph(&three_prs(), "ccc", "o/r");
    assert_eq!(top.nav_prev.as_deref(), Some("[« PR #2](https://github.com/o/r/pull/2)"));
    assert!(top.nav_next.is_none());
    assert!(top.stack_md.contains("3. **#3** ← *this PR*"));
}

#[test]
fn single_pr_has_no_list() {
    let stack = vec![commit("aaa", "c1", Some("base"), Some(7))];
    let g = generate_stack_graph(&stack, "aaa", "o/r");
    assert!(g.nav_prev.is_none());
    assert!(g.nav_next.is_none());
    assert_eq!(g.stack_md, "");
    assert_eq!(g.review_suffix, "changes/c1");
}

#[test]
fn multi_commit_pr_reviews_a_range() {
    let stack = vec![
        commit("aaa", "c1", Some("base"), Some(5)),
        commit("bbb", "c2", Some("c1"), Some(5)),
    ];
    let g = generate_stack_graph(&stack, "bbb", "o/r");
    assert_eq!(g.review_suffix, "changes/base..c2");
    assert_eq!(g.nav_prev.as_deref(), Some("[« PR #5](https://github.com/o/r/pull/5)"));
}

#[test]
fn commits_without_prs_are_left_out_of_the_list() {
    let stack = vec![
        commit("aaa", "c1", Some("base"), Some(1)),
        commit("xxx", "cx", Some("c1"), None),
        commit("ccc", "c3", Some("cx"), Some(3)),
    ];
    let g = generate_stack_graph(&stack, "ccc", "o/r");
    assert!(g.nav_prev.is_none());
    assert_eq!(
        g.stack_md,
        "<details>\n<summary><b>Stack (2 of 2)</b></summary>\n\n1. #1\n2. **#3** ← *this PR*\n\n</details>\n"
    );
}

#[test]
fn unknown_change_gives_an_empty_graph() {
    let g = generate_stack_graph(&three_prs(), "zzz", "o/r");
    assert!(g.nav_prev.is_none() && g.nav_next.is_none());
    assert_eq!(g.stack_md, "");
    assert_eq!(g.review_suffix, "");
}

#[test]
fn root_commit_without_parent_has_no_review_suffix() {
    let stack = vec![commit("aaa", "c1", None, Some(1))];
    assert_eq!(generate_stack_graph(&stack, "aaa", "o/r").review_suffix, "");
}

#[test]
fn pr_body_is_composed_and_read_back() {
    let g = generate_stack_graph(&three_prs(), "bbb", "o/r");
    let body = compose_pr_body(&g, "o/r", 2, "My notes.");
    let expected_nav = "[« PR #1](https://github.com/o/r/pull/1) · [Review changes](https://github.com/o/r/pull/2/changes/c2) · [PR #3 »](https://github.com/o/r/pull/3)";
    assert_eq!(
        body,
        format!("{}\n\n{}\n\n{}\n\n{}", expected_nav, g.stack_md, BODY_MARKER, "My notes.")
    );
    assert_eq!(existing_user_content(&body, "ignored\n\nbody"), "My notes.");
}

#[test]
fn pr_body_without_stack_list() {
    let g = StackGraph {
        stack_md: String::new(),
        nav_prev: None,
        nav_next: None,
        review_suffix: "changes/abc".to_string(),
    };
    assert_eq!(
        compose_pr_body(&g, "o/r", 9, ""),
        "[Review changes](https://github.com/o/r/pull/9/changes/abc)\n\n<!-- jellycat -->\n\n"
    );
}

#[test]
fn user_content_falls_back_to_commit_body() {
    assert_eq!(existing_user_content("body edited on GitHub", "title\n\nfrom commit"), "from commit");
    assert_eq!(existing_user_content("x <!-- jellycat -->   kept  ", "t"), "kept");
}

#[test]
fn commit_text_helpers() {
    assert_eq!(commit_body("  title\n\n  body line  \n"), "body line");
    assert_eq!(commit_body("title only"), "");
    assert_eq!(commit_body(""), "");
    assert_eq!(pr_title("feat: x\n\nmore"), "feat: x");
    assert_eq!(pr_title(""), "No description");
    assert_eq!(head_owner(Some("me/fork"), "login"), "me");
    assert_eq!(head_owner(None, "login"), "login");
    assert_eq!(pr_head("me", "jc/abc"), "me:jc/abc");
    assert_eq!(plural(1, "commit", "commits"), "1 commit");
    assert_eq!(plural(0, "commit", "commits"), "0 commits");
    assert_eq!(plural(12, "PR body", "PR bodies"), "12 PR bodies");
}

#[test]
fn submit_revset_choice() {
    let given = SubmitArgs { revset: Some("x::y".to_string()), stack: true, draft: false };
    assert_eq!(submit_revset_for(&given, Some("cfg")), "x::y");
    let stack = SubmitArgs { revset: None, stack: true, draft: false };
    assert_eq!(submit_revset_for(&stack, None), "trunk()..@");
    assert_eq!(submit_revset_for(&stack, Some("mine()")), "mine()");
    let plain = SubmitArgs { revset: None, stack: false, draft: false };
    assert_eq!(submit_revset_for(&plain, None), "@");
    assert_eq!(submit_revset_for(&plain, Some("@-::@")), "@-::@");
}

#[test]
fn drafts_come_from_the_flag_or_the_configuration() {
    let flag = SubmitArgs { revset: None, stack: false, draft: true };
    let no_flag = SubmitArgs { revset: None, stack: false, draft: false };
    assert!(draft_for(&flag, false));
    assert!(draft_for(&no_flag, true));
    assert!(!draft_for(&no_flag, false));
}

#[test]
fn new_bookmark_names_are_prefixed_and_random() {
    let a = new_bookmark_name("jc/");
    assert_eq!(a.chars().count(), 15);
    assert!(a.starts_with("jc/"));
    assert!(a[3..].chars().all(|c| c.is_ascii_lowercase()));
    let b = new_bookmark_name("jc/");
    assert_ne!(a, b);
}

#[test]
fn every_submitted_commit_needs_a_pr_number() {
    let mut prs = jellycat::pr_store::PrMap::new();
    prs.insert("abc".to_string(), 12);
    assert_eq!(pr_number_for(&prs, "abc").unwrap(), 12);
    match pr_number_for(&prs, "zzz") {
        Err(jellycat::error::JcError::MissingPrNumber { change_id }) => assert_eq!(change_id, "zzz"),
        other => panic!("unexpected {:?}", other),
    }
}

#[test]
fn commits_are_planned_by_their_pr() {
    let mut prs = jellycat::pr_store::PrMap::new();
    prs.insert("abc".to_string(), 5);
    let plan = submit_plan(&prs, &vec!["abc".to_string(), "new".to_string()]);
    assert!(!plan.nothing);
    assert!(plan.needs_default_branch);
    assert_eq!(plan.steps.len(), 2);
    let old = &plan.steps[0];
    assert_eq!((old.change_id.as_str(), old.pr), ("abc", Some(5)));
    assert!(old.read_head_ref && old.reread_body);
    assert!(!old.new_bookmark && !old.track && !old.create_pr && !old.store_mapping);
    let new = &plan.steps[1];
    assert_eq!((new.change_id.as_str(), new.pr), ("new", None));
    assert!(!new.read_head_ref && !new.reread_body);
    assert!(new.new_bookmark && new.track && new.create_pr && new.store_mapping);

    let only_old = submit_plan(&prs, &vec!["abc".to_string()]);
    assert!(!only_old.needs_default_branch);
    let empty = submit_plan(&prs, &vec![]);
    assert!(empty.nothing && empty.steps.is_empty() && !empty.needs_default_branch);
}
