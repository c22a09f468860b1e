use jellycat::error::JcError;
use jellycat::gh::{
    api_error, api_error_text, api_failure, body_from_reply, error_parts, github_account,
    open_prs_from_items, pr_states_from_reply, GhAuth, GqlPullRequest, created_pr_from_reply, head_ref_from_reply, is_draft_from_reply,
    open_prs_from_reply, pr_alias_exec, pr_info, title_and_body_from_reply, Gh, GqlCheckContext,
};

fn bad_response(e: JcError) -> String {
    match e {
        JcError::BadResponse { message } => message,
        other => panic!("expected a bad response, got {:?}", other),
    }
}

fn s(v: &[&str]) -> Vec<String> {
    v.iter().map(|x| x.to_string()).collect()
}

#[test]
fn head_ref_is_read_from_the_reply() {
    assert_eq!(head_ref_from_reply(br#"{"headRefName":"feat/foo"}"#).unwrap(), "feat/foo");
}

#[test]
fn head_ref_missing_is_an_error() {
    let e = head_ref_from_reply(br#"{"other":1}"#).unwrap_err();
    assert_eq!(bad_response(e), "No headRefName in response");
}

#[test]
fn head_ref_of_non_json_is_an_error() {
    let e = head_ref_from_reply(b"not json").unwrap_err();
    assert!(!bad_response(e).is_empty());
}

#[test]
fn body_is_read_or_empty() {
    assert_eq!(body_from_reply(br#"{"body":"hello\nworld"}"#).unwrap(), "hello\nworld");
    assert_eq!(body_from_reply(br#"{"body":null}"#).unwrap(), "");
    assert!(body_from_reply(b"{").is_err());
}

#[test]
fn title_and_body_are_read() {
    let (t, b) = title_and_body_from_reply(br#"{"title":"feat: x","body":"details"}"#).unwrap();
    assert_eq!(t, "feat: x");
    assert_eq!(b, "details");
    let (t, b) = title_and_body_from_reply(br#"{"title":"only"}"#).unwrap();
    assert_eq!(t, "only");
    assert_eq!(b, "");
    let e = title_and_body_from_reply(br#"{"body":"b"}"#).unwrap_err();
    assert_eq!(bad_response(e), "No title in response");
}

#[test]
fn draft_flag_is_read() {
    assert_eq!(is_draft_from_reply(br#"{"isDraft":true}"#).unwrap(), true);
    assert_eq!(is_draft_from_reply(br#"{"isDraft":false}"#).unwrap(), false);
    let e = is_draft_from_reply(br#"{}"#).unwrap_err();
    assert_eq!(bad_response(e), "No isDraft in response");
}

#[test]
fn created_pr_is_read() {
    let (n, url) = created_pr_from_reply(
        br#"{"number":123,"html_url":"https://github.com/owner/repo/pull/123"}"#,
    )
    .unwrap();
    assert_eq!(n, 123);
    assert_eq!(url, "https://github.com/owner/repo/pull/123");
}

#[test]
fn created_pr_missing_fields_are_errors() {
    let e = created_pr_from_reply(br#"{"html_url":"u"}"#).unwrap_err();
    assert_eq!(bad_response(e), "No PR number in response");
    let e = created_pr_from_reply(br#"{"number":5}"#).unwrap_err();
    assert_eq!(bad_response(e), "No html_url in response");
}

#[test]
fn open_prs_are_read_in_order() {
    let prs = open_prs_from_reply(
        br#"[{"number":7,"headRefName":"feat/foo"},{"number":9,"headRefName":"fix/bar"}]"#,
    )
    .unwrap();
    assert_eq!(prs, vec![(7, "feat/foo".to_string()), (9, "fix/bar".to_string())]);
    assert!(open_prs_from_reply(b"[]").unwrap().is_empty());
}

#[test]
fn open_prs_errors() {
    let e = open_prs_from_reply(br#"{"a":1}"#).unwrap_err();
    assert_eq!(bad_response(e), "Expected array from gh pr list");
    let e = open_prs_from_reply(br#"[{"headRefName":"x"}]"#).unwrap_err();
    assert_eq!(bad_response(e), "Missing number in gh pr list response");
    let e = open_prs_from_reply(br#"[{"number":1}]"#).unwrap_err();
    assert_eq!(bad_response(e), "Missing headRefName in gh pr list response");
}

#[test]
fn api_error_joins_message_and_errors() {
    let out = br#"{"message":"Validation Failed","errors":[{"message":"A pull request already exists"},"second"]}"#;
    assert_eq!(
        api_error(out, "ignored"),
        "Validation Failed: A pull request already exists: second"
    );
}

#[test]
fn api_error_falls_back_to_stderr() {
    assert_eq!(api_error(b"not json", "  HTTP 404 \n"), "HTTP 404");
    assert_eq!(api_error(br#"{"other":1}"#, " boom "), "boom");
}

#[test]
fn gh_argument_lists() {
    let gh = Gh::new();
    assert!(gh.token.is_none());
    assert_eq!(Gh::get_token("me"), s(&["auth", "token", "--user", "me"]));
    assert_eq!(gh.auth_status(), s(&["auth", "status", "--json", "hosts", "--show-token"]));
    assert_eq!(
        gh.list_my_open_prs("owner/repo"),
        s(&["pr", "list", "--repo", "owner/repo", "--author", "@me", "--state", "open", "--json", "number,headRefName"])
    );
    assert_eq!(
        gh.pr_view_head_ref("owner/repo", 42),
        s(&["pr", "view", "42", "--repo", "owner/repo", "--json", "headRefName"])
    );
    assert_eq!(
        gh.pr_view_title_and_body("o/r", 3),
        s(&["pr", "view", "3", "--repo", "o/r", "--json", "title,body"])
    );
    assert_eq!(gh.pr_ready("o/r", 5, false), s(&["pr", "ready", "5", "--repo", "o/r"]));
    assert_eq!(gh.pr_ready("o/r", 5, true), s(&["pr", "ready", "5", "--repo", "o/r", "--undo"]));
    assert_eq!(
        gh.pr_edit_body("o/r", 8, "new body"),
        s(&["pr", "edit", "8", "--repo", "o/r", "--body", "new body"])
    );
    assert_eq!(gh.default_branch("o/r"), s(&["api", "/repos/o/r", "--jq", ".default_branch"]));
    let with_token = Gh::with_token("tok".to_string());
    assert_eq!(with_token.token.as_deref(), Some("tok"));
}

#[test]
fn create_pr_arguments() {
    let gh = Gh::new();
    assert_eq!(
        gh.create_pr("owner/repo", "T", "B", "me:br", "main", None, false),
        s(&["api", "--method", "POST", "/repos/owner/repo/pulls", "-f", "title=T", "-f", "body=B", "-f", "head=me:br", "-f", "base=main"])
    );
    assert_eq!(
        gh.create_pr("owner/repo", "T", "B", "me:br", "main", Some("me/fork"), true),
        s(&["api", "--method", "POST", "/repos/owner/repo/pulls", "-f", "title=T", "-f", "body=B", "-f", "head=me:br", "-f", "base=main", "-f", "head_repo=me/fork", "-F", "draft=true"])
    );
}

#[test]
fn pr_states_query() {
    let gh = Gh::new();
    assert!(gh.pr_states("owner/repo", &vec![]).unwrap().is_none());
    match gh.pr_states("noslash", &vec![1]) {
        Err(JcError::InvalidUpstreamFormat { upstream }) => assert_eq!(upstream, "noslash"),
        other => panic!("unexpected {:?}", other),
    }
    let args = gh.pr_states("owner/repo", &vec![42, 7]).unwrap().unwrap();
    assert_eq!(&args[..3], &s(&["api", "graphql", "-f"])[..]);
    let q = &args[3];
    assert!(q.starts_with("query=query {\n  repository(owner: \"owner\", name: \"repo\") {"));
    assert!(q.contains("\n  pr_42: pullRequest(number: 42) {\n    state\n"));
    assert!(q.contains("\n  pr_7: pullRequest(number: 7) {"));
    assert!(q.find("pr_42").unwrap() < q.find("pr_7").unwrap());
    assert!(q.ends_with("\n  }\n}"));
    assert_eq!(pr_alias_exec(42), "pr_42");
}

#[test]
fn pr_info_counts_failed_checks() {
    let checks = vec![
        GqlCheckContext::CheckRun { conclusion: Some("SUCCESS".to_string()) },
        GqlCheckContext::CheckRun { conclusion: Some("FAILURE".to_string()) },
        GqlCheckContext::CheckRun { conclusion: Some("TIMED_OUT".to_string()) },
        GqlCheckContext::CheckRun { conclusion: None },
        GqlCheckContext::StatusContext { state: "ERROR".to_string() },
        GqlCheckContext::StatusContext { state: "SUCCESS".to_string() },
    ];
    let info = pr_info("OPEN".to_string(), 2, 3, Some(&checks));
    assert_eq!(info.state, "OPEN");
    assert_eq!(info.comment_count, 5);
    assert_eq!(info.failed_checks, 3);
    let info = pr_info("MERGED".to_string(), 0, 0, None);
    assert_eq!(info.failed_checks, 0);
}

#[test]
fn api_failure_carries_context_and_message() {
    match api_failure("Failed to create PR", br#"{"message":"Not Found"}"#, "") {
        JcError::Api { context, message } => {
            assert_eq!(context, "Failed to create PR");
            assert_eq!(message, "Not Found");
        }
        other => panic!("unexpected {:?}", other),
    }
}

fn pr(state: &str, comments: u32, reviews: u32, commits: Vec<Option<Vec<GqlCheckContext>>>) -> GqlPullRequest {
    GqlPullRequest { state: state.to_string(), comments, reviews, commits }
}

#[test]
fn pr_states_are_read_from_the_reply() {
    let reply = vec![
        ("pr_7".to_string(), pr("MERGED", 1, 1, vec![])),
        (
            "pr_42".to_string(),
            pr(
                "OPEN",
                3,
                2,
                vec![Some(vec![
                    GqlCheckContext::CheckRun { conclusion: Some("FAILURE".to_string()) },
                    GqlCheckContext::StatusContext { state: "SUCCESS".to_string() },
                ])],
            ),
        ),
        ("pr_9".to_string(), pr("CLOSED", 0, 0, vec![None])),
    ];
    let states = pr_states_from_reply(&vec![42, 7, 100, 9], &reply).unwrap();
    let seen: Vec<(u32, String, u32, u32)> = states
        .into_iter()
        .map(|(n, i)| (n, i.state, i.comment_count, i.failed_checks))
        .collect();
    assert_eq!(
        seen,
        vec![
            (42, "OPEN".to_string(), 5, 1),
            (7, "MERGED".to_string(), 2, 0),
            (9, "CLOSED".to_string(), 0, 0)
        ]
    );
    assert!(pr_states_from_reply(&vec![], &reply).unwrap().is_empty());
}

#[test]
fn pr_states_refuse_counts_past_u32() {
    let reply = vec![("pr_1".to_string(), pr("OPEN", u32::MAX, 1, vec![]))];
    assert!(pr_states_from_reply(&vec![1], &reply).is_none());
    // A PR not asked for does not count.
    assert!(pr_states_from_reply(&vec![2], &reply).unwrap().is_empty());
}

#[test]
fn github_account_is_the_first_of_github_com() {
    let auth = |l: &str, t: &str| GhAuth { login: l.to_string(), token: t.to_string() };
    let hosts = vec![
        ("ghe.example.com".to_string(), vec![auth("corp", "t0")]),
        ("github.com".to_string(), vec![auth("me", "t1"), auth("other", "t2")]),
    ];
    let a = github_account(&hosts).unwrap();
    assert_eq!((a.login.as_str(), a.token.as_str()), ("me", "t1"));
    assert!(matches!(github_account(&vec![]), Err(JcError::NoGithubAuth)));
    let empty = vec![("github.com".to_string(), vec![])];
    assert!(matches!(github_account(&empty), Err(JcError::NoGithubAuth)));
}

#[test]
fn open_prs_from_read_items() {
    let items = vec![(Some(3u64), Some("a".to_string())), (Some(4u64 + (1u64 << 32)), Some("b".to_string()))];
    assert_eq!(
        open_prs_from_items(&items).unwrap(),
        vec![(3, "a".to_string()), (4, "b".to_string())]
    );
    let e = open_prs_from_items(&vec![(Some(1), Some("a".to_string())), (None, None)]).unwrap_err();
    assert_eq!(bad_response(e), "Missing number in gh pr list response");
    let e = open_prs_from_items(&vec![(Some(1), None)]).unwrap_err();
    assert_eq!(bad_response(e), "Missing headRefName in gh pr list response");
}

#[test]
fn error_parts_and_text() {
    let items = vec![
        (Some("first".to_string()), None),
        (None, Some("second".to_string())),
        (Some("third".to_string()), Some("ignored".to_string())),
        (None, None),
    ];
    let parts = error_parts(Some("Validation Failed".to_string()), &items);
    assert_eq!(parts, s(&["Validation Failed", "first", "second", "third"]));
    assert_eq!(api_error_text(&parts, "x"), "Validation Failed: first: second: third");
    assert_eq!(error_parts(None, &vec![]), Vec::<String>::new());
    assert_eq!(api_error_text(&vec![], "  stderr text \n"), "stderr text");
}
