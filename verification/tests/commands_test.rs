use jellycat::commands::context::{
    auth_mode, require_origin, require_upstream, AuthMode,
};
use jellycat::commands::get::{fetch_remote, refspec, remote_url};
use jellycat::commands::link::{
    decide_single, decide_smart, has_name, link_mode, smart_candidates, LinkArgs, LinkDecision,
    LinkMode, SmartOutcome,
};
use jellycat::commands::publish::{already_in_state, publish_summary};
use jellycat::commands::pull::{is_up_to_date, new_description, pull_summary, revset_or_current};
use jellycat::commands::status::{format_timestamp, pr_url, sort_by_pr, timestamp_fits};
use jellycat::commands::tidy::{
    change_ids_of, closed_entries, contains_id, find_state, split_tracked, tidy_removals,
    tracked_revset,
};
use jellycat::commands::unlink::{decide_unlink, unlink_mode, UnlinkArgs, UnlinkDecision, UnlinkMode};
use jellycat::commands::{is_standalone, requires_upstream, Commands};
use jellycat::config::Config;
use jellycat::error::JcError;
use jellycat::pr_store::{linked_prs, PrMap};

fn link_args(pr_number: Option<u32>, force: bool, smart: bool) -> LinkArgs {
    LinkArgs { revset: "@".to_string(), pr_number, force, smart }
}

fn entries(v: &[(&str, u32)]) -> Vec<(String, u32)> {
    v.iter().map(|(c, n)| (c.to_string(), *n)).collect()
}

// --- link -----------------------------------------------------------------

#[test]
fn link_mode_reads_the_arguments() {
    assert_eq!(link_mode(&link_args(Some(3), false, false)).unwrap(), LinkMode::Single(3));
    assert_eq!(link_mode(&link_args(None, false, true)).unwrap(), LinkMode::Smart);
    assert!(matches!(link_mode(&link_args(Some(3), false, true)), Err(JcError::SmartWithPrNumber)));
    assert!(matches!(link_mode(&link_args(None, false, false)), Err(JcError::PrNumberRequired)));
}

#[test]
fn linking_a_commit() {
    let mut prs = PrMap::new();
    prs.insert("abc".to_string(), 5);
    assert_eq!(decide_single(&prs, "new", 7, false).unwrap(), LinkDecision::Store);
    assert_eq!(decide_single(&prs, "abc", 5, false).unwrap(), LinkDecision::AlreadyLinked);
    match decide_single(&prs, "abc", 7, false) {
        Err(JcError::AlreadyLinked { existing_pr }) => assert_eq!(existing_pr, 5),
        other => panic!("unexpected {:?}", other),
    }
    assert_eq!(decide_single(&prs, "abc", 7, true).unwrap(), LinkDecision::Store);
}

#[test]
fn smart_linking_decisions() {
    assert_eq!(decide_smart(None, 4, false), SmartOutcome::Link);
    assert_eq!(decide_smart(Some(4), 4, false), SmartOutcome::Skipped);
    assert_eq!(decide_smart(Some(4), 4, true), SmartOutcome::Skipped);
    assert_eq!(decide_smart(Some(3), 4, false), SmartOutcome::Conflict(3));
    assert_eq!(decide_smart(Some(3), 4, true), SmartOutcome::Link);
}

#[test]
fn smart_candidates_are_prs_with_local_bookmarks() {
    let prs = vec![(1, "a".to_string()), (2, "feat/foo".to_string()), (3, "c".to_string())];
    let bookmarks = vec![
        ("feat/foo".to_string(), "abc123abc123".to_string()),
        ("c".to_string(), "def".to_string()),
        ("other".to_string(), "def456def456".to_string()),
    ];
    assert_eq!(
        smart_candidates(&prs, &bookmarks),
        vec![(2, "feat/foo".to_string()), (3, "c".to_string())]
    );
    assert!(has_name(&bookmarks, "other"));
    assert!(!has_name(&bookmarks, "a"));
    assert!(smart_candidates(&prs, &vec![]).is_empty());
}

// --- unlink ---------------------------------------------------------------

#[test]
fn unlink_mode_reads_the_arguments() {
    let none = UnlinkArgs { revset: None, pr_number: None };
    match unlink_mode(&none) {
        UnlinkMode::ByRevset { revset, pr_number } => {
            assert_eq!(revset, "@");
            assert_eq!(pr_number, None);
        }
        other => panic!("unexpected {:?}", other),
    }
    let by_pr = UnlinkArgs { revset: None, pr_number: Some(9) };
    assert!(matches!(unlink_mode(&by_pr), UnlinkMode::ByPr(9)));
    let by_rev = UnlinkArgs { revset: Some("@-".to_string()), pr_number: Some(9) };
    match unlink_mode(&by_rev) {
        UnlinkMode::ByRevset { revset, pr_number } => {
            assert_eq!(revset, "@-");
            assert_eq!(pr_number, Some(9));
        }
        other => panic!("unexpected {:?}", other),
    }
}

#[test]
fn unlink_decisions() {
    assert_eq!(decide_unlink(None, Some(1)), UnlinkDecision::NotLinked);
    assert_eq!(decide_unlink(None, None), UnlinkDecision::NotLinked);
    assert_eq!(
        decide_unlink(Some(2), Some(1)),
        UnlinkDecision::Mismatch { requested: 1, existing: 2 }
    );
    assert_eq!(decide_unlink(Some(2), Some(2)), UnlinkDecision::Unset(2));
    assert_eq!(decide_unlink(Some(2), None), UnlinkDecision::Unset(2));
}

// --- get ------------------------------------------------------------------

#[test]
fn get_refspec_and_remote_url() {
    assert_eq!(refspec(42, "feat/x"), "refs/pull/42/head:refs/heads/feat/x");
    let listing = "origin git@github.com:me/fork.git\nupstream   https://github.com/owner/repo.git  \n";
    assert_eq!(remote_url(listing, "upstream").unwrap(), "https://github.com/owner/repo.git");
    assert_eq!(remote_url(listing, "origin").unwrap(), "git@github.com:me/fork.git");
    match remote_url(listing, "nope") {
        Err(JcError::RemoteUrlNotFound { remote }) => assert_eq!(remote, "nope"),
        other => panic!("unexpected {:?}", other),
    }
    // A remote whose name only starts with the one asked for is not it.
    assert!(remote_url("upstream2 url\n", "upstream").is_err());
}

// --- pull and publish -----------------------------------------------------

#[test]
fn pull_builds_the_description() {
    assert_eq!(
        new_description("feat: x", "nav\n\n<!-- jellycat -->\n\n  user body \n"),
        "feat: x\n\nuser body"
    );
    assert_eq!(new_description("feat: x", "plain body"), "feat: x\n\nplain body");
    assert_eq!(new_description("feat: x", "  \n"), "feat: x");
    assert_eq!(new_description("feat: x", "nav\n<!-- jellycat -->\n"), "feat: x");
    assert!(is_up_to_date("T\n\nbody", "  T\n\nbody\n"));
    assert!(!is_up_to_date("T", "T2"));
}

#[test]
fn pull_is_idempotent_on_an_example() {
    let d = new_description("Title", "x\n\n<!-- jellycat -->\n\nmore text\n");
    assert!(is_up_to_date(&new_description("Title", "x\n\n<!-- jellycat -->\n\nmore text\n"), &d));
}

#[test]
fn summaries() {
    assert_eq!(pull_summary(0), "Nothing to pull.");
    assert_eq!(pull_summary(1), "Pulled 1 commit description.");
    assert_eq!(pull_summary(12), "Pulled 12 commit descriptions.");
    assert_eq!(publish_summary(0, false), "Nothing to publish.");
    assert_eq!(publish_summary(0, true), "Nothing to unpublish.");
    assert_eq!(publish_summary(1, false), "Published 1 PR.");
    assert_eq!(publish_summary(1, true), "Unpublished 1 PR.");
    assert_eq!(publish_summary(3, false), "Published 3 PRs.");
    assert_eq!(publish_summary(3, true), "Unpublished 3 PRs.");
}

#[test]
fn publish_state_check() {
    assert!(already_in_state(true, true));
    assert!(already_in_state(false, false));
    assert!(!already_in_state(true, false));
    assert!(!already_in_state(false, true));
}

#[test]
fn revset_defaults_to_current_commit() {
    assert_eq!(revset_or_current(&None), "@");
    assert_eq!(revset_or_current(&Some("trunk()..@".to_string())), "trunk()..@");
}

// --- tidy -----------------------------------------------------------------

#[test]
fn tidy_splits_and_finds_closed() {
    assert_eq!(tracked_revset(&vec!["a".to_string(), "b".to_string(), "c".to_string()]), "a | b | c");
    assert_eq!(tracked_revset(&vec!["a".to_string()]), "a");

    let all = entries(&[("a", 1), ("b", 2), ("c", 3), ("d", 4)]);
    let existing = vec!["b".to_string(), "c".to_string(), "d".to_string()];
    assert!(contains_id(&existing, "c"));
    assert!(!contains_id(&existing, "a"));
    let (abandoned, live) = split_tracked(&all, &existing);
    assert_eq!(abandoned, entries(&[("a", 1)]));
    assert_eq!(live, entries(&[("b", 2), ("c", 3), ("d", 4)]));

    let states = vec![(2, "MERGED".to_string()), (3, "OPEN".to_string()), (4, "CLOSED".to_string())];
    assert_eq!(find_state(&states, 3).as_deref(), Some("OPEN"));
    assert_eq!(find_state(&states, 9), None);
    assert_eq!(closed_entries(&live, &states), entries(&[("b", 2), ("d", 4)]));
}

#[test]
fn tidy_keeps_open_and_unknown_prs() {
    let live = entries(&[("x", 10), ("y", 11)]);
    let states = vec![(10, "OPEN".to_string())];
    assert!(closed_entries(&live, &states).is_empty());
}

// --- status ---------------------------------------------------------------

#[test]
fn status_url_and_order() {
    assert_eq!(pr_url("owner/repo", 17), "https://github.com/owner/repo/pull/17");
    let sorted = sort_by_pr(entries(&[("c", 30), ("a", 10), ("b", 20), ("d", 10)]));
    assert_eq!(sorted, entries(&[("a", 10), ("d", 10), ("b", 20), ("c", 30)]));
    assert!(sort_by_pr(vec![]).is_empty());
}

#[test]
fn timestamps_relative_to_now() {
    let ts = "2026-03-18T22:08:45-07:00";
    let t = 1773896925i64;
    let show = |now: i64| {
        assert!(timestamp_fits(ts, now));
        format_timestamp(ts, now)
    };
    assert_eq!(show(t + 30), "just now");
    assert_eq!(show(t - 100), "just now");
    assert_eq!(show(t + 60), "1 minute ago");
    assert_eq!(show(t + 150), "2 minutes ago");
    assert_eq!(show(t + 3600), "1 hour ago");
    assert_eq!(show(t + 3 * 3600 + 5), "3 hours ago");
    assert_eq!(show(t + 86400), "1 day ago");
    assert_eq!(show(t + 29 * 86400), "29 days ago");
    assert_eq!(show(t + 30 * 86400), "2026-03-18");
}

#[test]
fn timestamps_with_positive_offset_and_odd_input() {
    let ts = "2025-12-31T23:59:00+05:30";
    let t = 1767205740i64;
    assert!(timestamp_fits(ts, t + 120));
    assert_eq!(format_timestamp(ts, t + 120), "2 minutes ago");
    for raw in ["garbage", "2026-03-18", "2026-03-18 22:08:45+00:00", "2026-03T22:08+00:00"] {
        assert!(timestamp_fits(raw, t));
        assert_eq!(format_timestamp(raw, t), raw);
    }
    // Without seconds the time still reads.
    assert_eq!(format_timestamp("2026-03-18T22:08-07:00", 1773896880 + 7200), "2 hours ago");
}

#[test]
fn timestamps_out_of_range_are_refused() {
    assert!(!timestamp_fits("2026-03-18T22:08:45+99999999999999999:00", 0));
    assert!(!timestamp_fits("2026-03-18T22:08:45-07:00", i64::MIN));
    assert!(timestamp_fits("2026-03-18T22:08:45-07:00", 0));
}

// --- context and dispatch -------------------------------------------------

#[test]
fn context_requires_configuration() {
    let mut c = Config::default();
    assert!(matches!(require_upstream(&c), Err(JcError::UpstreamRepoNotConfigured)));
    assert!(matches!(require_origin(&c), Err(JcError::OriginNotConfigured)));
    assert!(matches!(auth_mode(&c), AuthMode::GhStatus));
    c.upstream_repo = Some("owner/repo".to_string());
    c.origin = Some("origin".to_string());
    c.github_user = Some("me".to_string());
    assert_eq!(require_upstream(&c).unwrap(), "owner/repo");
    assert_eq!(require_origin(&c).unwrap(), "origin");
    match auth_mode(&c) {
        AuthMode::UserToken(u) => assert_eq!(u, "me"),
        AuthMode::GhStatus => panic!("expected a user token"),
    }
}

#[test]
fn which_commands_need_what() {
    assert!(is_standalone(&Commands::Skills));
    assert!(is_standalone(&Commands::Config));
    assert!(!requires_upstream(&Commands::Link(link_args(Some(1), false, false))));
    assert!(!requires_upstream(&Commands::Unlink(UnlinkArgs { revset: None, pr_number: Some(1) })));
    assert!(requires_upstream(&Commands::Status(jellycat::commands::status::StatusArgs {})));
    assert!(!is_standalone(&Commands::Status(jellycat::commands::status::StatusArgs {})));
}

#[test]
fn fetch_remote_prefers_the_configuration() {
    let listing = "origin git@github.com:me/fork.git\nupstream https://github.com/owner/repo.git\n";
    assert_eq!(fetch_remote(Some("up"), listing, "owner/repo").unwrap(), "up");
    assert_eq!(fetch_remote(None, listing, "owner/repo").unwrap(), "upstream");
    assert!(matches!(
        fetch_remote(None, listing, "x/y"),
        Err(JcError::UpstreamRemoteNotFound { .. })
    ));
}

#[test]
fn tidy_abandons_closed_and_removes_all_finished() {
    let closed = entries(&[("b", 2), ("d", 4)]);
    let abandoned = entries(&[("a", 1)]);
    assert_eq!(change_ids_of(&closed), vec!["b".to_string(), "d".to_string()]);
    assert_eq!(
        tidy_removals(&closed, &abandoned),
        vec!["b".to_string(), "d".to_string(), "a".to_string()]
    );
    assert!(tidy_removals(&vec![], &vec![]).is_empty());
}

#[test]
fn linked_prs_in_order() {
    let mut prs = PrMap::new();
    prs.insert("a".to_string(), 1);
    prs.insert("c".to_string(), 3);
    let ids = vec!["a".to_string(), "b".to_string(), "c".to_string()];
    assert_eq!(linked_prs(&prs, &ids), vec![Some(1), None, Some(3)]);
}
