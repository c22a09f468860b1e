use jellycat::config::{load, save};
use jellycat::error::{check_output, format_cmd};
use jellycat::jj::{
    bookmark_list_parsed, config_list_parsed, find_upstream_remote, stack_lines, stack_revset, Jj,
};
use jellycat::pr_store::{pr_bookmark_name_exec, prs_key_exec, BookmarkPrStore, ConfigPrStore, PrMap};
use jellycat::repo::single_commit_line;
use jellycat::error::JcError;

fn s(v: &[&str]) -> Vec<String> {
    v.iter().map(|x| x.to_string()).collect()
}

fn jj() -> Jj {
    Jj::new("/repo".to_string())
}

#[test]
fn pr_map_reads_back_what_was_written() {
    let mut m = PrMap::new();
    assert!(m.is_empty());
    m.insert("abc".to_string(), 1);
    m.insert("def".to_string(), 2);
    m.insert("abc".to_string(), 3);
    assert_eq!(m.len(), 2);
    assert_eq!(m.get("abc"), Some(3));
    assert_eq!(m.get("def"), Some(2));
    assert_eq!(m.get("zzz"), None);
    assert_eq!(m.find_by_pr(2).as_deref(), Some("def"));
    assert_eq!(m.find_by_pr(9), None);
    m.remove("abc");
    assert_eq!(m.get("abc"), None);
    assert_eq!(m.entries(), vec![("def".to_string(), 2)]);
    m.remove("missing");
    assert_eq!(m.len(), 1);
}

#[test]
fn config_store_commands_and_listing() {
    let store = ConfigPrStore { jj: jj() };
    let set = store.set("abc", 42);
    assert_eq!(set.program, "jj");
    assert_eq!(set.args, s(&["-R", "/repo", "--ignore-working-copy", "config", "set", "--repo", "jellycat.prs.abc", "42"]));
    let unset = store.unset("abc");
    assert_eq!(unset.args, s(&["-R", "/repo", "--ignore-working-copy", "config", "unset", "--repo", "jellycat.prs.abc"]));
    assert_eq!(store.list_command().args, s(&["-R", "/repo", "--ignore-working-copy", "config", "list"]));
    assert_eq!(prs_key_exec("xyz"), "jellycat.prs.xyz");

    let listing = "user.name = \"Me\"\njellycat.prs.abc = \"42\"\njellycat.prs.def = 7\njellycat.prs.bad = \"x\"\njellycat.prs.abc = 43\n";
    let m = store.list(listing);
    assert_eq!(m.len(), 2);
    assert_eq!(m.get("abc"), Some(43));
    assert_eq!(m.get("def"), Some(7));
    assert_eq!(m.get("bad"), None);
}

#[test]
fn bookmark_store_commands_and_listing() {
    let store = BookmarkPrStore { jj: jj() };
    assert_eq!(pr_bookmark_name_exec(12), "pr-12");
    let set = store.set("abc", 12);
    assert_eq!(set.args, s(&["-R", "/repo", "--ignore-working-copy", "bookmark", "set", "pr-12", "-r", "abc"]));
    let bookmarks = vec![
        ("pr-12".to_string(), "abc".to_string()),
        ("feature".to_string(), "def".to_string()),
        ("pr-x".to_string(), "ghi".to_string()),
        ("pr-3".to_string(), "def".to_string()),
    ];
    let m = store.list(&bookmarks);
    assert_eq!(m.len(), 2);
    assert_eq!(m.get("abc"), Some(12));
    assert_eq!(m.get("def"), Some(3));
    assert_eq!(store.find_by_pr(&bookmarks, 3).as_deref(), Some("def"));
    assert_eq!(store.find_by_pr(&bookmarks, 99), None);
    let unset = store.unset(&bookmarks, "abc").unwrap();
    assert_eq!(unset.args, s(&["-R", "/repo", "--ignore-working-copy", "bookmark", "delete", "pr-12"]));
    assert!(store.unset(&bookmarks, "nothing").is_none());
}

#[test]
fn config_loads_from_listing() {
    let listing = "jellycat.upstream_repo = \"owner/repo\"\njellycat.draft = true\nui.editor = \"vim\"\njellycat.prs.abc = 5\n";
    let cfg = load(listing).unwrap();
    assert_eq!(cfg.upstream_repo.as_deref(), Some("owner/repo"));
    assert!(cfg.draft);
    assert_eq!(cfg.prs.len(), 0);
    assert_eq!(cfg.bookmark_prefix(), "jellycat/");
    let inv = save("/repo", "jellycat.origin", "origin");
    assert_eq!(inv.args, s(&["-R", "/repo", "--ignore-working-copy", "config", "set", "--repo", "jellycat.origin", "origin"]));
}

#[test]
fn jj_commands() {
    let j = jj();
    assert_eq!(j.repo_root(), "/repo");
    assert_eq!(stack_revset("abc"), "(::abc | abc::) & mutable()");
    assert_eq!(
        j.get_stack("abc").args,
        s(&["-R", "/repo", "--ignore-working-copy", "log", "-r", "(::abc | abc::) & mutable()", "--no-graph", "--template", "json(self) ++ \"\\n\"", "--reversed"])
    );
    assert!(j.abandon(&vec![]).is_none());
    assert_eq!(
        j.abandon(&s(&["a", "b"])).unwrap().args,
        s(&["-R", "/repo", "--ignore-working-copy", "abandon", "-r", "a", "-r", "b"])
    );
    assert!(j.git_push_bookmarks("origin", &vec![]).is_none());
    assert_eq!(
        j.git_push_bookmarks("origin", &s(&["x", "y"])).unwrap().args,
        s(&["-R", "/repo", "--ignore-working-copy", "git", "push", "--remote", "origin", "--bookmark", "x", "--bookmark", "y"])
    );
}

#[test]
fn jj_output_parsers() {
    let listing = "jellycat.upstream = \"up\"\nother.key = 1\nno equals sign\njellycat.draft=\"\"\n";
    assert_eq!(
        config_list_parsed(listing, Some("jellycat.")),
        vec![("jellycat.upstream".to_string(), "up".to_string()), ("jellycat.draft".to_string(), "".to_string())]
    );
    assert_eq!(config_list_parsed(listing, None).len(), 3);
    assert_eq!(
        bookmark_list_parsed("feat/foo\tabc123abc123\nother\tdef456def456\nnotab\n"),
        vec![
            ("feat/foo".to_string(), "abc123abc123".to_string()),
            ("other".to_string(), "def456def456".to_string())
        ]
    );
    assert_eq!(stack_lines("{\"a\":1}\n\n{\"b\":2}\n"), s(&["{\"a\":1}", "{\"b\":2}"]));
    let remotes = "origin git@github.com:me/fork.git\nupstream https://github.com/owner/repo.git\n";
    assert_eq!(find_upstream_remote(remotes, "owner/repo").unwrap(), "upstream");
    match find_upstream_remote(remotes, "nobody/none") {
        Err(JcError::UpstreamRemoteNotFound { upstream_repo }) => assert_eq!(upstream_repo, "nobody/none"),
        other => panic!("unexpected {:?}", other),
    }
}

#[test]
fn single_commit_line_counts_lines() {
    assert_eq!(single_commit_line("{\"change_id\":\"x\"}\n").unwrap(), "{\"change_id\":\"x\"}");
    assert!(matches!(single_commit_line(""), Err(JcError::RevsetNotSingle { count: 0 })));
    assert!(matches!(single_commit_line("a\nb\n"), Err(JcError::RevsetNotSingle { count: 2 })));
}

#[test]
fn command_lines_and_failures() {
    assert_eq!(format_cmd("jj", &s(&["log", "-r", "@"])), "jj log -r @");
    assert_eq!(format_cmd("gh", &vec![]), "gh");
    assert!(check_output("jj x".to_string(), true, Some(0), "warn").is_ok());
    let e = check_output("jj x".to_string(), false, Some(1), "  Error: no such revision \n").unwrap_err();
    assert_eq!(e.command, "jj x");
    assert_eq!(e.exit_code, Some(1));
    assert_eq!(e.stderr, "Error: no such revision");
}

#[test]
fn error_messages() {
    assert_eq!(JcError::SmartWithPrNumber.message(), "cannot combine --smart with a PR number");
    assert_eq!(JcError::PrNumberRequired.message(), "pr_number is required (or pass --smart)");
    assert_eq!(
        JcError::AlreadyLinked { existing_pr: 42 }.message(),
        "Commit is already linked to PR #42. Use --force to overwrite."
    );
    assert_eq!(
        JcError::UpstreamRepoNotConfigured.message(),
        "jellycat.upstream_repo not configured. Run 'jc init'."
    );
    assert_eq!(JcError::OriginNotConfigured.message(), "jellycat.origin not configured. Run 'jc init'.");
    assert_eq!(
        JcError::UpstreamRemoteNotFound { upstream_repo: "o/r".to_string() }.message(),
        "No remote found matching upstream repo 'o/r'"
    );
    assert_eq!(
        JcError::RemoteUrlNotFound { remote: "up".to_string() }.message(),
        "Could not find URL for remote 'up'"
    );
    assert_eq!(
        JcError::RevsetNotSingle { count: 3 }.message(),
        "revset must resolve to exactly one commit, but got 3"
    );
    assert_eq!(
        JcError::NoGitRemotes.message(),
        "No git remotes found. Please add a remote using 'jj git remote add'."
    );
    assert_eq!(
        JcError::InvalidUpstreamFormat { upstream: "x".to_string() }.message(),
        "Invalid upstream format 'x', expected 'owner/repo'"
    );
    assert_eq!(
        JcError::MissingPrNumber { change_id: "abcdefghijklmnopq".to_string() }.message(),
        "No PR number for commit abcdefghijkl"
    );
    assert_eq!(JcError::MissingPrNumber { change_id: "abc".to_string() }.message(), "No PR number for commit abc");
    assert_eq!(
        JcError::Api { context: "gh api graphql failed".to_string(), message: "Bad".to_string() }.message(),
        "gh api graphql failed: Bad"
    );
    assert_eq!(JcError::BadResponse { message: "oops".to_string() }.message(), "oops");
}
