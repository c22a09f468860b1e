use jellycat::commands::config::{description, listing};
use jellycat::commands::init::{
    already_configured, find_default_index, parse_remotes, require_remotes, validate_owner_repo,
    InitArgs,
};
use jellycat::config::Config;
use jellycat::error::JcError;

#[test]
fn remotes_are_parsed_with_their_repositories() {
    let remotes = parse_remotes(
        "origin\tgit@github.com:me/fork.git\nupstream   https://github.com/owner/repo.git\nlonely\nlab https://gitlab.com/a/b.git\n",
    );
    assert_eq!(remotes.len(), 3);
    assert_eq!(remotes[0].name, "origin");
    assert_eq!(remotes[0].url, "git@github.com:me/fork.git");
    assert_eq!(remotes[0].repo.as_deref(), Some("me/fork"));
    assert_eq!(remotes[1].name, "upstream");
    assert_eq!(remotes[1].repo.as_deref(), Some("owner/repo"));
    assert_eq!(remotes[2].name, "lab");
    assert_eq!(remotes[2].repo, None);
    assert_eq!(find_default_index(&remotes, "upstream"), 1);
    assert_eq!(find_default_index(&remotes, "missing"), 0);
    assert_eq!(require_remotes(remotes).unwrap().len(), 3);
    assert!(matches!(require_remotes(vec![]), Err(JcError::NoGitRemotes)));
}

#[test]
fn owner_repo_validation() {
    assert!(validate_owner_repo("owner/repo").is_ok());
    for bad in ["owner", "/repo", "owner/", "a/b/c", ""] {
        assert_eq!(validate_owner_repo(bad).unwrap_err(), "Expected 'owner/repo' format");
    }
}

#[test]
fn init_is_skipped_when_configured() {
    let mut c = Config::default();
    assert!(!already_configured(&c, &InitArgs { force: false }));
    c.upstream_repo = Some("o/r".to_string());
    c.origin = Some("origin".to_string());
    assert!(already_configured(&c, &InitArgs { force: false }));
    assert!(!already_configured(&c, &InitArgs { force: true }));
}

#[test]
fn config_listing_explains_known_keys() {
    assert_eq!(description("jellycat.upstream_repo"), Some("GitHub owner/repo for upstream repository"));
    assert_eq!(description("jellycat.draft"), Some("Create PRs as drafts by default"));
    assert_eq!(description("jellycat.head_repo"), None);
    assert_eq!(description("jellycat.unknown"), None);
    let entries = vec![
        ("jellycat.origin".to_string(), "origin".to_string()),
        ("jellycat.prs.abc".to_string(), "4".to_string()),
        ("jellycat.custom".to_string(), "x".to_string()),
    ];
    assert_eq!(
        listing(&entries),
        "# Git remote name for fork (origin)\njellycat.origin=origin\n\njellycat.custom=x\n\n"
    );
}
