use jellycat::config::{keys, load_from_entries};
use jellycat::pr_store::PrStoreType;

fn entries(pairs: &[(&str, &str)]) -> Vec<(String, String)> {
    pairs
        .iter()
        .map(|(k, v)| (k.to_string(), v.to_string()))
        .collect()
}

#[test]
fn loads_new_style_keys() {
    let cfg = load_from_entries(entries(&[
        ("jellycat.upstream_repo", "owner/upstream"),
        ("jellycat.upstream", "upstream"),
        ("jellycat.origin", "origin"),
        ("jellycat.origin_repo", "me/fork"),
        ("jellycat.github_user", "me"),
        ("jellycat.bookmark_prefix", "me/"),
        ("jellycat.draft", "true"),
        ("jellycat.default_revset", "trunk()..@"),
    ]))
    .unwrap();

    assert_eq!(cfg.upstream_repo.as_deref(), Some("owner/upstream"));
    assert_eq!(cfg.upstream.as_deref(), Some("upstream"));
    assert_eq!(cfg.origin.as_deref(), Some("origin"));
    assert_eq!(cfg.origin_repo.as_deref(), Some("me/fork"));
    assert_eq!(cfg.github_user.as_deref(), Some("me"));
    assert_eq!(cfg.bookmark_prefix.as_deref(), Some("me/"));
    assert!(cfg.draft);
    assert_eq!(cfg.default_revset.as_deref(), Some("trunk()..@"));
    assert!(cfg.deprecated_keys.is_empty());
}

#[test]
fn migrates_deprecated_upstream_to_upstream_repo() {
    // Old-style: jellycat.upstream was the owner/repo string.
    let cfg = load_from_entries(entries(&[("jellycat.upstream", "owner/oldrepo")])).unwrap();

    assert_eq!(cfg.upstream_repo.as_deref(), Some("owner/oldrepo"));
    assert!(cfg.upstream.is_none());
    assert_eq!(
        cfg.deprecated_keys,
        vec![(keys::UPSTREAM, keys::UPSTREAM_REPO)]
    );
}

#[test]
fn new_upstream_repo_wins_over_old_upstream_owner_slash_repo() {
    let cfg = load_from_entries(entries(&[
        ("jellycat.upstream_repo", "owner/new"),
        ("jellycat.upstream", "owner/old"),
    ]))
    .unwrap();

    assert_eq!(cfg.upstream_repo.as_deref(), Some("owner/new"));
    // No migration recorded because new key was present.
    assert!(cfg.deprecated_keys.is_empty());
}

#[test]
fn migrates_head_repo_to_origin_repo() {
    let cfg = load_from_entries(entries(&[("jellycat.head_repo", "me/fork")])).unwrap();
    assert_eq!(cfg.origin_repo.as_deref(), Some("me/fork"));
    assert_eq!(
        cfg.deprecated_keys,
        vec![(keys::HEAD_REPO, keys::ORIGIN_REPO)]
    );
}

#[test]
fn pr_store_type_parsing() {
    let cfg = load_from_entries(entries(&[("jellycat.pr_store", "bookmark")])).unwrap();
    assert_eq!(cfg.pr_store_type, PrStoreType::Bookmark);

    let cfg = load_from_entries(entries(&[("jellycat.pr_store", "config")])).unwrap();
    assert_eq!(cfg.pr_store_type, PrStoreType::Config);

    // Unknown value falls back to Config.
    let cfg = load_from_entries(entries(&[("jellycat.pr_store", "wat")])).unwrap();
    assert_eq!(cfg.pr_store_type, PrStoreType::Config);
}

#[test]
fn unknown_keys_are_ignored() {
    let cfg = load_from_entries(entries(&[
        ("jellycat.something_new", "value"),
        ("jellycat.upstream_repo", "a/b"),
    ]))
    .unwrap();
    assert_eq!(cfg.upstream_repo.as_deref(), Some("a/b"));
}
