use jellycat::jj::parse_github_owner_repo;

#[test]
fn test_parse_github_https() {
    assert_eq!(
        parse_github_owner_repo("https://github.com/owner/repo.git"),
        Some("owner/repo".to_string())
    );
    assert_eq!(
        parse_github_owner_repo("https://github.com/owner/repo"),
        Some("owner/repo".to_string())
    );
}

#[test]
fn test_parse_github_ssh() {
    assert_eq!(
        parse_github_owner_repo("git@github.com:owner/repo.git"),
        Some("owner/repo".to_string())
    );
    assert_eq!(
        parse_github_owner_repo("git@github.com:owner/repo"),
        Some("owner/repo".to_string())
    );
}

#[test]
fn test_parse_github_ssh_protocol() {
    assert_eq!(
        parse_github_owner_repo("ssh://git@github.com/owner/repo.git"),
        Some("owner/repo".to_string())
    );
    assert_eq!(
        parse_github_owner_repo("ssh://git@github.com/owner/repo"),
        Some("owner/repo".to_string())
    );
}

#[test]
fn test_parse_non_github() {
    assert_eq!(
        parse_github_owner_repo("https://gitlab.com/owner/repo.git"),
        None
    );
    assert_eq!(
        parse_github_owner_repo("git@bitbucket.org:owner/repo.git"),
        None
    );
}

#[test]
fn test_parse_trailing_slash() {
    assert_eq!(
        parse_github_owner_repo("https://github.com/owner/repo/"),
        Some("owner/repo".to_string())
    );
}
