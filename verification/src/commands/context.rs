//! What every GitHub-facing command needs from the configuration.
use vstd::prelude::*;
use crate::config::Config;
use crate::error::JcError;

verus! {

/// The configured upstream repository, or the error that points at
/// `jc init`.
pub fn require_upstream(config: &Config) -> (r: Result<&str, JcError>)
    ensures
        match config.upstream_repo {
            Some(u) => r is Ok && r->Ok_0@ == u@,
            None => r matches Err(JcError::UpstreamRepoNotConfigured),
        },
{
    match &config.upstream_repo {
        Some(u) => Ok(u.as_str()),
        None => Err(JcError::UpstreamRepoNotConfigured),
    }
}

/// The configured push remote, or the error that points at `jc init`.
pub fn require_origin(config: &Config) -> (r: Result<&str, JcError>)
    ensures
        match config.origin {
            Some(o) => r is Ok && r->Ok_0@ == o@,
            None => r matches Err(JcError::OriginNotConfigured),
        },
{
    match &config.origin {
        Some(o) => Ok(o.as_str()),
        None => Err(JcError::OriginNotConfigured),
    }
}

/// How the GitHub client authenticates: with the token of the configured
/// user, or with `gh`'s own login.
#[derive(Debug)]
pub enum AuthMode {
    UserToken(String),
    GhStatus,
}

/// How the GitHub client authenticates for `config`.
pub fn auth_mode(config: &Config) -> (r: AuthMode)
    ensures
        match config.github_user {
            Some(u) => r matches AuthMode::UserToken(v) && v@ == u@,
            None => r matches AuthMode::GhStatus,
        },
{
    match &config.github_user {
        Some(u) => AuthMode::UserToken(u.clone()),
        None => AuthMode::GhStatus,
    }
}

} // verus!
