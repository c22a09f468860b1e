//! `jc get`: fetches a PR's branch from GitHub into the repository.
use vstd::prelude::*;
use crate::error::JcError;
use crate::text::{
    append, append_str, chars_of, dec, lines, lines_str, render_u64, split_once, split_once_chars,
    starts_with, starts_with_chars, string_of, trim, trim_chars, views,
};

verus! {

/// The arguments of `jc get`.
#[derive(Debug)]
pub struct GetArgs {
    /// PR number to fetch
    pub pr_number: u32,
    /// Check out the fetched branch (jj new)
    pub checkout: bool,
    /// Rebase the fetched branch onto the current commit
    pub rebase: bool,
}

/// The refspec that fetches PR `n` into the local branch `head_ref`.
pub open spec fn refspec_spec(n: u32, head_ref: Seq<char>) -> Seq<char> {
    "refs/pull/"@ + dec(n as nat) + "/head:refs/heads/"@ + head_ref
}

/// The refspec that fetches PR `pr_number` into the local branch
/// `head_ref`.
pub fn refspec(pr_number: u32, head_ref: &str) -> (r: String)
    ensures
        r@ == refspec_spec(pr_number, head_ref@),
{
    let mut v = chars_of("refs/pull/");
    let d = render_u64(pr_number as u64);
    append(&mut v, d.as_slice());
    append_str(&mut v, "/head:refs/heads/");
    append_str(&mut v, head_ref);
    string_of(v.as_slice())
}

/// The remote to fetch from: the configured `jellycat.upstream`, else the
/// remote whose URL mentions the upstream repository in `jj git remote
/// list` output.
pub fn fetch_remote(configured: Option<&str>, remote_list: &str, upstream_repo: &str) -> (r: Result<String, JcError>)
    ensures
        configured matches Some(c) ==> r is Ok && r->Ok_0@ == c@,
        configured is None ==> match crate::jj::remote_for_repo(lines(remote_list@), upstream_repo@, 0) {
            Some(name) => r is Ok && r->Ok_0@ == name,
            None => r is Err && (r->Err_0 matches JcError::UpstreamRemoteNotFound { upstream_repo: u } && u@
                == upstream_repo@),
        },
{
    match configured {
        Some(c) => Ok(c.to_owned()),
        None => crate::jj::find_upstream_remote(remote_list, upstream_repo),
    }
}

/// The URL of remote `name` in the lines of `jj git remote list` from `i`
/// on: the trimmed rest of the first line that starts with `name` and a
/// space.
pub open spec fn remote_url_spec(ls: Seq<Seq<char>>, name: Seq<char>, i: int) -> Option<Seq<char>>
    decreases ls.len() - i,
{
    if i < 0 || i >= ls.len() {
        None
    } else if starts_with(ls[i], name + " "@) {
        match split_once(ls[i], ' ') {
            Some((_, url)) => Some(trim(url)),
            None => None,
        }
    } else {
        remote_url_spec(ls, name, i + 1)
    }
}

/// Finds the URL of remote `remote_name` in `jj git remote list` output.
pub fn remote_url(remote_list: &str, remote_name: &str) -> (r: Result<String, JcError>)
    ensures
        match remote_url_spec(lines(remote_list@), remote_name@, 0) {
            Some(u) => r is Ok && r->Ok_0@ == u,
            None => r is Err && (r->Err_0 matches JcError::RemoteUrlNotFound { remote } && remote@ == remote_name@),
        },
{
    let ls = lines_str(remote_list);
    let mut prefix = chars_of(remote_name);
    append_str(&mut prefix, " ");
    let mut i: usize = 0;
    while i < ls.len()
        invariant
            i <= ls.len(),
            views(ls@) == lines(remote_list@),
            prefix@ == remote_name@ + " "@,
            remote_url_spec(views(ls@), remote_name@, 0) == remote_url_spec(views(ls@), remote_name@, i as int),
        decreases ls.len() - i,
    {
        assert(views(ls@)[i as int] == ls@[i as int]@);
        if starts_with_chars(ls[i].as_slice(), prefix.as_slice()) {
            match split_once_chars(ls[i].as_slice(), ' ') {
                Some((_, url)) => {
                    let t = trim_chars(url.as_slice());
                    return Ok(string_of(t.as_slice()));
                },
                None => {
                    return Err(JcError::RemoteUrlNotFound { remote: remote_name.to_owned() });
                },
            }
        }
        i = i + 1;
    }
    Err(JcError::RemoteUrlNotFound { remote: remote_name.to_owned() })
}

} // verus!
