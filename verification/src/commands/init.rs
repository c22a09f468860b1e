//! `jc init`: chooses the upstream and origin remotes and their GitHub
//! repositories.
use vstd::prelude::*;
use crate::config::Config;
use crate::error::JcError;
use crate::jj::{github_owner_repo, is_owner_repo, is_owner_repo_exec, parse_github_owner_repo};
use crate::text::{chars_of, eq_str, is_ws, is_ws_exec, lines, lines_str, string_of, sub_vec, views};

verus! {

/// The arguments of `jc init`.
#[derive(Debug)]
pub struct InitArgs {
    /// Reconfigure upstream even if it's already configured
    pub force: bool,
}

/// A git remote, with the GitHub repository its URL names, if it names one.
#[derive(Debug)]
pub struct RemoteInfo {
    pub name: String,
    pub url: String,
    pub repo: Option<String>,
}

/// Initialisation has nothing to do: upstream and origin are configured and
/// `--force` was not given.
pub fn already_configured(config: &Config, args: &InitArgs) -> (r: bool)
    ensures
        r == (config.upstream_repo is Some && config.origin is Some && !args.force),
{
    config.upstream_repo.is_some() && config.origin.is_some() && !args.force
}

/// The index of the remote named `preferred_name`, else 0.
pub open spec fn default_index(names: Seq<Seq<char>>, preferred: Seq<char>, i: int) -> int
    decreases names.len() - i,
{
    if i < 0 || i >= names.len() {
        0
    } else if names[i] == preferred {
        i
    } else {
        default_index(names, preferred, i + 1)
    }
}

/// The names of remotes.
pub open spec fn remote_names(remotes: Seq<RemoteInfo>) -> Seq<Seq<char>> {
    remotes.map_values(|r: RemoteInfo| r.name@)
}

/// Find the index of a remote whose name matches a preferred name (e.g.
/// "upstream", "origin"), or 0.
pub fn find_default_index(remotes: &Vec<RemoteInfo>, preferred_name: &str) -> (r: usize)
    ensures
        r == default_index(remote_names(remotes@), preferred_name@, 0),
{
    let p = chars_of(preferred_name);
    let mut i: usize = 0;
    while i < remotes.len()
        invariant
            i <= remotes.len(),
            p@ == preferred_name@,
            default_index(remote_names(remotes@), p@, 0) == default_index(remote_names(remotes@), p@, i as int),
        decreases remotes.len() - i,
    {
        assert(remote_names(remotes@)[i as int] == remotes@[i as int].name@);
        if eq_str(p.as_slice(), remotes[i].name.as_str()) {
            return i;
        }
        i = i + 1;
    }
    0
}

/// Checks the `owner/repo` that the user typed: exactly one `/`, with text
/// on both sides.
pub fn validate_owner_repo(input: &str) -> (r: Result<(), String>)
    ensures
        r is Ok == is_owner_repo(input@),
        r matches Err(m) ==> m@ == "Expected 'owner/repo' format"@,
{
    let c = chars_of(input);
    if is_owner_repo_exec(c.as_slice()) {
        Ok(())
    } else {
        Err("Expected 'owner/repo' format".to_owned())
    }
}

/// The first index `k >= i` that holds whitespace, or `s.len()`.
pub open spec fn ws_from(s: Seq<char>, i: int) -> int
    decreases s.len() - i,
{
    if i < 0 || i >= s.len() {
        s.len() as int
    } else if is_ws(s[i]) {
        i
    } else {
        ws_from(s, i + 1)
    }
}

/// The first two whitespace-separated words of a line, if it has two.
pub open spec fn two_words(s: Seq<char>) -> Option<(Seq<char>, Seq<char>)> {
    let a0 = crate::text::non_ws_from(s, 0);
    let a1 = ws_from(s, a0);
    let b0 = crate::text::non_ws_from(s, a1);
    let b1 = ws_from(s, b0);
    if a0 >= s.len() || b0 >= s.len() {
        None
    } else {
        Some((s.subrange(a0, a1), s.subrange(b0, b1)))
    }
}

/// The remotes that `jj git remote list` prints, one `name url` per line;
/// lines without two words are skipped.
pub open spec fn remotes_spec(ls: Seq<Seq<char>>) -> Seq<(Seq<char>, Seq<char>, Option<Seq<char>>)>
    decreases ls.len(),
{
    if ls.len() == 0 {
        Seq::empty()
    } else {
        remotes_spec(ls.drop_last()) + match two_words(ls.last()) {
            Some((n, u)) => seq![(n, u, github_owner_repo(u))],
            None => Seq::empty(),
        }
    }
}

/// Remotes as plain values.
pub open spec fn remote_views(v: Seq<RemoteInfo>) -> Seq<(Seq<char>, Seq<char>, Option<Seq<char>>)> {
    v.map_values(|r: RemoteInfo| (r.name@, r.url@, crate::config::opt_string(r.repo)))
}

proof fn lemma_non_ws_from_range(s: Seq<char>, i: int)
    requires
        0 <= i <= s.len(),
    ensures
        i <= crate::text::non_ws_from(s, i) <= s.len(),
    decreases s.len() - i,
{
    if i < s.len() && is_ws(s[i]) {
        lemma_non_ws_from_range(s, i + 1);
    }
}

proof fn lemma_ws_from_range(s: Seq<char>, i: int)
    requires
        0 <= i <= s.len(),
    ensures
        i <= ws_from(s, i) <= s.len(),
    decreases s.len() - i,
{
    if i < s.len() && !is_ws(s[i]) {
        lemma_ws_from_range(s, i + 1);
    }
}

fn skip_ws(s: &[char], i: usize) -> (r: usize)
    requires
        i <= s.len(),
    ensures
        r == crate::text::non_ws_from(s@, i as int),
        i <= r <= s.len(),
{
    let mut k = i;
    while k < s.len() && is_ws_exec(s[k])
        invariant
            i <= k <= s.len(),
            crate::text::non_ws_from(s@, i as int) == crate::text::non_ws_from(s@, k as int),
        decreases s.len() - k,
    {
        k = k + 1;
    }
    k
}

fn skip_word(s: &[char], i: usize) -> (r: usize)
    requires
        i <= s.len(),
    ensures
        r == ws_from(s@, i as int),
        i <= r <= s.len(),
{
    let mut k = i;
    while k < s.len() && !is_ws_exec(s[k])
        invariant
            i <= k <= s.len(),
            ws_from(s@, i as int) == ws_from(s@, k as int),
        decreases s.len() - k,
    {
        k = k + 1;
    }
    k
}

/// Reads `jj git remote list` output into remotes, with the GitHub
/// repository each URL names.
pub fn parse_remotes(remotes_str: &str) -> (out: Vec<RemoteInfo>)
    ensures
        remote_views(out@) == remotes_spec(lines(remotes_str@)),
{
    let ls = lines_str(remotes_str);
    let mut out: Vec<RemoteInfo> = Vec::new();
    let mut i: usize = 0;
    while i < ls.len()
        invariant
            i <= ls.len(),
            views(ls@) == lines(remotes_str@),
            remote_views(out@) == remotes_spec(views(ls@).take(i as int)),
        decreases ls.len() - i,
    {
        let line = ls[i].as_slice();
        assert(views(ls@).take(i + 1).drop_last() == views(ls@).take(i as int));
        assert(views(ls@).take(i + 1).last() == line@);
        let a0 = skip_ws(line, 0);
        let a1 = skip_word(line, a0);
        let b0 = skip_ws(line, a1);
        let b1 = skip_word(line, b0);
        let ghost before = out@;
        if a0 < line.len() && b0 < line.len() {
            let name = string_of(sub_vec(line, a0, a1).as_slice());
            let url = string_of(sub_vec(line, b0, b1).as_slice());
            let repo = parse_github_owner_repo(url.as_str());
            let r = RemoteInfo { name, url, repo };
            out.push(r);
            assert(remote_views(out@) =~= remote_views(before).push((r.name@, r.url@, crate::config::opt_string(r.repo))));
        }
        assert(remote_views(out@) =~= remotes_spec(views(ls@).take(i + 1)));
        i = i + 1;
    }
    assert(views(ls@).take(ls.len() as int) == views(ls@));
    out
}

/// The remotes to choose from, or the error for a repository without any.
pub fn require_remotes(remotes: Vec<RemoteInfo>) -> (r: Result<Vec<RemoteInfo>, JcError>)
    ensures
        remotes@.len() == 0 ==> r matches Err(JcError::NoGitRemotes),
        remotes@.len() > 0 ==> (r matches Ok(v) && v@ == remotes@),
{
    if remotes.len() == 0 {
        Err(JcError::NoGitRemotes)
    } else {
        Ok(remotes)
    }
}

/// The repository that `parse_github_owner_repo` reads from a remote URL is
/// accepted by `validate_owner_repo`: the default that `init` offers always
/// passes its own check.
pub proof fn law_parsed_repo_validates(url: Seq<char>)
    requires
        github_owner_repo(url) is Some,
    ensures
        is_owner_repo(github_owner_repo(url)->0),
{
}

} // verus!
