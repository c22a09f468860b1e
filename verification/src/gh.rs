//! GitHub through the `gh` command line: the arguments of each call, the
//! GraphQL query for PR states, and the reading of `gh`'s JSON replies.
use vstd::prelude::*;
use crate::config::opt_string;
use crate::error::JcError;
use crate::jj::{lemma_strs_push, push_arg, strs};
use crate::text::{
    append, append_str, chars_of, dec, eq_str, render_u64, split_once, split_once_chars,
    string_of, trim, trim_str,
};

verus! {

/// An account that `gh` is logged in with.
#[derive(Debug)]
pub struct GhAuthAccount {
    pub login: String,
    pub host: String,
    pub active: bool,
}

/// What `jc status` and `jc tidy` learn of a PR.
#[derive(Debug)]
pub struct PrInfo {
    pub state: String,
    pub comment_count: u32,
    pub failed_checks: u32,
}

/// The login and token that `gh` authenticates with.
#[derive(Debug)]
pub struct GhAuth {
    pub login: String,
    pub token: String,
}

/// One status check of a PR's last commit.
#[derive(Debug)]
pub enum GqlCheckContext {
    CheckRun { conclusion: Option<String> },
    StatusContext { state: String },
}

/// The index of the first host of `hosts`, from `i` on, that is
/// `github.com`, or `-1`.
pub open spec fn github_host_index(hosts: Seq<(String, Vec<GhAuth>)>, i: int) -> int
    decreases hosts.len() - i,
{
    if i < 0 || i >= hosts.len() {
        -1
    } else if hosts[i].0@ == "github.com"@ {
        i
    } else {
        github_host_index(hosts, i + 1)
    }
}

/// The account the tool acts as, from the hosts `gh auth status` lists:
/// the first account of github.com, as login and token.
pub open spec fn github_account_spec(hosts: Seq<(String, Vec<GhAuth>)>) -> Option<(Seq<char>, Seq<char>)> {
    let k = github_host_index(hosts, 0);
    if k >= 0 && hosts[k].1@.len() > 0 {
        Some((hosts[k].1@[0].login@, hosts[k].1@[0].token@))
    } else {
        None
    }
}

/// The account the tool acts as: the first one `gh` lists for github.com;
/// an error when there is none.
pub fn github_account(hosts: &Vec<(String, Vec<GhAuth>)>) -> (r: Result<GhAuth, JcError>)
    ensures
        match github_account_spec(hosts@) {
            Some((login, token)) => r is Ok && r->Ok_0.login@ == login && r->Ok_0.token@ == token,
            None => r matches Err(JcError::NoGithubAuth),
        },
{
    let mut i: usize = 0;
    while i < hosts.len()
        invariant
            i <= hosts.len(),
            github_host_index(hosts@, 0) == github_host_index(hosts@, i as int),
        decreases hosts.len() - i,
    {
        let h = chars_of(hosts[i].0.as_str());
        if eq_str(h.as_slice(), "github.com") {
            if hosts[i].1.len() > 0 {
                let a = &hosts[i].1[0];
                return Ok(GhAuth { login: a.login.clone(), token: a.token.clone() });
            }
            return Err(JcError::NoGithubAuth);
        }
        i = i + 1;
    }
    Err(JcError::NoGithubAuth)
}

/// A check run's conclusion that counts as a failure.
pub open spec fn is_failed_conclusion(c: Seq<char>) -> bool {
    ||| c == "FAILURE"@
    ||| c == "CANCELLED"@
    ||| c == "TIMED_OUT"@
    ||| c == "ACTION_REQUIRED"@
    ||| c == "STARTUP_FAILURE"@
}

/// A check that failed: a check run that failed, was cancelled, timed out,
/// needs action or failed to start, or a commit status of failure or error.
pub open spec fn is_failed_spec(c: GqlCheckContext) -> bool {
    match c {
        GqlCheckContext::CheckRun { conclusion } => match conclusion {
            Some(s) => is_failed_conclusion(s@),
            None => false,
        },
        GqlCheckContext::StatusContext { state } => state@ == "FAILURE"@ || state@ == "ERROR"@,
    }
}

impl GqlCheckContext {
    /// The check failed.
    pub fn is_failed(&self) -> (r: bool)
        ensures
            r == is_failed_spec(*self),
    {
        match self {
            GqlCheckContext::CheckRun { conclusion } => match conclusion {
                Some(s) => {
                    let c = chars_of(s.as_str());
                    eq_str(c.as_slice(), "FAILURE") || eq_str(c.as_slice(), "CANCELLED") || eq_str(
                        c.as_slice(),
                        "TIMED_OUT",
                    ) || eq_str(c.as_slice(), "ACTION_REQUIRED") || eq_str(c.as_slice(), "STARTUP_FAILURE")
                },
                None => false,
            },
            GqlCheckContext::StatusContext { state } => {
                let c = chars_of(state.as_str());
                eq_str(c.as_slice(), "FAILURE") || eq_str(c.as_slice(), "ERROR")
            },
        }
    }
}

/// How many of the checks failed.
pub open spec fn count_failed(cs: Seq<GqlCheckContext>) -> nat
    decreases cs.len(),
{
    if cs.len() == 0 {
        0
    } else {
        count_failed(cs.drop_last()) + if is_failed_spec(cs.last()) {
            1nat
        } else {
            0nat
        }
    }
}

/// What `pr_states` reports of one PR: its state, its comments and reviews
/// counted together, and how many checks of its last commit failed (none
/// when the commit has no check rollup).
pub fn pr_info(state: String, comments: u32, reviews: u32, checks: Option<&Vec<GqlCheckContext>>) -> (r: PrInfo)
    requires
        comments + reviews <= u32::MAX,
    ensures
        r.state == state,
        r.comment_count == comments + reviews,
        r.failed_checks == match checks {
            Some(cs) => count_failed(cs@) as u32,
            None => 0u32,
        },
{
    let failed: u32 = match checks {
        Some(cs) => {
            let mut n: usize = 0;
            let mut i: usize = 0;
            while i < cs.len()
                invariant
                    i <= cs.len(),
                    n == count_failed(cs@.take(i as int)),
                    n <= i,
                decreases cs.len() - i,
            {
                assert(cs@.take(i + 1).drop_last() == cs@.take(i as int));
                if cs[i].is_failed() {
                    n = n + 1;
                }
                i = i + 1;
            }
            assert(cs@.take(cs.len() as int) == cs@);
            n as u32
        },
        None => 0,
    };
    PrInfo { state, comment_count: comments + reviews, failed_checks: failed }
}

/// A check counts as failed exactly when it is a check run that concluded
/// `FAILURE`, `CANCELLED`, `TIMED_OUT`, `ACTION_REQUIRED` or
/// `STARTUP_FAILURE`, or a commit status in state `FAILURE` or `ERROR`: each
/// such check adds one to the failed count of a PR, and any other check
/// (success, a neutral or pending one) adds nothing.
pub proof fn law_failed_checks_are_counted(cs: Seq<GqlCheckContext>, c: GqlCheckContext)
    ensures
        count_failed(cs.push(c)) == count_failed(cs) + if match c {
            GqlCheckContext::CheckRun { conclusion } => match conclusion {
                Some(x) => x@ == "FAILURE"@ || x@ == "CANCELLED"@ || x@ == "TIMED_OUT"@ || x@
                    == "ACTION_REQUIRED"@ || x@ == "STARTUP_FAILURE"@,
                None => false,
            },
            GqlCheckContext::StatusContext { state } => state@ == "FAILURE"@ || state@ == "ERROR"@,
        } {
            1int
        } else {
            0int
        },
{
    assert(cs.push(c).drop_last() == cs);
    assert(cs.push(c).last() == c);
}

/// The alias under which the PR-states query asks for PR `n`.
pub open spec fn pr_alias(n: u32) -> Seq<char> {
    "pr_"@ + dec(n as nat)
}

/// The alias under which the PR-states query asks for PR `n`.
pub fn pr_alias_exec(n: u32) -> (r: String)
    ensures
        r@ == pr_alias(n),
{
    let mut v = chars_of("pr_");
    let d = render_u64(n as u64);
    append(&mut v, d.as_slice());
    string_of(v.as_slice())
}

/// A pull request as the PR-states query answers for it: its state, its
/// comment and review counts, and for each commit listed (the query asks
/// for the last one) the check contexts of its rollup, when it has one.
#[derive(Debug)]
pub struct GqlPullRequest {
    pub state: String,
    pub comments: u32,
    pub reviews: u32,
    pub commits: Vec<Option<Vec<GqlCheckContext>>>,
}

/// The index of the first answer of `reply` under `alias`, from `i` on, or
/// `-1`.
pub open spec fn alias_index(reply: Seq<(String, GqlPullRequest)>, alias: Seq<char>, i: int) -> int
    decreases reply.len() - i,
{
    if i < 0 || i >= reply.len() {
        -1
    } else if reply[i].0@ == alias {
        i
    } else {
        alias_index(reply, alias, i + 1)
    }
}

/// The failed checks of a PR: those of the rollup of its first listed
/// commit, none when it lists no commit or the commit has no rollup.
pub open spec fn failed_of(p: GqlPullRequest) -> u32 {
    if p.commits@.len() > 0 {
        match p.commits@[0] {
            Some(cs) => count_failed(cs@) as u32,
            None => 0,
        }
    } else {
        0
    }
}

/// The reply answers for PR `n` with more comments and reviews than a `u32`
/// counts.
pub open spec fn overflows_at(reply: Seq<(String, GqlPullRequest)>, n: u32) -> bool {
    let k = alias_index(reply, pr_alias(n), 0);
    k >= 0 && reply[k].1.comments + reply[k].1.reviews > u32::MAX
}

/// What `pr_states` reports: for each PR asked for that the reply answers,
/// in the order asked, its number, state, comments and reviews together,
/// and failed checks.
pub open spec fn pr_states_spec(nums: Seq<u32>, reply: Seq<(String, GqlPullRequest)>) -> Seq<(u32, Seq<char>, int, int)>
    decreases nums.len(),
{
    if nums.len() == 0 {
        Seq::empty()
    } else {
        let k = alias_index(reply, pr_alias(nums.last()), 0);
        pr_states_spec(nums.drop_last(), reply) + if k >= 0 {
            seq![
                (
                    nums.last(),
                    reply[k].1.state@,
                    reply[k].1.comments + reply[k].1.reviews,
                    failed_of(reply[k].1) as int,
                ),
            ]
        } else {
            Seq::empty()
        }
    }
}

/// Reported states as plain values.
pub open spec fn info_views(v: Seq<(u32, PrInfo)>) -> Seq<(u32, Seq<char>, int, int)> {
    v.map_values(|e: (u32, PrInfo)| (e.0, e.1.state@, e.1.comment_count as int, e.1.failed_checks as int))
}

/// The index of the first answer under `alias`.
fn find_alias(reply: &Vec<(String, GqlPullRequest)>, alias: &[char]) -> (r: Option<usize>)
    ensures
        match r {
            Some(k) => alias_index(reply@, alias@, 0) == k && k < reply.len(),
            None => alias_index(reply@, alias@, 0) == -1,
        },
{
    let mut i: usize = 0;
    while i < reply.len()
        invariant
            i <= reply.len(),
            alias_index(reply@, alias@, 0) == alias_index(reply@, alias@, i as int),
        decreases reply.len() - i,
    {
        if crate::text::eq_str(alias, reply[i].0.as_str()) {
            return Some(i);
        }
        i = i + 1;
    }
    None
}

/// The states of the PRs `pr_nums` from the per-PR answers of the
/// PR-states query (keyed by alias, `pr_<n>`): one entry for each PR asked
/// for that the reply answers, in the order asked. `None` when an answered
/// PR has more comments and reviews together than a `u32` counts.
pub fn pr_states_from_reply(pr_nums: &Vec<u32>, reply: &Vec<(String, GqlPullRequest)>) -> (r: Option<Vec<(u32, PrInfo)>>)
    ensures
        r is None <==> exists|i: int| 0 <= i < pr_nums@.len() && overflows_at(reply@, #[trigger] pr_nums@[i]),
        r matches Some(v) ==> info_views(v@) == pr_states_spec(pr_nums@, reply@),
{
    let mut out: Vec<(u32, PrInfo)> = Vec::new();
    let mut i: usize = 0;
    while i < pr_nums.len()
        invariant
            i <= pr_nums.len(),
            info_views(out@) == pr_states_spec(pr_nums@.take(i as int), reply@),
            forall|j: int| 0 <= j < i ==> !overflows_at(reply@, #[trigger] pr_nums@[j]),
        decreases pr_nums.len() - i,
    {
        let n = pr_nums[i];
        let ghost ns = pr_nums@.take(i + 1);
        assert(ns.drop_last() =~= pr_nums@.take(i as int));
        assert(ns.last() == n);
        let alias = pr_alias_exec(n);
        let a = crate::text::chars_of(alias.as_str());
        let ghost before = out@;
        match find_alias(reply, a.as_slice()) {
            None => {},
            Some(k) => {
                let p = &reply[k].1;
                if p.comments as u64 + p.reviews as u64 > 4294967295u64 {
                    assert(overflows_at(reply@, pr_nums@[i as int]));
                    return None;
                }
                let checks: Option<&Vec<GqlCheckContext>> = if p.commits.len() > 0 {
                    match &p.commits[0] {
                        Some(cs) => Some(cs),
                        None => None,
                    }
                } else {
                    None
                };
                let info = pr_info(p.state.clone(), p.comments, p.reviews, checks);
                assert(info.failed_checks == failed_of(reply@[k as int].1));
                out.push((n, info));
                assert(info_views(out@) =~= info_views(before).push(
                    (n, info.state@, info.comment_count as int, info.failed_checks as int),
                ));
            },
        }
        assert(info_views(out@) =~= pr_states_spec(ns, reply@));
        i = i + 1;
    }
    assert(pr_nums@.take(pr_nums.len() as int) =~= pr_nums@);
    Some(out)
}

/// The part of the per-PR query fragment after the PR number.
pub const PR_FRAGMENT_TAIL: &'static str = ") {\n    state\n    comments { totalCount }\n    reviews(first: 0) { totalCount }\n    commits(last: 1) {\n      nodes {\n        commit {\n          statusCheckRollup {\n            contexts(first: 100) {\n              nodes {\n                __typename\n                ... on CheckRun { conclusion }\n                ... on StatusContext { state }\n              }\n            }\n          }\n        }\n      }\n    }\n  }";

/// The query fragment that asks for PR `n` under its alias.
pub open spec fn pr_fragment(n: u32) -> Seq<char> {
    "\n  "@ + pr_alias(n) + ": pullRequest(number: "@ + dec(n as nat) + PR_FRAGMENT_TAIL@
}

/// The fragments of all the PRs, in order.
pub open spec fn pr_fragments(nums: Seq<u32>) -> Seq<char>
    decreases nums.len(),
{
    if nums.len() == 0 {
        Seq::empty()
    } else {
        pr_fragments(nums.drop_last()) + pr_fragment(nums.last())
    }
}

/// The GraphQL query that fetches the states of the PRs `nums` of
/// `owner/name` in one call.
pub open spec fn pr_states_query_spec(owner: Seq<char>, name: Seq<char>, nums: Seq<u32>) -> Seq<char> {
    "query {\n  repository(owner: \""@ + owner + "\", name: \""@ + name + "\") {"@ + pr_fragments(nums)
        + "\n  }\n}"@
}

/// The `gh` invocations of the tool, as argument lists; `token` is the
/// `GH_TOKEN` that each call runs with, when one was obtained.
pub struct Gh {
    pub token: Option<String>,
}

impl Gh {
    /// A client that uses `gh`'s own authentication.
    pub fn new() -> (g: Gh)
        ensures
            g.token is None,
    {
        Gh { token: None }
    }

    /// A client that runs `gh` with `token`.
    pub fn with_token(token: String) -> (g: Gh)
        ensures
            g.token == Some(token),
    {
        Gh { token: Some(token) }
    }

    /// `gh auth token --user <user>`: the token of one of the logged-in
    /// users.
    pub fn get_token(user: &str) -> (args: Vec<String>)
        ensures
            strs(args@) == seq!["auth"@, "token"@, "--user"@, user@],
    {
        let mut a: Vec<String> = Vec::new();
        push_arg(&mut a, "auth");
        push_arg(&mut a, "token");
        push_arg(&mut a, "--user");
        push_arg(&mut a, user);
        assert(strs(a@) =~= seq!["auth"@, "token"@, "--user"@, user@]);
        a
    }

    /// `gh auth status --json hosts --show-token`.
    pub fn auth_status(&self) -> (args: Vec<String>)
        ensures
            strs(args@) == seq!["auth"@, "status"@, "--json"@, "hosts"@, "--show-token"@],
    {
        let mut a: Vec<String> = Vec::new();
        push_arg(&mut a, "auth");
        push_arg(&mut a, "status");
        push_arg(&mut a, "--json");
        push_arg(&mut a, "hosts");
        push_arg(&mut a, "--show-token");
        assert(strs(a@) =~= seq!["auth"@, "status"@, "--json"@, "hosts"@, "--show-token"@]);
        a
    }

    /// `gh auth status --json hosts`.
    pub fn list_accounts(&self) -> (args: Vec<String>)
        ensures
            strs(args@) == seq!["auth"@, "status"@, "--json"@, "hosts"@],
    {
        let mut a: Vec<String> = Vec::new();
        push_arg(&mut a, "auth");
        push_arg(&mut a, "status");
        push_arg(&mut a, "--json");
        push_arg(&mut a, "hosts");
        assert(strs(a@) =~= seq!["auth"@, "status"@, "--json"@, "hosts"@]);
        a
    }

    /// `gh pr list`: the open PRs of the authenticated user on `upstream`,
    /// as number and head branch.
    pub fn list_my_open_prs(&self, upstream: &str) -> (args: Vec<String>)
        ensures
            strs(args@) == seq![
                "pr"@,
                "list"@,
                "--repo"@,
                upstream@,
                "--author"@,
                "@me"@,
                "--state"@,
                "open"@,
                "--json"@,
                "number,headRefName"@,
            ],
    {
        let mut a: Vec<String> = Vec::new();
        push_arg(&mut a, "pr");
        push_arg(&mut a, "list");
        push_arg(&mut a, "--repo");
        push_arg(&mut a, upstream);
        push_arg(&mut a, "--author");
        push_arg(&mut a, "@me");
        push_arg(&mut a, "--state");
        push_arg(&mut a, "open");
        push_arg(&mut a, "--json");
        push_arg(&mut a, "number,headRefName");
        assert(strs(a@) =~= seq![
            "pr"@,
            "list"@,
            "--repo"@,
            upstream@,
            "--author"@,
            "@me"@,
            "--state"@,
            "open"@,
            "--json"@,
            "number,headRefName"@,
        ]);
        a
    }

    fn pr_view(upstream: &str, pr_num: u32, field: &str) -> (args: Vec<String>)
        ensures
            strs(args@) == seq!["pr"@, "view"@, dec(pr_num as nat), "--repo"@, upstream@, "--json"@, field@],
    {
        let mut a: Vec<String> = Vec::new();
        push_arg(&mut a, "pr");
        push_arg(&mut a, "view");
        let n = crate::text::u32_to_string(pr_num);
        push_arg(&mut a, n.as_str());
        push_arg(&mut a, "--repo");
        push_arg(&mut a, upstream);
        push_arg(&mut a, "--json");
        push_arg(&mut a, field);
        assert(strs(a@) =~= seq!["pr"@, "view"@, dec(pr_num as nat), "--repo"@, upstream@, "--json"@, field@]);
        a
    }

    /// `gh pr view <n> --repo <upstream> --json headRefName`.
    pub fn pr_view_head_ref(&self, upstream: &str, pr_num: u32) -> (args: Vec<String>)
        ensures
            strs(args@) == seq!["pr"@, "view"@, dec(pr_num as nat), "--repo"@, upstream@, "--json"@, "headRefName"@],
    {
        Self::pr_view(upstream, pr_num, "headRefName")
    }

    /// `gh pr view <n> --repo <upstream> --json body`.
    pub fn pr_view_body(&self, upstream: &str, pr_num: u32) -> (args: Vec<String>)
        ensures
            strs(args@) == seq!["pr"@, "view"@, dec(pr_num as nat), "--repo"@, upstream@, "--json"@, "body"@],
    {
        Self::pr_view(upstream, pr_num, "body")
    }

    /// `gh pr view <n> --repo <upstream> --json title,body`.
    pub fn pr_view_title_and_body(&self, upstream: &str, pr_num: u32) -> (args: Vec<String>)
        ensures
            strs(args@) == seq!["pr"@, "view"@, dec(pr_num as nat), "--repo"@, upstream@, "--json"@, "title,body"@],
    {
        Self::pr_view(upstream, pr_num, "title,body")
    }

    /// `gh pr view <n> --repo <upstream> --json isDraft`.
    pub fn pr_view_is_draft(&self, upstream: &str, pr_num: u32) -> (args: Vec<String>)
        ensures
            strs(args@) == seq!["pr"@, "view"@, dec(pr_num as nat), "--repo"@, upstream@, "--json"@, "isDraft"@],
    {
        Self::pr_view(upstream, pr_num, "isDraft")
    }

    /// `gh pr ready <n> --repo <upstream>`, with `--undo` to turn the PR
    /// back into a draft.
    pub fn pr_ready(&self, upstream: &str, pr_num: u32, undo: bool) -> (args: Vec<String>)
        ensures
            strs(args@) == seq!["pr"@, "ready"@, dec(pr_num as nat), "--repo"@, upstream@] + if undo {
                seq!["--undo"@]
            } else {
                Seq::<Seq<char>>::empty()
            },
    {
        let mut a: Vec<String> = Vec::new();
        push_arg(&mut a, "pr");
        push_arg(&mut a, "ready");
        let n = crate::text::u32_to_string(pr_num);
        push_arg(&mut a, n.as_str());
        push_arg(&mut a, "--repo");
        push_arg(&mut a, upstream);
        let ghost head = strs(a@);
        if undo {
            push_arg(&mut a, "--undo");
        }
        assert(strs(a@) =~= seq!["pr"@, "ready"@, dec(pr_num as nat), "--repo"@, upstream@] + if undo {
            seq!["--undo"@]
        } else {
            Seq::<Seq<char>>::empty()
        });
        a
    }

    /// `gh pr edit <n> --repo <upstream> --body <body>`.
    pub fn pr_edit_body(&self, upstream: &str, pr_num: u32, body: &str) -> (args: Vec<String>)
        ensures
            strs(args@) == seq!["pr"@, "edit"@, dec(pr_num as nat), "--repo"@, upstream@, "--body"@, body@],
    {
        let mut a: Vec<String> = Vec::new();
        push_arg(&mut a, "pr");
        push_arg(&mut a, "edit");
        let n = crate::text::u32_to_string(pr_num);
        push_arg(&mut a, n.as_str());
        push_arg(&mut a, "--repo");
        push_arg(&mut a, upstream);
        push_arg(&mut a, "--body");
        push_arg(&mut a, body);
        assert(strs(a@) =~= seq!["pr"@, "edit"@, dec(pr_num as nat), "--repo"@, upstream@, "--body"@, body@]);
        a
    }

    /// `gh api /repos/<upstream> --jq .default_branch`.
    pub fn default_branch(&self, upstream: &str) -> (args: Vec<String>)
        ensures
            strs(args@) == seq!["api"@, "/repos/"@ + upstream@, "--jq"@, ".default_branch"@],
    {
        let mut a: Vec<String> = Vec::new();
        push_arg(&mut a, "api");
        let mut p = chars_of("/repos/");
        append_str(&mut p, upstream);
        let ps = string_of(p.as_slice());
        push_arg(&mut a, ps.as_str());
        push_arg(&mut a, "--jq");
        push_arg(&mut a, ".default_branch");
        assert(strs(a@) =~= seq!["api"@, "/repos/"@ + upstream@, "--jq"@, ".default_branch"@]);
        a
    }

    /// `gh api graphql -f query=<query>` for the states of the PRs `pr_nums`
    /// of `upstream` (`owner/repo`); nothing to run for no PR, and an error
    /// for an upstream without `/`.
    pub fn pr_states(&self, upstream: &str, pr_nums: &Vec<u32>) -> (r: Result<Option<Vec<String>>, JcError>)
        ensures
            pr_nums@.len() == 0 ==> r matches Ok(None),
            pr_nums@.len() > 0 ==> match split_once(upstream@, '/') {
                None => r is Err && (r->Err_0 matches JcError::InvalidUpstreamFormat { upstream: u } && u@
                    == upstream@),
                Some((owner, name)) => r matches Ok(Some(args)) && strs(args@) == seq![
                    "api"@,
                    "graphql"@,
                    "-f"@,
                    "query="@ + pr_states_query_spec(owner, name, pr_nums@),
                ],
            },
    {
        if pr_nums.len() == 0 {
            return Ok(None);
        }
        let up = chars_of(upstream);
        let (owner, name) = match split_once_chars(up.as_slice(), '/') {
            None => {
                return Err(JcError::InvalidUpstreamFormat { upstream: upstream.to_owned() });
            },
            Some(p) => p,
        };
        let mut q = chars_of("query=");
        append_str(&mut q, "query {\n  repository(owner: \"");
        append(&mut q, owner.as_slice());
        append_str(&mut q, "\", name: \"");
        append(&mut q, name.as_slice());
        append_str(&mut q, "\") {");
        let ghost head = q@;
        let mut i: usize = 0;
        while i < pr_nums.len()
            invariant
                i <= pr_nums.len(),
                q@ == head + pr_fragments(pr_nums@.take(i as int)),
            decreases pr_nums.len() - i,
        {
            let n = pr_nums[i];
            append_str(&mut q, "\n  ");
            let alias = pr_alias_exec(n);
            append_str(&mut q, alias.as_str());
            append_str(&mut q, ": pullRequest(number: ");
            let d = render_u64(n as u64);
            append(&mut q, d.as_slice());
            append_str(&mut q, PR_FRAGMENT_TAIL);
            assert(pr_nums@.take(i + 1).drop_last() == pr_nums@.take(i as int));
            assert(q@ =~= head + pr_fragments(pr_nums@.take(i + 1)));
            i = i + 1;
        }
        assert(pr_nums@.take(pr_nums.len() as int) == pr_nums@);
        append_str(&mut q, "\n  }\n}");
        let mut a: Vec<String> = Vec::new();
        push_arg(&mut a, "api");
        push_arg(&mut a, "graphql");
        push_arg(&mut a, "-f");
        let qs = string_of(q.as_slice());
        push_arg(&mut a, qs.as_str());
        assert(qs@ =~= "query="@ + pr_states_query_spec(owner@, name@, pr_nums@));
        assert(strs(a@) =~= seq!["api"@, "graphql"@, "-f"@, "query="@ + pr_states_query_spec(owner@, name@, pr_nums@)]);
        Ok(Some(a))
    }

    /// `gh api --method POST /repos/<upstream>/pulls` with the title, body,
    /// head and base of a new PR, the fork repository when there is one, and
    /// `draft=true` for a draft.
    pub fn create_pr(
        &self,
        upstream: &str,
        title: &str,
        body: &str,
        head: &str,
        base: &str,
        head_repo: Option<&str>,
        draft: bool,
    ) -> (args: Vec<String>)
        ensures
            strs(args@) == seq![
                "api"@,
                "--method"@,
                "POST"@,
                "/repos/"@ + upstream@ + "/pulls"@,
                "-f"@,
                "title="@ + title@,
                "-f"@,
                "body="@ + body@,
                "-f"@,
                "head="@ + head@,
                "-f"@,
                "base="@ + base@,
            ] + (match head_repo {
                Some(r) => seq!["-f"@, "head_repo="@ + r@],
                None => Seq::empty(),
            }) + (if draft {
                seq!["-F"@, "draft=true"@]
            } else {
                Seq::empty()
            }),
    {
        let mut a: Vec<String> = Vec::new();
        push_arg(&mut a, "api");
        push_arg(&mut a, "--method");
        push_arg(&mut a, "POST");
        push_joined(&mut a, "/repos/", upstream, "/pulls");
        push_arg(&mut a, "-f");
        push_joined(&mut a, "title=", title, "");
        push_arg(&mut a, "-f");
        push_joined(&mut a, "body=", body, "");
        push_arg(&mut a, "-f");
        push_joined(&mut a, "head=", head, "");
        push_arg(&mut a, "-f");
        push_joined(&mut a, "base=", base, "");
        let ghost fixed = strs(a@);
        if let Some(r) = head_repo {
            push_arg(&mut a, "-f");
            push_joined(&mut a, "head_repo=", r, "");
        }
        let ghost with_repo = strs(a@);
        if draft {
            push_arg(&mut a, "-F");
            push_arg(&mut a, "draft=true");
        }
        proof {
            reveal_strlit("");
            assert(fixed =~= seq![
                "api"@,
                "--method"@,
                "POST"@,
                "/repos/"@ + upstream@ + "/pulls"@,
                "-f"@,
                "title="@ + title@,
                "-f"@,
                "body="@ + body@,
                "-f"@,
                "head="@ + head@,
                "-f"@,
                "base="@ + base@,
            ]);
            assert(with_repo =~= fixed + match head_repo {
                Some(r) => seq!["-f"@, "head_repo="@ + r@],
                None => Seq::<Seq<char>>::empty(),
            });
        }
        assert(strs(a@) =~= with_repo + (if draft {
            seq!["-F"@, "draft=true"@]
        } else {
            Seq::<Seq<char>>::empty()
        }));
        a
    }
}

/// Appends the argument `a + b + c`.
fn push_joined(v: &mut Vec<String>, a: &str, b: &str, c: &str)
    ensures
        strs(final(v)@) == strs(old(v)@).push(a@ + b@ + c@),
{
    let mut s = chars_of(a);
    append_str(&mut s, b);
    append_str(&mut s, c);
    let st = string_of(s.as_slice());
    proof { lemma_strs_push(v@, st); }
    v.push(st);
}

// ---------------------------------------------------------------------------
// Reading `gh`'s JSON replies
// ---------------------------------------------------------------------------

/// What `serde_json` reads from `json` at the string field `key` of the top
/// value: `None` when `json` is not JSON, `Some(None)` when the field is
/// absent or not a string (also when the top value is not an object).
pub uninterp spec fn json_str_field(json: Seq<u8>, key: Seq<char>) -> Option<Option<Seq<char>>>;

/// What `serde_json` reads from `json` at the unsigned-integer field `key`:
/// `None` when `json` is not JSON, `Some(None)` when the field is absent or
/// not a non-negative integer that fits a `u64`.
pub uninterp spec fn json_u64_field(json: Seq<u8>, key: Seq<char>) -> Option<Option<u64>>;

/// What `serde_json` reads from `json` as an array: `None` when `json` is
/// not JSON, `Some(None)` when the top value is not an array, else its
/// items, each written back as JSON.
pub uninterp spec fn json_array(json: Seq<u8>) -> Option<Option<Seq<Seq<u8>>>>;

/// What `serde_json` reads from `json` at the array field `key`: `None` when
/// `json` is not JSON, `Some(None)` when the field is absent or not an
/// array, else its items, each written back as JSON.
pub uninterp spec fn json_array_field(json: Seq<u8>, key: Seq<char>) -> Option<Option<Seq<Seq<u8>>>>;

/// What `serde_json` reads from `json` as a string: `None` when `json` is
/// not JSON, `Some(None)` when the top value is not a string.
pub uninterp spec fn json_str(json: Seq<u8>) -> Option<Option<Seq<char>>>;

/// What `serde_json` reads from `json` at the boolean field `key`: `None`
/// when `json` is not JSON, `Some(None)` when the field is absent or not a
/// boolean.
pub uninterp spec fn json_bool_field(json: Seq<u8>, key: Seq<char>) -> Option<Option<bool>>;

/// Reads the boolean field `key` with `serde_json` (`Value` index, then
/// `as_bool`).
#[verifier::external_body]
fn read_json_bool_field(json: &[u8], key: &str) -> (r: Result<Option<bool>, String>)
    ensures
        match json_bool_field(json@, key@) {
            None => r is Err,
            Some(o) => r is Ok && r->Ok_0 == o,
        },
{
    match serde_json::from_slice::<serde_json::Value>(json) {
        Ok(v) => Ok(v[key].as_bool()),
        Err(e) => Err(e.to_string()),
    }
}

/// Reads the string field `key` with `serde_json`: parses `json` as a
/// `serde_json::Value`, indexes it with `key` and takes `as_str`. The error
/// is `serde_json`'s message for bytes that are not JSON.
#[verifier::external_body]
fn read_json_str_field(json: &[u8], key: &str) -> (r: Result<Option<String>, String>)
    ensures
        match json_str_field(json@, key@) {
            None => r is Err,
            Some(o) => r is Ok && opt_string(r->Ok_0) == o,
        },
{
    match serde_json::from_slice::<serde_json::Value>(json) {
        Ok(v) => Ok(v[key].as_str().map(|s| s.to_owned())),
        Err(e) => Err(e.to_string()),
    }
}

/// Reads the unsigned field `key` with `serde_json` (`Value` index, then
/// `as_u64`).
#[verifier::external_body]
fn read_json_u64_field(json: &[u8], key: &str) -> (r: Result<Option<u64>, String>)
    ensures
        match json_u64_field(json@, key@) {
            None => r is Err,
            Some(o) => r is Ok && r->Ok_0 == o,
        },
{
    match serde_json::from_slice::<serde_json::Value>(json) {
        Ok(v) => Ok(v[key].as_u64()),
        Err(e) => Err(e.to_string()),
    }
}

/// Reads `json` as an array with `serde_json` (`as_array`), writing each
/// item back as JSON bytes with `serde_json::to_vec`.
#[verifier::external_body]
fn read_json_array(json: &[u8]) -> (r: Result<Option<Vec<Vec<u8>>>, String>)
    ensures
        match json_array(json@) {
            None => r is Err,
            Some(None) => r matches Ok(None),
            Some(Some(items)) => r matches Ok(Some(v)) && byte_views(v@) == items,
        },
{
    match serde_json::from_slice::<serde_json::Value>(json) {
        Ok(v) => Ok(v.as_array().map(|a| a.iter().map(|x| serde_json::to_vec(x).unwrap_or_default()).collect())),
        Err(e) => Err(e.to_string()),
    }
}

/// Reads the array field `key` with `serde_json` (`Value` index, then
/// `as_array`), writing each item back as JSON bytes.
#[verifier::external_body]
fn read_json_array_field(json: &[u8], key: &str) -> (r: Result<Option<Vec<Vec<u8>>>, String>)
    ensures
        match json_array_field(json@, key@) {
            None => r is Err,
            Some(None) => r matches Ok(None),
            Some(Some(items)) => r matches Ok(Some(v)) && byte_views(v@) == items,
        },
{
    match serde_json::from_slice::<serde_json::Value>(json) {
        Ok(v) => Ok(v[key].as_array().map(|a| a.iter().map(|x| serde_json::to_vec(x).unwrap_or_default()).collect())),
        Err(e) => Err(e.to_string()),
    }
}

/// Reads `json` as a string with `serde_json` (`as_str`).
#[verifier::external_body]
fn read_json_str(json: &[u8]) -> (r: Result<Option<String>, String>)
    ensures
        match json_str(json@) {
            None => r is Err,
            Some(o) => r is Ok && opt_string(r->Ok_0) == o,
        },
{
    match serde_json::from_slice::<serde_json::Value>(json) {
        Ok(v) => Ok(v.as_str().map(|s| s.to_owned())),
        Err(e) => Err(e.to_string()),
    }
}

/// The byte sequences of a vector of byte vectors.
pub open spec fn byte_views(v: Seq<Vec<u8>>) -> Seq<Seq<u8>> {
    v.map_values(|b: Vec<u8>| b@)
}

/// `(number, head)` pairs as plain values.
pub open spec fn pr_pairs(v: Seq<(u32, String)>) -> Seq<(u32, Seq<char>)> {
    v.map_values(|p: (u32, String)| (p.0, p.1@))
}

/// A reply that is not JSON.
pub open spec fn is_json_error(e: JcError) -> bool {
    e matches JcError::BadResponse { message: _ }
}

/// An error that carries exactly `msg`.
pub open spec fn is_bad_response(e: JcError, msg: Seq<char>) -> bool {
    e matches JcError::BadResponse { message: m } && m@ == msg
}

/// The head branch of a PR, from the reply of `gh pr view --json
/// headRefName`.
pub fn head_ref_from_reply(stdout: &[u8]) -> (r: Result<String, JcError>)
    ensures
        match json_str_field(stdout@, "headRefName"@) {
            None => r is Err && is_json_error(r->Err_0),
            Some(None) => r is Err && is_bad_response(r->Err_0, "No headRefName in response"@),
            Some(Some(h)) => r is Ok && r->Ok_0@ == h,
        },
{
    match read_json_str_field(stdout, "headRefName") {
        Err(m) => Err(JcError::BadResponse { message: m }),
        Ok(None) => Err(JcError::BadResponse { message: "No headRefName in response".to_owned() }),
        Ok(Some(h)) => Ok(h),
    }
}

/// The body of a PR, from the reply of `gh pr view --json body`; empty when
/// the reply has none.
pub fn body_from_reply(stdout: &[u8]) -> (r: Result<String, JcError>)
    ensures
        match json_str_field(stdout@, "body"@) {
            None => r is Err && is_json_error(r->Err_0),
            Some(None) => r is Ok && r->Ok_0@ == Seq::<char>::empty(),
            Some(Some(b)) => r is Ok && r->Ok_0@ == b,
        },
{
    match read_json_str_field(stdout, "body") {
        Err(m) => Err(JcError::BadResponse { message: m }),
        Ok(None) => Ok(String::new()),
        Ok(Some(b)) => Ok(b),
    }
}

/// The title and body of a PR, from the reply of `gh pr view --json
/// title,body`; a missing title is an error, a missing body is empty.
pub fn title_and_body_from_reply(stdout: &[u8]) -> (r: Result<(String, String), JcError>)
    ensures
        match (json_str_field(stdout@, "title"@), json_str_field(stdout@, "body"@)) {
            (None, _) => r is Err && is_json_error(r->Err_0),
            (Some(None), _) => r is Err && is_bad_response(r->Err_0, "No title in response"@),
            (Some(Some(t)), None) => r is Err && is_json_error(r->Err_0),
            (Some(Some(t)), Some(b)) => r is Ok && r->Ok_0.0@ == t && r->Ok_0.1@ == match b {
                Some(x) => x,
                None => Seq::<char>::empty(),
            },
        },
{
    let title = match read_json_str_field(stdout, "title") {
        Err(m) => return Err(JcError::BadResponse { message: m }),
        Ok(None) => return Err(JcError::BadResponse { message: "No title in response".to_owned() }),
        Ok(Some(t)) => t,
    };
    match read_json_str_field(stdout, "body") {
        Err(m) => Err(JcError::BadResponse { message: m }),
        Ok(None) => Ok((title, String::new())),
        Ok(Some(b)) => Ok((title, b)),
    }
}

/// Whether a PR is a draft, from the reply of `gh pr view --json isDraft`.
pub fn is_draft_from_reply(stdout: &[u8]) -> (r: Result<bool, JcError>)
    ensures
        match json_bool_field(stdout@, "isDraft"@) {
            None => r is Err && is_json_error(r->Err_0),
            Some(None) => r is Err && is_bad_response(r->Err_0, "No isDraft in response"@),
            Some(Some(b)) => r == Ok::<bool, JcError>(b),
        },
{
    match read_json_bool_field(stdout, "isDraft") {
        Err(m) => Err(JcError::BadResponse { message: m }),
        Ok(None) => Err(JcError::BadResponse { message: "No isDraft in response".to_owned() }),
        Ok(Some(b)) => Ok(b),
    }
}

/// The number and URL of a new PR, from the reply of the create call; the
/// number is taken modulo 2^32, as a `u32` cast does.
pub fn created_pr_from_reply(stdout: &[u8]) -> (r: Result<(u32, String), JcError>)
    ensures
        match (json_u64_field(stdout@, "number"@), json_str_field(stdout@, "html_url"@)) {
            (None, _) => r is Err && is_json_error(r->Err_0),
            (Some(None), _) => r is Err && is_bad_response(r->Err_0, "No PR number in response"@),
            (Some(Some(n)), None) => r is Err && is_json_error(r->Err_0),
            (Some(Some(n)), Some(None)) => r is Err && is_bad_response(r->Err_0, "No html_url in response"@),
            (Some(Some(n)), Some(Some(url))) => r is Ok && r->Ok_0.0 == n as u32 && r->Ok_0.1@ == url,
        },
{
    let n = match read_json_u64_field(stdout, "number") {
        Err(m) => return Err(JcError::BadResponse { message: m }),
        Ok(None) => return Err(JcError::BadResponse { message: "No PR number in response".to_owned() }),
        Ok(Some(n)) => n,
    };
    match read_json_str_field(stdout, "html_url") {
        Err(m) => Err(JcError::BadResponse { message: m }),
        Ok(None) => Err(JcError::BadResponse { message: "No html_url in response".to_owned() }),
        Ok(Some(url)) => Ok((n as u32, url)),
    }
}

/// The open PRs of `items` from `i` on, as `(number, head)`, or the first
/// problem in order: an item without a number, or without a head branch.
pub open spec fn open_prs_from(items: Seq<Seq<u8>>, i: int) -> Result<Seq<(u32, Seq<char>)>, Seq<char>>
    decreases items.len() - i,
{
    if i < 0 || i >= items.len() {
        Ok(Seq::empty())
    } else {
        match json_u64_field(items[i], "number"@) {
            Some(Some(n)) => match json_str_field(items[i], "headRefName"@) {
                Some(Some(h)) => match open_prs_from(items, i + 1) {
                    Ok(rest) => Ok(seq![(n as u32, h)] + rest),
                    Err(e) => Err(e),
                },
                _ => Err("Missing headRefName in gh pr list response"@),
            },
            _ => Err("Missing number in gh pr list response"@),
        }
    }
}

/// The fields of the items of `gh pr list` as read: each item's number and
/// head branch, when present.
pub open spec fn pr_fields(items: Seq<(Option<u64>, Option<String>)>) -> Seq<(Option<u64>, Option<Seq<char>>)> {
    items.map_values(|x: (Option<u64>, Option<String>)| (x.0, opt_string(x.1)))
}

/// The open PRs of the read items from `i` on, as `(number, head)`, or the
/// first problem in order: an item without a number, or without a head
/// branch.
pub open spec fn open_prs_of(fields: Seq<(Option<u64>, Option<Seq<char>>)>, i: int) -> Result<Seq<(u32, Seq<char>)>, Seq<char>>
    decreases fields.len() - i,
{
    if i < 0 || i >= fields.len() {
        Ok(Seq::empty())
    } else {
        match fields[i].0 {
            Some(n) => match fields[i].1 {
                Some(h) => match open_prs_of(fields, i + 1) {
                    Ok(rest) => Ok(seq![(n as u32, h)] + rest),
                    Err(e) => Err(e),
                },
                None => Err("Missing headRefName in gh pr list response"@),
            },
            None => Err("Missing number in gh pr list response"@),
        }
    }
}

/// The open PRs from the read items of `gh pr list`, numbers taken modulo
/// 2^32; the error of the first item that lacks its number or head branch.
pub fn open_prs_from_items(items: &Vec<(Option<u64>, Option<String>)>) -> (r: Result<Vec<(u32, String)>, JcError>)
    ensures
        match open_prs_of(pr_fields(items@), 0) {
            Ok(ps) => r is Ok && pr_pairs(r->Ok_0@) == ps,
            Err(msg) => r is Err && is_bad_response(r->Err_0, msg),
        },
{
    let ghost fs = pr_fields(items@);
    let mut out: Vec<(u32, String)> = Vec::new();
    let mut i: usize = 0;
    while i < items.len()
        invariant
            i <= items.len(),
            fs == pr_fields(items@),
            open_prs_of(fs, 0) matches Ok(all) ==> open_prs_of(fs, i as int) matches Ok(rest)
                && all == pr_pairs(out@) + rest,
            open_prs_of(fs, 0) matches Err(e) ==> open_prs_of(fs, i as int) == open_prs_of(fs, 0),
        decreases items.len() - i,
    {
        assert(fs[i as int] == (items@[i as int].0, opt_string(items@[i as int].1)));
        let n = match items[i].0 {
            Some(n) => n,
            None => {
                let m = "Missing number in gh pr list response".to_owned();
                let e = JcError::BadResponse { message: m };
                assert(is_bad_response(e, "Missing number in gh pr list response"@));
                return Err(e);
            },
        };
        let h = match &items[i].1 {
            Some(h) => h.clone(),
            None => {
                let m = "Missing headRefName in gh pr list response".to_owned();
                let e = JcError::BadResponse { message: m };
                assert(is_bad_response(e, "Missing headRefName in gh pr list response"@));
                return Err(e);
            },
        };
        let ghost before = out@;
        out.push((n as u32, h));
        assert(pr_pairs(out@) =~= pr_pairs(before).push((n as u32, h@)));
        i = i + 1;
    }
    Ok(out)
}

/// What is read of one item of `gh pr list`: `(number, head)`, each when
/// it is there.
pub open spec fn item_fields(item: Seq<u8>) -> (Option<u64>, Option<Seq<char>>) {
    (
        match json_u64_field(item, "number"@) {
            Some(Some(n)) => Some(n),
            _ => None,
        },
        match json_str_field(item, "headRefName"@) {
            Some(Some(h)) => Some(h),
            _ => None,
        },
    )
}

proof fn lemma_open_prs_fields(its: Seq<Seq<u8>>, fs: Seq<(Option<u64>, Option<Seq<char>>)>, i: int)
    requires
        0 <= i,
        fs.len() == its.len(),
        forall|j: int| 0 <= j < its.len() ==> fs[j] == #[trigger] item_fields(its[j]),
    ensures
        open_prs_from(its, i) == open_prs_of(fs, i),
    decreases its.len() - i,
{
    if i < its.len() {
        lemma_open_prs_fields(its, fs, i + 1);
        assert(fs[i] == item_fields(its[i]));
    }
}

/// The number and head of each PR, from the reply of `gh pr list --json
/// number,headRefName`; numbers are taken modulo 2^32.
pub fn open_prs_from_reply(stdout: &[u8]) -> (r: Result<Vec<(u32, String)>, JcError>)
    ensures
        match json_array(stdout@) {
            None => r is Err && is_json_error(r->Err_0),
            Some(None) => r is Err && is_bad_response(r->Err_0, "Expected array from gh pr list"@),
            Some(Some(items)) => match open_prs_from(items, 0) {
                Ok(ps) => r is Ok && pr_pairs(r->Ok_0@) == ps,
                Err(msg) => r is Err && is_bad_response(r->Err_0, msg),
            },
        },
{
    let items = match read_json_array(stdout) {
        Err(m) => return Err(JcError::BadResponse { message: m }),
        Ok(None) => return Err(JcError::BadResponse { message: "Expected array from gh pr list".to_owned() }),
        Ok(Some(items)) => items,
    };
    let ghost its = byte_views(items@);
    let mut fields: Vec<(Option<u64>, Option<String>)> = Vec::new();
    let mut i: usize = 0;
    while i < items.len()
        invariant
            i <= items.len(),
            its == byte_views(items@),
            fields.len() == i,
            forall|j: int| 0 <= j < i ==> pr_fields(fields@)[j] == #[trigger] item_fields(its[j]),
        decreases items.len() - i,
    {
        assert(its[i as int] == items@[i as int]@);
        let n = match read_json_u64_field(items[i].as_slice(), "number") {
            Ok(Some(n)) => Some(n),
            _ => None,
        };
        let h = match read_json_str_field(items[i].as_slice(), "headRefName") {
            Ok(Some(h)) => Some(h),
            _ => None,
        };
        fields.push((n, h));
        assert(pr_fields(fields@)[i as int] == item_fields(its[i as int]));
        i = i + 1;
    }
    proof { lemma_open_prs_fields(its, pr_fields(fields@), 0); }
    open_prs_from_items(&fields)
}

/// The parts of a GitHub API error message: the `message` field, then each
/// item of `errors` given as an object's `message` or as a string.
pub open spec fn error_item_parts(items: Seq<Seq<u8>>) -> Seq<Seq<char>>
    decreases items.len(),
{
    if items.len() == 0 {
        Seq::empty()
    } else {
        error_item_parts(items.drop_last()) + match json_str_field(items.last(), "message"@) {
            Some(Some(m)) => seq![m],
            _ => match json_str(items.last()) {
                Some(Some(s)) => seq![s],
                _ => Seq::empty(),
            },
        }
    }
}

/// `parts` joined by `sep`.
pub open spec fn join(parts: Seq<Seq<char>>, sep: Seq<char>) -> Seq<char>
    decreases parts.len(),
{
    if parts.len() == 0 {
        Seq::empty()
    } else if parts.len() == 1 {
        parts[0]
    } else {
        join(parts.drop_last(), sep) + sep + parts.last()
    }
}

/// The message of a failed GitHub API call: the reply's `message` and
/// `errors`, joined by `": "`, else the trimmed standard error.
pub open spec fn api_error_spec(stdout: Seq<u8>, stderr: Seq<char>) -> Seq<char> {
    let parts = (match json_str_field(stdout, "message"@) {
        Some(Some(m)) => seq![m],
        _ => Seq::empty(),
    }) + (match json_array_field(stdout, "errors"@) {
        Some(Some(items)) => error_item_parts(items),
        _ => Seq::empty(),
    });
    if json_str_field(stdout, "message"@) is Some && parts.len() > 0 {
        join(parts, ": "@)
    } else {
        trim(stderr)
    }
}

/// The error for a failed GitHub API call: `context` says which call, and
/// the message is the one `api_error` reads from its output.
pub fn api_failure(context: &str, stdout: &[u8], stderr: &str) -> (e: JcError)
    ensures
        e matches JcError::Api { context: c, message: m } && c@ == context@ && m@ == api_error_spec(
            stdout@,
            stderr@,
        ),
{
    let message = api_error(stdout, stderr);
    JcError::Api { context: context.to_owned(), message }
}

/// What is read of the items of `errors`: each one's `message` field and
/// the item as a string, when there.
pub open spec fn error_items(v: Seq<(Option<String>, Option<String>)>) -> Seq<(Option<Seq<char>>, Option<Seq<char>>)> {
    v.map_values(|x: (Option<String>, Option<String>)| (opt_string(x.0), opt_string(x.1)))
}

/// The parts that the items of `errors` give: each item's `message`, else
/// the item itself when it is a string.
pub open spec fn item_parts_of(items: Seq<(Option<Seq<char>>, Option<Seq<char>>)>) -> Seq<Seq<char>>
    decreases items.len(),
{
    if items.len() == 0 {
        Seq::empty()
    } else {
        item_parts_of(items.drop_last()) + match items.last().0 {
            Some(m) => seq![m],
            None => match items.last().1 {
                Some(x) => seq![x],
                None => Seq::empty(),
            },
        }
    }
}

/// The parts of a GitHub API error message: the reply's `message`, then
/// those of the items of `errors`.
pub open spec fn error_parts_of(message: Option<Seq<char>>, items: Seq<(Option<Seq<char>>, Option<Seq<char>>)>) -> Seq<Seq<char>> {
    (match message {
        Some(m) => seq![m],
        None => Seq::empty(),
    }) + item_parts_of(items)
}

/// Collects the parts of a GitHub API error message from what was read of
/// the reply.
pub fn error_parts(message: Option<String>, items: &Vec<(Option<String>, Option<String>)>) -> (r: Vec<String>)
    ensures
        strs(r@) == error_parts_of(opt_string(message), error_items(items@)),
{
    let mut out: Vec<String> = Vec::new();
    let ghost m0 = opt_string(message);
    if let Some(m) = message {
        out.push(m);
    }
    let ghost head = strs(out@);
    assert(head =~= match m0 {
        Some(m) => seq![m],
        None => Seq::<Seq<char>>::empty(),
    });
    let ghost its = error_items(items@);
    let mut i: usize = 0;
    while i < items.len()
        invariant
            i <= items.len(),
            its == error_items(items@),
            strs(out@) == head + item_parts_of(its.take(i as int)),
        decreases items.len() - i,
    {
        assert(its.take(i + 1).drop_last() == its.take(i as int));
        assert(its.take(i + 1).last() == (opt_string(items@[i as int].0), opt_string(items@[i as int].1)));
        let ghost before = out@;
        match &items[i].0 {
            Some(m) => {
                let c = m.clone();
                proof { lemma_strs_push(before, c); }
                out.push(c);
            },
            None => match &items[i].1 {
                Some(x) => {
                    let c = x.clone();
                    proof { lemma_strs_push(before, c); }
                    out.push(c);
                },
                None => {},
            },
        }
        assert(strs(out@) =~= head + item_parts_of(its.take(i + 1)));
        i = i + 1;
    }
    assert(its.take(items.len() as int) == its);
    out
}

/// The message of a failed GitHub API call from its parts: the parts joined
/// by `": "`, else, with no part, the trimmed standard error.
pub fn api_error_text(parts: &Vec<String>, stderr: &str) -> (r: String)
    ensures
        r@ == if parts@.len() > 0 {
            join(strs(parts@), ": "@)
        } else {
            trim(stderr@)
        },
{
    if parts.len() == 0 {
        let t = trim_str(stderr);
        return string_of(t.as_slice());
    }
    let mut out: Vec<char> = Vec::new();
    let mut k: usize = 0;
    while k < parts.len()
        invariant
            0 < parts.len(),
            k <= parts.len(),
            k > 0 ==> out@ == join(strs(parts@).take(k as int), ": "@),
            k == 0 ==> out@ == Seq::<char>::empty(),
        decreases parts.len() - k,
    {
        let ghost vs = strs(parts@);
        assert(vs.take(k + 1).drop_last() == vs.take(k as int));
        assert(vs.take(k + 1).last() == parts@[k as int]@);
        if k > 0 {
            append_str(&mut out, ": ");
        }
        append_str(&mut out, parts[k].as_str());
        proof {
            if k == 0 {
                assert(out@ =~= vs.take(1)[0]);
            }
        }
        k = k + 1;
    }
    assert(strs(parts@).take(parts.len() as int) == strs(parts@));
    string_of(out.as_slice())
}

/// What is read of one item of `errors`: its `message` field and the item
/// as a string, when there.
pub open spec fn error_item_fields(item: Seq<u8>) -> (Option<Seq<char>>, Option<Seq<char>>) {
    (
        match json_str_field(item, "message"@) {
            Some(Some(m)) => Some(m),
            _ => None,
        },
        match json_str(item) {
            Some(Some(x)) => Some(x),
            _ => None,
        },
    )
}

proof fn lemma_error_item_parts(its: Seq<Seq<u8>>, fs: Seq<(Option<Seq<char>>, Option<Seq<char>>)>)
    requires
        fs.len() == its.len(),
        forall|j: int| 0 <= j < its.len() ==> fs[j] == #[trigger] error_item_fields(its[j]),
    ensures
        item_parts_of(fs) == error_item_parts(its),
    decreases its.len(),
{
    if its.len() > 0 {
        let n = its.len() - 1;
        assert forall|j: int| 0 <= j < n implies fs.drop_last()[j] == #[trigger] error_item_fields(
            its.drop_last()[j],
        ) by {
            assert(fs[j] == error_item_fields(its[j]));
        }
        lemma_error_item_parts(its.drop_last(), fs.drop_last());
        assert(fs[n] == error_item_fields(its[n]));
    }
}

/// Extracts a human-readable error message from a failed `gh api` call:
/// GitHub answers `{"message": "...", "errors": [...]}`; when that cannot be
/// read, the standard error is used.
pub fn api_error(stdout: &[u8], stderr: &str) -> (r: String)
    ensures
        r@ == api_error_spec(stdout@, stderr@),
{
    let msg = match read_json_str_field(stdout, "message") {
        Err(_) => {
            let t = trim_str(stderr);
            return string_of(t.as_slice());
        },
        Ok(m) => m,
    };
    let mut fields: Vec<(Option<String>, Option<String>)> = Vec::new();
    let ghost mut its: Seq<Seq<u8>> = Seq::empty();
    match read_json_array_field(stdout, "errors") {
        Ok(Some(items)) => {
            proof { its = byte_views(items@); }
            let mut i: usize = 0;
            while i < items.len()
                invariant
                    i <= items.len(),
                    its == byte_views(items@),
                    fields.len() == i,
                    forall|j: int| 0 <= j < i ==> error_items(fields@)[j] == #[trigger] error_item_fields(its[j]),
                decreases items.len() - i,
            {
                assert(its[i as int] == items@[i as int]@);
                let m = match read_json_str_field(items[i].as_slice(), "message") {
                    Ok(Some(m)) => Some(m),
                    _ => None,
                };
                let x = match read_json_str(items[i].as_slice()) {
                    Ok(Some(x)) => Some(x),
                    _ => None,
                };
                fields.push((m, x));
                assert(error_items(fields@)[i as int] == error_item_fields(its[i as int]));
                i = i + 1;
            }
        },
        _ => {},
    }
    proof { lemma_error_item_parts(its, error_items(fields@)); }
    let parts = error_parts(msg, &fields);
    api_error_text(&parts, stderr)
}

} // verus!
