//! `jc submit`: pushes commits and creates or updates their pull requests,
//! each with navigation through the stack it belongs to.
use rand::Rng;
use vstd::prelude::*;
use crate::config::opt_string;
use crate::error::JcError;
use crate::pr_store::{pr_of, PrMap};
use crate::text::{
    append, append_str, chars_of, dec, find, first_line, first_line_of, render_u64, split_once_seq,
    split_once_str, string_of, sub_vec, trim, trim_chars, trim_str,
};

verus! {

/// The arguments of `jc submit`.
#[derive(Debug)]
pub struct SubmitArgs {
    /// The revset to submit
    pub revset: Option<String>,
    /// Submit the whole stack
    pub stack: bool,
    /// Create new PRs as drafts (does not affect existing PRs)
    pub draft: bool,
}

/// A commit of the stack around a submitted commit, with its PR if it has
/// one.
#[derive(Debug)]
pub struct StackCommit {
    pub commit_id: String,
    pub change_id: String,
    pub parents: Vec<String>,
    pub pr_number: Option<u32>,
}

/// What a PR body shows of its stack.
#[derive(Debug)]
pub struct StackGraph {
    /// Numbered list section: empty when there is only one PR in the stack.
    pub stack_md: String,
    pub nav_prev: Option<String>,
    pub nav_next: Option<String>,
    pub review_suffix: String,
}

/// The first index `k >= i` whose commit has change id `cid`, or `-1`.
pub open spec fn position(stack: Seq<StackCommit>, cid: Seq<char>, i: int) -> int
    decreases stack.len() - i,
{
    if i < 0 || i >= stack.len() {
        -1
    } else if stack[i].change_id@ == cid {
        i
    } else {
        position(stack, cid, i + 1)
    }
}

/// Where the run of commits that share PR `p` and end at `idx` starts.
pub open spec fn run_start(stack: Seq<StackCommit>, idx: int, p: u32) -> int
    decreases idx,
{
    if 0 < idx && idx < stack.len() && stack[idx - 1].pr_number == Some(p) {
        run_start(stack, idx - 1, p)
    } else {
        idx
    }
}

/// The path, under the PR's URL, of the diff to read for the PR: the
/// commit itself (`changes/<sha>`) when its PR holds one commit, else the
/// range from the parent of the PR's first commit (`changes/<base>..<sha>`);
/// empty when that commit has no parent.
pub open spec fn review_suffix_spec(stack: Seq<StackCommit>, idx: int) -> Seq<char> {
    let first = match stack[idx].pr_number {
        Some(p) => run_start(stack, idx, p),
        None => idx,
    };
    if stack[first].parents@.len() > 0 {
        if first == idx {
            "changes/"@ + stack[idx].commit_id@
        } else {
            "changes/"@ + stack[first].parents@[0]@ + ".."@ + stack[idx].commit_id@
        }
    } else {
        Seq::empty()
    }
}

/// The commits of the stack that have a PR, in order.
pub open spec fn pr_commits(stack: Seq<StackCommit>) -> Seq<StackCommit>
    decreases stack.len(),
{
    if stack.len() == 0 {
        Seq::empty()
    } else {
        pr_commits(stack.drop_last()) + if stack.last().pr_number is Some {
            seq![stack.last()]
        } else {
            Seq::empty()
        }
    }
}

/// Item `i` (from zero) of the stack list: `N. #PR`, with the current PR in
/// bold and marked.
pub open spec fn stack_item(i: int, c: StackCommit, current: Seq<char>) -> Seq<char> {
    dec((i + 1) as nat) + if c.change_id@ == current {
        ". **#"@ + dec(c.pr_number->0 as nat) + "** ← *this PR*"@
    } else {
        ". #"@ + dec(c.pr_number->0 as nat)
    }
}

/// The items of the stack list, one per line.
pub open spec fn stack_items(prs: Seq<StackCommit>, current: Seq<char>) -> Seq<char>
    decreases prs.len(),
{
    if prs.len() == 0 {
        Seq::empty()
    } else if prs.len() == 1 {
        stack_item(0, prs[0], current)
    } else {
        stack_items(prs.drop_last(), current) + "\n"@ + stack_item(prs.len() - 1, prs.last(), current)
    }
}

/// The collapsible numbered list of the stack's PRs; shown only when the
/// stack has more than one PR.
pub open spec fn stack_md_spec(stack: Seq<StackCommit>, current: Seq<char>) -> Seq<char> {
    let prs = pr_commits(stack);
    if prs.len() > 1 {
        let p = position(prs, current, 0);
        let pos: nat = if p >= 0 { (p + 1) as nat } else { 0 };
        "<details>\n<summary><b>Stack ("@ + dec(pos) + " of "@ + dec(prs.len()) + ")</b></summary>\n\n"@
            + stack_items(prs, current) + "\n\n</details>\n"@
    } else {
        Seq::empty()
    }
}

/// The link to the previous PR of the stack.
pub open spec fn prev_link(p: u32, upstream: Seq<char>) -> Seq<char> {
    "[« PR #"@ + dec(p as nat) + "](https://github.com/"@ + upstream + "/pull/"@ + dec(p as nat) + ")"@
}

/// The link to the next PR of the stack.
pub open spec fn next_link(n: u32, upstream: Seq<char>) -> Seq<char> {
    "[PR #"@ + dec(n as nat) + " »](https://github.com/"@ + upstream + "/pull/"@ + dec(n as nat) + ")"@
}

/// The PR of the commit before `idx`, if there is one.
pub open spec fn prev_pr(stack: Seq<StackCommit>, idx: int) -> Option<u32> {
    if idx > 0 {
        stack[idx - 1].pr_number
    } else {
        None
    }
}

/// The PR of the commit after `idx`, if there is one.
pub open spec fn next_pr(stack: Seq<StackCommit>, idx: int) -> Option<u32> {
    if idx < stack.len() - 1 {
        stack[idx + 1].pr_number
    } else {
        None
    }
}

/// The graph of the stack as the PR of `current` shows it.
pub open spec fn graph_matches(g: StackGraph, stack: Seq<StackCommit>, current: Seq<char>, upstream: Seq<char>) -> bool {
    let idx = position(stack, current, 0);
    if idx < 0 {
        &&& g.stack_md@ == Seq::<char>::empty()
        &&& g.nav_prev is None
        &&& g.nav_next is None
        &&& g.review_suffix@ == Seq::<char>::empty()
    } else {
        &&& g.stack_md@ == stack_md_spec(stack, current)
        &&& opt_string(g.nav_prev) == match prev_pr(stack, idx) {
            Some(p) => Some(prev_link(p, upstream)),
            None => None,
        }
        &&& opt_string(g.nav_next) == match next_pr(stack, idx) {
            Some(n) => Some(next_link(n, upstream)),
            None => None,
        }
        &&& g.review_suffix@ == review_suffix_spec(stack, idx)
    }
}

proof fn lemma_position_bounds(stack: Seq<StackCommit>, cid: Seq<char>, i: int)
    requires
        0 <= i,
    ensures
        position(stack, cid, i) == -1 || (i <= position(stack, cid, i) < stack.len()
            && stack[position(stack, cid, i)].change_id@ == cid),
    decreases stack.len() - i,
{
    if i < stack.len() && stack[i].change_id@ != cid {
        lemma_position_bounds(stack, cid, i + 1);
    }
}

proof fn lemma_position_push(s: Seq<StackCommit>, x: StackCommit, cid: Seq<char>, i: int)
    requires
        0 <= i <= s.len(),
    ensures
        position(s.push(x), cid, i) == if position(s, cid, i) >= 0 {
            position(s, cid, i)
        } else if x.change_id@ == cid {
            s.len() as int
        } else {
            -1
        },
    decreases s.len() - i,
{
    if i < s.len() {
        assert(s.push(x)[i] == s[i]);
        if s[i].change_id@ != cid {
            lemma_position_push(s, x, cid, i + 1);
        }
    } else {
        assert(s.push(x)[i] == x);
        assert(position(s.push(x), cid, i + 1) == -1);
        assert(position(s, cid, i) == -1);
    }
}

/// The position of the commit with change id `cur` in `stack`.
fn find_position(stack: &Vec<StackCommit>, cur: &[char]) -> (r: Option<usize>)
    ensures
        match r {
            Some(k) => position(stack@, cur@, 0) == k && k < stack.len(),
            None => position(stack@, cur@, 0) == -1,
        },
{
    let mut i: usize = 0;
    while i < stack.len()
        invariant
            i <= stack.len(),
            position(stack@, cur@, 0) == position(stack@, cur@, i as int),
        decreases stack.len() - i,
    {
        let c = crate::text::chars_of(stack[i].change_id.as_str());
        if crate::text::eq_chars(c.as_slice(), cur) {
            return Some(i);
        }
        i = i + 1;
    }
    None
}

proof fn lemma_run_start_bounds(stack: Seq<StackCommit>, idx: int, p: u32)
    requires
        0 <= idx < stack.len(),
    ensures
        0 <= run_start(stack, idx, p) <= idx,
    decreases idx,
{
    if 0 < idx && stack[idx - 1].pr_number == Some(p) {
        lemma_run_start_bounds(stack, idx - 1, p);
    }
}

fn same_pr(a: Option<u32>, p: u32) -> (r: bool)
    ensures
        r == (a == Some(p)),
{
    match a {
        Some(x) => x == p,
        None => false,
    }
}

/// `#N` links and list for the PR of `current_change_id` in `stack`: the
/// previous and next PRs of the stack, the diff to review, and (when the
/// stack has more than one PR) the numbered list of its PRs.
pub fn generate_stack_graph(stack: &Vec<StackCommit>, current_change_id: &str, upstream_repo: &str) -> (g: StackGraph)
    ensures
        graph_matches(g, stack@, current_change_id@, upstream_repo@),
{
    let cur = crate::text::chars_of(current_change_id);
    let found = find_position(stack, cur.as_slice());
    let idx = match found {
        None => {
            return StackGraph {
                stack_md: String::new(),
                nav_prev: None,
                nav_next: None,
                review_suffix: String::new(),
            };
        },
        Some(k) => k,
    };

    // Adjacent PR numbers for prev/next navigation.
    let prev = if idx > 0 { stack[idx - 1].pr_number } else { None };
    let next = if idx < stack.len() - 1 { stack[idx + 1].pr_number } else { None };

    // Review-diff suffix.
    let mut first_idx: usize = idx;
    if let Some(p) = stack[idx].pr_number {
        while first_idx > 0 && same_pr(stack[first_idx - 1].pr_number, p)
            invariant
                first_idx <= idx < stack.len(),
                run_start(stack@, idx as int, p) == run_start(stack@, first_idx as int, p),
            decreases first_idx,
        {
            first_idx = first_idx - 1;
        }
    }
    let mut suffix: Vec<char> = Vec::new();
    if stack[first_idx].parents.len() > 0 {
        append_str(&mut suffix, "changes/");
        if first_idx == idx {
            append_str(&mut suffix, stack[idx].commit_id.as_str());
        } else {
            append_str(&mut suffix, stack[first_idx].parents[0].as_str());
            append_str(&mut suffix, "..");
            append_str(&mut suffix, stack[idx].commit_id.as_str());
        }
    }
    assert(suffix@ =~= review_suffix_spec(stack@, idx as int));

    // Numbered list of the PRs of the stack.
    let mut items: Vec<char> = Vec::new();
    let mut count: usize = 0;
    let mut pos: Option<usize> = None;
    let mut j: usize = 0;
    while j < stack.len()
        invariant
            j <= stack.len(),
            cur@ == current_change_id@,
            count == pr_commits(stack@.take(j as int)).len(),
            count <= j,
            items@ == stack_items(pr_commits(stack@.take(j as int)), cur@),
            pos matches Some(k) ==> k < count,
            match pos {
                Some(k) => position(pr_commits(stack@.take(j as int)), cur@, 0) == k,
                None => position(pr_commits(stack@.take(j as int)), cur@, 0) == -1,
            },
        decreases stack.len() - j,
    {
        let ghost prs = pr_commits(stack@.take(j as int));
        assert(stack@.take(j + 1).drop_last() == stack@.take(j as int));
        assert(stack@.take(j + 1).last() == stack@[j as int]);
        if let Some(n) = stack[j].pr_number {
            assert(pr_commits(stack@.take(j + 1)) == prs.push(stack@[j as int]));
            proof {
                lemma_position_push(prs, stack@[j as int], cur@, 0);
                assert(prs.push(stack@[j as int]).drop_last() == prs);
            }
            if count > 0 {
                append_str(&mut items, "\n");
            }
            let num = render_u64((count + 1) as u64);
            append(&mut items, num.as_slice());
            let c = crate::text::chars_of(stack[j].change_id.as_str());
            let is_cur = crate::text::eq_chars(c.as_slice(), cur.as_slice());
            if is_cur {
                append_str(&mut items, ". **#");
                let pn = render_u64(n as u64);
                append(&mut items, pn.as_slice());
                append_str(&mut items, "** ← *this PR*");
                if pos.is_none() {
                    pos = Some(count);
                }
            } else {
                append_str(&mut items, ". #");
                let pn = render_u64(n as u64);
                append(&mut items, pn.as_slice());
            }
            proof {
                let item = stack_item(count as int, stack@[j as int], cur@);
                if count == 0 {
                    assert(prs.push(stack@[j as int]).len() == 1);
                    assert(prs.push(stack@[j as int])[0] == stack@[j as int]);
                    assert(items@ =~= item);
                } else {
                    assert(items@ =~= stack_items(prs, cur@) + "\n"@ + item);
                }
            }
            count = count + 1;
        } else {
            assert(pr_commits(stack@.take(j + 1)) == prs);
        }
        j = j + 1;
    }
    assert(stack@.take(stack.len() as int) == stack@);

    let mut md: Vec<char> = Vec::new();
    if count > 1 {
        append_str(&mut md, "<details>\n<summary><b>Stack (");
        let shown: u64 = match pos {
            Some(k) => (k + 1) as u64,
            None => 0,
        };
        let sp = render_u64(shown);
        append(&mut md, sp.as_slice());
        append_str(&mut md, " of ");
        let sc = render_u64(count as u64);
        append(&mut md, sc.as_slice());
        append_str(&mut md, ")</b></summary>\n\n");
        append(&mut md, items.as_slice());
        append_str(&mut md, "\n\n</details>\n");
    }
    assert(md@ =~= stack_md_spec(stack@, cur@));

    let nav_prev = match prev {
        Some(p) => {
            let mut v: Vec<char> = Vec::new();
            append_str(&mut v, "[« PR #");
            let d = render_u64(p as u64);
            append(&mut v, d.as_slice());
            append_str(&mut v, "](https://github.com/");
            append_str(&mut v, upstream_repo);
            append_str(&mut v, "/pull/");
            append(&mut v, d.as_slice());
            append_str(&mut v, ")");
            assert(v@ =~= prev_link(p, upstream_repo@));
            Some(string_of(v.as_slice()))
        },
        None => None,
    };
    let nav_next = match next {
        Some(n) => {
            let mut v: Vec<char> = Vec::new();
            append_str(&mut v, "[PR #");
            let d = render_u64(n as u64);
            append(&mut v, d.as_slice());
            append_str(&mut v, " »](https://github.com/");
            append_str(&mut v, upstream_repo);
            append_str(&mut v, "/pull/");
            append(&mut v, d.as_slice());
            append_str(&mut v, ")");
            assert(v@ =~= next_link(n, upstream_repo@));
            Some(string_of(v.as_slice()))
        },
        None => None,
    };
    StackGraph {
        stack_md: string_of(md.as_slice()),
        nav_prev,
        nav_next,
        review_suffix: string_of(suffix.as_slice()),
    }
}

/// The marker that separates the tool's section of a PR body from the
/// author's.
pub const BODY_MARKER: &'static str = "<!-- jellycat -->";

/// The steps `jc submit` takes for one commit of the revset.
#[derive(Debug)]
pub struct CommitSteps {
    pub change_id: String,
    /// The commit's PR, when it has one.
    pub pr: Option<u32>,
    /// Read the PR's head branch from GitHub and use it as the bookmark.
    pub read_head_ref: bool,
    /// Make up a new bookmark name: the prefix and random letters.
    pub new_bookmark: bool,
    /// Track the new bookmark on the push remote.
    pub track: bool,
    /// Open a PR for the commit.
    pub create_pr: bool,
    /// Read the PR's current body, to keep the author's content.
    pub reread_body: bool,
    /// Store the mapping of the change to its new PR.
    pub store_mapping: bool,
}

/// What `jc submit` does for the commits of the revset.
#[derive(Debug)]
pub struct SubmitPlan {
    /// The revset names no commit: nothing is done at all.
    pub nothing: bool,
    /// The steps of each commit, in the order of the revset.
    pub steps: Vec<CommitSteps>,
    /// Some commit needs a new PR, so the upstream's default branch is read.
    pub needs_default_branch: bool,
}

/// The steps of a commit: one with a PR reuses the PR's head branch and
/// re-reads its body; one without gets a new, tracked bookmark, a new PR
/// and a stored mapping.
pub open spec fn steps_for(prs: Map<Seq<char>, u32>, change_id: Seq<char>, s: CommitSteps) -> bool {
    let pr = pr_of(prs, change_id);
    &&& s.change_id@ == change_id
    &&& s.pr == pr
    &&& s.read_head_ref == pr is Some
    &&& s.reread_body == pr is Some
    &&& s.new_bookmark == pr is None
    &&& s.track == pr is None
    &&& s.create_pr == pr is None
    &&& s.store_mapping == pr is None
}

/// Plans `jc submit` for the commits `change_ids`, given the known
/// mappings.
pub fn submit_plan(prs: &PrMap, change_ids: &Vec<String>) -> (p: SubmitPlan)
    ensures
        p.nothing == (change_ids@.len() == 0),
        p.steps@.len() == change_ids@.len(),
        forall|i: int| 0 <= i < change_ids@.len() ==> steps_for(prs.map(), change_ids@[i]@, #[trigger] p.steps@[i]),
        p.needs_default_branch == exists|i: int| 0 <= i < change_ids@.len() && pr_of(prs.map(), #[trigger] change_ids@[i]@) is None,
{
    let mut steps: Vec<CommitSteps> = Vec::new();
    let mut any_new = false;
    let mut i: usize = 0;
    while i < change_ids.len()
        invariant
            i <= change_ids.len(),
            steps@.len() == i,
            forall|j: int| 0 <= j < i ==> steps_for(prs.map(), change_ids@[j]@, #[trigger] steps@[j]),
            any_new == exists|j: int| 0 <= j < i && pr_of(prs.map(), #[trigger] change_ids@[j]@) is None,
        decreases change_ids.len() - i,
    {
        let pr = prs.get(change_ids[i].as_str());
        let is_new = pr.is_none();
        let s = CommitSteps {
            change_id: change_ids[i].clone(),
            pr,
            read_head_ref: !is_new,
            new_bookmark: is_new,
            track: is_new,
            create_pr: is_new,
            reread_body: !is_new,
            store_mapping: is_new,
        };
        assert(pr == pr_of(prs.map(), change_ids@[i as int]@));
        steps.push(s);
        if is_new {
            any_new = true;
        }
        i = i + 1;
    }
    SubmitPlan { nothing: change_ids.len() == 0, steps, needs_default_branch: any_new }
}

/// The PR number of a submitted commit, which every commit has once its
/// PR exists; else the error that names the commit.
pub fn pr_number_for(prs: &PrMap, change_id: &str) -> (r: Result<u32, JcError>)
    ensures
        prs.map().contains_key(change_id@) ==> r == Ok::<u32, JcError>(prs.map()[change_id@]),
        !prs.map().contains_key(change_id@) ==> (r matches Err(JcError::MissingPrNumber { change_id: c })
            && c@ == change_id@),
{
    match prs.get(change_id) {
        Some(n) => Ok(n),
        None => Err(JcError::MissingPrNumber { change_id: change_id.to_owned() }),
    }
}

/// The revset that `jc submit` works on: the one given, else the configured
/// `jellycat.default_revset`, else the stack (`trunk()..@`) when asked for,
/// else the current commit.
pub fn submit_revset_for(args: &SubmitArgs, default_revset: Option<&str>) -> (r: String)
    ensures
        r@ == match args.revset {
            Some(x) => x@,
            None => match default_revset {
                Some(d) => d@,
                None => if args.stack {
                    "trunk()..@"@
                } else {
                    "@"@
                },
            },
        },
{
    match &args.revset {
        Some(r) => r.clone(),
        None => match default_revset {
            Some(d) => d.to_owned(),
            None => if args.stack {
                "trunk()..@".to_owned()
            } else {
                "@".to_owned()
            },
        },
    }
}

/// New PRs are drafts when `--draft` is given or `jellycat.draft` is set.
pub fn draft_for(args: &SubmitArgs, config_draft: bool) -> (r: bool)
    ensures
        r == (args.draft || config_draft),
{
    args.draft || config_draft
}

/// `"1 commit"`, `"2 commits"`: a count with the noun that agrees with it.
pub fn plural(n: usize, singular: &str, many: &str) -> (r: String)
    ensures
        r@ == dec(n as nat) + " "@ + if n == 1 { singular@ } else { many@ },
{
    let mut v = render_u64(n as u64);
    append_str(&mut v, " ");
    if n == 1 {
        append_str(&mut v, singular);
    } else {
        append_str(&mut v, many);
    }
    string_of(v.as_slice())
}

/// The body of a commit description: everything after its first line,
/// trimmed; empty when the trimmed description has one line.
pub open spec fn commit_body_spec(description: Seq<char>) -> Seq<char> {
    let t = trim(description);
    let k = find(t, '\n');
    if k < 0 {
        Seq::empty()
    } else {
        trim(t.skip(k))
    }
}

/// Returns the body of a commit description — everything after the first
/// line (title).
pub fn commit_body(description: &str) -> (r: String)
    ensures
        r@ == commit_body_spec(description@),
{
    let t = trim_str(description);
    match crate::text::find_char_from(t.as_slice(), '\n', 0) {
        Some(pos) => {
            proof { crate::text::lemma_find_from_bounds(t@, '\n', 0); }
            assert(pos < t.len());
            let rest = sub_vec(t.as_slice(), pos, t.len());
            assert(rest@ == t@.skip(pos as int));
            let b = trim_chars(rest.as_slice());
            string_of(b.as_slice())
        },
        None => String::new(),
    }
}

/// The title of a new PR: the first line of the description, or
/// `No description`.
pub fn pr_title(description: &str) -> (r: String)
    ensures
        r@ == match first_line(description@) {
            Some(l) => l,
            None => "No description"@,
        },
{
    match first_line_of(description) {
        Some(l) => string_of(l.as_slice()),
        None => "No description".to_owned(),
    }
}

/// The owner of the branch a new PR comes from: the owner part of the fork
/// (`origin_repo` up to its first `/`), or else the authenticated user.
pub open spec fn head_owner_spec(origin_repo: Option<Seq<char>>, login: Seq<char>) -> Seq<char> {
    match origin_repo {
        Some(r) => {
            let k = find(r, '/');
            if k < 0 {
                r
            } else {
                r.take(k)
            }
        },
        None => login,
    }
}

/// The owner of the branch a new PR comes from.
pub fn head_owner(origin_repo: Option<&str>, login: &str) -> (r: String)
    ensures
        r@ == head_owner_spec(crate::jj::opt_str(origin_repo), login@),
{
    match origin_repo {
        Some(repo) => {
            let rc = chars_of(repo);
            match crate::text::find_char_from(rc.as_slice(), '/', 0) {
                Some(k) => {
                    proof { crate::text::lemma_find_from_bounds(rc@, '/', 0); }
                    let o = sub_vec(rc.as_slice(), 0, k);
                    string_of(o.as_slice())
                },
                None => repo.to_owned(),
            }
        },
        None => login.to_owned(),
    }
}

/// The head of a new PR: `owner:branch`.
pub fn pr_head(owner: &str, bookmark: &str) -> (r: String)
    ensures
        r@ == owner@ + ":"@ + bookmark@,
{
    let mut v: Vec<char> = Vec::new();
    append_str(&mut v, owner);
    append_str(&mut v, ":");
    append_str(&mut v, bookmark);
    string_of(v.as_slice())
}

/// `len` characters drawn uniformly from the bytes `lo..=hi`, each taken as
/// the character of that code, from the thread-local generator of `rand`
/// (`Uniform::new_inclusive`, which refuses only `lo > hi`).
#[verifier::external_body]
fn random_letters(len: usize, lo: u8, hi: u8) -> (r: String)
    requires
        lo <= hi,
    ensures
        r@.len() == len,
        forall|i: int| 0 <= i < len ==> (lo as char) <= #[trigger] r@[i] && r@[i] <= (hi as char),
{
    rand::rng().sample_iter(rand::distr::Uniform::new_inclusive(lo, hi).unwrap()).take(len).map(
        |b| b as char,
    ).collect()
}

/// The bookmark of a commit that has no PR yet: the configured prefix and
/// twelve random lowercase letters.
pub fn new_bookmark_name(prefix: &str) -> (r: String)
    ensures
        r@.len() == prefix@.len() + 12,
        r@.take(prefix@.len() as int) == prefix@,
        forall|i: int| prefix@.len() <= i < r@.len() ==> 'a' <= #[trigger] r@[i] && r@[i] <= 'z',
{
    // The lowercase ASCII letters, 'a' to 'z'.
    let lo: u8 = 97;
    let hi: u8 = 122;
    let suffix = random_letters(12, lo, hi);
    assert((lo as char) == 'a' && (hi as char) == 'z');
    let mut v = chars_of(prefix);
    append_str(&mut v, suffix.as_str());
    assert(v@.take(prefix@.len() as int) =~= prefix@);
    assert forall|i: int| prefix@.len() <= i < v@.len() implies 'a' <= #[trigger] v@[i] && v@[i] <= 'z' by {
        assert(v@[i] == suffix@[i - prefix@.len()]);
    }
    string_of(v.as_slice())
}

/// The line of links at the top of a PR body: `« prev · review · next »`,
/// the review link always in the middle.
pub open spec fn nav_line_spec(g: StackGraph, upstream: Seq<char>, pr_num: u32) -> Seq<char> {
    let review = "[Review changes](https://github.com/"@ + upstream + "/pull/"@ + dec(pr_num as nat) + "/"@
        + g.review_suffix@ + ")"@;
    (match g.nav_prev {
        Some(p) => p@ + " · "@,
        None => Seq::empty(),
    }) + review + (match g.nav_next {
        Some(n) => " · "@ + n@,
        None => Seq::empty(),
    })
}

/// The tool's section of a PR body: the navigation line, then the stack
/// list when there is one.
pub open spec fn body_prefix_spec(g: StackGraph, upstream: Seq<char>, pr_num: u32) -> Seq<char> {
    if g.stack_md@.len() == 0 {
        nav_line_spec(g, upstream, pr_num)
    } else {
        nav_line_spec(g, upstream, pr_num) + "\n\n"@ + g.stack_md@
    }
}

/// A PR body: the tool's section, the marker, and the author's content.
pub open spec fn pr_body_spec(g: StackGraph, upstream: Seq<char>, pr_num: u32, user: Seq<char>) -> Seq<char> {
    body_prefix_spec(g, upstream, pr_num) + "\n\n"@ + BODY_MARKER@ + "\n\n"@ + user
}

/// Composes the body of PR `pr_num` from its stack graph and the author's
/// content.
pub fn compose_pr_body(graph: &StackGraph, upstream: &str, pr_num: u32, user_content: &str) -> (r: String)
    ensures
        r@ == pr_body_spec(*graph, upstream@, pr_num, user_content@),
{
    let mut v: Vec<char> = Vec::new();
    if let Some(p) = &graph.nav_prev {
        append_str(&mut v, p.as_str());
        append_str(&mut v, " · ");
    }
    append_str(&mut v, "[Review changes](https://github.com/");
    append_str(&mut v, upstream);
    append_str(&mut v, "/pull/");
    let d = render_u64(pr_num as u64);
    append(&mut v, d.as_slice());
    append_str(&mut v, "/");
    append_str(&mut v, graph.review_suffix.as_str());
    append_str(&mut v, ")");
    if let Some(n) = &graph.nav_next {
        append_str(&mut v, " · ");
        append_str(&mut v, n.as_str());
    }
    assert(v@ =~= nav_line_spec(*graph, upstream@, pr_num));
    let md = chars_of(graph.stack_md.as_str());
    if md.len() > 0 {
        append_str(&mut v, "\n\n");
        append(&mut v, md.as_slice());
    }
    assert(v@ =~= body_prefix_spec(*graph, upstream@, pr_num));
    append_str(&mut v, "\n\n");
    append_str(&mut v, BODY_MARKER);
    append_str(&mut v, "\n\n");
    append_str(&mut v, user_content);
    assert(v@ =~= pr_body_spec(*graph, upstream@, pr_num, user_content@));
    string_of(v.as_slice())
}

/// The author's content of an existing PR body: what follows the marker,
/// trimmed; a body without the marker gives the description's body.
pub open spec fn existing_user_content_spec(current_body: Seq<char>, description: Seq<char>) -> Seq<char> {
    match split_once_seq(current_body, BODY_MARKER@) {
        Some((_, rest)) => trim(rest),
        None => commit_body_spec(description),
    }
}

/// The author's content of an existing PR body.
pub fn existing_user_content(current_body: &str, description: &str) -> (r: String)
    ensures
        r@ == existing_user_content_spec(current_body@, description@),
{
    let b = chars_of(current_body);
    let m = chars_of(BODY_MARKER);
    match split_once_str(b.as_slice(), m.as_slice()) {
        Some((_, rest)) => {
            let t = trim_chars(rest.as_slice());
            string_of(t.as_slice())
        },
        None => commit_body(description),
    }
}

// ---------------------------------------------------------------------------
// Laws
// ---------------------------------------------------------------------------

/// No change id occurs twice in the stack.
pub open spec fn change_ids_distinct(stack: Seq<StackCommit>) -> bool {
    forall|i: int, j: int|
        0 <= i < stack.len() && 0 <= j < stack.len() && i != j ==> #[trigger] stack[i].change_id@
            != #[trigger] stack[j].change_id@
}

proof fn lemma_position_of_member(stack: Seq<StackCommit>, k: int, i: int)
    requires
        change_ids_distinct(stack),
        0 <= i <= k < stack.len(),
    ensures
        position(stack, stack[k].change_id@, i) == k,
    decreases k - i,
{
    if i < k {
        assert(stack[i].change_id@ != stack[k].change_id@);
        lemma_position_of_member(stack, k, i + 1);
    }
}

/// Adjacent PRs of a stack link to each other: the lower one's "next" link
/// points at the upper one, and the upper one's "previous" link at the lower
/// one.
pub proof fn law_adjacent_prs_link_each_other(
    stack: Seq<StackCommit>,
    i: int,
    lower: StackGraph,
    upper: StackGraph,
    upstream: Seq<char>,
)
    requires
        change_ids_distinct(stack),
        0 <= i,
        i + 1 < stack.len(),
        stack[i].pr_number is Some,
        stack[i + 1].pr_number is Some,
        graph_matches(lower, stack, stack[i].change_id@, upstream),
        graph_matches(upper, stack, stack[i + 1].change_id@, upstream),
    ensures
        opt_string(lower.nav_next) == Some(next_link(stack[i + 1].pr_number->0, upstream)),
        opt_string(upper.nav_prev) == Some(prev_link(stack[i].pr_number->0, upstream)),
{
    lemma_position_of_member(stack, i, 0);
    lemma_position_of_member(stack, i + 1, 0);
}

/// The ends of a stack: the bottom commit's PR has no "previous" link and
/// the top commit's PR no "next" link.
pub proof fn law_stack_ends_have_one_link(stack: Seq<StackCommit>, bottom: StackGraph, top: StackGraph, upstream: Seq<char>)
    requires
        change_ids_distinct(stack),
        stack.len() > 0,
        graph_matches(bottom, stack, stack[0].change_id@, upstream),
        graph_matches(top, stack, stack[stack.len() - 1].change_id@, upstream),
    ensures
        bottom.nav_prev is None,
        top.nav_next is None,
{
    lemma_position_of_member(stack, 0, 0);
    lemma_position_of_member(stack, stack.len() - 1, 0);
}

proof fn lemma_run_start_is_first(stack: Seq<StackCommit>, first: int, idx: int, p: u32)
    requires
        0 <= first <= idx < stack.len(),
        forall|j: int| first <= j <= idx ==> #[trigger] stack[j].pr_number == Some(p),
        first == 0 || stack[first - 1].pr_number != Some(p),
    ensures
        run_start(stack, idx, p) == first,
    decreases idx - first,
{
    if idx > first {
        assert(stack[idx - 1].pr_number == Some(p));
        lemma_run_start_is_first(stack, first, idx - 1, p);
    }
}

/// The "Review changes" link of a PR covers the whole PR: when the current
/// commit is the last of a run of commits `first..=idx` that all belong to
/// PR `p` (the commit before `first`, if any, belongs to another), the diff
/// runs from the parent of the run's first commit to the current commit;
/// for a PR of one commit it is that commit's own changes.
pub proof fn law_review_covers_whole_pr(
    g: StackGraph,
    stack: Seq<StackCommit>,
    current: Seq<char>,
    upstream: Seq<char>,
    idx: int,
    first: int,
    p: u32,
)
    requires
        graph_matches(g, stack, current, upstream),
        0 <= idx < stack.len(),
        stack[idx].change_id@ == current,
        forall|j: int| 0 <= j < idx ==> #[trigger] stack[j].change_id@ != current,
        0 <= first <= idx,
        forall|j: int| first <= j <= idx ==> #[trigger] stack[j].pr_number == Some(p),
        first == 0 || stack[first - 1].pr_number != Some(p),
        stack[first].parents@.len() > 0,
    ensures
        first < idx ==> g.review_suffix@ == "changes/"@ + stack[first].parents@[0]@ + ".."@ + stack[idx].commit_id@,
        first == idx ==> g.review_suffix@ == "changes/"@ + stack[idx].commit_id@,
{
    lemma_position_of_first(stack, current, idx, 0);
    lemma_run_start_is_first(stack, first, idx, p);
}

proof fn lemma_position_of_first(stack: Seq<StackCommit>, cid: Seq<char>, idx: int, i: int)
    requires
        0 <= i <= idx < stack.len(),
        stack[idx].change_id@ == cid,
        forall|j: int| 0 <= j < idx ==> #[trigger] stack[j].change_id@ != cid,
    ensures
        position(stack, cid, i) == idx,
    decreases idx - i,
{
    if i < idx {
        assert(stack[i].change_id@ != cid);
        lemma_position_of_first(stack, cid, idx, i + 1);
    }
}

/// The stack list appears exactly when the stack has more than one PR.
pub proof fn law_stack_list_iff_several_prs(stack: Seq<StackCommit>, current: Seq<char>, g: StackGraph, upstream: Seq<char>)
    requires
        position(stack, current, 0) >= 0,
        graph_matches(g, stack, current, upstream),
    ensures
        (g.stack_md@.len() > 0) <==> pr_commits(stack).len() > 1,
{
}

proof fn lemma_marker_first_at(p: Seq<char>, u: Seq<char>, k: int)
    requires
        0 <= k <= p.len() + 2,
        !crate::text::contains(p, BODY_MARKER@),
        BODY_MARKER@ == "<!-- jellycat -->"@,
    ensures
        crate::text::find_seq_from(p + "\n\n"@ + BODY_MARKER@ + "\n\n"@ + u, BODY_MARKER@, k) == p.len() + 2,
    decreases p.len() + 2 - k,
{
    let m = BODY_MARKER@;
    let s = p + "\n\n"@ + m + "\n\n"@ + u;
    reveal_strlit("<!-- jellycat -->");
    reveal_strlit("\n\n");
    assert(m.len() == 17);
    if k == p.len() + 2 {
        assert(s.subrange(k, k + m.len()) =~= m);
    } else {
        if k + m.len() <= p.len() {
            assert(s.subrange(k, k + m.len()) =~= p.subrange(k, k + m.len()));
        } else {
            // The window covers one of the two newlines before the marker.
            let j = if k <= p.len() { p.len() - k } else { p.len() + 1 - k };
            assert(0 <= j < m.len());
            assert(s[k + j] == '\n');
            assert(m[j] != '\n');
            assert(s.subrange(k, k + m.len())[j] != m[j]);
        }
        assert(s.subrange(k, k + m.len()) != m);
        lemma_marker_first_at(p, u, k + 1);
    }
}

/// The author's content survives a re-submit: reading back the body that
/// `compose_pr_body` wrote gives the content it was given, provided that
/// content is trimmed and the tool's section does not itself hold the
/// marker.
pub proof fn law_user_content_round_trip(g: StackGraph, upstream: Seq<char>, pr_num: u32, user: Seq<char>, description: Seq<char>)
    requires
        trim(user) == user,
        !crate::text::contains(body_prefix_spec(g, upstream, pr_num), BODY_MARKER@),
    ensures
        existing_user_content_spec(pr_body_spec(g, upstream, pr_num, user), description) == user,
{
    let p = body_prefix_spec(g, upstream, pr_num);
    let m = BODY_MARKER@;
    reveal_strlit("<!-- jellycat -->");
    assert(m == "<!-- jellycat -->"@);
    lemma_marker_first_at(p, user, 0);
    let s = p + "\n\n"@ + m + "\n\n"@ + user;
    assert(pr_body_spec(g, upstream, pr_num, user) == s);
    reveal_strlit("\n\n");
    assert(s.skip((p.len() + 2 + m.len()) as int) =~= "\n\n"@ + user);
    crate::text::lemma_trim_after_ws("\n\n"@, user);
}

/// The content of a new PR, the description's body, is trimmed: so it too
/// survives a re-submit.
pub proof fn law_commit_body_is_trimmed(description: Seq<char>)
    ensures
        trim(commit_body_spec(description)) == commit_body_spec(description),
{
    let t = trim(description);
    if find(t, '\n') >= 0 {
        crate::text::lemma_trim_idempotent(t.skip(find(t, '\n')));
    } else {
        assert(trim(Seq::<char>::empty()) =~= Seq::<char>::empty()) by {
            assert(crate::text::non_ws_from(Seq::<char>::empty(), 0) == 0);
        }
    }
}

} // verus!
