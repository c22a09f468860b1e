//! `jc link`: associates a commit with an existing PR, or (`--smart`) each
//! open PR with the local bookmark that shares its head branch.
use vstd::prelude::*;
use crate::error::JcError;
use crate::pr_store::PrMap;
use crate::text::{chars_of, eq_str};

verus! {

/// The arguments of `jc link`.
#[derive(Debug)]
pub struct LinkArgs {
    /// The revset to link a PR to (must resolve to a single commit)
    pub revset: String,
    /// The PR number to link
    pub pr_number: Option<u32>,
    /// Overwrite existing PR link
    pub force: bool,
    /// Auto-link open PRs to local bookmarks that share their head ref name.
    pub smart: bool,
}

/// What `jc link` is asked to do.
#[derive(Debug, PartialEq, Eq, Structural)]
pub enum LinkMode {
    /// Link the commit of the revset to this PR.
    Single(u32),
    /// Link open PRs to local bookmarks by head branch.
    Smart,
}

/// Reads the arguments: `--smart` excludes a PR number, and without
/// `--smart` a PR number is required.
pub fn link_mode(args: &LinkArgs) -> (r: Result<LinkMode, JcError>)
    ensures
        args.smart && args.pr_number is Some ==> r matches Err(JcError::SmartWithPrNumber),
        args.smart && args.pr_number is None ==> r == Ok::<LinkMode, JcError>(LinkMode::Smart),
        !args.smart && args.pr_number is None ==> r matches Err(JcError::PrNumberRequired),
        !args.smart && args.pr_number is Some ==> r == Ok::<LinkMode, JcError>(LinkMode::Single(args.pr_number->0)),
{
    if args.smart {
        if args.pr_number.is_some() {
            return Err(JcError::SmartWithPrNumber);
        }
        return Ok(LinkMode::Smart);
    }
    match args.pr_number {
        Some(n) => Ok(LinkMode::Single(n)),
        None => Err(JcError::PrNumberRequired),
    }
}

/// What linking one commit to a PR comes to.
#[derive(Debug, PartialEq, Eq, Structural)]
pub enum LinkDecision {
    /// The commit is already linked to that PR; nothing to store.
    AlreadyLinked,
    /// Store the mapping.
    Store,
}

/// Decides a single link: a commit already linked to the same PR needs
/// nothing; one linked to another PR is refused unless `force`; otherwise
/// the mapping is stored.
pub open spec fn link_single_spec(existing: Option<u32>, pr_number: u32, force: bool) -> Result<LinkDecision, u32> {
    match existing {
        Some(e) => if !force && e == pr_number {
            Ok(LinkDecision::AlreadyLinked)
        } else if !force {
            Err(e)
        } else {
            Ok(LinkDecision::Store)
        },
        None => Ok(LinkDecision::Store),
    }
}

/// Decides a single link of `change_id` to `pr_number`, given the known
/// mappings.
pub fn decide_single(prs: &PrMap, change_id: &str, pr_number: u32, force: bool) -> (r: Result<LinkDecision, JcError>)
    ensures
        match link_single_spec(
            if prs.map().contains_key(change_id@) { Some(prs.map()[change_id@]) } else { None },
            pr_number,
            force,
        ) {
            Ok(d) => r == Ok::<LinkDecision, JcError>(d),
            Err(e) => r matches Err(JcError::AlreadyLinked { existing_pr }) && existing_pr == e,
        },
{
    match prs.get(change_id) {
        Some(existing) => {
            if !force && existing == pr_number {
                Ok(LinkDecision::AlreadyLinked)
            } else if !force {
                Err(JcError::AlreadyLinked { existing_pr: existing })
            } else {
                Ok(LinkDecision::Store)
            }
        },
        None => Ok(LinkDecision::Store),
    }
}

/// What happens to one open PR under `--smart`.
#[derive(Debug, PartialEq, Eq, Structural)]
pub enum SmartOutcome {
    /// Already linked to this PR.
    Skipped,
    /// Linked to another PR and `--force` was not given; the other PR.
    Conflict(u32),
    /// Store the mapping.
    Link,
}

/// Decides one PR under `--smart`, given the PR its change is linked to.
pub fn decide_smart(existing: Option<u32>, pr_num: u32, force: bool) -> (r: SmartOutcome)
    ensures
        r == match existing {
            Some(e) => if e == pr_num {
                SmartOutcome::Skipped
            } else if !force {
                SmartOutcome::Conflict(e)
            } else {
                SmartOutcome::Link
            },
            None => SmartOutcome::Link,
        },
{
    match existing {
        Some(e) => {
            if e == pr_num {
                SmartOutcome::Skipped
            } else if !force {
                SmartOutcome::Conflict(e)
            } else {
                SmartOutcome::Link
            }
        },
        None => SmartOutcome::Link,
    }
}

/// `name` is among `names`.
pub fn has_name(names: &Vec<(String, String)>, name: &str) -> (r: bool)
    ensures
        r == exists|i: int| 0 <= i < names@.len() && #[trigger] names@[i].0@ == name@,
{
    let n = chars_of(name);
    let mut i: usize = 0;
    while i < names.len()
        invariant
            i <= names.len(),
            n@ == name@,
            forall|j: int| 0 <= j < i ==> #[trigger] names@[j].0@ != name@,
        decreases names.len() - i,
    {
        if eq_str(n.as_slice(), names[i].0.as_str()) {
            return true;
        }
        i = i + 1;
    }
    false
}

/// The open PRs whose head branch is a local bookmark, in order.
pub open spec fn smart_candidates_spec(prs: Seq<(u32, Seq<char>)>, bookmarks: Seq<(Seq<char>, Seq<char>)>) -> Seq<(u32, Seq<char>)>
    decreases prs.len(),
{
    if prs.len() == 0 {
        Seq::empty()
    } else {
        smart_candidates_spec(prs.drop_last(), bookmarks) + if exists|i: int|
            0 <= i < bookmarks.len() && #[trigger] bookmarks[i].0 == prs.last().1 {
            seq![prs.last()]
        } else {
            Seq::empty()
        }
    }
}

/// The open PRs (number, head branch) whose head branch is the name of a
/// local bookmark.
pub fn smart_candidates(prs: &Vec<(u32, String)>, bookmarks: &Vec<(String, String)>) -> (r: Vec<(u32, String)>)
    ensures
        crate::gh::pr_pairs(r@) == smart_candidates_spec(crate::gh::pr_pairs(prs@), crate::jj::pairs(bookmarks@)),
{
    let mut out: Vec<(u32, String)> = Vec::new();
    let mut i: usize = 0;
    while i < prs.len()
        invariant
            i <= prs.len(),
            crate::gh::pr_pairs(out@) == smart_candidates_spec(crate::gh::pr_pairs(prs@).take(i as int), crate::jj::pairs(bookmarks@)),
        decreases prs.len() - i,
    {
        let ghost ps = crate::gh::pr_pairs(prs@);
        let ghost bs = crate::jj::pairs(bookmarks@);
        assert(ps.take(i + 1).drop_last() == ps.take(i as int));
        assert(ps.take(i + 1).last() == (prs@[i as int].0, prs@[i as int].1@));
        let found = has_name(bookmarks, prs[i].1.as_str());
        assert(found == exists|k: int| 0 <= k < bs.len() && #[trigger] bs[k].0 == ps.take(i + 1).last().1) by {
            if found {
                let k = choose|k: int| 0 <= k < bookmarks@.len() && #[trigger] bookmarks@[k].0@ == prs@[i as int].1@;
                assert(bs[k].0 == bookmarks@[k].0@);
            } else {
                assert forall|k: int| 0 <= k < bs.len() implies #[trigger] bs[k].0 != ps.take(i + 1).last().1 by {
                    assert(bs[k].0 == bookmarks@[k].0@);
                }
            }
        }
        let ghost before = out@;
        if found {
            let e = (prs[i].0, prs[i].1.clone());
            out.push(e);
            assert(crate::gh::pr_pairs(out@) =~= crate::gh::pr_pairs(before).push((e.0, e.1@)));
        }
        assert(crate::gh::pr_pairs(out@) =~= smart_candidates_spec(ps.take(i + 1), bs));
        i = i + 1;
    }
    assert(crate::gh::pr_pairs(prs@).take(prs.len() as int) == crate::gh::pr_pairs(prs@));
    out
}

/// Without `--force`, a link never replaces another PR's link: deciding a
/// link for a commit that is linked to a different PR is refused with that
/// PR's number.
pub proof fn law_link_keeps_other_pr_without_force(existing: u32, pr_number: u32)
    requires
        existing != pr_number,
    ensures
        link_single_spec(Some(existing), pr_number, false) == Err::<LinkDecision, u32>(existing),
{
}

/// Linking a commit to the PR it is already linked to is never refused:
/// without `--force` it stores nothing, and with `--force` it stores the same
/// mapping again.
pub proof fn law_link_same_pr_is_noop(pr_number: u32, force: bool)
    ensures
        link_single_spec(Some(pr_number), pr_number, force) is Ok,
        !force ==> link_single_spec(Some(pr_number), pr_number, force) == Ok::<LinkDecision, u32>(LinkDecision::AlreadyLinked),
{
}

} // verus!
