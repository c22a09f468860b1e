//! `jc unlink`: removes a PR association, found by revset or by PR number.
use vstd::prelude::*;

verus! {

/// The arguments of `jc unlink`.
#[derive(Debug)]
pub struct UnlinkArgs {
    /// The revset to unlink a PR from (must resolve to a single commit)
    pub revset: Option<String>,
    /// The PR number to unlink
    pub pr_number: Option<u32>,
}

/// How `jc unlink` finds the association to remove.
#[derive(Debug)]
pub enum UnlinkMode {
    /// By the PR number alone: the change that maps to it.
    ByPr(u32),
    /// By the commit of a revset, optionally checking its PR number.
    ByRevset { revset: String, pr_number: Option<u32> },
}

/// Reads the arguments: a revset, when given, selects the commit; a PR
/// number alone selects the change mapped to it; with neither, the commit
/// is the current one, `@`.
pub fn unlink_mode(args: &UnlinkArgs) -> (r: UnlinkMode)
    ensures
        args.revset is None && args.pr_number is None ==> (r matches UnlinkMode::ByRevset { revset, pr_number }
            && revset@ == "@"@ && pr_number is None),
        args.revset is None && args.pr_number is Some ==> (r matches UnlinkMode::ByPr(n) && n == args.pr_number->0),
        args.revset is Some ==> (r matches UnlinkMode::ByRevset { revset, pr_number } && revset@ == args.revset->0@
            && pr_number == args.pr_number),
{
    match (&args.revset, args.pr_number) {
        (None, None) => UnlinkMode::ByRevset { revset: "@".to_owned(), pr_number: None },
        (None, Some(n)) => UnlinkMode::ByPr(n),
        (Some(r), p) => UnlinkMode::ByRevset { revset: r.clone(), pr_number: p },
    }
}

/// What unlinking the commit of a revset comes to.
#[derive(Debug, PartialEq, Eq, Structural)]
pub enum UnlinkDecision {
    /// The commit has no PR: only a warning.
    NotLinked,
    /// The commit is linked to `existing`, not to the `requested` PR: only a
    /// warning.
    Mismatch { requested: u32, existing: u32 },
    /// Remove the mapping, which was to this PR.
    Unset(u32),
}

/// Decides the unlinking of a commit linked to `existing` when the user
/// named `requested`.
pub fn decide_unlink(existing: Option<u32>, requested: Option<u32>) -> (r: UnlinkDecision)
    ensures
        r == match (existing, requested) {
            (None, _) => UnlinkDecision::NotLinked,
            (Some(e), Some(q)) => if e != q {
                UnlinkDecision::Mismatch { requested: q, existing: e }
            } else {
                UnlinkDecision::Unset(e)
            },
            (Some(e), None) => UnlinkDecision::Unset(e),
        },
{
    match (existing, requested) {
        (None, _) => UnlinkDecision::NotLinked,
        (Some(e), Some(q)) => {
            if e != q {
                UnlinkDecision::Mismatch { requested: q, existing: e }
            } else {
                UnlinkDecision::Unset(e)
            }
        },
        (Some(e), None) => UnlinkDecision::Unset(e),
    }
}

/// Unlinking removes only the association the user asked about: when a PR
/// number is named it must be the commit's, and the PR reported as unlinked
/// is the one the commit was linked to.
pub proof fn law_unlink_removes_only_the_named_link(existing: u32, requested: Option<u32>, d: UnlinkDecision)
    requires
        d == match (Some(existing), requested) {
            (None, _) => UnlinkDecision::NotLinked,
            (Some(e), Some(q)) => if e != q {
                UnlinkDecision::Mismatch { requested: q, existing: e }
            } else {
                UnlinkDecision::Unset(e)
            },
            (Some(e), None) => UnlinkDecision::Unset(e),
        },
    ensures
        d matches UnlinkDecision::Unset(p) ==> p == existing && (requested is None || requested == Some(existing)),
{
}

} // verus!
