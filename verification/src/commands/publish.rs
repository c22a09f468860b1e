//! `jc publish`: marks the PRs of commits ready for review, or (`--undo`)
//! turns them back into drafts.
use vstd::prelude::*;
use crate::text::{append, append_str, chars_of, dec, render_u64, string_of};

verus! {

/// The arguments of `jc publish`.
#[derive(Debug)]
pub struct PublishArgs {
    /// Revset of commits whose PRs to publish
    pub revset: Option<String>,
    /// Convert ready-for-review PRs back to draft
    pub undo: bool,
}

/// The PR is already where the command would put it: a draft when undoing,
/// ready for review when publishing.
pub fn already_in_state(is_draft: bool, undo: bool) -> (r: bool)
    ensures
        r == ((is_draft && undo) || (!is_draft && !undo)),
{
    (is_draft && undo) || (!is_draft && !undo)
}

/// The closing line of `jc publish`.
pub fn publish_summary(changed: usize, undo: bool) -> (r: String)
    ensures
        r@ == if changed == 0 {
            if undo { "Nothing to unpublish."@ } else { "Nothing to publish."@ }
        } else if changed == 1 {
            if undo { "Unpublished 1 PR."@ } else { "Published 1 PR."@ }
        } else {
            (if undo { "Unpublished "@ } else { "Published "@ }) + dec(changed as nat) + " PRs."@
        },
{
    if changed == 0 {
        if undo { "Nothing to unpublish.".to_owned() } else { "Nothing to publish.".to_owned() }
    } else if changed == 1 {
        if undo { "Unpublished 1 PR.".to_owned() } else { "Published 1 PR.".to_owned() }
    } else {
        let mut v = if undo { chars_of("Unpublished ") } else { chars_of("Published ") };
        let d = render_u64(changed as u64);
        append(&mut v, d.as_slice());
        append_str(&mut v, " PRs.");
        string_of(v.as_slice())
    }
}

/// The command changes the PR: it is not already where the command puts
/// it.
pub open spec fn would_change(is_draft: bool, undo: bool) -> bool {
    !((is_draft && undo) || (!is_draft && !undo))
}

/// Publishing changes exactly the drafts and undoing exactly the PRs ready
/// for review; so a PR that publishing changed is one that undoing changes
/// back, and the reverse.
pub proof fn law_publish_and_undo_are_inverse(is_draft: bool)
    ensures
        would_change(is_draft, false) == is_draft,
        would_change(is_draft, true) == !is_draft,
        would_change(is_draft, false) ==> would_change(!is_draft, true),
        would_change(is_draft, true) ==> would_change(!is_draft, false),
{
}

} // verus!
