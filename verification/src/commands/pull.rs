//! `jc pull`: writes the title and body of each commit's PR back into the
//! commit's description.
use vstd::prelude::*;
use crate::commands::submit::BODY_MARKER;
use crate::text::{append, append_str, chars_of, dec, eq_chars, render_u64, split_once_seq, split_once_str, string_of, trim, trim_chars, trim_str};

verus! {

/// The arguments of `jc pull`.
#[derive(Debug)]
pub struct PullArgs {
    /// Revset of commits to pull PR descriptions into
    pub revset: Option<String>,
}

/// The revset given, or the current commit.
pub fn revset_or_current(revset: &Option<String>) -> (r: String)
    ensures
        r@ == match revset {
            Some(s) => s@,
            None => "@"@,
        },
{
    match revset {
        Some(s) => s.clone(),
        None => "@".to_owned(),
    }
}

/// The author's part of a PR body: what follows the tool's marker, else the
/// whole body; trimmed.
pub open spec fn user_body_spec(body: Seq<char>) -> Seq<char> {
    match split_once_seq(body, BODY_MARKER@) {
        Some((_, rest)) => trim(rest),
        None => trim(body),
    }
}

/// The description a commit takes from its PR: the title, then a blank line
/// and the author's part of the body when there is one.
pub open spec fn new_description_spec(title: Seq<char>, body: Seq<char>) -> Seq<char> {
    let u = user_body_spec(body);
    if u.len() == 0 {
        title
    } else {
        title + "\n\n"@ + u
    }
}

/// The description a commit takes from its PR's title and body.
pub fn new_description(title: &str, body: &str) -> (r: String)
    ensures
        r@ == new_description_spec(title@, body@),
{
    let b = chars_of(body);
    let m = chars_of(BODY_MARKER);
    let user = match split_once_str(b.as_slice(), m.as_slice()) {
        Some((_, rest)) => trim_chars(rest.as_slice()),
        None => trim_chars(b.as_slice()),
    };
    let mut v = chars_of(title);
    if user.len() > 0 {
        append_str(&mut v, "\n\n");
        append(&mut v, user.as_slice());
    }
    string_of(v.as_slice())
}

/// The commit already has that description (up to surrounding
/// whitespace).
pub fn is_up_to_date(new_description: &str, description: &str) -> (r: bool)
    ensures
        r == (new_description@ == trim(description@)),
{
    let n = chars_of(new_description);
    let t = trim_str(description);
    eq_chars(n.as_slice(), t.as_slice())
}

/// The closing line of `jc pull`.
pub fn pull_summary(pulled: usize) -> (r: String)
    ensures
        pulled == 0 ==> r@ == "Nothing to pull."@,
        pulled == 1 ==> r@ == "Pulled 1 commit description."@,
        pulled > 1 ==> r@ == "Pulled "@ + dec(pulled as nat) + " commit descriptions."@,
{
    if pulled == 0 {
        "Nothing to pull.".to_owned()
    } else if pulled == 1 {
        "Pulled 1 commit description.".to_owned()
    } else {
        let mut v = chars_of("Pulled ");
        let d = render_u64(pulled as u64);
        append(&mut v, d.as_slice());
        append_str(&mut v, " commit descriptions.");
        string_of(v.as_slice())
    }
}

/// Pulling twice changes nothing the second time: the description that
/// `pull` writes from a PR is up to date with that PR on the next pull,
/// provided the PR's title is non-empty and trimmed.
pub proof fn law_pull_is_idempotent(title: Seq<char>, body: Seq<char>)
    requires
        trim(title) == title,
        title.len() > 0,
    ensures
        new_description_spec(title, body) == trim(new_description_spec(title, body)),
{
    let u = user_body_spec(body);
    match split_once_seq(body, BODY_MARKER@) {
        Some((_, rest)) => crate::text::lemma_trim_idempotent(rest),
        None => crate::text::lemma_trim_idempotent(body),
    }
    if u.len() > 0 {
        lemma_trim_joined(title, u);
    }
}

proof fn lemma_trim_joined(title: Seq<char>, u: Seq<char>)
    requires
        trim(title) == title,
        title.len() > 0,
        trim(u) == u,
        u.len() > 0,
    ensures
        trim(title + "\n\n"@ + u) == title + "\n\n"@ + u,
{
    let s = title + "\n\n"@ + u;
    crate::text::lemma_trim_ends(title);
    crate::text::lemma_trim_ends(u);
    assert(s[0] == title[0]);
    assert(s[s.len() - 1] == u[u.len() - 1]);
    crate::text::lemma_trim_unchanged(s);
}

} // verus!
