//! Canonical config-key strings: every `jellycat.*` key lives here so that
//! renames and deprecations can be found in one place.
use vstd::prelude::*;

verus! {

pub const UPSTREAM_REPO: &'static str = "jellycat.upstream_repo";
pub const UPSTREAM: &'static str = "jellycat.upstream";
pub const ORIGIN: &'static str = "jellycat.origin";
pub const ORIGIN_REPO: &'static str = "jellycat.origin_repo";
pub const HEAD_REPO: &'static str = "jellycat.head_repo";
pub const GITHUB_USER: &'static str = "jellycat.github_user";
pub const DRAFT: &'static str = "jellycat.draft";
pub const BOOKMARK_PREFIX: &'static str = "jellycat.bookmark_prefix";
pub const PR_STORE: &'static str = "jellycat.pr_store";
pub const DEFAULT_REVSET: &'static str = "jellycat.default_revset";
pub const PRS_PREFIX: &'static str = "jellycat.prs.";
pub const PR_TEMPLATE: &'static str = "jellycat.pr_template";

} // verus!
