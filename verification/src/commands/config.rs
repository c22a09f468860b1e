//! `jc config`: shows the tool's configuration with a line of explanation
//! for each known key.
use vstd::prelude::*;
use crate::config::{config_key, key_kind, keys, ConfigKey};
use crate::jj::pairs;
use crate::text::{append_str, chars_of, starts_with, starts_with_chars, string_of};

verus! {

/// What a configuration key is for.
pub open spec fn describe_kind(k: ConfigKey) -> Seq<char> {
    match k {
        ConfigKey::UpstreamRepo => "GitHub owner/repo for upstream repository"@,
        ConfigKey::Upstream => "Git remote name for upstream"@,
        ConfigKey::Origin => "Git remote name for fork (origin)"@,
        ConfigKey::OriginRepo => "GitHub owner/repo for fork repository"@,
        ConfigKey::GithubUser => "GitHub username for interacting with GitHub API"@,
        ConfigKey::Draft => "Create PRs as drafts by default"@,
        ConfigKey::BookmarkPrefix => "Prefix for jj bookmarks managed by jellycat"@,
        ConfigKey::PrStore => "Backend for PR-to-change-id mappings (config or bookmark)"@,
        ConfigKey::DefaultRevset => "Default revset used when submitting"@,
        ConfigKey::PrTemplate => "Template for PR body"@,
        ConfigKey::HeadRepo => Seq::empty(),
    }
}

/// The explanation shown for a key; the deprecated `jellycat.head_repo` and
/// unknown keys have none.
pub open spec fn description_spec(key: Seq<char>) -> Option<Seq<char>> {
    match key_kind(key) {
        Some(ConfigKey::HeadRepo) => None,
        Some(k) => Some(describe_kind(k)),
        None => None,
    }
}

/// The explanation shown for a key.
pub fn description(key: &str) -> (r: Option<&'static str>)
    ensures
        match description_spec(key@) {
            Some(d) => r is Some && r->0@ == d,
            None => r is None,
        },
{
    let k = chars_of(key);
    match config_key(k.as_slice()) {
        Some(ConfigKey::UpstreamRepo) => Some("GitHub owner/repo for upstream repository"),
        Some(ConfigKey::Upstream) => Some("Git remote name for upstream"),
        Some(ConfigKey::Origin) => Some("Git remote name for fork (origin)"),
        Some(ConfigKey::OriginRepo) => Some("GitHub owner/repo for fork repository"),
        Some(ConfigKey::GithubUser) => Some("GitHub username for interacting with GitHub API"),
        Some(ConfigKey::Draft) => Some("Create PRs as drafts by default"),
        Some(ConfigKey::BookmarkPrefix) => Some("Prefix for jj bookmarks managed by jellycat"),
        Some(ConfigKey::PrStore) => Some("Backend for PR-to-change-id mappings (config or bookmark)"),
        Some(ConfigKey::DefaultRevset) => Some("Default revset used when submitting"),
        Some(ConfigKey::PrTemplate) => Some("Template for PR body"),
        Some(ConfigKey::HeadRepo) => None,
        None => None,
    }
}

/// What `jc config` prints for one entry: its explanation as a comment when
/// it has one, then `key=value`, then a blank line.
pub open spec fn entry_text(key: Seq<char>, value: Seq<char>) -> Seq<char> {
    (match description_spec(key) {
        Some(d) => "# "@ + d + "\n"@,
        None => Seq::empty(),
    }) + key + "="@ + value + "\n\n"@
}

/// What `jc config` prints for the entries, PR mappings left out.
pub open spec fn listing_spec(e: Seq<(Seq<char>, Seq<char>)>) -> Seq<char>
    decreases e.len(),
{
    if e.len() == 0 {
        Seq::empty()
    } else {
        listing_spec(e.drop_last()) + if starts_with(e.last().0, keys::PRS_PREFIX@) {
            Seq::empty()
        } else {
            entry_text(e.last().0, e.last().1)
        }
    }
}

/// The text that `jc config` prints for the `jellycat.` entries.
pub fn listing(entries: &Vec<(String, String)>) -> (r: String)
    ensures
        r@ == listing_spec(pairs(entries@)),
{
    let prs = chars_of(keys::PRS_PREFIX);
    let mut out: Vec<char> = Vec::new();
    let mut i: usize = 0;
    while i < entries.len()
        invariant
            i <= entries.len(),
            prs@ == keys::PRS_PREFIX@,
            out@ == listing_spec(pairs(entries@).take(i as int)),
        decreases entries.len() - i,
    {
        let ghost e = pairs(entries@);
        assert(e.take(i + 1).drop_last() == e.take(i as int));
        assert(e.take(i + 1).last() == (entries@[i as int].0@, entries@[i as int].1@));
        let k = chars_of(entries[i].0.as_str());
        if !starts_with_chars(k.as_slice(), prs.as_slice()) {
            if let Some(d) = description(entries[i].0.as_str()) {
                append_str(&mut out, "# ");
                append_str(&mut out, d);
                append_str(&mut out, "\n");
            }
            append_str(&mut out, entries[i].0.as_str());
            append_str(&mut out, "=");
            append_str(&mut out, entries[i].1.as_str());
            append_str(&mut out, "\n\n");
        }
        assert(out@ =~= listing_spec(e.take(i + 1)));
        i = i + 1;
    }
    assert(pairs(entries@).take(entries.len() as int) == pairs(entries@));
    string_of(out.as_slice())
}

} // verus!
