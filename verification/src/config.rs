//! The tool's configuration: the `jellycat.*` entries of the repository's
//! jj config, read into a `Config`.
use vstd::prelude::*;
use crate::jj::{config_entries, config_list_parsed, pairs, Invocation, Jj};
use crate::pr_store::{PrMap, PrStoreType};
use crate::text::{chars_of, eq_str, find, find_char_from, lines};

pub mod keys;

verus! {

/// The bookmark prefix used when none is configured.
pub const DEFAULT_BOOKMARK_PREFIX: &'static str = "jellycat/";

/// The configuration keys that the tool reads.
#[derive(Debug, Clone, Copy, PartialEq, Eq, Structural)]
pub enum ConfigKey {
    UpstreamRepo,
    Upstream,
    Origin,
    OriginRepo,
    HeadRepo,
    GithubUser,
    Draft,
    BookmarkPrefix,
    PrStore,
    DefaultRevset,
    PrTemplate,
}

/// Which known key `k` is.
pub open spec fn key_kind(k: Seq<char>) -> Option<ConfigKey> {
    if k == keys::UPSTREAM_REPO@ {
        Some(ConfigKey::UpstreamRepo)
    } else if k == keys::UPSTREAM@ {
        Some(ConfigKey::Upstream)
    } else if k == keys::ORIGIN@ {
        Some(ConfigKey::Origin)
    } else if k == keys::ORIGIN_REPO@ {
        Some(ConfigKey::OriginRepo)
    } else if k == keys::HEAD_REPO@ {
        Some(ConfigKey::HeadRepo)
    } else if k == keys::GITHUB_USER@ {
        Some(ConfigKey::GithubUser)
    } else if k == keys::DRAFT@ {
        Some(ConfigKey::Draft)
    } else if k == keys::BOOKMARK_PREFIX@ {
        Some(ConfigKey::BookmarkPrefix)
    } else if k == keys::PR_STORE@ {
        Some(ConfigKey::PrStore)
    } else if k == keys::DEFAULT_REVSET@ {
        Some(ConfigKey::DefaultRevset)
    } else if k == keys::PR_TEMPLATE@ {
        Some(ConfigKey::PrTemplate)
    } else {
        None
    }
}

/// Which known key `k` is.
pub fn config_key(k: &[char]) -> (r: Option<ConfigKey>)
    ensures
        r == key_kind(k@),
{
    if eq_str(k, keys::UPSTREAM_REPO) {
        Some(ConfigKey::UpstreamRepo)
    } else if eq_str(k, keys::UPSTREAM) {
        Some(ConfigKey::Upstream)
    } else if eq_str(k, keys::ORIGIN) {
        Some(ConfigKey::Origin)
    } else if eq_str(k, keys::ORIGIN_REPO) {
        Some(ConfigKey::OriginRepo)
    } else if eq_str(k, keys::HEAD_REPO) {
        Some(ConfigKey::HeadRepo)
    } else if eq_str(k, keys::GITHUB_USER) {
        Some(ConfigKey::GithubUser)
    } else if eq_str(k, keys::DRAFT) {
        Some(ConfigKey::Draft)
    } else if eq_str(k, keys::BOOKMARK_PREFIX) {
        Some(ConfigKey::BookmarkPrefix)
    } else if eq_str(k, keys::PR_STORE) {
        Some(ConfigKey::PrStore)
    } else if eq_str(k, keys::DEFAULT_REVSET) {
        Some(ConfigKey::DefaultRevset)
    } else if eq_str(k, keys::PR_TEMPLATE) {
        Some(ConfigKey::PrTemplate)
    } else {
        None
    }
}

/// The value of the last entry whose key is `kind` and whose value
/// satisfies `keep`.
pub open spec fn last_where(
    e: Seq<(Seq<char>, Seq<char>)>,
    kind: ConfigKey,
    keep: spec_fn(Seq<char>) -> bool,
) -> Option<Seq<char>>
    decreases e.len(),
{
    if e.len() == 0 {
        None
    } else if key_kind(e.last().0) == Some(kind) && keep(e.last().1) {
        Some(e.last().1)
    } else {
        last_where(e.drop_last(), kind, keep)
    }
}

/// Any value.
pub open spec fn any_value() -> spec_fn(Seq<char>) -> bool {
    |v: Seq<char>| true
}

/// A value that holds a `'/'`: the old style of `jellycat.upstream`, which
/// named the repository as `owner/repo`.
pub open spec fn has_slash() -> spec_fn(Seq<char>) -> bool {
    |v: Seq<char>| find(v, '/') >= 0
}

/// A value without a `'/'`: `jellycat.upstream` as a remote name.
pub open spec fn no_slash() -> spec_fn(Seq<char>) -> bool {
    |v: Seq<char>| find(v, '/') < 0
}

/// The last value given to `kind`.
pub open spec fn last_value(e: Seq<(Seq<char>, Seq<char>)>, kind: ConfigKey) -> Option<Seq<char>> {
    last_where(e, kind, any_value())
}

/// The configuration that entries denote, field by field. Each field takes
/// the last value given to its key; an old-style `jellycat.upstream`
/// (`owner/repo`) stands for `jellycat.upstream_repo` and `jellycat.head_repo`
/// for `jellycat.origin_repo` when the new key is absent.
pub open spec fn spec_upstream_repo(e: Seq<(Seq<char>, Seq<char>)>) -> Option<Seq<char>> {
    match last_value(e, ConfigKey::UpstreamRepo) {
        Some(v) => Some(v),
        None => last_where(e, ConfigKey::Upstream, has_slash()),
    }
}

pub open spec fn spec_origin_repo(e: Seq<(Seq<char>, Seq<char>)>) -> Option<Seq<char>> {
    match last_value(e, ConfigKey::OriginRepo) {
        Some(v) => Some(v),
        None => last_value(e, ConfigKey::HeadRepo),
    }
}

pub open spec fn spec_draft(e: Seq<(Seq<char>, Seq<char>)>) -> bool {
    last_value(e, ConfigKey::Draft) == Some("true"@)
}

pub open spec fn spec_pr_store_type(e: Seq<(Seq<char>, Seq<char>)>) -> PrStoreType {
    if last_value(e, ConfigKey::PrStore) == Some("bookmark"@) {
        PrStoreType::Bookmark
    } else {
        PrStoreType::Config
    }
}

/// The deprecated keys that were read in place of their new names, as
/// `(old, new)` pairs.
pub open spec fn spec_deprecated(e: Seq<(Seq<char>, Seq<char>)>) -> Seq<(Seq<char>, Seq<char>)> {
    (if last_value(e, ConfigKey::UpstreamRepo) is None && last_where(e, ConfigKey::Upstream, has_slash()) is Some {
        seq![(keys::UPSTREAM@, keys::UPSTREAM_REPO@)]
    } else {
        Seq::empty()
    }) + (if last_value(e, ConfigKey::OriginRepo) is None && last_value(e, ConfigKey::HeadRepo) is Some {
        seq![(keys::HEAD_REPO@, keys::ORIGIN_REPO@)]
    } else {
        Seq::empty()
    })
}

/// The character sequence of an optional owned string.
pub open spec fn opt_string(o: Option<String>) -> Option<Seq<char>> {
    match o {
        Some(s) => Some(s@),
        None => None,
    }
}

/// The character sequences of `(old, new)` key pairs.
pub open spec fn key_pairs(v: Seq<(&'static str, &'static str)>) -> Seq<(Seq<char>, Seq<char>)> {
    v.map_values(|p: (&'static str, &'static str)| (p.0@, p.1@))
}

/// The tool's configuration.
#[derive(Debug)]
pub struct Config {
    /// `owner/repo` string for the upstream repository
    pub upstream_repo: Option<String>,
    /// Git remote name for the upstream repository
    pub upstream: Option<String>,
    pub origin: Option<String>,
    /// `owner/repo` string for the fork (origin) repository
    pub origin_repo: Option<String>,
    pub github_user: Option<String>,
    pub bookmark_prefix: Option<String>,
    /// When true, new PRs are created as drafts by default.
    pub draft: bool,
    pub prs: PrMap,
    /// Which backend stores PR ↔ change-id mappings.
    pub pr_store_type: PrStoreType,
    /// Default revset to use when submitting
    pub default_revset: Option<String>,
    /// Template for PR
    pub pr_template: Option<String>,
    /// Old config keys that were found and should trigger deprecation
    /// warnings, as `(old_key, new_key)` pairs.
    pub deprecated_keys: Vec<(&'static str, &'static str)>,
}

impl Config {
    /// This configuration is the one that the entries `e` denote.
    pub open spec fn denotes(&self, e: Seq<(Seq<char>, Seq<char>)>) -> bool {
        &&& opt_string(self.upstream_repo) == spec_upstream_repo(e)
        &&& opt_string(self.upstream) == last_where(e, ConfigKey::Upstream, no_slash())
        &&& opt_string(self.origin) == last_value(e, ConfigKey::Origin)
        &&& opt_string(self.origin_repo) == spec_origin_repo(e)
        &&& opt_string(self.github_user) == last_value(e, ConfigKey::GithubUser)
        &&& opt_string(self.bookmark_prefix) == last_value(e, ConfigKey::BookmarkPrefix)
        &&& self.draft == spec_draft(e)
        &&& self.prs.map() == Map::<Seq<char>, u32>::empty()
        &&& self.pr_store_type == spec_pr_store_type(e)
        &&& opt_string(self.default_revset) == last_value(e, ConfigKey::DefaultRevset)
        &&& opt_string(self.pr_template) == last_value(e, ConfigKey::PrTemplate)
        &&& key_pairs(self.deprecated_keys@) == spec_deprecated(e)
    }

    /// The configured bookmark prefix, or `jellycat/`.
    pub fn bookmark_prefix(&self) -> (r: &str)
        ensures
            r@ == match self.bookmark_prefix {
                Some(p) => p@,
                None => DEFAULT_BOOKMARK_PREFIX@,
            },
    {
        match &self.bookmark_prefix {
            Some(p) => p.as_str(),
            None => DEFAULT_BOOKMARK_PREFIX,
        }
    }
}

impl Default for Config {
    fn default() -> (c: Config)
        ensures
            c.denotes(Seq::empty()),
    {
        let c = Config {
            upstream_repo: None,
            upstream: None,
            origin: None,
            origin_repo: None,
            github_user: None,
            bookmark_prefix: None,
            draft: false,
            prs: PrMap::new(),
            pr_store_type: PrStoreType::Config,
            default_revset: None,
            pr_template: None,
            deprecated_keys: Vec::new(),
        };
        assert(key_pairs(c.deprecated_keys@) =~= spec_deprecated(Seq::empty()));
        c
    }
}

proof fn lemma_last_where_step(
    e: Seq<(Seq<char>, Seq<char>)>,
    i: int,
    kind: ConfigKey,
    keep: spec_fn(Seq<char>) -> bool,
)
    requires
        0 <= i < e.len(),
    ensures
        last_where(e.take(i + 1), kind, keep) == if key_kind(e[i].0) == Some(kind) && keep(e[i].1) {
            Some(e[i].1)
        } else {
            last_where(e.take(i), kind, keep)
        },
{
    assert(e.take(i + 1).drop_last() == e.take(i));
    assert(e.take(i + 1).last() == e[i]);
}

/// Builds a `Config` from `(key, value)` entries, in the order jj listed
/// them: the last value of a key wins, unknown keys are ignored, and the
/// deprecated keys are read in place of their new names when those are
/// absent, each such fallback recorded in `deprecated_keys`.
pub fn load_from_entries(entries: Vec<(String, String)>) -> (r: Result<Config, crate::error::JcError>)
    ensures
        r is Ok,
        r->Ok_0.denotes(pairs(entries@)),
{
    let ghost e = pairs(entries@);
    let mut config = Config::default();
    let mut has_upstream_repo = false;
    let mut has_origin_repo = false;
    let mut old_upstream_value: Option<String> = None;
    let mut old_head_repo_value: Option<String> = None;

    let mut i: usize = 0;
    while i < entries.len()
        invariant
            i <= entries.len(),
            e == pairs(entries@),
            has_upstream_repo == (last_value(e.take(i as int), ConfigKey::UpstreamRepo) is Some),
            has_origin_repo == (last_value(e.take(i as int), ConfigKey::OriginRepo) is Some),
            opt_string(config.upstream_repo) == last_value(e.take(i as int), ConfigKey::UpstreamRepo),
            opt_string(old_upstream_value) == last_where(e.take(i as int), ConfigKey::Upstream, has_slash()),
            opt_string(config.upstream) == last_where(e.take(i as int), ConfigKey::Upstream, no_slash()),
            opt_string(config.origin) == last_value(e.take(i as int), ConfigKey::Origin),
            opt_string(config.origin_repo) == last_value(e.take(i as int), ConfigKey::OriginRepo),
            opt_string(old_head_repo_value) == last_value(e.take(i as int), ConfigKey::HeadRepo),
            opt_string(config.github_user) == last_value(e.take(i as int), ConfigKey::GithubUser),
            opt_string(config.bookmark_prefix) == last_value(e.take(i as int), ConfigKey::BookmarkPrefix),
            config.draft == spec_draft(e.take(i as int)),
            config.prs.map() == Map::<Seq<char>, u32>::empty(),
            config.pr_store_type == spec_pr_store_type(e.take(i as int)),
            opt_string(config.default_revset) == last_value(e.take(i as int), ConfigKey::DefaultRevset),
            opt_string(config.pr_template) == last_value(e.take(i as int), ConfigKey::PrTemplate),
            config.deprecated_keys@.len() == 0,
        decreases entries.len() - i,
    {
        let key = chars_of(entries[i].0.as_str());
        let value = entries[i].1.clone();
        let ghost ev = e[i as int];
        assert(ev == (key@, value@));
        proof {
            lemma_last_where_step(e, i as int, ConfigKey::UpstreamRepo, any_value());
            lemma_last_where_step(e, i as int, ConfigKey::Upstream, has_slash());
            lemma_last_where_step(e, i as int, ConfigKey::Upstream, no_slash());
            lemma_last_where_step(e, i as int, ConfigKey::Origin, any_value());
            lemma_last_where_step(e, i as int, ConfigKey::OriginRepo, any_value());
            lemma_last_where_step(e, i as int, ConfigKey::HeadRepo, any_value());
            lemma_last_where_step(e, i as int, ConfigKey::GithubUser, any_value());
            lemma_last_where_step(e, i as int, ConfigKey::Draft, any_value());
            lemma_last_where_step(e, i as int, ConfigKey::BookmarkPrefix, any_value());
            lemma_last_where_step(e, i as int, ConfigKey::PrStore, any_value());
            lemma_last_where_step(e, i as int, ConfigKey::DefaultRevset, any_value());
            lemma_last_where_step(e, i as int, ConfigKey::PrTemplate, any_value());
        }
        match config_key(key.as_slice()) {
            Some(ConfigKey::UpstreamRepo) => {
                config.upstream_repo = Some(value);
                has_upstream_repo = true;
            },
            Some(ConfigKey::Upstream) => {
                // Could be old-style (owner/repo) or new-style (remote name).
                let vc = chars_of(value.as_str());
                if find_char_from(vc.as_slice(), '/', 0).is_some() {
                    old_upstream_value = Some(value);
                } else {
                    config.upstream = Some(value);
                }
            },
            Some(ConfigKey::Origin) => {
                config.origin = Some(value);
            },
            Some(ConfigKey::OriginRepo) => {
                config.origin_repo = Some(value);
                has_origin_repo = true;
            },
            Some(ConfigKey::HeadRepo) => {
                old_head_repo_value = Some(value);
            },
            Some(ConfigKey::GithubUser) => {
                config.github_user = Some(value);
            },
            Some(ConfigKey::Draft) => {
                let vc = chars_of(value.as_str());
                config.draft = eq_str(vc.as_slice(), "true");
            },
            Some(ConfigKey::BookmarkPrefix) => {
                config.bookmark_prefix = Some(value);
            },
            Some(ConfigKey::PrStore) => {
                let vc = chars_of(value.as_str());
                config.pr_store_type = if eq_str(vc.as_slice(), "bookmark") {
                    PrStoreType::Bookmark
                } else {
                    PrStoreType::Config
                };
            },
            Some(ConfigKey::DefaultRevset) => {
                config.default_revset = Some(value);
            },
            Some(ConfigKey::PrTemplate) => {
                config.pr_template = Some(value);
            },
            None => {},
        }
        i = i + 1;
    }
    assert(e.take(entries.len() as int) == e);

    // Fall back: old jellycat.upstream (owner/repo) → upstream_repo
    if !has_upstream_repo {
        if let Some(val) = old_upstream_value {
            config.upstream_repo = Some(val);
            config.deprecated_keys.push((keys::UPSTREAM, keys::UPSTREAM_REPO));
        }
    }
    // Fall back: old jellycat.head_repo → origin_repo
    if !has_origin_repo {
        if let Some(val) = old_head_repo_value {
            config.origin_repo = Some(val);
            config.deprecated_keys.push((keys::HEAD_REPO, keys::ORIGIN_REPO));
        }
    }
    assert(key_pairs(config.deprecated_keys@) =~= spec_deprecated(e));
    Ok(config)
}

/// Loads the configuration from what `jj config list` printed: its
/// `jellycat.` entries, read as `load_from_entries` reads them.
pub fn load(config_list: &str) -> (r: Result<Config, crate::error::JcError>)
    ensures
        r is Ok,
        r->Ok_0.denotes(config_entries(lines(config_list@), Some("jellycat."@))),
{
    let entries = config_list_parsed(config_list, Some("jellycat."));
    load_from_entries(entries)
}

// ---------------------------------------------------------------------------
// Laws
// ---------------------------------------------------------------------------

proof fn lemma_last_where_push_other(
    e: Seq<(Seq<char>, Seq<char>)>,
    x: (Seq<char>, Seq<char>),
    kind: ConfigKey,
    keep: spec_fn(Seq<char>) -> bool,
)
    requires
        key_kind(x.0) != Some(kind),
    ensures
        last_where(e.push(x), kind, keep) == last_where(e, kind, keep),
{
    assert(e.push(x).drop_last() == e);
}

/// Unknown keys are ignored: an entry whose key the tool does not know
/// changes nothing of the configuration that the other entries denote.
pub proof fn law_unknown_keys_are_ignored(e: Seq<(Seq<char>, Seq<char>)>, key: Seq<char>, value: Seq<char>, c: Config)
    requires
        key_kind(key) is None,
    ensures
        c.denotes(e.push((key, value))) <==> c.denotes(e),
{
    let x = (key, value);
    lemma_last_where_push_other(e, x, ConfigKey::UpstreamRepo, any_value());
    lemma_last_where_push_other(e, x, ConfigKey::Upstream, has_slash());
    lemma_last_where_push_other(e, x, ConfigKey::Upstream, no_slash());
    lemma_last_where_push_other(e, x, ConfigKey::Origin, any_value());
    lemma_last_where_push_other(e, x, ConfigKey::OriginRepo, any_value());
    lemma_last_where_push_other(e, x, ConfigKey::HeadRepo, any_value());
    lemma_last_where_push_other(e, x, ConfigKey::GithubUser, any_value());
    lemma_last_where_push_other(e, x, ConfigKey::Draft, any_value());
    lemma_last_where_push_other(e, x, ConfigKey::BookmarkPrefix, any_value());
    lemma_last_where_push_other(e, x, ConfigKey::PrStore, any_value());
    lemma_last_where_push_other(e, x, ConfigKey::DefaultRevset, any_value());
    lemma_last_where_push_other(e, x, ConfigKey::PrTemplate, any_value());
}

/// The last value of a key wins: an entry added after the others sets its
/// key's field, whatever came before.
pub proof fn law_last_value_wins(e: Seq<(Seq<char>, Seq<char>)>, kind: ConfigKey, key: Seq<char>, value: Seq<char>)
    requires
        key_kind(key) == Some(kind),
    ensures
        last_value(e.push((key, value)), kind) == Some(value),
{
    assert(e.push((key, value)).last() == (key, value));
}

/// The new name of a key wins over its deprecated name: with
/// `jellycat.upstream_repo` present, the upstream repository is its value
/// and no deprecation is recorded for `jellycat.upstream`; likewise for
/// `jellycat.origin_repo` and `jellycat.head_repo`.
pub proof fn law_new_key_wins_over_deprecated(e: Seq<(Seq<char>, Seq<char>)>)
    ensures
        last_value(e, ConfigKey::UpstreamRepo) is Some ==> spec_upstream_repo(e) == last_value(e, ConfigKey::UpstreamRepo)
            && !spec_deprecated(e).contains((keys::UPSTREAM@, keys::UPSTREAM_REPO@)),
        last_value(e, ConfigKey::OriginRepo) is Some ==> spec_origin_repo(e) == last_value(e, ConfigKey::OriginRepo)
            && !spec_deprecated(e).contains((keys::HEAD_REPO@, keys::ORIGIN_REPO@)),
{
    reveal_strlit("jellycat.upstream");
    reveal_strlit("jellycat.head_repo");
    if last_value(e, ConfigKey::UpstreamRepo) is Some {
        let d = spec_deprecated(e);
        if d.contains((keys::UPSTREAM@, keys::UPSTREAM_REPO@)) {
            let i = choose|i: int| 0 <= i < d.len() && d[i] == (keys::UPSTREAM@, keys::UPSTREAM_REPO@);
            assert(d[i].0 == keys::HEAD_REPO@);
            assert(keys::UPSTREAM@.len() != keys::HEAD_REPO@.len());
        }
    }
    if last_value(e, ConfigKey::OriginRepo) is Some {
        let d = spec_deprecated(e);
        if d.contains((keys::HEAD_REPO@, keys::ORIGIN_REPO@)) {
            let i = choose|i: int| 0 <= i < d.len() && d[i] == (keys::HEAD_REPO@, keys::ORIGIN_REPO@);
            assert(d[i].0 == keys::UPSTREAM@);
            assert(keys::UPSTREAM@.len() != keys::HEAD_REPO@.len());
        }
    }
}

/// A deprecated key is read in place of its new name, and the fallback is
/// recorded: with only an old-style `jellycat.upstream` (`owner/repo`), the
/// upstream repository is its value and the pair (old, new) is the
/// deprecation recorded first.
pub proof fn law_deprecated_upstream_migrates(e: Seq<(Seq<char>, Seq<char>)>)
    requires
        last_value(e, ConfigKey::UpstreamRepo) is None,
        last_where(e, ConfigKey::Upstream, has_slash()) is Some,
    ensures
        spec_upstream_repo(e) == last_where(e, ConfigKey::Upstream, has_slash()),
        spec_deprecated(e).len() >= 1,
        spec_deprecated(e)[0] == (keys::UPSTREAM@, keys::UPSTREAM_REPO@),
{
}

/// New PRs are drafts exactly when the last `jellycat.draft` entry is the
/// text `true`: any other value, `false` among them, turns drafts off.
pub proof fn law_draft_only_when_true(e: Seq<(Seq<char>, Seq<char>)>, value: Seq<char>, c: Config)
    requires
        c.denotes(e.push(("jellycat.draft"@, value))),
    ensures
        c.draft <==> value == "true"@,
{
    reveal_strlit("jellycat.draft");
    reveal_strlit("jellycat.upstream_repo");
    reveal_strlit("jellycat.upstream");
    reveal_strlit("jellycat.origin");
    reveal_strlit("jellycat.origin_repo");
    reveal_strlit("jellycat.head_repo");
    reveal_strlit("jellycat.github_user");
    let k = "jellycat.draft"@;
    assert(k.len() != keys::UPSTREAM_REPO@.len());
    assert(k.len() != keys::UPSTREAM@.len());
    assert(k.len() != keys::ORIGIN@.len());
    assert(k.len() != keys::ORIGIN_REPO@.len());
    assert(k.len() != keys::HEAD_REPO@.len());
    assert(k.len() != keys::GITHUB_USER@.len());
    assert(k == keys::DRAFT@);
    assert(key_kind(k) == Some(ConfigKey::Draft));
    law_last_value_wins(e, ConfigKey::Draft, k, value);
}

/// The command that saves `key = value` in the repository's jj config.
pub fn save(repo_path: &str, key: &str, value: &str) -> (inv: Invocation)
    ensures
        inv.program@ == "jj"@,
        inv.argv() == seq!["-R"@, repo_path@, "--ignore-working-copy"@, "config"@, "set"@, "--repo"@, key@, value@],
{
    let jj = Jj::new(repo_path.to_owned());
    let inv = jj.config_set(key, value);
    assert(inv.argv() =~= seq!["-R"@, repo_path@, "--ignore-working-copy"@, "config"@, "set"@, "--repo"@, key@, value@]);
    inv
}

} // verus!
