//! PR ↔ change-id mappings: the map the tool keeps of them, and the two
//! backends that store them (`jellycat.prs.<change_id>` config entries, or
//! local `pr-<N>` bookmarks).
use vstd::prelude::*;
use crate::config::keys;
use crate::jj::{bookmark_entries, lemma_strs_push, pairs, unquote, Invocation, Jj};
use crate::text::{
    append, append_str, chars_of, dec, eq_chars, lines, lines_str, parse_u32, parse_u32_chars,
    render_u64, split_once, split_once_chars, starts_with, starts_with_chars, string_of,
    strip_prefix, strip_prefix_chars, sub_vec, trim, trim_chars, u32_to_string, views,
};

verus! {

/// Which backend stores PR ↔ change-id mappings.
#[derive(Debug, Clone, Copy, PartialEq, Eq, Structural)]
pub enum PrStoreType {
    Config,
    Bookmark,
}

impl Default for PrStoreType {
    fn default() -> (r: PrStoreType)
        ensures
            r == PrStoreType::Config,
    {
        PrStoreType::Config
    }
}

/// The map that `entries` denotes: each key to the number beside it.
pub open spec fn map_of(entries: Seq<(Seq<char>, u32)>) -> Map<Seq<char>, u32> {
    Map::new(
        |k: Seq<char>| exists|i: int| 0 <= i < entries.len() && #[trigger] entries[i].0 == k,
        |k: Seq<char>| entries[choose|i: int| 0 <= i < entries.len() && #[trigger] entries[i].0 == k].1,
    )
}

/// The character sequences of change id → PR number entries.
pub open spec fn entry_views(v: Seq<(String, u32)>) -> Seq<(Seq<char>, u32)> {
    v.map_values(|e: (String, u32)| (e.0@, e.1))
}

/// `entry_views` distributes over `push`.
pub proof fn lemma_entry_views_push(v: Seq<(String, u32)>, e: (String, u32))
    ensures
        entry_views(v.push(e)) == entry_views(v).push((e.0@, e.1)),
{
    assert(entry_views(v.push(e)) =~= entry_views(v).push((e.0@, e.1)));
}

/// No key occurs twice in `entries`.
pub open spec fn keys_distinct(entries: Seq<(Seq<char>, u32)>) -> bool {
    forall|i: int, j: int|
        0 <= i < entries.len() && 0 <= j < entries.len() && i != j ==> #[trigger] entries[i].0
            != #[trigger] entries[j].0
}

/// The change id → PR number mappings, in the order they were added; no
/// change id occurs twice.
#[derive(Debug)]
pub struct PrMap {
    entries: Vec<(String, u32)>,
}

impl PrMap {
    /// The entries as character sequences, in order.
    pub closed spec fn seq(&self) -> Seq<(Seq<char>, u32)> {
        entry_views(self.entries@)
    }

    #[verifier::type_invariant]
    closed spec fn wf(&self) -> bool {
        keys_distinct(self.seq())
    }

    /// The mappings as a map.
    pub closed spec fn map(&self) -> Map<Seq<char>, u32> {
        map_of(self.seq())
    }

    /// No mapping.
    pub fn new() -> (m: PrMap)
        ensures
            m.map() == Map::<Seq<char>, u32>::empty(),
            m.seq() == Seq::<(Seq<char>, u32)>::empty(),
    {
        let m = PrMap { entries: Vec::new() };
        assert(m.seq() =~= Seq::<(Seq<char>, u32)>::empty());
        assert(m.map() =~= Map::<Seq<char>, u32>::empty());
        m
    }

    /// The number of mappings.
    pub fn len(&self) -> (n: usize)
        ensures
            n == self.seq().len(),
            n == self.map().len(),
    {
        proof {
            use_type_invariant(self);
            lemma_map_of_len(self.seq());
        }
        self.entries.len()
    }

    /// There is no mapping.
    pub fn is_empty(&self) -> (b: bool)
        ensures
            b == (self.map() == Map::<Seq<char>, u32>::empty()),
            b == (self.seq().len() == 0),
    {
        proof {
            use_type_invariant(self);
            lemma_map_of_len(self.seq());
            if self.seq().len() > 0 {
                assert(self.map().contains_key(self.seq()[0].0));
            }
            assert(self.seq().len() == 0 ==> self.map() =~= Map::<Seq<char>, u32>::empty());
        }
        self.entries.len() == 0
    }

    fn index_of(&self, key: &[char]) -> (r: Option<usize>)
        ensures
            match r {
                Some(i) => i < self.seq().len() && self.seq()[i as int].0 == key@,
                None => forall|i: int| 0 <= i < self.seq().len() ==> #[trigger] self.seq()[i].0 != key@,
            },
    {
        let mut i: usize = 0;
        while i < self.entries.len()
            invariant
                i <= self.entries.len(),
                forall|j: int| 0 <= j < i ==> #[trigger] self.seq()[j].0 != key@,
            decreases self.entries.len() - i,
        {
            let k = chars_of(self.entries[i].0.as_str());
            assert(self.seq()[i as int].0 == self.entries@[i as int].0@);
            if eq_chars(k.as_slice(), key) {
                return Some(i);
            }
            i = i + 1;
        }
        None
    }

    /// The PR number of `key`, if it has one.
    pub fn get(&self, key: &str) -> (r: Option<u32>)
        ensures
            r == (if self.map().contains_key(key@) { Some(self.map()[key@]) } else { None }),
    {
        proof { use_type_invariant(self); }
        let k = chars_of(key);
        match self.index_of(k.as_slice()) {
            Some(i) => {
                proof { lemma_map_of_at(self.seq(), i as int); }
                Some(self.entries[i].1)
            },
            None => None,
        }
    }

    /// Maps `key` to `n`, replacing any number it had.
    pub fn insert(&mut self, key: String, n: u32)
        ensures
            final(self).map() == old(self).map().insert(key@, n),
    {
        proof { use_type_invariant(&*self); }
        let k = chars_of(key.as_str());
        let ghost old_seq = self.seq();
        match self.index_of(k.as_slice()) {
            Some(i) => {
                let mut entries: Vec<(String, u32)> = Vec::new();
                std::mem::swap(&mut entries, &mut self.entries);
                entries.set(i, (key, n));
                let ghost new_seq = entry_views(entries@);
                proof {
                    assert(new_seq =~= old_seq.update(i as int, (k@, n)));
                    lemma_map_of_update(old_seq, i as int, n);
                }
                self.entries = entries;
            },
            None => {
                let mut entries: Vec<(String, u32)> = Vec::new();
                std::mem::swap(&mut entries, &mut self.entries);
                entries.push((key, n));
                let ghost new_seq = entry_views(entries@);
                proof {
                    assert(new_seq =~= old_seq.push((k@, n)));
                    lemma_map_of_push(old_seq, k@, n);
                }
                self.entries = entries;
            },
        }
    }

    /// Removes the mapping of `key`, if there is one.
    pub fn remove(&mut self, key: &str)
        ensures
            final(self).map() == old(self).map().remove(key@),
    {
        proof { use_type_invariant(&*self); }
        let k = chars_of(key);
        let ghost old_seq = self.seq();
        match self.index_of(k.as_slice()) {
            Some(i) => {
                let mut entries: Vec<(String, u32)> = Vec::new();
                std::mem::swap(&mut entries, &mut self.entries);
                entries.remove(i);
                let ghost new_seq = entry_views(entries@);
                proof {
                    assert(new_seq =~= old_seq.remove(i as int));
                    lemma_map_of_remove(old_seq, i as int);
                }
                self.entries = entries;
            },
            None => {
                proof {
                    assert(!old_seq.map_values(|e: (Seq<char>, u32)| e.0).contains(key@));
                    assert(self.map() =~= self.map().remove(key@));
                }
            },
        }
    }

    /// The mappings, in order.
    pub fn entries(&self) -> (r: Vec<(String, u32)>)
        ensures
            entry_views(r@) == self.seq(),
            keys_distinct(self.seq()),
            map_of(self.seq()) == self.map(),
    {
        proof { use_type_invariant(self); }
        let mut out: Vec<(String, u32)> = Vec::new();
        let mut i: usize = 0;
        while i < self.entries.len()
            invariant
                i <= self.entries.len(),
                entry_views(out@) == self.seq().take(i as int),
            decreases self.entries.len() - i,
        {
            let e = (self.entries[i].0.clone(), self.entries[i].1);
            assert(self.seq()[i as int] == (e.0@, e.1));
            proof { lemma_entry_views_push(out@, e); }
            out.push(e);
            assert(self.seq().take(i + 1) =~= self.seq().take(i as int).push(self.seq()[i as int]));
            i = i + 1;
        }
        assert(self.seq().take(self.entries.len() as int) =~= self.seq());
        out
    }

    /// The change id that maps to `pr_number`, if any does.
    pub fn find_by_pr(&self, pr_number: u32) -> (r: Option<String>)
        ensures
            r is None <==> (forall|k: Seq<char>| #[trigger] self.map().contains_key(k) ==> self.map()[k] != pr_number),
            r matches Some(k) ==> self.map().contains_key(k@) && self.map()[k@] == pr_number,
    {
        proof { use_type_invariant(self); }
        let mut i: usize = 0;
        while i < self.entries.len()
            invariant
                i <= self.entries.len(),
                keys_distinct(self.seq()),
                forall|j: int| 0 <= j < i ==> #[trigger] self.seq()[j].1 != pr_number,
            decreases self.entries.len() - i,
        {
            if self.entries[i].1 == pr_number {
                proof {
                    lemma_map_of_at(self.seq(), i as int);
                    assert(self.seq()[i as int].0 == self.entries@[i as int].0@);
                    assert(self.map().contains_key(self.seq()[i as int].0));
                }
                return Some(self.entries[i].0.clone());
            }
            i = i + 1;
        }
        proof {
            assert forall|k: Seq<char>| #[trigger] self.map().contains_key(k) implies self.map()[k] != pr_number by {
                let j = choose|j: int| 0 <= j < self.seq().len() && #[trigger] self.seq()[j].0 == k;
                lemma_map_of_at(self.seq(), j);
            }
        }
        None
    }
}

/// The value of the entry at `i` is what the map gives its key.
pub proof fn lemma_map_of_at(s: Seq<(Seq<char>, u32)>, i: int)
    requires
        keys_distinct(s),
        0 <= i < s.len(),
    ensures
        map_of(s).contains_key(s[i].0),
        map_of(s)[s[i].0] == s[i].1,
{
    assert(s[i].0 == s[i].0);
    let j = choose|j: int| 0 <= j < s.len() && #[trigger] s[j].0 == s[i].0;
    assert(j == i);
}

proof fn lemma_map_of_len(s: Seq<(Seq<char>, u32)>)
    requires
        keys_distinct(s),
    ensures
        map_of(s).len() == s.len(),
        map_of(s).dom().finite(),
    decreases s.len(),
{
    let m = map_of(s);
    if s.len() == 0 {
        assert(m.dom() =~= Set::<Seq<char>>::empty());
    } else {
        let t = s.drop_last();
        assert(keys_distinct(t)) by {
            assert forall|i: int, j: int| 0 <= i < t.len() && 0 <= j < t.len() && i != j implies #[trigger] t[i].0 != #[trigger] t[j].0 by {
                assert(t[i] == s[i] && t[j] == s[j]);
            }
        }
        lemma_map_of_len(t);
        assert(m.dom() =~= map_of(t).dom().insert(s.last().0)) by {
            assert forall|k: Seq<char>| m.dom().contains(k) implies #[trigger] map_of(t).dom().insert(s.last().0).contains(k) by {
                let i = choose|i: int| 0 <= i < s.len() && #[trigger] s[i].0 == k;
                if i < s.len() - 1 {
                    assert(t[i].0 == k);
                }
            }
            assert forall|k: Seq<char>| #[trigger] map_of(t).dom().insert(s.last().0).contains(k) implies m.dom().contains(k) by {
                if k == s.last().0 {
                    assert(s[s.len() - 1].0 == k);
                } else {
                    let i = choose|i: int| 0 <= i < t.len() && #[trigger] t[i].0 == k;
                    assert(s[i].0 == k);
                }
            }
        }
        assert(!map_of(t).dom().contains(s.last().0)) by {
            if map_of(t).dom().contains(s.last().0) {
                let i = choose|i: int| 0 <= i < t.len() && #[trigger] t[i].0 == s.last().0;
                assert(s[i].0 == s[s.len() - 1].0);
            }
        }
    }
}

proof fn lemma_map_of_update(s: Seq<(Seq<char>, u32)>, i: int, n: u32)
    requires
        keys_distinct(s),
        0 <= i < s.len(),
    ensures
        keys_distinct(s.update(i, (s[i].0, n))),
        map_of(s.update(i, (s[i].0, n))) == map_of(s).insert(s[i].0, n),
{
    let t = s.update(i, (s[i].0, n));
    assert forall|a: int, b: int| 0 <= a < t.len() && 0 <= b < t.len() && a != b implies #[trigger] t[a].0 != #[trigger] t[b].0 by {
        assert(t[a].0 == s[a].0 && t[b].0 == s[b].0);
    }
    assert forall|k: Seq<char>| #[trigger] map_of(t).contains_key(k) <==> map_of(s).insert(s[i].0, n).contains_key(k) by {
        if map_of(s).contains_key(k) {
            let j = choose|j: int| 0 <= j < s.len() && #[trigger] s[j].0 == k;
            assert(t[j].0 == k);
        }
        if map_of(t).contains_key(k) {
            let j = choose|j: int| 0 <= j < t.len() && #[trigger] t[j].0 == k;
            assert(s[j].0 == k);
        }
        assert(t[i].0 == s[i].0);
    }
    assert forall|k: Seq<char>| #[trigger] map_of(t).contains_key(k) implies map_of(t)[k] == map_of(s).insert(s[i].0, n)[k] by {
        let j = choose|j: int| 0 <= j < t.len() && #[trigger] t[j].0 == k;
        lemma_map_of_at(t, j);
        if j != i {
            assert(s[j].0 == k);
            lemma_map_of_at(s, j);
        }
    }
    assert(map_of(t) =~= map_of(s).insert(s[i].0, n));
}

proof fn lemma_map_of_push(s: Seq<(Seq<char>, u32)>, k: Seq<char>, n: u32)
    requires
        keys_distinct(s),
        forall|i: int| 0 <= i < s.len() ==> #[trigger] s[i].0 != k,
    ensures
        keys_distinct(s.push((k, n))),
        map_of(s.push((k, n))) == map_of(s).insert(k, n),
{
    let t = s.push((k, n));
    assert forall|a: int, b: int| 0 <= a < t.len() && 0 <= b < t.len() && a != b implies #[trigger] t[a].0 != #[trigger] t[b].0 by {
        if a < s.len() {
            assert(t[a] == s[a]);
        }
        if b < s.len() {
            assert(t[b] == s[b]);
        }
    }
    assert forall|x: Seq<char>| #[trigger] map_of(t).contains_key(x) <==> map_of(s).insert(k, n).contains_key(x) by {
        if map_of(s).contains_key(x) {
            let j = choose|j: int| 0 <= j < s.len() && #[trigger] s[j].0 == x;
            assert(t[j].0 == x);
        }
        if map_of(t).contains_key(x) && x != k {
            let j = choose|j: int| 0 <= j < t.len() && #[trigger] t[j].0 == x;
            assert(s[j].0 == x);
        }
        assert(t[s.len() as int].0 == k);
    }
    assert forall|x: Seq<char>| #[trigger] map_of(t).contains_key(x) implies map_of(t)[x] == map_of(s).insert(k, n)[x] by {
        let j = choose|j: int| 0 <= j < t.len() && #[trigger] t[j].0 == x;
        lemma_map_of_at(t, j);
        if j < s.len() {
            assert(s[j] == t[j]);
            lemma_map_of_at(s, j);
        }
    }
    assert(map_of(t) =~= map_of(s).insert(k, n));
}

proof fn lemma_map_of_remove(s: Seq<(Seq<char>, u32)>, i: int)
    requires
        keys_distinct(s),
        0 <= i < s.len(),
    ensures
        keys_distinct(s.remove(i)),
        map_of(s.remove(i)) == map_of(s).remove(s[i].0),
{
    let t = s.remove(i);
    assert forall|a: int, b: int| 0 <= a < t.len() && 0 <= b < t.len() && a != b implies #[trigger] t[a].0 != #[trigger] t[b].0 by {
        let a2 = if a < i { a } else { a + 1 };
        let b2 = if b < i { b } else { b + 1 };
        assert(t[a] == s[a2] && t[b] == s[b2]);
    }
    assert forall|x: Seq<char>| #[trigger] map_of(t).contains_key(x) <==> map_of(s).remove(s[i].0).contains_key(x) by {
        if map_of(s).contains_key(x) && x != s[i].0 {
            let j = choose|j: int| 0 <= j < s.len() && #[trigger] s[j].0 == x;
            let j2 = if j < i { j } else { j - 1 };
            assert(t[j2] == s[j]);
        }
        if map_of(t).contains_key(x) {
            let j = choose|j: int| 0 <= j < t.len() && #[trigger] t[j].0 == x;
            let j2 = if j < i { j } else { j + 1 };
            assert(s[j2] == t[j]);
        }
    }
    assert forall|x: Seq<char>| #[trigger] map_of(t).contains_key(x) implies map_of(t)[x] == map_of(s).remove(s[i].0)[x] by {
        let j = choose|j: int| 0 <= j < t.len() && #[trigger] t[j].0 == x;
        lemma_map_of_at(t, j);
        let j2 = if j < i { j } else { j + 1 };
        assert(s[j2] == t[j]);
        lemma_map_of_at(s, j2);
    }
    assert(map_of(t) =~= map_of(s).remove(s[i].0));
}

// ---------------------------------------------------------------------------
// ConfigPrStore — mappings as `jellycat.prs.<change_id> = <num>`
// ---------------------------------------------------------------------------

/// The mapping that one line of `jj config list` holds, if it holds one: a
/// `jellycat.prs.<change_id>` key whose (unquoted) value is a `u32`.
pub open spec fn config_pr_entry(line: Seq<char>) -> Option<(Seq<char>, u32)> {
    match split_once(line, '=') {
        None => None,
        Some((k, v)) => match strip_prefix(trim(k), keys::PRS_PREFIX@) {
            None => None,
            Some(change_id) => match parse_u32(unquote(trim(v))) {
                Some(n) => Some((change_id, n)),
                None => None,
            },
        },
    }
}

/// The mappings that the lines of `jj config list` hold; a later line
/// overrides an earlier one for the same change id.
pub open spec fn config_prs(ls: Seq<Seq<char>>) -> Map<Seq<char>, u32>
    decreases ls.len(),
{
    if ls.len() == 0 {
        Map::empty()
    } else {
        match config_pr_entry(ls.last()) {
            Some((c, n)) => config_prs(ls.drop_last()).insert(c, n),
            None => config_prs(ls.drop_last()),
        }
    }
}

/// The config key that maps `change_id`.
pub open spec fn prs_key(change_id: Seq<char>) -> Seq<char> {
    keys::PRS_PREFIX@ + change_id
}

/// The line `jj config list` prints for the mapping `change_id → n`.
pub open spec fn config_pr_line(change_id: Seq<char>, n: u32) -> Seq<char> {
    prs_key(change_id) + " = "@ + dec(n as nat)
}

/// The PR that the mappings `prs` give `change_id`, if any.
pub open spec fn pr_of(prs: Map<Seq<char>, u32>, change_id: Seq<char>) -> Option<u32> {
    if prs.contains_key(change_id) {
        Some(prs[change_id])
    } else {
        None
    }
}

/// The PR of each of the commits `change_ids`, in order; `jc publish` and
/// `jc pull` skip the commits that have none and work on the PRs of the
/// others.
pub fn linked_prs(prs: &PrMap, change_ids: &Vec<String>) -> (r: Vec<Option<u32>>)
    ensures
        r@.len() == change_ids@.len(),
        forall|i: int| 0 <= i < change_ids@.len() ==> #[trigger] r@[i] == pr_of(prs.map(), change_ids@[i]@),
{
    let mut out: Vec<Option<u32>> = Vec::new();
    let mut i: usize = 0;
    while i < change_ids.len()
        invariant
            i <= change_ids.len(),
            out@.len() == i,
            forall|j: int| 0 <= j < i ==> #[trigger] out@[j] == pr_of(prs.map(), change_ids@[j]@),
        decreases change_ids.len() - i,
    {
        out.push(prs.get(change_ids[i].as_str()));
        i = i + 1;
    }
    out
}

/// Stores mappings as `jellycat.prs.<change_id> = <num>` config entries.
pub struct ConfigPrStore {
    pub jj: Jj,
}

impl ConfigPrStore {
    /// The command whose output `list` reads.
    pub fn list_command(&self) -> (inv: Invocation)
        ensures
            inv.program@ == "jj"@,
            inv.argv() == self.jj.base() + seq!["config"@, "list"@],
    {
        self.jj.config_list()
    }

    /// The mappings that `jj config list` printed.
    pub fn list(&self, config_list: &str) -> (m: PrMap)
        ensures
            m.map() == config_prs(lines(config_list@)),
    {
        let ls = lines_str(config_list);
        let prefix = chars_of(keys::PRS_PREFIX);
        let mut m = PrMap::new();
        let mut i: usize = 0;
        while i < ls.len()
            invariant
                i <= ls.len(),
                views(ls@) == lines(config_list@),
                prefix@ == keys::PRS_PREFIX@,
                m.map() == config_prs(views(ls@).take(i as int)),
            decreases ls.len() - i,
        {
            assert(views(ls@).take(i + 1).drop_last() == views(ls@).take(i as int));
            assert(views(ls@).take(i + 1).last() == ls@[i as int]@);
            match config_pr_entry_exec(ls[i].as_slice(), prefix.as_slice()) {
                Some((c, n)) => {
                    m.insert(c, n);
                },
                None => {},
            }
            i = i + 1;
        }
        assert(views(ls@).take(ls.len() as int) == views(ls@));
        m
    }

    /// The command that maps `change_id` to `pr_number`.
    pub fn set(&self, change_id: &str, pr_number: u32) -> (inv: Invocation)
        ensures
            inv.program@ == "jj"@,
            inv.argv() == self.jj.base() + seq!["config"@, "set"@, "--repo"@, prs_key(change_id@), dec(pr_number as nat)],
    {
        let key = prs_key_exec(change_id);
        let value = u32_to_string(pr_number);
        self.jj.config_set(key.as_str(), value.as_str())
    }

    /// The command that removes the mapping of `change_id`.
    pub fn unset(&self, change_id: &str) -> (inv: Invocation)
        ensures
            inv.program@ == "jj"@,
            inv.argv() == self.jj.base() + seq!["config"@, "unset"@, "--repo"@, prs_key(change_id@)],
    {
        let key = prs_key_exec(change_id);
        self.jj.config_unset(key.as_str())
    }
}

/// The config key that maps `change_id`.
pub fn prs_key_exec(change_id: &str) -> (r: String)
    ensures
        r@ == prs_key(change_id@),
{
    let mut v = chars_of(keys::PRS_PREFIX);
    append_str(&mut v, change_id);
    string_of(v.as_slice())
}

fn config_pr_entry_exec(line: &[char], prefix: &[char]) -> (r: Option<(String, u32)>)
    requires
        prefix@ == keys::PRS_PREFIX@,
    ensures
        r is Some == config_pr_entry(line@) is Some,
        r matches Some(e) ==> config_pr_entry(line@) == Some((e.0@, e.1)),
{
    match split_once_chars(line, '=') {
        None => None,
        Some((k, v)) => {
            let key = trim_chars(k.as_slice());
            match strip_prefix_chars(key.as_slice(), prefix) {
                None => None,
                Some(cid) => {
                    let val = trim_chars(v.as_slice());
                    let uq = if val.len() >= 2 && val[0] == '"' && val[val.len() - 1] == '"' {
                        sub_vec(val.as_slice(), 1, val.len() - 1)
                    } else {
                        val
                    };
                    match parse_u32_chars(uq.as_slice()) {
                        Some(n) => Some((string_of(cid.as_slice()), n)),
                        None => None,
                    }
                },
            }
        },
    }
}

// ---------------------------------------------------------------------------
// BookmarkPrStore — mappings as local `pr-<NUM>` bookmarks
// ---------------------------------------------------------------------------

/// The name of the bookmark that records PR `n`.
pub open spec fn pr_bookmark_name(n: u32) -> Seq<char> {
    "pr-"@ + dec(n as nat)
}

/// The mappings that a bookmark listing (`(name, change_id)` pairs) holds:
/// each `pr-<N>` bookmark maps the change it points at to `N`; a later one
/// overrides an earlier one for the same change.
pub open spec fn bookmark_prs(bs: Seq<(Seq<char>, Seq<char>)>) -> Map<Seq<char>, u32>
    decreases bs.len(),
{
    if bs.len() == 0 {
        Map::empty()
    } else {
        let (name, change_id) = bs.last();
        match strip_prefix(name, "pr-"@) {
            Some(num) => match parse_u32(num) {
                Some(n) => bookmark_prs(bs.drop_last()).insert(change_id, n),
                None => bookmark_prs(bs.drop_last()),
            },
            None => bookmark_prs(bs.drop_last()),
        }
    }
}

/// The first `pr-*` bookmark that points at `change_id`.
pub open spec fn bookmark_of_change(bs: Seq<(Seq<char>, Seq<char>)>, change_id: Seq<char>, i: int) -> Option<Seq<char>>
    decreases bs.len() - i,
{
    if i < 0 || i >= bs.len() {
        None
    } else if bs[i].1 == change_id && starts_with(bs[i].0, "pr-"@) {
        Some(bs[i].0)
    } else {
        bookmark_of_change(bs, change_id, i + 1)
    }
}

/// The change that the first bookmark named `name` points at.
pub open spec fn change_of_bookmark(bs: Seq<(Seq<char>, Seq<char>)>, name: Seq<char>, i: int) -> Option<Seq<char>>
    decreases bs.len() - i,
{
    if i < 0 || i >= bs.len() {
        None
    } else if bs[i].0 == name {
        Some(bs[i].1)
    } else {
        change_of_bookmark(bs, name, i + 1)
    }
}

/// Stores mappings as local `pr-<NUM>` bookmarks.
pub struct BookmarkPrStore {
    pub jj: Jj,
}

impl BookmarkPrStore {
    /// The command whose output `list`, `unset` and `find_by_pr` read.
    pub fn list_command(&self) -> (inv: Invocation)
        ensures
            inv.program@ == "jj"@,
            inv.argv() == self.jj.base() + seq!["bookmark"@, "list"@, "--template"@, crate::jj::bookmark_template(), "pr-*"@],
    {
        self.jj.bookmark_list(Some("pr-*"))
    }

    /// The mappings that the bookmark listing holds.
    pub fn list(&self, bookmarks: &Vec<(String, String)>) -> (m: PrMap)
        ensures
            m.map() == bookmark_prs(pairs(bookmarks@)),
    {
        let pr = chars_of("pr-");
        let mut m = PrMap::new();
        let mut i: usize = 0;
        while i < bookmarks.len()
            invariant
                i <= bookmarks.len(),
                pr@ == "pr-"@,
                m.map() == bookmark_prs(pairs(bookmarks@).take(i as int)),
            decreases bookmarks.len() - i,
        {
            let ghost bs = pairs(bookmarks@);
            assert(bs.take(i + 1).drop_last() == bs.take(i as int));
            assert(bs.take(i + 1).last() == (bookmarks@[i as int].0@, bookmarks@[i as int].1@));
            let name = chars_of(bookmarks[i].0.as_str());
            match strip_prefix_chars(name.as_slice(), pr.as_slice()) {
                Some(num) => match parse_u32_chars(num.as_slice()) {
                    Some(n) => {
                        m.insert(bookmarks[i].1.clone(), n);
                    },
                    None => {},
                },
                None => {},
            }
            i = i + 1;
        }
        assert(pairs(bookmarks@).take(bookmarks.len() as int) == pairs(bookmarks@));
        m
    }

    /// The command that maps `change_id` to `pr_number`: points bookmark
    /// `pr-<N>` at the change.
    pub fn set(&self, change_id: &str, pr_number: u32) -> (inv: Invocation)
        ensures
            inv.program@ == "jj"@,
            inv.argv() == self.jj.base() + seq!["bookmark"@, "set"@, pr_bookmark_name(pr_number), "-r"@, change_id@],
    {
        let name = pr_bookmark_name_exec(pr_number);
        self.jj.bookmark_set(name.as_str(), change_id)
    }

    /// The command that removes the mapping of `change_id`: deletes the
    /// first `pr-*` bookmark that points at it; nothing when none does.
    pub fn unset(&self, bookmarks: &Vec<(String, String)>, change_id: &str) -> (r: Option<Invocation>)
        ensures
            r is Some == bookmark_of_change(pairs(bookmarks@), change_id@, 0) is Some,
            r matches Some(inv) ==> inv.program@ == "jj"@ && inv.argv() == self.jj.base() + seq![
                "bookmark"@,
                "delete"@,
                bookmark_of_change(pairs(bookmarks@), change_id@, 0)->0,
            ],
    {
        let cid = chars_of(change_id);
        let pr = chars_of("pr-");
        let mut i: usize = 0;
        while i < bookmarks.len()
            invariant
                i <= bookmarks.len(),
                cid@ == change_id@,
                pr@ == "pr-"@,
                bookmark_of_change(pairs(bookmarks@), change_id@, 0) == bookmark_of_change(pairs(bookmarks@), change_id@, i as int),
            decreases bookmarks.len() - i,
        {
            let c = chars_of(bookmarks[i].1.as_str());
            let n = chars_of(bookmarks[i].0.as_str());
            assert(pairs(bookmarks@)[i as int] == (n@, c@));
            if eq_chars(c.as_slice(), cid.as_slice()) && starts_with_chars(n.as_slice(), pr.as_slice()) {
                return Some(self.jj.bookmark_delete(bookmarks[i].0.as_str()));
            }
            i = i + 1;
        }
        None
    }

    /// The change that PR `pr_number` is mapped from: the one that bookmark
    /// `pr-<N>` points at.
    pub fn find_by_pr(&self, bookmarks: &Vec<(String, String)>, pr_number: u32) -> (r: Option<String>)
        ensures
            r is Some == change_of_bookmark(pairs(bookmarks@), pr_bookmark_name(pr_number), 0) is Some,
            r matches Some(c) ==> c@ == change_of_bookmark(pairs(bookmarks@), pr_bookmark_name(pr_number), 0)->0,
    {
        let name = pr_bookmark_name_exec(pr_number);
        let nc = chars_of(name.as_str());
        let mut i: usize = 0;
        while i < bookmarks.len()
            invariant
                i <= bookmarks.len(),
                nc@ == pr_bookmark_name(pr_number),
                change_of_bookmark(pairs(bookmarks@), nc@, 0) == change_of_bookmark(pairs(bookmarks@), nc@, i as int),
            decreases bookmarks.len() - i,
        {
            let n = chars_of(bookmarks[i].0.as_str());
            assert(pairs(bookmarks@)[i as int].0 == n@);
            if eq_chars(n.as_slice(), nc.as_slice()) {
                assert(pairs(bookmarks@)[i as int].1 == bookmarks@[i as int].1@);
                return Some(bookmarks[i].1.clone());
            }
            i = i + 1;
        }
        None
    }
}

/// The name of the bookmark that records PR `n`.
pub fn pr_bookmark_name_exec(n: u32) -> (r: String)
    ensures
        r@ == pr_bookmark_name(n),
{
    let mut v = chars_of("pr-");
    let d = render_u64(n as u64);
    append(&mut v, d.as_slice());
    string_of(v.as_slice())
}

// ---------------------------------------------------------------------------
// Laws
// ---------------------------------------------------------------------------

/// With the bookmark backend, a read gives back what `set` wrote: after the
/// bookmark `pr-<N>` that `set` points at a change is listed, that change
/// maps to `N`.
pub proof fn law_bookmark_store_reads_back_set(bs: Seq<(Seq<char>, Seq<char>)>, change_id: Seq<char>, n: u32)
    ensures
        bookmark_prs(bs.push((pr_bookmark_name(n), change_id))) == bookmark_prs(bs).insert(change_id, n),
{
    let name = pr_bookmark_name(n);
    reveal_strlit("pr-");
    assert(starts_with(name, "pr-"@)) by {
        assert(name.take(3) =~= "pr-"@);
    }
    assert(name.skip(3) =~= dec(n as nat));
    crate::text::lemma_parse_dec_u32(n);
    assert(bs.push((name, change_id)).drop_last() == bs);
}

/// With the bookmark backend, the change that `set` pointed `pr-<N>` at is
/// the one `find_by_pr(N)` finds, when no earlier bookmark has that name.
pub proof fn law_bookmark_store_finds_set(bs: Seq<(Seq<char>, Seq<char>)>, change_id: Seq<char>, n: u32)
    requires
        forall|i: int| 0 <= i < bs.len() ==> #[trigger] bs[i].0 != pr_bookmark_name(n),
    ensures
        change_of_bookmark(bs.push((pr_bookmark_name(n), change_id)), pr_bookmark_name(n), 0) == Some(change_id),
{
    lemma_change_of_bookmark_push(bs, pr_bookmark_name(n), change_id, 0);
}

proof fn lemma_change_of_bookmark_push(bs: Seq<(Seq<char>, Seq<char>)>, name: Seq<char>, c: Seq<char>, i: int)
    requires
        0 <= i <= bs.len(),
        forall|k: int| 0 <= k < bs.len() ==> #[trigger] bs[k].0 != name,
    ensures
        change_of_bookmark(bs.push((name, c)), name, i) == Some(c),
    decreases bs.len() - i,
{
    let t = bs.push((name, c));
    if i < bs.len() {
        assert(t[i] == bs[i]);
        lemma_change_of_bookmark_push(bs, name, c, i + 1);
    } else {
        assert(t[i] == (name, c));
    }
}

/// With the config backend, a read gives back what `set` wrote: once
/// `jj config list` prints the entry `jellycat.prs.<change_id> = <N>`, the
/// change maps to `N`, whatever the lines before it. The change id is a jj
/// change id: non-empty, without `=` and without surrounding whitespace.
pub proof fn law_config_store_reads_back_set(ls: Seq<Seq<char>>, change_id: Seq<char>, n: u32)
    requires
        change_id.len() > 0,
        crate::text::find(change_id, '=') == -1,
        !crate::text::is_ws(change_id.last()),
    ensures
        config_prs(ls.push(config_pr_line(change_id, n))) == config_prs(ls).insert(change_id, n),
{
    let line = config_pr_line(change_id, n);
    lemma_config_pr_line_entry(change_id, n);
    assert(ls.push(line).drop_last() == ls);
    assert(ls.push(line).last() == line);
}

proof fn lemma_config_pr_line_entry(change_id: Seq<char>, n: u32)
    requires
        change_id.len() > 0,
        crate::text::find(change_id, '=') == -1,
        !crate::text::is_ws(change_id.last()),
    ensures
        config_pr_entry(config_pr_line(change_id, n)) == Some((change_id, n)),
{
    let pre = keys::PRS_PREFIX@;
    reveal_strlit("jellycat.prs.");
    reveal_strlit(" = ");
    reveal_strlit(" ");
    assert(pre == "jellycat.prs."@);
    assert(pre.len() == 13);
    let key = pre + change_id;
    let d = dec(n as nat);
    let line = key + " = "@ + d;
    crate::text::lemma_dec_digits(n as nat);
    crate::text::lemma_find_from_bounds(change_id, '=', 0);
    // The first '=' of the line is the one after the key.
    let k: int = key.len() as int + 1;
    assert(line[k] == '=');
    assert forall|j: int| 0 <= j < k implies #[trigger] line[j] != '=' by {
        if j < pre.len() {
            assert(line[j] == pre[j]);
        } else if j < key.len() {
            assert(line[j] == change_id[j - pre.len()]);
        } else {
            assert(line[j] == ' ');
        }
    }
    lemma_find_first(line, '=', k, 0);
    assert(line.take(k) =~= key + " "@);
    assert(line.skip(k + 1) =~= " "@ + d);
    // Trimming the two sides gives the key and the number.
    let sp = " "@;
    assert(sp[0] == ' ');
    assert(crate::text::is_ws(' '));
    lemma_trim_key(pre, change_id);
    assert(trim(d) == d) by {
        lemma_trim_of_digits(d);
    }
    crate::text::lemma_trim_after_ws(sp, d);
    assert(strip_prefix(key, pre) == Some(change_id)) by {
        assert(key.take(pre.len() as int) =~= pre);
        assert(key.skip(pre.len() as int) =~= change_id);
    }
    assert(d[0] != '"');
    assert(unquote(d) == d);
    crate::text::lemma_parse_dec_u32(n);
}

proof fn lemma_find_first(s: Seq<char>, c: char, k: int, i: int)
    requires
        0 <= i <= k < s.len(),
        s[k] == c,
        forall|j: int| 0 <= j < k ==> #[trigger] s[j] != c,
    ensures
        crate::text::find_from(s, c, i) == k,
    decreases k - i,
{
    if i < k {
        lemma_find_first(s, c, k, i + 1);
    }
}

proof fn lemma_trim_key(pre: Seq<char>, change_id: Seq<char>)
    requires
        pre == "jellycat.prs."@,
        change_id.len() > 0,
        !crate::text::is_ws(change_id.last()),
    ensures
        trim(pre + change_id + " "@) == pre + change_id,
{
    reveal_strlit("jellycat.prs.");
    reveal_strlit(" ");
    let key = pre + change_id;
    let s = key + " "@;
    assert(!crate::text::is_ws(s[0]));
    assert(crate::text::non_ws_from(s, 0) == 0);
    assert(s[s.len() - 1] == ' ');
    assert(s[s.len() - 2] == change_id.last());
    assert(crate::text::non_ws_until(s, s.len() - 1) == s.len() - 1);
    assert(crate::text::non_ws_until(s, s.len() as int) == s.len() - 1);
    assert(s.subrange(0, s.len() - 1) =~= key);
}

proof fn lemma_trim_of_digits(d: Seq<char>)
    requires
        d.len() > 0,
        crate::text::all_digits(d),
    ensures
        trim(d) == d,
{
    assert(crate::text::is_digit(d[0]));
    assert(crate::text::is_digit(d[d.len() - 1]));
    assert(crate::text::non_ws_from(d, 0) == 0);
    assert(crate::text::non_ws_until(d, d.len() as int) == d.len());
    assert(d.subrange(0, d.len() as int) == d);
}

} // verus!
