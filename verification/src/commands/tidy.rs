//! `jc tidy`: forgets the PRs of abandoned changes, and abandons the
//! changes of merged or closed PRs.
use vstd::prelude::*;
use crate::pr_store::entry_views;
use crate::text::{append_str, chars_of, eq_str, string_of};

verus! {

/// The arguments of `jc tidy`.
#[derive(Debug)]
pub struct TidyArgs {}

/// The revset that names each of the change ids: `a | b | ...`.
pub open spec fn union_revset(ids: Seq<Seq<char>>) -> Seq<char> {
    crate::gh::join(ids, " | "@)
}

/// The revset that names each tracked change.
pub fn tracked_revset(change_ids: &Vec<String>) -> (r: String)
    ensures
        r@ == union_revset(crate::jj::strs(change_ids@)),
{
    let mut out: Vec<char> = Vec::new();
    let mut i: usize = 0;
    while i < change_ids.len()
        invariant
            i <= change_ids.len(),
            out@ == crate::gh::join(crate::jj::strs(change_ids@).take(i as int), " | "@),
        decreases change_ids.len() - i,
    {
        let ghost ids = crate::jj::strs(change_ids@);
        assert(ids.take(i + 1).drop_last() == ids.take(i as int));
        assert(ids.take(i + 1).last() == change_ids@[i as int]@);
        if i > 0 {
            append_str(&mut out, " | ");
        }
        append_str(&mut out, change_ids[i].as_str());
        proof {
            if i == 0 {
                assert(out@ =~= ids.take(1)[0]);
            }
        }
        i = i + 1;
    }
    assert(crate::jj::strs(change_ids@).take(change_ids.len() as int) == crate::jj::strs(change_ids@));
    string_of(out.as_slice())
}

/// `id` is among `ids`.
pub fn contains_id(ids: &Vec<String>, id: &str) -> (r: bool)
    ensures
        r == crate::jj::strs(ids@).contains(id@),
{
    let c = chars_of(id);
    let mut i: usize = 0;
    while i < ids.len()
        invariant
            i <= ids.len(),
            c@ == id@,
            forall|j: int| 0 <= j < i ==> #[trigger] ids@[j]@ != id@,
        decreases ids.len() - i,
    {
        if eq_str(c.as_slice(), ids[i].as_str()) {
            assert(crate::jj::strs(ids@)[i as int] == id@);
            return true;
        }
        i = i + 1;
    }
    assert forall|j: int| 0 <= j < ids@.len() implies #[trigger] crate::jj::strs(ids@)[j] != id@ by {
        assert(crate::jj::strs(ids@)[j] == ids@[j]@);
    }
    false
}

/// The tracked entries whose change is (`keep`) or is not (`!keep`) among
/// `existing`, in order.
pub open spec fn entries_where(e: Seq<(Seq<char>, u32)>, existing: Seq<Seq<char>>, keep: bool) -> Seq<(Seq<char>, u32)>
    decreases e.len(),
{
    if e.len() == 0 {
        Seq::empty()
    } else {
        entries_where(e.drop_last(), existing, keep) + if existing.contains(e.last().0) == keep {
            seq![e.last()]
        } else {
            Seq::empty()
        }
    }
}

/// Splits the tracked entries into those whose change no longer exists
/// (abandoned) and those whose change still does (live), each in order.
pub fn split_tracked(entries: &Vec<(String, u32)>, existing: &Vec<String>) -> (r: (Vec<(String, u32)>, Vec<(String, u32)>))
    ensures
        entry_views(r.0@) == entries_where(entry_views(entries@), crate::jj::strs(existing@), false),
        entry_views(r.1@) == entries_where(entry_views(entries@), crate::jj::strs(existing@), true),
{
    let mut abandoned: Vec<(String, u32)> = Vec::new();
    let mut live: Vec<(String, u32)> = Vec::new();
    let mut i: usize = 0;
    while i < entries.len()
        invariant
            i <= entries.len(),
            entry_views(abandoned@) == entries_where(entry_views(entries@).take(i as int), crate::jj::strs(existing@), false),
            entry_views(live@) == entries_where(entry_views(entries@).take(i as int), crate::jj::strs(existing@), true),
        decreases entries.len() - i,
    {
        let ghost ev = entry_views(entries@);
        let ghost ex = crate::jj::strs(existing@);
        assert(ev.take(i + 1).drop_last() == ev.take(i as int));
        assert(ev.take(i + 1).last() == (entries@[i as int].0@, entries@[i as int].1));
        let e = (entries[i].0.clone(), entries[i].1);
        let ghost ab0 = abandoned@;
        let ghost lv0 = live@;
        if contains_id(existing, entries[i].0.as_str()) {
            live.push(e);
            proof { crate::pr_store::lemma_entry_views_push(lv0, e); }
            assert(entry_views(abandoned@) =~= entries_where(ev.take(i + 1), ex, false));
        } else {
            abandoned.push(e);
            proof { crate::pr_store::lemma_entry_views_push(ab0, e); }
            assert(entry_views(live@) =~= entries_where(ev.take(i + 1), ex, true));
        }
        i = i + 1;
    }
    assert(entry_views(entries@).take(entries.len() as int) == entry_views(entries@));
    (abandoned, live)
}

/// The state reported for PR `n`: the first of `states` for it.
pub open spec fn state_of(states: Seq<(u32, Seq<char>)>, n: u32, i: int) -> Option<Seq<char>>
    decreases states.len() - i,
{
    if i < 0 || i >= states.len() {
        None
    } else if states[i].0 == n {
        Some(states[i].1)
    } else {
        state_of(states, n, i + 1)
    }
}

/// A PR that is done: merged or closed.
pub open spec fn is_done_state(s: Option<Seq<char>>) -> bool {
    s == Some("CLOSED"@) || s == Some("MERGED"@)
}

/// The state reported for PR `n`.
pub fn find_state(states: &Vec<(u32, String)>, n: u32) -> (r: Option<String>)
    ensures
        crate::config::opt_string(r) == state_of(crate::gh::pr_pairs(states@), n, 0),
{
    let mut i: usize = 0;
    while i < states.len()
        invariant
            i <= states.len(),
            state_of(crate::gh::pr_pairs(states@), n, 0) == state_of(crate::gh::pr_pairs(states@), n, i as int),
        decreases states.len() - i,
    {
        assert(crate::gh::pr_pairs(states@)[i as int] == (states@[i as int].0, states@[i as int].1@));
        if states[i].0 == n {
            return Some(states[i].1.clone());
        }
        i = i + 1;
    }
    None
}

/// The live entries whose PR is merged or closed, in order.
pub open spec fn done_entries(e: Seq<(Seq<char>, u32)>, states: Seq<(u32, Seq<char>)>) -> Seq<(Seq<char>, u32)>
    decreases e.len(),
{
    if e.len() == 0 {
        Seq::empty()
    } else {
        done_entries(e.drop_last(), states) + if is_done_state(state_of(states, e.last().1, 0)) {
            seq![e.last()]
        } else {
            Seq::empty()
        }
    }
}

/// The live entries whose PR is merged or closed: their changes are
/// abandoned and their mappings removed.
pub fn closed_entries(live: &Vec<(String, u32)>, states: &Vec<(u32, String)>) -> (r: Vec<(String, u32)>)
    ensures
        entry_views(r@) == done_entries(entry_views(live@), crate::gh::pr_pairs(states@)),
{
    let mut out: Vec<(String, u32)> = Vec::new();
    let mut i: usize = 0;
    while i < live.len()
        invariant
            i <= live.len(),
            entry_views(out@) == done_entries(entry_views(live@).take(i as int), crate::gh::pr_pairs(states@)),
        decreases live.len() - i,
    {
        let ghost ev = entry_views(live@);
        assert(ev.take(i + 1).drop_last() == ev.take(i as int));
        assert(ev.take(i + 1).last() == (live@[i as int].0@, live@[i as int].1));
        let st = find_state(states, live[i].1);
        let done = match &st {
            Some(s) => {
                let c = chars_of(s.as_str());
                eq_str(c.as_slice(), "CLOSED") || eq_str(c.as_slice(), "MERGED")
            },
            None => false,
        };
        let ghost o0 = out@;
        if done {
            let e = (live[i].0.clone(), live[i].1);
            out.push(e);
            proof { crate::pr_store::lemma_entry_views_push(o0, e); }
        }
        assert(entry_views(out@) =~= done_entries(ev.take(i + 1), crate::gh::pr_pairs(states@)));
        i = i + 1;
    }
    assert(entry_views(live@).take(live.len() as int) == entry_views(live@));
    out
}

/// The change ids of entries, in order.
pub open spec fn ids_of(e: Seq<(Seq<char>, u32)>) -> Seq<Seq<char>> {
    e.map_values(|x: (Seq<char>, u32)| x.0)
}

/// The change ids of `entries`, in order: for `closed`, the changes that
/// tidy abandons.
pub fn change_ids_of(entries: &Vec<(String, u32)>) -> (r: Vec<String>)
    ensures
        crate::jj::strs(r@) == ids_of(entry_views(entries@)),
{
    let mut out: Vec<String> = Vec::new();
    let mut i: usize = 0;
    while i < entries.len()
        invariant
            i <= entries.len(),
            crate::jj::strs(out@) == ids_of(entry_views(entries@)).take(i as int),
        decreases entries.len() - i,
    {
        let c = entries[i].0.clone();
        proof { crate::jj::lemma_strs_push(out@, c); }
        out.push(c);
        assert(ids_of(entry_views(entries@)).take(i + 1) =~= ids_of(entry_views(entries@)).take(i as int).push(
            entries@[i as int].0@,
        ));
        i = i + 1;
    }
    assert(ids_of(entry_views(entries@)).take(entries.len() as int) =~= ids_of(entry_views(entries@)));
    out
}

/// The mappings tidy removes: those of the changes of closed or merged PRs,
/// then those of abandoned changes.
pub fn tidy_removals(closed: &Vec<(String, u32)>, abandoned: &Vec<(String, u32)>) -> (r: Vec<String>)
    ensures
        crate::jj::strs(r@) == ids_of(entry_views(closed@)) + ids_of(entry_views(abandoned@)),
{
    let mut out = change_ids_of(closed);
    let mut rest = change_ids_of(abandoned);
    let ghost o = out@;
    let ghost t = rest@;
    out.append(&mut rest);
    assert(out@ == o + t);
    assert(crate::jj::strs(o + t) =~= crate::jj::strs(o) + crate::jj::strs(t));
    out
}

/// Tidying never forgets an open PR of an existing change: every entry
/// that tidy removes is abandoned or has a merged or closed PR.
pub proof fn law_tidy_keeps_open_prs(e: Seq<(Seq<char>, u32)>, existing: Seq<Seq<char>>, states: Seq<(u32, Seq<char>)>, x: (Seq<char>, u32))
    requires
        done_entries(entries_where(e, existing, true), states).contains(x),
    ensures
        existing.contains(x.0),
        is_done_state(state_of(states, x.1, 0)),
{
    lemma_done_entries_members(entries_where(e, existing, true), states, x);
    lemma_entries_where_members(e, existing, true, x);
}

proof fn lemma_done_entries_members(e: Seq<(Seq<char>, u32)>, states: Seq<(u32, Seq<char>)>, x: (Seq<char>, u32))
    requires
        done_entries(e, states).contains(x),
    ensures
        e.contains(x),
        is_done_state(state_of(states, x.1, 0)),
    decreases e.len(),
{
    if e.len() > 0 {
        let d = done_entries(e.drop_last(), states);
        let tail: Seq<(Seq<char>, u32)> = if is_done_state(state_of(states, e.last().1, 0)) {
            seq![e.last()]
        } else {
            Seq::empty()
        };
        let i = choose|i: int| 0 <= i < done_entries(e, states).len() && done_entries(e, states)[i] == x;
        if i < d.len() {
            assert(d[i] == x);
            lemma_done_entries_members(e.drop_last(), states, x);
            let j = choose|j: int| 0 <= j < e.drop_last().len() && e.drop_last()[j] == x;
            assert(e[j] == x);
        } else {
            assert(tail[i - d.len()] == x);
            assert(e[e.len() - 1] == x);
        }
    }
}

proof fn lemma_entries_where_members(e: Seq<(Seq<char>, u32)>, existing: Seq<Seq<char>>, keep: bool, x: (Seq<char>, u32))
    requires
        entries_where(e, existing, keep).contains(x),
    ensures
        existing.contains(x.0) == keep,
    decreases e.len(),
{
    if e.len() > 0 {
        let d = entries_where(e.drop_last(), existing, keep);
        let w = entries_where(e, existing, keep);
        let i = choose|i: int| 0 <= i < w.len() && w[i] == x;
        if i < d.len() {
            assert(d[i] == x);
            lemma_entries_where_members(e.drop_last(), existing, keep, x);
        } else {
            assert(w[i] == e.last());
        }
    }
}

/// Tidying forgets all finished work: a tracked entry whose change no longer
/// exists is among the abandoned ones, and one whose change exists and whose
/// PR is merged or closed is among those whose changes are abandoned and
/// mappings removed.
pub proof fn law_tidy_forgets_finished_work(e: Seq<(Seq<char>, u32)>, existing: Seq<Seq<char>>, states: Seq<(u32, Seq<char>)>, x: (Seq<char>, u32))
    requires
        e.contains(x),
    ensures
        !existing.contains(x.0) ==> entries_where(e, existing, false).contains(x),
        existing.contains(x.0) && is_done_state(state_of(states, x.1, 0)) ==> done_entries(
            entries_where(e, existing, true),
            states,
        ).contains(x),
{
    if !existing.contains(x.0) {
        lemma_entries_where_complete(e, existing, false, x);
    } else {
        lemma_entries_where_complete(e, existing, true, x);
        if is_done_state(state_of(states, x.1, 0)) {
            lemma_done_entries_complete(entries_where(e, existing, true), states, x);
        }
    }
}

proof fn lemma_entries_where_complete(e: Seq<(Seq<char>, u32)>, existing: Seq<Seq<char>>, keep: bool, x: (Seq<char>, u32))
    requires
        e.contains(x),
        existing.contains(x.0) == keep,
    ensures
        entries_where(e, existing, keep).contains(x),
    decreases e.len(),
{
    let d = entries_where(e.drop_last(), existing, keep);
    let w = entries_where(e, existing, keep);
    let i = choose|i: int| 0 <= i < e.len() && e[i] == x;
    if i == e.len() - 1 {
        assert(w[w.len() - 1] == x);
    } else {
        assert(e.drop_last()[i] == x);
        lemma_entries_where_complete(e.drop_last(), existing, keep, x);
        let j = choose|j: int| 0 <= j < d.len() && d[j] == x;
        assert(w[j] == x);
    }
}

proof fn lemma_done_entries_complete(e: Seq<(Seq<char>, u32)>, states: Seq<(u32, Seq<char>)>, x: (Seq<char>, u32))
    requires
        e.contains(x),
        is_done_state(state_of(states, x.1, 0)),
    ensures
        done_entries(e, states).contains(x),
    decreases e.len(),
{
    let d = done_entries(e.drop_last(), states);
    let w = done_entries(e, states);
    let i = choose|i: int| 0 <= i < e.len() && e[i] == x;
    if i == e.len() - 1 {
        assert(w[w.len() - 1] == x);
    } else {
        assert(e.drop_last()[i] == x);
        lemma_done_entries_complete(e.drop_last(), states, x);
        let j = choose|j: int| 0 <= j < d.len() && d[j] == x;
        assert(w[j] == x);
    }
}

} // verus!
