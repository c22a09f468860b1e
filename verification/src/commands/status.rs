//! `jc status`: the state of each tracked PR, with when its commit was
//! written.
use vstd::prelude::*;
use crate::text::{
    append, append_str, chars_of, dec, find_from, parse_i64, parse_i64_chars, parse_u32,
    parse_u32_chars, render_padded, render_u64, string_of, sub_vec, zero_pad,
};

verus! {

/// The arguments of `jc status`.
#[derive(Debug)]
pub struct StatusArgs {}

/// The web page of PR `n` of `upstream`.
pub open spec fn pr_url_spec(upstream: Seq<char>, n: u32) -> Seq<char> {
    "https://github.com/"@ + upstream + "/pull/"@ + dec(n as nat)
}

/// The web page of PR `n` of `upstream`.
pub fn pr_url(upstream: &str, n: u32) -> (r: String)
    ensures
        r@ == pr_url_spec(upstream@, n),
{
    let mut v = chars_of("https://github.com/");
    append_str(&mut v, upstream);
    append_str(&mut v, "/pull/");
    let d = render_u64(n as u64);
    append(&mut v, d.as_slice());
    string_of(v.as_slice())
}

// ---------------------------------------------------------------------------
// Ordering the tracked PRs
// ---------------------------------------------------------------------------

/// `x` placed into the sorted `s` after every entry with a number at most
/// its own.
pub open spec fn insert_by_pr(s: Seq<(Seq<char>, u32)>, x: (Seq<char>, u32)) -> Seq<(Seq<char>, u32)>
    decreases s.len(),
{
    if s.len() == 0 {
        seq![x]
    } else if s.last().1 <= x.1 {
        s.push(x)
    } else {
        insert_by_pr(s.drop_last(), x).push(s.last())
    }
}

/// The entries in order of PR number; entries with the same number keep
/// their order (a stable sort).
pub open spec fn sort_by_pr_spec(s: Seq<(Seq<char>, u32)>) -> Seq<(Seq<char>, u32)>
    decreases s.len(),
{
    if s.len() == 0 {
        Seq::empty()
    } else {
        insert_by_pr(sort_by_pr_spec(s.drop_last()), s.last())
    }
}

/// Entries are in non-decreasing order of PR number.
pub open spec fn sorted_by_pr(s: Seq<(Seq<char>, u32)>) -> bool {
    forall|i: int, j: int| 0 <= i <= j < s.len() ==> #[trigger] s[i].1 <= #[trigger] s[j].1
}

/// Sorts the tracked `(change_id, pr)` entries by PR number, for a stable
/// listing.
pub fn sort_by_pr(entries: Vec<(String, u32)>) -> (r: Vec<(String, u32)>)
    ensures
        crate::pr_store::entry_views(r@) == sort_by_pr_spec(crate::pr_store::entry_views(entries@)),
{
    let ghost ev = crate::pr_store::entry_views(entries@);
    let mut out: Vec<(String, u32)> = Vec::new();
    let mut i: usize = 0;
    while i < entries.len()
        invariant
            i <= entries.len(),
            ev == crate::pr_store::entry_views(entries@),
            crate::pr_store::entry_views(out@) == sort_by_pr_spec(ev.take(i as int)),
        decreases entries.len() - i,
    {
        let e = (entries[i].0.clone(), entries[i].1);
        assert(ev.take(i + 1).drop_last() == ev.take(i as int));
        assert(ev.take(i + 1).last() == (e.0@, e.1));
        insert_sorted(&mut out, e);
        i = i + 1;
    }
    assert(ev.take(entries.len() as int) == ev);
    out
}

fn insert_sorted(out: &mut Vec<(String, u32)>, x: (String, u32))
    ensures
        crate::pr_store::entry_views(final(out)@) == insert_by_pr(crate::pr_store::entry_views(old(out)@), (x.0@, x.1)),
{
    let ghost s0 = crate::pr_store::entry_views(out@);
    let mut k: usize = out.len();
    assert(s0.take(k as int) =~= s0);
    assert(s0.skip(k as int) =~= Seq::<(Seq<char>, u32)>::empty());
    while k > 0 && out[k - 1].1 > x.1
        invariant
            k <= out.len(),
            out@ == old(out)@,
            insert_by_pr(s0, (x.0@, x.1)) == insert_by_pr(s0.take(k as int), (x.0@, x.1)) + s0.skip(k as int),
            s0 == crate::pr_store::entry_views(out@),
        decreases k,
    {
        proof {
            let t = s0.take(k as int);
            assert(t.drop_last() == s0.take(k - 1));
            assert(t.last() == s0[k - 1]);
            assert(s0[k - 1].1 == out@[k - 1].1);
            assert(s0.skip(k - 1) =~= seq![s0[k - 1]] + s0.skip(k as int));
            assert(insert_by_pr(t, (x.0@, x.1)) == insert_by_pr(s0.take(k - 1), (x.0@, x.1)).push(s0[k - 1]));
            assert(insert_by_pr(s0.take(k - 1), (x.0@, x.1)).push(s0[k - 1]) + s0.skip(k as int)
                =~= insert_by_pr(s0.take(k - 1), (x.0@, x.1)) + s0.skip(k - 1));
        }
        k = k - 1;
    }
    proof {
        let t = s0.take(k as int);
        if k > 0 {
            assert(t.last() == s0[k - 1]);
            assert(s0[k - 1].1 == out@[k - 1].1);
            assert(insert_by_pr(t, (x.0@, x.1)) == t.push((x.0@, x.1)));
        } else {
            assert(t.len() == 0);
            assert(insert_by_pr(t, (x.0@, x.1)) == seq![(x.0@, x.1)]);
        }
    }
    let ghost xv = (x.0@, x.1);
    out.insert(k, x);
    assert(crate::pr_store::entry_views(out@) =~= s0.take(k as int).push(xv) + s0.skip(k as int));
}

/// Sorting by PR number orders the entries.
pub proof fn law_sorted_listing_is_ordered(s: Seq<(Seq<char>, u32)>)
    ensures
        sorted_by_pr(sort_by_pr_spec(s)),
        sort_by_pr_spec(s).len() == s.len(),
    decreases s.len(),
{
    if s.len() > 0 {
        law_sorted_listing_is_ordered(s.drop_last());
        lemma_insert_keeps_order(sort_by_pr_spec(s.drop_last()), s.last());
    }
}

proof fn lemma_insert_keeps_order(s: Seq<(Seq<char>, u32)>, x: (Seq<char>, u32))
    requires
        sorted_by_pr(s),
    ensures
        sorted_by_pr(insert_by_pr(s, x)),
        insert_by_pr(s, x).len() == s.len() + 1,
        forall|i: int| 0 <= i < insert_by_pr(s, x).len() ==> #[trigger] insert_by_pr(s, x)[i].1 == x.1
            || exists|j: int| 0 <= j < s.len() && s[j].1 == insert_by_pr(s, x)[i].1,
    decreases s.len(),
{
    let r = insert_by_pr(s, x);
    if s.len() == 0 {
    } else if s.last().1 <= x.1 {
        assert forall|i: int, j: int| 0 <= i <= j < r.len() implies #[trigger] r[i].1 <= #[trigger] r[j].1 by {
            if j == r.len() - 1 && i < j {
                assert(s[i].1 <= s[s.len() - 1].1);
            }
        }
        assert forall|i: int| 0 <= i < r.len() implies #[trigger] r[i].1 == x.1 || exists|j: int| 0 <= j < s.len() && s[j].1 == r[i].1 by {
            if i < s.len() {
                assert(s[i].1 == r[i].1);
            }
        }
    } else {
        let t = s.drop_last();
        assert(sorted_by_pr(t)) by {
            assert forall|i: int, j: int| 0 <= i <= j < t.len() implies #[trigger] t[i].1 <= #[trigger] t[j].1 by {
                assert(t[i] == s[i] && t[j] == s[j]);
            }
        }
        lemma_insert_keeps_order(t, x);
        let u = insert_by_pr(t, x);
        assert(r == u.push(s.last()));
        assert forall|i: int| 0 <= i < r.len() implies #[trigger] r[i].1 == x.1 || exists|j: int| 0 <= j < s.len() && s[j].1 == r[i].1 by {
            if i < u.len() {
                assert(r[i] == u[i]);
                if u[i].1 != x.1 {
                    let j = choose|j: int| 0 <= j < t.len() && t[j].1 == u[i].1;
                    assert(s[j] == t[j]);
                }
            } else {
                assert(s[s.len() - 1].1 == r[i].1);
            }
        }
        assert forall|i: int, j: int| 0 <= i <= j < r.len() implies #[trigger] r[i].1 <= #[trigger] r[j].1 by {
            if j == r.len() - 1 {
                if i < j {
                    assert(r[i] == u[i]);
                    if u[i].1 != x.1 {
                        let k = choose|k: int| 0 <= k < t.len() && t[k].1 == u[i].1;
                        assert(s[k].1 <= s[s.len() - 1].1);
                    }
                }
            } else {
                assert(r[i] == u[i] && r[j] == u[j]);
            }
        }
    }
}

// ---------------------------------------------------------------------------
// Timestamps
// ---------------------------------------------------------------------------

/// The last index `k < j` holding a `+` or `-`, or `-1`.
pub open spec fn last_sign_before(s: Seq<char>, j: int) -> int
    decreases j,
{
    if j <= 0 || j > s.len() {
        -1
    } else if s[j - 1] == '+' || s[j - 1] == '-' {
        j - 1
    } else {
        last_sign_before(s, j - 1)
    }
}

/// `str::split` on a character: the parts of `s[i..]` between the
/// occurrences of `c`, empty ones included.
pub open spec fn split_from(s: Seq<char>, c: char, i: int) -> Seq<Seq<char>>
    decreases s.len() + 1 - i,
{
    if i < 0 || i > s.len() {
        Seq::empty()
    } else {
        let k = find_from(s, c, i);
        if k < 0 {
            seq![s.subrange(i, s.len() as int)]
        } else {
            proof {
                crate::text::lemma_find_from_bounds(s, c, i);
            }
            seq![s.subrange(i, k)] + split_from(s, c, k + 1)
        }
    }
}

/// `str::split` on a character.
pub open spec fn split(s: Seq<char>, c: char) -> Seq<Seq<char>> {
    split_from(s, c, 0)
}

/// The parts that parse as `u32`, in order (a `filter_map` of `parse`).
pub open spec fn parsed_parts(parts: Seq<Seq<char>>) -> Seq<u32>
    decreases parts.len(),
{
    if parts.len() == 0 {
        Seq::empty()
    } else {
        parsed_parts(parts.drop_last()) + match parse_u32(parts.last()) {
            Some(n) => seq![n],
            None => Seq::empty(),
        }
    }
}

/// Integer division as Rust computes it: rounded toward zero.
pub open spec fn tdiv(a: int, b: int) -> int {
    if a >= 0 {
        a / b
    } else {
        -((-a) / b)
    }
}

/// The days from 1970-01-01 to a civil date (proleptic Gregorian, March
/// based), computed as the tool computes it.
pub open spec fn days_from_epoch(y: int, m: int, d: int) -> int {
    let y = if m <= 2 { y - 1 } else { y };
    let era = tdiv(y, 400);
    let yoe = y - era * 400;
    let doy = tdiv(153 * (if m > 2 { m - 3 } else { m + 9 }) + 2, 5) + d - 1;
    let doe = yoe * 365 + tdiv(yoe, 4) - tdiv(yoe, 100) + doy;
    era * 146097 + doe - 719468
}

/// A leap year of the Gregorian calendar.
pub open spec fn is_leap(y: int) -> bool {
    y % 4 == 0 && (y % 100 != 0 || y % 400 == 0)
}

/// The number of days of month `m` of year `y`.
pub open spec fn days_in_month(y: int, m: int) -> int {
    if m == 2 {
        if is_leap(y) { 29 } else { 28 }
    } else if m == 4 || m == 6 || m == 9 || m == 11 {
        30
    } else {
        31
    }
}

/// The day after `y-m-d`, across month and year ends.
pub open spec fn next_day(y: int, m: int, d: int) -> (int, int, int) {
    if d < days_in_month(y, m) {
        (y, m, d + 1)
    } else if m < 12 {
        (y, m + 1, 1)
    } else {
        (y + 1, 1, 1)
    }
}

/// The days before the March-based year `yp` (March of `yp` to February
/// of `yp + 1`), counted from March of year 0, split by 400-year eras.
spec fn base_days(yp: int) -> int {
    let era = yp / 400;
    let yoe = yp % 400;
    era * 146097 + yoe * 365 + yoe / 4 - yoe / 100
}

proof fn lemma_base_days_step(yp: int)
    requires
        yp >= 0,
    ensures
        base_days(yp + 1) == base_days(yp) + 365 + if is_leap(yp + 1) { 1int } else { 0int },
{
    let era = yp / 400;
    let yoe = yp % 400;
    assert(yp == era * 400 + yoe);
    if yoe < 399 {
        assert((yp + 1) / 400 == era);
        assert((yp + 1) % 400 == yoe + 1);
        assert((yp + 1) % 4 == (yoe + 1) % 4);
        assert((yp + 1) % 100 == (yoe + 1) % 100);
        assert((yp + 1) % 400 != 0);
    } else {
        assert((yp + 1) / 400 == era + 1);
        assert((yp + 1) % 400 == 0);
        assert((yp + 1) % 4 == 0);
    }
}

proof fn lemma_days_from_epoch_parts(y: int, m: int, d: int)
    requires
        y >= 1,
        1 <= m <= 12,
    ensures
        days_from_epoch(y, m, d) == base_days(if m <= 2 { y - 1 } else { y }) + (153 * (if m > 2 { m - 3 } else {
            m + 9
        }) + 2) / 5 + d - 1 - 719468,
{
    let yp = if m <= 2 { y - 1 } else { y };
    assert(yp >= 0);
    assert(tdiv(yp, 400) == yp / 400);
    let era = yp / 400;
    assert(yp - era * 400 == yp % 400);
    let yoe = yp % 400;
    assert(tdiv(yoe, 4) == yoe / 4);
    assert(tdiv(yoe, 100) == yoe / 100);
}

/// The day count is the calendar's: 1970-01-01 is day zero, and the day
/// after any date of year 1 or later (across month ends, leap days and year
/// ends) is counted one more. So the instant read from a timestamp is its
/// real Unix time.
pub proof fn law_days_count_calendar_days(y: int, m: int, d: int)
    requires
        y >= 1,
        1 <= m <= 12,
        1 <= d <= days_in_month(y, m),
    ensures
        days_from_epoch(1970, 1, 1) == 0,
        days_from_epoch(next_day(y, m, d).0, next_day(y, m, d).1, next_day(y, m, d).2) == days_from_epoch(y, m, d) + 1,
{
    lemma_days_from_epoch_parts(1970, 1, 1);
    assert(base_days(1969) == 719468 - 306);
    let (y2, m2, d2) = next_day(y, m, d);
    lemma_days_from_epoch_parts(y, m, d);
    lemma_days_from_epoch_parts(y2, m2, d2);
    if d < days_in_month(y, m) {
    } else if m == 2 {
        lemma_base_days_step(y - 1);
    } else if m < 12 {
    } else {
    }
}

/// What the tool reads from an RFC 3339 timestamp: the date and time, and
/// the UTC offset in seconds. `None` when it cannot be read, and the
/// timestamp is then shown as it is.
pub struct TsFields {
    pub year: int,
    pub month: int,
    pub day: int,
    pub hour: int,
    pub min: int,
    pub sec: int,
    pub offset: int,
}

/// The offset part after the last sign, `hh:mm`, in seconds; `0` when it is
/// not two `:`-separated parts; a part that is not a number counts as `0`.
pub open spec fn offset_secs(ts: Seq<char>, k: int) -> int {
    let offset_str = ts.skip(k + 1);
    let sign: int = if ts[k] == '-' { -1 } else { 1 };
    let parts = split(offset_str, ':');
    if parts.len() == 2 {
        let h: int = match parse_i64(parts[0]) {
            Some(v) => v as int,
            None => 0,
        };
        let m: int = match parse_i64(parts[1]) {
            Some(v) => v as int,
            None => 0,
        };
        sign * (h * 3600 + m * 60)
    } else {
        0
    }
}

/// Reads a timestamp.
pub open spec fn ts_fields(ts: Seq<char>) -> Option<TsFields> {
    let k = last_sign_before(ts, ts.len() as int);
    if k < 0 {
        None
    } else {
        let parts = split(ts.take(k), 'T');
        if parts.len() != 2 {
            None
        } else {
            let date = parsed_parts(split(parts[0], '-'));
            let time = parsed_parts(split(parts[1], ':'));
            if date.len() != 3 || time.len() < 2 {
                None
            } else {
                Some(
                    TsFields {
                        year: date[0] as int,
                        month: date[1] as int,
                        day: date[2] as int,
                        hour: time[0] as int,
                        min: time[1] as int,
                        sec: if time.len() > 2 { time[2] as int } else { 0 },
                        offset: offset_secs(ts, k),
                    },
                )
            }
        }
    }
}

/// The seconds since the epoch that the fields denote.
pub open spec fn epoch_secs(f: TsFields) -> int {
    days_from_epoch(f.year, f.month, f.day) * 86400 + f.hour * 3600 + f.min * 60 + f.sec - f.offset
}

/// The arithmetic of `format_timestamp` stays within `i64` for `ts` and
/// `now`: the offset, the instant and its distance from `now`.
pub open spec fn timestamp_in_range(ts: Seq<char>, now: i64) -> bool {
    let k = last_sign_before(ts, ts.len() as int);
    &&& k >= 0 ==> offset_in_range(ts, k)
    &&& ts_fields(ts) matches Some(f) ==> {
        &&& i64::MIN <= epoch_secs(f) <= i64::MAX
        &&& i64::MIN <= now - epoch_secs(f) <= i64::MAX
    }
}

/// The offset after the sign at `k` is computed within `i64`.
pub open spec fn offset_in_range(ts: Seq<char>, k: int) -> bool {
    let parts = split(ts.skip(k + 1), ':');
    parts.len() == 2 ==> {
        let h: int = match parse_i64(parts[0]) {
            Some(v) => v as int,
            None => 0,
        };
        let m: int = match parse_i64(parts[1]) {
            Some(v) => v as int,
            None => 0,
        };
        &&& i64::MIN <= h * 3600 <= i64::MAX
        &&& i64::MIN <= m * 60 <= i64::MAX
        &&& i64::MIN < h * 3600 + m * 60 <= i64::MAX
    }
}

/// `n unit ago`, with the unit in the singular for one.
pub open spec fn ago(n: int, singular: Seq<char>, many: Seq<char>) -> Seq<char> {
    if n == 1 {
        "1 "@ + singular + " ago"@
    } else {
        dec(n as nat) + " "@ + many + " ago"@
    }
}

/// How `jc status` shows the time of a commit written at `ts`, seen at
/// `now` (seconds since the epoch): `just now`, minutes, hours or days ago,
/// or `YYYY-MM-DD` after thirty days; a timestamp it cannot read is shown
/// as it is.
pub open spec fn format_timestamp_spec(ts: Seq<char>, now: int) -> Seq<char> {
    match ts_fields(ts) {
        None => ts,
        Some(f) => {
            let diff = now - epoch_secs(f);
            if diff < 60 {
                "just now"@
            } else if diff < 3600 {
                ago(diff / 60, "minute"@, "minutes"@)
            } else if diff < 86400 {
                ago(diff / 3600, "hour"@, "hours"@)
            } else if diff < 86400 * 30 {
                ago(diff / 86400, "day"@, "days"@)
            } else {
                zero_pad(dec(f.year as nat), 4) + "-"@ + zero_pad(dec(f.month as nat), 2) + "-"@ + zero_pad(
                    dec(f.day as nat),
                    2,
                )
            }
        },
    }
}

proof fn lemma_last_sign_bounds(s: Seq<char>, j: int)
    requires
        0 <= j <= s.len(),
    ensures
        last_sign_before(s, j) == -1 || (0 <= last_sign_before(s, j) < j && (s[last_sign_before(s, j)]
            == '+' || s[last_sign_before(s, j)] == '-')),
    decreases j,
{
    if j > 0 && !(s[j - 1] == '+' || s[j - 1] == '-') {
        lemma_last_sign_bounds(s, j - 1);
    }
}

/// `str::split` on a character.
pub fn split_chars(s: &[char], c: char) -> (r: Vec<Vec<char>>)
    ensures
        crate::text::views(r@) == split(s@, c),
{
    let mut out: Vec<Vec<char>> = Vec::new();
    let mut i: usize = 0;
    loop
        invariant
            i <= s.len(),
            crate::text::views(out@) + split_from(s@, c, i as int) == split(s@, c),
        decreases s.len() - i,
    {
        let ghost before = out@;
        match crate::text::find_char_from(s, c, i) {
            None => {
                let part = sub_vec(s, i, s.len());
                proof { crate::text::lemma_views_push(before, part); }
                out.push(part);
                assert(crate::text::views(out@) =~= split(s@, c));
                return out;
            },
            Some(k) => {
                proof { crate::text::lemma_find_from_bounds(s@, c, i as int); }
                let part = sub_vec(s, i, k);
                proof { crate::text::lemma_views_push(before, part); }
                out.push(part);
                assert(crate::text::views(out@) + split_from(s@, c, k + 1) =~= split(s@, c));
                i = k + 1;
            },
        }
    }
}

fn parse_parts(parts: &Vec<Vec<char>>) -> (r: Vec<u32>)
    ensures
        r@ == parsed_parts(crate::text::views(parts@)),
{
    let mut out: Vec<u32> = Vec::new();
    let mut i: usize = 0;
    while i < parts.len()
        invariant
            i <= parts.len(),
            out@ == parsed_parts(crate::text::views(parts@).take(i as int)),
        decreases parts.len() - i,
    {
        let ghost ps = crate::text::views(parts@);
        assert(ps.take(i + 1).drop_last() == ps.take(i as int));
        assert(ps.take(i + 1).last() == parts@[i as int]@);
        if let Some(n) = parse_u32_chars(parts[i].as_slice()) {
            out.push(n);
        }
        assert(out@ =~= parsed_parts(ps.take(i + 1)));
        i = i + 1;
    }
    assert(crate::text::views(parts@).take(parts.len() as int) == crate::text::views(parts@));
    out
}

fn days_from_epoch_exec(y: i64, m: i64, d: i64) -> (r: i64)
    requires
        0 <= y <= u32::MAX,
        0 <= m <= u32::MAX,
        0 <= d <= u32::MAX,
    ensures
        r == days_from_epoch(y as int, m as int, d as int),
{
    let y = if m <= 2 { y - 1 } else { y };
    let era = y / 400;
    let yoe = y - era * 400;
    assert(-1 <= yoe < 400);
    let doy = (153 * (if m > 2 { m - 3 } else { m + 9 }) + 2) / 5 + d - 1;
    let doe = yoe * 365 + yoe / 4 - yoe / 100 + doy;
    era * 146097 + doe - 719468
}

/// Formats an RFC 3339 timestamp (`2026-03-18T22:08:45-07:00`) relative to
/// `now`, seconds since the epoch; a timestamp it cannot read is returned
/// as it is.
pub fn format_timestamp(ts: &str, now: i64) -> (r: String)
    requires
        timestamp_in_range(ts@, now),
    ensures
        r@ == format_timestamp_spec(ts@, now as int),
{
    let s = chars_of(ts);
    // The last '+' or '-' separates the date and time from the offset.
    let mut j: usize = s.len();
    while j > 0 && !(s[j - 1] == '+' || s[j - 1] == '-')
        invariant
            j <= s.len(),
            s@ == ts@,
            last_sign_before(s@, s.len() as int) == last_sign_before(s@, j as int),
        decreases j,
    {
        j = j - 1;
    }
    if j == 0 {
        return ts.to_owned();
    }
    let k = j - 1;
    assert(last_sign_before(s@, s.len() as int) == k);
    let date_time = sub_vec(s.as_slice(), 0, k);
    let offset_str = sub_vec(s.as_slice(), k + 1, s.len());
    assert(date_time@ == ts@.take(k as int));
    assert(offset_str@ == ts@.skip(k + 1));
    let sign: i64 = if s[k] == '-' { -1 } else { 1 };
    let offset_parts = split_chars(offset_str.as_slice(), ':');
    let offset: i64 = if offset_parts.len() == 2 {
        assert(crate::text::views(offset_parts@)[0] == offset_parts@[0]@);
        assert(crate::text::views(offset_parts@)[1] == offset_parts@[1]@);
        let h: i64 = match parse_i64_chars(offset_parts[0].as_slice()) {
            Some(v) => v,
            None => 0,
        };
        let m: i64 = match parse_i64_chars(offset_parts[1].as_slice()) {
            Some(v) => v,
            None => 0,
        };
        sign * (h * 3600 + m * 60)
    } else {
        0
    };
    assert(offset == offset_secs(ts@, k as int));

    let parts = split_chars(date_time.as_slice(), 'T');
    if parts.len() != 2 {
        return ts.to_owned();
    }
    assert(crate::text::views(parts@)[0] == parts@[0]@);
    assert(crate::text::views(parts@)[1] == parts@[1]@);
    let dp = split_chars(parts[0].as_slice(), '-');
    let tp = split_chars(parts[1].as_slice(), ':');
    let date_parts = parse_parts(&dp);
    let time_parts = parse_parts(&tp);
    if date_parts.len() != 3 || time_parts.len() < 2 {
        return ts.to_owned();
    }
    let year: i64 = date_parts[0] as i64;
    let month: i64 = date_parts[1] as i64;
    let day: i64 = date_parts[2] as i64;
    let hour: i64 = time_parts[0] as i64;
    let min: i64 = time_parts[1] as i64;
    let sec: i64 = if time_parts.len() > 2 { time_parts[2] as i64 } else { 0 };
    let ghost f = ts_fields(ts@)->0;
    assert(ts_fields(ts@) is Some);
    assert(f.year == year && f.month == month && f.day == day);
    assert(f.hour == hour && f.min == min && f.sec == sec && f.offset == offset);

    let days = days_from_epoch_exec(year, month, day);
    proof { lemma_days_bounds(year as int, month as int, day as int); }
    let epoch = days * 86400 + hour * 3600 + min * 60 + sec - offset;
    assert(epoch == epoch_secs(f));
    let diff = now - epoch;

    if diff < 60 {
        "just now".to_owned()
    } else if diff < 3600 {
        ago_exec(diff / 60, "minute", "minutes")
    } else if diff < 86400 {
        ago_exec(diff / 3600, "hour", "hours")
    } else if diff < 86400 * 30 {
        ago_exec(diff / 86400, "day", "days")
    } else {
        let mut v = render_padded(year as u64, 4);
        append_str(&mut v, "-");
        let mm = render_padded(month as u64, 2);
        append(&mut v, mm.as_slice());
        append_str(&mut v, "-");
        let dd = render_padded(day as u64, 2);
        append(&mut v, dd.as_slice());
        string_of(v.as_slice())
    }
}

/// The offset `hh:mm` (negated for a `-` sign) in seconds, as the tool
/// computes it, when that stays within `i64`.
fn checked_offset(offset_str: &[char], negative: bool) -> (r: Option<i64>)
    ensures
        r is Some <==> ({
            let parts = split(offset_str@, ':');
            parts.len() == 2 ==> {
                let h: int = match parse_i64(parts[0]) {
                    Some(v) => v as int,
                    None => 0,
                };
                let m: int = match parse_i64(parts[1]) {
                    Some(v) => v as int,
                    None => 0,
                };
                &&& i64::MIN <= h * 3600 <= i64::MAX
                &&& i64::MIN <= m * 60 <= i64::MAX
                &&& i64::MIN < h * 3600 + m * 60 <= i64::MAX
            }
        }),
        r matches Some(o) ==> o == ({
            let parts = split(offset_str@, ':');
            if parts.len() == 2 {
                let h: int = match parse_i64(parts[0]) {
                    Some(v) => v as int,
                    None => 0,
                };
                let m: int = match parse_i64(parts[1]) {
                    Some(v) => v as int,
                    None => 0,
                };
                (if negative { -1int } else { 1int }) * (h * 3600 + m * 60)
            } else {
                0
            }
        }),
{
    let offset_parts = split_chars(offset_str, ':');
    if offset_parts.len() != 2 {
        return Some(0);
    }
    assert(crate::text::views(offset_parts@)[0] == offset_parts@[0]@);
    assert(crate::text::views(offset_parts@)[1] == offset_parts@[1]@);
    let h: i128 = match parse_i64_chars(offset_parts[0].as_slice()) {
        Some(v) => v as i128,
        None => 0,
    };
    let m: i128 = match parse_i64_chars(offset_parts[1].as_slice()) {
        Some(v) => v as i128,
        None => 0,
    };
    let hs = h * 3600;
    let ms = m * 60;
    let lo = i64::MIN as i128;
    let hi = i64::MAX as i128;
    if !(lo <= hs && hs <= hi && lo <= ms && ms <= hi && lo < hs + ms && hs + ms <= hi) {
        return None;
    }
    let t = hs + ms;
    let ghost parts = split(offset_str@, ':');
    assert(h == match parse_i64(parts[0]) {
        Some(v) => v as int,
        None => 0,
    });
    assert(m == match parse_i64(parts[1]) {
        Some(v) => v as int,
        None => 0,
    });
    if negative {
        assert((-1int) * t == -t);
        Some((-t) as i64)
    } else {
        assert(1int * t == t);
        Some(t as i64)
    }
}

/// Whether `format_timestamp` may be called on `ts` at `now`: its
/// arithmetic (the offset, the instant and its distance from `now`) stays
/// within `i64`.
pub fn timestamp_fits(ts: &str, now: i64) -> (r: bool)
    ensures
        r == timestamp_in_range(ts@, now),
{
    let s = chars_of(ts);
    let mut j: usize = s.len();
    while j > 0 && !(s[j - 1] == '+' || s[j - 1] == '-')
        invariant
            j <= s.len(),
            s@ == ts@,
            last_sign_before(s@, s.len() as int) == last_sign_before(s@, j as int),
        decreases j,
    {
        j = j - 1;
    }
    if j == 0 {
        assert(last_sign_before(s@, s.len() as int) == -1);
        return true;
    }
    let k = j - 1;
    assert(last_sign_before(s@, s.len() as int) == k);
    let offset_str = sub_vec(s.as_slice(), k + 1, s.len());
    assert(offset_str@ == ts@.skip(k + 1));
    let offset: i128 = match checked_offset(offset_str.as_slice(), s[k] == '-') {
        Some(o) => o as i128,
        None => return false,
    };
    assert(offset == offset_secs(ts@, k as int));

    let date_time = sub_vec(s.as_slice(), 0, k);
    assert(date_time@ == ts@.take(k as int));
    let parts = split_chars(date_time.as_slice(), 'T');
    if parts.len() != 2 {
        return true;
    }
    assert(crate::text::views(parts@)[0] == parts@[0]@);
    assert(crate::text::views(parts@)[1] == parts@[1]@);
    let dp = split_chars(parts[0].as_slice(), '-');
    let tp = split_chars(parts[1].as_slice(), ':');
    let date_parts = parse_parts(&dp);
    let time_parts = parse_parts(&tp);
    if date_parts.len() != 3 || time_parts.len() < 2 {
        return true;
    }
    let year: i64 = date_parts[0] as i64;
    let month: i64 = date_parts[1] as i64;
    let day: i64 = date_parts[2] as i64;
    let hour: i128 = time_parts[0] as i128;
    let min: i128 = time_parts[1] as i128;
    let sec: i128 = if time_parts.len() > 2 { time_parts[2] as i128 } else { 0 };
    let ghost f = ts_fields(ts@)->0;
    assert(ts_fields(ts@) is Some);
    assert(f.year == year && f.month == month && f.day == day);
    assert(f.hour == hour && f.min == min && f.sec == sec && f.offset == offset);
    let days = days_from_epoch_exec(year, month, day);
    proof { lemma_days_bounds(year as int, month as int, day as int); }
    let epoch: i128 = (days as i128) * 86400 + hour * 3600 + min * 60 + sec - offset;
    assert(epoch == epoch_secs(f));
    let diff: i128 = (now as i128) - epoch;
    (i64::MIN as i128) <= epoch && epoch <= (i64::MAX as i128) && (i64::MIN as i128) <= diff && diff
        <= (i64::MAX as i128)
}

proof fn lemma_days_bounds(y: int, m: int, d: int)
    requires
        0 <= y <= u32::MAX,
        0 <= m <= u32::MAX,
        0 <= d <= u32::MAX,
    ensures
        -800000 <= days_from_epoch(y, m, d) <= 4_000_000_000_000,
{
    let y1 = if m <= 2 { y - 1 } else { y };
    assert(-1 <= y1 <= u32::MAX);
    let era = tdiv(y1, 400);
    assert(0 <= era <= 10737419);
    let yoe = y1 - era * 400;
    assert(-1 <= yoe < 400);
    let q = 153 * (if m > 2 { m - 3 } else { m + 9 }) + 2;
    assert(2 <= q <= 153 * 4294967295 + 2);
    let doy = tdiv(q, 5) + d - 1;
    assert(-1 <= doy <= 131_428_000_000 + 4_294_967_295);
    assert(-1 <= tdiv(yoe, 4) <= 100);
    assert(-1 <= tdiv(yoe, 100) <= 4);
}

fn ago_exec(n: i64, singular: &str, many: &str) -> (r: String)
    requires
        n >= 1,
    ensures
        r@ == ago(n as int, singular@, many@),
{
    let mut v: Vec<char> = Vec::new();
    if n == 1 {
        append_str(&mut v, "1 ");
        append_str(&mut v, singular);
        append_str(&mut v, " ago");
    } else {
        let d = render_u64(n as u64);
        append(&mut v, d.as_slice());
        append_str(&mut v, " ");
        append_str(&mut v, many);
        append_str(&mut v, " ago");
    }
    string_of(v.as_slice())
}

} // verus!
