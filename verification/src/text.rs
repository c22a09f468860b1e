//! Character-level text handling shared by the whole library: trimming,
//! splitting, line breaking, prefixes and decimal numbers, each stated over
//! `Seq<char>` and implemented over `char` slices.
use vstd::prelude::*;

verus! {

// ---------------------------------------------------------------------------
// Specifications
// ---------------------------------------------------------------------------

/// Unicode `White_Space`, the set that `char::is_whitespace` tests.
pub open spec fn is_ws(c: char) -> bool {
    let u = c as u32;
    ||| u == 0x20
    ||| (0x09 <= u && u <= 0x0d)
    ||| u == 0x85
    ||| u == 0xa0
    ||| u == 0x1680
    ||| (0x2000 <= u && u <= 0x200a)
    ||| u == 0x2028
    ||| u == 0x2029
    ||| u == 0x202f
    ||| u == 0x205f
    ||| u == 0x3000
}

/// The first index `k >= i` with `s[k] == c`, or `-1` when there is none.
pub open spec fn find_from(s: Seq<char>, c: char, i: int) -> int
    decreases s.len() - i,
{
    if i < 0 || i >= s.len() {
        -1
    } else if s[i] == c {
        i
    } else {
        find_from(s, c, i + 1)
    }
}

/// The index of the first `c` in `s`, or `-1`.
pub open spec fn find(s: Seq<char>, c: char) -> int {
    find_from(s, c, 0)
}

/// `str::split_once` with a character pattern: the text before and after the
/// first `c`.
pub open spec fn split_once(s: Seq<char>, c: char) -> Option<(Seq<char>, Seq<char>)> {
    let k = find(s, c);
    if k < 0 {
        None
    } else {
        Some((s.take(k), s.skip(k + 1)))
    }
}

/// The first index `k >= i` that holds no whitespace, or `s.len()`.
pub open spec fn non_ws_from(s: Seq<char>, i: int) -> int
    decreases s.len() - i,
{
    if i < 0 || i >= s.len() {
        s.len() as int
    } else if !is_ws(s[i]) {
        i
    } else {
        non_ws_from(s, i + 1)
    }
}

/// The least `k <= j` such that `s[k..j]` is all whitespace.
pub open spec fn non_ws_until(s: Seq<char>, j: int) -> int
    decreases j,
{
    if j <= 0 || j > s.len() {
        0
    } else if !is_ws(s[j - 1]) {
        j
    } else {
        non_ws_until(s, j - 1)
    }
}

/// `str::trim`: `s` without leading and trailing whitespace.
pub open spec fn trim(s: Seq<char>) -> Seq<char> {
    let a = non_ws_from(s, 0);
    let b = non_ws_until(s, s.len() as int);
    if b <= a {
        Seq::empty()
    } else {
        s.subrange(a, b)
    }
}

/// `s` begins with `p`.
pub open spec fn starts_with(s: Seq<char>, p: Seq<char>) -> bool {
    p.len() <= s.len() && s.take(p.len() as int) == p
}

/// `s` ends with `p`.
pub open spec fn ends_with(s: Seq<char>, p: Seq<char>) -> bool {
    p.len() <= s.len() && s.skip(s.len() - p.len()) == p
}

/// `str::strip_prefix`.
pub open spec fn strip_prefix(s: Seq<char>, p: Seq<char>) -> Option<Seq<char>> {
    if starts_with(s, p) {
        Some(s.skip(p.len() as int))
    } else {
        None
    }
}

/// `str::strip_suffix`.
pub open spec fn strip_suffix(s: Seq<char>, p: Seq<char>) -> Option<Seq<char>> {
    if ends_with(s, p) {
        Some(s.take(s.len() - p.len()))
    } else {
        None
    }
}

/// `p` occurs in `s` as a contiguous run.
pub open spec fn contains(s: Seq<char>, p: Seq<char>) -> bool {
    exists|k: int| 0 <= k && k + p.len() <= s.len() && #[trigger] s.subrange(k, k + p.len()) == p
}

/// The first index `k >= i` at which `p` occurs in `s`, or `-1`.
pub open spec fn find_seq_from(s: Seq<char>, p: Seq<char>, i: int) -> int
    decreases s.len() + 1 - i,
{
    if i < 0 || i + p.len() > s.len() {
        -1
    } else if s.subrange(i, i + p.len()) == p {
        i
    } else {
        find_seq_from(s, p, i + 1)
    }
}

/// `str::split_once` with a string pattern: the text before and after the
/// first occurrence of `p`.
pub open spec fn split_once_seq(s: Seq<char>, p: Seq<char>) -> Option<(Seq<char>, Seq<char>)> {
    let k = find_seq_from(s, p, 0);
    if k < 0 {
        None
    } else {
        Some((s.take(k), s.skip(k + p.len())))
    }
}

/// The first line of `s`, if it has one (`s.lines().next()`).
pub open spec fn first_line(s: Seq<char>) -> Option<Seq<char>> {
    if lines(s).len() > 0 {
        Some(lines(s)[0])
    } else {
        None
    }
}

/// One line as `str::lines` yields it: a trailing `'\r'` is dropped.
pub open spec fn chomp_cr(line: Seq<char>) -> Seq<char> {
    if line.len() > 0 && line.last() == '\r' {
        line.drop_last()
    } else {
        line
    }
}

/// The lines of `s[i..]`, as `str::lines` splits them: at `"\n"` or
/// `"\r\n"`, with no empty line after a final line ending.
pub open spec fn lines_from(s: Seq<char>, i: int) -> Seq<Seq<char>>
    decreases s.len() - i,
{
    if i < 0 || i >= s.len() {
        Seq::empty()
    } else {
        let k = find_from(s, '\n', i);
        proof {
            lemma_find_from_bounds(s, '\n', i);
        }
        if k < 0 {
            seq![s.subrange(i, s.len() as int)]
        } else {
            seq![chomp_cr(s.subrange(i, k))] + lines_from(s, k + 1)
        }
    }
}

/// `str::lines`.
pub open spec fn lines(s: Seq<char>) -> Seq<Seq<char>> {
    lines_from(s, 0)
}

/// An ASCII decimal digit.
pub open spec fn is_digit(c: char) -> bool {
    48 <= c as u32 && c as u32 <= 57
}

/// The value of a decimal digit.
pub open spec fn digit_value(c: char) -> nat {
    (c as u32 - 48) as nat
}

/// The character of a digit value below ten.
pub open spec fn digit_char(d: nat) -> char {
    (d + 48) as char
}

/// Every character of `s` is a decimal digit.
pub open spec fn all_digits(s: Seq<char>) -> bool {
    forall|i: int| 0 <= i < s.len() ==> is_digit(#[trigger] s[i])
}

/// The number that the digits `s` spell, most significant first.
pub open spec fn digits_value(s: Seq<char>) -> nat
    decreases s.len(),
{
    if s.len() == 0 {
        0
    } else {
        digits_value(s.drop_last()) * 10 + digit_value(s.last())
    }
}

/// `n` written in decimal, without leading zeros.
pub open spec fn dec(n: nat) -> Seq<char>
    decreases n,
{
    if n < 10 {
        seq![digit_char(n)]
    } else {
        dec(n / 10).push(digit_char(n % 10))
    }
}

/// `s` padded on the left with `'0'` to at least `w` characters, as `{:0w}`
/// formats a number.
pub open spec fn zero_pad(s: Seq<char>, w: nat) -> Seq<char> {
    if s.len() >= w {
        s
    } else {
        Seq::new((w - s.len()) as nat, |_i: int| '0') + s
    }
}

/// `u32::from_str`: an optional `'+'`, then one or more decimal digits whose
/// value fits in a `u32`.
pub open spec fn parse_u32(s: Seq<char>) -> Option<u32> {
    let d = if s.len() > 0 && s[0] == '+' { s.drop_first() } else { s };
    if d.len() == 0 || !all_digits(d) || digits_value(d) > u32::MAX {
        None
    } else {
        Some(digits_value(d) as u32)
    }
}

/// `i64::from_str`: an optional sign, then one or more decimal digits whose
/// signed value fits in an `i64`.
pub open spec fn parse_i64(s: Seq<char>) -> Option<i64> {
    let neg = s.len() > 0 && s[0] == '-';
    let d = if s.len() > 0 && (s[0] == '+' || s[0] == '-') { s.drop_first() } else { s };
    if d.len() == 0 || !all_digits(d) {
        None
    } else if neg {
        if digits_value(d) > 0x8000_0000_0000_0000 {
            None
        } else {
            Some((0 - digits_value(d)) as i64)
        }
    } else if digits_value(d) > i64::MAX {
        None
    } else {
        Some(digits_value(d) as i64)
    }
}

/// The character sequences that a vector of character vectors holds.
pub open spec fn views(v: Seq<Vec<char>>) -> Seq<Seq<char>> {
    v.map_values(|x: Vec<char>| x@)
}

// ---------------------------------------------------------------------------
// Lemmas
// ---------------------------------------------------------------------------

/// `views` distributes over `push`.
pub proof fn lemma_views_push(v: Seq<Vec<char>>, x: Vec<char>)
    ensures
        views(v.push(x)) == views(v).push(x@),
{
    assert(views(v.push(x)) =~= views(v).push(x@));
}

/// A digit string that denotes `n`.
pub proof fn lemma_dec_digits(n: nat)
    ensures
        dec(n).len() > 0,
        all_digits(dec(n)),
        digits_value(dec(n)) == n,
        dec(n)[0] != '+' && dec(n)[0] != '-',
    decreases n,
{
    if n >= 10 {
        lemma_dec_digits(n / 10);
        let d = dec(n / 10).push(digit_char(n % 10));
        assert(dec(n) == d);
        assert(d.drop_last() == dec(n / 10));
        assert(d.last() == digit_char(n % 10));
        assert(digit_value(digit_char(n % 10)) == n % 10);
        assert(digits_value(d) == (n / 10) * 10 + n % 10);
        assert((n / 10) * 10 + n % 10 == n);
        assert(digits_value(dec(n)) == n);
        assert forall|i: int| 0 <= i < d.len() implies is_digit(#[trigger] d[i]) by {
            if i < d.len() - 1 {
                assert(d[i] == dec(n / 10)[i]);
            }
        }
    } else {
        assert(dec(n).drop_last() =~= Seq::<char>::empty());
        assert(digits_value(Seq::<char>::empty()) == 0);
        assert(digit_value(digit_char(n)) == n);
    }
}

/// Decimal rendering is read back by `parse_u32`.
pub proof fn lemma_parse_dec_u32(n: u32)
    ensures
        parse_u32(dec(n as nat)) == Some(n),
{
    lemma_dec_digits(n as nat);
}

/// Adding a digit never makes the value smaller.
proof fn lemma_digits_value_prefix(s: Seq<char>, i: int, j: int)
    requires
        0 <= i <= j <= s.len(),
    ensures
        digits_value(s.take(i)) <= digits_value(s.take(j)),
    decreases j - i,
{
    if i < j {
        lemma_digits_value_prefix(s, i, j - 1);
        assert(s.take(j).drop_last() == s.take(j - 1));
    }
}

// ---------------------------------------------------------------------------
// Conversions between `str`, `String` and `char` sequences
// ---------------------------------------------------------------------------

/// The characters of `s`, in order.
pub fn chars_of(s: &str) -> (out: Vec<char>)
    ensures
        out@ == s@,
{
    let mut out: Vec<char> = Vec::new();
    for c in it: s.chars()
        invariant
            out@ == it.seq().take(it.index() as int),
            it.seq() == s@,
    {
        out.push(c);
    }
    out
}

/// Appends one character to a string (`String::push`).
#[verifier::external_body]
fn push_char(s: &mut String, c: char)
    ensures
        final(s)@ == old(s)@.push(c),
{
    s.push(c);
}

/// A string holding exactly the characters of `cs`.
pub fn string_of(cs: &[char]) -> (out: String)
    ensures
        out@ == cs@,
{
    let mut out = String::new();
    let mut i: usize = 0;
    while i < cs.len()
        invariant
            i <= cs.len(),
            out@ == cs@.take(i as int),
        decreases cs.len() - i,
    {
        push_char(&mut out, cs[i]);
        assert(cs@.take(i + 1) == cs@.take(i as int).push(cs@[i as int]));
        i = i + 1;
    }
    assert(cs@.take(cs.len() as int) == cs@);
    out
}

/// A copy of `s[a..b]`.
pub fn sub_vec(s: &[char], a: usize, b: usize) -> (out: Vec<char>)
    requires
        a <= b <= s.len(),
    ensures
        out@ == s@.subrange(a as int, b as int),
{
    let mut out: Vec<char> = Vec::new();
    let mut i: usize = a;
    while i < b
        invariant
            a <= i <= b <= s.len(),
            out@ == s@.subrange(a as int, i as int),
        decreases b - i,
    {
        out.push(s[i]);
        assert(s@.subrange(a as int, i + 1) == s@.subrange(a as int, i as int).push(s@[i as int]));
        i = i + 1;
    }
    out
}

/// The concatenation `a + b`.
pub fn concat(a: &[char], b: &[char]) -> (out: Vec<char>)
    ensures
        out@ == a@ + b@,
{
    let mut out: Vec<char> = Vec::new();
    append(&mut out, a);
    append(&mut out, b);
    out
}

/// Appends the characters of `b` to `out`.
pub fn append(out: &mut Vec<char>, b: &[char])
    ensures
        final(out)@ == old(out)@ + b@,
{
    let mut i: usize = 0;
    while i < b.len()
        invariant
            i <= b.len(),
            out@ == old(out)@ + b@.take(i as int),
        decreases b.len() - i,
    {
        out.push(b[i]);
        assert(b@.take(i + 1) == b@.take(i as int).push(b@[i as int]));
        i = i + 1;
    }
    assert(b@.take(b.len() as int) == b@);
}

/// Appends the characters of `b` to `out`.
pub fn append_str(out: &mut Vec<char>, b: &str)
    ensures
        final(out)@ == old(out)@ + b@,
{
    let cs = chars_of(b);
    append(out, cs.as_slice());
}

/// `a == b`, character by character.
pub fn eq_chars(a: &[char], b: &[char]) -> (r: bool)
    ensures
        r == (a@ == b@),
{
    if a.len() != b.len() {
        return false;
    }
    let mut i: usize = 0;
    while i < a.len()
        invariant
            i <= a.len() == b.len(),
            a@.take(i as int) == b@.take(i as int),
        decreases a.len() - i,
    {
        if a[i] != b[i] {
            assert(a@[i as int] != b@[i as int]);
            return false;
        }
        assert(a@.take(i + 1) == a@.take(i as int).push(a@[i as int]));
        assert(b@.take(i + 1) == b@.take(i as int).push(b@[i as int]));
        i = i + 1;
    }
    assert(a@ == a@.take(a.len() as int));
    assert(b@ == b@.take(b.len() as int));
    true
}

/// `a == b` for a character sequence and a string.
pub fn eq_str(a: &[char], b: &str) -> (r: bool)
    ensures
        r == (a@ == b@),
{
    let bc = chars_of(b);
    eq_chars(a, bc.as_slice())
}

// ---------------------------------------------------------------------------
// Searching, splitting, trimming
// ---------------------------------------------------------------------------

/// The first index at or after `i` that holds `c`.
pub fn find_char_from(s: &[char], c: char, i: usize) -> (r: Option<usize>)
    ensures
        match r {
            Some(k) => find_from(s@, c, i as int) == k as int,
            None => find_from(s@, c, i as int) == -1,
        },
{
    let mut k: usize = i;
    while k < s.len()
        invariant
            i <= k,
            find_from(s@, c, i as int) == find_from(s@, c, k as int),
        decreases s.len() - k,
    {
        if s[k] == c {
            return Some(k);
        }
        k = k + 1;
    }
    None
}

/// `split_once` on a character.
pub fn split_once_chars(s: &[char], c: char) -> (r: Option<(Vec<char>, Vec<char>)>)
    ensures
        r is Some == split_once(s@, c) is Some,
        r matches Some(p) ==> split_once(s@, c) == Some((p.0@, p.1@)),
{
    match find_char_from(s, c, 0) {
        Some(k) => {
            proof { lemma_find_from_bounds(s@, c, 0); }
            assert(k < s.len());
            Some((sub_vec(s, 0, k), sub_vec(s, k + 1, s.len())))
        },
        None => None,
    }
}

/// Where `find_from` can land.
pub proof fn lemma_find_from_bounds(s: Seq<char>, c: char, i: int)
    requires
        0 <= i,
    ensures
        find_from(s, c, i) == -1 || (i <= find_from(s, c, i) < s.len() && s[find_from(s, c, i)] == c),
        forall|k: int| #![trigger s[k]] i <= k < s.len() && (find_from(s, c, i) == -1 || k < find_from(s, c, i)) ==> s[k] != c,
    decreases s.len() - i,
{
    if i >= 0 && i < s.len() && s[i] != c {
        lemma_find_from_bounds(s, c, i + 1);
    }
}

/// Trimming is idempotent.
pub proof fn lemma_trim_idempotent(s: Seq<char>)
    ensures
        trim(trim(s)) == trim(s),
{
    let t = trim(s);
    let a = non_ws_from(s, 0);
    let b = non_ws_until(s, s.len() as int);
    lemma_non_ws_from_bounds(s, 0);
    lemma_non_ws_until_bounds(s, s.len() as int);
    if b <= a {
        assert(t.len() == 0);
        assert(non_ws_from(t, 0) == 0);
        assert(non_ws_until(t, 0) == 0);
    } else {
        assert(t.len() > 0);
        assert(t[0] == s[a]);
        assert(t[t.len() - 1] == s[b - 1]);
        assert(non_ws_from(t, 0) == 0);
        assert(non_ws_until(t, t.len() as int) == t.len());
        assert(t.subrange(0, t.len() as int) == t);
    }
}

/// A trimmed text is unchanged by trimming it after leading whitespace.
pub proof fn lemma_trim_after_ws(w: Seq<char>, u: Seq<char>)
    requires
        trim(u) == u,
        forall|i: int| 0 <= i < w.len() ==> is_ws(#[trigger] w[i]),
    ensures
        trim(w + u) == u,
{
    let v = w + u;
    lemma_non_ws_from_bounds(u, 0);
    lemma_non_ws_until_bounds(u, u.len() as int);
    if u.len() == 0 {
        assert(v == w);
        lemma_non_ws_from_all_ws(v, 0);
        assert(trim(v) =~= u);
    } else {
        // u is its own trim: it starts and ends with a non-space.
        assert(non_ws_from(u, 0) == 0 && non_ws_until(u, u.len() as int) == u.len()) by {
            let a = non_ws_from(u, 0);
            let b = non_ws_until(u, u.len() as int);
            if b <= a {
                assert(trim(u).len() == 0);
            } else {
                assert(trim(u).len() == b - a);
            }
        }
        lemma_non_ws_from_skip(v, w.len() as int);
        assert(v[w.len() as int] == u[0]);
        assert(v[v.len() - 1] == u[u.len() - 1]);
        assert(non_ws_until(v, v.len() as int) == v.len());
        assert(v.subrange(w.len() as int, v.len() as int) =~= u);
    }
}

proof fn lemma_non_ws_from_all_ws(s: Seq<char>, i: int)
    requires
        0 <= i <= s.len(),
        forall|k: int| 0 <= k < s.len() ==> is_ws(#[trigger] s[k]),
    ensures
        non_ws_from(s, i) == s.len(),
        non_ws_until(s, s.len() - i) == 0,
    decreases s.len() - i,
{
    if i < s.len() {
        lemma_non_ws_from_all_ws(s, i + 1);
        assert(is_ws(s[s.len() - i - 1]));
    }
}

proof fn lemma_non_ws_from_skip(s: Seq<char>, k: int)
    requires
        0 <= k < s.len(),
        forall|j: int| 0 <= j < k ==> is_ws(#[trigger] s[j]),
        !is_ws(s[k]),
    ensures
        non_ws_from(s, 0) == k,
{
    lemma_non_ws_from_skip_from(s, k, 0);
}

proof fn lemma_non_ws_from_skip_from(s: Seq<char>, k: int, i: int)
    requires
        0 <= i <= k < s.len(),
        forall|j: int| 0 <= j < k ==> is_ws(#[trigger] s[j]),
        !is_ws(s[k]),
    ensures
        non_ws_from(s, i) == k,
    decreases k - i,
{
    if i < k {
        lemma_non_ws_from_skip_from(s, k, i + 1);
    }
}

/// A text that is its own trim, when not empty, starts and ends with a
/// non-space.
pub proof fn lemma_trim_ends(s: Seq<char>)
    requires
        trim(s) == s,
        s.len() > 0,
    ensures
        !is_ws(s[0]),
        !is_ws(s[s.len() - 1]),
{
    let a = non_ws_from(s, 0);
    let b = non_ws_until(s, s.len() as int);
    lemma_non_ws_from_bounds(s, 0);
    lemma_non_ws_until_bounds(s, s.len() as int);
    if b <= a {
        assert(trim(s).len() == 0);
    } else {
        assert(trim(s).len() == b - a);
        assert(a == 0 && b == s.len());
    }
}

/// A text that starts and ends with a non-space is its own trim.
pub proof fn lemma_trim_unchanged(s: Seq<char>)
    requires
        s.len() > 0,
        !is_ws(s[0]),
        !is_ws(s[s.len() - 1]),
    ensures
        trim(s) == s,
{
    assert(non_ws_from(s, 0) == 0);
    assert(non_ws_until(s, s.len() as int) == s.len());
    assert(s.subrange(0, s.len() as int) == s);
}

/// Where `non_ws_from` can land.
proof fn lemma_non_ws_from_bounds(s: Seq<char>, i: int)
    requires
        0 <= i <= s.len(),
    ensures
        i <= non_ws_from(s, i) <= s.len(),
        non_ws_from(s, i) < s.len() ==> !is_ws(s[non_ws_from(s, i)]),
    decreases s.len() - i,
{
    if i < s.len() && is_ws(s[i]) {
        lemma_non_ws_from_bounds(s, i + 1);
    }
}

/// Where `non_ws_until` can land.
proof fn lemma_non_ws_until_bounds(s: Seq<char>, j: int)
    requires
        0 <= j <= s.len(),
    ensures
        0 <= non_ws_until(s, j) <= j,
        non_ws_until(s, j) > 0 ==> !is_ws(s[non_ws_until(s, j) - 1]),
        forall|k: int| #![trigger s[k]] 0 <= k < j && !is_ws(s[k]) ==> k < non_ws_until(s, j),
    decreases j,
{
    if j > 0 && is_ws(s[j - 1]) {
        lemma_non_ws_until_bounds(s, j - 1);
    }
}

/// `str::trim`.
pub fn trim_chars(s: &[char]) -> (out: Vec<char>)
    ensures
        out@ == trim(s@),
{
    let mut a: usize = 0;
    while a < s.len() && is_ws_exec(s[a])
        invariant
            a <= s.len(),
            non_ws_from(s@, 0) == non_ws_from(s@, a as int),
        decreases s.len() - a,
    {
        a = a + 1;
    }
    let mut b: usize = s.len();
    while b > 0 && is_ws_exec(s[b - 1])
        invariant
            b <= s.len(),
            non_ws_until(s@, s.len() as int) == non_ws_until(s@, b as int),
        decreases b,
    {
        b = b - 1;
    }
    if b <= a {
        Vec::new()
    } else {
        sub_vec(s, a, b)
    }
}

/// `char::is_whitespace`.
pub fn is_ws_exec(c: char) -> (r: bool)
    ensures
        r == is_ws(c),
{
    let u: u32 = c as u32;
    u == 0x20 || (0x09 <= u && u <= 0x0d) || u == 0x85 || u == 0xa0 || u == 0x1680 || (0x2000
        <= u && u <= 0x200a) || u == 0x2028 || u == 0x2029 || u == 0x202f || u == 0x205f || u
        == 0x3000
}

/// `str::trim` on a string.
pub fn trim_str(s: &str) -> (out: Vec<char>)
    ensures
        out@ == trim(s@),
{
    let cs = chars_of(s);
    trim_chars(cs.as_slice())
}

/// `s` begins with `p`.
pub fn starts_with_chars(s: &[char], p: &[char]) -> (r: bool)
    ensures
        r == starts_with(s@, p@),
{
    if p.len() > s.len() {
        return false;
    }
    let head = sub_vec(s, 0, p.len());
    assert(head@ == s@.take(p.len() as int));
    eq_chars(head.as_slice(), p)
}

/// `s` ends with `p`.
pub fn ends_with_chars(s: &[char], p: &[char]) -> (r: bool)
    ensures
        r == ends_with(s@, p@),
{
    if p.len() > s.len() {
        return false;
    }
    let tail = sub_vec(s, s.len() - p.len(), s.len());
    assert(tail@ == s@.skip(s.len() - p.len()));
    eq_chars(tail.as_slice(), p)
}

/// `str::strip_prefix`.
pub fn strip_prefix_chars(s: &[char], p: &[char]) -> (r: Option<Vec<char>>)
    ensures
        match strip_prefix(s@, p@) {
            Some(t) => r is Some && r->0@ == t,
            None => r is None,
        },
{
    if starts_with_chars(s, p) {
        let t = sub_vec(s, p.len(), s.len());
        assert(t@ == s@.skip(p.len() as int));
        Some(t)
    } else {
        None
    }
}

/// `str::strip_suffix`.
pub fn strip_suffix_chars(s: &[char], p: &[char]) -> (r: Option<Vec<char>>)
    ensures
        match strip_suffix(s@, p@) {
            Some(t) => r is Some && r->0@ == t,
            None => r is None,
        },
{
    if ends_with_chars(s, p) {
        let t = sub_vec(s, 0, s.len() - p.len());
        assert(t@ == s@.take(s.len() - p.len()));
        Some(t)
    } else {
        None
    }
}

/// Where `find_seq_from` can land.
pub proof fn lemma_find_seq_from_bounds(s: Seq<char>, p: Seq<char>, i: int)
    requires
        0 <= i,
    ensures
        find_seq_from(s, p, i) == -1 || (i <= find_seq_from(s, p, i) && find_seq_from(s, p, i) + p.len() <= s.len()),
    decreases s.len() + 1 - i,
{
    if i + p.len() <= s.len() && s.subrange(i, i + p.len()) != p {
        lemma_find_seq_from_bounds(s, p, i + 1);
    }
}

/// `split_once` on a string pattern.
pub fn split_once_str(s: &[char], p: &[char]) -> (r: Option<(Vec<char>, Vec<char>)>)
    ensures
        r is Some == split_once_seq(s@, p@) is Some,
        r matches Some(x) ==> split_once_seq(s@, p@) == Some((x.0@, x.1@)),
{
    if p.len() > s.len() {
        return None;
    }
    let mut k: usize = 0;
    loop
        invariant
            p.len() <= s.len(),
            k <= s.len() - p.len(),
            find_seq_from(s@, p@, 0) == find_seq_from(s@, p@, k as int),
        decreases s.len() - p.len() - k,
    {
        let w = sub_vec(s, k, k + p.len());
        if eq_chars(w.as_slice(), p) {
            return Some((sub_vec(s, 0, k), sub_vec(s, k + p.len(), s.len())));
        }
        if k == s.len() - p.len() {
            assert(find_seq_from(s@, p@, k + 1) == -1);
            return None;
        }
        k = k + 1;
    }
}

/// The first line of `s`, if it has one.
pub fn first_line_of(s: &str) -> (r: Option<Vec<char>>)
    ensures
        r is Some == first_line(s@) is Some,
        r matches Some(l) ==> first_line(s@) == Some(l@),
{
    let ls = lines_str(s);
    if ls.len() == 0 {
        None
    } else {
        assert(views(ls@)[0] == ls@[0]@);
        Some(sub_vec(ls[0].as_slice(), 0, ls[0].len()))
    }
}

/// `p` occurs in `s`.
pub fn contains_chars(s: &[char], p: &[char]) -> (r: bool)
    ensures
        r == contains(s@, p@),
{
    if p.len() > s.len() {
        return false;
    }
    let mut k: usize = 0;
    loop
        invariant
            p.len() <= s.len(),
            k <= s.len() - p.len(),
            forall|j: int| 0 <= j < k ==> #[trigger] s@.subrange(j, j + p@.len()) != p@,
        decreases s.len() - p.len() - k,
    {
        let w = sub_vec(s, k, k + p.len());
        if eq_chars(w.as_slice(), p) {
            return true;
        }
        if k == s.len() - p.len() {
            return false;
        }
        k = k + 1;
    }
}

/// `str::lines`.
pub fn lines_of(s: &[char]) -> (out: Vec<Vec<char>>)
    ensures
        views(out@) == lines(s@),
{
    let mut out: Vec<Vec<char>> = Vec::new();
    let mut i: usize = 0;
    while i < s.len()
        invariant
            i <= s.len(),
            views(out@) + lines_from(s@, i as int) == lines(s@),
        decreases s.len() - i,
    {
        let ghost before = out@;
        match find_char_from(s, '\n', i) {
            None => {
                let line = sub_vec(s, i, s.len());
                proof { lemma_views_push(before, line); }
                out.push(line);
                i = s.len();
            },
            Some(k) => {
                proof { lemma_find_from_bounds(s@, '\n', i as int); }
                let mut line = sub_vec(s, i, k);
                if line.len() > 0 && line[line.len() - 1] == '\r' {
                    line.pop();
                }
                assert(line@ == chomp_cr(s@.subrange(i as int, k as int)));
                proof { lemma_views_push(before, line); }
                out.push(line);
                i = k + 1;
            },
        }
    }
    out
}

/// The lines of a string.
pub fn lines_str(s: &str) -> (out: Vec<Vec<char>>)
    ensures
        views(out@) == lines(s@),
{
    let cs = chars_of(s);
    lines_of(cs.as_slice())
}

// ---------------------------------------------------------------------------
// Decimal numbers
// ---------------------------------------------------------------------------

/// The character of a digit value.
pub fn digit_char_exec(d: u64) -> (c: char)
    requires
        d < 10,
    ensures
        c == digit_char(d as nat),
{
    let b: u8 = d as u8;
    (b + 48) as char
}

/// `n` in decimal.
pub fn render_u64(n: u64) -> (out: Vec<char>)
    ensures
        out@ == dec(n as nat),
    decreases n,
{
    if n < 10 {
        let mut out: Vec<char> = Vec::new();
        out.push(digit_char_exec(n));
        out
    } else {
        let mut out = render_u64(n / 10);
        out.push(digit_char_exec(n % 10));
        out
    }
}

/// `n` in decimal, zero-padded to at least `w` characters.
pub fn render_padded(n: u64, w: usize) -> (out: Vec<char>)
    ensures
        out@ == zero_pad(dec(n as nat), w as nat),
{
    let digits = render_u64(n);
    if digits.len() >= w {
        return digits;
    }
    let mut out: Vec<char> = Vec::new();
    let k: usize = w - digits.len();
    let mut i: usize = 0;
    while i < k
        invariant
            i <= k,
            out@ == Seq::new(i as nat, |_j: int| '0'),
        decreases k - i,
    {
        out.push('0');
        assert(out@ == Seq::new((i + 1) as nat, |_j: int| '0'));
        i = i + 1;
    }
    append(&mut out, digits.as_slice());
    out
}

/// `n` in decimal, as a string.
pub fn u32_to_string(n: u32) -> (out: String)
    ensures
        out@ == dec(n as nat),
{
    let v = render_u64(n as u64);
    string_of(v.as_slice())
}

/// The value of the digits `d`, if it is at most `max`.
fn digits_value_bounded(d: &[char], max: u64) -> (r: Option<u64>)
    requires
        all_digits(d@),
        max >= 9,
    ensures
        match r {
            Some(v) => v as nat == digits_value(d@) && v <= max,
            None => digits_value(d@) > max,
        },
{
    let mut acc: u64 = 0;
    let mut i: usize = 0;
    while i < d.len()
        invariant
            i <= d.len(),
            all_digits(d@),
            acc as nat == digits_value(d@.take(i as int)),
            acc <= max,
            max >= 9,
        decreases d.len() - i,
    {
        let u: u32 = d[i] as u32;
        assert(is_digit(d@[i as int]));
        assert(48 <= u <= 57);
        let dv: u64 = (u - 48) as u64;
        assert(d@.take(i + 1).drop_last() == d@.take(i as int));
        if acc > (max - dv) / 10 {
            proof {
                lemma_digits_value_prefix(d@, i + 1, d.len() as int);
                assert(d@.take(d.len() as int) == d@);
                assert(acc * 10 + dv > max) by (nonlinear_arith)
                    requires acc > (max - dv) / 10, dv <= max;
            }
            return None;
        }
        proof {
            assert(acc * 10 + dv <= max) by (nonlinear_arith)
                requires acc <= (max - dv) / 10, dv <= 9, max >= acc;
        }
        acc = acc * 10 + dv;
        i = i + 1;
    }
    assert(d@.take(d.len() as int) == d@);
    Some(acc)
}

/// Every character of `d` is a digit.
fn all_digits_exec(d: &[char]) -> (r: bool)
    ensures
        r == all_digits(d@),
{
    let mut i: usize = 0;
    while i < d.len()
        invariant
            i <= d.len(),
            forall|j: int| 0 <= j < i ==> is_digit(#[trigger] d@[j]),
        decreases d.len() - i,
    {
        let u: u32 = d[i] as u32;
        if !(48 <= u && u <= 57) {
            assert(!is_digit(d@[i as int]));
            return false;
        }
        i = i + 1;
    }
    true
}

/// `u32::from_str` on characters.
pub fn parse_u32_chars(s: &[char]) -> (r: Option<u32>)
    ensures
        r == parse_u32(s@),
{
    let d: &[char] = if s.len() > 0 && s[0] == '+' { &s[1..s.len()] } else { s };
    assert(d@ == (if s@.len() > 0 && s@[0] == '+' { s@.drop_first() } else { s@ }));
    if d.len() == 0 || !all_digits_exec(d) {
        return None;
    }
    match digits_value_bounded(d, 0xffff_ffff) {
        Some(v) => Some(v as u32),
        None => None,
    }
}

/// `i64::from_str` on characters.
pub fn parse_i64_chars(s: &[char]) -> (r: Option<i64>)
    ensures
        r == parse_i64(s@),
{
    let neg = s.len() > 0 && s[0] == '-';
    let d: &[char] = if s.len() > 0 && (s[0] == '+' || s[0] == '-') { &s[1..s.len()] } else { s };
    assert(d@ == (if s@.len() > 0 && (s@[0] == '+' || s@[0] == '-') { s@.drop_first() } else { s@ }));
    if d.len() == 0 || !all_digits_exec(d) {
        return None;
    }
    if neg {
        match digits_value_bounded(d, 0x8000_0000_0000_0000) {
            Some(v) => {
                if v == 0x8000_0000_0000_0000 {
                    Some(i64::MIN)
                } else {
                    let m: i64 = v as i64;
                    Some(-m)
                }
            },
            None => None,
        }
    } else {
        match digits_value_bounded(d, 0x7fff_ffff_ffff_ffff) {
            Some(v) => Some(v as i64),
            None => None,
        }
    }
}

} // verus!
