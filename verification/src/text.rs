//! Text as sequences of characters: the searching, trimming and splitting the
//! parsers of this crate are built from.
use vstd::prelude::*;

verus! {

/// The characters of a string slice.
pub(crate) fn chars_of(s: &str) -> (v: Vec<char>)
    ensures
        v@ == s@,
{
    broadcast use vstd::string::axiom_spec_iter;
    let mut v: Vec<char> = Vec::new();
    for c in iter: s.chars()
        invariant
            v@ == iter.seq().take(iter.index() as int),
            iter.seq() == s@,
    {
        v.push(c);
    }
    v
}

/// Appends a character to a string.
///
/// Wraps `String::push`: the string gets `c` at its end.
#[verifier::external_body]
fn push_char(s: &mut String, c: char)
    ensures
        final(s)@ == old(s)@.push(c),
{
    s.push(c)
}

/// A string made of the given characters.
pub(crate) fn string_of(v: &[char]) -> (s: String)
    ensures
        s@ == v@,
{
    let mut s = String::new();
    let mut i: usize = 0;
    while i < v.len()
        invariant
            0 <= i <= v@.len(),
            s@ == v@.take(i as int),
        decreases v@.len() - i,
    {
        push_char(&mut s, v[i]);
        proof {
            assert(v@.take(i + 1) =~= v@.take(i as int).push(v@[i as int]));
        }
        i = i + 1;
    }
    proof {
        assert(v@.take(v@.len() as int) =~= v@);
    }
    s
}

/// `c` is white space as `char::is_whitespace` defines it (the Unicode
/// `White_Space` property).
pub open spec fn is_ws(c: char) -> bool {
    ||| ('\u{9}' <= c && c <= '\u{d}')
    ||| c == ' '
    ||| c == '\u{85}'
    ||| c == '\u{a0}'
    ||| c == '\u{1680}'
    ||| ('\u{2000}' <= c && c <= '\u{200a}')
    ||| c == '\u{2028}'
    ||| c == '\u{2029}'
    ||| c == '\u{202f}'
    ||| c == '\u{205f}'
    ||| c == '\u{3000}'
}

pub fn ws(c: char) -> (b: bool)
    ensures
        b == is_ws(c),
{
    ('\u{9}' <= c && c <= '\u{d}') || c == ' ' || c == '\u{85}' || c == '\u{a0}' || c
        == '\u{1680}' || ('\u{2000}' <= c && c <= '\u{200a}') || c == '\u{2028}' || c
        == '\u{2029}' || c == '\u{202f}' || c == '\u{205f}' || c == '\u{3000}'
}

pub open spec fn is_digit(c: char) -> bool {
    '0' <= c && c <= '9'
}

pub fn digit(c: char) -> (b: bool)
    ensures
        b == is_digit(c),
{
    '0' <= c && c <= '9'
}

pub open spec fn is_alnum(c: char) -> bool {
    ||| is_digit(c)
    ||| ('a' <= c && c <= 'z')
    ||| ('A' <= c && c <= 'Z')
}

/// A character of a YouTube id: ASCII alphanumeric, `-` or `_`.
pub open spec fn is_id_char(c: char) -> bool {
    is_alnum(c) || c == '-' || c == '_'
}

pub fn id_char(c: char) -> (b: bool)
    ensures
        b == is_id_char(c),
{
    ('0' <= c && c <= '9') || ('a' <= c && c <= 'z') || ('A' <= c && c <= 'Z') || c == '-' || c
        == '_'
}

/// Number of leading white-space characters.
pub open spec fn lead_ws(s: Seq<char>) -> int
    decreases s.len(),
{
    if s.len() == 0 {
        0
    } else if is_ws(s[0]) {
        1 + lead_ws(s.drop_first())
    } else {
        0
    }
}

/// Number of trailing white-space characters.
pub open spec fn trail_ws(s: Seq<char>) -> int
    decreases s.len(),
{
    if s.len() == 0 {
        0
    } else if is_ws(s.last()) {
        1 + trail_ws(s.drop_last())
    } else {
        0
    }
}

/// `str::trim`: without leading and trailing white space.
pub open spec fn trim(s: Seq<char>) -> Seq<char> {
    let a = lead_ws(s);
    let t = s.skip(a);
    t.take(t.len() - trail_ws(t))
}

proof fn lemma_lead_ws(s: Seq<char>, i: int)
    requires
        0 <= i <= s.len(),
        forall|j: int| 0 <= j < i ==> is_ws(s[j]),
    ensures
        lead_ws(s) == i + lead_ws(s.skip(i)),
        0 <= lead_ws(s) <= s.len(),
    decreases i,
{
    lemma_lead_ws_bound(s);
    if i > 0 {
        assert(is_ws(s[0]));
        assert(lead_ws(s) == 1 + lead_ws(s.drop_first()));
        assert forall|j: int| 0 <= j < i - 1 implies is_ws(s.drop_first()[j]) by {
            assert(s.drop_first()[j] == s[j + 1]);
        }
        assert(s.drop_first().skip(i - 1) =~= s.skip(i));
        lemma_lead_ws(s.drop_first(), i - 1);
    } else {
        assert(s.skip(0) =~= s);
    }
}

proof fn lemma_lead_ws_bound(s: Seq<char>)
    ensures
        0 <= lead_ws(s) <= s.len(),
    decreases s.len(),
{
    if s.len() > 0 {
        lemma_lead_ws_bound(s.drop_first());
    }
}

proof fn lemma_trail_ws(s: Seq<char>, i: int)
    requires
        0 <= i <= s.len(),
        forall|j: int| s.len() - i <= j < s.len() ==> is_ws(s[j]),
    ensures
        trail_ws(s) == i + trail_ws(s.take(s.len() - i)),
        0 <= trail_ws(s) <= s.len(),
    decreases i,
{
    lemma_trail_ws_bound(s);
    if i > 0 {
        assert(is_ws(s[s.len() - 1]));
        assert(trail_ws(s) == 1 + trail_ws(s.drop_last()));
        assert forall|j: int| s.drop_last().len() - (i - 1) <= j < s.drop_last().len() implies is_ws(
            s.drop_last()[j],
        ) by {
            assert(s.drop_last()[j] == s[j]);
        }
        assert(s.drop_last().take(s.len() - 1 - (i - 1)) =~= s.take(s.len() - i));
        lemma_trail_ws(s.drop_last(), i - 1);
    } else {
        assert(s.take(s.len() as int) =~= s);
    }
}

proof fn lemma_trail_ws_bound(s: Seq<char>)
    ensures
        0 <= trail_ws(s) <= s.len(),
    decreases s.len(),
{
    if s.len() > 0 {
        lemma_trail_ws_bound(s.drop_last());
    }
}

proof fn lemma_trail_ws_all(s: Seq<char>)
    ensures
        forall|j: int| s.len() - trail_ws(s) <= j < s.len() ==> is_ws(s[j]),
    decreases s.len(),
{
    lemma_trail_ws_bound(s);
    if s.len() > 0 && is_ws(s.last()) {
        let d = s.drop_last();
        lemma_trail_ws_all(d);
        assert forall|j: int| s.len() - trail_ws(s) <= j < s.len() implies is_ws(s[j]) by {
            if j < s.len() - 1 {
                assert(s[j] == d[j]);
            }
        }
    }
}

/// Trimming twice is trimming once.
pub proof fn lemma_trim_idempotent(s: Seq<char>)
    ensures
        trim(trim(s)) == trim(s),
{
    let a = lead_ws(s);
    lemma_lead_ws_bound(s);
    lemma_lead_ws(s, 0);
    let t = s.skip(a);
    lemma_trail_ws_bound(t);
    let k = trail_ws(t);
    let u = t.take(t.len() - k);
    // `t` starts with no white space.
    assert forall|j: int| 0 <= j < a implies is_ws(s[j]) by {
        lemma_lead_ws_all(s);
    }
    lemma_lead_ws(s, a);
    assert(lead_ws(t) == 0);
    // `u` ends where the trailing white space of `t` starts.
    lemma_trail_ws_all(t);
    lemma_trail_ws(t, k);
    assert(t.take(t.len() - k) == u);
    assert(trail_ws(u) == 0);
    if u.len() > 0 {
        assert(u[0] == t[0]);
        lemma_lead_ws_bound(t.drop_first());
        assert(!is_ws(t[0]));
        assert(lead_ws(u) == 0);
    } else {
        assert(lead_ws(u) == 0);
    }
    assert(u.skip(0) =~= u);
    assert(u.take(u.len() as int) =~= u);
}

proof fn lemma_lead_ws_all(s: Seq<char>)
    ensures
        forall|j: int| 0 <= j < lead_ws(s) ==> is_ws(s[j]),
    decreases s.len(),
{
    lemma_lead_ws_bound(s);
    if s.len() > 0 && is_ws(s[0]) {
        let d = s.drop_first();
        lemma_lead_ws_all(d);
        assert forall|j: int| 0 <= j < lead_ws(s) implies is_ws(s[j]) by {
            if j > 0 {
                assert(s[j] == d[j - 1]);
            }
        }
    }
}

/// Bounds of `trim(s)` within `s`: it is `s[a..b]`.
pub fn trim_bounds(s: &[char]) -> (r: (usize, usize))
    ensures
        r.0 <= r.1 <= s@.len(),
        s@.subrange(r.0 as int, r.1 as int) == trim(s@),
        r.0 == lead_ws(s@),
{
    let mut a: usize = 0;
    while a < s.len() && ws(s[a])
        invariant
            0 <= a <= s@.len(),
            forall|j: int| 0 <= j < a ==> is_ws(s@[j]),
        decreases s@.len() - a,
    {
        a = a + 1;
    }
    proof {
        lemma_lead_ws(s@, a as int);
        if a < s@.len() {
            assert(s@.skip(a as int)[0] == s@[a as int]);
        }
        assert(lead_ws(s@.skip(a as int)) == 0);
    }
    let mut b: usize = s.len();
    while b > a && ws(s[b - 1])
        invariant
            a <= b <= s@.len(),
            forall|j: int| b <= j < s@.len() ==> is_ws(s@[j]),
        decreases b,
    {
        b = b - 1;
    }
    proof {
        let t = s@.skip(a as int);
        let k = s@.len() - b;
        assert forall|j: int| t.len() - k <= j < t.len() implies is_ws(t[j]) by {
            assert(t[j] == s@[a + j]);
        }
        lemma_trail_ws(t, k);
        assert(t.take(t.len() - k) =~= s@.subrange(a as int, b as int));
        let u = t.take(t.len() - k);
        if u.len() > 0 {
            assert(u.last() == s@[b - 1]);
        }
        assert(trail_ws(u) == 0);
    }
    (a, b)
}

/// `str::trim`.
pub fn trimmed(s: &[char]) -> (r: Vec<char>)
    ensures
        r@ == trim(s@),
{
    let (a, b) = trim_bounds(s);
    slice_vec(s, a, b)
}

/// A copy of `s[a..b]`.
pub fn slice_vec(s: &[char], a: usize, b: usize) -> (r: Vec<char>)
    requires
        a <= b <= s@.len(),
    ensures
        r@ == s@.subrange(a as int, b as int),
{
    let mut r: Vec<char> = Vec::new();
    let mut i = a;
    while i < b
        invariant
            a <= i <= b <= s@.len(),
            r@ == s@.subrange(a as int, i as int),
        decreases b - i,
    {
        r.push(s[i]);
        i = i + 1;
    }
    r
}

/// `p` occurs in `s` at position `k`.
pub open spec fn matches_at(s: Seq<char>, p: Seq<char>, k: int) -> bool {
    0 <= k && k + p.len() <= s.len() && s.subrange(k, k + p.len()) == p
}

/// First position at or after `k` where `p` occurs in `s`, or -1.
pub open spec fn find_from(s: Seq<char>, p: Seq<char>, k: int) -> int
    decreases s.len() + 1 - k,
{
    if k < 0 || k + p.len() > s.len() {
        -1
    } else if matches_at(s, p, k) {
        k
    } else {
        find_from(s, p, k + 1)
    }
}

/// First occurrence of `p` in `s` (`str::find`), or -1.
pub open spec fn find(s: Seq<char>, p: Seq<char>) -> int {
    find_from(s, p, 0)
}

pub proof fn lemma_find_from(s: Seq<char>, p: Seq<char>, k: int)
    requires
        0 <= k,
    ensures
        find_from(s, p, k) == -1 || (k <= find_from(s, p, k) && matches_at(
            s,
            p,
            find_from(s, p, k),
        )),
        forall|j: int| k <= j && (find_from(s, p, k) == -1 || j < find_from(s, p, k)) ==> !matches_at(s, p, j),
    decreases s.len() + 1 - k,
{
    if k + p.len() <= s.len() && !matches_at(s, p, k) {
        lemma_find_from(s, p, k + 1);
    }
}

/// `p` occurs at `k` in `s`.
pub fn matches_here(s: &[char], p: &[char], k: usize) -> (b: bool)
    ensures
        b == matches_at(s@, p@, k as int),
{
    if k > s.len() || p.len() > s.len() - k {
        return false;
    }
    let sl = s.len();
    let mut i: usize = 0;
    while i < p.len()
        invariant
            sl == s@.len(),
            k + p@.len() <= s@.len(),
            0 <= i <= p@.len(),
            forall|j: int| 0 <= j < i ==> s@[k + j] == p@[j],
        decreases p@.len() - i,
    {
        if s[k + i] != p[i] {
            proof {
                assert(s@.subrange(k as int, k + p@.len())[i as int] != p@[i as int]);
            }
            return false;
        }
        i = i + 1;
    }
    proof {
        assert(s@.subrange(k as int, k + p@.len()) =~= p@);
    }
    true
}

/// First occurrence of `p` in `s` at or after `k` (`str::find` on `s[k..]`).
pub fn find_at(s: &[char], p: &[char], k: usize) -> (r: Option<usize>)
    ensures
        match r {
            Some(i) => i == find_from(s@, p@, k as int) && i >= k,
            None => find_from(s@, p@, k as int) == -1,
        },
{
    let n = s.len();
    let m = p.len();
    if m > n || k > n - m {
        return None;
    }
    let last = n - m;
    let mut i = k;
    while i <= last
        invariant
            n == s@.len(),
            m == p@.len(),
            last == n - m,
            k <= i,
            find_from(s@, p@, k as int) == find_from(s@, p@, i as int),
        decreases last + 1 - i,
    {
        if matches_here(s, p, i) {
            return Some(i);
        }
        proof {
            if m == 0 {
                assert(s@.subrange(i as int, i as int) =~= p@);
            }
        }
        i = i + 1;
    }
    None
}

/// `str::contains`.
pub fn contains(s: &[char], p: &[char]) -> (b: bool)
    ensures
        b == (find(s@, p@) >= 0),
{
    find_at(s, p, 0).is_some()
}

/// `str::starts_with`.
pub fn starts_with(s: &[char], p: &[char]) -> (b: bool)
    ensures
        b == matches_at(s@, p@, 0),
{
    matches_here(s, p, 0)
}

/// `str::ends_with`.
pub fn ends_with(s: &[char], p: &[char]) -> (b: bool)
    ensures
        b == (p@.len() <= s@.len() && matches_at(s@, p@, s@.len() - p@.len())),
{
    if p.len() > s.len() {
        false
    } else {
        matches_here(s, p, s.len() - p.len())
    }
}

/// `p` occurs somewhere in `s`.
pub open spec fn has(s: Seq<char>, p: Seq<char>) -> bool {
    find(s, p) >= 0
}

/// `str::contains` on string slices.
pub fn str_contains(s: &str, p: &str) -> (b: bool)
    ensures
        b == has(s@, p@),
{
    let sv = chars_of(s);
    let pv = chars_of(p);
    contains(sv.as_slice(), pv.as_slice())
}

/// `str::starts_with` on string slices.
pub fn str_starts_with(s: &str, p: &str) -> (b: bool)
    ensures
        b == matches_at(s@, p@, 0),
{
    let sv = chars_of(s);
    let pv = chars_of(p);
    starts_with(sv.as_slice(), pv.as_slice())
}

/// `str::ends_with` on string slices.
pub fn str_ends_with(s: &str, p: &str) -> (b: bool)
    ensures
        b == (p@.len() <= s@.len() && matches_at(s@, p@, s@.len() - p@.len())),
{
    let sv = chars_of(s);
    let pv = chars_of(p);
    ends_with(sv.as_slice(), pv.as_slice())
}

/// `a` followed by `b`.
pub fn concat(a: &str, b: &str) -> (r: String)
    ensures
        r@ == a@ + b@,
{
    let mut v = chars_of(a);
    let mut w = chars_of(b);
    v.append(&mut w);
    string_of(v.as_slice())
}

/// `str::strip_prefix`: what follows `p` when `s` starts with it.
pub fn strip_prefix(s: &str, p: &str) -> (r: Option<String>)
    ensures
        match r {
            Some(rest) => matches_at(s@, p@, 0) && rest@ == s@.skip(p@.len() as int),
            None => !matches_at(s@, p@, 0),
        },
{
    let sv = chars_of(s);
    let pv = chars_of(p);
    if starts_with(sv.as_slice(), pv.as_slice()) {
        let rest = slice_vec(sv.as_slice(), pv.len(), sv.len());
        proof {
            assert(rest@ =~= s@.skip(p@.len() as int));
        }
        Some(string_of(rest.as_slice()))
    } else {
        None
    }
}

/// Equality of two string slices.
pub fn str_eq(a: &str, b: &str) -> (r: bool)
    ensures
        r == (a@ == b@),
{
    let av = chars_of(a);
    let bv = chars_of(b);
    same(av.as_slice(), bv.as_slice())
}

/// Equality of two character sequences.
pub fn same(a: &[char], b: &[char]) -> (r: bool)
    ensures
        r == (a@ == b@),
{
    if a.len() != b.len() {
        return false;
    }
    let r = matches_here(a, b, 0);
    proof {
        if r {
            assert(a@ =~= a@.subrange(0, b@.len() as int));
        } else {
            assert(a@.subrange(0, a@.len() as int) =~= a@);
        }
    }
    r
}

/// Length of the longest prefix of `s` made of id characters.
pub open spec fn id_run(s: Seq<char>) -> int
    decreases s.len(),
{
    if s.len() == 0 {
        0
    } else if is_id_char(s[0]) {
        1 + id_run(s.drop_first())
    } else {
        0
    }
}

proof fn lemma_id_run(s: Seq<char>, i: int)
    requires
        0 <= i <= s.len(),
        forall|j: int| 0 <= j < i ==> is_id_char(s[j]),
    ensures
        id_run(s) == i + id_run(s.skip(i)),
    decreases i,
{
    if i > 0 {
        assert(is_id_char(s[0]));
        assert(id_run(s) == 1 + id_run(s.drop_first()));
        assert forall|j: int| 0 <= j < i - 1 implies is_id_char(s.drop_first()[j]) by {
            assert(s.drop_first()[j] == s[j + 1]);
        }
        assert(s.drop_first().skip(i - 1) =~= s.skip(i));
        lemma_id_run(s.drop_first(), i - 1);
    } else {
        assert(s.skip(0) =~= s);
    }
}

pub proof fn lemma_id_run_bound(s: Seq<char>)
    ensures
        0 <= id_run(s) <= s.len(),
    decreases s.len(),
{
    if s.len() > 0 {
        lemma_id_run_bound(s.drop_first());
    }
}

/// The id characters at the start of `s[k..]` (`take_while` of id chars).
pub fn take_id(s: &[char], k: usize) -> (r: Vec<char>)
    requires
        k <= s@.len(),
    ensures
        r@ == s@.skip(k as int).take(id_run(s@.skip(k as int))),
{
    let mut i = k;
    while i < s.len() && id_char(s[i])
        invariant
            k <= i <= s@.len(),
            forall|j: int| k <= j < i ==> is_id_char(s@[j]),
        decreases s@.len() - i,
    {
        i = i + 1;
    }
    proof {
        let t = s@.skip(k as int);
        lemma_id_run(t, i - k);
        if i < s@.len() {
            assert(t.skip(i - k)[0] == s@[i as int]);
        }
        assert(id_run(t.skip(i - k)) == 0);
        assert(t.take(i - k) =~= s@.subrange(k as int, i as int));
    }
    slice_vec(s, k, i)
}

/// Position of the first `c` in `s` at or after `k`, or -1.
pub open spec fn find_char_from(s: Seq<char>, c: char, k: int) -> int
    decreases s.len() - k,
{
    if k < 0 || k >= s.len() {
        -1
    } else if s[k] == c {
        k
    } else {
        find_char_from(s, c, k + 1)
    }
}

pub proof fn lemma_find_char_from(s: Seq<char>, c: char, k: int)
    requires
        0 <= k,
    ensures
        find_char_from(s, c, k) == -1 || (k <= find_char_from(s, c, k) < s.len() && s[find_char_from(
            s,
            c,
            k,
        )] == c),
        forall|j: int|
            k <= j < s.len() && (find_char_from(s, c, k) == -1 || j < find_char_from(s, c, k))
                ==> s[j] != c,
    decreases s.len() - k,
{
    if k < s.len() && s[k] != c {
        lemma_find_char_from(s, c, k + 1);
    }
}

/// First `c` in `s[k..]`.
pub fn find_char(s: &[char], c: char, k: usize) -> (r: Option<usize>)
    ensures
        match r {
            Some(i) => i == find_char_from(s@, c, k as int),
            None => find_char_from(s@, c, k as int) == -1,
        },
{
    let mut i = k;
    while i < s.len()
        invariant
            k <= i,
            find_char_from(s@, c, k as int) == find_char_from(s@, c, i as int),
        decreases s@.len() - i,
    {
        if s[i] == c {
            return Some(i);
        }
        i = i + 1;
    }
    None
}

/// Position of the last `c` in `s[..end]`, or -1.
pub open spec fn rfind_char_before(s: Seq<char>, c: char, end: int) -> int
    decreases end,
{
    if end <= 0 || end > s.len() {
        -1
    } else if s[end - 1] == c {
        end - 1
    } else {
        rfind_char_before(s, c, end - 1)
    }
}

/// Last `c` in `s` (`str::rfind`).
pub fn rfind_char(s: &[char], c: char) -> (r: Option<usize>)
    ensures
        match r {
            Some(i) => i == rfind_char_before(s@, c, s@.len() as int),
            None => rfind_char_before(s@, c, s@.len() as int) == -1,
        },
{
    let mut e = s.len();
    while e > 0
        invariant
            e <= s@.len(),
            rfind_char_before(s@, c, s@.len() as int) == rfind_char_before(s@, c, e as int),
        decreases e,
    {
        if s[e - 1] == c {
            return Some(e - 1);
        }
        e = e - 1;
    }
    None
}

/// `s` split at every character that belongs to `seps` (`str::split` with a
/// set of separator characters): always at least one piece.
pub open spec fn split_on(s: Seq<char>, seps: Seq<char>) -> Seq<Seq<char>>
    decreases s.len(),
{
    let k = first_sep(s, seps, 0);
    if k < 0 {
        seq![s]
    } else {
        proof {
            lemma_first_sep(s, seps, 0);
        }
        seq![s.take(k)] + split_on(s.skip(k + 1), seps)
    }
}

/// First position at or after `k` of a character of `seps`, or -1.
pub open spec fn first_sep(s: Seq<char>, seps: Seq<char>, k: int) -> int
    decreases s.len() - k,
{
    if k < 0 || k >= s.len() {
        -1
    } else if seps.contains(s[k]) {
        k
    } else {
        first_sep(s, seps, k + 1)
    }
}

pub proof fn lemma_first_sep(s: Seq<char>, seps: Seq<char>, k: int)
    requires
        0 <= k,
    ensures
        first_sep(s, seps, k) == -1 || (k <= first_sep(s, seps, k) < s.len()),
    decreases s.len() - k,
{
    if k < s.len() && !seps.contains(s[k]) {
        lemma_first_sep(s, seps, k + 1);
    }
}

proof fn lemma_first_sep_shift(s: Seq<char>, seps: Seq<char>, a: int, i: int)
    requires
        0 <= a <= i <= s.len(),
        forall|j: int| a <= j < i ==> !seps.contains(s[j]),
    ensures
        first_sep(s.skip(a), seps, 0) == (if first_sep(s, seps, i) < 0 {
            -1
        } else {
            first_sep(s, seps, i) - a
        }),
    decreases i - a,
{
    lemma_first_sep_skip(s, seps, a, i);
}

proof fn lemma_first_sep_skip(s: Seq<char>, seps: Seq<char>, a: int, i: int)
    requires
        0 <= a <= i <= s.len(),
        forall|j: int| a <= j < i ==> !seps.contains(s[j]),
    ensures
        first_sep(s.skip(a), seps, i - a) == (if first_sep(s, seps, i) < 0 {
            -1
        } else {
            first_sep(s, seps, i) - a
        }),
        first_sep(s.skip(a), seps, 0) == first_sep(s.skip(a), seps, i - a),
    decreases s.len() - i,
{
    let t = s.skip(a);
    if i < s.len() {
        assert(t[i - a] == s[i]);
        if !seps.contains(s[i]) {
            lemma_first_sep_skip(s, seps, a, i + 1);
        }
    }
    lemma_first_sep_prefix(t, seps, i - a);
}

pub proof fn lemma_first_sep_prefix(t: Seq<char>, seps: Seq<char>, m: int)
    requires
        0 <= m <= t.len(),
        forall|j: int| 0 <= j < m ==> !seps.contains(t[j]),
    ensures
        first_sep(t, seps, 0) == first_sep(t, seps, m),
    decreases m,
{
    if m > 0 {
        lemma_first_sep_prefix_from(t, seps, 0, m);
    }
}

proof fn lemma_first_sep_prefix_from(t: Seq<char>, seps: Seq<char>, k: int, m: int)
    requires
        0 <= k <= m <= t.len(),
        forall|j: int| k <= j < m ==> !seps.contains(t[j]),
    ensures
        first_sep(t, seps, k) == first_sep(t, seps, m),
    decreases m - k,
{
    if k < m {
        lemma_first_sep_prefix_from(t, seps, k + 1, m);
    }
}

/// The views of a vector of character vectors.
pub open spec fn views(v: Seq<Vec<char>>) -> Seq<Seq<char>> {
    v.map_values(|x: Vec<char>| x@)
}

/// `str::split` on every character of `seps`.
pub fn split(s: &[char], seps: &[char]) -> (r: Vec<Vec<char>>)
    ensures
        views(r@) == split_on(s@, seps@),
        r@.len() >= 1,
{
    let mut out: Vec<Vec<char>> = Vec::new();
    let mut start: usize = 0;
    let mut i: usize = 0;
    proof {
        assert(s@.skip(0) =~= s@);
        assert(views(out@) + split_on(s@, seps@) =~= split_on(s@, seps@));
    }
    while i < s.len()
        invariant
            0 <= start <= i <= s@.len(),
            forall|j: int| start <= j < i ==> !seps@.contains(s@[j]),
            views(out@) + split_on(s@.skip(start as int), seps@) == split_on(s@, seps@),
        decreases s@.len() - i,
    {
        if contains_char(seps, s[i]) {
            let piece = slice_vec(s, start, i);
            proof {
                let t = s@.skip(start as int);
                lemma_first_sep_shift(s@, seps@, start as int, i as int);
                assert(first_sep(s@, seps@, i as int) == i);
                assert(t.take(i - start) =~= piece@);
                assert(t.skip(i - start + 1) =~= s@.skip(i + 1));
                assert(views(out@.push(piece)) =~= views(out@).push(piece@));
                assert(views(out@).push(piece@) + split_on(s@.skip(i + 1), seps@) =~= views(out@)
                    + (seq![piece@] + split_on(s@.skip(i + 1), seps@)));
            }
            out.push(piece);
            start = i + 1;
        }
        i = i + 1;
    }
    let piece = slice_vec(s, start, s.len());
    proof {
        let t = s@.skip(start as int);
        lemma_first_sep_shift(s@, seps@, start as int, s@.len() as int);
        assert(t =~= piece@);
        assert(views(out@.push(piece)) =~= views(out@).push(piece@));
        assert(views(out@) + seq![piece@] =~= views(out@).push(piece@));
    }
    out.push(piece);
    out
}

/// `c` is one of `set`.
pub fn contains_char(set: &[char], c: char) -> (b: bool)
    ensures
        b == set@.contains(c),
{
    let mut i: usize = 0;
    while i < set.len()
        invariant
            0 <= i <= set@.len(),
            forall|j: int| 0 <= j < i ==> set@[j] != c,
        decreases set@.len() - i,
    {
        if set[i] == c {
            proof {
                assert(set@[i as int] == c);
            }
            return true;
        }
        i = i + 1;
    }
    false
}

/// Value of a run of decimal digits.
pub open spec fn digits_value(s: Seq<char>) -> int
    decreases s.len(),
{
    if s.len() == 0 {
        0
    } else {
        digits_value(s.drop_last()) * 10 + (s.last() as int - '0' as int)
    }
}

pub open spec fn all_digits(s: Seq<char>) -> bool {
    forall|j: int| 0 <= j < s.len() ==> is_digit(#[trigger] s[j])
}

/// What `str::parse::<u64>` yields: an optional `+` and then at least one
/// decimal digit, with a value that fits in 64 bits.
pub open spec fn u64_of(s: Seq<char>) -> Option<u64> {
    let d = if s.len() > 0 && s[0] == '+' {
        s.drop_first()
    } else {
        s
    };
    if d.len() > 0 && all_digits(d) && digits_value(d) <= u64::MAX {
        Some(digits_value(d) as u64)
    } else {
        None
    }
}

proof fn lemma_digits_value_nonneg(s: Seq<char>)
    requires
        all_digits(s),
    ensures
        digits_value(s) >= 0,
    decreases s.len(),
{
    if s.len() > 0 {
        assert(all_digits(s.drop_last())) by {
            assert forall|j: int| 0 <= j < s.drop_last().len() implies is_digit(
                #[trigger] s.drop_last()[j],
            ) by {
                assert(s.drop_last()[j] == s[j]);
            }
        }
        lemma_digits_value_nonneg(s.drop_last());
    }
}

proof fn lemma_digits_value_grows(s: Seq<char>)
    requires
        all_digits(s),
        s.len() > 0,
    ensures
        digits_value(s) >= digits_value(s.drop_last()) * 10,
        digits_value(s.drop_last()) >= 0,
{
    assert(is_digit(s[s.len() - 1]));
    assert(all_digits(s.drop_last())) by {
        assert forall|j: int| 0 <= j < s.drop_last().len() implies is_digit(
            #[trigger] s.drop_last()[j],
        ) by {
            assert(s.drop_last()[j] == s[j]);
        }
    }
    lemma_digits_value_nonneg(s.drop_last());
}

/// `10` to the power `n`.
pub open spec fn pow10(n: nat) -> int
    decreases n,
{
    if n == 0 {
        1
    } else {
        10 * pow10((n - 1) as nat)
    }
}

proof fn lemma_pow10_pos(n: nat)
    ensures
        pow10(n) >= 1,
    decreases n,
{
    if n > 0 {
        lemma_pow10_pos((n - 1) as nat);
    }
}

proof fn lemma_pow10_mono(a: nat, b: nat)
    requires
        a <= b,
    ensures
        1 <= pow10(a) <= pow10(b),
    decreases b,
{
    lemma_pow10_pos(a);
    if a < b {
        lemma_pow10_mono(a, (b - 1) as nat);
        lemma_pow10_pos((b - 1) as nat);
    }
}

proof fn lemma_digits_below(s: Seq<char>)
    requires
        all_digits(s),
    ensures
        0 <= digits_value(s) < pow10(s.len()),
    decreases s.len(),
{
    if s.len() > 0 {
        lemma_digits_value_grows(s);
        assert(all_digits(s.drop_last())) by {
            assert forall|j: int| 0 <= j < s.drop_last().len() implies is_digit(
                #[trigger] s.drop_last()[j],
            ) by {
                assert(s.drop_last()[j] == s[j]);
            }
        }
        lemma_digits_below(s.drop_last());
        assert(is_digit(s[s.len() - 1]));
    }
}

/// A parsed number has fewer digits than characters.
pub proof fn lemma_u64_of_below(s: Seq<char>)
    ensures
        u64_of(s) matches Some(v) ==> v < pow10(s.len()),
{
    let d = if s.len() > 0 && s[0] == '+' {
        s.drop_first()
    } else {
        s
    };
    if u64_of(s) is Some {
        lemma_digits_below(d);
        lemma_pow10_mono(d.len(), s.len());
    }
}

/// `str::parse::<u64>`.
pub fn parse_u64(s: &[char]) -> (r: Option<u64>)
    ensures
        r == u64_of(s@),
{
    let start: usize = if s.len() > 0 && s[0] == '+' {
        1
    } else {
        0
    };
    let ghost d = if s@.len() > 0 && s@[0] == '+' {
        s@.drop_first()
    } else {
        s@
    };
    proof {
        assert(d =~= s@.skip(start as int));
    }
    if start >= s.len() {
        proof {
            assert(d.len() == 0);
        }
        return None;
    }
    let mut v: u64 = 0;
    let mut i = start;
    let mut overflow = false;
    while i < s.len()
        invariant
            start <= i <= s@.len(),
            d == s@.skip(start as int),
            d == (if s@.len() > 0 && s@[0] == '+' {
                s@.drop_first()
            } else {
                s@
            }),
            all_digits(s@.subrange(start as int, i as int)),
            !overflow ==> v == digits_value(s@.subrange(start as int, i as int)),
            overflow ==> digits_value(s@.subrange(start as int, i as int)) > u64::MAX,
        decreases s@.len() - i,
    {
        let c = s[i];
        if !digit(c) {
            proof {
                assert(d[i - start] == c);
                assert(!all_digits(d));
            }
            return None;
        }
        let ghost prev = s@.subrange(start as int, i as int);
        let ghost next = s@.subrange(start as int, i + 1);
        proof {
            assert(next.drop_last() =~= prev);
            assert(next.last() == c);
            assert(all_digits(next)) by {
                assert forall|j: int| 0 <= j < next.len() implies is_digit(#[trigger] next[j]) by {
                    if j < prev.len() {
                        assert(next[j] == prev[j]);
                    }
                }
            }
            lemma_digits_value_grows(next);
        }
        let dv = (c as u32 - '0' as u32) as u64;
        if !overflow {
            if v > (u64::MAX - dv) / 10 {
                overflow = true;
                proof {
                    assert(v * 10 + dv > u64::MAX) by (nonlinear_arith)
                        requires
                            v > (u64::MAX - dv) / 10,
                            dv <= 9,
                    ;
                }
            } else {
                proof {
                    assert(v * 10 + dv <= u64::MAX) by (nonlinear_arith)
                        requires
                            v <= (u64::MAX - dv) / 10,
                            dv <= 9,
                    ;
                }
                v = v * 10 + dv;
            }
        }
        i = i + 1;
    }
    proof {
        assert(s@.subrange(start as int, s@.len() as int) =~= d);
    }
    if overflow {
        None
    } else {
        Some(v)
    }
}

/// `str::lines`: pieces between `\n`, each without the `\r` that preceded
/// its `\n`; the piece after the last `\n` is dropped when it is empty.
pub open spec fn lines_of(s: Seq<char>) -> Seq<Seq<char>> {
    let parts = split_on(s, "\n"@);
    let body = Seq::new((parts.len() - 1) as nat, |i: int| strip_cr(parts[i]));
    if parts.last().len() == 0 {
        body
    } else {
        body.push(parts.last())
    }
}

pub open spec fn strip_cr(l: Seq<char>) -> Seq<char> {
    if l.len() > 0 && l.last() == '\r' {
        l.drop_last()
    } else {
        l
    }
}

/// The lines of a text.
pub fn lines(s: &[char]) -> (r: Vec<Vec<char>>)
    ensures
        views(r@) == lines_of(s@),
{
    let nl = chars_of("\n");
    let parts = split(s, nl.as_slice());
    let n = parts.len();
    let mut out: Vec<Vec<char>> = Vec::new();
    let mut i: usize = 0;
    while i + 1 < n
        invariant
            n == parts@.len(),
            n >= 1,
            views(parts@) == split_on(s@, "\n"@),
            0 <= i <= n - 1,
            views(out@) == Seq::new(i as nat, |j: int| strip_cr(views(parts@)[j])),
        decreases n - i,
    {
        let p = &parts[i];
        let l = if p.len() > 0 && p[p.len() - 1] == '\r' {
            slice_vec(p.as_slice(), 0, p.len() - 1)
        } else {
            slice_vec(p.as_slice(), 0, p.len())
        };
        proof {
            assert(views(parts@)[i as int] == p@);
            assert(l@ =~= strip_cr(p@));
            assert(views(out@.push(l)) =~= views(out@).push(l@));
            assert(views(out@).push(l@) =~= Seq::new((i + 1) as nat, |j: int| strip_cr(views(parts@)[j])));
        }
        out.push(l);
        i = i + 1;
    }
    let last = &parts[n - 1];
    proof {
        assert(views(parts@)[n - 1] == last@);
        assert(views(out@) =~= Seq::new((views(parts@).len() - 1) as nat, |j: int| strip_cr(views(parts@)[j])));
        assert(split_on(s@, "\n"@).last() == last@);
    }
    let ghost parts_v = split_on(s@, "\n"@);
    let ghost body = Seq::new((parts_v.len() - 1) as nat, |j: int| strip_cr(parts_v[j]));
    proof {
        assert(views(out@) =~= body);
    }
    if last.len() > 0 {
        let l = slice_vec(last.as_slice(), 0, last.len());
        proof {
            assert(views(out@.push(l)) =~= views(out@).push(l@));
            assert(l@ =~= parts_v.last());
        }
        out.push(l);
    }
    out
}


/// `parts` joined with `sep` between each two.
pub open spec fn join(parts: Seq<Seq<char>>, sep: Seq<char>) -> Seq<char>
    decreases parts.len(),
{
    if parts.len() == 0 {
        seq![]
    } else if parts.len() == 1 {
        parts[0]
    } else {
        join(parts.drop_last(), sep) + sep + parts.last()
    }
}

/// `parts` joined with `sep` between each two (`[..].join(sep)`).
pub fn join_all(parts: &Vec<Vec<char>>, sep: &[char]) -> (r: Vec<char>)
    ensures
        r@ == join(views(parts@), sep@),
{
    let mut out: Vec<char> = Vec::new();
    let mut i: usize = 0;
    while i < parts.len()
        invariant
            0 <= i <= parts@.len(),
            out@ == join(views(parts@).take(i as int), sep@),
        decreases parts@.len() - i,
    {
        let ghost before = views(parts@).take(i as int);
        let ghost after = views(parts@).take(i + 1);
        proof {
            assert(after.drop_last() =~= before);
            assert(after.last() == parts@[i as int]@);
        }
        if i > 0 {
            let mut s = slice_vec(sep, 0, sep.len());
            proof {
                assert(sep@.subrange(0, sep@.len() as int) =~= sep@);
            }
            out.append(&mut s);
        } else {
            proof {
                assert(after =~= seq![parts@[0]@]);
            }
        }
        let mut p = parts[i].clone();
        proof {
            assert(p@ == parts@[i as int]@);
        }
        out.append(&mut p);
        i = i + 1;
    }
    proof {
        assert(views(parts@).take(parts@.len() as int) =~= views(parts@));
    }
    out
}

/// The views of some strings.
pub open spec fn str_views(v: Seq<String>) -> Seq<Seq<char>> {
    v.map_values(|s: String| s@)
}

/// `s` from position `k` on, with each occurrence of the non-empty `from`
/// replaced by `to`, left to right without overlaps (`str::replace`).
pub open spec fn replace_from(s: Seq<char>, from: Seq<char>, to: Seq<char>, k: int) -> Seq<char>
    decreases s.len() + 1 - k,
{
    if k < 0 || k > s.len() || from.len() == 0 {
        s.skip(k)
    } else {
        let j = find_from(s, from, k);
        if j < 0 || j < k {
            s.skip(k)
        } else {
            proof {
                lemma_find_from(s, from, k);
            }
            s.subrange(k, j) + to + replace_from(s, from, to, j + from.len())
        }
    }
}

/// `s` with each occurrence of the non-empty `from` replaced by `to`.
pub fn replace_all(s: &str, from: &str, to: &str) -> (r: String)
    requires
        from@.len() > 0,
    ensures
        r@ == replace_from(s@, from@, to@, 0),
{
    let sv = chars_of(s);
    let fv = chars_of(from);
    let tv = chars_of(to);
    let mut out: Vec<char> = Vec::new();
    let mut k: usize = 0;
    while k <= sv.len()
        invariant
            sv@ == s@,
            fv@ == from@,
            tv@ == to@,
            fv@.len() > 0,
            0 <= k <= sv@.len(),
            out@ + replace_from(s@, from@, to@, k as int) == replace_from(s@, from@, to@, 0),
        decreases sv@.len() + 1 - k,
    {
        match find_at(sv.as_slice(), fv.as_slice(), k) {
            Some(j) => {
                proof {
                    lemma_find_from(sv@, fv@, k as int);
                }
                let mut piece = slice_vec(sv.as_slice(), k, j);
                let mut t2 = slice_vec(tv.as_slice(), 0, tv.len());
                proof {
                    assert(t2@ =~= to@);
                }
                let ghost before = out@;
                out.append(&mut piece);
                out.append(&mut t2);
                proof {
                    assert(out@ + replace_from(s@, from@, to@, j + from@.len()) =~= before + replace_from(
                        s@,
                        from@,
                        to@,
                        k as int,
                    ));
                }
                k = j + fv.len();
            },
            None => {
                let mut rest = slice_vec(sv.as_slice(), k, sv.len());
                proof {
                    assert(rest@ =~= s@.skip(k as int));
                }
                out.append(&mut rest);
                return string_of(out.as_slice());
            },
        }
    }
    string_of(out.as_slice())
}

/// A decimal number that fits in `u32` (`str::parse::<u32>`).
pub open spec fn u32_of(s: Seq<char>) -> Option<u32> {
    match u64_of(s) {
        Some(n) => if n <= u32::MAX {
            Some(n as u32)
        } else {
            None
        },
        None => None,
    }
}

/// `str::parse::<u32>`.
pub fn parse_u32(s: &[char]) -> (r: Option<u32>)
    ensures
        r == u32_of(s@),
{
    match parse_u64(s) {
        Some(n) => if n <= 0xffff_ffff {
            Some(n as u32)
        } else {
            None
        },
        None => None,
    }
}

} // verus!
