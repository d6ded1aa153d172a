//! Synced lyrics: LRC parsing, the cleaning of YouTube titles before a lookup,
//! and the choice among the answers of the lyrics service.
use vstd::prelude::*;
use crate::text::{
    chars_of, find_char, find_char_from, lemma_find_char_from, lemma_u64_of_below, parse_u64, pow10, rfind_char,
    rfind_char_before, slice_vec, split, split_on, string_of, trim, trimmed, u64_of, views, ws,
    is_ws, lines, lines_of, lead_ws, trail_ws,
};

verus! {

/// A line of lyrics with its time window.
#[derive(Debug, Clone)]
pub struct Line {
    pub start_ms: u64,
    /// Stamp of the next line. The interface interpolates between both for the
    /// sweep of the text.
    pub end_ms: u64,
    pub text: String,
}

#[derive(Debug, Clone)]
pub struct Lyrics {
    /// Empty when there are only unsynced lyrics.
    pub lines: Vec<Line>,
    /// Plain text, as a fallback.
    pub plain: Option<String>,
    pub synced: bool,
    pub source: String,
}

/// What the lyrics service answers for one track.
#[derive(Debug, Clone)]
pub struct LrclibTrack {
    pub synced_lyrics: Option<String>,
    pub plain_lyrics: Option<String>,
}

/// Number of bytes of `c` in UTF-8.
pub open spec fn char_width(c: char) -> int {
    if (c as u32) < 0x80 {
        1
    } else if (c as u32) < 0x800 {
        2
    } else if (c as u32) < 0x10000 {
        3
    } else {
        4
    }
}

/// Number of bytes of `s` in UTF-8.
pub open spec fn width(s: Seq<char>) -> int
    decreases s.len(),
{
    if s.len() == 0 {
        0
    } else {
        width(s.drop_last()) + char_width(s.last())
    }
}

/// Slicing the first three bytes of `s` does not cut a character: either `s`
/// is shorter than three bytes or some prefix is exactly three bytes long.
pub open spec fn cut3_ok(s: Seq<char>) -> bool {
    width(s) < 3 || exists|k: int| 0 <= k <= s.len() && #[trigger] width(s.take(k)) == 3
}

/// `s` split at the first `c`, when there is one (`str::split_once`).
pub open spec fn split_once(s: Seq<char>, c: char) -> Option<(Seq<char>, Seq<char>)> {
    let k = find_char_from(s, c, 0);
    if k < 0 {
        None
    } else {
        Some((s.take(k), s.skip(k + 1)))
    }
}

/// Milliseconds of the fraction after the seconds: tenths with one digit,
/// hundredths with two, thousandths with three or more (only three are read).
pub open spec fn frac_ms(frac: Seq<char>) -> Option<int> {
    if frac.len() == 0 {
        Some(0)
    } else if frac.len() == 1 {
        match u64_of(frac) {
            Some(v) => Some(v * 100),
            None => None,
        }
    } else if frac.len() == 2 {
        match u64_of(frac) {
            Some(v) => Some(v * 10),
            None => None,
        }
    } else {
        match u64_of(frac.take(3)) {
            Some(v) => Some(v as int),
            None => None,
        }
    }
}

/// The parts of a stamp `mm:ss.xx`: minutes, seconds and fraction, when the
/// minutes and the seconds parse.
pub open spec fn stamp_parts(s: Seq<char>) -> Option<(u64, u64, Seq<char>)> {
    match split_once(s, ':') {
        None => None,
        Some((m, rest)) => match u64_of(trim(m)) {
            None => None,
            Some(minutes) => {
                let (sec, frac) = match split_once(rest, '.') {
                    Some(p) => p,
                    None => (rest, "0"@),
                };
                match u64_of(trim(sec)) {
                    None => None,
                    Some(seconds) => Some((minutes, seconds, frac)),
                }
            },
        },
    }
}

/// Value in milliseconds of a stamp `mm:ss.xx` or `mm:ss`.
pub open spec fn stamp_value(s: Seq<char>) -> Option<int> {
    match stamp_parts(s) {
        None => None,
        Some((minutes, seconds, frac)) => match frac_ms(frac) {
            None => None,
            Some(f) => Some(minutes * 60_000 + seconds * 1_000 + f),
        },
    }
}

/// Inputs on which reading a stamp does not panic: the fraction can be cut
/// at three bytes, and the value fits in 64 bits.
pub open spec fn stamp_ok(s: Seq<char>) -> bool {
    &&& (stamp_parts(s) matches Some((_, _, frac)) ==> frac.len() < 3 || cut3_ok(frac))
    &&& (stamp_value(s) matches Some(v) ==> v <= u64::MAX)
}

proof fn lemma_width_take(s: Seq<char>, k: int)
    requires
        0 <= k < s.len(),
    ensures
        width(s.take(k + 1)) == width(s.take(k)) + char_width(s[k]),
        char_width(s[k]) >= 1,
{
    assert(s.take(k + 1).drop_last() =~= s.take(k));
}

proof fn lemma_width_mono(s: Seq<char>, a: int, b: int)
    requires
        0 <= a <= b <= s.len(),
    ensures
        width(s.take(a)) + (b - a) <= width(s.take(b)),
    decreases b - a,
{
    if a < b {
        lemma_width_take(s, b - 1);
        lemma_width_mono(s, a, b - 1);
    }
}

proof fn lemma_width_nonneg(s: Seq<char>)
    ensures
        width(s) >= 0,
    decreases s.len(),
{
    if s.len() > 0 {
        lemma_width_nonneg(s.drop_last());
    }
}

/// Whether the first three bytes of `s` can be sliced off.
fn cut3(s: &[char]) -> (b: bool)
    ensures
        b == cut3_ok(s@),
{
    let mut w: u64 = 0;
    let mut k: usize = 0;
    proof {
        assert(s@.take(0) =~= Seq::<char>::empty());
    }
    while k < s.len() && w < 3
        invariant
            0 <= k <= s@.len(),
            w == width(s@.take(k as int)),
            w <= 6,
            forall|j: int| 0 <= j < k ==> width(#[trigger] s@.take(j)) < 3,
        decreases s@.len() - k,
    {
        proof {
            lemma_width_take(s@, k as int);
        }
        let c = s[k];
        let cw: u64 = if (c as u32) < 0x80 {
            1
        } else if (c as u32) < 0x800 {
            2
        } else if (c as u32) < 0x10000 {
            3
        } else {
            4
        };
        w = w + cw;
        k = k + 1;
    }
    proof {
        assert(s@.take(s@.len() as int) =~= s@);
        if w == 3 {
            assert(width(s@.take(k as int)) == 3);
        } else if w > 3 {
            lemma_width_mono(s@, k as int, s@.len() as int);
            assert(width(s@) >= 3);
            assert forall|j: int| 0 <= j <= s@.len() implies #[trigger] width(s@.take(j)) != 3 by {
                if j > k {
                    lemma_width_mono(s@, k as int, j);
                }
            }
        } else {
            assert(k == s@.len());
        }
    }
    if w == 3 {
        true
    } else if w > 3 {
        false
    } else {
        true
    }
}

/// `s` split at the first `c`.
fn split_once_exec(s: &[char], c: char) -> (r: Option<(Vec<char>, Vec<char>)>)
    ensures
        match r {
            Some((a, b)) => split_once(s@, c) == Some((a@, b@)),
            None => split_once(s@, c) is None,
        },
{
    match find_char(s, c, 0) {
        None => None,
        Some(k) => {
            let n = s.len();
            proof {
                lemma_find_char_from(s@, c, 0);
            }
            let a = slice_vec(s, 0, k);
            let b = slice_vec(s, k + 1, s.len());
            proof {
                assert(a@ =~= s@.take(k as int));
                assert(b@ =~= s@.skip(k + 1));
            }
            Some((a, b))
        },
    }
}

/// Milliseconds of a stamp written over characters.
fn stamp_of(s: &[char]) -> (r: Option<u64>)
    requires
        stamp_ok(s@),
    ensures
        match r {
            Some(v) => stamp_value(s@) == Some(v as int),
            None => stamp_value(s@) is None,
        },
{
    let (m, rest) = match split_once_exec(s, ':') {
        Some(p) => p,
        None => return None,
    };
    let mt = trimmed(m.as_slice());
    let minutes = match parse_u64(mt.as_slice()) {
        Some(v) => v,
        None => return None,
    };
    let (sec, frac) = match split_once_exec(rest.as_slice(), '.') {
        Some(p) => p,
        None => (rest, chars_of("0")),
    };
    let st = trimmed(sec.as_slice());
    let seconds = match parse_u64(st.as_slice()) {
        Some(v) => v,
        None => return None,
    };
    assert(stamp_parts(s@) == Some((minutes, seconds, frac@)));
    let f: u64 = if frac.len() == 0 {
        0
    } else if frac.len() == 1 {
        match parse_u64(frac.as_slice()) {
            Some(v) => v * 100,
            None => return None,
        }
    } else if frac.len() == 2 {
        match parse_u64(frac.as_slice()) {
            Some(v) => v * 10,
            None => return None,
        }
    } else {
        let head = slice_vec(frac.as_slice(), 0, 3);
        proof {
            assert(head@ =~= frac@.take(3));
        }
        match parse_u64(head.as_slice()) {
            Some(v) => v,
            None => return None,
        }
    };
    proof {
        u64_digits_small(frac@);
    }
    assert(stamp_value(s@) == Some(minutes * 60_000 + seconds * 1_000 + f));
    Some(minutes * 60_000 + seconds * 1_000 + f)
}

/// One, two or three characters parse to at most 9, 99 or 999.
proof fn u64_digits_small(frac: Seq<char>)
    ensures
        frac.len() == 1 ==> (u64_of(frac) matches Some(v) ==> v <= 9),
        frac.len() == 2 ==> (u64_of(frac) matches Some(v) ==> v <= 99),
        frac.len() >= 3 ==> (u64_of(frac.take(3)) matches Some(v) ==> v <= 999),
{
    lemma_u64_of_below(frac);
    lemma_u64_of_below(frac.take(3));
    reveal_with_fuel(pow10, 4);
}

/// Whether a stamp can be read without panicking.
fn stamp_safe(s: &[char]) -> (b: bool)
    ensures
        b == stamp_ok(s@),
{
    let (m, rest) = match split_once_exec(s, ':') {
        Some(p) => p,
        None => return true,
    };
    let mt = trimmed(m.as_slice());
    let minutes = match parse_u64(mt.as_slice()) {
        Some(v) => v,
        None => return true,
    };
    let (sec, frac) = match split_once_exec(rest.as_slice(), '.') {
        Some(p) => p,
        None => (rest, chars_of("0")),
    };
    let st = trimmed(sec.as_slice());
    let seconds = match parse_u64(st.as_slice()) {
        Some(v) => v,
        None => return true,
    };
    assert(stamp_parts(s@) == Some((minutes, seconds, frac@)));
    proof {
        u64_digits_small(frac@);
    }
    if frac.len() >= 3 && !cut3(frac.as_slice()) {
        return false;
    }
    let f: u64 = if frac.len() == 0 {
        0
    } else if frac.len() == 1 {
        match parse_u64(frac.as_slice()) {
            Some(v) => v * 100,
            None => return true,
        }
    } else if frac.len() == 2 {
        match parse_u64(frac.as_slice()) {
            Some(v) => v * 10,
            None => return true,
        }
    } else {
        let head = slice_vec(frac.as_slice(), 0, 3);
        proof {
            assert(head@ =~= frac@.take(3));
        }
        match parse_u64(head.as_slice()) {
            Some(v) => v,
            None => return true,
        }
    };
    proof {
        u64_digits_small(frac@);
    }
    minutes <= (u64::MAX - f) / 60_000 && seconds <= (u64::MAX - f - minutes * 60_000) / 1_000
}



/// Reads the leading `[...]` groups of a line: the text inside each group,
/// and what follows the last group.
pub open spec fn scan(rest: Seq<char>) -> (Seq<Seq<char>>, Seq<char>)
    decreases rest.len(),
{
    if rest.len() > 0 && rest[0] == '[' {
        let close = find_char_from(rest, ']', 0);
        if close < 0 {
            (seq![], rest)
        } else {
            proof {
                lemma_find_char_from(rest, ']', 0);
            }
            let inner = scan(rest.skip(close + 1));
            (seq![rest.subrange(1, close)] + inner.0, inner.1)
        }
    } else {
        (seq![], rest)
    }
}

/// The values of the groups that are valid stamps, in order.
pub open spec fn stamps_from(insides: Seq<Seq<char>>) -> Seq<int>
    decreases insides.len(),
{
    if insides.len() == 0 {
        seq![]
    } else {
        let prev = stamps_from(insides.drop_last());
        match stamp_value(insides.last()) {
            Some(v) => prev.push(v),
            None => prev,
        }
    }
}

/// The (stamp, text) pairs of one line: one per valid stamp, all with the
/// trimmed text that follows the stamps.
pub open spec fn line_pairs(raw: Seq<char>) -> Seq<(int, Seq<char>)> {
    let sc = scan(raw);
    let text = trim(sc.1);
    stamps_from(sc.0).map_values(|v: int| (v, text))
}

/// The pairs of all the lines, in order.
pub open spec fn pairs_of(ls: Seq<Seq<char>>) -> Seq<(int, Seq<char>)>
    decreases ls.len(),
{
    if ls.len() == 0 {
        seq![]
    } else {
        pairs_of(ls.drop_last()) + line_pairs(ls.last())
    }
}

/// Stable insertion of `x` into `t`: after every entry whose stamp is not
/// later than its own.
pub open spec fn insert_by_stamp(t: Seq<(int, Seq<char>)>, x: (int, Seq<char>)) -> Seq<(int, Seq<char>)> {
    t.insert(insert_pos(t, x.0, 0), x)
}

/// First position at or after `k` whose stamp is later than `ms`, or the
/// length of `t`.
pub open spec fn insert_pos(t: Seq<(int, Seq<char>)>, ms: int, k: int) -> int
    decreases t.len() - k,
{
    if k < 0 || k >= t.len() {
        t.len() as int
    } else if t[k].0 > ms {
        k
    } else {
        insert_pos(t, ms, k + 1)
    }
}

/// Stable sort by stamp (`sort_by_key` keeps equal stamps in their order).
pub open spec fn sort_by_stamp(s: Seq<(int, Seq<char>)>) -> Seq<(int, Seq<char>)>
    decreases s.len(),
{
    if s.len() == 0 {
        seq![]
    } else {
        insert_by_stamp(sort_by_stamp(s.drop_last()), s.last())
    }
}

/// The pairs of an LRC text, sorted by stamp.
pub open spec fn lrc_sorted(lrc: Seq<char>) -> Seq<(int, Seq<char>)> {
    sort_by_stamp(pairs_of(lines_of(lrc)))
}

/// Each line lasts until the next one; the last lasts five seconds.
pub open spec fn lrc_windows(lrc: Seq<char>) -> Seq<(int, int, Seq<char>)> {
    let p = lrc_sorted(lrc);
    Seq::new(
        p.len(),
        |i: int|
            (p[i].0, if i + 1 < p.len() {
                p[i + 1].0
            } else {
                p[i].0 + 5_000
            }, p[i].1),
    )
}

/// Every group of every line can be read as a stamp without panicking, and
/// five seconds after each stamp still fit in 64 bits.
pub open spec fn lrc_ok(lrc: Seq<char>) -> bool {
    forall|i: int|
        0 <= i < lines_of(lrc).len() ==> #[trigger] groups_ok(scan(lines_of(lrc)[i]).0)
}

pub open spec fn groups_ok(g: Seq<Seq<char>>) -> bool {
    forall|k: int|
        0 <= k < g.len() ==> stamp_ok(#[trigger] g[k]) && (stamp_value(g[k]) matches Some(v)
            ==> v + 5_000 <= u64::MAX)
}

/// The view of a line.
pub open spec fn line_view(l: Line) -> (int, int, Seq<char>) {
    (l.start_ms as int, l.end_ms as int, l.text@)
}

pub open spec fn pair_views(v: Seq<(u64, Vec<char>)>) -> Seq<(int, Seq<char>)> {
    v.map_values(|p: (u64, Vec<char>)| (p.0 as int, p.1@))
}

/// Appends the pairs of one line.
fn push_line_pairs(raw: &[char], out: &mut Vec<(u64, Vec<char>)>)
    requires
        groups_ok(scan(raw@).0),
    ensures
        pair_views(final(out)@) == pair_views(old(out)@) + line_pairs(raw@),
        forall|k: int| 0 <= k < final(out)@.len() - old(out)@.len() ==>
            #[trigger] final(out)@[old(out)@.len() + k].0 + 5_000 <= u64::MAX,
        forall|k: int| 0 <= k < old(out)@.len() ==> #[trigger] final(out)@[k] == old(out)@[k],
{
    let mut stamps: Vec<u64> = Vec::new();
    let mut r: usize = 0;
    let n = raw.len();
    let ghost full = scan(raw@);
    proof {
        assert(raw@.skip(0) =~= raw@);
    }
    loop
        invariant
            n == raw@.len(),
            0 <= r <= n,
            full == scan(raw@),
            groups_ok(full.0),
            ({
                let here = scan(raw@.skip(r as int));
                &&& here.1 == full.1
                &&& here.0.len() <= full.0.len()
                &&& here.0 == full.0.skip(full.0.len() - here.0.len())
                &&& stamps@.map_values(|v: u64| v as int) == stamps_from(full.0.take(full.0.len() - here.0.len()))
            }),
            forall|k: int| 0 <= k < stamps@.len() ==> #[trigger] stamps@[k] + 5_000 <= u64::MAX,
        ensures
            scan(raw@.skip(r as int)).0.len() == 0,
        decreases n - r,
    {
        let ghost here = scan(raw@.skip(r as int));
        let ghost rest = raw@.skip(r as int);
        if !(r < n && raw[r] == '[') {
            proof {
                if r < n {
                    assert(rest[0] == raw@[r as int]);
                }
                assert(here.0.len() == 0);
            }
            break;
        }
        proof {
            assert(rest[0] == '[');
        }
        let close = match find_char(raw, ']', r) {
            Some(c) => c,
            None => {
                proof {
                    lemma_find_char_rel(raw@, ']', r as int);
                    assert(here.0.len() == 0);
                }
                break;
            },
        };
        proof {
            lemma_find_char_rel(raw@, ']', r as int);
            lemma_find_char_from(raw@, ']', r as int);
            assert(find_char_from(rest, ']', 0) == close - r);
            assert(rest.subrange(1, close - r) =~= raw@.subrange(r + 1, close as int));
            assert(rest.skip(close - r + 1) =~= raw@.skip(close + 1));
            assert(here.0 == seq![raw@.subrange(r + 1, close as int)] + scan(raw@.skip(close + 1)).0);
        }
        let inside = slice_vec(raw, r + 1, close);
        let ghost m = full.0.len() - here.0.len();
        proof {
            assert(full.0[m] == here.0[0]);
            assert(full.0.take(m + 1).drop_last() =~= full.0.take(m));
            assert(full.0.take(m + 1).last() == inside@);
            assert(groups_ok(full.0));
            assert(stamp_ok(full.0[m]));
        }
        let v = stamp_of(inside.as_slice());
        let ghost before = stamps@;
        if let Some(ms) = v {
            stamps.push(ms);
            proof {
                assert(stamps@.map_values(|v: u64| v as int) =~= before.map_values(|v: u64| v as int).push(ms as int));
            }
        }
        proof {
            let next = scan(raw@.skip(close + 1));
            assert(next.0 =~= here.0.drop_first());
            assert(full.0.skip(full.0.len() - next.0.len()) =~= full.0.skip(m).drop_first());
        }
        r = close + 1;
    }
    let ghost here = scan(raw@.skip(r as int));
    proof {
        assert(full.0.take(full.0.len() - here.0.len()) =~= full.0);
    }
    let (a, b) = trim_bounds_from(raw, r);
    let mut i: usize = 0;
    let ghost base = out@;
    let ghost text = trim(full.1);
    while i < stamps.len()
        invariant
            0 <= i <= stamps@.len(),
            a <= b <= raw@.len(),
            raw@.subrange(a as int, b as int) == text,
            pair_views(out@) == pair_views(base) + stamps@.take(i as int).map_values(|v: u64| (v as int, text)),
            out@.len() == base.len() + i,
            forall|k: int| 0 <= k < base.len() ==> #[trigger] out@[k] == base[k],
            forall|k: int| 0 <= k < i ==> #[trigger] out@[base.len() + k].0 + 5_000 <= u64::MAX,
            forall|k: int| 0 <= k < stamps@.len() ==> #[trigger] stamps@[k] + 5_000 <= u64::MAX,
        decreases stamps@.len() - i,
    {
        let t = slice_vec(raw, a, b);
        let ghost prev = out@;
        out.push((stamps[i], t));
        proof {
            assert(pair_views(out@) =~= pair_views(prev).push((stamps@[i as int] as int, text)));
            assert(stamps@.take(i + 1).map_values(|v: u64| (v as int, text)) =~= stamps@.take(
                i as int,
            ).map_values(|v: u64| (v as int, text)).push((stamps@[i as int] as int, text)));
            assert(out@[base.len() + i as int].0 == stamps@[i as int]);
        }
        i = i + 1;
    }
    proof {
        assert(stamps@.take(stamps@.len() as int) =~= stamps@);
        let sv = stamps@.map_values(|v: u64| v as int);
        assert(stamps@.map_values(|v: u64| (v as int, text)) =~= sv.map_values(|v: int| (v, text)));
    }
}

proof fn lemma_find_char_rel(s: Seq<char>, c: char, r: int)
    requires
        0 <= r <= s.len(),
    ensures
        find_char_from(s.skip(r), c, 0) == (if find_char_from(s, c, r) < 0 {
            -1
        } else {
            find_char_from(s, c, r) - r
        }),
    decreases s.len() - r,
{
    lemma_find_char_rel_at(s, c, r, r);
}

proof fn lemma_find_char_rel_at(s: Seq<char>, c: char, r: int, k: int)
    requires
        0 <= r <= k <= s.len(),
    ensures
        find_char_from(s.skip(r), c, k - r) == (if find_char_from(s, c, k) < 0 {
            -1
        } else {
            find_char_from(s, c, k) - r
        }),
    decreases s.len() - k,
{
    if k < s.len() {
        assert(s.skip(r)[k - r] == s[k]);
        lemma_find_char_rel_at(s, c, r, k + 1);
    }
}

/// Bounds of the trimmed `raw[r..]` inside `raw`.
fn trim_bounds_from(raw: &[char], r: usize) -> (p: (usize, usize))
    requires
        r <= raw@.len(),
    ensures
        p.0 <= p.1 <= raw@.len(),
        raw@.subrange(p.0 as int, p.1 as int) == trim(raw@.skip(r as int)),
{
    let rest = slice_vec(raw, r, raw.len());
    let (a, b) = crate::text::trim_bounds(rest.as_slice());
    proof {
        assert(rest@ =~= raw@.skip(r as int));
        assert(raw@.subrange(r + a, r + b) =~= rest@.subrange(a as int, b as int));
    }
    (r + a, r + b)
}


/// Where a pair with stamp `ms` goes in `t`.
fn insert_pos_exec(t: &Vec<(u64, Vec<char>)>, ms: u64) -> (p: usize)
    ensures
        p == insert_pos(pair_views(t@), ms as int, 0),
        p <= t@.len(),
{
    let mut k: usize = 0;
    while k < t.len() && t[k].0 <= ms
        invariant
            0 <= k <= t@.len(),
            insert_pos(pair_views(t@), ms as int, 0) == insert_pos(pair_views(t@), ms as int, k as int),
        decreases t@.len() - k,
    {
        proof {
            assert(pair_views(t@)[k as int].0 == t@[k as int].0);
        }
        k = k + 1;
    }
    proof {
        if k < t@.len() {
            assert(pair_views(t@)[k as int].0 == t@[k as int].0);
        }
    }
    k
}

/// Converts LRC to lines with a time window.
///
/// Format: `[mm:ss.xx] text`. A line may carry several stamps. The window of
/// each line reaches the next one; the last lasts five seconds. Empty lines
/// of the LRC mark instrumental pauses and are kept.
pub fn parse_lrc(lrc: &str) -> (r: Vec<Line>)
    requires
        lrc_ok(lrc@),
    ensures
        r@.map_values(|l: Line| line_view(l)) == lrc_windows(lrc@),
{
    let all = chars_of(lrc);
    let ls = lines(all.as_slice());
    let mut pairs: Vec<(u64, Vec<char>)> = Vec::new();
    let mut i: usize = 0;
    while i < ls.len()
        invariant
            0 <= i <= ls@.len(),
            views(ls@) == lines_of(lrc@),
            lrc_ok(lrc@),
            pair_views(pairs@) == pairs_of(views(ls@).take(i as int)),
            forall|k: int| 0 <= k < pairs@.len() ==> #[trigger] pairs@[k].0 + 5_000 <= u64::MAX,
        decreases ls@.len() - i,
    {
        proof {
            assert(views(ls@)[i as int] == ls@[i as int]@);
            assert(groups_ok(scan(lines_of(lrc@)[i as int]).0));
            assert(views(ls@).take(i + 1).drop_last() =~= views(ls@).take(i as int));
        }
        let ghost before = pairs@;
        push_line_pairs(ls[i].as_slice(), &mut pairs);
        proof {
            assert forall|k: int| 0 <= k < pairs@.len() implies #[trigger] pairs@[k].0 + 5_000 <= u64::MAX by {
                if k < before.len() {
                    assert(pairs@[k] == before[k]);
                } else {
                    assert(pairs@[before.len() + (k - before.len())].0 + 5_000 <= u64::MAX);
                }
            }
        }
        i = i + 1;
    }
    proof {
        assert(views(ls@).take(ls@.len() as int) =~= views(ls@));
    }
    let ghost orig = pair_views(pairs@);
    let total = pairs.len();
    let mut sorted: Vec<(u64, Vec<char>)> = Vec::new();
    let mut done: usize = 0;
    while done < total
        invariant
            0 <= done <= total,
            total == orig.len(),
            pair_views(pairs@) == orig.skip(done as int),
            pair_views(sorted@) == sort_by_stamp(orig.take(done as int)),
            forall|k: int| 0 <= k < pairs@.len() ==> #[trigger] pairs@[k].0 + 5_000 <= u64::MAX,
            forall|k: int| 0 <= k < sorted@.len() ==> #[trigger] sorted@[k].0 + 5_000 <= u64::MAX,
            orig == pairs_of(lines_of(lrc@)),
        decreases total - done,
    {
        let ghost rest = pairs@;
        assert(pair_views(pairs@).len() == pairs@.len());
        let x = pairs.remove(0);
        proof {
            assert(pair_views(pairs@) =~= pair_views(rest).drop_first());
            assert(orig.take(done + 1).drop_last() =~= orig.take(done as int));
            assert(orig.take(done + 1).last() == pair_views(rest)[0]);
            assert(pair_views(rest)[0] == (x.0 as int, x.1@));
            assert(x.0 + 5_000 <= u64::MAX) by {
                assert(rest[0] == x);
            }
        }
        let p = insert_pos_exec(&sorted, x.0);
        let ghost before = sorted@;
        sorted.insert(p, x);
        proof {
            assert(pair_views(sorted@) =~= pair_views(before).insert(p as int, (x.0 as int, x.1@)));
            assert forall|k: int| 0 <= k < pairs@.len() implies #[trigger] pairs@[k].0 + 5_000 <= u64::MAX by {
                assert(pairs@[k] == rest[k + 1]);
            }
            assert forall|k: int| 0 <= k < sorted@.len() implies #[trigger] sorted@[k].0 + 5_000 <= u64::MAX by {
                if k < p {
                    assert(sorted@[k] == before[k]);
                } else if k > p {
                    assert(sorted@[k] == before[k - 1]);
                }
            }
        }
        done = done + 1;
    }
    proof {
        assert(orig.take(total as int) =~= orig);
    }
    let mut out: Vec<Line> = Vec::new();
    let n = sorted.len();
    let mut k: usize = 0;
    let ghost w = lrc_windows(lrc@);
    while k < n
        invariant
            0 <= k <= n,
            n == sorted@.len(),
            pair_views(sorted@) == lrc_sorted(lrc@),
            w == lrc_windows(lrc@),
            forall|j: int| 0 <= j < sorted@.len() ==> #[trigger] sorted@[j].0 + 5_000 <= u64::MAX,
            out@.map_values(|l: Line| line_view(l)) == w.take(k as int),
        decreases n - k,
    {
        let start = sorted[k].0;
        let end = if k + 1 < n {
            sorted[k + 1].0
        } else {
            start + 5_000
        };
        let line = Line { start_ms: start, end_ms: end, text: string_of(sorted[k].1.as_slice()) };
        let ghost prev = out@;
        out.push(line);
        proof {
            assert(pair_views(sorted@)[k as int] == (sorted@[k as int].0 as int, sorted@[k as int].1@));
            if k + 1 < n {
                assert(pair_views(sorted@)[k + 1] == (sorted@[k + 1].0 as int, sorted@[k + 1].1@));
            }
            assert(out@.map_values(|l: Line| line_view(l)) =~= prev.map_values(|l: Line| line_view(l)).push(line_view(line)));
            assert(w.take(k + 1) =~= w.take(k as int).push(w[k as int]));
        }
        k = k + 1;
    }
    proof {
        assert(w.take(n as int) =~= w);
    }
    out
}

/// Whether an LRC text can be parsed without panicking (see [`lrc_ok`]).
pub fn lrc_is_parsable(lrc: &str) -> (b: bool)
    ensures
        b == lrc_ok(lrc@),
{
    let all = chars_of(lrc);
    let ls = lines(all.as_slice());
    let mut i: usize = 0;
    while i < ls.len()
        invariant
            0 <= i <= ls@.len(),
            views(ls@) == lines_of(lrc@),
            forall|j: int| 0 <= j < i ==> #[trigger] groups_ok(scan(lines_of(lrc@)[j]).0),
        decreases ls@.len() - i,
    {
        proof {
            assert(views(ls@)[i as int] == ls@[i as int]@);
        }
        if !groups_safe(ls[i].as_slice()) {
            return false;
        }
        i = i + 1;
    }
    true
}

/// Whether every group at the start of a line is a safe stamp.
fn groups_safe(raw: &[char]) -> (b: bool)
    ensures
        b == groups_ok(scan(raw@).0),
{
    let n = raw.len();
    let mut r: usize = 0;
    let ghost full = scan(raw@);
    proof {
        assert(raw@.skip(0) =~= raw@);
    }
    loop
        invariant
            n == raw@.len(),
            0 <= r <= n,
            full == scan(raw@),
            ({
                let here = scan(raw@.skip(r as int));
                &&& here.0.len() <= full.0.len()
                &&& here.0 == full.0.skip(full.0.len() - here.0.len())
                &&& groups_ok(full.0.take(full.0.len() - here.0.len()))
            }),
        decreases n - r,
    {
        let ghost here = scan(raw@.skip(r as int));
        let ghost rest = raw@.skip(r as int);
        if !(r < n && raw[r] == '[') {
            proof {
                if r < n {
                    assert(rest[0] == raw@[r as int]);
                }
                assert(here.0.len() == 0);
                assert(full.0.take(full.0.len() as int) =~= full.0);
            }
            return true;
        }
        let close = match find_char(raw, ']', r) {
            Some(c) => c,
            None => {
                proof {
                    lemma_find_char_rel(raw@, ']', r as int);
                    assert(here.0.len() == 0);
                    assert(full.0.take(full.0.len() as int) =~= full.0);
                }
                return true;
            },
        };
        proof {
            lemma_find_char_rel(raw@, ']', r as int);
            lemma_find_char_from(raw@, ']', r as int);
            assert(rest.subrange(1, close - r) =~= raw@.subrange(r + 1, close as int));
            assert(rest.skip(close - r + 1) =~= raw@.skip(close + 1));
        }
        let inside = slice_vec(raw, r + 1, close);
        let ghost m = full.0.len() - here.0.len();
        proof {
            assert(full.0[m] == here.0[0]);
            assert(full.0[m] == inside@);
        }
        let ok = stamp_safe(inside.as_slice());
        if !ok {
            return false;
        }
        let v = stamp_of(inside.as_slice());
        if let Some(ms) = v {
            if ms > u64::MAX - 5_000 {
                return false;
            }
        }
        proof {
            let next = scan(raw@.skip(close + 1));
            assert(next.0 =~= here.0.drop_first());
            assert(full.0.skip(full.0.len() - next.0.len()) =~= full.0.skip(m).drop_first());
            let g = full.0.take(m + 1);
            assert forall|k: int| 0 <= k < g.len() implies stamp_ok(#[trigger] g[k]) && (stamp_value(g[k]) matches Some(v)
                ==> v + 5_000 <= u64::MAX) by {
                if k < m {
                    assert(g[k] == full.0.take(m)[k]);
                }
            }
        }
        r = close + 1;
    }
}


/// `t` without its outermost `open ... close` groups, repeatedly: the first
/// `open` and the last `close` delimit the cut while the first comes before
/// the second.
pub open spec fn remove_groups(t: Seq<char>, open: char, close: char) -> Seq<char>
    decreases t.len(),
{
    let a = find_char_from(t, open, 0);
    let b = rfind_char_before(t, close, t.len() as int);
    if a >= 0 && b >= 0 && a < b {
        proof {
            lemma_find_char_from(t, open, 0);
            lemma_rfind_char_before(t, close, t.len() as int);
        }
        remove_groups(t.take(a) + t.skip(b + 1), open, close)
    } else {
        t
    }
}

pub proof fn lemma_rfind_char_before(s: Seq<char>, c: char, end: int)
    ensures
        rfind_char_before(s, c, end) == -1 || (0 <= rfind_char_before(s, c, end) < end
            && rfind_char_before(s, c, end) < s.len()),
    decreases end,
{
    if 0 < end <= s.len() && s[end - 1] != c {
        lemma_rfind_char_before(s, c, end - 1);
    }
}

/// `str::trim_end_matches` with a character.
pub open spec fn strip_trailing(s: Seq<char>, c: char) -> Seq<char>
    decreases s.len(),
{
    if s.len() > 0 && s.last() == c {
        strip_trailing(s.drop_last(), c)
    } else {
        s
    }
}

/// `str::trim_end_matches` with a non-empty string.
pub open spec fn strip_suffixes(s: Seq<char>, p: Seq<char>) -> Seq<char>
    decreases s.len(),
{
    if p.len() > 0 && p.len() <= s.len() && s.skip(s.len() - p.len()) == p {
        strip_suffixes(s.take(s.len() - p.len()), p)
    } else {
        s
    }
}

/// The title and artist that a lyrics lookup should use.
pub open spec fn cleaned(title: Seq<char>, artist: Seq<char>) -> (Seq<char>, Seq<char>) {
    let t = remove_groups(remove_groups(title, '(', ')'), '[', ']');
    let t = trim(strip_trailing(trim(t), '-'));
    let first = split_on(artist, "\u{2022}"@)[0];
    let a = strip_suffixes(trim(first), " - Topic"@);
    (t, a)
}

fn remove_groups_exec(t: Vec<char>, open: char, close: char) -> (r: Vec<char>)
    ensures
        r@ == remove_groups(t@, open, close),
    decreases t@.len(),
{
    let a = find_char(t.as_slice(), open, 0);
    let b = rfind_char(t.as_slice(), close);
    match (a, b) {
        (Some(a), Some(b)) => {
            if a < b {
                let n = t.len();
                proof {
                    lemma_find_char_from(t@, open, 0);
                    lemma_rfind_char_before(t@, close, t@.len() as int);
                }
                let mut head = slice_vec(t.as_slice(), 0, a);
                let mut tail = slice_vec(t.as_slice(), b + 1, t.len());
                head.append(&mut tail);
                proof {
                    assert(head@ =~= t@.take(a as int) + t@.skip(b + 1));
                }
                remove_groups_exec(head, open, close)
            } else {
                t
            }
        },
        _ => t,
    }
}

fn strip_trailing_exec(s: &[char], c: char) -> (r: Vec<char>)
    ensures
        r@ == strip_trailing(s@, c),
{
    let mut e = s.len();
    proof {
        assert(s@.take(s@.len() as int) =~= s@);
    }
    while e > 0 && s[e - 1] == c
        invariant
            e <= s@.len(),
            strip_trailing(s@, c) == strip_trailing(s@.take(e as int), c),
        decreases e,
    {
        proof {
            assert(s@.take(e as int).drop_last() =~= s@.take(e - 1));
        }
        e = e - 1;
    }
    proof {
        assert(s@.take(s@.len() as int) =~= s@);
    }
    slice_vec(s, 0, e)
}

fn strip_suffixes_exec(s: &[char], p: &[char]) -> (r: Vec<char>)
    requires
        p@.len() > 0,
    ensures
        r@ == strip_suffixes(s@, p@),
{
    let mut e = s.len();
    proof {
        assert(s@.take(s@.len() as int) =~= s@);
    }
    loop
        invariant
            e <= s@.len(),
            p@.len() > 0,
            strip_suffixes(s@, p@) == strip_suffixes(s@.take(e as int), p@),
        decreases e,
    {
        let head = slice_vec(s, 0, e);
        if crate::text::ends_with(head.as_slice(), p) {
            proof {
                let t = s@.take(e as int);
                assert(head@ =~= t);
                assert(t.skip(t.len() - p@.len()) =~= t.subrange(t.len() - p@.len(), t.len() as int));
                assert(t.take(t.len() - p@.len()) =~= s@.take(e - p@.len()));
            }
            e = e - p.len();
        } else {
            proof {
                let t = s@.take(e as int);
                assert(head@ =~= t);
                if p@.len() <= t.len() {
                    assert(t.skip(t.len() - p@.len()) =~= t.subrange(t.len() - p@.len(), t.len() as int));
                }
            }
            return head;
        }
    }
}

/// Removes the noise YouTube puts in titles and that keeps the lyrics service
/// from finding anything: "(Official Video)", "[4K Remaster]", " - Topic"...
/// The artist line often comes as "Artist • Album • 3:28": only the artist
/// is kept.
pub fn clean(title: &str, artist: &str) -> (r: (String, String))
    ensures
        (r.0@, r.1@) == cleaned(title@, artist@),
{
    let t = chars_of(title);
    let t = remove_groups_exec(t, '(', ')');
    let t = remove_groups_exec(t, '[', ']');
    let t = trimmed(t.as_slice());
    let t = strip_trailing_exec(t.as_slice(), '-');
    let t = trimmed(t.as_slice());
    let a = chars_of(artist);
    let dot = chars_of("\u{2022}");
    let parts = split(a.as_slice(), dot.as_slice());
    let first = &parts[0];
    proof {
        assert(views(parts@)[0] == first@);
    }
    let first = trimmed(first.as_slice());
    let topic = chars_of(" - Topic");
    proof {
        reveal_strlit(" - Topic");
    }
    let a = strip_suffixes_exec(first.as_slice(), topic.as_slice());
    (string_of(t.as_slice()), string_of(a.as_slice()))
}

proof fn lemma_strip_suffixes_end(s: Seq<char>, p: Seq<char>)
    requires
        p.len() > 0,
    ensures
        ({
            let r = strip_suffixes(s, p);
            !(p.len() <= r.len() && r.subrange(r.len() - p.len(), r.len() as int) == p)
        }),
    decreases s.len(),
{
    let r = strip_suffixes(s, p);
    if p.len() <= s.len() && s.skip(s.len() - p.len()) == p {
        lemma_strip_suffixes_end(s.take(s.len() - p.len()), p);
    } else {
        assert(r == s);
        if p.len() <= s.len() {
            assert(s.skip(s.len() - p.len()) =~= s.subrange(s.len() - p.len(), s.len() as int));
        }
    }
}

proof fn lemma_lead_ws_append(x: Seq<char>, t: Seq<char>)
    requires
        x.len() > 0,
        !is_ws(x.last()),
    ensures
        lead_ws(x + t) == lead_ws(x),
        0 <= lead_ws(x) < x.len(),
    decreases x.len(),
{
    let y = x + t;
    assert(y[0] == x[0]);
    if is_ws(x[0]) {
        assert(x.len() > 1);
        let d = x.drop_first();
        assert(d.last() == x.last());
        assert(y.drop_first() =~= d + t);
        lemma_lead_ws_append(d, t);
    }
}

/// Trimming a text that ends in a non-space character and then appending
/// `t` that ends in one gives what trimming the whole does.
proof fn lemma_trim_append(x: Seq<char>, t: Seq<char>)
    requires
        x.len() > 0,
        !is_ws(x.last()),
        t.len() > 0,
        !is_ws(t.last()),
    ensures
        trim(x + t) == trim(x) + t,
{
    let y = x + t;
    lemma_lead_ws_append(x, t);
    let a = lead_ws(x);
    let u = y.skip(a);
    let v = x.skip(a);
    assert(u.last() == t.last());
    assert(v.last() == x.last());
    assert(trail_ws(u) == 0);
    assert(trail_ws(v) == 0);
    assert(u.take(u.len() as int) =~= v + t);
    assert(v.take(v.len() as int) =~= v);
}

/// The artist a lookup uses never ends with YouTube's ` - Topic`, which
/// names the automatic channel of an artist and not the artist.
pub proof fn lemma_clean_drops_topic(title: Seq<char>, artist: Seq<char>)
    ensures
        ({
            let a = cleaned(title, artist).1;
            !(a.len() >= 8 && a.subrange(a.len() - 8, a.len() as int) == " - Topic"@)
        }),
{
    reveal_strlit(" - Topic");
    let first = split_on(artist, "\u{2022}"@)[0];
    lemma_strip_suffixes_end(trim(first), " - Topic"@);
}

/// An artist and the same artist's ` - Topic` channel clean to the same
/// name, for an artist line with no `•` that ends in a non-space character.
pub proof fn lemma_clean_topic_channel(title: Seq<char>, artist: Seq<char>)
    requires
        artist.len() > 0,
        !is_ws(artist.last()),
        !artist.contains('\u{2022}'),
    ensures
        cleaned(title, artist + " - Topic"@).1 == cleaned(title, artist).1,
{
    reveal_strlit(" - Topic");
    reveal_strlit("\u{2022}");
    let topic = " - Topic"@;
    let y = artist + topic;
    assert(topic.last() == 'c');
    assert(!y.contains('\u{2022}')) by {
        if y.contains('\u{2022}') {
            let j = choose|j: int| 0 <= j < y.len() && y[j] == '\u{2022}';
            if j < artist.len() {
                assert(artist[j] == y[j]);
            } else {
                assert(topic[j - artist.len()] == y[j]);
            }
        }
    }
    assert forall|z: Seq<char>| !z.contains('\u{2022}') implies split_on(z, "\u{2022}"@)[0] == z by {
        assert forall|j: int| 0 <= j < z.len() implies !"\u{2022}"@.contains(z[j]) by {
            if "\u{2022}"@.contains(z[j]) {
                assert(z[j] == '\u{2022}');
            }
        }
        crate::text::lemma_first_sep_prefix(z, "\u{2022}"@, z.len() as int);
    }
    lemma_trim_append(artist, topic);
    let u = trim(artist);
    assert((u + topic).skip((u + topic).len() - topic.len()) =~= topic);
    assert((u + topic).take((u + topic).len() - topic.len()) =~= u);
}

/// Of an artist line such as "Artist • Album • 3:28" only what comes before
/// the first `•` counts: what follows it never changes the artist.
pub proof fn lemma_clean_keeps_first_part(title: Seq<char>, artist: Seq<char>, rest: Seq<char>)
    requires
        !artist.contains('\u{2022}'),
    ensures
        cleaned(title, artist + "\u{2022}"@ + rest).1 == cleaned(title, artist).1,
{
    reveal_strlit("\u{2022}");
    let sep = "\u{2022}"@;
    let y = artist + sep + rest;
    let n = artist.len() as int;
    assert forall|j: int| 0 <= j < n implies !sep.contains(#[trigger] y[j]) by {
        assert(y[j] == artist[j]);
        if sep.contains(y[j]) {
            assert(sep[0] == y[j]);
        }
    }
    assert(sep.contains(y[n])) by {
        assert(sep[0] == y[n]);
    }
    crate::text::lemma_first_sep_prefix(y, sep, n);
    assert(y.take(n) =~= artist);
    assert forall|j: int| 0 <= j < n implies !sep.contains(#[trigger] artist[j]) by {
        if sep.contains(artist[j]) {
            assert(sep[0] == artist[j]);
        }
    }
    crate::text::lemma_first_sep_prefix(artist, sep, n);
}

/// `s` is empty once trimmed.
fn blank(s: &String) -> (b: bool)
    ensures
        b == (trim(s@).len() == 0),
{
    let v = chars_of(s.as_str());
    let t = trimmed(v.as_slice());
    t.len() == 0
}

/// What `build` makes of one answer of the lyrics service: the synced lines
/// (none without synced lyrics), and the plain text unless it is blank;
/// nothing when there is neither.
pub open spec fn built(t: LrclibTrack) -> Option<(Seq<(int, int, Seq<char>)>, Option<Seq<char>>)> {
    let lines = match t.synced_lyrics {
        Some(l) => lrc_windows(l@),
        None => seq![],
    };
    let plain = match t.plain_lyrics {
        Some(p) => if trim(p@).len() == 0 {
            None
        } else {
            Some(p@)
        },
        None => None,
    };
    if lines.len() == 0 && plain is None {
        None
    } else {
        Some((lines, plain))
    }
}

pub open spec fn track_ok(t: LrclibTrack) -> bool {
    t.synced_lyrics matches Some(l) ==> lrc_ok(l@)
}

pub open spec fn lyrics_view(l: Lyrics) -> (Seq<(int, int, Seq<char>)>, Option<Seq<char>>) {
    (l.lines@.map_values(|x: Line| line_view(x)), match l.plain {
        Some(p) => Some(p@),
        None => None,
    })
}

/// The answer, once built, has synced lines.
pub open spec fn synced_answer(b: Option<(Seq<(int, int, Seq<char>)>, Option<Seq<char>>)>) -> bool {
    b matches Some(x) && x.0.len() > 0
}

/// Builds the lyrics of one answer of the lyrics service.
pub fn build(t: LrclibTrack, source: &str) -> (r: Option<Lyrics>)
    requires
        track_ok(t),
    ensures
        match r {
            Some(l) => built(t) == Some(lyrics_view(l)) && l.synced == (l.lines@.len() > 0)
                && l.source@ == source@,
            None => built(t) is None,
        },
{
    let ghost t0 = t;
    let lines = match &t.synced_lyrics {
        Some(l) => parse_lrc(l.as_str()),
        None => Vec::new(),
    };
    let plain = match t.plain_lyrics {
        Some(p) => if blank(&p) {
            None
        } else {
            Some(p)
        },
        None => None,
    };
    proof {
        if t0.synced_lyrics is None {
            assert(lines@.map_values(|x: Line| line_view(x)) =~= Seq::<(int, int, Seq<char>)>::empty());
        }
    }
    if lines.len() == 0 && plain.is_none() {
        return None;
    }
    let synced = lines.len() > 0;
    Some(Lyrics { lines, plain, synced, source: string_of(chars_of(source).as_slice()) })
}

/// Position of the first synced entry at or after `k`, or -1.
pub open spec fn first_synced(found: Seq<Lyrics>, k: int) -> int
    decreases found.len() - k,
{
    if k < 0 || k >= found.len() {
        -1
    } else if found[k].synced {
        k
    } else {
        first_synced(found, k + 1)
    }
}

/// Among several answers for the same song, the first synced one; otherwise
/// the first one.
///
/// The service returns the same song several times, some with sync and some
/// without, in arbitrary order: taking the first would give static lyrics
/// even where synced ones exist.
pub fn pick(found: Vec<Lyrics>) -> (r: Option<Lyrics>)
    ensures
        ({
            let k = first_synced(found@, 0);
            if k >= 0 {
                r == Some(found@[k])
            } else if found@.len() > 0 {
                r == Some(found@[0])
            } else {
                r is None
            }
        }),
{
    let ghost orig = found@;
    let mut list = found;
    let mut i: usize = 0;
    while i < list.len()
        invariant
            list@ == orig,
            orig == found@,
            0 <= i <= list@.len(),
            first_synced(list@, 0) == first_synced(list@, i as int),
        decreases list@.len() - i,
    {
        if list[i].synced {
            proof {
                assert(orig[i as int].synced);
                assert(first_synced(orig, i as int) == i);
            }
            let x = list.remove(i);
            assert(x == orig[i as int]);
            return Some(x);
        }
        i = i + 1;
    }
    if list.len() > 0 {
        Some(list.remove(0))
    } else {
        None
    }
}

/// Position of the first answer from `k` on that builds into lyrics, or -1.
pub open spec fn first_built(hits: Seq<LrclibTrack>, k: int) -> int
    decreases hits.len() - k,
{
    if k < 0 || k >= hits.len() {
        -1
    } else if built(hits[k]) is Some {
        k
    } else {
        first_built(hits, k + 1)
    }
}

/// Position of the first answer from `k` on that builds into synced lyrics,
/// or -1.
pub open spec fn first_synced_built(hits: Seq<LrclibTrack>, k: int) -> int
    decreases hits.len() - k,
{
    if k < 0 || k >= hits.len() {
        -1
    } else if synced_answer(built(hits[k])) {
        k
    } else {
        first_synced_built(hits, k + 1)
    }
}

proof fn lemma_first_built(hits: Seq<LrclibTrack>, k: int)
    requires
        0 <= k,
    ensures
        first_built(hits, k) == -1 ==> forall|j: int| k <= j < hits.len() ==> built(#[trigger] hits[j]) is None,
        first_built(hits, k) != -1 ==> k <= first_built(hits, k) < hits.len() && built(
            hits[first_built(hits, k)],
        ) is Some && forall|j: int| k <= j < first_built(hits, k) ==> built(#[trigger] hits[j]) is None,
    decreases hits.len() - k,
{
    if k < hits.len() && built(hits[k]) is None {
        lemma_first_built(hits, k + 1);
    }
}

proof fn lemma_first_synced_built(hits: Seq<LrclibTrack>, k: int)
    requires
        0 <= k,
    ensures
        first_synced_built(hits, k) == -1 ==> forall|j: int|
            k <= j < hits.len() ==> !synced_answer(built(#[trigger] hits[j])),
        first_synced_built(hits, k) != -1 ==> k <= first_synced_built(hits, k) < hits.len()
            && synced_answer(built(hits[first_synced_built(hits, k)])) && forall|j: int|
            k <= j < first_synced_built(hits, k) ==> !synced_answer(built(#[trigger] hits[j])),
    decreases hits.len() - k,
{
    if k < hits.len() && !synced_answer(built(hits[k])) {
        lemma_first_synced_built(hits, k + 1);
    }
}

/// The lyrics to show out of all the answers of a fuzzy search: each answer
/// is built, those that give nothing are dropped, and [`pick`] chooses: the
/// first answer with synced lyrics, else the first answer that gives any.
pub fn best_of(hits: Vec<LrclibTrack>, source: &str) -> (r: Option<Lyrics>)
    requires
        forall|k: int| 0 <= k < hits@.len() ==> #[trigger] track_ok(hits@[k]),
    ensures
        r is None <==> first_built(hits@, 0) < 0,
        r matches Some(l) ==> {
            let k = if first_synced_built(hits@, 0) >= 0 {
                first_synced_built(hits@, 0)
            } else {
                first_built(hits@, 0)
            };
            &&& 0 <= k < hits@.len()
            &&& built(hits@[k]) == Some(lyrics_view(l))
            &&& l.synced == (first_synced_built(hits@, 0) >= 0)
            &&& l.source@ == source@
        },
{
    let mut hits = hits;
    let ghost orig = hits@;
    let mut found: Vec<Lyrics> = Vec::new();
    let ghost mut from: Seq<int> = Seq::empty();
    let total = hits.len();
    let mut i: usize = 0;
    while i < total
        invariant
            0 <= i <= total,
            total == orig.len(),
            hits@ == orig.skip(i as int),
            forall|k: int| 0 <= k < orig.len() ==> #[trigger] track_ok(orig[k]),
            found@.len() == from.len(),
            forall|j: int|
                0 <= j < found@.len() ==> 0 <= #[trigger] from[j] < i && built(orig[from[j]]) == Some(
                    lyrics_view(found@[j]),
                ) && found@[j].synced == (found@[j].lines@.len() > 0) && found@[j].source@ == source@,
            forall|a: int, b: int| 0 <= a < b < from.len() ==> #[trigger] from[a] < #[trigger] from[b],
            forall|k: int|
                0 <= k < i && built(orig[k]) is Some ==> exists|j: int| 0 <= j < from.len() && #[trigger] from[j] == k,
        decreases total - i,
    {
        let ghost from0 = from;
        let t = hits.remove(0);
        proof {
            assert(t == orig[i as int]);
            assert(hits@ =~= orig.skip(i + 1));
        }
        match build(t, source) {
            Some(l) => {
                found.push(l);
                proof {
                    from = from.push(i as int);
                    assert(from[from.len() - 1] == i);
                }
            },
            None => {},
        }
        proof {
            assert forall|k: int| 0 <= k < i + 1 && built(orig[k]) is Some implies exists|j: int|
                0 <= j < from.len() && #[trigger] from[j] == k by {
                if k < i {
                    let j = choose|j: int| 0 <= j < from0.len() && #[trigger] from0[j] == k;
                    assert(from[j] == from0[j]);
                } else {
                    assert(from[from.len() - 1] == k);
                }
            }
        }
        i = i + 1;
    }
    let ghost fv = found@;
    let r = pick(found);
    proof {
        lemma_first_built(orig, 0);
        lemma_first_synced_built(orig, 0);
        lemma_first_synced(fv, 0);
        assert forall|j: int| 0 <= j < fv.len() implies #[trigger] fv[j].synced == synced_answer(
            built(orig[from[j]]),
        ) by {
            assert(lyrics_view(fv[j]).0.len() == fv[j].lines@.len());
        }
        let fb = first_built(orig, 0);
        let fsb = first_synced_built(orig, 0);
        if fv.len() > 0 {
            assert(built(orig[from[0]]) is Some);
        }
        if fb >= 0 {
            let jj = choose|jj: int| 0 <= jj < from.len() && #[trigger] from[jj] == fb;
            assert(fv.len() > 0);
            assert(from[0] <= from[jj]);
            assert(from[0] == fb);
        }
        if fsb >= 0 {
            let jj = choose|jj: int| 0 <= jj < from.len() && #[trigger] from[jj] == fsb;
            assert(fv[jj].synced);
            let ks = first_synced(fv, 0);
            assert(ks >= 0 && ks <= jj);
            assert(from[ks] <= from[jj]);
            assert(synced_answer(built(orig[from[ks]])));
            assert(from[ks] == fsb);
        } else {
            assert forall|j: int| 0 <= j < fv.len() implies !(#[trigger] fv[j]).synced by {
                assert(!synced_answer(built(orig[from[j]])));
            }
        }
    }
    r
}

proof fn lemma_first_synced(found: Seq<Lyrics>, k: int)
    requires
        0 <= k,
    ensures
        first_synced(found, k) == -1 ==> forall|j: int| k <= j < found.len() ==> !found[j].synced,
        first_synced(found, k) != -1 ==> k <= first_synced(found, k) < found.len() && found[first_synced(found, k)].synced,
        first_synced(found, k) != -1 ==> forall|j: int| k <= j < first_synced(found, k) ==> !found[j].synced,
    decreases found.len() - k,
{
    if k < found.len() && !found[k].synced {
        lemma_first_synced(found, k + 1);
    }
}


/// The entries of `t` are in stamp order.
pub open spec fn stamp_sorted(t: Seq<(int, Seq<char>)>) -> bool {
    forall|i: int, j: int| 0 <= i < j < t.len() ==> #[trigger] t[i].0 <= #[trigger] t[j].0
}

proof fn lemma_insert_pos(t: Seq<(int, Seq<char>)>, ms: int, k: int)
    requires
        0 <= k <= t.len(),
        forall|j: int| 0 <= j < k ==> t[j].0 <= ms,
    ensures
        k <= insert_pos(t, ms, k) <= t.len(),
        forall|j: int| 0 <= j < insert_pos(t, ms, k) ==> t[j].0 <= ms,
        insert_pos(t, ms, k) < t.len() ==> t[insert_pos(t, ms, k)].0 > ms,
    decreases t.len() - k,
{
    if k < t.len() && t[k].0 <= ms {
        lemma_insert_pos(t, ms, k + 1);
    }
}

proof fn lemma_sort_sorted(s: Seq<(int, Seq<char>)>)
    ensures
        stamp_sorted(sort_by_stamp(s)),
        sort_by_stamp(s).len() == s.len(),
    decreases s.len(),
{
    if s.len() > 0 {
        let t = sort_by_stamp(s.drop_last());
        lemma_sort_sorted(s.drop_last());
        let x = s.last();
        lemma_insert_pos(t, x.0, 0);
        let p = insert_pos(t, x.0, 0);
        let u = t.insert(p, x);
        assert forall|i: int, j: int| 0 <= i < j < u.len() implies #[trigger] u[i].0 <= #[trigger] u[j].0 by {
            if j < p {
                assert(u[i] == t[i] && u[j] == t[j]);
            } else if j == p {
                assert(u[i] == t[i]);
            } else if i < p {
                assert(u[i] == t[i] && u[j] == t[j - 1]);
                assert(t[i].0 <= x.0);
                assert(t[p].0 > x.0);
                assert(t[p].0 <= t[j - 1].0);
            } else if i == p {
                assert(u[j] == t[j - 1]);
                assert(t[p].0 <= t[j - 1].0);
            } else {
                assert(u[i] == t[i - 1] && u[j] == t[j - 1]);
            }
        }
    }
}

/// The windows of synced lyrics follow the song: lines come in time order,
/// each one lasts until the next one starts, and the last one lasts five
/// seconds.
pub proof fn lemma_lrc_windows_chain(lrc: Seq<char>)
    ensures
        ({
            let w = lrc_windows(lrc);
            &&& forall|i: int| 0 <= i < w.len() - 1 ==> #[trigger] w[i].1 == w[i + 1].0
            &&& forall|i: int, j: int| 0 <= i < j < w.len() ==> #[trigger] w[i].0 <= #[trigger] w[j].0
            &&& w.len() > 0 ==> w[w.len() - 1].1 == w[w.len() - 1].0 + 5_000
        }),
{
    lemma_sort_sorted(pairs_of(lines_of(lrc)));
    let p = lrc_sorted(lrc);
    let w = lrc_windows(lrc);
    assert forall|i: int, j: int| 0 <= i < j < w.len() implies #[trigger] w[i].0 <= #[trigger] w[j].0 by {
        assert(w[i].0 == p[i].0 && w[j].0 == p[j].0);
    }
}

proof fn lemma_sort_keeps_pairs(s: Seq<(int, Seq<char>)>)
    ensures
        sort_by_stamp(s).to_multiset() == s.to_multiset(),
    decreases s.len(),
{
    if s.len() > 0 {
        let t = sort_by_stamp(s.drop_last());
        lemma_sort_keeps_pairs(s.drop_last());
        let x = s.last();
        lemma_insert_pos(t, x.0, 0);
        vstd::seq_lib::to_multiset_insert(t, insert_pos(t, x.0, 0), x);
        vstd::seq_lib::to_multiset_build(s.drop_last(), x);
        assert(s.drop_last().push(x) =~= s);
        assert(sort_by_stamp(s) == t.insert(insert_pos(t, x.0, 0), x));
    } else {
        assert(s =~= Seq::<(int, Seq<char>)>::empty());
        assert(sort_by_stamp(s) =~= s);
    }
}

/// Synced lyrics lose and invent no line: the (stamp, text) pairs of the
/// windows are those of the LRC text, each stamp of each line with the text
/// of its line, as many times as they occur.
pub proof fn lemma_lrc_windows_keep_pairs(lrc: Seq<char>)
    ensures
        Seq::new(lrc_windows(lrc).len(), |i: int| (lrc_windows(lrc)[i].0, lrc_windows(lrc)[i].2)).to_multiset()
            == pairs_of(lines_of(lrc)).to_multiset(),
{
    lemma_sort_keeps_pairs(pairs_of(lines_of(lrc)));
    let w = lrc_windows(lrc);
    assert(Seq::new(w.len(), |i: int| (w[i].0, w[i].2)) =~= lrc_sorted(lrc));
}

/// Whether [`parse_stamp`] can read `s` without panicking.
pub fn stamp_is_parsable(s: &str) -> (b: bool)
    ensures
        b == stamp_ok(s@),
{
    let c = chars_of(s);
    stamp_safe(c.as_slice())
}

/// `mm:ss.xx` or `mm:ss` to milliseconds.
pub fn parse_stamp(s: &str) -> (r: Option<u64>)
    requires
        stamp_ok(s@),
    ensures
        match r {
            Some(v) => stamp_value(s@) == Some(v as int),
            None => stamp_value(s@) is None,
        },
{
    let v = chars_of(s);
    stamp_of(v.as_slice())
}

} // verus!
