//! Percent-decoding of bytes, shared by the minting channel and the thumbnail
//! server.
use vstd::prelude::*;
use vstd::utf8::{decode_utf8, encode_scalar, encode_utf8, valid_utf8};

verus! {

/// What `String::from_utf8_lossy` makes of some bytes.
pub uninterp spec fn utf8_lossy(b: Seq<u8>) -> Seq<char>;

/// `String::from_utf8_lossy(..).into_owned()`.
///
/// Wraps `String::from_utf8_lossy`. The documented fact stated here: valid
/// UTF-8 comes back unchanged. What replacement characters it puts in place
/// of invalid sequences is left unstated (named by `utf8_lossy`).
#[verifier::external_body]
pub(crate) fn lossy_string(b: &[u8]) -> (s: String)
    ensures
        s@ == utf8_lossy(b@),
        valid_utf8(b@) ==> s@ == decode_utf8(b@),
{
    String::from_utf8_lossy(b).into_owned()
}

/// The bytes of a string slice.
pub fn bytes_of(s: &str) -> (b: Vec<u8>)
    ensures
        b@ == encode_utf8(s@),
{
    let b = s.as_bytes();
    let mut v: Vec<u8> = Vec::new();
    let mut i: usize = 0;
    while i < b.len()
        invariant
            0 <= i <= b@.len(),
            b@ == encode_utf8(s@),
            v@ == b@.take(i as int),
        decreases b@.len() - i,
    {
        v.push(b[i]);
        proof {
            assert(b@.take(i + 1) =~= b@.take(i as int).push(b@[i as int]));
        }
        i = i + 1;
    }
    proof {
        assert(b@.take(b@.len() as int) =~= b@);
    }
    v
}

pub open spec fn is_hex(b: u8) -> bool {
    (0x30 <= b <= 0x39) || (0x41 <= b <= 0x46) || (0x61 <= b <= 0x66)
}

pub open spec fn hex_value(b: u8) -> int {
    if 0x30 <= b <= 0x39 {
        b - 0x30
    } else if 0x41 <= b <= 0x46 {
        b - 0x41 + 10
    } else {
        b - 0x61 + 10
    }
}

/// What `u8::from_str_radix(.., 16)` gives for the two bytes `a b`: two hex
/// digits, or a `+` sign and one hex digit.
pub open spec fn hex_pair(a: u8, b: u8) -> Option<u8> {
    if is_hex(a) && is_hex(b) {
        Some((hex_value(a) * 16 + hex_value(b)) as u8)
    } else if a == 0x2b && is_hex(b) {
        Some(hex_value(b) as u8)
    } else {
        None
    }
}

fn hex_digit(b: u8) -> (r: Option<u8>)
    ensures
        is_hex(b) ==> r == Some(hex_value(b) as u8),
        !is_hex(b) ==> r is None,
{
    if 0x30 <= b && b <= 0x39 {
        Some(b - 0x30)
    } else if 0x41 <= b && b <= 0x46 {
        Some(b - 0x41 + 10)
    } else if 0x61 <= b && b <= 0x66 {
        Some(b - 0x61 + 10)
    } else {
        None
    }
}

pub(crate) fn hex_pair_exec(a: u8, b: u8) -> (r: Option<u8>)
    ensures
        r == hex_pair(a, b),
{
    match (hex_digit(a), hex_digit(b)) {
        (Some(x), Some(y)) => Some(x * 16 + y),
        (None, Some(y)) => if a == 0x2b {
            Some(y)
        } else {
            None
        },
        _ => None,
    }
}

/// Percent-decoding from byte `i` on: a `%` followed by two more bytes that
/// form a hex pair is replaced by that byte; `plus` also turns `+` into a
/// space. Everything else is copied.
pub open spec fn pct_from(b: Seq<u8>, i: int, plus: bool) -> Seq<u8>
    decreases b.len() - i,
{
    if i < 0 || i >= b.len() {
        seq![]
    } else if b[i] == 0x25 && i + 2 < b.len() && hex_pair(b[i + 1], b[i + 2]) is Some {
        seq![hex_pair(b[i + 1], b[i + 2])->0] + pct_from(b, i + 3, plus)
    } else if plus && b[i] == 0x2b {
        seq![0x20u8] + pct_from(b, i + 1, plus)
    } else {
        seq![b[i]] + pct_from(b, i + 1, plus)
    }
}

/// Percent-decodes the bytes `b` (see [`pct_from`]).
pub fn pct_loop(b: &Vec<u8>, plus: bool) -> (out: Vec<u8>)
    ensures
        out@ == pct_from(b@, 0, plus),
{
    let mut out: Vec<u8> = Vec::new();
    let mut i: usize = 0;
    let n = b.len();
    while i < n
        invariant
            n == b@.len(),
            0 <= i <= n + 2,
            out@ + pct_from(b@, i as int, plus) == pct_from(b@, 0, plus),
        decreases n + 3 - i,
    {
        if b[i] == 0x25 && n - i > 2 {
            if let Some(x) = hex_pair_exec(b[i + 1], b[i + 2]) {
                proof {
                    assert(out@.push(x) + pct_from(b@, i + 3, plus) =~= out@ + pct_from(b@, i as int, plus));
                }
                out.push(x);
                i = i + 3;
                continue;
            }
        }
        let c = if plus && b[i] == 0x2b {
            0x20u8
        } else {
            b[i]
        };
        proof {
            assert(out@.push(c) + pct_from(b@, i + 1, plus) =~= out@ + pct_from(b@, i as int, plus));
        }
        out.push(c);
        i = i + 1;
    }
    proof {
        assert(out@ + pct_from(b@, i as int, plus) =~= out@);
    }
    out
}

/// Byte `k` of `b` starts a character (or is the end).
pub open spec fn boundary(b: Seq<u8>, k: int) -> bool {
    k == b.len() || (0 <= k < b.len() && !(0x80 <= b[k] <= 0xbf))
}

/// Decoding a thumbnail query from byte `i` on never slices a character in
/// two: every `%` the loop stops at, with two more bytes after it, is
/// followed by a whole two-byte slice.
pub open spec fn thumb_query_ok(b: Seq<u8>, i: int) -> bool
    decreases b.len() - i,
{
    if i < 0 || i >= b.len() {
        true
    } else if b[i] == 0x25 && i + 2 < b.len() {
        boundary(b, i + 3) && if hex_pair(b[i + 1], b[i + 2]) is Some {
            thumb_query_ok(b, i + 3)
        } else {
            thumb_query_ok(b, i + 1)
        }
    } else {
        thumb_query_ok(b, i + 1)
    }
}

/// Text that holds no `%` is left as it is by percent-decoding: its bytes
/// come out unchanged, and they are valid UTF-8 that decodes to the text.
pub proof fn lemma_percent_decode_plain(s: Seq<char>)
    requires
        !s.contains('%'),
    ensures
        pct_from(encode_utf8(s), 0, false) == encode_utf8(s),
        valid_utf8(pct_from(encode_utf8(s), 0, false)),
        decode_utf8(pct_from(encode_utf8(s), 0, false)) == s,
{
    let b = encode_utf8(s);
    lemma_no_percent_byte(s);
    lemma_pct_identity(b, 0);
    assert(b.skip(0) =~= b);
    vstd::utf8::encode_utf8_valid_utf8(s);
    vstd::utf8::encode_utf8_decode_utf8(s);
}

/// A byte that `encodeURIComponent` leaves as it is: an ASCII letter or
/// digit, or one of `-_.!~*'()`.
pub open spec fn uri_unreserved(b: u8) -> bool {
    ||| 0x41 <= b <= 0x5a
    ||| 0x61 <= b <= 0x7a
    ||| 0x30 <= b <= 0x39
    ||| b == 0x2d || b == 0x5f || b == 0x2e || b == 0x21 || b == 0x7e
    ||| b == 0x2a || b == 0x27 || b == 0x28 || b == 0x29
}

/// The upper-case hex digit of `d`, for `0 <= d < 16`.
pub open spec fn hex_upper(d: int) -> u8 {
    if d < 10 {
        (0x30 + d) as u8
    } else {
        (0x41 + d - 10) as u8
    }
}

/// Bytes as `encodeURIComponent` writes them: an unreserved byte as it is,
/// any other as `%` and its two upper-case hex digits.
pub open spec fn uri_component(b: Seq<u8>) -> Seq<u8>
    decreases b.len(),
{
    if b.len() == 0 {
        seq![]
    } else {
        let c = b[0];
        let head = if uri_unreserved(c) {
            seq![c]
        } else {
            seq![0x25u8, hex_upper(c as int / 16), hex_upper(c as int % 16)]
        };
        head + uri_component(b.drop_first())
    }
}

proof fn lemma_pct_after(pre: Seq<u8>, b: Seq<u8>)
    ensures
        pct_from(pre + uri_component(b), pre.len() as int, false) == b,
    decreases b.len(),
{
    let whole = pre + uri_component(b);
    if b.len() == 0 {
        assert(whole =~= pre);
        assert(b =~= Seq::<u8>::empty());
    } else {
        let c = b[0];
        let rest = b.drop_first();
        let i = pre.len() as int;
        if uri_unreserved(c) {
            let pre2 = pre.push(c);
            assert(whole =~= pre2 + uri_component(rest));
            lemma_pct_after(pre2, rest);
            assert(whole[i] == c);
            assert(seq![c] + rest =~= b);
        } else {
            let hi = hex_upper(c as int / 16);
            let lo = hex_upper(c as int % 16);
            let pre2 = pre + seq![0x25u8, hi, lo];
            assert(whole =~= pre2 + uri_component(rest));
            lemma_pct_after(pre2, rest);
            assert(whole[i] == 0x25 && whole[i + 1] == hi && whole[i + 2] == lo);
            assert(is_hex(hi) && is_hex(lo));
            assert(hex_value(hi) == c as int / 16 && hex_value(lo) == c as int % 16);
            assert(hex_pair(hi, lo) == Some(c));
            assert(seq![c] + rest =~= b);
        }
    }
}

/// Percent-decoding undoes the encoding of `encodeURIComponent`, for any
/// bytes.
pub proof fn lemma_pct_undoes_uri_component(b: Seq<u8>)
    ensures
        pct_from(uri_component(b), 0, false) == b,
{
    lemma_pct_after(seq![], b);
    assert(Seq::<u8>::empty() + uri_component(b) =~= uri_component(b));
}

proof fn lemma_pct_identity(b: Seq<u8>, i: int)
    requires
        0 <= i <= b.len(),
        forall|k: int| 0 <= k < b.len() ==> b[k] != 0x25,
    ensures
        pct_from(b, i, false) == b.skip(i),
    decreases b.len() - i,
{
    if i < b.len() {
        lemma_pct_identity(b, i + 1);
        assert(seq![b[i]] + b.skip(i + 1) =~= b.skip(i));
    } else {
        assert(b.skip(i) =~= Seq::<u8>::empty());
    }
}

/// No byte of the UTF-8 form of a character other than `%` is `%`: a
/// one-byte form is the character itself, and every byte of a longer form
/// has its high bit set.
proof fn lemma_scalar_no_percent(c: u32)
    requires
        c != 0x25,
    ensures
        forall|k: int| 0 <= k < encode_scalar(c).len() ==> encode_scalar(c)[k] != 0x25,
{
    assert(c <= 0x7f && c != 0x25 ==> (c & 0x7f) as u8 != 0x25u8) by (bit_vector);
    assert((0xC0u8 | ((c >> 6) & 0x1F) as u8) != 0x25u8) by (bit_vector);
    assert((0xE0u8 | ((c >> 12) & 0x0F) as u8) != 0x25u8) by (bit_vector);
    assert((0xF0u8 | ((c >> 18) & 0x7) as u8) != 0x25u8) by (bit_vector);
    assert((0x80u8 | (c & 0x3F) as u8) != 0x25u8) by (bit_vector);
    assert((0x80u8 | ((c >> 6) & 0x3F) as u8) != 0x25u8) by (bit_vector);
    assert((0x80u8 | ((c >> 12) & 0x3F) as u8) != 0x25u8) by (bit_vector);
}

/// No byte of the UTF-8 form of a text without `%` is `%`.
proof fn lemma_no_percent_byte(s: Seq<char>)
    requires
        !s.contains('%'),
    ensures
        forall|k: int| 0 <= k < encode_utf8(s).len() ==> encode_utf8(s)[k] != 0x25,
    decreases s.len(),
{
    if s.len() > 0 {
        let rest = s.drop_first();
        assert forall|c: char| rest.contains(c) implies s.contains(c) by {
            let j = choose|j: int| 0 <= j < rest.len() && rest[j] == c;
            assert(s[j + 1] == c);
        }
        lemma_no_percent_byte(rest);
        assert(s[0] != '%') by {
            if s[0] == '%' {
                assert(s.contains(s[0]));
            }
        }
        assert(s[0] as u32 != 0x25) by {
            if s[0] as u32 == 0x25 {
                vstd::utf8::char_u32_cast(s[0], 0x25u32);
                vstd::utf8::char_u32_cast('%', 0x25u32);
            }
        }
        lemma_scalar_no_percent(s[0] as u32);
        let e = encode_scalar(s[0] as u32);
        assert(encode_utf8(s) == e + encode_utf8(rest));
        assert forall|k: int| 0 <= k < encode_utf8(s).len() implies encode_utf8(s)[k] != 0x25 by {
            if k < e.len() {
                assert(encode_utf8(s)[k] == e[k]);
            } else {
                assert(encode_utf8(s)[k] == encode_utf8(rest)[k - e.len()]);
            }
        }
    }
}

} // verus!
