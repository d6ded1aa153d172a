//! The measurements made on the download side before anything else was
//! built: which query parameters a minted URL survives without, whether a
//! URL holds a session token, how far a stream can be read by ranges, and
//! what an answer that redirects looks like. The requests themselves are
//! made by the caller; what they mean is decided here.
use crate::text::{
    chars_of, find, find_at, find_char, find_char_from, lemma_find_char_from, lemma_find_from, matches_at,
    slice_vec, split, split_on, string_of, u64_of, parse_u64, views, has, str_contains,
};
use crate::cache::{dec, decimal};
use crate::codec::{lossy_string, utf8_lossy};
use crate::text::{trim, trimmed};
use crate::thumbs::hex_char;
use vstd::prelude::*;

verus! {

/// Size of each range of a probe: 1 MiB.
pub const PROBE_CHUNK: u64 = 1_048_576;

/// At most this many redirects are followed.
pub const MAX_REDIRECTS: u32 = 12;

/// `s` with every piece `pat...` taken out, one after another: the first
/// occurrence of `pat` goes, up to the next `&` after its start (not
/// included) or to the end; then the same again on what is left.
pub open spec fn without_param(s: Seq<char>, pat: Seq<char>) -> Seq<char>
    decreases s.len(),
{
    let i = find(s, pat);
    if i < 0 || pat.len() == 0 {
        s
    } else {
        let j = find_char_from(s, '&', i + 1);
        let end = if j < 0 {
            s.len() as int
        } else {
            j
        };
        proof {
            lemma_find_from(s, pat, 0);
            lemma_find_char_from(s, '&', i + 1);
        }
        without_param(s.take(i) + s.skip(end), pat)
    }
}

/// The piece of a query that starts a parameter `key`: `&key=`.
pub open spec fn param_piece(key: Seq<char>) -> Seq<char> {
    seq!['&'] + key + seq!['=']
}

/// `s` without each parameter of the first `n` keys, in their order.
pub open spec fn without_params(s: Seq<char>, keys: Seq<Seq<char>>, n: int) -> Seq<char>
    decreases n,
{
    if n <= 0 {
        s
    } else {
        without_param(without_params(s, keys, n - 1), param_piece(keys[n - 1]))
    }
}

/// `s` without the parameters `&pat...` (see [`without_param`]).
fn strip_one(s: Vec<char>, pat: &[char]) -> (r: Vec<char>)
    ensures
        r@ == without_param(s@, pat@),
{
    let mut t = s;
    if pat.len() == 0 {
        return t;
    }
    loop
        invariant
            without_param(t@, pat@) == without_param(s@, pat@),
            pat@.len() > 0,
        decreases t@.len(),
    {
        let tl = t.len();
        let found = find_at(t.as_slice(), pat, 0);
        match found {
            None => {
                return t;
            },
            Some(i) => {
                proof {
                    lemma_find_from(t@, pat@, 0);
                    assert(matches_at(t@, pat@, i as int));
                    assert(i < tl);
                }
                let j = find_char(t.as_slice(), '&', i + 1);
                proof {
                    lemma_find_char_from(t@, '&', i + 1);
                }
                let end = match j {
                    Some(j) => j,
                    None => t.len(),
                };
                let mut head = slice_vec(t.as_slice(), 0, i);
                let mut tail = slice_vec(t.as_slice(), end, t.len());
                let ghost old_t = t@;
                head.append(&mut tail);
                proof {
                    assert(old_t.take(i as int) == old_t.subrange(0, i as int));
                    assert(old_t.skip(end as int) == old_t.subrange(end as int, old_t.len() as int));
                    assert(head@ == old_t.take(i as int) + old_t.skip(end as int));
                }
                t = head;
            },
        }
    }
}

/// A minted URL with the parameters `keys` taken out, in order: what the
/// probe of parameters asks for.
pub fn strip_params(url: &str, keys: &[&str]) -> (r: String)
    ensures
        r@ == without_params(url@, keys@.map_values(|k: &str| k@), keys@.len() as int),
{
    let ghost ks = keys@.map_values(|k: &str| k@);
    let mut t = chars_of(url);
    let mut n: usize = 0;
    while n < keys.len()
        invariant
            0 <= n <= keys@.len(),
            ks == keys@.map_values(|k: &str| k@),
            t@ == without_params(url@, ks, n as int),
        decreases keys@.len() - n,
    {
        let mut pat = chars_of("&");
        let mut k = chars_of(keys[n]);
        let mut eq = chars_of("=");
        pat.append(&mut k);
        pat.append(&mut eq);
        proof {
            reveal_strlit("&");
            reveal_strlit("=");
            assert(ks[n as int] == keys@[n as int]@);
            assert(pat@ == param_piece(ks[n as int]));
        }
        t = strip_one(t, pat.as_slice());
        n = n + 1;
    }
    string_of(t.as_slice())
}

/// The bytes `b` as two lower-case hex digits.
pub open spec fn hex_byte(b: u8) -> Seq<char> {
    seq![hex_char((b / 16) as u64), hex_char((b % 16) as u64)]
}

/// The first `n` bytes of `b` in hex.
pub open spec fn hex_head(b: Seq<u8>, n: int) -> Seq<char>
    decreases n,
{
    if n <= 0 {
        seq![]
    } else {
        hex_head(b, n - 1) + hex_byte(b[n - 1])
    }
}

fn hex_digit_char(d: u8) -> (c: char)
    requires
        d < 16,
    ensures
        c == hex_char(d as u64),
{
    if d < 10 {
        (d + 0x30) as char
    } else {
        (d - 10 + 0x61) as char
    }
}

/// The first four bytes of an answer (fewer if it is shorter) in hex: what
/// tells a media file from a UMP frame or an error page.
pub fn head_hex(body: &[u8]) -> (r: String)
    ensures
        r@ == hex_head(body@, if body@.len() < 4 { body@.len() as int } else { 4 }),
{
    let n: usize = if body.len() < 4 {
        body.len()
    } else {
        4
    };
    let mut v: Vec<char> = Vec::new();
    let mut i: usize = 0;
    while i < n
        invariant
            0 <= i <= n,
            n <= body@.len(),
            v@ == hex_head(body@, i as int),
        decreases n - i,
    {
        let b = body[i];
        let hi = hex_digit_char(b / 16);
        let lo = hex_digit_char(b % 16);
        v.push(hi);
        v.push(lo);
        proof {
            assert(v@ =~= hex_head(body@, i as int) + hex_byte(body@[i as int]));
        }
        i = i + 1;
    }
    string_of(v.as_slice())
}

/// The head of a WebM file (its EBML magic).
pub fn is_webm_head(head: &str) -> (b: bool)
    ensures
        b == (head@ == "1a45dfa3"@),
{
    crate::text::str_eq(head, "1a45dfa3")
}

/// The head of a UMP frame: googlevideo's own framing, not media bytes.
pub fn is_ump_head(head: &str) -> (b: bool)
    ensures
        b == matches_at(head@, "3a"@, 0),
{
    crate::text::str_starts_with(head, "3a")
}

/// A URL that carries a session token (`pot`): YouTube adds it to the URLs
/// it hands out when it accepted the attestation.
pub fn has_pot(url: &str) -> (b: bool)
    ensures
        b == (has(url@, "&pot="@) || has(url@, "?pot="@)),
{
    str_contains(url, "&pot=") || str_contains(url, "?pot=")
}

/// The size a URL formed by a browser declares: the text after the first
/// `clen=` (up to a second one), up to the first `&`, as a number; 0 when
/// there is none.
pub open spec fn clen_spec(url: Seq<char>) -> u64 {
    let i = find(url, "clen="@);
    if i < 0 {
        0
    } else {
        let rest = url.skip(i + 5);
        let j = find(rest, "clen="@);
        let piece = if j < 0 {
            rest
        } else {
            rest.take(j)
        };
        match u64_of(split_on(piece, "&"@)[0]) {
            Some(n) => n,
            None => 0,
        }
    }
}

/// The size a URL formed by a browser declares (see [`clen_spec`]).
pub fn clen_of(url: &str) -> (n: u64)
    ensures
        n == clen_spec(url@),
{
    let u = chars_of(url);
    let ul = u.len();
    let key = chars_of("clen=");
    proof {
        reveal_strlit("clen=");
    }
    match find_at(u.as_slice(), key.as_slice(), 0) {
        None => 0,
        Some(i) => {
            proof {
                lemma_find_from(u@, key@, 0);
                assert(matches_at(u@, key@, i as int));
                assert(i + 5 <= ul);
            }
            let rest = slice_vec(u.as_slice(), i + 5, ul);
            proof {
                assert(rest@ == u@.skip(i + 5));
            }
            let piece = match find_at(rest.as_slice(), key.as_slice(), 0) {
                None => rest,
                Some(j) => {
                    proof {
                        lemma_find_from(rest@, key@, 0);
                        assert(matches_at(rest@, key@, j as int));
                    }
                    let p = slice_vec(rest.as_slice(), 0, j);
                    proof {
                        assert(p@ == rest@.take(j as int));
                    }
                    p
                },
            };
            let amp = chars_of("&");
            let parts = split(piece.as_slice(), amp.as_slice());
            proof {
                assert(views(parts@)[0] == parts@[0]@);
            }
            match parse_u64(parts[0].as_slice()) {
                Some(n) => n,
                None => 0,
            }
        },
    }
}

/// The reading by ranges of a probe, after a successful range of `n` bytes
/// with `got` bytes before it and `expected` declared (0 when unknown): the
/// bytes now, and whether to ask for the next range. An empty range, a short
/// one, or reaching the expected size ends it.
pub fn probe_step(got: u64, n: u64, expected: u64) -> (r: (u64, bool))
    requires
        got + n <= u64::MAX,
    ensures
        n == 0 ==> r == (got, false),
        n > 0 ==> r.0 == got + n,
        n > 0 ==> (r.1 <==> !(n < PROBE_CHUNK || (expected > 0 && got + n >= expected))),
{
    if n == 0 {
        return (got, false);
    }
    let now = got + n;
    (now, !(n < PROBE_CHUNK || (expected > 0 && now >= expected)))
}

/// The stream was read whole: its size is known and that many bytes came.
pub fn complete(expected: u64, got: u64) -> (b: bool)
    ensures
        b == (expected > 0 && got >= expected),
{
    expected > 0 && got >= expected
}

/// An answer that is a URL and not media: a small body that starts with
/// `http`. It is where googlevideo redirects to.
pub open spec fn is_redirect_body(body: Seq<u8>) -> bool {
    body.len() < 8192 && body.len() >= 4 && body[0] == 0x68u8 && body[1] == 0x74u8 && body[2]
        == 0x74u8 && body[3] == 0x70u8
}

/// Whether an answer is a redirect (see [`is_redirect_body`]).
pub fn looks_like_url(body: &[u8]) -> (b: bool)
    ensures
        b == is_redirect_body(body@),
{
    body.len() < 8192 && body.len() >= 4 && body[0] == 0x68 && body[1] == 0x74 && body[2] == 0x74
        && body[3] == 0x70
}

/// The URL a redirect answer points to: its body read as UTF-8 (with
/// replacement characters for what is not), without the white space around
/// it.
pub fn redirect_target(body: &[u8]) -> (u: String)
    ensures
        u@ == trim(utf8_lossy(body@)),
{
    let s = lossy_string(body);
    let c = chars_of(s.as_str());
    let t = trimmed(c.as_slice());
    string_of(t.as_slice())
}

/// The URL of one range while following redirects: the range and the
/// request counter `rn` (which must grow with every request: a repeated one
/// is taken for a retry and refused) go as query parameters, with `alr=yes`,
/// which makes googlevideo answer with a redirect where it has one.
pub fn follow_url(base: &str, offset: u64, rn: u64) -> (r: String)
    requires
        offset + PROBE_CHUNK - 1 <= u64::MAX,
    ensures
        r@ == base@ + "&range="@ + dec(offset as nat) + "-"@ + dec((offset + PROBE_CHUNK - 1) as nat)
            + "&rn="@ + dec(rn as nat) + "&rbuf=0&alr=yes"@,
{
    let mut v = chars_of(base);
    let mut a = chars_of("&range=");
    let mut b = decimal(offset);
    let mut c = chars_of("-");
    let mut d = decimal(offset + (PROBE_CHUNK - 1));
    let mut e = chars_of("&rn=");
    let mut f = decimal(rn);
    let mut g = chars_of("&rbuf=0&alr=yes");
    v.append(&mut a);
    v.append(&mut b);
    v.append(&mut c);
    v.append(&mut d);
    v.append(&mut e);
    v.append(&mut f);
    v.append(&mut g);
    string_of(v.as_slice())
}

/// What to do with an answer while following redirects.
#[derive(Debug, Clone, Copy, PartialEq, Eq, Structural)]
pub enum FollowStep {
    /// The body is the new URL: ask it for the same range.
    Redirect,
    /// Too many redirects: stop.
    GiveUp,
    /// A refusal with this status: stop.
    Refused(u16),
    /// An empty body: the stream is over.
    Finished,
    /// Media bytes: count them, and go on when the range came whole.
    Chunk(bool),
}

/// The decision on an answer with status `status` and body `body`, after
/// `redirects` redirects followed.
pub fn follow_step(redirects: u32, status: u16, body: &[u8]) -> (s: FollowStep)
    ensures
        is_redirect_body(body@) && redirects >= MAX_REDIRECTS ==> s == FollowStep::GiveUp,
        is_redirect_body(body@) && redirects < MAX_REDIRECTS ==> s == FollowStep::Redirect,
        !is_redirect_body(body@) && !(200 <= status <= 299) ==> s == FollowStep::Refused(status),
        !is_redirect_body(body@) && 200 <= status <= 299 && body@.len() == 0 ==> s
            == FollowStep::Finished,
        !is_redirect_body(body@) && 200 <= status <= 299 && body@.len() > 0 ==> s == FollowStep::Chunk(
            body@.len() >= PROBE_CHUNK,
        ),
{
    if looks_like_url(body) {
        if redirects >= MAX_REDIRECTS {
            FollowStep::GiveUp
        } else {
            FollowStep::Redirect
        }
    } else if !(200 <= status && status <= 299) {
        FollowStep::Refused(status)
    } else if body.len() == 0 {
        FollowStep::Finished
    } else {
        let n = body.len();
        FollowStep::Chunk(n as u64 >= PROBE_CHUNK)
    }
}

/// While following, the reading goes on until the expected size is reached
/// (forever when it is unknown, until the stream ends).
pub fn follow_goes_on(expected: u64, offset: u64) -> (b: bool)
    ensures
        b == (expected == 0 || offset < expected),
{
    expected == 0 || offset < expected
}

} // verus!
