//! The thumbnail server's decisions: which URL a request asks for, whether
//! its host may be fetched, how a failed fetch is retried, where the image is
//! kept on disk and what type of image it is.
use crate::codec::{boundary, bytes_of, lossy_string, pct_from, thumb_query_ok, utf8_lossy};
use crate::links::{first_prefixed, prefixed_value};
use crate::text::{chars_of, matches_at, split, split_on, string_of, strip_prefix, views};
use vstd::prelude::*;
use vstd::utf8::{decode_utf8, encode_utf8, valid_utf8};

verus! {

/// Percent-decoding of the `u=` parameter of a thumbnail request: `%XX` is
/// the byte `XX` (`u8::from_str_radix` also takes `+X`), and `+` is a space.
/// The two characters after a `%` are sliced out of the string, so they must
/// end on a character boundary.
pub fn percent_decode(s: &str) -> (r: String)
    requires
        thumb_query_ok(encode_utf8(s@), 0),
    ensures
        r@ == utf8_lossy(pct_from(encode_utf8(s@), 0, true)),
        valid_utf8(pct_from(encode_utf8(s@), 0, true)) ==> r@ == decode_utf8(
            pct_from(encode_utf8(s@), 0, true),
        ),
{
    let b = bytes_of(s);
    let out = crate::codec::pct_loop(&b, true);
    lossy_string(out.as_slice())
}

/// Whether [`percent_decode`] can slice every `%XX` it meets.
pub fn decodable(s: &str) -> (ok: bool)
    ensures
        ok == thumb_query_ok(encode_utf8(s@), 0),
{
    let b = bytes_of(s);
    let n = b.len();
    let mut i: usize = 0;
    while i < n
        invariant
            n == b@.len(),
            b@ == encode_utf8(s@),
            0 <= i <= n,
            thumb_query_ok(b@, 0) == thumb_query_ok(b@, i as int),
        decreases n - i,
    {
        if b[i] == 0x25 && n - i > 2 {
            let at_boundary = i + 3 == n || !(0x80 <= b[i + 3] && b[i + 3] <= 0xbf);
            if !at_boundary {
                return false;
            }
            let a = b[i + 1];
            let c = b[i + 2];
            if crate::codec::hex_pair_exec(a, c).is_some() {
                i = i + 3;
            } else {
                i = i + 1;
            }
        } else {
            i = i + 1;
        }
    }
    true
}

/// The URL a thumbnail request asks for: the value of the first
/// `&`-separated piece of the query that starts with `u=`, still encoded.
pub open spec fn query_target(query: Seq<char>) -> Option<Seq<char>> {
    prefixed_value(split_on(query, "&"@), "u="@)
}

/// The still-encoded URL of a thumbnail request.
pub fn query_url(query: &str) -> (r: Option<String>)
    ensures
        match r {
            Some(u) => query_target(query@) == Some(u@),
            None => query_target(query@) is None,
        },
{
    let q = chars_of(query);
    let amp = chars_of("&");
    let pieces = split(q.as_slice(), amp.as_slice());
    let pre = chars_of("u=");
    match first_prefixed(&pieces, pre.as_slice()) {
        Some(v) => Some(string_of(v.as_slice())),
        None => None,
    }
}

/// Hosts that thumbnails may be fetched from: the server is a proxy, and
/// without this list the interface could make it download anything.
pub open spec fn allowed_host(h: Seq<char>) -> bool {
    ||| h == "yt3.googleusercontent.com"@
    ||| h == "lh3.googleusercontent.com"@
    ||| h == "yt3.ggpht.com"@
    ||| h == "i.ytimg.com"@
    ||| h == "i9.ytimg.com"@
}

/// The host of an `https://` URL: what follows the scheme up to the first `/`.
pub open spec fn https_host(url: Seq<char>) -> Option<Seq<char>> {
    if matches_at(url, "https://"@, 0) {
        Some(split_on(url.skip(8), "/"@)[0])
    } else {
        None
    }
}

/// The image hosts of YouTube and YouTube Music are all served: an
/// `https://` URL on `yt3.googleusercontent.com`, `lh3.googleusercontent.com`
/// (album art), `yt3.ggpht.com`, `i.ytimg.com` or `i9.ytimg.com`, whatever its
/// path, has that host, and the host is accepted.
pub proof fn lemma_image_hosts_served(h: Seq<char>, path: Seq<char>)
    requires
        h == "yt3.googleusercontent.com"@ || h == "lh3.googleusercontent.com"@ || h == "yt3.ggpht.com"@
            || h == "i.ytimg.com"@ || h == "i9.ytimg.com"@,
    ensures
        https_host("https://"@ + h + "/"@ + path) == Some(h),
        allowed_host(h),
{
    reveal_strlit("https://");
    reveal_strlit("/");
    reveal_strlit("yt3.googleusercontent.com");
    reveal_strlit("lh3.googleusercontent.com");
    reveal_strlit("yt3.ggpht.com");
    reveal_strlit("i.ytimg.com");
    reveal_strlit("i9.ytimg.com");
    let url = "https://"@ + h + "/"@ + path;
    assert(url.subrange(0, 8) =~= "https://"@);
    let z = url.skip(8);
    assert(z =~= h + "/"@ + path);
    let n = h.len() as int;
    assert forall|j: int| 0 <= j < n implies !"/"@.contains(#[trigger] z[j]) by {
        assert(z[j] == h[j]);
        assert(h[j] != '/');
        if "/"@.contains(z[j]) {
            assert("/"@[0] == '/');
        }
    }
    assert(z[n] == '/');
    assert("/"@.contains(z[n])) by {
        assert("/"@[0] == z[n]);
    }
    crate::text::lemma_first_sep_prefix(z, "/"@, n);
    assert(crate::text::first_sep(z, "/"@, n) == n);
    assert(z.take(n) =~= h);
}

/// No other host is served: the proxy fetches from nowhere else.
pub proof fn lemma_only_image_hosts(h: Seq<char>)
    requires
        h != "yt3.googleusercontent.com"@,
        h != "lh3.googleusercontent.com"@,
        h != "yt3.ggpht.com"@,
        h != "i.ytimg.com"@,
        h != "i9.ytimg.com"@,
    ensures
        !allowed_host(h),
{
}

/// Why a thumbnail URL is refused.
#[derive(Debug, Clone, PartialEq, Eq)]
pub enum HostRefusal {
    /// The URL is not an `https://` one.
    NoHost,
    /// The host is not one of the allowed ones.
    NotAllowed(String),
}

/// Checks the host of a thumbnail URL against the allowed list.
pub fn check_host(url: &str) -> (r: Result<String, HostRefusal>)
    ensures
        match https_host(url@) {
            None => r == Err::<String, HostRefusal>(HostRefusal::NoHost),
            Some(h) => if allowed_host(h) {
                r matches Ok(v) && v@ == h
            } else {
                r matches Err(HostRefusal::NotAllowed(v)) && v@ == h
            },
        },
{
    let rest = match strip_prefix(url, "https://") {
        Some(rest) => rest,
        None => {
            return Err(HostRefusal::NoHost);
        },
    };
    proof {
        reveal_strlit("https://");
    }
    let rv = chars_of(rest.as_str());
    let slash = chars_of("/");
    let pieces = split(rv.as_slice(), slash.as_slice());
    proof {
        assert(views(pieces@)[0] == pieces@[0]@);
    }
    let host = string_of(pieces[0].as_slice());
    assert(https_host(url@) == Some(host@));
    let allowed = ["yt3.googleusercontent.com", "lh3.googleusercontent.com", "yt3.ggpht.com", "i.ytimg.com", "i9.ytimg.com"];
    let mut i: usize = 0;
    while i < 5
        invariant
            0 <= i <= 5,
            allowed@ == seq![
                "yt3.googleusercontent.com",
                "lh3.googleusercontent.com",
                "yt3.ggpht.com",
                "i.ytimg.com",
                "i9.ytimg.com",
            ],
            forall|j: int| 0 <= j < i ==> host@ != (#[trigger] allowed@[j])@,
            https_host(url@) == Some(host@),
        decreases 5 - i,
    {
        if crate::text::str_eq(host.as_str(), allowed[i]) {
            proof {
                assert(host@ == allowed@[i as int]@);
                assert(allowed_host(allowed@[i as int]@)) by {
                    assert(i == 0 || i == 1 || i == 2 || i == 3 || i == 4);
                }
                assert(allowed_host(host@));
            }
            return Ok(host);
        }
        i = i + 1;
    }
    proof {
        assert(host@ != allowed@[0]@);
        assert(host@ != allowed@[1]@);
        assert(host@ != allowed@[2]@);
        assert(host@ != allowed@[3]@);
        assert(host@ != allowed@[4]@);
    }
    Err(HostRefusal::NotAllowed(host))
}

/// What to do after a fetch of a thumbnail.
#[derive(Debug, Clone, Copy, PartialEq, Eq, Structural)]
pub enum FetchStep {
    /// The image came: keep it.
    Keep,
    /// An answer that retrying will not mend: fail with it.
    Fail,
    /// A `429`, a `5xx` or a failed connection: wait so many milliseconds.
    Wait(u64),
}

/// The wait after failed attempt `k` (from 0): 300 ms, doubled each time.
pub open spec fn backoff(k: nat) -> nat
    decreases k,
{
    if k == 0 {
        300
    } else {
        2 * backoff((k - 1) as nat)
    }
}

/// The decision after attempt `attempt` (from 0) got HTTP `status`, or no
/// answer at all (`None`).
pub fn fetch_step(attempt: u32, status: Option<u16>) -> (r: FetchStep)
    requires
        attempt < 56,
    ensures
        match status {
            Some(s) => if 200 <= s <= 299 {
                r == FetchStep::Keep
            } else if s == 429 || (500 <= s <= 599) {
                r == FetchStep::Wait(backoff(attempt as nat) as u64)
            } else {
                r == FetchStep::Fail
            },
            None => r == FetchStep::Wait(backoff(attempt as nat) as u64),
        },
{
    if let Some(s) = status {
        if 200 <= s && s <= 299 {
            return FetchStep::Keep;
        }
        if s != 429 && !(500 <= s && s <= 599) {
            return FetchStep::Fail;
        }
    }
    let mut ms: u64 = 300;
    let mut k: u32 = 0;
    while k < attempt
        invariant
            k <= attempt < 56,
            ms == backoff(k as nat),
        decreases attempt - k,
    {
        proof {
            lemma_backoff_bound((k + 1) as nat);
        }
        assert(ms * 2 == backoff((k + 1) as nat));
        ms = ms * 2;
        k = k + 1;
    }
    FetchStep::Wait(ms)
}

/// A bound on [`backoff`] that keeps it inside `u64` below 56 doublings.
pub open spec fn pow2_bound(k: nat) -> nat
    decreases k,
{
    if k == 0 {
        1
    } else {
        2 * pow2_bound((k - 1) as nat)
    }
}

proof fn lemma_backoff_bound(k: nat)
    ensures
        backoff(k) == 300 * pow2_bound(k),
        k <= 55 ==> pow2_bound(k) <= 0x80_0000_0000_0000,
    decreases k,
{
    if k > 0 {
        lemma_backoff_bound((k - 1) as nat);
    }
    if k <= 55 {
        lemma_pow2_mono(k, 55);
        assert(pow2_bound(55) == 0x80_0000_0000_0000) by {
            reveal_with_fuel(pow2_bound, 56);
        }
    }
}

proof fn lemma_pow2_mono(a: nat, b: nat)
    requires
        a <= b,
    ensures
        pow2_bound(a) <= pow2_bound(b),
    decreases b - a,
{
    if a < b {
        lemma_pow2_mono(a, (b - 1) as nat);
    }
}

/// One step of the FNV-1a hash.
pub open spec fn fnv_step(h: u64, b: u8) -> u64 {
    vstd::wrapping::u64_specs::wrapping_mul(h ^ (b as u64), 0x0100_0000_01b3)
}

/// The 64-bit FNV-1a hash of some bytes.
pub open spec fn fnv_hash(data: Seq<u8>) -> u64
    decreases data.len(),
{
    if data.len() == 0 {
        0xcbf2_9ce4_8422_2325
    } else {
        fnv_step(fnv_hash(data.drop_last()), data.last())
    }
}

/// The 64-bit FNV-1a hash, stable across Rust versions (std's `DefaultHasher`
/// is not, and a cache that every compiler update throws away is a bad one).
pub fn fnv1a64(data: &[u8]) -> (h: u64)
    ensures
        h == fnv_hash(data@),
{
    let mut h: u64 = 0xcbf2_9ce4_8422_2325;
    let mut i: usize = 0;
    while i < data.len()
        invariant
            0 <= i <= data@.len(),
            h == fnv_hash(data@.take(i as int)),
        decreases data@.len() - i,
    {
        proof {
            assert(data@.take(i + 1).drop_last() =~= data@.take(i as int));
        }
        h = h ^ (data[i] as u64);
        h = h.wrapping_mul(0x0100_0000_01b3);
        i = i + 1;
    }
    proof {
        assert(data@.take(data@.len() as int) =~= data@);
    }
    h
}

/// The lower-case hex digit of `d`.
pub open spec fn hex_char(d: u64) -> char {
    if d < 10 {
        (d + 0x30) as char
    } else {
        (d - 10 + 0x61) as char
    }
}

/// `h` as sixteen lower-case hex digits (`{:016x}`).
pub open spec fn hex16(h: u64) -> Seq<char> {
    Seq::new(16, |i: int| hex_char(((h >> ((60 - 4 * i) as u64)) & 0xf) as u64))
}

/// Name of the cache file of a thumbnail: the hash of its URL in sixteen hex
/// digits, then `.img`.
pub fn cache_file_name(url: &str) -> (r: String)
    ensures
        r@ == hex16(fnv_hash(encode_utf8(url@))) + ".img"@,
{
    let b = bytes_of(url);
    let h = fnv1a64(b.as_slice());
    let mut v: Vec<char> = Vec::new();
    let mut i: u64 = 0;
    while i < 16
        invariant
            0 <= i <= 16,
            v@ == hex16(h).take(i as int),
        decreases 16 - i,
    {
        let shift: u64 = 60 - 4 * i;
        let d: u64 = (h >> shift) & 0xf;
        assert(d < 16) by (bit_vector)
            requires
                d == (h >> shift) & 0xf,
        ;
        let c: char = if d < 10 {
            ((d as u8) + 0x30) as char
        } else {
            ((d as u8) - 10 + 0x61) as char
        };
        proof {
            assert(c == hex_char(d));
            assert(hex16(h)[i as int] == hex_char(d));
            assert(hex16(h).take(i + 1) =~= hex16(h).take(i as int).push(c));
        }
        v.push(c);
        i = i + 1;
    }
    let mut ext = chars_of(".img");
    v.append(&mut ext);
    proof {
        assert(hex16(h).take(16) =~= hex16(h));
    }
    string_of(v.as_slice())
}

/// The type of an image by its first bytes.
pub open spec fn mime_of(b: Seq<u8>) -> Seq<char> {
    if b.len() >= 2 && b[0] == 0xFF && b[1] == 0xD8 {
        "image/jpeg"@
    } else if b.len() >= 4 && b[0] == 0x89 && b[1] == 0x50 && b[2] == 0x4E && b[3] == 0x47 {
        "image/png"@
    } else if b.len() > 12 && b[0] == 0x52 && b[1] == 0x49 && b[2] == 0x46 && b[3] == 0x46
        && b[8] == 0x57 && b[9] == 0x45 && b[10] == 0x42 && b[11] == 0x50 {
        "image/webp"@
    } else {
        "application/octet-stream"@
    }
}

/// The `Content-Type` of a thumbnail: JPEG (`FF D8`), PNG (`\x89PNG`), WebP
/// (`RIFF` .... `WEBP`, longer than twelve bytes), or opaque bytes.
pub fn sniff_mime(bytes: &[u8]) -> (r: &'static str)
    ensures
        r@ == mime_of(bytes@),
{
    let n = bytes.len();
    if n >= 2 && bytes[0] == 0xFF && bytes[1] == 0xD8 {
        "image/jpeg"
    } else if n >= 4 && bytes[0] == 0x89 && bytes[1] == 0x50 && bytes[2] == 0x4E && bytes[3] == 0x47 {
        "image/png"
    } else if n > 12 && bytes[0] == 0x52 && bytes[1] == 0x49 && bytes[2] == 0x46 && bytes[3] == 0x46
        && bytes[8] == 0x57 && bytes[9] == 0x45 && bytes[10] == 0x42 && bytes[11] == 0x50 {
        "image/webp"
    } else {
        "application/octet-stream"
    }
}

} // verus!
