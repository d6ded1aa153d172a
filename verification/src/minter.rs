//! The decisions of the URL minter: which page the hidden webview opens, what
//! it hands back through the `ytmint://` channel, and whether what came back
//! is an audio URL at all.
use crate::codec::{bytes_of, lossy_string, pct_from, uri_component, utf8_lossy};
use crate::text::{concat, has, matches_at, str_contains, strip_prefix};
use vstd::prelude::*;
use vstd::utf8::{decode_utf8, encode_utf8, valid_utf8};

verus! {

/// Where a URL is minted from.
#[derive(Debug, Clone, Copy, PartialEq, Eq, Structural)]
pub enum Origin {
    /// music.youtube.com, which serves the audio as WebM/Opus only.
    Music,
    /// www.youtube.com, which also offers mp4/AAC but does not start playing
    /// without a real user gesture, so no segment is ever requested.
    Watch,
}

/// The page the hidden webview opens for a video.
pub open spec fn watch_url_spec(origin: Origin, video_id: Seq<char>) -> Seq<char> {
    match origin {
        Origin::Music => "https://music.youtube.com/watch?v="@ + video_id,
        Origin::Watch => "https://www.youtube.com/watch?v="@ + video_id,
    }
}

/// The page the hidden webview opens for a video.
pub fn watch_url(origin: Origin, video_id: &str) -> (r: String)
    ensures
        r@ == watch_url_spec(origin, video_id@),
{
    match origin {
        Origin::Music => concat("https://music.youtube.com/watch?v=", video_id),
        Origin::Watch => concat("https://www.youtube.com/watch?v=", video_id),
    }
}

/// Percent-decoding of what the page script sends with
/// `encodeURIComponent`: only `%XX`, never `+`. A `%` that is not followed by
/// two hex digits stays as it is, and the bytes are read as UTF-8 with
/// replacement characters for what is not.
pub fn percent_decode(s: &str) -> (r: String)
    ensures
        r@ == utf8_lossy(pct_from(encode_utf8(s@), 0, false)),
        valid_utf8(pct_from(encode_utf8(s@), 0, false)) ==> r@ == decode_utf8(
            pct_from(encode_utf8(s@), 0, false),
        ),
        !s@.contains('%') ==> r@ == s@,
        forall|t: Seq<char>|
            encode_utf8(s@) == #[trigger] uri_component(encode_utf8(t)) ==> r@ == t,
{
    let b = bytes_of(s);
    let out = crate::codec::pct_loop(&b, false);
    proof {
        if !s@.contains('%') {
            crate::codec::lemma_percent_decode_plain(s@);
        }
        assert forall|t: Seq<char>|
            encode_utf8(s@) == #[trigger] uri_component(encode_utf8(t)) implies valid_utf8(
            pct_from(encode_utf8(s@), 0, false),
        ) && decode_utf8(pct_from(encode_utf8(s@), 0, false)) == t by {
            crate::codec::lemma_pct_undoes_uri_component(encode_utf8(t));
            vstd::utf8::encode_utf8_valid_utf8(t);
            vstd::utf8::encode_utf8_decode_utf8(t);
        }
    }
    lossy_string(out.as_slice())
}

/// What a navigation of the hidden webview carries back: for a
/// `ytmint://<url>` navigation, the decoded URL (and the navigation is
/// cancelled); for any other, nothing (and the page navigates).
pub fn navigation_capture(nav: &str) -> (r: Option<String>)
    ensures
        matches_at(nav@, "ytmint://"@, 0) <==> r is Some,
        r matches Some(u) ==> u@ == utf8_lossy(
            pct_from(encode_utf8(nav@.skip("ytmint://"@.len() as int)), 0, false),
        ),
{
    match strip_prefix(nav, "ytmint://") {
        Some(rest) => Some(percent_decode(rest.as_str())),
        None => None,
    }
}

/// Why a minting came back empty-handed.
#[derive(Debug, Clone, Copy, PartialEq, Eq, Structural)]
pub enum MintFailure {
    /// The page handed back a URL that is not a googlevideo one.
    NotGooglevideo,
    /// The webview closed without handing back anything.
    Closed,
    /// Nothing came back within the time allowed.
    TimedOut,
}

/// The verdict on a minting: `None` when the time ran out, `Some(None)` when
/// the channel closed, `Some(Some(url))` when a URL came back, which is kept
/// only if it is a googlevideo URL.
pub fn mint_verdict(outcome: Option<Option<String>>) -> (r: Result<String, MintFailure>)
    ensures
        match outcome {
            None => r == Err::<String, MintFailure>(MintFailure::TimedOut),
            Some(None) => r == Err::<String, MintFailure>(MintFailure::Closed),
            Some(Some(u)) => if has(u@, "googlevideo.com"@) {
                r matches Ok(v) && v@ == u@
            } else {
                r == Err::<String, MintFailure>(MintFailure::NotGooglevideo)
            },
        },
{
    match outcome {
        None => Err(MintFailure::TimedOut),
        Some(None) => Err(MintFailure::Closed),
        Some(Some(u)) => {
            if str_contains(u.as_str(), "googlevideo.com") {
                Ok(u)
            } else {
                Err(MintFailure::NotGooglevideo)
            }
        },
    }
}

} // verus!
