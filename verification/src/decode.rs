//! Which container a track's bytes come in.
use crate::text::{has, matches_at, str_contains, str_starts_with};
use vstd::prelude::*;

verus! {

/// The container a track is decoded as: the MIME type of its URL decides
/// first (a minted URL may carry Opus where InnerTube offered AAC), then the
/// codec, then the itag.
pub open spec fn extension_spec(itag: u32, mime: Option<Seq<char>>, codec: Option<Seq<char>>) -> Seq<char> {
    if mime is Some && has(mime->0, "webm"@) {
        "webm"@
    } else if mime is Some && has(mime->0, "mp4"@) {
        "m4a"@
    } else if codec is Some && matches_at(codec->0, "opus"@, 0) {
        "webm"@
    } else if codec is Some && matches_at(codec->0, "mp4a"@, 0) {
        "m4a"@
    } else if itag == 249 || itag == 250 || itag == 251 {
        "webm"@
    } else {
        "m4a"@
    }
}

/// The container of a track, as [`extension_spec`] decides it.
pub fn extension_for(itag: u32, mime: Option<&str>, codec: Option<&str>) -> (r: &'static str)
    ensures
        r@ == extension_spec(
            itag,
            match mime {
                Some(m) => Some(m@),
                None => None,
            },
            match codec {
                Some(c) => Some(c@),
                None => None,
            },
        ),
{
    if let Some(m) = mime {
        if str_contains(m, "webm") {
            return "webm";
        }
        if str_contains(m, "mp4") {
            return "m4a";
        }
    }
    if let Some(c) = codec {
        if str_starts_with(c, "opus") {
            return "webm";
        }
        if str_starts_with(c, "mp4a") {
            return "m4a";
        }
    }
    if itag == 249 || itag == 250 || itag == 251 {
        "webm"
    } else {
        "m4a"
    }
}

} // verus!
