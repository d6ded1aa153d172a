//! Track metadata shared by the source side and the audio engine.
use crate::text::{
    chars_of, find, find_at, find_char, find_char_from, lemma_find_char_from, lemma_find_from, matches_at, parse_u64, slice_vec,
    str_starts_with, string_of, u64_of,
};
use vstd::prelude::*;

verus! {

/// Basic metadata of a track. Everything but the id may be unknown.
#[derive(Debug, Clone)]
pub struct TrackInfo {
    pub video_id: String,
    pub title: Option<String>,
    pub author: Option<String>,
    pub thumbnail: Option<String>,
    /// Known duration of the track, in milliseconds.
    pub duration_ms: Option<u64>,
}

impl TrackInfo {
    /// A track of which only the id is known.
    pub fn bare(video_id: String) -> (t: TrackInfo)
        ensures
            t.video_id@ == video_id@,
            t.title is None,
            t.author is None,
            t.thumbnail is None,
            t.duration_ms is None,
    {
        TrackInfo { video_id, title: None, author: None, thumbnail: None, duration_ms: None }
    }
}


/// A session attestation: the pair googlevideo asks for to serve a whole
/// track. The token is bound to the visitor data it was minted with, so the
/// two always travel together.
#[derive(Debug, Clone)]
pub struct Attestation {
    pub visitor_data: String,
    pub po_token: String,
}

/// The answer of InnerTube's `player` endpoint, as far as this player reads
/// it. Nearly everything is optional: YouTube adds and drops fields without
/// notice, and an unexpected `null` must not stop playback.
#[derive(Debug, Clone)]
pub struct PlayerResponse {
    pub playability_status: Option<PlayabilityStatus>,
    pub streaming_data: Option<StreamingData>,
    pub video_details: Option<VideoDetails>,
}

/// Whether the video can be played, and why not.
#[derive(Debug, Clone)]
pub struct PlayabilityStatus {
    /// `OK`, `UNPLAYABLE`, `LOGIN_REQUIRED`, `ERROR`, ...
    pub status: Option<String>,
    pub reason: Option<String>,
}

/// The streams of a video.
#[derive(Debug, Clone)]
pub struct StreamingData {
    /// Seconds the URLs stay valid.
    pub expires_in_seconds: Option<String>,
    pub formats: Vec<Format>,
    /// Separate audio and video tracks: all this player wants.
    pub adaptive_formats: Vec<Format>,
}

/// One stream of a video. The measured loudness that InnerTube also sends is
/// a float and is kept beside the library, by the caller.
#[derive(Debug, Clone)]
pub struct Format {
    pub itag: u32,
    /// Direct URL; when absent the stream must be deciphered.
    pub url: Option<String>,
    pub signature_cipher: Option<String>,
    pub mime_type: Option<String>,
    pub bitrate: Option<u64>,
    pub average_bitrate: Option<u64>,
    pub content_length: Option<String>,
    pub approx_duration_ms: Option<String>,
    pub audio_quality: Option<String>,
    pub audio_sample_rate: Option<String>,
    pub audio_channels: Option<u8>,
}

/// What a video is and who made it.
#[derive(Debug, Clone)]
pub struct VideoDetails {
    pub video_id: Option<String>,
    pub title: Option<String>,
    pub author: Option<String>,
    pub length_seconds: Option<String>,
    pub thumbnail: Option<Thumbnails>,
}

/// A set of thumbnails, smallest first.
#[derive(Debug, Clone)]
pub struct Thumbnails {
    pub thumbnails: Vec<Thumbnail>,
}

/// One thumbnail.
#[derive(Debug, Clone)]
pub struct Thumbnail {
    pub url: String,
    pub width: Option<u32>,
    pub height: Option<u32>,
}

/// The stream is audio only: its MIME type starts with `audio/`.
pub open spec fn is_audio_spec(f: Format) -> bool {
    f.mime_type is Some && matches_at(f.mime_type->0@, "audio/"@, 0)
}

/// The codec declared in a MIME type: what stands between `codecs="` and the
/// next `"`.
pub open spec fn codec_spec(mime: Seq<char>) -> Option<Seq<char>> {
    let start = find(mime, "codecs=\""@);
    if start < 0 {
        None
    } else {
        let rest = mime.skip(start + 8);
        let end = find_char_from(rest, '"', 0);
        if end < 0 {
            None
        } else {
            Some(rest.take(end))
        }
    }
}

impl Format {
    /// Whether the stream is audio only.
    pub fn is_audio(&self) -> (b: bool)
        ensures
            b == is_audio_spec(*self),
    {
        match &self.mime_type {
            Some(m) => str_starts_with(m.as_str(), "audio/"),
            None => false,
        }
    }

    /// The codec declared in the MIME type, such as `mp4a.40.2` or `opus`.
    pub fn codec(&self) -> (r: Option<String>)
        ensures
            match self.mime_type {
                None => r is None,
                Some(m) => match r {
                    Some(c) => codec_spec(m@) == Some(c@),
                    None => codec_spec(m@) is None,
                },
            },
    {
        let m = match &self.mime_type {
            Some(m) => m,
            None => {
                return None;
            },
        };
        let mv = chars_of(m.as_str());
        let pat = chars_of("codecs=\"");
        proof {
            reveal_strlit("codecs=\"");
        }
        let start = match find_at(mv.as_slice(), pat.as_slice(), 0) {
            Some(i) => i,
            None => {
                return None;
            },
        };
        proof {
            lemma_find_from(mv@, pat@, 0);
            assert(pat@.len() == 8);
            assert(matches_at(mv@, pat@, start as int));
        }
        let n = mv.len();
        assert(start + 8 <= n);
        let rest = slice_vec(mv.as_slice(), start + 8, n);
        proof {
            assert(rest@ =~= m@.skip(start + 8));
        }
        match find_char(rest.as_slice(), '"', 0) {
            Some(e) => {
                proof {
                    lemma_find_char_from(rest@, '"', 0);
                }
                let c = slice_vec(rest.as_slice(), 0, e);
                proof {
                    assert(c@ =~= rest@.take(e as int));
                }
                Some(string_of(c.as_slice()))
            },
            None => None,
        }
    }

    /// Whether the URL can be used as it is, with no deciphering.
    pub fn is_playable_directly(&self) -> (b: bool)
        ensures
            b == self.url is Some,
    {
        self.url.is_some()
    }

    /// The declared size in bytes, when it is a decimal number.
    pub fn content_length_bytes(&self) -> (r: Option<u64>)
        ensures
            r == match self.content_length {
                Some(c) => u64_of(c@),
                None => None,
            },
    {
        match &self.content_length {
            Some(c) => {
                let v = chars_of(c.as_str());
                parse_u64(v.as_slice())
            },
            None => None,
        }
    }
}

} // verus!
