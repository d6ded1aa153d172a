//! What one client's answer to `player` yields: a playable audio stream with
//! the track's metadata, or the reason the client is passed over.
use crate::audio::copy_opt;
use crate::model::{codec_spec, Format, PlayerResponse, TrackInfo};
use crate::select::{audio_itag_preference, best_audio_index, choice};
use crate::text::{str_eq, u64_of};
use vstd::prelude::*;

verus! {

/// An audio stream ready to play.
#[derive(Debug, Clone)]
pub struct AudioStream {
    pub url: String,
    pub itag: u32,
    pub codec: Option<String>,
    pub bitrate: Option<u64>,
    pub size_bytes: Option<u64>,
    pub duration_ms: Option<u64>,
    /// The client that got this stream.
    pub via_client: &'static str,
    /// Position of the stream among the adaptive formats of the answer.
    pub format_index: usize,
}

/// A track resolved: its metadata and its stream.
#[derive(Debug, Clone)]
pub struct Resolved {
    pub track: TrackInfo,
    pub audio: AudioStream,
}

/// Why a client's answer is passed over.
#[derive(Debug, Clone)]
pub enum Rejection {
    /// The video is not playable for this client: its status (`UNKNOWN` when
    /// absent) and the reason given.
    NotPlayable { status: String, reason: Option<String> },
    /// The answer has no `streamingData`.
    NoStreamingData,
    /// No audio stream with a direct URL.
    NoDirectAudio,
}

/// The status of a playability status, `UNKNOWN` when absent.
pub open spec fn status_of(s: Option<String>) -> Seq<char> {
    match s {
        Some(v) => v@,
        None => "UNKNOWN"@,
    }
}

/// The answer says the video cannot be played.
pub open spec fn refused(res: PlayerResponse) -> bool {
    res.playability_status is Some && status_of(res.playability_status->0.status) != "OK"@
}

/// The URL of the last (largest) thumbnail of the details, if any.
pub open spec fn last_thumbnail(res: PlayerResponse) -> Option<Seq<char>> {
    if res.video_details is Some && res.video_details->0.thumbnail is Some
        && res.video_details->0.thumbnail->0.thumbnails@.len() > 0 {
        Some(res.video_details->0.thumbnail->0.thumbnails@.last().url@)
    } else {
        None
    }
}

/// A number given as decimal text, if it is one.
pub open spec fn number_of(s: Option<String>) -> Option<u64> {
    match s {
        Some(v) => u64_of(v@),
        None => None,
    }
}

/// The text of an optional string.
pub open spec fn text_of(s: Option<String>) -> Option<Seq<char>> {
    match s {
        Some(v) => Some(v@),
        None => None,
    }
}

fn number_in(s: &Option<String>) -> (r: Option<u64>)
    ensures
        r == number_of(*s),
{
    match s {
        Some(v) => {
            let c = crate::text::chars_of(v.as_str());
            crate::text::parse_u64(c.as_slice())
        },
        None => None,
    }
}

/// What a resolved track holds when it comes from the stream [`choice`]
/// picks among the adaptive formats of an answer: the stream's URL, itag,
/// codec, bitrate, size and duration, the client, and the title and author
/// of the video details. The thumbnail is left to each caller.
pub open spec fn from_choice(res: PlayerResponse, v: Resolved, video_id: Seq<char>, client_id: &'static str) -> bool {
    let fs = res.streaming_data->0.adaptive_formats@;
    let i = choice(fs, audio_itag_preference());
    let f = fs[i];
    &&& res.streaming_data is Some && 0 <= i < fs.len()
    &&& v.audio.format_index == i
    &&& Some(v.audio.url@) == text_of(f.url)
    &&& v.audio.itag == f.itag
    &&& text_of(v.audio.codec) == (match f.mime_type {
        Some(m) => codec_spec(m@),
        None => None,
    })
    &&& v.audio.bitrate == (if f.bitrate is Some { f.bitrate } else { f.average_bitrate })
    &&& v.audio.size_bytes == number_of(f.content_length)
    &&& v.audio.duration_ms == number_of(f.approx_duration_ms)
    &&& v.audio.via_client == client_id
    &&& v.track.video_id@ == video_id
    &&& v.track.title == (if res.video_details is Some { res.video_details->0.title } else { None })
    &&& v.track.author == (if res.video_details is Some { res.video_details->0.author } else { None })
    &&& v.track.duration_ms == v.audio.duration_ms
}

/// The stream of an answer, whatever its status: there must be streams, and
/// one of them must be usable ([`choice`]).
fn stream_of(res: &PlayerResponse, video_id: &str, client_id: &'static str) -> (r: Result<Resolved, Rejection>)
    ensures
        res.streaming_data is None ==> (r matches Err(Rejection::NoStreamingData)),
        res.streaming_data is Some && choice(res.streaming_data->0.adaptive_formats@, audio_itag_preference())
            < 0 ==> (r matches Err(Rejection::NoDirectAudio)),
        res.streaming_data is Some && choice(res.streaming_data->0.adaptive_formats@, audio_itag_preference())
            >= 0 ==> r is Ok,
        r matches Ok(v) ==> from_choice(*res, v, video_id@, client_id) && text_of(v.track.thumbnail)
            == last_thumbnail(*res),
{
    let streaming = match &res.streaming_data {
        Some(s) => s,
        None => {
            return Err(Rejection::NoStreamingData);
        },
    };
    let prefs: [u32; 5] = [140, 251, 250, 249, 139];
    proof {
        assert(prefs@ =~= audio_itag_preference());
    }
    let i = match best_audio_index(streaming.adaptive_formats.as_slice(), prefs.as_slice()) {
        Some(i) => i,
        None => {
            return Err(Rejection::NoDirectAudio);
        },
    };
    let f = &streaming.adaptive_formats[i];
    proof {
        crate::select::lemma_choice_usable(streaming.adaptive_formats@, audio_itag_preference());
    }
    let url = match &f.url {
        Some(u) => u.clone(),
        None => {
            return Err(Rejection::NoDirectAudio);
        },
    };
    let duration_ms = number_in(&f.approx_duration_ms);
    let (title, author, thumbnail) = match &res.video_details {
        Some(d) => {
            let thumb = match &d.thumbnail {
                Some(t) => {
                    let n = t.thumbnails.len();
                    if n > 0 {
                        Some(t.thumbnails[n - 1].url.clone())
                    } else {
                        None
                    }
                },
                None => None,
            };
            (copy_opt(&d.title), copy_opt(&d.author), thumb)
        },
        None => (None, None, None),
    };
    let audio = AudioStream {
        url,
        itag: f.itag,
        codec: f.codec(),
        bitrate: if f.bitrate.is_some() {
            f.bitrate
        } else {
            f.average_bitrate
        },
        size_bytes: f.content_length_bytes(),
        duration_ms,
        via_client: client_id,
        format_index: i,
    };
    let track = TrackInfo {
        video_id: video_id.to_owned(),
        title,
        author,
        thumbnail,
        duration_ms,
    };
    Ok(Resolved { track, audio })
}


/// Judges one client's answer for `video_id`: the status must be `OK` (or
/// absent), there must be streams, and one of them must be usable
/// ([`choice`]); the track's metadata comes from the video details.
pub fn judge_player(res: &PlayerResponse, video_id: &str, client_id: &'static str) -> (r: Result<
    Resolved,
    Rejection,
>)
    ensures
        refused(*res) ==> (r matches Err(Rejection::NotPlayable { status, reason }) && status@
            == status_of(res.playability_status->0.status) && reason == res.playability_status->0.reason),
        !refused(*res) && res.streaming_data is None ==> (r matches Err(Rejection::NoStreamingData)),
        !refused(*res) && res.streaming_data is Some && choice(
            res.streaming_data->0.adaptive_formats@,
            audio_itag_preference(),
        ) < 0 ==> (r matches Err(Rejection::NoDirectAudio)),
        !refused(*res) && res.streaming_data is Some && choice(
            res.streaming_data->0.adaptive_formats@,
            audio_itag_preference(),
        ) >= 0 ==> r is Ok,
        r matches Ok(v) ==> !refused(*res) && from_choice(*res, v, video_id@, client_id) && text_of(
            v.track.thumbnail,
        ) == last_thumbnail(*res),
{
    if let Some(ps) = &res.playability_status {
        let status = match &ps.status {
            Some(s) => s.clone(),
            None => "UNKNOWN".to_owned(),
        };
        if !str_eq(status.as_str(), "OK") {
            return Err(Rejection::NotPlayable { status, reason: copy_opt(&ps.reason) });
        }
    }
    stream_of(res, video_id, client_id)
}

/// The stream of an answer asked of a client chosen by hand: its status is
/// not looked at, and the track carries no thumbnail.
pub fn forced_stream(res: &PlayerResponse, video_id: &str, client_id: &'static str) -> (r: Result<
    Resolved,
    Rejection,
>)
    ensures
        res.streaming_data is None ==> (r matches Err(Rejection::NoStreamingData)),
        res.streaming_data is Some && choice(res.streaming_data->0.adaptive_formats@, audio_itag_preference())
            < 0 ==> (r matches Err(Rejection::NoDirectAudio)),
        res.streaming_data is Some && choice(res.streaming_data->0.adaptive_formats@, audio_itag_preference())
            >= 0 ==> r is Ok,
        r matches Ok(v) ==> from_choice(*res, v, video_id@, client_id) && v.track.thumbnail is None,
{
    match stream_of(res, video_id, client_id) {
        Ok(mut v) => {
            v.track.thumbnail = None;
            Ok(v)
        },
        Err(e) => Err(e),
    }
}

} // verus!
