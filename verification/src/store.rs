//! What the local library keeps: saved tracks, the user's playlists, and
//! the rules applied before a track is written.
use crate::audio::{SIN_AUTOR, SIN_TITULO};
use crate::text::str_eq;
use vstd::prelude::*;

verus! {

/// A track saved among the favourites or in the history.
#[derive(Debug, Clone)]
pub struct SavedTrack {
    pub video_id: String,
    pub title: String,
    pub author: String,
    pub thumbnail: Option<String>,
    /// Seconds since the epoch.
    pub at: i64,
}

/// A playlist of the user's.
#[derive(Debug, Clone)]
pub struct Playlist {
    pub id: i64,
    pub name: String,
    pub count: i64,
    /// Cover of the first track, for the playlist's card.
    pub thumbnail: Option<String>,
}

/// How many plays the history keeps.
pub const HISTORY_KEPT: u64 = 500;

/// A play goes into the history unless it repeats the last one there:
/// playing a song again must not fill the history.
pub fn history_takes(last: Option<&str>, video_id: &str) -> (b: bool)
    ensures
        b == !(last matches Some(l) && l@ == video_id@),
{
    match last {
        Some(l) => !str_eq(l, video_id),
        None => true,
    }
}

/// The track saved to a playlist from what the interface sends: the
/// placeholders stand where the title or author is unknown; its time is set
/// when it is written.
pub fn saved_from(
    video_id: String,
    title: Option<String>,
    author: Option<String>,
    thumbnail: Option<String>,
) -> (t: SavedTrack)
    ensures
        t.video_id == video_id,
        match title {
            Some(s) => t.title == s,
            None => t.title@ == SIN_TITULO@,
        },
        match author {
            Some(s) => t.author == s,
            None => t.author@ == SIN_AUTOR@,
        },
        t.thumbnail == thumbnail,
        t.at == 0,
{
    SavedTrack {
        video_id,
        title: match title {
            Some(s) => s,
            None => SIN_TITULO.to_owned(),
        },
        author: match author {
            Some(s) => s,
            None => SIN_AUTOR.to_owned(),
        },
        thumbnail,
        at: 0,
    }
}

} // verus!
