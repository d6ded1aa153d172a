//! What the audio engine shows of a track, and the placeholders it shows
//! while a track's metadata is not known yet.
use crate::model::TrackInfo;
use crate::text::str_eq;
use vstd::prelude::*;

verus! {

/// Shown while a track's title is not known. Kept as a constant so that it can
/// be recognised later: the history stores the title as it is, and only by
/// recognising the placeholder can a second attempt be made.
pub const SIN_TITULO: &'static str = "Sin titulo";

/// Shown while a track's author is not known.
pub const SIN_AUTOR: &'static str = "Desconocido";

/// A track as the interface shows it.
#[derive(Debug, Clone, PartialEq)]
pub struct Track {
    pub video_id: String,
    pub title: String,
    pub author: String,
    pub thumbnail: Option<String>,
    /// Known duration, if any: the interface leaves a gap while it is `None`
    /// rather than making a number up.
    pub duration_ms: Option<u64>,
}

/// A copy of an optional string.
pub fn copy_opt(o: &Option<String>) -> (r: Option<String>)
    ensures
        r == *o,
{
    match o {
        Some(s) => Some(s.clone()),
        None => None,
    }
}

impl Track {
    /// The track of some metadata, with the placeholders where the title or
    /// the author is unknown.
    pub fn from_info(t: &TrackInfo) -> (r: Track)
        ensures
            r.video_id == t.video_id,
            match t.title {
                Some(s) => r.title == s,
                None => r.title@ == SIN_TITULO@,
            },
            match t.author {
                Some(s) => r.author == s,
                None => r.author@ == SIN_AUTOR@,
            },
            r.thumbnail == t.thumbnail,
            r.duration_ms == t.duration_ms,
    {
        let title = match &t.title {
            Some(s) => s.clone(),
            None => SIN_TITULO.to_owned(),
        };
        let author = match &t.author {
            Some(s) => s.clone(),
            None => SIN_AUTOR.to_owned(),
        };
        Track {
            video_id: t.video_id.clone(),
            title,
            author,
            thumbnail: copy_opt(&t.thumbnail),
            duration_ms: t.duration_ms,
        }
    }
}

/// Whether a title is the placeholder (or empty) and deserves a second
/// attempt at the metadata.
pub fn falta_el_titulo(title: &str) -> (b: bool)
    ensures
        b == (title@.len() == 0 || title@ == SIN_TITULO@),
{
    title.is_empty() || str_eq(title, SIN_TITULO)
}

} // verus!
