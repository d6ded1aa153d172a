//! Radio: the queue of recommendations YouTube builds from a track (the
//! `next` endpoint), read by renderer names like the search results.
use crate::json::{by_key, collect_by_key, derefs, find_str, first_str, get, get_key, opt_str, runs_text, runs_text_spec, Json};
use crate::search::{
    distinct, extract_thumbnail, lemma_push_contains, result_ids, results_view, thumbnail_of,
    SearchResult,
};
use crate::text::{matches_at, str_starts_with, str_views};
use vstd::prelude::*;

verus! {

/// A radio queue.
#[derive(Debug, Clone)]
pub struct Radio {
    /// The queue's id, should continuations be wanted.
    pub playlist_id: Option<String>,
    pub tracks: Vec<SearchResult>,
    /// Channel of the seed track's artist, taken from the queue's byline.
    pub artist_browse_id: Option<String>,
}

/// What the first `n` panel renderers give: the tracks so far and the ids
/// seen. A renderer without a `videoId` string, or with an id already seen,
/// gives nothing; one with an empty title is skipped (its id counts as
/// seen). The subtitle is the short byline, the artist alone.
pub open spec fn tracks_upto(rs: Seq<Json>, n: int) -> (
    Seq<(Seq<char>, Seq<char>, Seq<char>, Option<Seq<char>>, Option<Seq<char>>)>,
    Set<Seq<char>>,
)
    decreases n,
{
    if n <= 0 {
        (seq![], Set::empty())
    } else {
        let (out, seen) = tracks_upto(rs, n - 1);
        let r = rs[n - 1];
        match opt_str(get(r, "videoId"@)) {
            None => (out, seen),
            Some(id) => if seen.contains(id) {
                (out, seen)
            } else {
                let title = runs_text_spec(get(r, "title"@));
                let length = runs_text_spec(get(r, "lengthText"@));
                if title.len() == 0 {
                    (out, seen.insert(id))
                } else {
                    (
                        out.push(
                            (
                                id,
                                title,
                                runs_text_spec(get(r, "shortBylineText"@)),
                                if length.len() > 0 {
                                    Some(length)
                                } else {
                                    None
                                },
                                thumbnail_of(r),
                            ),
                        ),
                        seen.insert(id),
                    )
                }
            },
        }
    }
}

/// The tracks of a `next` answer.
pub open spec fn radio_tracks(root: Json) -> Seq<
    (Seq<char>, Seq<char>, Seq<char>, Option<Seq<char>>, Option<Seq<char>>),
> {
    let rs = by_key(root, "playlistPanelVideoRenderer"@);
    tracks_upto(rs, rs.len() as int).0
}

/// The first browse id from `k` on that is a channel (`UC...`); -1 if none.
pub open spec fn first_channel(es: Seq<Json>, k: int) -> int
    decreases es.len() - k,
{
    if k < 0 || k >= es.len() {
        -1
    } else if opt_str(get(es[k], "browseId"@)) is Some && matches_at(
        opt_str(get(es[k], "browseId"@))->0,
        "UC"@,
        0,
    ) {
        k
    } else {
        first_channel(es, k + 1)
    }
}

/// The channel of the seed's artist: among the browse endpoints of the long
/// byline of the first track of the queue, the first whose id is a channel.
pub open spec fn seed_artist(root: Json) -> Option<Seq<char>> {
    let rs = by_key(root, "playlistPanelVideoRenderer"@);
    if rs.len() == 0 {
        None
    } else {
        match get(rs[0], "longBylineText"@) {
            None => None,
            Some(b) => {
                let es = by_key(b, "browseEndpoint"@);
                let k = first_channel(es, 0);
                if k < 0 {
                    None
                } else {
                    opt_str(get(es[k], "browseId"@))
                }
            },
        }
    }
}

/// The channel of the seed's artist (see [`seed_artist`]).
pub fn artist_of_seed(root: &Json) -> (r: Option<String>)
    ensures
        match r {
            Some(s) => seed_artist(*root) == Some(s@),
            None => seed_artist(*root) is None,
        },
{
    let rs = collect_by_key(root, "playlistPanelVideoRenderer");
    if rs.len() == 0 {
        return None;
    }
    proof {
        assert(derefs(rs@)[0] == *rs@[0]);
    }
    let byline = match get_key(rs[0], "longBylineText") {
        Some(b) => b,
        None => {
            return None;
        },
    };
    let es = collect_by_key(byline, "browseEndpoint");
    let mut k: usize = 0;
    while k < es.len()
        invariant
            0 <= k <= es@.len(),
            first_channel(derefs(es@), 0) == first_channel(derefs(es@), k as int),
            derefs(es@) == by_key(*byline, "browseEndpoint"@),
            derefs(rs@) == by_key(*root, "playlistPanelVideoRenderer"@),
            rs@.len() > 0,
            get(derefs(rs@)[0], "longBylineText"@) == Some(*byline),
        decreases es@.len() - k,
    {
        proof {
            assert(derefs(es@)[k as int] == *es@[k as int]);
        }
        if let Some(Json::Str(id)) = get_key(es[k], "browseId") {
            if str_starts_with(id.as_str(), "UC") {
                return Some(id.clone());
            }
        }
        k = k + 1;
    }
    None
}

/// A `next` answer read into a radio queue, whatever the shape of its tree.
pub fn parse_radio(root: &Json) -> (radio: Radio)
    ensures
        results_view(radio.tracks@) == radio_tracks(*root),
        match radio.playlist_id {
            Some(p) => first_str(*root, "playlistId"@) == Some(p@),
            None => first_str(*root, "playlistId"@) is None,
        },
        match radio.artist_browse_id {
            Some(a) => seed_artist(*root) == Some(a@),
            None => seed_artist(*root) is None,
        },
{
    let rs = collect_by_key(root, "playlistPanelVideoRenderer");
    let mut tracks: Vec<SearchResult> = Vec::new();
    let mut seen: Vec<String> = Vec::new();
    let mut i: usize = 0;
    while i < rs.len()
        invariant
            0 <= i <= rs@.len(),
            derefs(rs@) == by_key(*root, "playlistPanelVideoRenderer"@),
            results_view(tracks@) == tracks_upto(derefs(rs@), i as int).0,
            str_views(seen@).to_set() == tracks_upto(derefs(rs@), i as int).1,
        decreases rs@.len() - i,
    {
        let r = rs[i];
        proof {
            assert(derefs(rs@)[i as int] == *r);
        }
        let ghost seen_v = str_views(seen@);
        if let Some(Json::Str(video_id)) = get_key(r, "videoId") {
            if !crate::search::seen_before(&seen, video_id.as_str()) {
                proof {
                    assert(!seen_v.to_set().contains(video_id@));
                }
                seen.push(video_id.clone());
                proof {
                    assert(str_views(seen@) =~= seen_v.push(video_id@));
                    assert forall|x: Seq<char>| #[trigger] seen_v.push(video_id@).contains(x) <==> (
                    seen_v.contains(x) || x == video_id@) by {
                        lemma_push_contains(seen_v, video_id@, x);
                    }
                    assert(seen_v.push(video_id@).to_set() =~= seen_v.to_set().insert(video_id@));
                }
                let title = runs_text(get_key(r, "title"));
                if !title.as_str().is_empty() {
                    let length = runs_text(get_key(r, "lengthText"));
                    let t = SearchResult {
                        video_id: video_id.clone(),
                        title,
                        subtitle: runs_text(get_key(r, "shortBylineText")),
                        duration: if length.as_str().is_empty() {
                            None
                        } else {
                            Some(length)
                        },
                        thumbnail: extract_thumbnail(r),
                    };
                    let ghost before = tracks@;
                    tracks.push(t);
                    proof {
                        assert(results_view(tracks@) =~= results_view(before).push(
                            crate::search::result_view(t),
                        ));
                    }
                }
            } else {
                proof {
                    assert(seen_v.to_set().contains(video_id@));
                }
            }
        }
        i = i + 1;
    }
    Radio {
        playlist_id: find_str(root, "playlistId"),
        tracks,
        artist_browse_id: artist_of_seed(root),
    }
}

proof fn lemma_tracks_upto_distinct(rs: Seq<Json>, n: int)
    requires
        0 <= n <= rs.len(),
    ensures
        distinct(result_ids(tracks_upto(rs, n).0)),
        forall|k: int|
            0 <= k < tracks_upto(rs, n).0.len() ==> tracks_upto(rs, n).1.contains(
                #[trigger] result_ids(tracks_upto(rs, n).0)[k],
            ),
    decreases n,
{
    if n > 0 {
        lemma_tracks_upto_distinct(rs, n - 1);
        let (out, seen) = tracks_upto(rs, n - 1);
        let now = tracks_upto(rs, n).0;
        assert forall|k: int| 0 <= k < now.len() implies tracks_upto(rs, n).1.contains(
            #[trigger] result_ids(now)[k],
        ) by {
            if k < out.len() {
                assert(result_ids(now)[k] == result_ids(out)[k]);
            }
        }
        assert forall|a: int, b: int| 0 <= a < b < now.len() implies result_ids(now)[a]
            != result_ids(now)[b] by {
            assert(result_ids(now)[a] == result_ids(out)[a]);
            if b < out.len() {
                assert(result_ids(now)[b] == result_ids(out)[b]);
            } else {
                assert(seen.contains(result_ids(out)[a]));
            }
        }
    }
}

/// A radio queue never holds the same video twice.
pub proof fn lemma_radio_distinct(root: Json)
    ensures
        distinct(result_ids(radio_tracks(root))),
{
    let rs = by_key(root, "playlistPanelVideoRenderer"@);
    lemma_tracks_upto_distinct(rs, rs.len() as int);
}

/// A radio answer reads the same wherever its tracks hang: wrapped under any
/// other key, or in an array, it gives the same queue.
pub proof fn lemma_radio_anywhere(es: Vec<(String, Json)>, items: Vec<Json>)
    requires
        es@.len() == 1,
        es@[0].0@ != "playlistPanelVideoRenderer"@,
        items@.len() == 1,
    ensures
        radio_tracks(Json::Obj(es)) == radio_tracks(es@[0].1),
        radio_tracks(Json::Arr(items)) == radio_tracks(items@[0]),
{
    crate::json::lemma_by_key_in_object(es, "playlistPanelVideoRenderer"@);
    crate::json::lemma_by_key_in_array(items, "playlistPanelVideoRenderer"@);
}

} // verus!
