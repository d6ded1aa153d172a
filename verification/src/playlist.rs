//! Public playlists: the pages of a playlist are read one after another,
//! following continuation tokens, into one list of tracks without repeats.
use crate::json::{and_get, by_key, collect_by_key, derefs, find_str, first_str, get, get_key, opt_str, Json};
use crate::search::{distinct, lemma_push_contains, parse_results, result_view, results_of, results_view, seen_before, SearchResult};
use crate::text::{concat, matches_at, str_starts_with, str_views};
use vstd::prelude::*;

verus! {

/// A playlist: its title, if the header gives one, and its tracks.
#[derive(Debug, Clone)]
pub struct Playlist {
    pub title: Option<String>,
    pub tracks: Vec<SearchResult>,
}

/// At most this many pages are read: about four hundred tracks, plenty for a
/// queue, and a hard stop should YouTube hand back the same token forever.
pub const MAX_PAGES: u32 = 4;

/// The `browseId` of a playlist: its id with the `VL` prefix, which may
/// already be there.
pub fn browse_id_for(id: &str) -> (r: String)
    ensures
        matches_at(id@, "VL"@, 0) ==> r@ == id@,
        !matches_at(id@, "VL"@, 0) ==> r@ == "VL"@ + id@,
{
    if str_starts_with(id, "VL") {
        id.to_owned()
    } else {
        concat("VL", id)
    }
}

/// The renderers that can hold a playlist's header, in the order they are
/// looked for. The top-level `header` is the page frame, not the playlist's.
pub open spec fn title_keys() -> Seq<Seq<char>> {
    seq![
        "musicResponsiveHeaderRenderer"@,
        "musicDetailHeaderRenderer"@,
        "musicEditablePlaylistDetailHeaderRenderer"@,
        "musicImmersiveHeaderRenderer"@,
    ]
}

/// The title of the first header found, by the order of [`title_keys`],
/// whose `title` holds a `text` string; from position `k` of the order.
pub open spec fn header_title_from(root: Json, k: int) -> Option<Seq<char>>
    decreases 4 - k,
{
    if k < 0 || k >= 4 {
        None
    } else {
        let found = by_key(root, title_keys()[k]);
        let t = if found.len() > 0 {
            match get(found[0], "title"@) {
                Some(t) => first_str(t, "text"@),
                None => None,
            }
        } else {
            None
        };
        match t {
            Some(x) => Some(x),
            None => header_title_from(root, k + 1),
        }
    }
}

/// The title of a playlist page (see [`header_title_from`]).
pub fn header_title(root: &Json) -> (r: Option<String>)
    ensures
        match r {
            Some(t) => header_title_from(*root, 0) == Some(t@),
            None => header_title_from(*root, 0) is None,
        },
{
    let keys = [
        "musicResponsiveHeaderRenderer",
        "musicDetailHeaderRenderer",
        "musicEditablePlaylistDetailHeaderRenderer",
        "musicImmersiveHeaderRenderer",
    ];
    proof {
        assert(keys@.map_values(|k: &str| k@) =~= title_keys());
    }
    let mut k: usize = 0;
    while k < 4
        invariant
            0 <= k <= 4,
            keys@.map_values(|k: &str| k@) == title_keys(),
            header_title_from(*root, 0) == header_title_from(*root, k as int),
        decreases 4 - k,
    {
        let found = collect_by_key(root, keys[k]);
        proof {
            assert(keys@.map_values(|k: &str| k@)[k as int] == keys@[k as int]@);
        }
        if found.len() > 0 {
            proof {
                assert(derefs(found@)[0] == *found@[0]);
            }
            if let Some(t) = get_key(found[0], "title") {
                if let Some(text) = find_str(t, "text") {
                    return Some(text);
                }
            }
        }
        k = k + 1;
    }
    None
}

/// The token of the next page: the `token` of the first
/// `continuationCommand`, else (the old shape) the `continuation` of the
/// first `nextContinuationData`.
pub open spec fn next_token_spec(root: Json) -> Option<Seq<char>> {
    let cmds = by_key(root, "continuationCommand"@);
    let from_cmd = if cmds.len() > 0 {
        opt_str(get(cmds[0], "token"@))
    } else {
        None
    };
    match from_cmd {
        Some(t) => Some(t),
        None => {
            let datas = by_key(root, "nextContinuationData"@);
            if datas.len() > 0 {
                opt_str(get(datas[0], "continuation"@))
            } else {
                None
            }
        },
    }
}

/// The token of the next page (see [`next_token_spec`]).
pub fn next_token(root: &Json) -> (r: Option<String>)
    ensures
        match r {
            Some(t) => next_token_spec(*root) == Some(t@),
            None => next_token_spec(*root) is None,
        },
{
    let cmds = collect_by_key(root, "continuationCommand");
    if cmds.len() > 0 {
        proof {
            assert(derefs(cmds@)[0] == *cmds@[0]);
        }
        if let Some(Json::Str(t)) = get_key(cmds[0], "token") {
            return Some(t.clone());
        }
    }
    let datas = collect_by_key(root, "nextContinuationData");
    if datas.len() > 0 {
        proof {
            assert(derefs(datas@)[0] == *datas@[0]);
        }
        if let Some(Json::Str(t)) = get_key(datas[0], "continuation") {
            return Some(t.clone());
        }
    }
    None
}

/// The tracks after adding the first `n` of `rs`: those whose id is not
/// yet among the tracks, in order.
pub open spec fn merged(
    acc: Seq<(Seq<char>, Seq<char>, Seq<char>, Option<Seq<char>>, Option<Seq<char>>)>,
    rs: Seq<(Seq<char>, Seq<char>, Seq<char>, Option<Seq<char>>, Option<Seq<char>>)>,
    n: int,
) -> Seq<(Seq<char>, Seq<char>, Seq<char>, Option<Seq<char>>, Option<Seq<char>>)>
    decreases n,
{
    if n <= 0 {
        acc
    } else {
        let m = merged(acc, rs, n - 1);
        if ids_of(m).contains(rs[n - 1].0) {
            m
        } else {
            m.push(rs[n - 1])
        }
    }
}

/// The ids of some results.
pub open spec fn ids_of(
    v: Seq<(Seq<char>, Seq<char>, Seq<char>, Option<Seq<char>>, Option<Seq<char>>)>,
) -> Seq<Seq<char>> {
    v.map_values(|t: (Seq<char>, Seq<char>, Seq<char>, Option<Seq<char>>, Option<Seq<char>>)| t.0)
}

/// The reading of a playlist, page after page.
pub struct PlaylistFetch {
    title: Option<String>,
    tracks: Vec<SearchResult>,
    ids: Vec<String>,
    pages: u32,
}

/// What to do after a page.
#[derive(Debug, Clone)]
pub enum NextPage {
    /// Ask for the page of this token.
    Fetch(String),
    /// The playlist is complete.
    Done,
}

/// The playlist came back without tracks: it may be private or need a
/// session.
#[derive(Debug, Clone, Copy, PartialEq, Eq)]
pub struct EmptyPlaylist;

impl PlaylistFetch {
    /// The tracks so far, as text.
    pub closed spec fn tracks_view(&self) -> Seq<(Seq<char>, Seq<char>, Seq<char>, Option<Seq<char>>, Option<Seq<char>>)> {
        results_view(self.tracks@)
    }

    /// The title so far.
    pub closed spec fn title_view(&self) -> Option<Seq<char>> {
        match self.title {
            Some(t) => Some(t@),
            None => None,
        }
    }

    /// Pages read so far.
    pub closed spec fn pages_read(&self) -> nat {
        self.pages as nat
    }

    /// The ids kept mirror the tracks.
    pub closed spec fn wf(&self) -> bool {
        &&& str_views(self.ids@) == ids_of(results_view(self.tracks@))
        &&& distinct(ids_of(results_view(self.tracks@)))
        &&& self.pages <= MAX_PAGES
    }

    /// A reading that has not started.
    pub fn new() -> (f: PlaylistFetch)
        ensures
            f.wf(),
            f.tracks_view() == Seq::<(Seq<char>, Seq<char>, Seq<char>, Option<Seq<char>>, Option<Seq<char>>)>::empty(),
            f.title_view() is None,
            f.pages_read() == 0,
    {
        let f = PlaylistFetch { title: None, tracks: Vec::new(), ids: Vec::new(), pages: 0 };
        proof {
            assert(str_views(f.ids@) =~= ids_of(results_view(f.tracks@)));
        }
        f
    }

    /// Takes in one page: the first page gives the title; the results whose
    /// id is new are added; and the reading goes on with the page's token
    /// unless there is none, no track was new, or the last page allowed was
    /// read.
    pub fn take_page(&mut self, root: &Json) -> (next: NextPage)
        requires
            old(self).wf(),
            old(self).pages_read() < MAX_PAGES,
        ensures
            final(self).wf(),
            final(self).pages_read() == old(self).pages_read() + 1,
            old(self).pages_read() == 0 ==> final(self).title_view() == header_title_from(*root, 0),
            old(self).pages_read() > 0 ==> final(self).title_view() == old(self).title_view(),
            final(self).tracks_view() == merged(
                old(self).tracks_view(),
                results_of(*root),
                results_of(*root).len() as int,
            ),
            next matches NextPage::Fetch(t) ==> next_token_spec(*root) == Some(t@),
            next is Fetch ==> final(self).tracks_view().len() > old(self).tracks_view().len(),
            next is Fetch ==> final(self).pages_read() < MAX_PAGES,
            next is Done ==> (next_token_spec(*root) is None || final(self).tracks_view().len()
                == old(self).tracks_view().len() || final(self).pages_read() == MAX_PAGES),
    {
        if self.pages == 0 {
            self.title = header_title(root);
        }
        let before = self.tracks.len();
        let results = parse_results(root);
        let ghost acc = results_view(self.tracks@);
        let ghost t0 = self.title;
        let ghost p0 = self.pages;
        let ghost rs = results_view(results@);
        let mut i: usize = 0;
        while i < results.len()
            invariant
                0 <= i <= results@.len(),
                rs == results_view(results@),
                str_views(self.ids@) == ids_of(results_view(self.tracks@)),
                results_view(self.tracks@) == merged(acc, rs, i as int),
                self.title == t0,
                self.pages == p0,
                self.tracks@.len() >= acc.len(),
                acc.len() == before,
                p0 < MAX_PAGES,
                distinct(ids_of(acc)),
            decreases results@.len() - i,
        {
            let t = &results[i];
            proof {
                assert(rs[i as int] == result_view(*t));
            }
            if !seen_before(&self.ids, t.video_id.as_str()) {
                let c = copy_result(t);
                let ghost before_t = results_view(self.tracks@);
                let ghost before_i = str_views(self.ids@);
                self.ids.push(t.video_id.clone());
                self.tracks.push(c);
                proof {
                    assert(results_view(self.tracks@) =~= before_t.push(result_view(c)));
                    assert(str_views(self.ids@) =~= before_i.push(t.video_id@));
                    assert(ids_of(before_t.push(result_view(c))) =~= ids_of(before_t).push(t.video_id@));
                }
            }
            i = i + 1;
        }
        proof {
            lemma_merged_distinct(acc, rs, rs.len() as int);
        }
        self.pages = self.pages + 1;
        let token = next_token(root);
        match token {
            Some(t) => {
                if self.tracks.len() > before && self.pages < MAX_PAGES {
                    NextPage::Fetch(t)
                } else {
                    NextPage::Done
                }
            },
            None => NextPage::Done,
        }
    }

    /// The playlist read, or [`EmptyPlaylist`] when no page gave a track.
    pub fn finish(self) -> (r: Result<Playlist, EmptyPlaylist>)
        ensures
            self.tracks_view().len() == 0 <==> r is Err,
            r matches Ok(p) ==> results_view(p.tracks@) == self.tracks_view() && (match p.title {
                Some(t) => Some(t@),
                None => None,
            }) == self.title_view(),
    {
        if self.tracks.len() == 0 {
            Err(EmptyPlaylist)
        } else {
            Ok(Playlist { title: self.title, tracks: self.tracks })
        }
    }
}

/// Merging never repeats a track: from tracks without repeats, whatever is
/// merged in, the result has none.
pub proof fn lemma_merged_distinct(
    acc: Seq<(Seq<char>, Seq<char>, Seq<char>, Option<Seq<char>>, Option<Seq<char>>)>,
    rs: Seq<(Seq<char>, Seq<char>, Seq<char>, Option<Seq<char>>, Option<Seq<char>>)>,
    n: int,
)
    requires
        distinct(ids_of(acc)),
        n <= rs.len(),
    ensures
        distinct(ids_of(merged(acc, rs, n))),
    decreases n,
{
    if n > 0 {
        lemma_merged_distinct(acc, rs, n - 1);
        let m = merged(acc, rs, n - 1);
        if !ids_of(m).contains(rs[n - 1].0) {
            let now = m.push(rs[n - 1]);
            assert forall|a: int, b: int| 0 <= a < b < now.len() implies ids_of(now)[a]
                != ids_of(now)[b] by {
                assert(ids_of(now)[a] == ids_of(m)[a]);
                if b < m.len() {
                    assert(ids_of(now)[b] == ids_of(m)[b]);
                } else {
                    assert(ids_of(now)[b] == rs[n - 1].0);
                }
            }
        }
    }
}

/// A playlist being read never holds the same video twice.
pub proof fn lemma_fetch_distinct(f: &PlaylistFetch)
    requires
        f.wf(),
    ensures
        distinct(ids_of(f.tracks_view())),
{
}

/// A copy of a search result.
pub fn copy_result(r: &SearchResult) -> (c: SearchResult)
    ensures
        result_view(c) == result_view(*r),
{
    SearchResult {
        video_id: r.video_id.clone(),
        title: r.title.clone(),
        subtitle: r.subtitle.clone(),
        duration: crate::audio::copy_opt(&r.duration),
        thumbnail: crate::audio::copy_opt(&r.thumbnail),
    }
}

} // verus!
