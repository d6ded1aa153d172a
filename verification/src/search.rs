//! Search results of YouTube Music, read by walking the answer for renderers
//! by name rather than by fixed paths: the nesting changes between versions,
//! the renderer names do not.
use crate::json::{
    and_get, as_array, by_key, collect_by_key, derefs, find_str, first_str, get, get_key, get_opt,
    opt_str, runs_text, runs_text_spec, Json,
};
use crate::text::{
    chars_of, digit, is_digit, join, join_all, split, split_on, str_views, string_of, trim, trimmed,
    views,
};
use vstd::prelude::*;

verus! {

/// One search result.
#[derive(Debug, Clone)]
pub struct SearchResult {
    pub video_id: String,
    pub title: String,
    /// Artist, album and the like, as YouTube Music shows them.
    pub subtitle: String,
    pub duration: Option<String>,
    pub thumbnail: Option<String>,
}

/// What a result says, as text.
pub open spec fn result_view(r: SearchResult) -> (
    Seq<char>,
    Seq<char>,
    Seq<char>,
    Option<Seq<char>>,
    Option<Seq<char>>,
) {
    (
        r.video_id@,
        r.title@,
        r.subtitle@,
        match r.duration {
            Some(d) => Some(d@),
            None => None,
        },
        match r.thumbnail {
            Some(t) => Some(t@),
            None => None,
        },
    )
}

/// What some results say.
pub open spec fn results_view(rs: Seq<SearchResult>) -> Seq<
    (Seq<char>, Seq<char>, Seq<char>, Option<Seq<char>>, Option<Seq<char>>),
> {
    rs.map_values(|r: SearchResult| result_view(r))
}

/// Search filters. Their `params` is opaque and defined by YouTube.
#[derive(Debug, Clone, Copy, PartialEq, Eq, Structural)]
pub enum Filter {
    /// Everything.
    All,
    /// Songs only: what a music player wants most of the time.
    Songs,
    Videos,
    Albums,
}

impl Filter {
    /// The `params` of the search request, if any.
    pub fn params(self) -> (r: Option<&'static str>)
        ensures
            match self {
                Filter::All => r is None,
                Filter::Songs => r matches Some(p) && p@ == "EgWKAQIIAWoKEAkQBRAKEAMQBA%3D%3D"@,
                Filter::Videos => r matches Some(p) && p@ == "EgWKAQIQAWoKEAkQChAFEAMQBA%3D%3D"@,
                Filter::Albums => r matches Some(p) && p@ == "EgWKAQIYAWoKEAkQChAFEAMQBA%3D%3D"@,
            },
    {
        match self {
            Filter::All => None,
            Filter::Songs => Some("EgWKAQIIAWoKEAkQBRAKEAMQBA%3D%3D"),
            Filter::Videos => Some("EgWKAQIQAWoKEAkQChAFEAMQBA%3D%3D"),
            Filter::Albums => Some("EgWKAQIYAWoKEAkQChAFEAMQBA%3D%3D"),
        }
    }
}

/// The text of one flexible column.
pub open spec fn col_text(c: Json) -> Seq<char> {
    runs_text_spec(and_get(get(c, "musicResponsiveListItemFlexColumnRenderer"@), "text"@))
}

/// The text of each flexible column of a list item (title, subtitle, ...).
pub open spec fn flex_texts(r: Json) -> Seq<Seq<char>> {
    match get(r, "flexColumns"@) {
        Some(Json::Arr(cols)) => cols@.map_values(|c: Json| col_text(c)),
        _ => seq![],
    }
}

/// The text of each flexible column of a list item.
pub fn flex_column_texts(r: &Json) -> (v: Vec<String>)
    ensures
        str_views(v@) == flex_texts(*r),
{
    let mut out: Vec<String> = Vec::new();
    let cols = match get_key(r, "flexColumns") {
        Some(Json::Arr(cols)) => cols,
        _ => {
            proof {
                assert(str_views(out@) =~= flex_texts(*r));
            }
            return out;
        },
    };
    let mut i: usize = 0;
    while i < cols.len()
        invariant
            0 <= i <= cols@.len(),
            str_views(out@) == cols@.take(i as int).map_values(|c: Json| col_text(c)),
        decreases cols@.len() - i,
    {
        let inner = get_key(&cols[i], "musicResponsiveListItemFlexColumnRenderer");
        let text = get_opt(inner, "text");
        let t = runs_text(text);
        let ghost before = out@;
        proof {
            assert(t@ == col_text(cols@[i as int]));
            assert(cols@.take(i + 1).map_values(|c: Json| col_text(c)) =~= cols@.take(i as int).map_values(
                |c: Json| col_text(c),
            ).push(col_text(cols@[i as int])));
        }
        out.push(t);
        proof {
            assert(str_views(out@) =~= str_views(before).push(t@));
        }
        i = i + 1;
    }
    proof {
        assert(cols@.take(cols@.len() as int) =~= cols@);
    }
    out
}

/// The thumbnail of a renderer: the last (largest) of the first set of
/// thumbnails found in it.
pub open spec fn thumbnail_of(r: Json) -> Option<Seq<char>> {
    let sets = by_key(r, "thumbnails"@);
    if sets.len() > 0 && as_array(sets[0]) is Some && as_array(sets[0])->0.len() > 0 {
        opt_str(get(as_array(sets[0])->0.last(), "url"@))
    } else {
        None
    }
}

/// The thumbnail of a renderer (see [`thumbnail_of`]).
pub fn extract_thumbnail(r: &Json) -> (t: Option<String>)
    ensures
        match t {
            Some(s) => thumbnail_of(*r) == Some(s@),
            None => thumbnail_of(*r) is None,
        },
{
    let sets = collect_by_key(r, "thumbnails");
    if sets.len() == 0 {
        return None;
    }
    proof {
        assert(derefs(sets@)[0] == *sets@[0]);
    }
    let items = match sets[0] {
        Json::Arr(items) => items,
        _ => {
            return None;
        },
    };
    if items.len() == 0 {
        return None;
    }
    match get_key(&items[items.len() - 1], "url") {
        Some(Json::Str(u)) => Some(u.clone()),
        _ => None,
    }
}

/// The video id of a renderer: the first `videoId` string in it (it may
/// hang from `playlistItemData` or from the `watchEndpoint`), kept only when
/// it is eleven bytes long, as YouTube ids always are.
pub open spec fn video_id_of(r: Json) -> Option<Seq<char>> {
    match first_str(r, "videoId"@) {
        Some(id) => if vstd::utf8::encode_utf8(id).len() == 11 {
            Some(id)
        } else {
            None
        },
        None => None,
    }
}

/// The video id of a renderer (see [`video_id_of`]).
pub fn extract_video_id(r: &Json) -> (id: Option<String>)
    ensures
        match id {
            Some(s) => video_id_of(*r) == Some(s@),
            None => video_id_of(*r) is None,
        },
{
    match find_str(r, "videoId") {
        Some(id) => {
            let b = crate::codec::bytes_of(id.as_str());
            if b.len() == 11 {
                Some(id)
            } else {
                None
            }
        },
        None => None,
    }
}

/// The pieces of a subtitle between bullets (`U+2022`), trimmed.
pub open spec fn bullet_parts(sub: Seq<char>) -> Seq<Seq<char>> {
    split_on(sub, seq!['\u{2022}']).map_values(|p: Seq<char>| trim(p))
}

/// Only ASCII digits.
pub open spec fn all_digits_in(s: Seq<char>) -> bool {
    forall|i: int| 0 <= i < s.len() ==> is_digit(#[trigger] s[i])
}

/// A duration such as `3:45`: two or more `:`-separated pieces, each of
/// ASCII digits and none empty.
pub open spec fn is_clock(p: Seq<char>) -> bool {
    let cs = split_on(p, ":"@);
    cs.len() >= 2 && forall|j: int| 0 <= j < cs.len() ==> #[trigger] cs[j].len() > 0 && all_digits_in(cs[j])
}

/// First piece from `k` on that is a duration; -1 if none.
pub open spec fn first_clock(ps: Seq<Seq<char>>, k: int) -> int
    decreases ps.len() - k,
{
    if k < 0 || k >= ps.len() {
        -1
    } else if is_clock(ps[k]) {
        k
    } else {
        first_clock(ps, k + 1)
    }
}

/// The duration shown in a subtitle, if any.
pub open spec fn duration_of(sub: Seq<char>) -> Option<Seq<char>> {
    let ps = bullet_parts(sub);
    let k = first_clock(ps, 0);
    if k < 0 {
        None
    } else {
        Some(ps[k])
    }
}

fn only_digits(s: &[char]) -> (b: bool)
    ensures
        b == all_digits_in(s@),
{
    let mut i: usize = 0;
    while i < s.len()
        invariant
            0 <= i <= s@.len(),
            forall|j: int| 0 <= j < i ==> is_digit(#[trigger] s@[j]),
        decreases s@.len() - i,
    {
        if !digit(s[i]) {
            return false;
        }
        i = i + 1;
    }
    true
}

fn clock(p: &[char]) -> (b: bool)
    ensures
        b == is_clock(p@),
{
    let colon = chars_of(":");
    let cs = split(p, colon.as_slice());
    if cs.len() < 2 {
        return false;
    }
    let mut j: usize = 0;
    while j < cs.len()
        invariant
            0 <= j <= cs@.len(),
            views(cs@) == split_on(p@, ":"@),
            forall|k: int| 0 <= k < j ==> #[trigger] views(cs@)[k].len() > 0 && all_digits_in(views(cs@)[k]),
        decreases cs@.len() - j,
    {
        proof {
            assert(views(cs@)[j as int] == cs@[j as int]@);
        }
        if cs[j].len() == 0 || !only_digits(cs[j].as_slice()) {
            return false;
        }
        j = j + 1;
    }
    true
}

/// The pieces of a subtitle between bullets, trimmed.
fn bullets(sub: &str) -> (v: Vec<Vec<char>>)
    ensures
        views(v@) == bullet_parts(sub@),
{
    let s = chars_of(sub);
    let b = vec!['\u{2022}'];
    let parts = split(s.as_slice(), b.as_slice());
    proof {
        assert(b@ =~= seq!['\u{2022}']);
    }
    let mut out: Vec<Vec<char>> = Vec::new();
    let mut i: usize = 0;
    while i < parts.len()
        invariant
            0 <= i <= parts@.len(),
            views(parts@) == split_on(sub@, seq!['\u{2022}']),
            views(out@) == views(parts@).take(i as int).map_values(|p: Seq<char>| trim(p)),
        decreases parts@.len() - i,
    {
        let t = trimmed(parts[i].as_slice());
        proof {
            assert(views(parts@)[i as int] == parts@[i as int]@);
            assert(views(out@.push(t)) =~= views(out@).push(t@));
            assert(views(parts@).take(i + 1).map_values(|p: Seq<char>| trim(p)) =~= views(parts@).take(
                i as int,
            ).map_values(|p: Seq<char>| trim(p)).push(trim(views(parts@)[i as int])));
        }
        out.push(t);
        i = i + 1;
    }
    proof {
        assert(views(parts@).take(parts@.len() as int) =~= views(parts@));
    }
    out
}

/// The duration shown in a subtitle (`3:45`), if any.
pub fn extract_duration(subtitle: &str) -> (r: Option<String>)
    ensures
        match r {
            Some(d) => duration_of(subtitle@) == Some(d@),
            None => duration_of(subtitle@) is None,
        },
{
    let ps = bullets(subtitle);
    let mut k: usize = 0;
    while k < ps.len()
        invariant
            0 <= k <= ps@.len(),
            views(ps@) == bullet_parts(subtitle@),
            first_clock(views(ps@), 0) == first_clock(views(ps@), k as int),
        decreases ps@.len() - k,
    {
        proof {
            assert(views(ps@)[k as int] == ps@[k as int]@);
        }
        if clock(ps[k].as_slice()) {
            return Some(string_of(ps[k].as_slice()));
        }
        k = k + 1;
    }
    None
}

/// A piece of a subtitle stays unless it is empty or is a duration (it holds
/// `:` and nothing but digits and `:`).
pub open spec fn kept_piece(p: Seq<char>) -> bool {
    p.len() > 0 && !(p.contains(':') && forall|i: int| 0 <= i < p.len() ==> is_digit(#[trigger] p[i]) || p[i] == ':')
}

/// The pieces among the first `n` that stay.
pub open spec fn kept(ps: Seq<Seq<char>>, n: int) -> Seq<Seq<char>>
    decreases n,
{
    if n <= 0 {
        seq![]
    } else if kept_piece(ps[n - 1]) {
        kept(ps, n - 1).push(ps[n - 1])
    } else {
        kept(ps, n - 1)
    }
}

/// The subtitle without its duration, which is shown apart.
pub open spec fn cleaned_subtitle(sub: Seq<char>) -> Seq<char> {
    let ps = bullet_parts(sub);
    join(kept(ps, ps.len() as int), " \u{2022} "@)
}

fn keeps(p: &[char]) -> (b: bool)
    ensures
        b == kept_piece(p@),
{
    if p.len() == 0 {
        return false;
    }
    let mut has_colon = false;
    let mut clockish = true;
    let mut i: usize = 0;
    while i < p.len()
        invariant
            0 <= i <= p@.len(),
            has_colon == (exists|j: int| 0 <= j < i && #[trigger] p@[j] == ':'),
            clockish == (forall|j: int| 0 <= j < i ==> is_digit(#[trigger] p@[j]) || p@[j] == ':'),
        decreases p@.len() - i,
    {
        if p[i] == ':' {
            has_colon = true;
        } else if !digit(p[i]) {
            clockish = false;
        }
        i = i + 1;
    }
    !(has_colon && clockish)
}

/// The subtitle without its duration (see [`cleaned_subtitle`]).
pub fn clean_subtitle(subtitle: &str) -> (r: String)
    ensures
        r@ == cleaned_subtitle(subtitle@),
{
    let ps = bullets(subtitle);
    let mut out: Vec<Vec<char>> = Vec::new();
    let mut i: usize = 0;
    while i < ps.len()
        invariant
            0 <= i <= ps@.len(),
            views(ps@) == bullet_parts(subtitle@),
            views(out@) == kept(views(ps@), i as int),
        decreases ps@.len() - i,
    {
        proof {
            assert(views(ps@)[i as int] == ps@[i as int]@);
        }
        if keeps(ps[i].as_slice()) {
            let p = ps[i].clone();
            proof {
                assert(views(out@.push(p)) =~= views(out@).push(p@));
            }
            out.push(p);
        }
        i = i + 1;
    }
    let sep = chars_of(" \u{2022} ");
    let j = join_all(&out, sep.as_slice());
    string_of(j.as_slice())
}

/// What the first `n` list-item renderers give: the results so far and the
/// ids already seen. A renderer without a video id (an artist, an album, a
/// playlist) gives nothing; an id already seen gives nothing; one with an
/// empty title is skipped, though its id counts as seen.
pub open spec fn results_upto(rs: Seq<Json>, n: int) -> (
    Seq<(Seq<char>, Seq<char>, Seq<char>, Option<Seq<char>>, Option<Seq<char>>)>,
    Set<Seq<char>>,
)
    decreases n,
{
    if n <= 0 {
        (seq![], Set::empty())
    } else {
        let (out, seen) = results_upto(rs, n - 1);
        let r = rs[n - 1];
        match video_id_of(r) {
            None => (out, seen),
            Some(id) => if seen.contains(id) {
                (out, seen)
            } else {
                let cols = flex_texts(r);
                let title = if cols.len() > 0 {
                    cols[0]
                } else {
                    seq![]
                };
                let sub = if cols.len() > 1 {
                    cols[1]
                } else {
                    seq![]
                };
                if title.len() == 0 {
                    (out, seen.insert(id))
                } else {
                    (
                        out.push((id, title, cleaned_subtitle(sub), duration_of(sub), thumbnail_of(r))),
                        seen.insert(id),
                    )
                }
            },
        }
    }
}

/// The search results of an answer, whatever the shape of its tree.
pub open spec fn results_of(root: Json) -> Seq<
    (Seq<char>, Seq<char>, Seq<char>, Option<Seq<char>>, Option<Seq<char>>),
> {
    let rs = by_key(root, "musicResponsiveListItemRenderer"@);
    results_upto(rs, rs.len() as int).0
}

pub proof fn lemma_push_contains<A>(s: Seq<A>, v: A, x: A)
    ensures
        s.push(v).contains(x) <==> (s.contains(x) || x == v),
{
    if s.contains(x) {
        let j = choose|j: int| 0 <= j < s.len() && s[j] == x;
        assert(s.push(v)[j] == x);
    }
    if x == v {
        assert(s.push(v)[s.len() as int] == v);
    }
    if s.push(v).contains(x) {
        let j = choose|j: int| 0 <= j < s.push(v).len() && s.push(v)[j] == x;
        if j < s.len() {
            assert(s[j] == x);
        }
    }
}

/// Whether `id` is among the ids seen.
pub fn seen_before(seen: &Vec<String>, id: &str) -> (b: bool)
    ensures
        b == str_views(seen@).contains(id@),
{
    let mut i: usize = 0;
    while i < seen.len()
        invariant
            0 <= i <= seen@.len(),
            forall|j: int| 0 <= j < i ==> (#[trigger] seen@[j])@ != id@,
        decreases seen@.len() - i,
    {
        if crate::text::str_eq(seen[i].as_str(), id) {
            proof {
                assert(str_views(seen@)[i as int] == id@);
            }
            return true;
        }
        i = i + 1;
    }
    proof {
        if str_views(seen@).contains(id@) {
            let j = choose|j: int|
                0 <= j < seen@.len() && #[trigger] str_views(seen@)[j] == id@;
            assert(seen@[j]@ == id@);
        }
    }
    false
}

/// The search results of an answer (see [`results_of`]).
pub fn parse_results(root: &Json) -> (out: Vec<SearchResult>)
    ensures
        results_view(out@) == results_of(*root),
{
    let rs = collect_by_key(root, "musicResponsiveListItemRenderer");
    let mut out: Vec<SearchResult> = Vec::new();
    let mut seen: Vec<String> = Vec::new();
    let mut i: usize = 0;
    while i < rs.len()
        invariant
            0 <= i <= rs@.len(),
            derefs(rs@) == by_key(*root, "musicResponsiveListItemRenderer"@),
            results_view(out@) == results_upto(derefs(rs@), i as int).0,
            str_views(seen@).to_set() == results_upto(derefs(rs@), i as int).1,
        decreases rs@.len() - i,
    {
        let r = rs[i];
        proof {
            assert(derefs(rs@)[i as int] == *r);
        }
        let ghost seen_before_v = str_views(seen@);
        if let Some(video_id) = extract_video_id(r) {
            if !seen_before(&seen, video_id.as_str()) {
                proof {
                    assert(!seen_before_v.to_set().contains(video_id@));
                }
                seen.push(video_id.clone());
                proof {
                    assert(str_views(seen@) =~= seen_before_v.push(video_id@));
                    assert forall|x: Seq<char>| #[trigger] seen_before_v.push(video_id@).contains(x) <==> (
                    seen_before_v.contains(x) || x == video_id@) by {
                        lemma_push_contains(seen_before_v, video_id@, x);
                    }
                    assert(seen_before_v.push(video_id@).to_set() =~= seen_before_v.to_set().insert(video_id@));
                }
                let cols = flex_column_texts(r);
                let title = if cols.len() > 0 {
                    cols[0].clone()
                } else {
                    String::new()
                };
                if !title.as_str().is_empty() {
                    let subtitle = if cols.len() > 1 {
                        cols[1].clone()
                    } else {
                        String::new()
                    };
                    proof {
                        if cols@.len() > 0 {
                            assert(str_views(cols@)[0] == cols@[0]@);
                        }
                        if cols@.len() > 1 {
                            assert(str_views(cols@)[1] == cols@[1]@);
                        }
                    }
                    let res = SearchResult {
                        video_id,
                        title,
                        duration: extract_duration(subtitle.as_str()),
                        subtitle: clean_subtitle(subtitle.as_str()),
                        thumbnail: extract_thumbnail(r),
                    };
                    let ghost before = out@;
                    out.push(res);
                    proof {
                        assert(results_view(out@) =~= results_view(before).push(result_view(res)));
                    }
                } else {
                    proof {
                        if cols@.len() > 0 {
                            assert(str_views(cols@)[0] == cols@[0]@);
                        }
                        assert(title@.len() == 0);
                    }
                }
            } else {
                proof {
                    assert(seen_before_v.contains(video_id@));
                    assert(seen_before_v.to_set().contains(video_id@));
                }
            }
        }
        i = i + 1;
    }
    out
}

/// The ids of some results.
pub open spec fn result_ids(
    v: Seq<(Seq<char>, Seq<char>, Seq<char>, Option<Seq<char>>, Option<Seq<char>>)>,
) -> Seq<Seq<char>> {
    v.map_values(|t: (Seq<char>, Seq<char>, Seq<char>, Option<Seq<char>>, Option<Seq<char>>)| t.0)
}

/// No two entries of `ids` are equal.
pub open spec fn distinct(ids: Seq<Seq<char>>) -> bool {
    forall|i: int, j: int| 0 <= i < j < ids.len() ==> ids[i] != ids[j]
}

proof fn lemma_results_upto_distinct(rs: Seq<Json>, n: int)
    requires
        0 <= n <= rs.len(),
    ensures
        distinct(result_ids(results_upto(rs, n).0)),
        forall|k: int|
            0 <= k < results_upto(rs, n).0.len() ==> results_upto(rs, n).1.contains(
                #[trigger] result_ids(results_upto(rs, n).0)[k],
            ),
    decreases n,
{
    if n > 0 {
        lemma_results_upto_distinct(rs, n - 1);
        let (out, seen) = results_upto(rs, n - 1);
        let r = rs[n - 1];
        if let Some(id) = video_id_of(r) {
            if !seen.contains(id) {
                let now = results_upto(rs, n).0;
                assert forall|k: int| 0 <= k < now.len() implies results_upto(rs, n).1.contains(
                    #[trigger] result_ids(now)[k],
                ) by {
                    if k < out.len() {
                        assert(result_ids(now)[k] == result_ids(out)[k]);
                    }
                }
                assert forall|a: int, b: int| 0 <= a < b < now.len() implies result_ids(now)[a] != result_ids(
                    now,
                )[b] by {
                    if b < out.len() {
                        assert(result_ids(now)[a] == result_ids(out)[a]);
                        assert(result_ids(now)[b] == result_ids(out)[b]);
                    } else {
                        assert(result_ids(now)[a] == result_ids(out)[a]);
                        assert(seen.contains(result_ids(out)[a]));
                    }
                }
            }
        }
    }
}

/// A search never gives the same video twice.
pub proof fn lemma_results_distinct(root: Json)
    ensures
        distinct(result_ids(results_of(root))),
{
    let rs = by_key(root, "musicResponsiveListItemRenderer"@);
    lemma_results_upto_distinct(rs, rs.len() as int);
}

/// A search answer reads the same wherever its results hang: wrapped under
/// any other key, or in an array, it gives the same results.
pub proof fn lemma_results_anywhere(es: Vec<(String, Json)>, items: Vec<Json>)
    requires
        es@.len() == 1,
        es@[0].0@ != "musicResponsiveListItemRenderer"@,
        items@.len() == 1,
    ensures
        results_of(Json::Obj(es)) == results_of(es@[0].1),
        results_of(Json::Arr(items)) == results_of(items@[0]),
{
    crate::json::lemma_by_key_in_object(es, "musicResponsiveListItemRenderer"@);
    crate::json::lemma_by_key_in_array(items, "musicResponsiveListItemRenderer"@);
}

} // verus!
