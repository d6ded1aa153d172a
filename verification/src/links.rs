//! Recognising what the user pasted or typed: playlist links, video links and
//! bare ids, plus the small URL and argument readers around them.
use vstd::prelude::*;
use crate::text::{
    chars_of, contains, contains_char, find, find_at, first_sep, id_char, id_run, is_id_char,
    lemma_find_from, matches_at, same, slice_vec, split, split_on, starts_with, string_of, take_id,
    trim, trimmed, views,
};

verus! {

/// What the user pasted or typed.
#[derive(Debug, Clone, PartialEq, Eq)]
pub enum Input {
    /// A playlist link or id (PL..., OLAK... for albums, RDCLAK...).
    Playlist(String),
    /// A single video or song link.
    Video(String),
    /// Plain text: a search.
    Query(String),
}

/// The mathematical value of an [`Input`].
pub enum InputView {
    Playlist(Seq<char>),
    Video(Seq<char>),
    Query(Seq<char>),
}

impl View for Input {
    type V = InputView;

    open spec fn view(&self) -> InputView {
        match self {
            Input::Playlist(s) => InputView::Playlist(s@),
            Input::Video(s) => InputView::Video(s@),
            Input::Query(s) => InputView::Query(s@),
        }
    }
}

/// The id characters right after the first occurrence of `key` in `s`, if
/// that occurrence exists and the run is not empty.
pub open spec fn param_after_spec(s: Seq<char>, key: Seq<char>) -> Option<Seq<char>> {
    let pos = find(s, key);
    if pos < 0 {
        None
    } else {
        let rest = s.skip(pos + key.len());
        let id = rest.take(id_run(rest));
        if id.len() > 0 {
            Some(id)
        } else {
            None
        }
    }
}

/// The id characters after the first occurrence of `key`.
fn param_after(s: &[char], key: &[char]) -> (r: Option<Vec<char>>)
    ensures
        match r {
            Some(v) => param_after_spec(s@, key@) == Some(v@),
            None => param_after_spec(s@, key@) is None,
        },
{
    let found = find_at(s, key, 0);
    match found {
        None => None,
        Some(pos) => {
            let n = s.len();
            proof {
                lemma_find_from(s@, key@, 0);
                assert(pos + key@.len() <= n);
            }
            let id = take_id(s, pos + key.len());
            if id.len() > 0 {
                Some(id)
            } else {
                None
            }
        },
    }
}

/// `s` looks like a bare playlist id: no space, a known prefix, at least 13
/// characters, all of them id characters.
pub open spec fn bare_playlist(s: Seq<char>) -> bool {
    &&& find(s, " "@) < 0
    &&& (matches_at(s, "PL"@, 0) || matches_at(s, "OLAK5uy_"@, 0) || matches_at(s, "RDCLAK"@, 0))
    &&& s.len() >= 13
    &&& forall|j: int| 0 <= j < s.len() ==> is_id_char(#[trigger] s[j])
}

/// How the search box input is classified.
pub open spec fn classify(raw: Seq<char>) -> InputView {
    let s = trim(raw);
    let is_url = find(s, "youtube.com/"@) >= 0 || find(s, "youtu.be/"@) >= 0 || find(
        s,
        "music.youtube"@,
    ) >= 0;
    let list = param_after_spec(s, "list="@);
    let v = param_after_spec(s, "v="@);
    let short_pos = find(s, "youtu.be/"@);
    let short_rest = s.skip(short_pos + "youtu.be/"@.len());
    let short_id = short_rest.take(id_run(short_rest));
    if is_url && list is Some && list->0 != "WL"@ && list->0 != "LL"@ {
        InputView::Playlist(list->0)
    } else if is_url && v is Some && v->0.len() == 11 {
        InputView::Video(v->0)
    } else if is_url && short_pos >= 0 && short_id.len() == 11 {
        InputView::Video(short_id)
    } else if bare_playlist(s) {
        InputView::Playlist(s)
    } else {
        InputView::Query(s)
    }
}

/// What is pasted is read without the white space around it: classifying a
/// text gives what classifying it trimmed gives.
pub proof fn lemma_classify_ignores_trim(raw: Seq<char>)
    ensures
        classify(trim(raw)) == classify(raw),
{
    crate::text::lemma_trim_idempotent(raw);
}

/// Watch later (`WL`) and liked (`LL`) lists need a session: a text whose
/// `list=` parameter names one of them is never taken for a playlist, and a
/// link that also names an 11-character video with `v=` plays that video.
pub proof fn lemma_session_lists_are_not_playlists(raw: Seq<char>, v: Seq<char>)
    requires
        param_after_spec(trim(raw), "list="@) matches Some(l) && (l == "WL"@ || l == "LL"@),
    ensures
        !(classify(raw) is Playlist),
        find(trim(raw), "youtube.com/"@) >= 0 && param_after_spec(trim(raw), "v="@) == Some(v)
            && v.len() == 11 ==> classify(raw) == InputView::Video(v),
{
    let s = trim(raw);
    reveal_strlit("list=");
    lemma_find_from(s, "list="@, 0);
    let p = find(s, "list="@);
    assert(p >= 0);
    assert(s.subrange(p, p + 5) == "list="@);
    assert(s[p + 4] == s.subrange(p, p + 5)[4]);
    assert(!is_id_char(s[p + 4]));
    assert(!bare_playlist(s));
}

/// In a link, `list=` wins over `v=`: whoever pastes the link of a copied
/// playlist expects the playlist, whatever video it was opened on.
pub proof fn lemma_list_wins_over_video(raw: Seq<char>, l: Seq<char>)
    requires
        find(trim(raw), "youtube.com/"@) >= 0 || find(trim(raw), "youtu.be/"@) >= 0 || find(
            trim(raw),
            "music.youtube"@,
        ) >= 0,
        param_after_spec(trim(raw), "list="@) == Some(l),
        l != "WL"@,
        l != "LL"@,
    ensures
        classify(raw) == InputView::Playlist(l),
{
}

/// Classifies the search box input.
///
/// A link with `list=` wins over `v=`: whoever pastes the link of a copied
/// playlist expects the playlist, not a single song. `WL` and `LL` (watch
/// later, liked) need a session, so they are searched instead.
pub fn parse_input(raw: &str) -> (r: Input)
    ensures
        r@ == classify(raw@),
{
    let all = chars_of(raw);
    let s = trimmed(all.as_slice());
    let yt = chars_of("youtube.com/");
    let short = chars_of("youtu.be/");
    let music = chars_of("music.youtube");
    let is_url = contains(s.as_slice(), yt.as_slice()) || contains(s.as_slice(), short.as_slice())
        || contains(s.as_slice(), music.as_slice());
    if is_url {
        let list_key = chars_of("list=");
        if let Some(id) = param_after(s.as_slice(), list_key.as_slice()) {
            let wl = chars_of("WL");
            let ll = chars_of("LL");
            if !same(id.as_slice(), wl.as_slice()) && !same(id.as_slice(), ll.as_slice()) {
                return Input::Playlist(string_of(id.as_slice()));
            }
        }
        let v_key = chars_of("v=");
        if let Some(id) = param_after(s.as_slice(), v_key.as_slice()) {
            if id.len() == 11 {
                return Input::Video(string_of(id.as_slice()));
            }
        }
        if let Some(pos) = find_at(s.as_slice(), short.as_slice(), 0) {
            let n = s.len();
            proof {
                lemma_find_from(s@, short@, 0);
                assert(pos + short@.len() <= n);
            }
            let id = take_id(s.as_slice(), pos + short.len());
            if id.len() == 11 {
                return Input::Video(string_of(id.as_slice()));
            }
        }
    }
    let space = chars_of(" ");
    let pl = chars_of("PL");
    let olak = chars_of("OLAK5uy_");
    let rdclak = chars_of("RDCLAK");
    if !contains(s.as_slice(), space.as_slice()) && (starts_with(s.as_slice(), pl.as_slice())
        || starts_with(s.as_slice(), olak.as_slice()) || starts_with(
        s.as_slice(),
        rdclak.as_slice(),
    )) && s.len() >= 13 && all_id_chars(s.as_slice()) {
        return Input::Playlist(string_of(s.as_slice()));
    }
    Input::Query(string_of(s.as_slice()))
}

/// Every character of `s` is an id character.
fn all_id_chars(s: &[char]) -> (b: bool)
    ensures
        b == forall|j: int| 0 <= j < s@.len() ==> is_id_char(#[trigger] s@[j]),
{
    let mut i: usize = 0;
    while i < s.len()
        invariant
            0 <= i <= s@.len(),
            forall|j: int| 0 <= j < i ==> is_id_char(#[trigger] s@[j]),
        decreases s@.len() - i,
    {
        if !id_char(s[i]) {
            return false;
        }
        i = i + 1;
    }
    true
}

/// Id of the "radio of this song": `RDAMVM` followed by the video id.
pub fn radio_id(video_id: &str) -> (r: String)
    ensures
        r@ == "RDAMVM"@ + video_id@,
{
    let mut v = chars_of("RDAMVM");
    let mut id = chars_of(video_id);
    v.append(&mut id);
    string_of(v.as_slice())
}

/// Where a video id ends inside the text that follows a marker.
pub open spec fn id_end(rest: Seq<char>) -> int {
    let k = first_sep(rest, "&?#/"@, 0);
    if k < 0 {
        rest.len() as int
    } else {
        k
    }
}

/// What follows `marker` in `input` up to the next `&`, `?`, `#` or `/`, when
/// `marker` occurs.
pub open spec fn after_marker(input: Seq<char>, marker: Seq<char>) -> Option<Seq<char>> {
    let pos = find(input, marker);
    if pos < 0 {
        None
    } else {
        let rest = input.skip(pos + marker.len());
        Some(rest.take(id_end(rest)))
    }
}

/// The video id inside a bare id or any YouTube / YouTube Music URL.
pub open spec fn video_id_of(input: Seq<char>) -> Seq<char> {
    if after_marker(input, "v="@) is Some {
        after_marker(input, "v="@)->0
    } else if after_marker(input, "youtu.be/"@) is Some {
        after_marker(input, "youtu.be/"@)->0
    } else if after_marker(input, "/shorts/"@) is Some {
        after_marker(input, "/shorts/"@)->0
    } else if after_marker(input, "/watch/"@) is Some {
        after_marker(input, "/watch/"@)->0
    } else {
        input
    }
}

fn cut_after(input: &[char], marker: &[char]) -> (r: Option<Vec<char>>)
    ensures
        match r {
            Some(v) => after_marker(input@, marker@) == Some(v@),
            None => after_marker(input@, marker@) is None,
        },
{
    match find_at(input, marker, 0) {
        None => None,
        Some(pos) => {
            let n = input.len();
            proof {
                lemma_find_from(input@, marker@, 0);
                assert(pos + marker@.len() <= n);
            }
            let start = pos + marker.len();
            let seps = chars_of("&?#/");
            let rest = slice_vec(input, start, input.len());
            let end = match first_sep_in(rest.as_slice(), seps.as_slice()) {
                Some(k) => k,
                None => rest.len(),
            };
            proof {
                assert(rest@ =~= input@.skip(start as int));
            }
            Some(slice_vec(rest.as_slice(), 0, end))
        },
    }
}

/// First character of `s` that belongs to `seps`.
pub fn first_sep_in(s: &[char], seps: &[char]) -> (r: Option<usize>)
    ensures
        match r {
            Some(k) => k == first_sep(s@, seps@, 0) && k < s@.len(),
            None => first_sep(s@, seps@, 0) == -1,
        },
{
    let mut i: usize = 0;
    while i < s.len()
        invariant
            0 <= i <= s@.len(),
            first_sep(s@, seps@, 0) == first_sep(s@, seps@, i as int),
        decreases s@.len() - i,
    {
        if contains_char(seps, s[i]) {
            return Some(i);
        }
        i = i + 1;
    }
    None
}

/// Accepts a bare id or any YouTube / YouTube Music URL.
pub fn parse_video_id(input: &str) -> (r: String)
    ensures
        r@ == video_id_of(input@),
{
    let s = chars_of(input);
    let v = chars_of("v=");
    if let Some(id) = cut_after(s.as_slice(), v.as_slice()) {
        return string_of(id.as_slice());
    }
    let short = chars_of("youtu.be/");
    if let Some(id) = cut_after(s.as_slice(), short.as_slice()) {
        return string_of(id.as_slice());
    }
    let shorts = chars_of("/shorts/");
    if let Some(id) = cut_after(s.as_slice(), shorts.as_slice()) {
        return string_of(id.as_slice());
    }
    let watch = chars_of("/watch/");
    if let Some(id) = cut_after(s.as_slice(), watch.as_slice()) {
        return string_of(id.as_slice());
    }
    string_of(s.as_slice())
}

/// First position at or after `k` of an argument equal to `flag`, or -1.
pub open spec fn arg_pos(args: Seq<String>, flag: Seq<char>, k: int) -> int
    decreases args.len() - k,
{
    if k < 0 || k >= args.len() {
        -1
    } else if args[k]@ == flag {
        k
    } else {
        arg_pos(args, flag, k + 1)
    }
}

/// The argument that follows the first occurrence of `flag`.
pub fn flag_value(args: &[String], flag: &str) -> (r: Option<String>)
    ensures
        ({
            let p = arg_pos(args@, flag@, 0);
            match r {
                Some(v) => p >= 0 && p + 1 < args@.len() && v@ == args@[p + 1]@,
                None => p < 0 || p + 1 >= args@.len(),
            }
        }),
{
    let f = chars_of(flag);
    let mut i: usize = 0;
    while i < args.len()
        invariant
            0 <= i <= args@.len(),
            f@ == flag@,
            arg_pos(args@, flag@, 0) == arg_pos(args@, flag@, i as int),
        decreases args@.len() - i,
    {
        let a = chars_of(args[i].as_str());
        if same(a.as_slice(), f.as_slice()) {
            proof {
                assert(args@[i as int]@ == flag@);
                assert(arg_pos(args@, flag@, i as int) == i);
            }
            if i + 1 < args.len() {
                return Some(args[i + 1].clone());
            } else {
                return None;
            }
        }
        i = i + 1;
    }
    None
}

/// First piece of `pieces` that starts with `pre`, from position `k`; -1
/// when none does.
pub open spec fn first_with_prefix(pieces: Seq<Seq<char>>, pre: Seq<char>, k: int) -> int
    decreases pieces.len() - k,
{
    if k < 0 || k >= pieces.len() {
        -1
    } else if matches_at(pieces[k], pre, 0) {
        k
    } else {
        first_with_prefix(pieces, pre, k + 1)
    }
}

/// What follows `pre` in the first of `pieces` that starts with it.
pub open spec fn prefixed_value(pieces: Seq<Seq<char>>, pre: Seq<char>) -> Option<Seq<char>> {
    let j = first_with_prefix(pieces, pre, 0);
    if j < 0 {
        None
    } else {
        Some(pieces[j].skip(pre.len() as int))
    }
}

/// Value of query parameter `key` in a URL: the first `?`/`&`-separated piece
/// that starts with `key=`, without that prefix.
pub open spec fn url_param(url: Seq<char>, key: Seq<char>) -> Option<Seq<char>> {
    prefixed_value(split_on(url, "?&"@), key + "="@)
}

proof fn lemma_first_with_prefix(pieces: Seq<Seq<char>>, pre: Seq<char>, k: int)
    requires
        0 <= k,
    ensures
        first_with_prefix(pieces, pre, k) == -1 || (k <= first_with_prefix(pieces, pre, k)
            < pieces.len()),
    decreases pieces.len() - k,
{
    if k < pieces.len() && !matches_at(pieces[k], pre, 0) {
        lemma_first_with_prefix(pieces, pre, k + 1);
    }
}

/// What follows `pre` in the first of `pieces` that starts with it
/// (`find_map` with `strip_prefix`).
pub fn first_prefixed(pieces: &Vec<Vec<char>>, pre: &[char]) -> (r: Option<Vec<char>>)
    ensures
        match r {
            Some(v) => prefixed_value(views(pieces@), pre@) == Some(v@),
            None => prefixed_value(views(pieces@), pre@) is None,
        },
{
    let mut i: usize = 0;
    while i < pieces.len()
        invariant
            0 <= i <= pieces@.len(),
            first_with_prefix(views(pieces@), pre@, 0) == first_with_prefix(
                views(pieces@),
                pre@,
                i as int,
            ),
        decreases pieces@.len() - i,
    {
        if starts_with(pieces[i].as_slice(), pre) {
            let p = &pieces[i];
            proof {
                assert(views(pieces@)[i as int] == p@);
                assert(first_with_prefix(views(pieces@), pre@, i as int) == i);
                assert(p@.subrange(pre@.len() as int, p@.len() as int) =~= p@.skip(pre@.len() as int));
            }
            return Some(slice_vec(p.as_slice(), pre.len(), p.len()));
        }
        proof {
            assert(views(pieces@)[i as int] == pieces@[i as int]@);
        }
        i = i + 1;
    }
    None
}

/// Reads a query parameter of a googlevideo URL.
pub fn param(url: &str, key: &str) -> (r: Option<String>)
    ensures
        match r {
            Some(v) => url_param(url@, key@) == Some(v@),
            None => url_param(url@, key@) is None,
        },
{
    let u = chars_of(url);
    let seps = chars_of("?&");
    let pieces = split(u.as_slice(), seps.as_slice());
    let mut pre = chars_of(key);
    let mut eq = chars_of("=");
    pre.append(&mut eq);
    match first_prefixed(&pieces, pre.as_slice()) {
        Some(v) => Some(string_of(v.as_slice())),
        None => None,
    }
}

} // verus!
