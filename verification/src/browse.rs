//! Pages of the `browse` endpoint: home feed, artist, album, playlist and
//! the explore buttons, read by renderer names, never by fixed paths.
//!
//! Shelves are `musicCarouselShelfRenderer` (a row with arrows),
//! `musicShelfRenderer` (a vertical list) and `musicPlaylistShelfRenderer`
//! (the tracks of a playlist); inside them come cards
//! (`musicTwoRowItemRenderer`) and rows (`musicResponsiveListItemRenderer`),
//! both read into the same [`ShelfItem`].
use crate::json::{
    and_get, as_u64, by_key, collect_by_key, derefs, first_str, find_str, get, get_key, get_opt,
    opt_str, runs_text, runs_text_spec, Json,
};
use crate::search::{
    clean_subtitle, cleaned_subtitle, duration_of, extract_duration, extract_thumbnail,
    extract_video_id, flex_column_texts, flex_texts, lemma_push_contains, thumbnail_of, video_id_of,
};
use crate::text::{matches_at, str_ends_with, str_eq, str_starts_with, str_views};
use crate::thumbs::hex_char;
use crate::audio::copy_opt;
use vstd::prelude::*;

verus! {

/// The home feed of YouTube Music.
pub const HOME: &'static str = "FEmusic_home";

/// What an item is, which decides where a click on it leads.
#[derive(Debug, Clone, Copy, PartialEq, Eq, Hash, Structural)]
pub enum ItemKind {
    /// Played. Its id is a `videoId`.
    Track,
    /// Opened. Its id is a `browseId`.
    Album,
    Artist,
    /// Opened. Its id is a `playlistId` or a `browseId` starting with `VL`.
    Playlist,
}

/// An item of a shelf.
#[derive(Debug, Clone)]
pub struct ShelfItem {
    pub kind: ItemKind,
    /// `videoId` for a track, `browseId` or `playlistId` otherwise.
    pub id: String,
    pub title: String,
    pub subtitle: String,
    pub thumbnail: Option<String>,
    pub duration: Option<String>,
    /// The artist's channel, when the row links to it.
    pub artist_id: Option<String>,
    /// The album, when the row links to it.
    pub album_id: Option<String>,
}

/// A row of the feed, with its title.
#[derive(Debug, Clone)]
pub struct Shelf {
    pub title: String,
    pub items: Vec<ShelfItem>,
}

/// A navigation button: the coloured pills of Explore.
#[derive(Debug, Clone)]
pub struct NavButton {
    pub label: String,
    pub browse_id: String,
    /// Opaque, defined by YouTube.
    pub params: Option<String>,
    /// `#rrggbb` of the left stripe, if it has one.
    pub stripe: Option<String>,
}

/// A mood filter of the home feed ("Energia", "Dormir", ...).
#[derive(Debug, Clone)]
pub struct SearchChip {
    pub label: String,
    pub params: String,
}

/// A `browse` page.
#[derive(Debug, Clone)]
pub struct BrowsePage {
    /// Name of the artist or album; the home feed has none.
    pub title: Option<String>,
    pub subtitle: Option<String>,
    pub second_subtitle: Option<String>,
    /// Description written by whoever made the playlist.
    pub description: Option<String>,
    /// Header image.
    pub thumbnail: Option<String>,
    pub shelves: Vec<Shelf>,
    /// Navigation buttons: only Explore and its categories have them.
    pub buttons: Vec<NavButton>,
    /// Mood filters of the home feed.
    pub chips: Vec<SearchChip>,
    /// Token of the next batch, when the list does not fit in one.
    pub continuation: Option<String>,
}

impl Default for BrowsePage {
    fn default() -> (p: BrowsePage)
        ensures
            p.title is None && p.subtitle is None && p.second_subtitle is None,
            p.description is None && p.thumbnail is None && p.continuation is None,
            p.shelves@.len() == 0 && p.buttons@.len() == 0 && p.chips@.len() == 0,
    {
        BrowsePage {
            title: None,
            subtitle: None,
            second_subtitle: None,
            description: None,
            thumbnail: None,
            shelves: Vec::new(),
            buttons: Vec::new(),
            chips: Vec::new(),
            continuation: None,
        }
    }
}

/// What an item says, as text.
#[verifier::ext_equal]
pub struct ItemView {
    pub kind: ItemKind,
    pub id: Seq<char>,
    pub title: Seq<char>,
    pub subtitle: Seq<char>,
    pub thumbnail: Option<Seq<char>>,
    pub duration: Option<Seq<char>>,
    pub artist_id: Option<Seq<char>>,
    pub album_id: Option<Seq<char>>,
}

/// The text of an optional string.
pub open spec fn ov(o: Option<String>) -> Option<Seq<char>> {
    match o {
        Some(s) => Some(s@),
        None => None,
    }
}

pub open spec fn item_view(i: ShelfItem) -> ItemView {
    ItemView {
        kind: i.kind,
        id: i.id@,
        title: i.title@,
        subtitle: i.subtitle@,
        thumbnail: ov(i.thumbnail),
        duration: ov(i.duration),
        artist_id: ov(i.artist_id),
        album_id: ov(i.album_id),
    }
}

pub open spec fn items_view(v: Seq<ShelfItem>) -> Seq<ItemView> {
    v.map_values(|i: ShelfItem| item_view(i))
}

/// Where an endpoint leads: a `watchEndpoint` plays its video; a
/// `browseEndpoint` opens a page, whose type is its `pageType` (ending in
/// `_ALBUM`, `_ARTIST` or `_PLAYLIST`) or else the prefix of its id (`MPRE`,
/// `UC`, `VL`); any other page is not one this player opens.
pub open spec fn target_spec(e: Json) -> Option<(ItemKind, Seq<char>)> {
    match opt_str(and_get(get(e, "watchEndpoint"@), "videoId"@)) {
        Some(id) => Some((ItemKind::Track, id)),
        None => match get(e, "browseEndpoint"@) {
            None => None,
            Some(b) => match opt_str(get(b, "browseId"@)) {
                None => None,
                Some(id) => {
                    let pt = match first_str(b, "pageType"@) {
                        Some(t) => t,
                        None => seq![],
                    };
                    if ends_with(pt, "_ALBUM"@) {
                        Some((ItemKind::Album, id))
                    } else if ends_with(pt, "_ARTIST"@) {
                        Some((ItemKind::Artist, id))
                    } else if ends_with(pt, "_PLAYLIST"@) {
                        Some((ItemKind::Playlist, id))
                    } else if matches_at(id, "MPRE"@, 0) {
                        Some((ItemKind::Album, id))
                    } else if matches_at(id, "UC"@, 0) {
                        Some((ItemKind::Artist, id))
                    } else if matches_at(id, "VL"@, 0) {
                        Some((ItemKind::Playlist, id))
                    } else {
                        None
                    }
                },
            },
        },
    }
}

/// `s` ends with `p`.
pub open spec fn ends_with(s: Seq<char>, p: Seq<char>) -> bool {
    p.len() <= s.len() && matches_at(s, p, s.len() - p.len())
}

/// Where an endpoint leads (see [`target_spec`]).
pub fn target(endpoint: &Json) -> (r: Option<(ItemKind, String)>)
    ensures
        match r {
            Some((k, id)) => target_spec(*endpoint) == Some((k, id@)),
            None => target_spec(*endpoint) is None,
        },
{
    if let Some(Json::Str(id)) = get_opt(get_key(endpoint, "watchEndpoint"), "videoId") {
        return Some((ItemKind::Track, id.clone()));
    }
    let browse = match get_key(endpoint, "browseEndpoint") {
        Some(b) => b,
        None => {
            return None;
        },
    };
    let id = match get_key(browse, "browseId") {
        Some(Json::Str(id)) => id,
        _ => {
            return None;
        },
    };
    let page_type = match find_str(browse, "pageType") {
        Some(t) => t,
        None => String::new(),
    };
    let pt = page_type.as_str();
    let kind = if str_ends_with(pt, "_ALBUM") {
        ItemKind::Album
    } else if str_ends_with(pt, "_ARTIST") {
        ItemKind::Artist
    } else if str_ends_with(pt, "_PLAYLIST") {
        ItemKind::Playlist
    } else if str_starts_with(id.as_str(), "MPRE") {
        ItemKind::Album
    } else if str_starts_with(id.as_str(), "UC") {
        ItemKind::Artist
    } else if str_starts_with(id.as_str(), "VL") {
        ItemKind::Playlist
    } else {
        return None;
    };
    Some((kind, id.clone()))
}

/// The id of a target.
pub open spec fn target_id(t: Option<(ItemKind, Seq<char>)>) -> Seq<char> {
    match t {
        Some((_, id)) => id,
        None => seq![],
    }
}

/// The id of the first endpoint from `k` on that leads to a page of kind
/// `kind`.
pub open spec fn first_of_kind(es: Seq<Json>, kind: ItemKind, k: int) -> Option<Seq<char>>
    decreases es.len() - k,
{
    if k < 0 || k >= es.len() {
        None
    } else if target_spec(es[k]) matches Some((k2, id)) && k2 == kind {
        Some(target_id(target_spec(es[k])))
    } else {
        first_of_kind(es, kind, k + 1)
    }
}

/// The artist's channel and the album that the text columns of an item
/// link to, told apart by what their endpoints lead to, not by their order.
pub open spec fn links_spec(cols: Option<Json>) -> (Option<Seq<char>>, Option<Seq<char>>) {
    match cols {
        None => (None, None),
        Some(c) => {
            let es = by_key(c, "navigationEndpoint"@);
            (first_of_kind(es, ItemKind::Artist, 0), first_of_kind(es, ItemKind::Album, 0))
        },
    }
}

/// The artist's channel and the album the columns link to.
pub fn enlaces_de_columnas(columnas: Option<&Json>) -> (r: (Option<String>, Option<String>))
    ensures
        (ov(r.0), ov(r.1)) == links_spec(
            match columnas {
                Some(c) => Some(*c),
                None => None,
            },
        ),
{
    let c = match columnas {
        Some(c) => c,
        None => {
            return (None, None);
        },
    };
    let es = collect_by_key(c, "navigationEndpoint");
    let mut artista: Option<String> = None;
    let mut album: Option<String> = None;
    let mut i: usize = 0;
    while i < es.len()
        invariant
            0 <= i <= es@.len(),
            derefs(es@) == by_key(*c, "navigationEndpoint"@),
            first_of_kind(derefs(es@), ItemKind::Artist, 0) == match artista {
                Some(a) => Some(a@),
                None => first_of_kind(derefs(es@), ItemKind::Artist, i as int),
            },
            first_of_kind(derefs(es@), ItemKind::Album, 0) == match album {
                Some(a) => Some(a@),
                None => first_of_kind(derefs(es@), ItemKind::Album, i as int),
            },
        decreases es@.len() - i,
    {
        proof {
            assert(derefs(es@)[i as int] == *es@[i as int]);
        }
        match target(es[i]) {
            Some((ItemKind::Artist, id)) => {
                if artista.is_none() {
                    artista = Some(id);
                }
            },
            Some((ItemKind::Album, id)) => {
                if album.is_none() {
                    album = Some(id);
                }
            },
            _ => {},
        }
        i = i + 1;
    }
    (artista, album)
}

/// A card read into an item: it needs a title and an endpoint that leads
/// somewhere this player goes.
pub open spec fn card_spec(r: Json) -> Option<ItemView> {
    let title = runs_text_spec(get(r, "title"@));
    if title.len() == 0 {
        None
    } else {
        match get(r, "navigationEndpoint"@) {
            None => None,
            Some(e) => match target_spec(e) {
                None => None,
                Some((kind, id)) => {
                    let links = links_spec(get(r, "subtitle"@));
                    Some(
                        ItemView {
                            kind,
                            id,
                            title,
                            subtitle: runs_text_spec(get(r, "subtitle"@)),
                            thumbnail: thumbnail_of(r),
                            duration: None,
                            artist_id: links.0,
                            album_id: links.1,
                        },
                    )
                },
            },
        }
    }
}

/// A card: cover above, title and subtitle below.
pub fn parse_card(r: &Json) -> (out: Option<ShelfItem>)
    ensures
        match out {
            Some(i) => card_spec(*r) == Some(item_view(i)),
            None => card_spec(*r) is None,
        },
{
    let title = runs_text(get_key(r, "title"));
    if title.as_str().is_empty() {
        return None;
    }
    let e = match get_key(r, "navigationEndpoint") {
        Some(e) => e,
        None => {
            return None;
        },
    };
    let (kind, id) = match target(e) {
        Some(t) => t,
        None => {
            return None;
        },
    };
    let sub = get_key(r, "subtitle");
    let (artist_id, album_id) = enlaces_de_columnas(sub);
    let item = ShelfItem {
        kind,
        id,
        title,
        subtitle: runs_text(sub),
        thumbnail: extract_thumbnail(r),
        duration: None,
        artist_id,
        album_id,
    };
    proof {
        assert(card_spec(*r)->0 =~= item_view(item));
    }
    Some(item)
}

/// The first endpoint from `k` on that leads somewhere.
pub open spec fn first_target(es: Seq<Json>, k: int) -> Option<(ItemKind, Seq<char>)>
    decreases es.len() - k,
{
    if k < 0 || k >= es.len() {
        None
    } else if target_spec(es[k]) is Some {
        target_spec(es[k])
    } else {
        first_target(es, k + 1)
    }
}

/// What a row leads to: a track when it has a video id, however wrapped;
/// else the first of its endpoints that leads somewhere.
pub open spec fn row_target(r: Json) -> Option<(ItemKind, Seq<char>)> {
    match video_id_of(r) {
        Some(id) => Some((ItemKind::Track, id)),
        None => first_target(by_key(r, "navigationEndpoint"@), 0),
    }
}

/// A row read into an item: it needs a non-empty first column and a target.
pub open spec fn row_spec(r: Json) -> Option<ItemView> {
    let cols = flex_texts(r);
    if cols.len() == 0 || cols[0].len() == 0 {
        None
    } else {
        let sub = if cols.len() > 1 {
            cols[1]
        } else {
            seq![]
        };
        match row_target(r) {
            None => None,
            Some((kind, id)) => {
                let links = links_spec(get(r, "flexColumns"@));
                Some(
                    ItemView {
                        kind,
                        id,
                        title: cols[0],
                        subtitle: cleaned_subtitle(sub),
                        thumbnail: thumbnail_of(r),
                        duration: duration_of(sub),
                        artist_id: links.0,
                        album_id: links.1,
                    },
                )
            },
        }
    }
}

/// The first of some endpoints that leads somewhere.
fn first_target_in(es: &Vec<&Json>) -> (r: Option<(ItemKind, String)>)
    ensures
        match r {
            Some((k, id)) => first_target(derefs(es@), 0) == Some((k, id@)),
            None => first_target(derefs(es@), 0) is None,
        },
{
    let mut i: usize = 0;
    while i < es.len()
        invariant
            0 <= i <= es@.len(),
            first_target(derefs(es@), 0) == first_target(derefs(es@), i as int),
        decreases es@.len() - i,
    {
        proof {
            assert(derefs(es@)[i as int] == *es@[i as int]);
        }
        let t = target(es[i]);
        if t.is_some() {
            return t;
        }
        i = i + 1;
    }
    None
}

/// A row: thumbnail and text columns, as in the search results.
pub fn parse_row(r: &Json) -> (out: Option<ShelfItem>)
    ensures
        match out {
            Some(i) => row_spec(*r) == Some(item_view(i)),
            None => row_spec(*r) is None,
        },
{
    let cols = flex_column_texts(r);
    if cols.len() == 0 {
        return None;
    }
    let title = cols[0].clone();
    proof {
        assert(str_views(cols@)[0] == cols@[0]@);
    }
    if title.as_str().is_empty() {
        return None;
    }
    let subtitle = if cols.len() > 1 {
        cols[1].clone()
    } else {
        String::new()
    };
    proof {
        if cols@.len() > 1 {
            assert(str_views(cols@)[1] == cols@[1]@);
        }
    }
    let (kind, id) = match extract_video_id(r) {
        Some(id) => (ItemKind::Track, id),
        None => {
            let es = collect_by_key(r, "navigationEndpoint");
            let found = first_target_in(&es);
            match found {
                Some(t) => t,
                None => {
                    return None;
                },
            }
        },
    };
    let (artist_id, album_id) = enlaces_de_columnas(get_key(r, "flexColumns"));
    let item = ShelfItem {
        kind,
        id,
        title,
        duration: extract_duration(subtitle.as_str()),
        subtitle: clean_subtitle(subtitle.as_str()),
        thumbnail: extract_thumbnail(r),
        artist_id,
        album_id,
    };
    proof {
        assert(row_spec(*r)->0 =~= item_view(item));
    }
    Some(item)
}


/// The cards of a list, read, without those that do not read.
pub open spec fn cards_upto(rs: Seq<Json>, n: int) -> Seq<ItemView>
    decreases n,
{
    if n <= 0 {
        seq![]
    } else {
        cards_upto(rs, n - 1) + match card_spec(rs[n - 1]) {
            Some(x) => seq![x],
            None => seq![],
        }
    }
}

/// The rows of a list, read, without those that do not read.
pub open spec fn rows_upto(rs: Seq<Json>, n: int) -> Seq<ItemView>
    decreases n,
{
    if n <= 0 {
        seq![]
    } else {
        rows_upto(rs, n - 1) + match row_spec(rs[n - 1]) {
            Some(x) => seq![x],
            None => seq![],
        }
    }
}

/// Some item among `d` has this kind and id.
pub open spec fn has_key(d: Seq<ItemView>, kind: ItemKind, id: Seq<char>) -> bool {
    exists|j: int| 0 <= j < d.len() && #[trigger] d[j].kind == kind && d[j].id == id
}

/// The first `n` items without repeats: an item whose kind and id came
/// before is dropped.
pub open spec fn dedup(items: Seq<ItemView>, n: int) -> Seq<ItemView>
    decreases n,
{
    if n <= 0 {
        seq![]
    } else {
        let d = dedup(items, n - 1);
        if has_key(d, items[n - 1].kind, items[n - 1].id) {
            d
        } else {
            d.push(items[n - 1])
        }
    }
}

/// What a shelf says.
#[verifier::ext_equal]
pub struct ShelfView {
    pub title: Seq<char>,
    pub items: Seq<ItemView>,
}

pub open spec fn shelf_view(s: Shelf) -> ShelfView {
    ShelfView { title: s.title@, items: items_view(s.items@) }
}

pub open spec fn shelves_view(v: Seq<Shelf>) -> Seq<ShelfView> {
    v.map_values(|s: Shelf| shelf_view(s))
}

/// The first title from `k` on whose text is not empty.
pub open spec fn first_title(ts: Seq<Json>, k: int) -> Option<Seq<char>>
    decreases ts.len() - k,
{
    if k < 0 || k >= ts.len() {
        None
    } else if runs_text_spec(Some(ts[k])).len() > 0 {
        Some(runs_text_spec(Some(ts[k])))
    } else {
        first_title(ts, k + 1)
    }
}

/// The title of a shelf: carousels carry it inside `header`, under a
/// renderer whose name changes; lists carry it loose.
pub open spec fn shelf_title_spec(shelf: Json) -> Seq<char> {
    match get(shelf, "header"@) {
        Some(h) => match first_title(by_key(h, "title"@), 0) {
            Some(t) => t,
            None => runs_text_spec(get(shelf, "title"@)),
        },
        None => runs_text_spec(get(shelf, "title"@)),
    }
}

/// A shelf read: its title, and its cards then its rows, without repeats.
pub open spec fn shelf_spec(shelf: Json) -> ShelfView {
    let cards = by_key(shelf, "musicTwoRowItemRenderer"@);
    let rows = by_key(shelf, "musicResponsiveListItemRenderer"@);
    let items = cards_upto(cards, cards.len() as int) + rows_upto(rows, rows.len() as int);
    ShelfView { title: shelf_title_spec(shelf), items: dedup(items, items.len() as int) }
}

/// The title of a shelf (see [`shelf_title_spec`]).
pub fn shelf_title(shelf: &Json) -> (t: String)
    ensures
        t@ == shelf_title_spec(*shelf),
{
    if let Some(h) = get_key(shelf, "header") {
        let ts = collect_by_key(h, "title");
        let mut k: usize = 0;
        while k < ts.len()
            invariant
                0 <= k <= ts@.len(),
                first_title(derefs(ts@), 0) == first_title(derefs(ts@), k as int),
                derefs(ts@) == by_key(*h, "title"@),
                get(*shelf, "header"@) == Some(*h),
            decreases ts@.len() - k,
        {
            proof {
                assert(derefs(ts@)[k as int] == *ts@[k as int]);
            }
            let t = runs_text(Some(ts[k]));
            if !t.as_str().is_empty() {
                return t;
            }
            k = k + 1;
        }
    }
    runs_text(get_key(shelf, "title"))
}

/// Whether an item of this kind and id is among `out`.
fn has_item(out: &Vec<ShelfItem>, kind: ItemKind, id: &str) -> (b: bool)
    ensures
        b == has_key(items_view(out@), kind, id@),
{
    let mut j: usize = 0;
    while j < out.len()
        invariant
            0 <= j <= out@.len(),
            forall|k: int| 0 <= k < j ==> !(#[trigger] items_view(out@)[k].kind == kind && items_view(out@)[k].id == id@),
        decreases out@.len() - j,
    {
        if out[j].kind == kind && str_eq(out[j].id.as_str(), id) {
            proof {
                assert(items_view(out@)[j as int].kind == kind && items_view(out@)[j as int].id == id@);
            }
            return true;
        }
        proof {
            assert(items_view(out@)[j as int] == item_view(out@[j as int]));
        }
        j = j + 1;
    }
    false
}

/// The cards of `rs` read, appended to `out`.
fn push_cards(rs: &Vec<&Json>, out: &mut Vec<ShelfItem>)
    ensures
        items_view(final(out)@) == items_view(old(out)@) + cards_upto(derefs(rs@), rs@.len() as int),
{
    let ghost start = items_view(out@);
    let mut i: usize = 0;
    while i < rs.len()
        invariant
            0 <= i <= rs@.len(),
            items_view(out@) == start + cards_upto(derefs(rs@), i as int),
        decreases rs@.len() - i,
    {
        proof {
            assert(derefs(rs@)[i as int] == *rs@[i as int]);
        }
        let ghost before = items_view(out@);
        if let Some(item) = parse_card(rs[i]) {
            out.push(item);
            proof {
                assert(items_view(out@) =~= before.push(item_view(item)));
            }
        }
        proof {
            assert(items_view(out@) =~= start + cards_upto(derefs(rs@), i + 1));
        }
        i = i + 1;
    }
}

/// The rows of `rs` read, appended to `out`.
fn push_rows(rs: &Vec<&Json>, out: &mut Vec<ShelfItem>)
    ensures
        items_view(final(out)@) == items_view(old(out)@) + rows_upto(derefs(rs@), rs@.len() as int),
{
    let ghost start = items_view(out@);
    let mut i: usize = 0;
    while i < rs.len()
        invariant
            0 <= i <= rs@.len(),
            items_view(out@) == start + rows_upto(derefs(rs@), i as int),
        decreases rs@.len() - i,
    {
        proof {
            assert(derefs(rs@)[i as int] == *rs@[i as int]);
        }
        let ghost before = items_view(out@);
        if let Some(item) = parse_row(rs[i]) {
            out.push(item);
            proof {
                assert(items_view(out@) =~= before.push(item_view(item)));
            }
        }
        proof {
            assert(items_view(out@) =~= start + rows_upto(derefs(rs@), i + 1));
        }
        i = i + 1;
    }
}

/// A copy of an item.
pub fn copy_item(i: &ShelfItem) -> (r: ShelfItem)
    ensures
        item_view(r) == item_view(*i),
{
    ShelfItem {
        kind: i.kind,
        id: i.id.clone(),
        title: i.title.clone(),
        subtitle: i.subtitle.clone(),
        thumbnail: copy_opt(&i.thumbnail),
        duration: copy_opt(&i.duration),
        artist_id: copy_opt(&i.artist_id),
        album_id: copy_opt(&i.album_id),
    }
}

/// A shelf read (see [`shelf_spec`]).
pub fn parse_shelf(shelf: &Json) -> (s: Shelf)
    ensures
        shelf_view(s) == shelf_spec(*shelf),
{
    let cards = collect_by_key(shelf, "musicTwoRowItemRenderer");
    let rows = collect_by_key(shelf, "musicResponsiveListItemRenderer");
    let mut all: Vec<ShelfItem> = Vec::new();
    push_cards(&cards, &mut all);
    push_rows(&rows, &mut all);
    let ghost cands = items_view(all@);
    let mut items: Vec<ShelfItem> = Vec::new();
    let mut i: usize = 0;
    while i < all.len()
        invariant
            0 <= i <= all@.len(),
            cands == items_view(all@),
            items_view(items@) == dedup(cands, i as int),
        decreases all@.len() - i,
    {
        proof {
            assert(cands[i as int] == item_view(all@[i as int]));
        }
        if !has_item(&items, all[i].kind, all[i].id.as_str()) {
            let it = copy_item(&all[i]);
            let ghost before = items_view(items@);
            items.push(it);
            proof {
                assert(items_view(items@) =~= before.push(item_view(it)));
            }
        }
        i = i + 1;
    }
    let s = Shelf { title: shelf_title(shelf), items };
    proof {
        assert(shelf_view(s) =~= shelf_spec(*shelf));
    }
    s
}


/// The three renderers that are shelves.
pub open spec fn is_shelf_key(k: Seq<char>) -> bool {
    k == "musicCarouselShelfRenderer"@ || k == "musicShelfRenderer"@ || k == "musicPlaylistShelfRenderer"@
}

/// The shelves of a tree, in document order, without looking inside a shelf:
/// what a shelf holds are items, and counted as shelves they would add empty
/// ones.
pub open spec fn shelves_of(v: Json) -> Seq<Json>
    decreases v, 0int,
{
    match v {
        Json::Obj(es) => shelves_entries(es@, 0),
        Json::Arr(items) => shelves_items(items@, 0),
        _ => seq![],
    }
}

pub open spec fn shelves_entries(es: Seq<(String, Json)>, i: int) -> Seq<Json>
    decreases es, es.len() - i,
{
    if i < 0 || i >= es.len() {
        seq![]
    } else if is_shelf_key(es[i].0@) {
        seq![es[i].1] + shelves_entries(es, i + 1)
    } else {
        shelves_of(es[i].1) + shelves_entries(es, i + 1)
    }
}

pub open spec fn shelves_items(items: Seq<Json>, i: int) -> Seq<Json>
    decreases items, items.len() - i,
{
    if i < 0 || i >= items.len() {
        seq![]
    } else {
        shelves_of(items[i]) + shelves_items(items, i + 1)
    }
}

fn shelf_key(k: &str) -> (b: bool)
    ensures
        b == is_shelf_key(k@),
{
    str_eq(k, "musicCarouselShelfRenderer") || str_eq(k, "musicShelfRenderer") || str_eq(
        k,
        "musicPlaylistShelfRenderer",
    )
}

/// The shelves of a tree (see [`shelves_of`]).
pub fn walk_shelves<'a>(v: &'a Json) -> (r: Vec<&'a Json>)
    ensures
        derefs(r@) == shelves_of(*v),
    decreases *v,
{
    match v {
        Json::Obj(es) => {
            let mut out: Vec<&'a Json> = Vec::new();
            let mut i: usize = 0;
            while i < es.len()
                invariant
                    0 <= i <= es@.len(),
                    derefs(out@) + shelves_entries(es@, i as int) == shelves_entries(es@, 0),
                    *v == Json::Obj(*es),
                decreases es@.len() - i,
            {
                assert(decreases_to!(*v => v->Obj_0@[i as int].1));
                let ghost before = derefs(out@);
                if shelf_key(es[i].0.as_str()) {
                    out.push(&es[i].1);
                    proof {
                        assert(derefs(out@) =~= before.push(es@[i as int].1));
                        assert(derefs(out@) + shelves_entries(es@, i + 1) =~= before + shelves_entries(
                            es@,
                            i as int,
                        ));
                    }
                } else {
                    let mut inner = walk_shelves(&es[i].1);
                    out.append(&mut inner);
                    proof {
                        assert(derefs(out@) + shelves_entries(es@, i + 1) =~= before + shelves_entries(
                            es@,
                            i as int,
                        ));
                    }
                }
                i = i + 1;
            }
            proof {
                assert(derefs(out@) + shelves_entries(es@, i as int) =~= derefs(out@));
            }
            out
        },
        Json::Arr(items) => {
            let mut out: Vec<&'a Json> = Vec::new();
            let mut i: usize = 0;
            while i < items.len()
                invariant
                    0 <= i <= items@.len(),
                    derefs(out@) + shelves_items(items@, i as int) == shelves_items(items@, 0),
                    *v == Json::Arr(*items),
                decreases items@.len() - i,
            {
                assert(decreases_to!(*v => v->Arr_0@[i as int]));
                let ghost before = derefs(out@);
                let mut inner = walk_shelves(&items[i]);
                out.append(&mut inner);
                proof {
                    assert(derefs(out@) + shelves_items(items@, i + 1) =~= before + shelves_items(
                        items@,
                        i as int,
                    ));
                }
                i = i + 1;
            }
            proof {
                assert(derefs(out@) + shelves_items(items@, i as int) =~= derefs(out@));
            }
            out
        },
        _ => Vec::new(),
    }
}

/// The renderers that can be the header of an artist or album, in the
/// order they are looked for.
pub open spec fn header_keys() -> Seq<Seq<char>> {
    seq![
        "musicImmersiveHeaderRenderer"@,
        "musicDetailHeaderRenderer"@,
        "musicResponsiveHeaderRenderer"@,
        "musicVisualHeaderRenderer"@,
    ]
}

/// The first header found, by the order of [`header_keys`].
pub open spec fn header_from(root: Json, k: int) -> Option<Json>
    decreases 4 - k,
{
    if k < 0 || k >= 4 {
        None
    } else if by_key(root, header_keys()[k]).len() > 0 {
        Some(by_key(root, header_keys()[k])[0])
    } else {
        header_from(root, k + 1)
    }
}

/// The header of an artist or album page; the home feed has none.
pub fn find_header<'a>(root: &'a Json) -> (r: Option<&'a Json>)
    ensures
        match r {
            Some(h) => header_from(*root, 0) == Some(*h),
            None => header_from(*root, 0) is None,
        },
{
    let keys = [
        "musicImmersiveHeaderRenderer",
        "musicDetailHeaderRenderer",
        "musicResponsiveHeaderRenderer",
        "musicVisualHeaderRenderer",
    ];
    proof {
        assert(keys@.map_values(|k: &str| k@) =~= header_keys());
    }
    let mut k: usize = 0;
    while k < 4
        invariant
            0 <= k <= 4,
            keys@.map_values(|k: &str| k@) == header_keys(),
            header_from(*root, 0) == header_from(*root, k as int),
        decreases 4 - k,
    {
        let found = collect_by_key(root, keys[k]);
        proof {
            assert(keys@.map_values(|k: &str| k@)[k as int] == keys@[k as int]@);
        }
        if found.len() > 0 {
            proof {
                assert(derefs(found@)[0] == *found@[0]);
            }
            return Some(found[0]);
        }
        k = k + 1;
    }
    None
}

/// The subtitle of a header, which comes under different names by header
/// type: the first of `subtitle`, `straplineTextOne` and `secondSubtitle`
/// that is not empty.
pub open spec fn header_subtitle_spec(h: Json) -> Seq<char> {
    if runs_text_spec(get(h, "subtitle"@)).len() > 0 {
        runs_text_spec(get(h, "subtitle"@))
    } else if runs_text_spec(get(h, "straplineTextOne"@)).len() > 0 {
        runs_text_spec(get(h, "straplineTextOne"@))
    } else {
        runs_text_spec(get(h, "secondSubtitle"@))
    }
}

/// The subtitle of a header (see [`header_subtitle_spec`]).
pub fn header_subtitle(header: &Json) -> (t: String)
    ensures
        t@ == header_subtitle_spec(*header),
{
    let a = runs_text(get_key(header, "subtitle"));
    if !a.as_str().is_empty() {
        return a;
    }
    let b = runs_text(get_key(header, "straplineTextOne"));
    if !b.as_str().is_empty() {
        return b;
    }
    runs_text(get_key(header, "secondSubtitle"))
}

/// `c` as six lower-case hex digits (`{:06x}` of a colour).
pub open spec fn hex6(c: u64) -> Seq<char> {
    Seq::new(6, |i: int| hex_char(((c >> ((20 - 4 * i) as u64)) & 0xf) as u64))
}

/// The stripe colour of an ARGB integer: `#rrggbb`, the alpha dropped.
pub fn stripe_color(argb: u64) -> (r: String)
    ensures
        r@ == "#"@ + hex6(argb & 0x00FF_FFFF),
{
    let c: u64 = argb & 0x00FF_FFFF;
    let mut v: Vec<char> = crate::text::chars_of("#");
    proof {
        reveal_strlit("#");
    }
    let mut i: u64 = 0;
    while i < 6
        invariant
            0 <= i <= 6,
            v@ == "#"@ + hex6(c).take(i as int),
            "#"@.len() == 1,
        decreases 6 - i,
    {
        let shift: u64 = 20 - 4 * i;
        let d: u64 = (c >> shift) & 0xf;
        assert(d < 16) by (bit_vector)
            requires
                d == (c >> shift) & 0xf,
        ;
        let ch: char = if d < 10 {
            ((d as u8) + 0x30) as char
        } else {
            ((d as u8) - 10 + 0x61) as char
        };
        proof {
            assert(ch == hex_char(d));
            assert(hex6(c)[i as int] == hex_char(d));
            assert("#"@ + hex6(c).take(i + 1) =~= ("#"@ + hex6(c).take(i as int)).push(ch));
        }
        v.push(ch);
        i = i + 1;
    }
    proof {
        assert(hex6(c).take(6) =~= hex6(c));
    }
    crate::text::string_of(v.as_slice())
}

/// What a button says.
#[verifier::ext_equal]
pub struct ButtonView {
    pub label: Seq<char>,
    pub browse_id: Seq<char>,
    pub params: Option<Seq<char>>,
    pub stripe: Option<Seq<char>>,
}

pub open spec fn button_view(b: NavButton) -> ButtonView {
    ButtonView { label: b.label@, browse_id: b.browse_id@, params: ov(b.params), stripe: ov(b.stripe) }
}

pub open spec fn buttons_view(v: Seq<NavButton>) -> Seq<ButtonView> {
    v.map_values(|b: NavButton| button_view(b))
}

/// A navigation button read: it needs a label and a `browseEndpoint` with
/// an id under `clickCommand` (a pill that leads nowhere is decoration).
pub open spec fn button_spec(b: Json) -> Option<ButtonView> {
    let label = runs_text_spec(get(b, "buttonText"@));
    if label.len() == 0 {
        None
    } else {
        match and_get(get(b, "clickCommand"@), "browseEndpoint"@) {
            None => None,
            Some(d) => match opt_str(get(d, "browseId"@)) {
                None => None,
                Some(id) => Some(
                    ButtonView {
                        label,
                        browse_id: id,
                        params: opt_str(get(d, "params"@)),
                        stripe: match and_get(get(b, "solid"@), "leftStripeColor"@) {
                            Some(v) => match as_u64(v) {
                                Some(c) => Some("#"@ + hex6(c & 0x00FF_FFFF)),
                                None => None,
                            },
                            None => None,
                        },
                    },
                ),
            },
        }
    }
}

/// The buttons among the first `n` renderers that read.
pub open spec fn buttons_upto(rs: Seq<Json>, n: int) -> Seq<ButtonView>
    decreases n,
{
    if n <= 0 {
        seq![]
    } else {
        buttons_upto(rs, n - 1) + match button_spec(rs[n - 1]) {
            Some(x) => seq![x],
            None => seq![],
        }
    }
}

/// The navigation buttons of a page, in the order they come.
pub open spec fn buttons_of(root: Json) -> Seq<ButtonView> {
    let rs = by_key(root, "musicNavigationButtonRenderer"@);
    buttons_upto(rs, rs.len() as int)
}

fn parse_button(b: &Json) -> (r: Option<NavButton>)
    ensures
        match r {
            Some(x) => button_spec(*b) == Some(button_view(x)),
            None => button_spec(*b) is None,
        },
{
    let label = runs_text(get_key(b, "buttonText"));
    if label.as_str().is_empty() {
        return None;
    }
    let d = match get_opt(get_key(b, "clickCommand"), "browseEndpoint") {
        Some(d) => d,
        None => {
            return None;
        },
    };
    let browse_id = match get_key(d, "browseId") {
        Some(Json::Str(id)) => id.clone(),
        _ => {
            return None;
        },
    };
    let params = match get_key(d, "params") {
        Some(Json::Str(p)) => Some(p.clone()),
        _ => None,
    };
    let stripe = match get_opt(get_key(b, "solid"), "leftStripeColor") {
        Some(Json::Uint(c)) => Some(stripe_color(*c)),
        _ => None,
    };
    let x = NavButton { label, browse_id, params, stripe };
    proof {
        assert(button_spec(*b)->0 =~= button_view(x));
    }
    Some(x)
}

/// The navigation buttons of a page (see [`buttons_of`]).
pub fn parse_buttons(root: &Json) -> (r: Vec<NavButton>)
    ensures
        buttons_view(r@) == buttons_of(*root),
{
    let rs = collect_by_key(root, "musicNavigationButtonRenderer");
    let mut out: Vec<NavButton> = Vec::new();
    let mut i: usize = 0;
    while i < rs.len()
        invariant
            0 <= i <= rs@.len(),
            derefs(rs@) == by_key(*root, "musicNavigationButtonRenderer"@),
            buttons_view(out@) == buttons_upto(derefs(rs@), i as int),
        decreases rs@.len() - i,
    {
        proof {
            assert(derefs(rs@)[i as int] == *rs@[i as int]);
        }
        let ghost before = buttons_view(out@);
        if let Some(b) = parse_button(rs[i]) {
            out.push(b);
            proof {
                assert(buttons_view(out@) =~= before.push(button_view(b)));
            }
        }
        proof {
            assert(buttons_view(out@) =~= buttons_upto(derefs(rs@), i + 1));
        }
        i = i + 1;
    }
    out
}

/// The `params` a home filter leads to (under its `browseEndpoint`).
pub open spec fn chip_params(c: Json) -> Option<Seq<char>> {
    opt_str(and_get(and_get(get(c, "navigationEndpoint"@), "browseEndpoint"@), "params"@))
}

/// The filters among the first `n` chips: each with a label and `params`,
/// the first of each `params` only; and the `params` seen.
pub open spec fn chips_upto(cs: Seq<Json>, n: int) -> (Seq<(Seq<char>, Seq<char>)>, Set<Seq<char>>)
    decreases n,
{
    if n <= 0 {
        (seq![], Set::empty())
    } else {
        let (out, seen) = chips_upto(cs, n - 1);
        let label = runs_text_spec(get(cs[n - 1], "text"@));
        match chip_params(cs[n - 1]) {
            Some(p) => if label.len() > 0 && !seen.contains(p) {
                (out.push((label, p)), seen.insert(p))
            } else {
                (out, seen)
            },
            None => (out, seen),
        }
    }
}

/// The mood filters of the home feed. They are the same renderer as the
/// search filters, but their `params` hangs from a `browseEndpoint`.
pub open spec fn chips_of(root: Json) -> Seq<(Seq<char>, Seq<char>)> {
    let cs = by_key(root, "chipCloudChipRenderer"@);
    chips_upto(cs, cs.len() as int).0
}

pub open spec fn chips_view(v: Seq<SearchChip>) -> Seq<(Seq<char>, Seq<char>)> {
    v.map_values(|c: SearchChip| (c.label@, c.params@))
}

/// The mood filters of the home feed (see [`chips_of`]).
pub fn parse_chips_browse(root: &Json) -> (r: Vec<SearchChip>)
    ensures
        chips_view(r@) == chips_of(*root),
{
    let cs = collect_by_key(root, "chipCloudChipRenderer");
    let mut out: Vec<SearchChip> = Vec::new();
    let mut seen: Vec<String> = Vec::new();
    let mut i: usize = 0;
    while i < cs.len()
        invariant
            0 <= i <= cs@.len(),
            derefs(cs@) == by_key(*root, "chipCloudChipRenderer"@),
            chips_view(out@) == chips_upto(derefs(cs@), i as int).0,
            str_views(seen@).to_set() == chips_upto(derefs(cs@), i as int).1,
        decreases cs@.len() - i,
    {
        let c = cs[i];
        proof {
            assert(derefs(cs@)[i as int] == *c);
        }
        let label = runs_text(get_key(c, "text"));
        let params = get_opt(get_opt(get_key(c, "navigationEndpoint"), "browseEndpoint"), "params");
        if let Some(Json::Str(p)) = params {
            if !label.as_str().is_empty() {
                let ghost seen_v = str_views(seen@);
                if !crate::search::seen_before(&seen, p.as_str()) {
                    seen.push(p.clone());
                    let ghost before = chips_view(out@);
                    let chip = SearchChip { label, params: p.clone() };
                    out.push(chip);
                    proof {
                        assert(chips_view(out@) =~= before.push((chip.label@, chip.params@)));
                        assert(str_views(seen@) =~= seen_v.push(p@));
                        assert forall|x: Seq<char>| #[trigger] seen_v.push(p@).contains(x) <==> (
                        seen_v.contains(x) || x == p@) by {
                            lemma_push_contains(seen_v, p@, x);
                        }
                        assert(seen_v.push(p@).to_set() =~= seen_v.to_set().insert(p@));
                    }
                }
            }
        }
        i = i + 1;
    }
    out
}

/// The first of `xs` from `k` on whose `field` is a string: that string.
pub open spec fn first_field(xs: Seq<Json>, field: Seq<char>, k: int) -> Option<Seq<char>>
    decreases xs.len() - k,
{
    if k < 0 || k >= xs.len() {
        None
    } else if opt_str(get(xs[k], field)) is Some {
        opt_str(get(xs[k], field))
    } else {
        first_field(xs, field, k + 1)
    }
}

/// The continuation token of a tree: the `continuation` of its first
/// `nextContinuationData` that has one, else the `token` of its first
/// `continuationCommand` that has one.
pub open spec fn continuation_of(v: Json) -> Option<Seq<char>> {
    match first_field(by_key(v, "nextContinuationData"@), "continuation"@, 0) {
        Some(t) => Some(t),
        None => first_field(by_key(v, "continuationCommand"@), "token"@, 0),
    }
}

fn first_field_in(xs: &Vec<&Json>, field: &str) -> (r: Option<String>)
    ensures
        match r {
            Some(t) => first_field(derefs(xs@), field@, 0) == Some(t@),
            None => first_field(derefs(xs@), field@, 0) is None,
        },
{
    let mut k: usize = 0;
    while k < xs.len()
        invariant
            0 <= k <= xs@.len(),
            first_field(derefs(xs@), field@, 0) == first_field(derefs(xs@), field@, k as int),
        decreases xs@.len() - k,
    {
        proof {
            assert(derefs(xs@)[k as int] == *xs@[k as int]);
        }
        if let Some(Json::Str(t)) = get_key(xs[k], field) {
            return Some(t.clone());
        }
        k = k + 1;
    }
    None
}

/// The continuation token of a tree (see [`continuation_of`]).
pub fn parse_continuation(v: &Json) -> (r: Option<String>)
    ensures
        match r {
            Some(t) => continuation_of(*v) == Some(t@),
            None => continuation_of(*v) is None,
        },
{
    let nexts = collect_by_key(v, "nextContinuationData");
    if let Some(t) = first_field_in(&nexts, "continuation") {
        return Some(t);
    }
    let cmds = collect_by_key(v, "continuationCommand");
    first_field_in(&cmds, "token")
}


/// A text, or nothing when it is empty.
pub open spec fn non_empty_spec(t: Seq<char>) -> Option<Seq<char>> {
    if t.len() > 0 {
        Some(t)
    } else {
        None
    }
}

/// A text, or nothing when it is empty.
pub fn non_empty(s: String) -> (r: Option<String>)
    ensures
        ov(r) == non_empty_spec(s@),
{
    if s.as_str().is_empty() {
        None
    } else {
        Some(s)
    }
}

/// The first of `shs` from `k` on that has a continuation token: that token.
pub open spec fn first_shelf_token(shs: Seq<Json>, k: int) -> Option<Seq<char>>
    decreases shs.len() - k,
{
    if k < 0 || k >= shs.len() {
        None
    } else if continuation_of(shs[k]) is Some {
        continuation_of(shs[k])
    } else {
        first_shelf_token(shs, k + 1)
    }
}

/// The shelves among the first `n` that hold something (a shelf with
/// nothing in it would only paint an orphan title).
pub open spec fn full_shelves(shs: Seq<Json>, n: int) -> Seq<ShelfView>
    decreases n,
{
    if n <= 0 {
        seq![]
    } else if shelf_spec(shs[n - 1]).items.len() > 0 {
        full_shelves(shs, n - 1).push(shelf_spec(shs[n - 1]))
    } else {
        full_shelves(shs, n - 1)
    }
}

/// What a page says.
#[verifier::ext_equal]
pub struct PageView {
    pub title: Option<Seq<char>>,
    pub subtitle: Option<Seq<char>>,
    pub second_subtitle: Option<Seq<char>>,
    pub description: Option<Seq<char>>,
    pub thumbnail: Option<Seq<char>>,
    pub shelves: Seq<ShelfView>,
    pub buttons: Seq<ButtonView>,
    pub chips: Seq<(Seq<char>, Seq<char>)>,
    pub continuation: Option<Seq<char>>,
}

pub open spec fn page_view(p: BrowsePage) -> PageView {
    PageView {
        title: ov(p.title),
        subtitle: ov(p.subtitle),
        second_subtitle: ov(p.second_subtitle),
        description: ov(p.description),
        thumbnail: ov(p.thumbnail),
        shelves: shelves_view(p.shelves@),
        buttons: buttons_view(p.buttons@),
        chips: chips_view(p.chips@),
        continuation: ov(p.continuation),
    }
}

/// A `browse` page read. The continuation token is looked for first inside
/// the shelves (that of a long list, which goes on reading tracks) and only
/// then in the whole page (where the home feed hangs the one that brings
/// more shelves). The header, when there is one, gives the title, the
/// subtitles, the description and the image.
pub open spec fn page_spec(root: Json) -> PageView {
    let shs = shelves_of(root);
    let token = match first_shelf_token(shs, 0) {
        Some(t) => Some(t),
        None => continuation_of(root),
    };
    let h = header_from(root, 0);
    PageView {
        title: match h {
            Some(h) => non_empty_spec(runs_text_spec(get(h, "title"@))),
            None => None,
        },
        subtitle: match h {
            Some(h) => non_empty_spec(header_subtitle_spec(h)),
            None => None,
        },
        second_subtitle: match h {
            Some(h) => non_empty_spec(runs_text_spec(get(h, "secondSubtitle"@))),
            None => None,
        },
        description: match h {
            Some(h) => match non_empty_spec(runs_text_spec(get(h, "description"@))) {
                Some(d) => Some(d),
                None => non_empty_spec(runs_text_spec(get(h, "descriptionShelfRenderer"@))),
            },
            None => None,
        },
        thumbnail: match h {
            Some(h) => thumbnail_of(h),
            None => None,
        },
        shelves: full_shelves(shs, shs.len() as int),
        buttons: buttons_of(root),
        chips: chips_of(root),
        continuation: token,
    }
}

/// The shelves of `shs` that hold something, read.
fn read_full_shelves(shs: &Vec<&Json>) -> (r: Vec<Shelf>)
    ensures
        shelves_view(r@) == full_shelves(derefs(shs@), shs@.len() as int),
{
    let mut out: Vec<Shelf> = Vec::new();
    let mut i: usize = 0;
    while i < shs.len()
        invariant
            0 <= i <= shs@.len(),
            shelves_view(out@) == full_shelves(derefs(shs@), i as int),
        decreases shs@.len() - i,
    {
        proof {
            assert(derefs(shs@)[i as int] == *shs@[i as int]);
        }
        let sh = parse_shelf(shs[i]);
        if sh.items.len() > 0 {
            let ghost before = shelves_view(out@);
            out.push(sh);
            proof {
                assert(shelves_view(out@) =~= before.push(shelf_view(sh)));
            }
        }
        i = i + 1;
    }
    out
}

/// The first continuation token among some shelves.
fn first_shelf_token_in(shs: &Vec<&Json>) -> (r: Option<String>)
    ensures
        match r {
            Some(t) => first_shelf_token(derefs(shs@), 0) == Some(t@),
            None => first_shelf_token(derefs(shs@), 0) is None,
        },
{
    let mut k: usize = 0;
    while k < shs.len()
        invariant
            0 <= k <= shs@.len(),
            first_shelf_token(derefs(shs@), 0) == first_shelf_token(derefs(shs@), k as int),
        decreases shs@.len() - k,
    {
        proof {
            assert(derefs(shs@)[k as int] == *shs@[k as int]);
        }
        let t = parse_continuation(shs[k]);
        if t.is_some() {
            return t;
        }
        k = k + 1;
    }
    None
}

/// A `browse` page read, whatever the shape of its tree (see [`page_spec`]).
pub fn parse_page(root: &Json) -> (page: BrowsePage)
    ensures
        page_view(page) == page_spec(*root),
{
    let shs = walk_shelves(root);
    let token = first_shelf_token_in(&shs);
    let continuation = if token.is_some() {
        token
    } else {
        parse_continuation(root)
    };
    let mut page = BrowsePage {
        title: None,
        subtitle: None,
        second_subtitle: None,
        description: None,
        thumbnail: None,
        shelves: read_full_shelves(&shs),
        buttons: parse_buttons(root),
        chips: parse_chips_browse(root),
        continuation,
    };
    if let Some(h) = find_header(root) {
        page.title = non_empty(runs_text(get_key(h, "title")));
        page.subtitle = non_empty(header_subtitle(h));
        page.second_subtitle = non_empty(runs_text(get_key(h, "secondSubtitle")));
        let d = non_empty(runs_text(get_key(h, "description")));
        page.description = if d.is_some() {
            d
        } else {
            non_empty(runs_text(get_key(h, "descriptionShelfRenderer")))
        };
        page.thumbnail = extract_thumbnail(h);
    }
    proof {
        assert(page_view(page) =~= page_spec(*root));
    }
    page
}

/// A continuation answer read. When it brings whole shelves (the home
/// feed), they come with their titles, each its own; when it brings loose
/// rows (a long list), its rows and then its cards make one untitled shelf.
pub open spec fn continued_spec(root: Json) -> PageView {
    let shs = shelves_of(root);
    let rows = by_key(root, "musicResponsiveListItemRenderer"@);
    let cards = by_key(root, "musicTwoRowItemRenderer"@);
    let items = rows_upto(rows, rows.len() as int) + cards_upto(cards, cards.len() as int);
    PageView {
        title: None,
        subtitle: None,
        second_subtitle: None,
        description: None,
        thumbnail: None,
        shelves: if shs.len() > 0 {
            full_shelves(shs, shs.len() as int)
        } else if items.len() == 0 {
            seq![]
        } else {
            seq![ShelfView { title: seq![], items }]
        },
        buttons: seq![],
        chips: seq![],
        continuation: continuation_of(root),
    }
}

/// A continuation answer read (see [`continued_spec`]).
pub fn parse_continued(root: &Json) -> (page: BrowsePage)
    ensures
        page_view(page) == continued_spec(*root),
{
    let shs = walk_shelves(root);
    let mut page = BrowsePage::default();
    if shs.len() > 0 {
        page.shelves = read_full_shelves(&shs);
        page.continuation = parse_continuation(root);
        proof {
            assert(page_view(page) =~= continued_spec(*root));
        }
        return page;
    }
    let rows = collect_by_key(root, "musicResponsiveListItemRenderer");
    let cards = collect_by_key(root, "musicTwoRowItemRenderer");
    let mut items: Vec<ShelfItem> = Vec::new();
    push_rows(&rows, &mut items);
    push_cards(&cards, &mut items);
    if items.len() > 0 {
        let shelf = Shelf { title: String::new(), items };
        let ghost sv = shelf_view(shelf);
        page.shelves = vec![shelf];
        proof {
            assert(shelves_view(page.shelves@) =~= seq![sv]);
        }
    }
    page.continuation = parse_continuation(root);
    proof {
        assert(page_view(page) =~= continued_spec(*root));
    }
    page
}

/// No two items share both kind and id.
pub open spec fn no_repeats(items: Seq<ItemView>) -> bool {
    forall|a: int, b: int|
        0 <= a < b < items.len() ==> !(#[trigger] items[a].kind == #[trigger] items[b].kind
            && items[a].id == items[b].id)
}

proof fn lemma_dedup_no_repeats(items: Seq<ItemView>, n: int)
    requires
        n <= items.len(),
    ensures
        no_repeats(dedup(items, n)),
    decreases n,
{
    if n > 0 {
        lemma_dedup_no_repeats(items, n - 1);
        let d = dedup(items, n - 1);
        if !has_key(d, items[n - 1].kind, items[n - 1].id) {
            let now = d.push(items[n - 1]);
            assert forall|a: int, b: int| 0 <= a < b < now.len() implies !(#[trigger] now[a].kind
                == #[trigger] now[b].kind && now[a].id == now[b].id) by {
                assert(now[a] == d[a]);
                if b < d.len() {
                    assert(now[b] == d[b]);
                } else if now[a].kind == now[b].kind && now[a].id == now[b].id {
                    assert(has_key(d, items[n - 1].kind, items[n - 1].id));
                }
            }
        }
    }
}

/// A shelf never shows the same item twice: no two of its items share both
/// kind and id.
pub proof fn lemma_shelf_no_repeats(shelf: Json)
    ensures
        no_repeats(shelf_spec(shelf).items),
{
    let cards = by_key(shelf, "musicTwoRowItemRenderer"@);
    let rows = by_key(shelf, "musicResponsiveListItemRenderer"@);
    let items = cards_upto(cards, cards.len() as int) + rows_upto(rows, rows.len() as int);
    lemma_dedup_no_repeats(items, items.len() as int);
}

proof fn lemma_full_shelves_sound(shs: Seq<Json>, n: int)
    requires
        n <= shs.len(),
    ensures
        forall|k: int|
            0 <= k < full_shelves(shs, n).len() ==> (#[trigger] full_shelves(shs, n)[k]).items.len()
                > 0 && no_repeats(full_shelves(shs, n)[k].items),
    decreases n,
{
    if n > 0 {
        lemma_full_shelves_sound(shs, n - 1);
        lemma_shelf_no_repeats(shs[n - 1]);
        let prev = full_shelves(shs, n - 1);
        assert forall|k: int| 0 <= k < full_shelves(shs, n).len() implies (#[trigger] full_shelves(
            shs,
            n,
        )[k]).items.len() > 0 && no_repeats(full_shelves(shs, n)[k].items) by {
            if k < prev.len() {
                assert(full_shelves(shs, n)[k] == prev[k]);
            }
        }
    }
}

/// Every shelf of a page read holds at least one item, and none twice.
pub proof fn lemma_page_shelves_full(root: Json)
    ensures
        forall|k: int|
            0 <= k < page_spec(root).shelves.len() ==> (#[trigger] page_spec(root).shelves[k]).items.len()
                > 0 && no_repeats(page_spec(root).shelves[k].items),
{
    let shs = shelves_of(root);
    lemma_full_shelves_sound(shs, shs.len() as int);
}

/// Every shelf of a continuation read holds at least one item; when the
/// answer brings whole shelves, none holds an item twice.
pub proof fn lemma_continued_shelves_full(root: Json)
    ensures
        forall|k: int|
            0 <= k < continued_spec(root).shelves.len() ==> (#[trigger] continued_spec(
                root,
            ).shelves[k]).items.len() > 0,
        shelves_of(root).len() > 0 ==> forall|k: int|
            0 <= k < continued_spec(root).shelves.len() ==> no_repeats(
                (#[trigger] continued_spec(root).shelves[k]).items,
            ),
{
    let shs = shelves_of(root);
    lemma_full_shelves_sound(shs, shs.len() as int);
}

} // verus!
