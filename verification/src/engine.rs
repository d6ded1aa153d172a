//! The decisions of the audio engine: what each command does to the queue
//! and what the player must do next, what a tick finds, which tracks are
//! preloaded, and how the facts of a track's source are put together. The
//! host runs the loop: it performs each action and hands back what happened.
use crate::audio::{copy_opt, Track};
use crate::links::{param, url_param};
use crate::model::TrackInfo;
use crate::queue::{ahead_from, shuffle_spec, Queue, Repeat};
use crate::text::{chars_of, parse_u32, parse_u64, replace_all, replace_from, str_eq, str_views, u32_of, u64_of};
use vstd::prelude::*;

verus! {

/// How many tracks are kept ready ahead of the one playing: two, so that two
/// quick skips do not pay a cold start.
pub const PRECARGA: usize = 2;

/// "Previous" restarts the current track once it has played this long.
pub const RESTART_AFTER_MS: u64 = 3000;

/// The commands the engine takes (the volume, a float, is the host's).
#[derive(Debug)]
pub enum Command {
    /// Replaces the queue and starts at `start`.
    SetQueue { tracks: Vec<TrackInfo>, start: usize },
    /// Plays one video, replacing the queue.
    PlayNow(String),
    /// Adds at the end of the queue.
    Enqueue(TrackInfo),
    /// Replaces what comes after the current track, without restarting it.
    SetUpNext { tracks: Vec<TrackInfo> },
    /// Puts a track right after the current one, keeping the rest.
    PlayNext(TrackInfo),
    /// Jumps to a position of the queue.
    JumpTo(usize),
    TogglePlay,
    Pause,
    Resume,
    Next,
    Prev,
    /// Seeks to so many milliseconds.
    Seek(u64),
    SetRepeat(Repeat),
    SetShuffle(bool),
    /// How much the cache may hold, in bytes; 0 is no limit.
    SetCacheLimit(u64),
    /// Evens out the volume between tracks.
    SetNormalize(bool),
    Stop,
}

/// What the player must do after a command.
#[derive(Debug, Clone, Copy, PartialEq, Eq, Structural)]
pub enum Effect {
    /// Resolve, cache and start the current track of the queue.
    StartCurrent,
    /// Preload what comes next (it changed).
    Prefetch,
    /// Preload what comes next and publish the state at once.
    PrefetchAndPublish,
    /// Stop playing.
    Stop,
    /// Seek to so many milliseconds.
    SeekTo(u64),
    TogglePlay,
    Pause,
    Resume,
    /// Prune the cache to its new limit.
    Prune,
    /// Apply the volume again.
    ApplyVolume,
    /// Nothing.
    Nothing,
}

/// The state the engine decides on.
pub struct EngineCore {
    pub queue: Queue,
    /// Goes up each time the queue's contents change, so that the host
    /// resends the queue only then.
    pub queue_rev: u64,
    /// Limit of the cache on disk, in bytes; 0 is no limit.
    pub cache_limit: u64,
    /// Whether the volume is evened out between tracks.
    pub normalize: bool,
}

/// The revision after a change of the queue's contents.
pub open spec fn bumped(rev: u64) -> u64 {
    vstd::wrapping::u64_specs::wrapping_add(rev, 1)
}

impl EngineCore {
    /// The engine at start: an empty queue, the default cache limit, the
    /// volume evened out.
    pub fn new() -> (e: EngineCore)
        ensures
            e.queue.wf(),
            e.queue.tracks().len() == 0,
            e.queue_rev == 0,
            e.cache_limit == crate::cache::DEFAULT_LIMIT,
            e.normalize,
    {
        EngineCore { queue: Queue::new(), queue_rev: 0, cache_limit: crate::cache::DEFAULT_LIMIT, normalize: true }
    }

    /// What a command does to the queue and what the player must do; the
    /// position of the track playing, in milliseconds, decides "previous".
    pub fn handle(&mut self, cmd: Command, position_ms: u64) -> (effect: Effect)
        requires
            old(self).queue.wf(),
        ensures
            final(self).queue.wf(),
            match cmd {
                Command::SetQueue { tracks, start } => {
                    &&& final(self).queue.tracks() == tracks@
                    &&& final(self).queue.cursor() == (if tracks@.len() == 0 {
                        0
                    } else if start < tracks@.len() {
                        start as int
                    } else {
                        tracks@.len() - 1
                    })
                    &&& final(self).queue.repeat_mode() == old(self).queue.repeat_mode()
                    &&& final(self).queue.shuffled() == old(self).queue.shuffled()
                    &&& (final(self).queue.shuffled() ==> exists|seed: u64|
                        final(self).queue.play_order() == #[trigger] shuffle_spec(
                            final(self).queue.tracks().len(),
                            final(self).queue.cursor(),
                            seed,
                        ))
                    &&& final(self).queue_rev == bumped(old(self).queue_rev)
                    &&& effect == Effect::StartCurrent
                },
                Command::PlayNow(id) => {
                    &&& final(self).queue.tracks().len() == 1
                    &&& final(self).queue.tracks()[0].video_id@ == id@
                    &&& final(self).queue.tracks()[0].title is None
                    &&& final(self).queue.cursor() == 0
                    &&& final(self).queue_rev == bumped(old(self).queue_rev)
                    &&& effect == Effect::StartCurrent
                },
                Command::SetUpNext { tracks } => {
                    &&& final(self).queue.cursor() == old(self).queue.cursor()
                    &&& final(self).queue.tracks() == old(self).queue.tracks().subrange(
                        0,
                        if old(self).queue.tracks().len() == 0 {
                            0
                        } else {
                            old(self).queue.cursor() + 1
                        },
                    ) + tracks@
                    &&& final(self).queue.repeat_mode() == old(self).queue.repeat_mode()
                    &&& final(self).queue.shuffled() == old(self).queue.shuffled()
                    &&& (final(self).queue.shuffled() ==> crate::queue::is_permutation(
                        final(self).queue.play_order(),
                        final(self).queue.tracks().len() as int,
                    ))
                    &&& (final(self).queue.shuffled() ==> exists|seed: u64|
                        final(self).queue.play_order() == #[trigger] shuffle_spec(
                            final(self).queue.tracks().len(),
                            final(self).queue.cursor(),
                            seed,
                        ))
                    &&& final(self).queue_rev == bumped(old(self).queue_rev)
                    &&& effect == Effect::PrefetchAndPublish
                },
                Command::PlayNext(t) => {
                    &&& final(self).queue.tracks() == Queue::after_play_next(old(self).queue, t).0
                    &&& final(self).queue.cursor() == Queue::after_play_next(old(self).queue, t).1
                    &&& final(self).queue.repeat_mode() == old(self).queue.repeat_mode()
                    &&& final(self).queue.shuffled() == old(self).queue.shuffled()
                    &&& final(self).queue.play_order() == Queue::order_after_play_next(old(self).queue, t)
                    &&& final(self).queue_rev == bumped(old(self).queue_rev)
                    &&& effect == (if old(self).queue.tracks().len() == 0 {
                        Effect::StartCurrent
                    } else {
                        Effect::PrefetchAndPublish
                    })
                },
                Command::Enqueue(t) => {
                    &&& final(self).queue.tracks() == old(self).queue.tracks().push(t)
                    &&& final(self).queue.cursor() == old(self).queue.cursor()
                    &&& final(self).queue_rev == bumped(old(self).queue_rev)
                    &&& effect == (if old(self).queue.tracks().len() == 0 {
                        Effect::StartCurrent
                    } else {
                        Effect::Prefetch
                    })
                },
                Command::JumpTo(i) => {
                    &&& final(self).queue_rev == old(self).queue_rev
                    &&& (i < old(self).queue.tracks().len() ==> final(self).queue == old(self).queue.with_cursor(
                        i as int,
                    ) && effect == Effect::StartCurrent)
                    &&& (i >= old(self).queue.tracks().len() ==> final(self).queue == old(self).queue
                        && effect == Effect::Nothing)
                },
                Command::TogglePlay => effect == Effect::TogglePlay && final(self).queue == old(self).queue,
                Command::Pause => effect == Effect::Pause && final(self).queue == old(self).queue,
                Command::Resume => effect == Effect::Resume && final(self).queue == old(self).queue,
                Command::Next => match old(self).queue.next_target(false) {
                    Some(i) => final(self).queue == old(self).queue.with_cursor(i) && effect
                        == Effect::StartCurrent,
                    None => final(self).queue == old(self).queue && effect == Effect::Stop,
                },
                Command::Prev => if position_ms > RESTART_AFTER_MS {
                    final(self).queue == old(self).queue && effect == Effect::SeekTo(0)
                } else {
                    match old(self).queue.prev_target() {
                        Some(i) => final(self).queue == old(self).queue.with_cursor(i) && effect
                            == Effect::StartCurrent,
                        None => final(self).queue == old(self).queue && effect == Effect::Nothing,
                    }
                },
                Command::Seek(ms) => effect == Effect::SeekTo(ms) && final(self).queue == old(self).queue,
                Command::SetRepeat(r) => final(self).queue.repeat_mode() == r && final(self).queue.tracks()
                    == old(self).queue.tracks() && final(self).queue.cursor() == old(self).queue.cursor()
                    && final(self).queue.shuffled() == old(self).queue.shuffled() && effect
                    == Effect::Prefetch,
                Command::SetShuffle(on) => final(self).queue.shuffled() == on && final(self).queue.tracks()
                    == old(self).queue.tracks() && final(self).queue.cursor() == old(self).queue.cursor()
                    && final(self).queue.repeat_mode() == old(self).queue.repeat_mode() && effect
                    == Effect::Prefetch && (on ==> exists|seed: u64|
                        final(self).queue.play_order() == #[trigger] shuffle_spec(
                            final(self).queue.tracks().len(),
                            final(self).queue.cursor(),
                            seed,
                        )) && (!on
                    ==> final(self).queue.play_order().len() == 0),
                Command::SetCacheLimit(b) => final(self).cache_limit == b && effect == Effect::Prune
                    && final(self).queue == old(self).queue,
                Command::SetNormalize(on) => final(self).normalize == on && effect == Effect::ApplyVolume
                    && final(self).queue == old(self).queue,
                Command::Stop => effect == Effect::Stop && final(self).queue == old(self).queue,
            },
            !(cmd is SetCacheLimit) ==> final(self).cache_limit == old(self).cache_limit,
            !(cmd is SetNormalize) ==> final(self).normalize == old(self).normalize,
    {
        match cmd {
            Command::SetQueue { tracks, start } => {
                self.queue_rev = self.queue_rev.wrapping_add(1);
                self.queue.set_items(tracks, start);
                Effect::StartCurrent
            },
            Command::PlayNow(video_id) => {
                self.queue_rev = self.queue_rev.wrapping_add(1);
                let t = TrackInfo::bare(video_id);
                self.queue.set_items(vec![t], 0);
                Effect::StartCurrent
            },
            Command::SetUpNext { tracks } => {
                self.queue_rev = self.queue_rev.wrapping_add(1);
                self.queue.set_up_next(tracks);
                Effect::PrefetchAndPublish
            },
            Command::PlayNext(t) => {
                let vacia = self.queue.is_empty();
                self.queue_rev = self.queue_rev.wrapping_add(1);
                self.queue.play_next(t);
                if vacia {
                    Effect::StartCurrent
                } else {
                    Effect::PrefetchAndPublish
                }
            },
            Command::Enqueue(t) => {
                let was_empty = self.queue.is_empty();
                self.queue_rev = self.queue_rev.wrapping_add(1);
                self.queue.push(t);
                if was_empty {
                    Effect::StartCurrent
                } else {
                    Effect::Prefetch
                }
            },
            Command::JumpTo(i) => {
                if self.queue.jump_to(i).is_some() {
                    Effect::StartCurrent
                } else {
                    Effect::Nothing
                }
            },
            Command::TogglePlay => Effect::TogglePlay,
            Command::Pause => Effect::Pause,
            Command::Resume => Effect::Resume,
            Command::Next => {
                if self.queue.next(false).is_some() {
                    Effect::StartCurrent
                } else {
                    Effect::Stop
                }
            },
            Command::Prev => {
                if position_ms > RESTART_AFTER_MS {
                    Effect::SeekTo(0)
                } else if self.queue.prev().is_some() {
                    Effect::StartCurrent
                } else {
                    Effect::Nothing
                }
            },
            Command::Seek(ms) => Effect::SeekTo(ms),
            Command::SetRepeat(r) => {
                self.queue.set_repeat(r);
                Effect::Prefetch
            },
            Command::SetShuffle(on) => {
                self.queue.set_shuffle(on);
                Effect::Prefetch
            },
            Command::SetCacheLimit(bytes) => {
                self.cache_limit = bytes;
                Effect::Prune
            },
            Command::SetNormalize(on) => {
                self.normalize = on;
                Effect::ApplyVolume
            },
            Command::Stop => Effect::Stop,
        }
    }

    /// A track ended by itself: the queue moves on as on a natural end
    /// (where `Repeat::One` repeats); whether there is a track to start.
    pub fn track_ended(&mut self) -> (start: bool)
        requires
            old(self).queue.wf(),
        ensures
            final(self).queue.wf(),
            match old(self).queue.next_target(true) {
                Some(i) => start && final(self).queue == old(self).queue.with_cursor(i),
                None => !start && final(self).queue == old(self).queue,
            },
            final(self).queue_rev == old(self).queue_rev,
            final(self).cache_limit == old(self).cache_limit,
            final(self).normalize == old(self).normalize,
    {
        self.queue.next(true).is_some()
    }

    /// Fills in the metadata of the current track when its title is not
    /// known: from InnerTube first, from the audio provider as a fallback.
    /// Whether it was filled in (the queue's contents changed, so its
    /// revision goes up).
    pub fn backfill(&mut self, resolved: Option<TrackInfo>, provided: Option<TrackInfo>) -> (filled: bool)
        requires
            old(self).queue.wf(),
            old(self).queue.tracks().len() > 0,
        ensures
            final(self).queue.wf(),
            final(self).queue.tracks().len() == old(self).queue.tracks().len(),
            final(self).queue.cursor() == old(self).queue.cursor(),
            filled == (old(self).queue.tracks()[old(self).queue.cursor()].title is None && (resolved is Some
                || provided is Some)),
            filled ==> final(self).queue_rev == bumped(old(self).queue_rev),
            !filled ==> final(self).queue_rev == old(self).queue_rev && final(self).queue == old(self).queue,
    {
        let unknown = match self.queue.current() {
            Some(t) => t.title.is_none(),
            None => false,
        };
        if !unknown {
            return false;
        }
        let meta = match resolved {
            Some(m) => m,
            None => match provided {
                Some(m) => m,
                None => {
                    return false;
                },
            },
        };
        self.queue.set_current_meta(meta);
        self.queue_rev = self.queue_rev.wrapping_add(1);
        true
    }

    /// The ids of the tracks to keep ready: the next [`PRECARGA`] that will
    /// sound, without the one playing (with `Repeat::One` the next is the
    /// current itself).
    pub fn prefetch_targets(&self) -> (ids: Vec<String>)
        requires
            self.queue.wf(),
        ensures
            str_views(ids@) == prefetch_ids(self.queue),
    {
        let pos = self.queue.ahead(PRECARGA);
        let items = self.queue.items();
        let n = items.len();
        let cur = self.queue.index();
        let mut out: Vec<String> = Vec::new();
        let ghost ps = ahead_from(self.queue, self.queue.cursor(), PRECARGA as nat);
        proof {
            lemma_ahead_in_range(self.queue, self.queue.cursor(), PRECARGA as nat);
        }
        let mut k: usize = 0;
        while k < pos.len()
            invariant
                self.queue.wf(),
                items@ == self.queue.tracks(),
                n == items@.len(),
                cur == self.queue.cursor(),
                pos@.map_values(|i: usize| i as int) == ps,
                ps == ahead_from(self.queue, self.queue.cursor(), PRECARGA as nat),
                forall|j: int| 0 <= j < ps.len() ==> 0 <= #[trigger] ps[j] < self.queue.tracks().len(),
                0 <= k <= pos@.len(),
                str_views(out@) == prefetch_upto(self.queue, ps, k as int),
            decreases pos@.len() - k,
        {
            let i = pos[k];
            proof {
                assert(pos@.map_values(|i: usize| i as int)[k as int] == i as int);
            }
            let id = &items[i].video_id;
            let is_current = n > 0 && str_eq(id.as_str(), items[cur].video_id.as_str());
            let ghost before = str_views(out@);
            if !is_current {
                out.push(id.clone());
                proof {
                    assert(str_views(out@) =~= before.push(id@));
                }
            }
            k = k + 1;
        }
        out
    }
}

/// The ids among the first `k` of positions `ps` that are not the current
/// track's.
pub open spec fn prefetch_upto(q: Queue, ps: Seq<int>, k: int) -> Seq<Seq<char>>
    decreases k,
{
    if k <= 0 {
        seq![]
    } else {
        let id = q.tracks()[ps[k - 1]].video_id@;
        if id == q.tracks()[q.cursor()].video_id@ {
            prefetch_upto(q, ps, k - 1)
        } else {
            prefetch_upto(q, ps, k - 1).push(id)
        }
    }
}

/// The ids of the tracks to keep ready (see [`EngineCore::prefetch_targets`]).
pub open spec fn prefetch_ids(q: Queue) -> Seq<Seq<char>> {
    let ps = ahead_from(q, q.cursor(), PRECARGA as nat);
    prefetch_upto(q, ps, ps.len() as int)
}

proof fn lemma_prefetch_upto_excludes(q: Queue, ps: Seq<int>, k: int)
    ensures
        prefetch_upto(q, ps, k).len() <= if k < 0 { 0 } else { k },
        forall|j: int|
            0 <= j < prefetch_upto(q, ps, k).len() ==> #[trigger] prefetch_upto(q, ps, k)[j]
                != q.tracks()[q.cursor()].video_id@,
    decreases k,
{
    if k > 0 {
        lemma_prefetch_upto_excludes(q, ps, k - 1);
        let prev = prefetch_upto(q, ps, k - 1);
        let now = prefetch_upto(q, ps, k);
        assert forall|j: int| 0 <= j < now.len() implies #[trigger] now[j] != q.tracks()[q.cursor()].video_id@ by {
            if j < prev.len() {
                assert(now[j] == prev[j]);
            }
        }
    }
}

proof fn lemma_ahead_len(q: Queue, c: int, n: nat)
    ensures
        ahead_from(q, c, n).len() <= n,
    decreases n,
{
    if n > 0 {
        match q.with_cursor(c).next_target(true) {
            None => {},
            Some(i) => {
                lemma_ahead_len(q, i, (n - 1) as nat);
            },
        }
    }
}

/// What is preloaded never includes the track playing, and is at most
/// [`PRECARGA`] tracks.
pub proof fn lemma_prefetch_excludes_current(q: Queue)
    ensures
        prefetch_ids(q).len() <= PRECARGA,
        forall|j: int|
            0 <= j < prefetch_ids(q).len() ==> #[trigger] prefetch_ids(q)[j]
                != q.tracks()[q.cursor()].video_id@,
{
    let ps = ahead_from(q, q.cursor(), PRECARGA as nat);
    lemma_ahead_len(q, q.cursor(), PRECARGA as nat);
    lemma_prefetch_upto_excludes(q, ps, ps.len() as int);
}

proof fn lemma_ahead_in_range(q: Queue, c: int, n: nat)
    requires
        q.wf(),
        q.tracks().len() <= usize::MAX,
        q.tracks().len() > 0 ==> 0 <= c < q.tracks().len(),
    ensures
        forall|j: int|
            0 <= j < ahead_from(q, c, n).len() ==> 0 <= #[trigger] ahead_from(q, c, n)[j] < q.tracks().len(),
    decreases n,
{
    if n > 0 {
        let w = q.with_cursor(c);
        match w.next_target(true) {
            None => {},
            Some(i) => {
                lemma_next_target_in_range(q, c);
                lemma_ahead_in_range(q, i, (n - 1) as nat);
                assert forall|j: int| 0 <= j < ahead_from(q, c, n).len() implies 0 <= #[trigger] ahead_from(
                    q,
                    c,
                    n,
                )[j] < q.tracks().len() by {
                    if j > 0 {
                        assert(ahead_from(q, c, n)[j] == ahead_from(q, i, (n - 1) as nat)[j - 1]);
                    }
                }
            },
        }
    }
}

proof fn lemma_next_target_in_range(q: Queue, c: int)
    requires
        q.wf(),
        q.tracks().len() <= usize::MAX,
        q.tracks().len() > 0 ==> 0 <= c < q.tracks().len(),
    ensures
        q.with_cursor(c).next_target(true) matches Some(i) ==> 0 <= i < q.tracks().len(),
{
    crate::queue::lemma_target_in_range(q, c);
}

/// The ids among `ids` that are not in `others`, in order.
pub open spec fn missing_from(ids: Seq<Seq<char>>, others: Seq<Seq<char>>) -> Seq<Seq<char>>
    decreases ids.len(),
{
    if ids.len() == 0 {
        seq![]
    } else {
        let m = missing_from(ids.drop_last(), others);
        if others.contains(ids.last()) {
            m
        } else {
            m.push(ids.last())
        }
    }
}

/// The ids of `ids` that are in neither `ready` nor `loading`: what must
/// start preloading.
pub fn pending(ids: &Vec<String>, ready: &Vec<String>, loading: &Vec<String>) -> (r: Vec<String>)
    ensures
        str_views(r@) == missing_from(missing_from(str_views(ids@), str_views(ready@)), str_views(loading@)),
{
    let mut out: Vec<String> = Vec::new();
    let mut i: usize = 0;
    while i < ids.len()
        invariant
            0 <= i <= ids@.len(),
            str_views(out@) == missing_from(
                missing_from(str_views(ids@).take(i as int), str_views(ready@)),
                str_views(loading@),
            ),
        decreases ids@.len() - i,
    {
        let id = &ids[i];
        let ghost before = str_views(out@);
        let ghost t = str_views(ids@).take(i + 1);
        let ghost inner = missing_from(str_views(ids@).take(i as int), str_views(ready@));
        proof {
            assert(t.drop_last() =~= str_views(ids@).take(i as int));
            assert(t.last() == id@);
            assert(inner.push(id@).drop_last() =~= inner);
        }
        let in_ready = crate::search::seen_before(ready, id.as_str());
        let in_loading = crate::search::seen_before(loading, id.as_str());
        if !in_ready && !in_loading {
            out.push(id.clone());
            proof {
                assert(str_views(out@) =~= before.push(id@));
            }
        }
        i = i + 1;
    }
    proof {
        assert(str_views(ids@).take(ids@.len() as int) =~= str_views(ids@));
    }
    out
}

/// The duration of the track: InnerTube's first, then the provider's, else
/// unknown (0).
pub fn duration_choice(resolved: Option<u64>, provided: Option<u64>) -> (ms: u64)
    ensures
        ms == match resolved {
            Some(d) => d,
            None => match provided {
                Some(p) => p,
                None => 0,
            },
        },
{
    match resolved {
        Some(d) => d,
        None => match provided {
            Some(p) => p,
            None => 0,
        },
    }
}

/// What a URL from the audio provider says of its track.
#[derive(Debug, Clone)]
pub struct UrlSource {
    /// The `itag` parameter, or 0.
    pub itag: u32,
    /// The MIME type given, else the `mime` parameter with `%2F` as `/`.
    pub mime: Option<String>,
    /// The size given, else the `clen` parameter.
    pub size: Option<u64>,
}

/// The facts of a URL from the audio provider (see [`UrlSource`]).
pub fn url_source(url: &str, size: Option<u64>, mime: Option<String>) -> (r: UrlSource)
    ensures
        r.itag == match url_param(url@, "itag"@) {
            Some(v) => match u32_of(v) {
                Some(n) => n,
                None => 0,
            },
            None => 0,
        },
        match mime {
            Some(m) => r.mime == Some(m),
            None => match url_param(url@, "mime"@) {
                Some(v) => r.mime matches Some(m) && m@ == replace_from(v, "%2F"@, "/"@, 0),
                None => r.mime is None,
            },
        },
        r.size == match size {
            Some(s) => Some(s),
            None => match url_param(url@, "clen"@) {
                Some(v) => u64_of(v),
                None => None,
            },
        },
{
    let itag = match param(url, "itag") {
        Some(v) => {
            let c = chars_of(v.as_str());
            match parse_u32(c.as_slice()) {
                Some(n) => n,
                None => 0,
            }
        },
        None => 0,
    };
    let mime = match mime {
        Some(m) => Some(m),
        None => match param(url, "mime") {
            Some(v) => {
                proof {
                    reveal_strlit("%2F");
                }
                Some(replace_all(v.as_str(), "%2F", "/"))
            },
            None => None,
        },
    };
    let size = match size {
        Some(s) => Some(s),
        None => match param(url, "clen") {
            Some(v) => {
                let c = chars_of(v.as_str());
                parse_u64(c.as_slice())
            },
            None => None,
        },
    };
    UrlSource { itag, mime, size }
}

/// The metadata an external download brings, kept only when it has a title.
pub fn external_meta(
    video_id: &str,
    title: Option<String>,
    author: Option<String>,
    thumbnail: Option<String>,
    duration_ms: Option<u64>,
) -> (r: Option<TrackInfo>)
    ensures
        title is None ==> r is None,
        title is Some ==> (r matches Some(t) && t.video_id@ == video_id@ && t.title == title && t.author
            == author && t.thumbnail == thumbnail && t.duration_ms == duration_ms),
{
    if title.is_none() {
        return None;
    }
    Some(TrackInfo { video_id: video_id.to_owned(), title, author, thumbnail, duration_ms })
}

/// The itag of a prepared track: the provider's, or InnerTube's when the
/// provider gave none (0).
pub fn itag_choice(provided: u32, resolved: Option<u32>) -> (itag: u32)
    ensures
        itag == if provided == 0 && resolved is Some {
            resolved->0
        } else {
            provided
        },
{
    if provided == 0 {
        if let Some(r) = resolved {
            return r;
        }
    }
    provided
}

/// What a tick finds.
#[derive(Debug, Clone, PartialEq, Eq)]
pub struct TickOutcome {
    /// The download failed before a single byte: this error stops the track.
    pub fail: Option<String>,
    /// The download broke off midway: warn once and play what there is.
    pub warn_partial: bool,
    /// The track played to its end: move on.
    pub ended: bool,
}

/// What a tick finds while a track is armed: a download that failed with no
/// byte is a failure; one that failed with bytes is played anyway (warned
/// once); an emptied, unpaused player means the track ended.
pub fn tick(
    armed: bool,
    error: Option<String>,
    downloaded: u64,
    partial_warned: bool,
    player_empty: bool,
    paused: bool,
) -> (t: TickOutcome)
    ensures
        !armed ==> t.fail is None && !t.warn_partial && !t.ended,
        armed && error is Some && downloaded == 0 ==> t.fail == error && !t.warn_partial && !t.ended,
        armed && !(error is Some && downloaded == 0) ==> {
            &&& t.fail is None
            &&& t.warn_partial == (error is Some && !partial_warned)
            &&& t.ended == (player_empty && !paused)
        },
{
    if !armed {
        return TickOutcome { fail: None, warn_partial: false, ended: false };
    }
    let mut warn = false;
    if let Some(e) = error {
        if downloaded == 0 {
            return TickOutcome { fail: Some(e), warn_partial: false, ended: false };
        }
        if !partial_warned {
            warn = true;
        }
    }
    TickOutcome { fail: None, warn_partial: warn, ended: player_empty && !paused }
}

/// The queue as the interface shows it.
pub fn tracks_of(q: &Queue) -> (v: Vec<Track>)
    requires
        q.wf(),
    ensures
        v@.len() == q.tracks().len(),
        forall|i: int| 0 <= i < v@.len() ==> shown(#[trigger] v@[i], q.tracks()[i]),
{
    let items = q.items();
    let mut out: Vec<Track> = Vec::new();
    let mut i: usize = 0;
    while i < items.len()
        invariant
            items@ == q.tracks(),
            0 <= i <= items@.len(),
            out@.len() == i,
            forall|j: int| 0 <= j < i ==> shown(#[trigger] out@[j], items@[j]),
        decreases items@.len() - i,
    {
        out.push(Track::from_info(&items[i]));
        i = i + 1;
    }
    out
}

/// A track shown for some metadata (see [`Track::from_info`]).
pub open spec fn shown(t: Track, m: TrackInfo) -> bool {
    &&& t.video_id == m.video_id
    &&& match m.title {
        Some(s) => t.title == s,
        None => t.title@ == crate::audio::SIN_TITULO@,
    }
    &&& match m.author {
        Some(s) => t.author == s,
        None => t.author@ == crate::audio::SIN_AUTOR@,
    }
    &&& t.thumbnail == m.thumbnail
    &&& t.duration_ms == m.duration_ms
}

/// A key or button of the system's media controls.
#[derive(Debug, Clone, Copy, PartialEq, Eq, Structural)]
pub enum MediaKey {
    Play,
    Pause,
    Toggle,
    Next,
    Previous,
    Stop,
    /// Go to so many milliseconds.
    SetPosition(u64),
    /// The system asks the application to quit.
    Quit,
    /// Anything else the controls may send.
    Other,
}

/// What a media key asks of the application.
#[derive(Debug)]
pub enum MediaAction {
    /// A command for the engine.
    Send(Command),
    /// Quit the application.
    Quit,
    /// Nothing.
    Ignore,
}

/// The keyboard's media keys and the system's card become engine commands.
pub fn media_action(k: MediaKey) -> (a: MediaAction)
    ensures
        match k {
            MediaKey::Play => a matches MediaAction::Send(Command::Resume),
            MediaKey::Pause => a matches MediaAction::Send(Command::Pause),
            MediaKey::Toggle => a matches MediaAction::Send(Command::TogglePlay),
            MediaKey::Next => a matches MediaAction::Send(Command::Next),
            MediaKey::Previous => a matches MediaAction::Send(Command::Prev),
            MediaKey::Stop => a matches MediaAction::Send(Command::Stop),
            MediaKey::SetPosition(ms) => a matches MediaAction::Send(Command::Seek(m)) && m == ms,
            MediaKey::Quit => a is Quit,
            MediaKey::Other => a is Ignore,
        },
{
    match k {
        MediaKey::Play => MediaAction::Send(Command::Resume),
        MediaKey::Pause => MediaAction::Send(Command::Pause),
        MediaKey::Toggle => MediaAction::Send(Command::TogglePlay),
        MediaKey::Next => MediaAction::Send(Command::Next),
        MediaKey::Previous => MediaAction::Send(Command::Prev),
        MediaKey::Stop => MediaAction::Send(Command::Stop),
        MediaKey::SetPosition(ms) => MediaAction::Send(Command::Seek(ms)),
        MediaKey::Quit => MediaAction::Quit,
        MediaKey::Other => MediaAction::Ignore,
    }
}

/// What the system's card shows of the player.
#[derive(Debug, Clone, Copy, PartialEq, Eq, Structural)]
pub enum PlaybackShown {
    Stopped,
    Playing,
    Paused,
}

/// Stopped with no track; otherwise playing or paused.
pub fn playback_shown(has_track: bool, playing: bool) -> (p: PlaybackShown)
    ensures
        !has_track ==> p == PlaybackShown::Stopped,
        has_track && playing ==> p == PlaybackShown::Playing,
        has_track && !playing ==> p == PlaybackShown::Paused,
{
    if !has_track {
        PlaybackShown::Stopped
    } else if playing {
        PlaybackShown::Playing
    } else {
        PlaybackShown::Paused
    }
}

} // verus!
