//! The small decisions of the desktop host and the command-line probe: the
//! settings read back, the names accepted, the Discord presence, the health
//! of a client, the clock shown.
use crate::audio::SIN_AUTOR;
use crate::cache::{dec, decimal, DEFAULT_LIMIT};
use crate::links::parse_video_id;
use crate::model::{codec_spec, is_audio_spec, Format, PlayerResponse};
use crate::queue::Repeat;
use crate::select::{audio_itag_preference, best_audio_index, choice, eligible, rate};
use crate::ytdlp::Motivo;
use crate::text::{chars_of, parse_u64, slice_vec, str_eq, string_of, trim, trimmed, u64_of};
use vstd::utf8::{encode_scalar, encode_utf8};
use vstd::prelude::*;

verus! {

/// After `yt-dlp` failed on a track, whether the URL is worth minting in a
/// hidden webview. `fallo` is the reason `yt-dlp` gave, where it gave one.
/// Not for a track that is not available (the minter would take its whole
/// margin to learn the same), nor for a preload (a hidden webview for a track
/// that may never sound competes with the one that does).
pub fn try_mint(fallo: Option<Motivo>, precarga: bool) -> (b: bool)
    ensures
        b == (fallo != Some(Motivo::NoDisponible) && !precarga),
{
    let unavailable = match fallo {
        Some(Motivo::NoDisponible) => true,
        _ => false,
    };
    !unavailable && !precarga
}

/// One look at the playback state for the interface: whether to emit it, and
/// whether the queue goes with it, given whether the window is minimized,
/// whether the track or the play state changed, the queue revision of the
/// state and the last revision whose queue was sent. Minimized, only a change
/// of track or of play state is emitted; a queue is sent once per revision.
/// The third value is the last revision sent afterwards.
pub fn emit_step(minimized: bool, track_changed: bool, play_changed: bool, rev: u64, last: Option<u64>) -> (r: (
    bool,
    bool,
    Option<u64>,
))
    ensures
        r.0 == (!minimized || track_changed || play_changed),
        r.1 == (r.0 && last != Some(rev)),
        r.2 == (if r.0 {
            Some(rev)
        } else {
            last
        }),
{
    let emit = !minimized || track_changed || play_changed;
    if !emit {
        return (false, false, last);
    }
    let already = match last {
        Some(l) => l == rev,
        None => false,
    };
    (true, !already, Some(rev))
}

/// The repeat mode the interface names: `all`, `one`, anything else is off.
pub fn repeat_from_name(mode: &str) -> (r: Repeat)
    ensures
        mode@ == "all"@ ==> r == Repeat::All,
        mode@ == "one"@ ==> r == Repeat::One,
        mode@ != "all"@ && mode@ != "one"@ ==> r == Repeat::Off,
{
    proof {
        reveal_strlit("all");
        reveal_strlit("one");
        assert("all"@[0] != "one"@[0]);
    }
    if str_eq(mode, "all") {
        Repeat::All
    } else if str_eq(mode, "one") {
        Repeat::One
    } else {
        Repeat::Off
    }
}

/// The cache limit saved in the settings, or the default one when none is
/// saved or it is not a number.
pub fn limite_cache(saved: Option<&str>) -> (n: u64)
    ensures
        n == match saved {
            Some(s) => match u64_of(s@) {
                Some(v) => v,
                None => DEFAULT_LIMIT,
            },
            None => DEFAULT_LIMIT,
        },
{
    match saved {
        Some(s) => {
            let c = chars_of(s);
            match parse_u64(c.as_slice()) {
                Some(v) => v,
                None => DEFAULT_LIMIT,
            }
        },
        None => DEFAULT_LIMIT,
    }
}

/// Whether the volume is evened out: yes unless the setting says `false`.
pub fn normalize_setting(saved: Option<&str>) -> (on: bool)
    ensures
        on == !(saved matches Some(s) && s@ == "false"@),
{
    match saved {
        Some(s) => !str_eq(s, "false"),
        None => true,
    }
}

/// A playlist name is accepted unless it is empty or only white space.
pub fn playlist_name_ok(name: &str) -> (ok: bool)
    ensures
        ok == (trim(name@).len() > 0),
{
    let c = chars_of(name);
    let t = trimmed(c.as_slice());
    t.len() > 0
}

/// The metadata that mends a saved track: only with a title that is not
/// empty (an unknown one is never written over with nothing), and with the
/// placeholder author when none is known.
pub fn repaired_meta(title: Option<String>, author: Option<String>) -> (r: Option<(String, String)>)
    ensures
        match title {
            Some(t) if t@.len() > 0 => r matches Some((a, b)) && a@ == t@ && match author {
                Some(au) => b@ == au@,
                None => b@ == SIN_AUTOR@,
            },
            _ => r is None,
        },
{
    let t = match title {
        Some(t) => t,
        None => {
            return None;
        },
    };
    if t.as_str().is_empty() {
        return None;
    }
    let a = match author {
        Some(a) => a,
        None => SIN_AUTOR.to_owned(),
    };
    Some((t, a))
}

/// The key that tells when the Discord presence must be sent again: the
/// track, whether it plays, and the position in five-second steps.
pub fn presence_key(video_id: Option<&str>, playing: bool, position_ms: u64) -> (k: String)
    ensures
        k@ == (match video_id {
            Some(v) => v@,
            None => Seq::<char>::empty(),
        }) + "|"@ + (if playing {
            "true"@
        } else {
            "false"@
        }) + "|"@ + dec((position_ms / 5000) as nat),
{
    let mut v = match video_id {
        Some(id) => chars_of(id),
        None => Vec::new(),
    };
    let mut bar = chars_of("|");
    let mut p = if playing {
        chars_of("true")
    } else {
        chars_of("false")
    };
    let mut bar2 = chars_of("|");
    let mut n = decimal(position_ms / 5000);
    v.append(&mut bar);
    v.append(&mut p);
    v.append(&mut bar2);
    v.append(&mut n);
    string_of(v.as_slice())
}

/// How long after a failed connection to Discord another one is tried.
pub const RECONNECT_MS: u64 = 30_000;

/// What to do with a new state of the player, for the Discord presence.
#[derive(Debug, Clone, Copy, PartialEq, Eq, Structural)]
pub enum PresenceStep {
    /// Nothing visible changed, or it is too soon to try Discord again.
    Skip,
    /// Try to connect, then send if it worked.
    Connect,
    /// Send the presence.
    Send,
}

/// The presence's side of the conversation with Discord: the last state
/// sent, whether there is a connection, and when one was last tried.
pub struct Presence {
    last_key: String,
    connected: bool,
    last_attempt_ms: Option<u64>,
}

impl Presence {
    pub closed spec fn last_key_view(&self) -> Seq<char> {
        self.last_key@
    }

    pub closed spec fn is_connected(&self) -> bool {
        self.connected
    }

    pub closed spec fn last_attempt(&self) -> Option<u64> {
        self.last_attempt_ms
    }

    /// Nothing sent yet, not connected, and a connection may be tried at once.
    pub fn new() -> (p: Presence)
        ensures
            p.last_key_view() == Seq::<char>::empty(),
            !p.is_connected(),
            p.last_attempt() is None,
    {
        Presence { last_key: String::new(), connected: false, last_attempt_ms: None }
    }

    /// A new state of the player, by its [`presence_key`], at `now_ms`:
    /// only a visible change is sent; without a connection, one is tried at
    /// most every [`RECONNECT_MS`].
    pub fn on_change(&mut self, key: String, now_ms: u64) -> (step: PresenceStep)
        ensures
            key@ == old(self).last_key_view() ==> step == PresenceStep::Skip && final(self).last_key_view()
                == old(self).last_key_view() && final(self).last_attempt() == old(self).last_attempt(),
            key@ != old(self).last_key_view() ==> final(self).last_key_view() == key@,
            key@ != old(self).last_key_view() && old(self).is_connected() ==> step == PresenceStep::Send
                && final(self).last_attempt() == old(self).last_attempt(),
            key@ != old(self).last_key_view() && !old(self).is_connected() && (old(self).last_attempt() matches Some(
                t,
            ) && now_ms >= t && now_ms - t < RECONNECT_MS) ==> step == PresenceStep::Skip && final(self).last_attempt()
                == old(self).last_attempt(),
            key@ != old(self).last_key_view() && !old(self).is_connected() && !(old(self).last_attempt() matches Some(
                t,
            ) && now_ms >= t && now_ms - t < RECONNECT_MS) ==> step == PresenceStep::Connect && final(self).last_attempt()
                == Some(now_ms),
            final(self).is_connected() == old(self).is_connected(),
    {
        if str_eq(key.as_str(), self.last_key.as_str()) {
            return PresenceStep::Skip;
        }
        self.last_key = key;
        if self.connected {
            return PresenceStep::Send;
        }
        if let Some(t) = self.last_attempt_ms {
            if now_ms >= t && now_ms - t < RECONNECT_MS {
                return PresenceStep::Skip;
            }
        }
        self.last_attempt_ms = Some(now_ms);
        PresenceStep::Connect
    }

    /// The outcome of a connection attempt.
    pub fn connected(&mut self, ok: bool)
        ensures
            final(self).is_connected() == ok,
            final(self).last_key_view() == old(self).last_key_view(),
            final(self).last_attempt() == old(self).last_attempt(),
    {
        self.connected = ok;
    }

    /// The outcome of sending at `now_ms`: a failure means Discord went away,
    /// and the next connection waits from now.
    pub fn sent(&mut self, ok: bool, now_ms: u64)
        ensures
            final(self).is_connected() == (old(self).is_connected() && ok),
            final(self).last_key_view() == old(self).last_key_view(),
            ok ==> final(self).last_attempt() == old(self).last_attempt(),
            !ok ==> final(self).last_attempt() == Some(now_ms),
    {
        if !ok {
            self.connected = false;
            self.last_attempt_ms = Some(now_ms);
        }
    }
}

/// When the track ends, in seconds since the epoch, for Discord's time bar:
/// only while it plays with a known duration; from now plus what is left.
pub fn presence_end(now_secs: i64, playing: bool, duration_ms: u64, position_ms: u64) -> (r: Option<i64>)
    requires
        playing && duration_ms > 0 ==> now_secs + (if duration_ms >= position_ms {
            duration_ms - position_ms
        } else {
            0
        }) / 1000 <= i64::MAX,
    ensures
        playing && duration_ms > 0 ==> r == Some(
            (now_secs + (if duration_ms >= position_ms {
                duration_ms - position_ms
            } else {
                0
            }) / 1000) as i64,
        ),
        !(playing && duration_ms > 0) ==> r is None,
{
    if playing && duration_ms > 0 {
        let remaining = if duration_ms >= position_ms {
            duration_ms - position_ms
        } else {
            0
        };
        let secs: u64 = remaining / 1000;
        assert(secs <= u64::MAX / 1000);
        Some(now_secs + (secs as i64))
    } else {
        None
    }
}

/// `n` with two digits at least (`{:02}`).
pub open spec fn two_digits(n: nat) -> Seq<char> {
    if n < 10 {
        seq!['0'] + dec(n)
    } else {
        dec(n)
    }
}

/// A time in milliseconds as `m:ss`.
pub fn fmt_ms(ms: u64) -> (r: String)
    ensures
        r@ == dec(((ms / 1000) / 60) as nat) + ":"@ + two_digits(((ms / 1000) % 60) as nat),
{
    let total = ms / 1000;
    let mut v = decimal(total / 60);
    let mut colon = chars_of(":");
    v.append(&mut colon);
    let s = total % 60;
    if s < 10 {
        v.push('0');
    }
    let mut d = decimal(s);
    v.append(&mut d);
    proof {
        if s < 10 {
            assert(v@ =~= dec((total / 60) as nat) + ":"@ + (seq!['0'] + dec(s as nat)));
        }
    }
    string_of(v.as_slice())
}

/// The command line has no video id after the command.
#[derive(Debug, Clone, Copy, PartialEq, Eq, Structural)]
pub struct MissingVideoId;

/// The video id given after the command (an id or any YouTube URL).
pub fn video_id_arg(args: &[String]) -> (r: Result<String, MissingVideoId>)
    ensures
        args@.len() < 2 ==> r == Err::<String, MissingVideoId>(MissingVideoId),
        args@.len() >= 2 ==> (r matches Ok(id) && id@ == crate::links::video_id_of(args@[1]@)),
{
    if args.len() < 2 {
        return Err(MissingVideoId);
    }
    Ok(parse_video_id(args[1].as_str()))
}

/// What one client answered for the probe video.
#[derive(Debug, Clone)]
pub struct ClientHealth {
    /// The playability status, or `SIN_ESTADO`.
    pub status: String,
    /// Audio-only streams.
    pub audio: usize,
    /// Audio-only streams with a direct URL.
    pub direct_audio: usize,
    /// Itag, codec and kilobits per second of the stream that would play.
    pub best: Option<(u32, Option<String>, u64)>,
}

/// How many of the first `n` streams are audio, and how many of those have
/// a direct URL.
pub open spec fn counts(fs: Seq<Format>, n: int) -> (int, int)
    decreases n,
{
    if n <= 0 {
        (0, 0)
    } else {
        let (a, d) = counts(fs, n - 1);
        (
            if is_audio_spec(fs[n - 1]) {
                a + 1
            } else {
                a
            },
            if eligible(fs[n - 1]) {
                d + 1
            } else {
                d
            },
        )
    }
}

/// The health of a client from its answer: its status (`SIN_ESTADO` when
/// absent), how many audio streams and direct audio streams it gave, and the
/// stream it would play.
pub fn client_health(res: &PlayerResponse) -> (h: ClientHealth)
    ensures
        h.status@ == match res.playability_status {
            Some(p) => match p.status {
                Some(s) => s@,
                None => "SIN_ESTADO"@,
            },
            None => "SIN_ESTADO"@,
        },
        res.streaming_data is None ==> h.audio == 0 && h.direct_audio == 0 && h.best is None,
        res.streaming_data matches Some(sd) ==> {
            let fs = sd.adaptive_formats@;
            let i = choice(fs, audio_itag_preference());
            &&& (h.audio as int, h.direct_audio as int) == counts(fs, fs.len() as int)
            &&& i < 0 ==> h.best is None
            &&& i >= 0 ==> (h.best matches Some((itag, codec, kbps)) && itag == fs[i].itag && kbps == rate(
                fs[i],
            ) / 1000 && match fs[i].mime_type {
                Some(m) => match codec {
                    Some(c) => codec_spec(m@) == Some(c@),
                    None => codec_spec(m@) is None,
                },
                None => codec is None,
            })
        },
{
    let status = match &res.playability_status {
        Some(p) => match &p.status {
            Some(s) => s.clone(),
            None => "SIN_ESTADO".to_owned(),
        },
        None => "SIN_ESTADO".to_owned(),
    };
    let sd = match &res.streaming_data {
        Some(sd) => sd,
        None => {
            return ClientHealth { status, audio: 0, direct_audio: 0, best: None };
        },
    };
    let fs = &sd.adaptive_formats;
    let mut a: usize = 0;
    let mut d: usize = 0;
    let mut k: usize = 0;
    while k < fs.len()
        invariant
            0 <= k <= fs@.len(),
            (a as int, d as int) == counts(fs@, k as int),
            a <= k && d <= k,
        decreases fs@.len() - k,
    {
        if fs[k].is_audio() {
            a = a + 1;
            if fs[k].is_playable_directly() {
                d = d + 1;
            }
        }
        k = k + 1;
    }
    let prefs: [u32; 5] = [140, 251, 250, 249, 139];
    proof {
        assert(prefs@ =~= audio_itag_preference());
    }
    let best = match best_audio_index(fs.as_slice(), prefs.as_slice()) {
        Some(i) => {
            let f = &fs[i];
            let r: u64 = match f.bitrate {
                Some(b) => b,
                None => match f.average_bitrate {
                    Some(x) => x,
                    None => 0,
                },
            };
            Some((f.itag, f.codec(), r / 1000))
        },
        None => None,
    };
    ClientHealth { status, audio: a, direct_audio: d, best }
}

/// Bytes of the UTF-8 form of the first `j` characters of `s`.
pub open spec fn bytes_before(s: Seq<char>, j: int) -> int {
    encode_utf8(s.take(j)).len() as int
}

/// How many leading characters of `s`, from the `j`-th on, start before
/// byte `limit`.
pub open spec fn starting_before(s: Seq<char>, limit: int, j: int) -> int
    decreases s.len() - j,
{
    if 0 <= j < s.len() && bytes_before(s, j) < limit {
        starting_before(s, limit, j + 1)
    } else {
        j
    }
}

/// A text cut to `max` bytes for Discord: as it is when it fits; else the
/// characters that start before byte `max - 1`, then `…`, so that no
/// character is cut in two.
pub open spec fn truncated(s: Seq<char>, max: int) -> Seq<char> {
    if encode_utf8(s).len() <= max {
        s
    } else {
        s.take(starting_before(s, max - 1, 0)) + "\u{2026}"@
    }
}

proof fn lemma_encode_concat(a: Seq<char>, b: Seq<char>)
    ensures
        encode_utf8(a + b) == encode_utf8(a) + encode_utf8(b),
    decreases a.len(),
{
    if a.len() == 0 {
        assert(a + b =~= b);
        assert(encode_utf8(a) =~= Seq::<u8>::empty());
        assert(encode_utf8(a) + encode_utf8(b) =~= encode_utf8(b));
    } else {
        lemma_encode_concat(a.drop_first(), b);
        assert((a + b).drop_first() =~= a.drop_first() + b);
        assert((a + b)[0] == a[0]);
        assert(encode_utf8(a + b) =~= encode_utf8(a) + encode_utf8(b));
    }
}

/// The number of bytes of the UTF-8 form of `c` (`char::len_utf8`).
fn utf8_len(c: char) -> (n: usize)
    ensures
        n == encode_scalar(c as u32).len(),
{
    proof {
        vstd::utf8::char_is_scalar(c);
    }
    let v = c as u32;
    if v < 0x80 {
        1
    } else if v < 0x800 {
        2
    } else if v < 0x10000 {
        3
    } else {
        4
    }
}

/// A text cut to `max` bytes for Discord (see [`truncated`]).
pub fn truncate(s: &str, max: usize) -> (r: String)
    requires
        max > 0 || s@.len() == 0,
    ensures
        r@ == truncated(s@, max as int),
{
    let b = crate::codec::bytes_of(s);
    let blen = b.len();
    if blen <= max {
        return s.to_owned();
    }
    let cs = chars_of(s);
    let limit = max - 1;
    let mut j: usize = 0;
    let mut at: usize = 0;
    proof {
        assert(s@.take(0) =~= Seq::<char>::empty());
        assert(encode_utf8(s@.take(0)) =~= Seq::<u8>::empty());
        lemma_encode_concat(s@, Seq::<char>::empty());
    }
    while j < cs.len() && at < limit
        invariant
            cs@ == s@,
            0 <= j <= cs@.len(),
            at as int == bytes_before(s@, j as int),
            at <= blen,
            blen == b@.len(),
            b@.len() == encode_utf8(s@).len(),
            starting_before(s@, limit as int, 0) == starting_before(s@, limit as int, j as int),
        decreases cs@.len() - j,
    {
        let n = utf8_len(cs[j]);
        proof {
            assert(s@.take(j + 1) =~= s@.take(j as int) + seq![s@[j as int]]);
            lemma_encode_concat(s@.take(j as int), seq![s@[j as int]]);
            let one = seq![s@[j as int]];
            assert(one.drop_first() =~= Seq::<char>::empty());
            assert(encode_utf8(one.drop_first()) =~= Seq::<u8>::empty());
            assert(encode_utf8(one) == encode_scalar(one[0] as u32) + encode_utf8(one.drop_first()));
            assert(encode_utf8(one) =~= encode_scalar(s@[j as int] as u32));
            assert(bytes_before(s@, j + 1) == at + n);
            assert(s@ =~= s@.take(j + 1) + s@.skip(j + 1));
            lemma_encode_concat(s@.take(j + 1), s@.skip(j + 1));
            assert(encode_utf8(s@).len() == bytes_before(s@, j + 1) + encode_utf8(s@.skip(j + 1)).len());
            assert(at + n <= b@.len());
        }
        at = at + n;
        j = j + 1;
    }
    let kept = slice_vec(cs.as_slice(), 0, j);
    let mut out = kept;
    out.push('\u{2026}');
    proof {
        reveal_strlit("\u{2026}");
        assert(out@ =~= s@.take(j as int) + "\u{2026}"@);
    }
    string_of(out.as_slice())
}

} // verus!
