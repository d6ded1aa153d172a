//! The choice of the audio stream to play among those a video offers.
use crate::model::{is_audio_spec, Format};
use vstd::prelude::*;

verus! {

/// A stream this player can use: audio only, with a direct URL.
pub open spec fn eligible(f: Format) -> bool {
    is_audio_spec(f) && f.url is Some
}

/// The rate a stream is ranked by when no preferred itag is there: its
/// bitrate, else its average bitrate, else 0.
pub open spec fn rate(f: Format) -> u64 {
    match f.bitrate {
        Some(b) => b,
        None => match f.average_bitrate {
            Some(a) => a,
            None => 0,
        },
    }
}

/// First usable stream with itag `itag`, from position `k`; -1 if none.
pub open spec fn with_itag(fs: Seq<Format>, itag: u32, k: int) -> int
    decreases fs.len() - k,
{
    if k < 0 || k >= fs.len() {
        -1
    } else if fs[k].itag == itag && eligible(fs[k]) {
        k
    } else {
        with_itag(fs, itag, k + 1)
    }
}

/// The stream of the first preferred itag (from position `p` of the
/// preference) that some usable stream has.
pub open spec fn by_preference(fs: Seq<Format>, prefs: Seq<u32>, p: int) -> int
    decreases prefs.len() - p,
{
    if p < 0 || p >= prefs.len() {
        -1
    } else if with_itag(fs, prefs[p], 0) >= 0 {
        with_itag(fs, prefs[p], 0)
    } else {
        by_preference(fs, prefs, p + 1)
    }
}

/// Among the first `n` streams, the usable one of highest rate, the last
/// one among equals (`Iterator::max_by_key`); -1 if none is usable.
pub open spec fn highest_rate(fs: Seq<Format>, n: int) -> int
    decreases n,
{
    if n <= 0 {
        -1
    } else {
        let b = highest_rate(fs, n - 1);
        if eligible(fs[n - 1]) && (b < 0 || rate(fs[n - 1]) >= rate(fs[b])) {
            n - 1
        } else {
            b
        }
    }
}

/// The stream chosen: the first preferred itag that is usable, else the
/// usable stream of highest rate.
pub open spec fn choice(fs: Seq<Format>, prefs: Seq<u32>) -> int {
    let p = by_preference(fs, prefs, 0);
    if p >= 0 {
        p
    } else {
        highest_rate(fs, fs.len() as int)
    }
}

proof fn lemma_with_itag(fs: Seq<Format>, itag: u32, k: int)
    requires
        0 <= k,
    ensures
        with_itag(fs, itag, k) == -1 || (k <= with_itag(fs, itag, k) < fs.len()),
    decreases fs.len() - k,
{
    if k < fs.len() && !(fs[k].itag == itag && eligible(fs[k])) {
        lemma_with_itag(fs, itag, k + 1);
    }
}

proof fn lemma_by_preference(fs: Seq<Format>, prefs: Seq<u32>, p: int)
    requires
        0 <= p,
    ensures
        by_preference(fs, prefs, p) == -1 || (0 <= by_preference(fs, prefs, p) < fs.len()),
    decreases prefs.len() - p,
{
    if p < prefs.len() {
        lemma_with_itag(fs, prefs[p], 0);
        lemma_by_preference(fs, prefs, p + 1);
    }
}

proof fn lemma_highest_rate(fs: Seq<Format>, n: int)
    requires
        0 <= n <= fs.len(),
    ensures
        highest_rate(fs, n) == -1 || (0 <= highest_rate(fs, n) < n),
    decreases n,
{
    if n > 0 {
        lemma_highest_rate(fs, n - 1);
    }
}

/// The stream chosen is a usable one.
pub proof fn lemma_choice_usable(fs: Seq<Format>, prefs: Seq<u32>)
    ensures
        choice(fs, prefs) >= 0 ==> choice(fs, prefs) < fs.len() && eligible(fs[choice(fs, prefs)]),
{
    lemma_by_preference_usable(fs, prefs, 0);
    lemma_highest_rate_usable(fs, fs.len() as int);
    lemma_highest_rate(fs, fs.len() as int);
}

proof fn lemma_with_itag_usable(fs: Seq<Format>, itag: u32, k: int)
    requires
        0 <= k,
    ensures
        with_itag(fs, itag, k) >= 0 ==> with_itag(fs, itag, k) < fs.len() && eligible(
            fs[with_itag(fs, itag, k)],
        ),
    decreases fs.len() - k,
{
    if k < fs.len() && !(fs[k].itag == itag && eligible(fs[k])) {
        lemma_with_itag_usable(fs, itag, k + 1);
    }
}

proof fn lemma_by_preference_usable(fs: Seq<Format>, prefs: Seq<u32>, p: int)
    requires
        0 <= p,
    ensures
        by_preference(fs, prefs, p) >= 0 ==> by_preference(fs, prefs, p) < fs.len() && eligible(
            fs[by_preference(fs, prefs, p)],
        ),
    decreases prefs.len() - p,
{
    if p < prefs.len() {
        lemma_with_itag_usable(fs, prefs[p], 0);
        lemma_by_preference_usable(fs, prefs, p + 1);
    }
}

proof fn lemma_highest_rate_usable(fs: Seq<Format>, n: int)
    requires
        0 <= n <= fs.len(),
    ensures
        highest_rate(fs, n) >= 0 ==> eligible(fs[highest_rate(fs, n)]),
    decreases n,
{
    if n > 0 {
        lemma_highest_rate_usable(fs, n - 1);
    }
}

fn rate_of(f: &Format) -> (r: u64)
    ensures
        r == rate(*f),
{
    match f.bitrate {
        Some(b) => b,
        None => match f.average_bitrate {
            Some(a) => a,
            None => 0,
        },
    }
}

/// The position of the stream to play: the first usable one of the first
/// preferred itag that has one, else the usable one of highest rate.
pub fn best_audio_index(formats: &[Format], preference: &[u32]) -> (r: Option<usize>)
    ensures
        match r {
            Some(i) => i as int == choice(formats@, preference@) && i < formats@.len(),
            None => choice(formats@, preference@) == -1,
        },
{
    let mut p: usize = 0;
    while p < preference.len()
        invariant
            0 <= p <= preference@.len(),
            by_preference(formats@, preference@, 0) == by_preference(formats@, preference@, p as int),
        decreases preference@.len() - p,
    {
        let itag = preference[p];
        let mut k: usize = 0;
        while k < formats.len()
            invariant
                0 <= k <= formats@.len(),
                itag == preference@[p as int],
                p < preference@.len(),
                with_itag(formats@, itag, 0) == with_itag(formats@, itag, k as int),
                by_preference(formats@, preference@, 0) == by_preference(formats@, preference@, p as int),
            decreases formats@.len() - k,
        {
            let f = &formats[k];
            if f.itag == itag && f.is_audio() && f.is_playable_directly() {
                return Some(k);
            }
            k = k + 1;
        }
        p = p + 1;
    }
    let mut best: Option<usize> = None;
    let mut k: usize = 0;
    while k < formats.len()
        invariant
            0 <= k <= formats@.len(),
            by_preference(formats@, preference@, 0) == -1,
            match best {
                Some(b) => b as int == highest_rate(formats@, k as int) && b < k,
                None => highest_rate(formats@, k as int) == -1,
            },
        decreases formats@.len() - k,
    {
        let f = &formats[k];
        if f.is_audio() && f.is_playable_directly() {
            match best {
                Some(b) => {
                    if rate_of(f) >= rate_of(&formats[b]) {
                        best = Some(k);
                    }
                },
                None => {
                    best = Some(k);
                },
            }
        }
        k = k + 1;
    }
    best
}

/// The stream to play among `formats`, with an explicit order of itags.
pub fn best_audio_with<'a>(formats: &'a [Format], preference: &[u32]) -> (r: Option<&'a Format>)
    ensures
        choice(formats@, preference@) >= 0 ==> (r matches Some(f) && *f == formats@[choice(
            formats@,
            preference@,
        )]),
        choice(formats@, preference@) < 0 ==> r is None,
{
    match best_audio_index(formats, preference) {
        Some(i) => Some(&formats[i]),
        None => None,
    }
}

/// The order of preference of audio itags, best first. 140 (AAC-LC 128k)
/// leads because it decodes natively, where Opus (251) needs libopus; the
/// audible difference is negligible.
pub open spec fn audio_itag_preference() -> Seq<u32> {
    seq![140u32, 251, 250, 249, 139]
}

/// The stream to play among `formats`, by [`audio_itag_preference`].
pub fn best_audio<'a>(formats: &'a [Format]) -> (r: Option<&'a Format>)
    ensures
        choice(formats@, audio_itag_preference()) >= 0 ==> (r matches Some(f) && *f
            == formats@[choice(formats@, audio_itag_preference())]),
        choice(formats@, audio_itag_preference()) < 0 ==> r is None,
{
    let prefs: [u32; 5] = [140, 251, 250, 249, 139];
    proof {
        assert(prefs@ =~= audio_itag_preference());
    }
    best_audio_with(formats, prefs.as_slice())
}

} // verus!
