//! The decisions of the on-disk track cache: where a track is kept, how its
//! bytes are asked for range by range, when a download is over, where a
//! reader lands after a seek, and which tracks go when the cache is full.
use crate::links::{param, url_param};
use crate::text::{chars_of, parse_u64, split, split_on, string_of, u64_of, views};
use vstd::prelude::*;

verus! {

/// Size of each range request: 256 KiB. Minted URLs carry `cps=256` and
/// refuse ranges of 1 MiB or more.
pub const CHUNK: u64 = 262_144;

/// From this offset on, a `403` is the wall of the poToken limit: most
/// content is served up to 1 MiB without an attestation token.
pub const POTOKEN_WALL: u64 = 1_048_576;

/// Attempts per range before giving it up.
pub const RETRIES: u32 = 4;

/// Default limit of the cache on disk: 3 GiB, some 850 tracks.
pub const DEFAULT_LIMIT: u64 = 3_221_225_472;

/// The decimal digit of `d`.
pub open spec fn digit_char(d: nat) -> char {
    (d + 0x30) as char
}

/// `n` in decimal.
pub open spec fn dec(n: nat) -> Seq<char>
    decreases n,
{
    if n < 10 {
        seq![digit_char(n)]
    } else {
        dec(n / 10).push(digit_char(n % 10))
    }
}

/// `n` in decimal, as characters.
pub fn decimal(n: u64) -> (r: Vec<char>)
    ensures
        r@ == dec(n as nat),
    decreases n,
{
    let d: u8 = (n % 10) as u8;
    let c: char = (d + 0x30) as char;
    if n < 10 {
        vec![c]
    } else {
        let mut v = decimal(n / 10);
        v.push(c);
        v
    }
}

proof fn lemma_dec_digits(n: nat)
    ensures
        dec(n).len() >= 1,
        n >= 10 ==> dec(n).len() >= 2,
        forall|k: int| 0 <= k < dec(n).len() ==> '0' <= #[trigger] dec(n)[k] <= '9',
    decreases n,
{
    if n >= 10 {
        lemma_dec_digits(n / 10);
        assert forall|k: int| 0 <= k < dec(n).len() implies '0' <= #[trigger] dec(n)[k] <= '9' by {
            if k < dec(n / 10).len() {
                assert(dec(n)[k] == dec(n / 10)[k]);
            }
        }
    }
}

proof fn lemma_dec_injective(a: nat, b: nat)
    requires
        dec(a) == dec(b),
    ensures
        a == b,
    decreases a,
{
    lemma_dec_digits(a);
    lemma_dec_digits(b);
    if a >= 10 && b >= 10 {
        assert(dec(a).drop_last() =~= dec(a / 10));
        assert(dec(b).drop_last() =~= dec(b / 10));
        lemma_dec_injective(a / 10, b / 10);
        assert(dec(a).last() == digit_char(a % 10));
        assert(a == (a / 10) * 10 + a % 10);
        assert(b == (b / 10) * 10 + b % 10);
    } else if a < 10 && b < 10 {
        assert(dec(a)[0] == digit_char(a));
    } else {
        assert(dec(a).len() != dec(b).len());
    }
}

/// Two tracks never share a file in the cache: the name of the file gives
/// back the id and the itag it was made from (an itag is written without a
/// `-`, so the last `-` of the name is the one put before it).
pub proof fn lemma_track_file_name_injective(a: Seq<char>, i: nat, b: Seq<char>, j: nat)
    requires
        a + "-"@ + dec(i) + ".m4a"@ == b + "-"@ + dec(j) + ".m4a"@,
    ensures
        a == b,
        i == j,
{
    reveal_strlit("-");
    reveal_strlit(".m4a");
    let x = a + "-"@ + dec(i);
    let y = b + "-"@ + dec(j);
    let l = a + "-"@ + dec(i) + ".m4a"@;
    assert(x =~= l.subrange(0, l.len() - 4));
    assert(y =~= l.subrange(0, l.len() - 4));
    assert(x == y);
    lemma_dec_digits(i);
    lemma_dec_digits(j);
    let di = dec(i).len() as int;
    let dj = dec(j).len() as int;
    if di < dj {
        assert(x[x.len() - di - 1] == '-');
        assert(y[y.len() - di - 1] == dec(j)[dj - di - 1]);
    } else if dj < di {
        assert(y[y.len() - dj - 1] == '-');
        assert(x[x.len() - dj - 1] == dec(i)[di - dj - 1]);
    } else {
        assert(dec(i) =~= x.subrange(x.len() - di, x.len() as int));
        assert(dec(j) =~= y.subrange(y.len() - dj, y.len() as int));
        lemma_dec_injective(i, j);
        assert(a =~= x.subrange(0, a.len() as int));
        assert(b =~= y.subrange(0, b.len() as int));
    }
}

/// Name of a track's file in the cache: `<id>-<itag>.m4a`.
pub fn track_file_name(video_id: &str, itag: u32) -> (r: String)
    ensures
        r@ == video_id@ + "-"@ + dec(itag as nat) + ".m4a"@,
{
    let mut v = chars_of(video_id);
    let mut dash = chars_of("-");
    let mut num = decimal(itag as u64);
    let mut ext = chars_of(".m4a");
    v.append(&mut dash);
    v.append(&mut num);
    v.append(&mut ext);
    string_of(v.as_slice())
}

/// The URL of one range: the range goes as a query parameter (with a
/// `Range:` header googlevideo answers `403`), with the request counter `rn`.
pub fn range_url(url: &str, offset: u64, rn: u64) -> (r: String)
    requires
        offset + CHUNK - 1 <= u64::MAX,
    ensures
        r@ == url@ + "&range="@ + dec(offset as nat) + "-"@ + dec((offset + CHUNK - 1) as nat) + "&rn="@
            + dec(rn as nat),
{
    let mut v = chars_of(url);
    let mut a = chars_of("&range=");
    let mut b = decimal(offset);
    let mut c = chars_of("-");
    let mut d = decimal(offset + (CHUNK - 1));
    let mut e = chars_of("&rn=");
    let mut f = decimal(rn);
    v.append(&mut a);
    v.append(&mut b);
    v.append(&mut c);
    v.append(&mut d);
    v.append(&mut e);
    v.append(&mut f);
    string_of(v.as_slice())
}

/// The size a URL declares in its `clen` parameter, or 0.
pub open spec fn declared_size(url: Seq<char>) -> u64 {
    match url_param(url, "clen"@) {
        Some(v) => match u64_of(v) {
            Some(n) => n,
            None => 0,
        },
        None => 0,
    }
}

/// The size a URL declares in its `clen` parameter, or 0.
pub fn declared(url: &str) -> (n: u64)
    ensures
        n == declared_size(url@),
{
    match param(url, "clen") {
        Some(v) => {
            let c = chars_of(v.as_str());
            match parse_u64(c.as_slice()) {
                Some(n) => n,
                None => 0,
            }
        },
        None => 0,
    }
}

/// What to do with the answer to attempt `attempt` (from 0) of a range.
#[derive(Debug, Clone, Copy, PartialEq, Eq, Structural)]
pub enum RangeAttempt {
    /// Keep this answer.
    Take,
    /// Wait so many milliseconds and ask again.
    Retry(u64),
}

/// The wait after failed range attempt `k`: 400 ms, doubled each time.
pub open spec fn range_backoff(k: nat) -> nat
    decreases k,
{
    if k == 0 {
        400
    } else {
        2 * range_backoff((k - 1) as nat)
    }
}

/// The answer to a range is kept when it is a success or a `416`, or when
/// it was the last attempt; otherwise the range is asked again after a wait
/// (a freshly minted URL refuses the first instants).
pub fn range_attempt(attempt: u32, status: u16) -> (r: RangeAttempt)
    requires
        attempt < RETRIES,
    ensures
        (200 <= status <= 299 || status == 416 || attempt + 1 == RETRIES) ==> r == RangeAttempt::Take,
        !(200 <= status <= 299 || status == 416 || attempt + 1 == RETRIES) ==> r == RangeAttempt::Retry(
            range_backoff(attempt as nat) as u64,
        ),
{
    if (200 <= status && status <= 299) || status == 416 || attempt + 1 == RETRIES {
        return RangeAttempt::Take;
    }
    let mut ms: u64 = 400;
    let mut k: u32 = 0;
    while k < attempt
        invariant
            k <= attempt < RETRIES,
            ms == range_backoff(k as nat),
            k == 0 ==> ms == 400,
            k == 1 ==> ms == 800,
            k == 2 ==> ms == 1600,
            k == 3 ==> ms == 3200,
        decreases attempt - k,
    {
        ms = ms * 2;
        k = k + 1;
    }
    RangeAttempt::Retry(ms)
}

/// What the answer kept for a range means.
#[derive(Debug, Clone, Copy, PartialEq, Eq, Structural)]
pub enum RangeVerdict {
    /// `416`: past the end, the download is over.
    Finished,
    /// A success: the bytes are written.
    Write,
    /// `403` from 1 MiB on: the poToken limit, not a network failure.
    PoTokenWall,
    /// Any other refusal.
    Refused,
}

/// What the answer kept for the range at `offset` means.
pub fn range_verdict(status: u16, offset: u64) -> (v: RangeVerdict)
    ensures
        status == 416 ==> v == RangeVerdict::Finished,
        status != 416 && 200 <= status <= 299 ==> v == RangeVerdict::Write,
        status == 403 && offset >= POTOKEN_WALL ==> v == RangeVerdict::PoTokenWall,
        status != 416 && !(200 <= status <= 299) && !(status == 403 && offset >= POTOKEN_WALL) ==> v
            == RangeVerdict::Refused,
{
    if status == 416 {
        RangeVerdict::Finished
    } else if 200 <= status && status <= 299 {
        RangeVerdict::Write
    } else if status == 403 && offset >= POTOKEN_WALL {
        RangeVerdict::PoTokenWall
    } else {
        RangeVerdict::Refused
    }
}

/// After a chunk of `n` bytes was written at `offset`, with `total` known
/// (0 when not): the new offset, and whether to ask for the next range. An
/// empty chunk, a short chunk, or reaching the total ends the download.
pub fn after_chunk(n: u64, offset: u64, total: u64) -> (r: (u64, bool))
    requires
        offset + n <= u64::MAX,
    ensures
        n == 0 ==> r == (offset, false),
        n > 0 ==> r.0 == offset + n,
        n > 0 ==> (r.1 <==> (n >= CHUNK && !(total > 0 && offset + n >= total))),
{
    if n == 0 {
        return (offset, false);
    }
    let next = offset + n;
    if n < CHUNK {
        return (next, false);
    }
    if total > 0 && next >= total {
        return (next, false);
    }
    (next, true)
}

/// The total of a `Content-Range` header (`bytes 0-1048575/3448192`): the
/// piece after the first `/`, when it is a decimal number.
pub open spec fn range_total(header: Seq<char>) -> Option<u64> {
    let parts = split_on(header, "/"@);
    if parts.len() > 1 {
        u64_of(parts[1])
    } else {
        None
    }
}

/// The total of a `Content-Range` header (see [`range_total`]).
pub fn parse_content_range_total(header: &str) -> (r: Option<u64>)
    ensures
        r == range_total(header@),
{
    let h = chars_of(header);
    let slash = chars_of("/");
    let parts = split(h.as_slice(), slash.as_slice());
    if parts.len() > 1 {
        proof {
            assert(views(parts@)[1] == parts@[1]@);
        }
        parse_u64(parts[1].as_slice())
    } else {
        None
    }
}

/// Where a seek goes.
#[derive(Debug, Clone, Copy, PartialEq, Eq, Structural)]
pub enum SeekTo {
    Start(u64),
    Current(i64),
    End(i64),
}

/// `base + d`, held inside `0..=u64::MAX` (`u64::saturating_add_signed`).
pub open spec fn sat_add(base: u64, d: i64) -> u64 {
    if base + d < 0 {
        0
    } else if base + d > u64::MAX {
        u64::MAX
    } else {
        (base + d) as u64
    }
}

fn saturating_add_signed(base: u64, d: i64) -> (r: u64)
    ensures
        r == sat_add(base, d),
{
    if d >= 0 {
        let u: u64 = d as u64;
        if base > u64::MAX - u {
            u64::MAX
        } else {
            base + u
        }
    } else {
        let u: u64 = if d == i64::MIN {
            0x8000_0000_0000_0000
        } else {
            (-d) as u64
        };
        if base < u {
            0
        } else {
            base - u
        }
    }
}

/// The position of a reader after a seek, from position `pos` in a track of
/// `total` bytes (0 if not yet known).
pub fn seek_position(pos: u64, total: u64, to: SeekTo) -> (r: u64)
    ensures
        match to {
            SeekTo::Start(n) => r == n,
            SeekTo::Current(d) => r == sat_add(pos, d),
            SeekTo::End(d) => r == sat_add(total, d),
        },
{
    match to {
        SeekTo::Start(n) => n,
        SeekTo::Current(d) => saturating_add_signed(pos, d),
        SeekTo::End(d) => saturating_add_signed(total, d),
    }
}

/// How many bytes a read at `pos` may take into a buffer of `want` bytes,
/// when `downloaded` are on disk: what is there, no more; 0 is the end.
pub fn readable(pos: u64, downloaded: u64, want: usize) -> (n: usize)
    ensures
        downloaded <= pos ==> n == 0,
        downloaded > pos ==> n as int == if want < downloaded - pos {
            want as int
        } else {
            downloaded - pos
        },
{
    if downloaded <= pos {
        return 0;
    }
    let available: u64 = downloaded - pos;
    if (want as u64) < available {
        want
    } else {
        available as usize
    }
}

/// One look at a download that is awaited.
#[derive(Debug, Clone, Copy, PartialEq, Eq, Structural)]
pub enum WaitStep {
    /// The download failed.
    Failed,
    /// Enough bytes are there, or the download is over.
    Ready,
    /// The time allowed is spent.
    TimedOut,
    /// Look again in a while.
    Again,
}

/// Waiting for `bytes` bytes: a failure is reported first, then enough
/// bytes (or the end of the download), then the time running out.
pub fn wait_step(failed: bool, downloaded: u64, bytes: u64, done: bool, expired: bool) -> (w: WaitStep)
    ensures
        failed ==> w == WaitStep::Failed,
        !failed && (downloaded >= bytes || done) ==> w == WaitStep::Ready,
        !failed && !(downloaded >= bytes || done) && expired ==> w == WaitStep::TimedOut,
        !failed && !(downloaded >= bytes || done) && !expired ==> w == WaitStep::Again,
{
    if failed {
        WaitStep::Failed
    } else if downloaded >= bytes || done {
        WaitStep::Ready
    } else if expired {
        WaitStep::TimedOut
    } else {
        WaitStep::Again
    }
}

/// A file of the cache, as the pruning sees it.
#[derive(Debug, Clone, Copy, PartialEq, Eq, Structural)]
pub struct CachedFile {
    /// Size in bytes.
    pub len: u64,
    /// Last modification, in nanoseconds since the epoch: the cache's clock
    /// of use.
    pub modified: u128,
    /// The track playing or being preloaded: never removed.
    pub protected: bool,
}

/// The sum of the sizes of some files.
pub open spec fn total_len(fs: Seq<CachedFile>) -> int
    decreases fs.len(),
{
    if fs.len() == 0 {
        0
    } else {
        total_len(fs.drop_last()) + fs.last().len
    }
}

/// `order` is an ordering of the positions `0..n`: each once.
pub open spec fn is_ordering(order: Seq<usize>, n: int) -> bool {
    &&& order.len() == n
    &&& forall|i: int| 0 <= i < n ==> (#[trigger] order[i]) < n
    &&& forall|i: int, j: int| 0 <= i < j < n ==> order[i] != order[j]
}

/// `order` puts the files oldest first, and files of equal age in the order
/// they came (a stable sort by age).
pub open spec fn oldest_first(fs: Seq<CachedFile>, order: Seq<usize>) -> bool {
    &&& is_ordering(order, fs.len() as int)
    &&& forall|i: int, j: int|
        0 <= i < j < order.len() ==> fs[order[i] as int].modified < fs[order[j] as int].modified || (
        fs[order[i] as int].modified == fs[order[j] as int].modified && order[i] < order[j])
}

/// The files a pruning removes from position `k` of the visiting order on,
/// with `held` bytes in the cache, when every removal succeeds: those not
/// protected, in the visiting order, while the cache is over `limit`.
pub open spec fn victims(fs: Seq<CachedFile>, order: Seq<usize>, k: int, held: int, limit: int) -> Seq<usize>
    decreases order.len() - k,
{
    if k < 0 || k >= order.len() || held <= limit {
        seq![]
    } else if fs[order[k] as int].protected {
        victims(fs, order, k + 1, held, limit)
    } else {
        let len = fs[order[k] as int].len;
        seq![order[k]] + victims(fs, order, k + 1, if held >= len { held - len } else { 0 }, limit)
    }
}

/// The pruning of the cache, one file at a time: the files are visited
/// oldest first, and while the cache is over its limit each one that is not
/// protected is removed. The files removed are reported back, so that what
/// could not be removed does not count.
pub struct Prune {
    files: Vec<CachedFile>,
    order: Vec<usize>,
    next: usize,
    total: u64,
    limit: u64,
    removed: u64,
}

impl Prune {
    pub closed spec fn files_view(&self) -> Seq<CachedFile> {
        self.files@
    }

    pub closed spec fn order_view(&self) -> Seq<usize> {
        self.order@
    }

    /// Position in the visiting order of the next file to look at.
    pub closed spec fn cursor(&self) -> int {
        self.next as int
    }

    /// Bytes the cache holds, as far as the pruning knows.
    pub closed spec fn held(&self) -> u64 {
        self.total
    }

    pub closed spec fn limit_view(&self) -> u64 {
        self.limit
    }

    /// Files removed so far.
    pub closed spec fn removed_count(&self) -> u64 {
        self.removed
    }

    /// What is left to remove when every removal succeeds (see [`victims`]).
    pub open spec fn plan(&self) -> Seq<usize> {
        victims(
            self.files_view(),
            self.order_view(),
            self.cursor(),
            self.held() as int,
            self.limit_view() as int,
        )
    }

    pub closed spec fn wf(&self) -> bool {
        &&& oldest_first(self.files@, self.order@)
        &&& self.next <= self.order@.len()
    }

    /// Starts a pruning down to `limit` bytes (0 is no limit). Nothing is
    /// to be done when there is no limit or the files fit.
    pub fn start(limit: u64, files: Vec<CachedFile>) -> (p: Prune)
        requires
            total_len(files@) <= u64::MAX,
        ensures
            p.wf(),
            p.files_view() == files@,
            oldest_first(files@, p.order_view()),
            p.held() == total_len(files@),
            p.limit_view() == limit,
            p.removed_count() == 0,
            p.cursor() == (if limit == 0 || total_len(files@) <= limit {
                files@.len() as int
            } else {
                0
            }),
    {
        let total = sum_len(&files);
        let order = order_by_age(&files);
        let n = files.len();
        let next = if limit == 0 || total <= limit {
            n
        } else {
            0
        };
        Prune { files, order, next, total, limit, removed: 0 }
    }

    /// The next file to remove, with its position among the files given;
    /// `None` when the cache fits (or every file was looked at). Protected
    /// files are passed over.
    pub fn next_victim(&mut self) -> (r: Option<usize>)
        requires
            old(self).wf(),
        ensures
            final(self).wf(),
            final(self).files_view() == old(self).files_view(),
            final(self).order_view() == old(self).order_view(),
            final(self).held() == old(self).held(),
            final(self).limit_view() == old(self).limit_view(),
            final(self).removed_count() == old(self).removed_count(),
            old(self).held() <= old(self).limit_view() ==> r is None,
            r matches Some(i) ==> {
                &&& old(self).cursor() <= final(self).cursor() - 1
                &&& old(self).order_view()[final(self).cursor() - 1] == i
                &&& i < old(self).files_view().len()
                &&& !old(self).files_view()[i as int].protected
                &&& forall|k: int|
                    old(self).cursor() <= k < final(self).cursor() - 1 ==> old(self).files_view()[old(
                        self,
                    ).order_view()[k] as int].protected
            },
            r is None ==> forall|k: int|
                old(self).cursor() <= k < old(self).order_view().len() && old(self).held() > old(
                    self,
                ).limit_view() ==> old(self).files_view()[old(self).order_view()[k] as int].protected,
            r == (if old(self).plan().len() > 0 {
                Some(old(self).plan()[0])
            } else {
                None::<usize>
            }),
            r matches Some(i) ==> victims(
                final(self).files_view(),
                final(self).order_view(),
                final(self).cursor(),
                if final(self).held() >= final(self).files_view()[i as int].len {
                    final(self).held() - final(self).files_view()[i as int].len
                } else {
                    0
                },
                final(self).limit_view() as int,
            ) == old(self).plan().drop_first(),
            r is None ==> final(self).plan().len() == 0,
    {
        if self.total <= self.limit {
            return None;
        }
        proof {
            self.lemma_order_in_range();
        }
        let ghost start = self.next;
        let mut k = self.next;
        while k < self.order.len()
            invariant
                oldest_first(self.files@, self.order@),
                start <= k <= self.order@.len(),
                start == self.next,
                forall|j: int| start <= j < k ==> self.files@[self.order@[j] as int].protected,
                self.files@ == old(self).files@,
                self.order@ == old(self).order@,
                self.total == old(self).total,
                self.limit == old(self).limit,
                self.removed == old(self).removed,
                self.next == old(self).next,
                self.total > self.limit,
                forall|j: int| 0 <= j < self.order@.len() ==> #[trigger] self.order@[j] < self.files@.len(),
                victims(self.files@, self.order@, k as int, self.total as int, self.limit as int)
                    == victims(self.files@, self.order@, start as int, self.total as int, self.limit as int),
            decreases self.order@.len() - k,
        {
            let i = self.order[k];
            k = k + 1;
            if !self.files[i].protected {
                self.next = k;
                return Some(i);
            }
        }
        self.next = k;
        None
    }

    proof fn lemma_order_in_range(&self)
        requires
            self.wf(),
        ensures
            forall|j: int| 0 <= j < self.order@.len() ==> #[trigger] self.order@[j] < self.files@.len(),
    {
    }

    /// Reports that the file at position `i` was removed: its bytes no
    /// longer count.
    pub fn removed(&mut self, i: usize)
        requires
            i < old(self).files_view().len(),
        ensures
            old(self).wf() ==> final(self).wf(),
            final(self).files_view() == old(self).files_view(),
            final(self).order_view() == old(self).order_view(),
            final(self).cursor() == old(self).cursor(),
            final(self).limit_view() == old(self).limit_view(),
            final(self).held() == (if old(self).held() >= old(self).files_view()[i as int].len {
                old(self).held() - old(self).files_view()[i as int].len
            } else {
                0
            }),
            final(self).removed_count() == (if old(self).removed_count() < u64::MAX {
                old(self).removed_count() + 1
            } else {
                u64::MAX as int
            }),
    {
        let len = self.files[i].len;
        self.total = if self.total >= len {
            self.total - len
        } else {
            0
        };
        if self.removed < u64::MAX {
            self.removed = self.removed + 1;
        }
    }

    /// Files removed.
    pub fn count(&self) -> (n: u64)
        ensures
            n == self.removed_count(),
    {
        self.removed
    }

    /// Bytes the cache holds, as far as the pruning knows.
    pub fn remaining(&self) -> (n: u64)
        ensures
            n == self.held(),
    {
        self.total
    }
}

/// The sum of the sizes of some files.
fn sum_len(files: &Vec<CachedFile>) -> (t: u64)
    requires
        total_len(files@) <= u64::MAX,
    ensures
        t == total_len(files@),
{
    let mut t: u64 = 0;
    let mut i: usize = 0;
    while i < files.len()
        invariant
            0 <= i <= files@.len(),
            t == total_len(files@.take(i as int)),
            total_len(files@) <= u64::MAX,
        decreases files@.len() - i,
    {
        proof {
            assert(files@.take(i + 1).drop_last() =~= files@.take(i as int));
            lemma_total_len_prefix(files@, i + 1);
        }
        t = t + files[i].len;
        i = i + 1;
    }
    proof {
        assert(files@.take(files@.len() as int) =~= files@);
    }
    t
}

proof fn lemma_total_len_prefix(fs: Seq<CachedFile>, n: int)
    requires
        0 <= n <= fs.len(),
    ensures
        total_len(fs.take(n)) <= total_len(fs),
    decreases fs.len() - n,
{
    if n < fs.len() {
        lemma_total_len_prefix(fs, n + 1);
        assert(fs.take(n + 1).drop_last() =~= fs.take(n));
    } else {
        assert(fs.take(n) =~= fs);
    }
}

/// The positions of the files, oldest first, equal ages in the order they
/// came (insertion sort, stable).
fn order_by_age(files: &Vec<CachedFile>) -> (order: Vec<usize>)
    ensures
        oldest_first(files@, order@),
{
    let mut order: Vec<usize> = Vec::new();
    let mut i: usize = 0;
    while i < files.len()
        invariant
            0 <= i <= files@.len(),
            order@.len() == i,
            forall|k: int| 0 <= k < i ==> (#[trigger] order@[k]) < i,
            forall|a: int, b: int| 0 <= a < b < i ==> order@[a] != order@[b],
            forall|a: int, b: int|
                0 <= a < b < order@.len() ==> files@[order@[a] as int].modified < files@[order@[b] as int].modified
                    || (files@[order@[a] as int].modified == files@[order@[b] as int].modified && order@[a]
                    < order@[b]),
        decreases files@.len() - i,
    {
        let m = files[i].modified;
        let mut j: usize = order.len();
        while j > 0 && files[order[j - 1]].modified > m
            invariant
                0 <= j <= order@.len(),
                order@.len() == i,
                i < files@.len(),
                m == files@[i as int].modified,
                forall|k: int| 0 <= k < i ==> (#[trigger] order@[k]) < i,
                forall|k: int| j <= k < order@.len() ==> files@[(#[trigger] order@[k]) as int].modified > m,
            decreases j,
        {
            j = j - 1;
        }
        let ghost before = order@;
        order.insert(j, i);
        proof {
            assert forall|k: int| 0 <= k < i + 1 implies (#[trigger] order@[k]) < i + 1 by {
                if k < j {
                    assert(order@[k] == before[k]);
                } else if k > j {
                    assert(order@[k] == before[k - 1]);
                }
            }
            assert forall|a: int, b: int| 0 <= a < b < i + 1 implies order@[a] != order@[b] by {
                if a < j && b < j {
                    assert(order@[a] == before[a] && order@[b] == before[b]);
                } else if a < j && b == j {
                    assert(order@[a] == before[a]);
                } else if a < j && b > j {
                    assert(order@[a] == before[a] && order@[b] == before[b - 1]);
                } else if a == j {
                    assert(order@[b] == before[b - 1]);
                } else {
                    assert(order@[a] == before[a - 1] && order@[b] == before[b - 1]);
                }
            }
            assert forall|a: int, b: int| 0 <= a < b < order@.len() implies files@[order@[a] as int].modified
                < files@[order@[b] as int].modified || (files@[order@[a] as int].modified
                == files@[order@[b] as int].modified && order@[a] < order@[b]) by {
                if a < j && b < j {
                    assert(order@[a] == before[a] && order@[b] == before[b]);
                } else if a < j && b == j {
                    assert(order@[a] == before[a]);
                    assert(before[a] < i);
                    if j > 0 {
                        assert(files@[before[j - 1] as int].modified <= m);
                        if a < j - 1 {
                            assert(files@[before[a] as int].modified <= files@[before[j - 1] as int].modified);
                        }
                    }
                } else if a < j && b > j {
                    assert(order@[a] == before[a] && order@[b] == before[b - 1]);
                } else if a == j {
                    assert(order@[b] == before[b - 1]);
                    assert(files@[before[b - 1] as int].modified > m);
                } else {
                    assert(order@[a] == before[a - 1] && order@[b] == before[b - 1]);
                }
            }
        }
        i = i + 1;
    }
    order
}

} // verus!
