//! The play queue: items, the current position, repeat and shuffle.
use vstd::prelude::*;
use crate::model::TrackInfo;

verus! {

/// What happens at the end of the queue.
#[derive(Debug, Clone, Copy, PartialEq, Eq, Structural)]
pub enum Repeat {
    /// At the end of the queue, stop.
    Off,
    /// At the end of the queue, start over.
    All,
    /// Repeat the current track forever.
    One,
}

impl Default for Repeat {
    fn default() -> (r: Self)
        ensures
            r == Repeat::Off,
    {
        Repeat::Off
    }
}

/// Nanoseconds from the epoch to now; `None` when the clock stands before
/// the epoch.
///
/// Wraps `std::time::SystemTime::now` followed by `duration_since` of the
/// epoch, read in nanoseconds. Nothing is promised of the value: it depends
/// on the time of the call.
#[verifier::external_body]
fn nanos_since_epoch() -> Option<u128> {
    std::time::SystemTime::now().duration_since(std::time::UNIX_EPOCH).ok().map(|d| d.as_nanos())
}

/// The seed a reading of the clock gives: its nanoseconds kept to their low
/// 64 bits, or a fixed constant when the clock stood before the epoch.
fn seed_from(nanos: Option<u128>) -> (s: u64)
    ensures
        s == match nanos {
            Some(n) => (n % 0x1_0000_0000_0000_0000u128) as u64,
            None => 0x2545F4914F6CDD1Du64,
        },
{
    match nanos {
        Some(n) => (n % 0x1_0000_0000_0000_0000u128) as u64,
        None => 0x2545F4914F6CDD1D,
    }
}

/// Seed for the shuffle: the clock in nanoseconds, kept to its low 64 bits,
/// or a fixed odd constant when the clock is before the epoch.
fn clock_seed() -> u64 {
    seed_from(nanos_since_epoch())
}

/// `order` lists each of `0..n` exactly once.
pub open spec fn is_permutation(order: Seq<usize>, n: int) -> bool {
    &&& order.len() == n
    &&& forall|k: int| 0 <= k < n ==> #[trigger] order[k] < n
    &&& forall|a: int, b: int| 0 <= a < n && 0 <= b < n && a != b ==> order[a] != order[b]
    &&& forall|v: int| 0 <= v < n ==> #[trigger] occurs_in(order, v, n)
}

/// `v` is one of the first `n` entries of `order`.
pub open spec fn occurs_in(order: Seq<usize>, v: int, n: int) -> bool {
    exists|k: int| 0 <= k < n && #[trigger] order[k] == v
}

/// First position at or after `from` where `x` occurs in `s`, or -1.
pub open spec fn first_from(s: Seq<usize>, x: usize, from: int) -> int
    decreases s.len() - from,
{
    if from < 0 || from >= s.len() {
        -1
    } else if s[from] == x {
        from
    } else {
        first_from(s, x, from + 1)
    }
}

proof fn lemma_first_from_found(s: Seq<usize>, x: usize, from: int)
    requires
        0 <= from,
    ensures
        first_from(s, x, from) == -1 || (from <= first_from(s, x, from) < s.len() && s[first_from(
            s,
            x,
            from,
        )] == x && forall|j: int| from <= j < first_from(s, x, from) ==> s[j] != x),
        first_from(s, x, from) == -1 ==> forall|j: int| from <= j < s.len() ==> s[j] != x,
    decreases s.len() - from,
{
    if from < s.len() && s[from] != x {
        lemma_first_from_found(s, x, from + 1);
    }
}

proof fn lemma_first_from_at(s: Seq<usize>, x: usize, k: int)
    requires
        0 <= k < s.len(),
        s[k] == x,
        forall|j: int| 0 <= j < k ==> s[j] != x,
    ensures
        first_from(s, x, 0) == k,
{
    lemma_first_from_found(s, x, 0);
}

proof fn lemma_first_from_unique(s: Seq<usize>, x: usize, p: int)
    requires
        0 <= p < s.len(),
        s[p] == x,
        forall|a: int, b: int| 0 <= a < s.len() && 0 <= b < s.len() && a != b ==> s[a] != s[b],
    ensures
        first_from(s, x, 0) == p,
{
    lemma_first_from_found(s, x, 0);
}

/// The positions that sound one after another from position `c` if each
/// track plays to its end, `n` of them at most.
pub open spec fn ahead_from(q: Queue, c: int, n: nat) -> Seq<int>
    decreases n,
{
    if n == 0 {
        seq![]
    } else {
        match q.with_cursor(c).next_target(true) {
            None => seq![],
            Some(i) => seq![i] + ahead_from(q, i, (n - 1) as nat),
        }
    }
}

/// From any position of the queue, a natural end leads to a position of
/// the queue.
pub proof fn lemma_target_in_range(q: Queue, c: int)
    requires
        q.wf(),
        q.tracks().len() <= usize::MAX,
        q.tracks().len() > 0 ==> 0 <= c < q.tracks().len(),
    ensures
        q.with_cursor(c).next_target(true) matches Some(i) ==> 0 <= i < q.tracks().len(),
{
    let w = q.with_cursor(c);
    if q.tracks().len() > 0 {
        q.lemma_with_cursor(c);
        assert(w.wf());
        w.lemma_order_pos_in_range();
        if w.order_pos() < q.tracks().len() - 1 {
            w.lemma_nth_in_range(w.order_pos() + 1);
        }
        w.lemma_nth_in_range(0);
    }
}

/// The play queue.
#[derive(Debug)]
pub struct Queue {
    items: Vec<TrackInfo>,
    /// Position in `items` of the current track.
    index: usize,
    /// Shuffled order: positions within `items`. Empty without shuffle.
    order: Vec<usize>,
    repeat: Repeat,
    shuffle: bool,
}

impl Queue {
    /// The tracks of the queue, in queue order.
    pub closed spec fn tracks(&self) -> Seq<TrackInfo> {
        self.items@
    }

    /// Position of the current track in `tracks()`.
    pub closed spec fn cursor(&self) -> int {
        self.index as int
    }

    /// The shuffled order (positions within `tracks()`), empty without shuffle.
    pub closed spec fn play_order(&self) -> Seq<usize> {
        self.order@
    }

    pub closed spec fn repeat_mode(&self) -> Repeat {
        self.repeat
    }

    pub closed spec fn shuffled(&self) -> bool {
        self.shuffle
    }

    /// The same queue with the cursor moved to `i`.
    pub closed spec fn with_cursor(self, i: int) -> Queue {
        Queue { index: i as usize, ..self }
    }

    /// Moving the cursor keeps the tracks, the order and both modes, and puts
    /// the cursor at `i`.
    pub proof fn lemma_with_cursor(self, i: int)
        requires
            0 <= i <= usize::MAX,
        ensures
            self.with_cursor(i).tracks() == self.tracks(),
            self.with_cursor(i).cursor() == i,
            self.with_cursor(i).play_order() == self.play_order(),
            self.with_cursor(i).repeat_mode() == self.repeat_mode(),
            self.with_cursor(i).shuffled() == self.shuffled(),
    {
    }

    /// Well-formedness: the cursor points into the queue (or is 0 when it is
    /// empty); with shuffle on, the order lists every position of the queue
    /// exactly once; without it, there is no order.
    pub open spec fn wf(&self) -> bool {
        &&& (self.tracks().len() == 0 ==> self.cursor() == 0)
        &&& (self.tracks().len() > 0 ==> 0 <= self.cursor() < self.tracks().len())
        &&& (!self.shuffled() ==> self.play_order().len() == 0)
        &&& (self.shuffled() ==> is_permutation(self.play_order(), self.tracks().len() as int))
        &&& forall|k: int|
            0 <= k < self.play_order().len() ==> #[trigger] self.play_order()[k]
                < self.tracks().len()
    }

    /// Whether the effective order is the shuffled one.
    pub open spec fn uses_order(&self) -> bool {
        self.shuffled() && self.play_order().len() > 0
    }

    /// Position of the current track within the effective order.
    pub open spec fn order_pos(&self) -> int {
        if self.uses_order() {
            let p = first_from(self.play_order(), self.cursor() as usize, 0);
            if p >= 0 {
                p
            } else {
                0
            }
        } else {
            self.cursor()
        }
    }

    /// Position in `tracks()` of the `n`-th entry of the effective order.
    pub open spec fn nth(&self, n: int) -> int {
        if self.uses_order() {
            if 0 <= n < self.play_order().len() {
                self.play_order()[n] as int
            } else {
                0
            }
        } else {
            n
        }
    }

    /// Where `next(auto)` moves the cursor, or `None` when it stops.
    pub open spec fn next_target(&self, auto: bool) -> Option<int> {
        let len = self.tracks().len();
        if len == 0 {
            None
        } else if auto && self.repeat_mode() == Repeat::One {
            Some(self.cursor())
        } else if self.order_pos() >= len - 1 {
            if self.repeat_mode() == Repeat::Off {
                None
            } else {
                Some(self.nth(0))
            }
        } else {
            Some(self.nth(self.order_pos() + 1))
        }
    }

    /// Where `prev()` moves the cursor, or `None` on an empty queue. At the
    /// start of the order the cursor stays where it is, whatever the repeat
    /// mode.
    pub open spec fn prev_target(&self) -> Option<int> {
        let len = self.tracks().len();
        if len == 0 {
            None
        } else if self.order_pos() == 0 {
            Some(self.cursor())
        } else {
            Some(self.nth(self.order_pos() - 1))
        }
    }

    /// The position of the track that will sound after the current one.
    pub open spec fn peek_target(&self) -> Option<int> {
        let len = self.tracks().len();
        if len == 0 {
            None
        } else if self.repeat_mode() == Repeat::One {
            Some(self.cursor())
        } else if self.order_pos() + 1 < len {
            Some(self.nth(self.order_pos() + 1))
        } else if self.repeat_mode() == Repeat::All {
            Some(self.nth(0))
        } else {
            None
        }
    }

    proof fn lemma_nth_in_range(&self, n: int)
        requires
            self.wf(),
            self.tracks().len() > 0,
            !self.uses_order() ==> 0 <= n < self.tracks().len(),
        ensures
            0 <= self.nth(n) < self.tracks().len(),
    {
    }

    proof fn lemma_order_pos_in_range(&self)
        requires
            self.wf(),
            self.tracks().len() > 0,
        ensures
            0 <= self.order_pos(),
            !self.uses_order() ==> self.order_pos() < self.tracks().len(),
            self.uses_order() ==> self.order_pos() < self.play_order().len(),
    {
        if self.uses_order() {
            lemma_first_from_found(self.play_order(), self.cursor() as usize, 0);
        }
    }

    /// An empty queue: no repeat, no shuffle.
    pub fn new() -> (q: Queue)
        ensures
            q.wf(),
            q.tracks().len() == 0,
            q.cursor() == 0,
            q.repeat_mode() == Repeat::Off,
            !q.shuffled(),
    {
        Queue { items: Vec::new(), index: 0, order: Vec::new(), repeat: Repeat::Off, shuffle: false }
    }

    /// Replaces the queue and places the cursor at `start`, clamped to the
    /// last track. With shuffle on, the order is drawn again.
    pub fn set_items(&mut self, items: Vec<TrackInfo>, start: usize)
        requires
            old(self).wf(),
        ensures
            final(self).wf(),
            final(self).tracks() == items@,
            final(self).cursor() == (if items@.len() == 0 {
                0
            } else if start < items@.len() {
                start as int
            } else {
                items@.len() - 1
            }),
            final(self).repeat_mode() == old(self).repeat_mode(),
            final(self).shuffled() == old(self).shuffled(),
            final(self).shuffled() ==> is_permutation(final(self).play_order(), items@.len() as int)
                && (items@.len() > 0 ==> final(self).play_order()[0] == final(self).cursor()),
            final(self).shuffled() ==> exists|seed: u64|
                final(self).play_order() == #[trigger] shuffle_spec(
                    final(self).tracks().len(),
                    final(self).cursor(),
                    seed,
                ),
            !final(self).shuffled() ==> final(self).play_order() == old(self).play_order(),
    {
        self.items = items;
        let last = if self.items.len() == 0 {
            0
        } else {
            self.items.len() - 1
        };
        self.index = if start < last {
            start
        } else {
            last
        };
        if self.shuffle {
            self.reshuffle();
        }
    }

    /// Replaces what comes AFTER the current track, without touching it.
    ///
    /// Returns how many tracks are left behind the current one.
    pub fn set_up_next(&mut self, items: Vec<TrackInfo>) -> (behind: usize)
        requires
            old(self).wf(),
        ensures
            final(self).wf(),
            ({
                let kept = if old(self).tracks().len() == 0 {
                    0
                } else {
                    old(self).cursor() + 1
                };
                &&& final(self).tracks() == old(self).tracks().subrange(0, kept) + items@
                &&& behind == if final(self).tracks().len() >= old(self).cursor() + 1 {
                    final(self).tracks().len() - (old(self).cursor() + 1)
                } else {
                    0
                }
            }),
            final(self).cursor() == old(self).cursor(),
            final(self).repeat_mode() == old(self).repeat_mode(),
            final(self).shuffled() == old(self).shuffled(),
            final(self).shuffled() ==> is_permutation(
                final(self).play_order(),
                final(self).tracks().len() as int,
            ) && (final(self).tracks().len() > 0 ==> final(self).play_order()[0]
                == final(self).cursor()),
            final(self).shuffled() ==> exists|seed: u64|
                final(self).play_order() == #[trigger] shuffle_spec(
                    final(self).tracks().len(),
                    final(self).cursor(),
                    seed,
                ),
    {
        let keep = if self.index < self.items.len() {
            self.index + 1
        } else {
            1
        };
        self.items.truncate(keep);
        let mut items = items;
        self.items.append(&mut items);
        if self.shuffle {
            self.reshuffle();
        }
        if self.items.len() >= keep {
            self.items.len() - keep
        } else {
            0
        }
    }

    /// Id of the current track, if any.
    fn current_id(&self) -> (id: Option<&String>)
        requires
            self.wf(),
        ensures
            self.tracks().len() == 0 ==> id is None,
            self.tracks().len() > 0 ==> id == Some(&self.tracks()[self.cursor()].video_id),
    {
        if self.index < self.items.len() {
            Some(&self.items[self.index].video_id)
        } else {
            None
        }
    }

    /// First position of a track with id `id` that is not the current track's
    /// id, if any.
    fn position_other(&self, id: &String) -> (pos: Option<usize>)
        requires
            self.wf(),
        ensures
            match pos {
                Some(p) => {
                    &&& p < self.tracks().len()
                    &&& self.tracks()[p as int].video_id@ == id@
                    &&& Self::other_than_current(*self, id@, p as int)
                    &&& forall|j: int|
                        0 <= j < p ==> !(#[trigger] self.tracks()[j].video_id@ == id@
                            && Self::other_than_current(*self, id@, j))
                },
                None => forall|j: int|
                    0 <= j < self.tracks().len() ==> !(#[trigger] self.tracks()[j].video_id@
                        == id@ && Self::other_than_current(*self, id@, j)),
            },
    {
        let cur = self.current_id();
        let mut i: usize = 0;
        while i < self.items.len()
            invariant
                self.wf(),
                cur == (if self.tracks().len() == 0 {
                    None
                } else {
                    Some(&self.tracks()[self.cursor()].video_id)
                }),
                0 <= i <= self.items@.len(),
                forall|j: int|
                    0 <= j < i ==> !(#[trigger] self.tracks()[j].video_id@ == id@
                        && Self::other_than_current(*self, id@, j)),
            decreases self.items@.len() - i,
        {
            let same = self.items[i].video_id == *id;
            let not_current = match cur {
                Some(c) => self.items[i].video_id != *c,
                None => true,
            };
            if same && not_current {
                return Some(i);
            }
            i = i + 1;
        }
        None
    }

    /// The id under position `j` differs from the current track's id (the
    /// current id is empty on an empty queue).
    pub open spec fn other_than_current(q: Queue, id: Seq<char>, j: int) -> bool {
        if q.tracks().len() == 0 {
            id != Seq::<char>::empty()
        } else {
            q.tracks()[j].video_id@ != q.tracks()[q.cursor()].video_id@
        }
    }

    /// Where `play_next` leaves the queue: its tracks and its cursor. The
    /// first other track with the same id, if any, is taken out (the cursor
    /// moves back if it stood after it), and the track goes right after the
    /// current one.
    pub open spec fn after_play_next(q: Queue, item: TrackInfo) -> (Seq<TrackInfo>, int) {
        let removed = Self::removed_duplicate(q, item.video_id@);
        let base = match removed {
            Some(p) => q.tracks().remove(p),
            None => q.tracks(),
        };
        let cur = match removed {
            Some(p) => if p < q.cursor() {
                q.cursor() - 1
            } else {
                q.cursor()
            },
            None => q.cursor(),
        };
        let dest = if cur + 1 < base.len() {
            cur + 1
        } else {
            base.len() as int
        };
        (base.insert(dest, item), cur)
    }

    /// The shuffled order after `play_next`: the entries of the track taken
    /// out are dropped, the others follow their tracks to their new
    /// positions, and the position of the inserted track comes right after
    /// the current one, so that it is the next to sound. Without shuffle there
    /// is no order.
    pub open spec fn order_after_play_next(q: Queue, item: TrackInfo) -> Seq<usize> {
        if q.shuffled() {
            let cur = Self::after_play_next(q, item).1;
            let dest = if q.tracks().len() == 0 {
                0
            } else {
                cur + 1
            };
            insert_after(
                remap_order(q.play_order(), Self::removed_duplicate(q, item.video_id@), dest),
                cur,
                dest as usize,
            )
        } else {
            q.play_order()
        }
    }

    /// Puts a track right after the one that is playing, keeping the rest of
    /// the queue. If the track was already queued elsewhere, it is moved
    /// instead of duplicated. With shuffle on it also goes right after the
    /// current track in the shuffled order: it is the next to sound either
    /// way.
    pub fn play_next(&mut self, item: TrackInfo)
        requires
            old(self).wf(),
        ensures
            final(self).wf(),
            final(self).tracks() == Self::after_play_next(*old(self), item).0,
            final(self).cursor() == Self::after_play_next(*old(self), item).1,
            old(self).tracks().len() > 0 ==> final(self).tracks()[final(self).cursor()]
                == old(self).tracks()[old(self).cursor()],
            old(self).tracks().len() > 0 ==> final(self).tracks()[final(self).cursor() + 1] == item,
            final(self).repeat_mode() == old(self).repeat_mode(),
            final(self).shuffled() == old(self).shuffled(),
            final(self).play_order() == Self::order_after_play_next(*old(self), item),
            old(self).tracks().len() > 0 && old(self).repeat_mode() != Repeat::One
                ==> final(self).peek_target() == Some(final(self).cursor() + 1),
    {
        let ghost q0 = *old(self);
        let n = self.items.len();
        let found = self.position_other(&item.video_id);
        proof {
            if found is Some {
                assert(Self::is_first_duplicate(*old(self), item.video_id@, found->0 as int));
            } else {
                assert(forall|j: int|
                    0 <= j < old(self).tracks().len() ==> !Self::is_duplicate(
                        *old(self),
                        item.video_id@,
                        j,
                    ));
            }
            Self::lemma_removed_duplicate(*old(self), item.video_id@, found);
        }
        if let Some(pos) = found {
            self.items.remove(pos);
            if pos < self.index {
                self.index = self.index - 1;
            }
        }
        let len = self.items.len();
        let dest = if self.index < len {
            self.index + 1
        } else {
            len
        };
        if self.shuffle {
            proof {
                assert forall|k: int| 0 <= k < self.order@.len() implies #[trigger] self.order@[k] < n by {
                    assert(q0.play_order()[k] < n);
                }
            }
            let mut r = remap_entries(&self.order, n, found, dest);
            let at = insert_point(&r, self.index);
            proof {
                lemma_insert_index_bound(r@, self.index as int);
            }
            let ghost before = r@;
            r.insert(at, dest);
            proof {
                self.lemma_play_next_order(q0, item, found, n, before, r@, at, dest);
            }
            self.order = r;
        }
        self.items.insert(dest, item);
        proof {
            if q0.tracks().len() > 0 && q0.repeat_mode() != Repeat::One {
                if self.shuffle {
                    let r = self.order@;
                    let k = insert_index(r, self.index as int) - 1;
                    assert(r[k + 1] == dest);
                    assert(self.order_pos() == k);
                } else {
                    assert(self.order_pos() == self.index);
                }
            }
        }
    }

    /// The order that `play_next` builds, seen from the queue after the
    /// duplicate was taken out: it is [`Queue::order_after_play_next`], a
    /// permutation where the old order was one, and the current track, found
    /// in it, is directly followed by the new position.
    proof fn lemma_play_next_order(
        &self,
        q0: Queue,
        item: TrackInfo,
        found: Option<usize>,
        n: usize,
        r: Seq<usize>,
        new: Seq<usize>,
        at: usize,
        dest: usize,
    )
        requires
            q0.wf(),
            q0.shuffled(),
            n == q0.tracks().len(),
            self.play_order() == q0.play_order(),
            Queue::removed_duplicate(q0, item.video_id@) == match found {
                Some(p) => Some(p as int),
                None => None::<int>,
            },
            found matches Some(p) ==> Self::is_first_duplicate(q0, item.video_id@, p as int),
            self.cursor() == Self::after_play_next(q0, item).1,
            self.tracks().len() == (if found is Some { n - 1 } else { n as int }),
            dest == (if q0.tracks().len() == 0 { 0 } else { self.cursor() + 1 }),
            dest <= self.tracks().len(),
            r == remap_order(q0.play_order(), Queue::removed_duplicate(q0, item.video_id@), dest as int),
            forall|i: int| 0 <= i < r.len() ==> #[trigger] r[i] != dest && r[i] <= self.tracks().len(),
            is_permutation(q0.play_order(), n as int) ==> {
                &&& r.len() == self.tracks().len()
                &&& forall|a: int, b: int| 0 <= a < b < r.len() ==> r[a] != r[b]
                &&& forall|x: int|
                    0 <= x < n && !(found == Some(x as usize)) ==> occurs_in(
                        r,
                        #[trigger] moved_pos(x, Queue::removed_duplicate(q0, item.video_id@), dest as int),
                        r.len() as int,
                    )
            },
            at == insert_index(r, self.cursor()),
            new == r.insert(at as int, dest),
        ensures
            new == Self::order_after_play_next(q0, item),
            forall|i: int| 0 <= i < new.len() ==> #[trigger] new[i] <= self.tracks().len(),
            is_permutation(q0.play_order(), n as int) ==> is_permutation(
                new,
                self.tracks().len() + 1 as int,
            ),
            is_permutation(q0.play_order(), n as int) && n > 0 ==> {
                &&& 1 <= at <= r.len()
                &&& first_from(new, self.cursor() as usize, 0) == at - 1
            },
    {
        let rem = Queue::removed_duplicate(q0, item.video_id@);
        lemma_insert_index_bound(r, self.cursor());
        let len: int = self.tracks().len() as int;
        let cur = self.cursor();
        assert forall|i: int| 0 <= i < new.len() implies #[trigger] new[i] <= len by {
            if i < at {
                assert(new[i] == r[i]);
            } else if i > at {
                assert(new[i] == r[i - 1]);
            }
        }
        if is_permutation(q0.play_order(), n as int) {
            assert forall|a: int, b: int| 0 <= a < len + 1 && 0 <= b < len + 1 && a != b implies new[a]
                != new[b] by {
                if a != at && b != at {
                    let ia = if a < at { a } else { a - 1 };
                    let ib = if b < at { b } else { b - 1 };
                    assert(new[a] == r[ia] && new[b] == r[ib]);
                    if ia > ib {
                        assert(r[ib] != r[ia]);
                    }
                } else if a == at {
                    let ib = if b < at { b } else { b - 1 };
                    assert(new[b] == r[ib]);
                } else {
                    let ia = if a < at { a } else { a - 1 };
                    assert(new[a] == r[ia]);
                }
            }
            assert forall|v: int| 0 <= v < len + 1 implies #[trigger] occurs_in(new, v, len + 1) by {
                if v == dest {
                    assert(new[at as int] == v);
                } else {
                    let y = if v < dest { v } else { v - 1 };
                    let x = match found {
                        Some(p) => if y >= p { y + 1 } else { y },
                        None => y,
                    };
                    assert(moved_pos(x, rem, dest as int) == v);
                    assert(occurs_in(r, v, r.len() as int));
                    let w = choose|w: int| 0 <= w < r.len() && r[w] == v;
                    if w < at {
                        assert(new[w] == v);
                    } else {
                        assert(new[w + 1] == v);
                    }
                }
            }
            if n > 0 {
                let c0 = q0.cursor();
                match found {
                    Some(p) => {
                        assert(p != c0);
                    },
                    None => {},
                }
                assert(moved_pos(c0, rem, dest as int) == cur);
                assert(occurs_in(r, cur, r.len() as int));
                let w = choose|w: int| 0 <= w < r.len() && r[w] == cur;
                lemma_first_from_found(r, cur as usize, 0);
                let k = first_from(r, cur as usize, 0);
                assert(k >= 0);
                assert(new[k] == cur);
                assert forall|j: int| 0 <= j < k implies new[j] != cur as usize by {
                    assert(new[j] == r[j]);
                }
                lemma_first_from_at(new, cur as usize, k);
            }
        }
    }

    /// Position `j` holds a track with id `id` other than the current id.
    pub open spec fn is_duplicate(q: Queue, id: Seq<char>, j: int) -> bool {
        &&& 0 <= j < q.tracks().len()
        &&& q.tracks()[j].video_id@ == id
        &&& Self::other_than_current(q, id, j)
    }

    pub open spec fn is_first_duplicate(q: Queue, id: Seq<char>, p: int) -> bool {
        &&& Self::is_duplicate(q, id, p)
        &&& forall|j: int| 0 <= j < p ==> !Self::is_duplicate(q, id, j)
    }

    /// The position of the first other track with id `id`, if any.
    pub open spec fn removed_duplicate(q: Queue, id: Seq<char>) -> Option<int> {
        if exists|p: int| Self::is_first_duplicate(q, id, p) {
            Some(choose|p: int| Self::is_first_duplicate(q, id, p))
        } else {
            None
        }
    }

    proof fn lemma_removed_duplicate(q: Queue, id: Seq<char>, found: Option<usize>)
        requires
            match found {
                Some(p) => Self::is_first_duplicate(q, id, p as int),
                None => forall|j: int| 0 <= j < q.tracks().len() ==> !Self::is_duplicate(q, id, j),
            },
        ensures
            Self::removed_duplicate(q, id) == match found {
                Some(p) => Some(p as int),
                None => None::<int>,
            },
    {
        match found {
            Some(p) => {
                let c = choose|c: int| Self::is_first_duplicate(q, id, c);
                assert(Self::is_first_duplicate(q, id, c));
                if c < p {
                    assert(!Self::is_duplicate(q, id, c));
                } else if p < c {
                    assert(!Self::is_duplicate(q, id, p as int));
                }
            },
            None => {
                if exists|p: int| Self::is_first_duplicate(q, id, p) {
                    let c = choose|c: int| Self::is_first_duplicate(q, id, c);
                    assert(Self::is_duplicate(q, id, c));
                }
            },
        }
    }

    /// The tracks of the queue.
    pub fn items(&self) -> (s: &[TrackInfo])
        ensures
            s@ == self.tracks(),
    {
        self.items.as_slice()
    }

    pub fn len(&self) -> (n: usize)
        ensures
            n == self.tracks().len(),
    {
        self.items.len()
    }

    pub fn is_empty(&self) -> (b: bool)
        ensures
            b == (self.tracks().len() == 0),
    {
        self.items.len() == 0
    }

    /// Position of the current track.
    pub fn index(&self) -> (i: usize)
        ensures
            i == self.cursor(),
    {
        self.index
    }

    /// The current track, `None` on an empty queue.
    pub fn current(&self) -> (t: Option<&TrackInfo>)
        requires
            self.wf(),
        ensures
            self.tracks().len() == 0 ==> t is None,
            self.tracks().len() > 0 ==> t == Some(&self.tracks()[self.cursor()]),
    {
        if self.index < self.items.len() {
            Some(&self.items[self.index])
        } else {
            None
        }
    }

    pub fn repeat(&self) -> (r: Repeat)
        ensures
            r == self.repeat_mode(),
    {
        self.repeat
    }

    pub fn set_repeat(&mut self, r: Repeat)
        requires
            old(self).wf(),
        ensures
            final(self).wf(),
            final(self).tracks() == old(self).tracks(),
            final(self).cursor() == old(self).cursor(),
            final(self).play_order() == old(self).play_order(),
            final(self).shuffled() == old(self).shuffled(),
            final(self).repeat_mode() == r,
    {
        self.repeat = r;
    }

    pub fn shuffle(&self) -> (b: bool)
        ensures
            b == self.shuffled(),
    {
        self.shuffle
    }

    /// Turns shuffle on (drawing a new order that starts with the current
    /// track) or off (dropping the order).
    pub fn set_shuffle(&mut self, on: bool)
        requires
            old(self).wf(),
        ensures
            final(self).wf(),
            final(self).tracks() == old(self).tracks(),
            final(self).cursor() == old(self).cursor(),
            final(self).repeat_mode() == old(self).repeat_mode(),
            final(self).shuffled() == on,
            on ==> is_permutation(final(self).play_order(), final(self).tracks().len() as int) && (
            final(self).tracks().len() > 0 ==> final(self).play_order()[0] == final(self).cursor()),
            on ==> exists|seed: u64|
                final(self).play_order() == #[trigger] shuffle_spec(
                    final(self).tracks().len(),
                    final(self).cursor(),
                    seed,
                ),
            !on ==> final(self).play_order().len() == 0,
    {
        self.shuffle = on;
        if on {
            self.reshuffle();
        } else {
            self.order.clear();
        }
    }

    /// Appends a track and returns its position.
    pub fn push(&mut self, track: TrackInfo) -> (pos: usize)
        requires
            old(self).wf(),
        ensures
            final(self).wf(),
            final(self).tracks() == old(self).tracks().push(track),
            pos == old(self).tracks().len(),
            final(self).cursor() == old(self).cursor(),
            final(self).repeat_mode() == old(self).repeat_mode(),
            final(self).shuffled() == old(self).shuffled(),
            final(self).play_order() == if old(self).shuffled() {
                old(self).play_order().push(pos)
            } else {
                old(self).play_order()
            },
    {
        let ghost before = self.order@;
        self.items.push(track);
        if self.shuffle {
            self.order.push(self.items.len() - 1);
            proof {
                lemma_push_keeps_permutation(before, self.items@.len() - 1);
            }
        }
        self.items.len() - 1
    }

    /// Replaces the metadata of the current track (nothing on an empty queue).
    pub fn set_current_meta(&mut self, meta: TrackInfo)
        requires
            old(self).wf(),
        ensures
            final(self).wf(),
            final(self).tracks() == if old(self).tracks().len() > 0 {
                old(self).tracks().update(old(self).cursor(), meta)
            } else {
                old(self).tracks()
            },
            final(self).cursor() == old(self).cursor(),
            final(self).repeat_mode() == old(self).repeat_mode(),
            final(self).shuffled() == old(self).shuffled(),
            final(self).play_order() == old(self).play_order(),
    {
        if self.index < self.items.len() {
            self.items.set(self.index, meta);
        }
    }

    /// Jumps to a given position; `None` (and no change) when out of range.
    pub fn jump_to(&mut self, index: usize) -> (t: Option<&TrackInfo>)
        requires
            old(self).wf(),
        ensures
            final(self).wf(),
            index < old(self).tracks().len() ==> *final(self) == old(self).with_cursor(
                index as int,
            ) && final(self).cursor() == index && t == Some(&final(self).tracks()[index as int]),
            index >= old(self).tracks().len() ==> *final(self) == *old(self) && t is None,
            final(self).tracks() == old(self).tracks(),
            final(self).play_order() == old(self).play_order(),
            final(self).repeat_mode() == old(self).repeat_mode(),
            final(self).shuffled() == old(self).shuffled(),
    {
        if index < self.items.len() {
            self.index = index;
            assert(self.wf());
            self.current()
        } else {
            None
        }
    }

    /// Position of the current track within the effective order.
    fn position_in_order(&self) -> (p: usize)
        requires
            self.wf(),
        ensures
            p == self.order_pos(),
    {
        if self.shuffle && self.order.len() > 0 {
            let mut k: usize = 0;
            while k < self.order.len()
                invariant
                    self.wf(),
                    self.uses_order(),
                    0 <= k <= self.play_order().len(),
                    first_from(self.play_order(), self.index, 0) == first_from(
                        self.play_order(),
                        self.index,
                        k as int,
                    ),
                decreases self.play_order().len() - k,
            {
                if self.order[k] == self.index {
                    return k;
                }
                k = k + 1;
            }
            0
        } else {
            self.index
        }
    }

    /// Position in `items` of the `n`-th entry of the effective order.
    fn nth_in_order(&self, n: usize) -> (i: usize)
        requires
            self.wf(),
        ensures
            i == self.nth(n as int),
    {
        if self.shuffle && self.order.len() > 0 {
            if n < self.order.len() {
                self.order[n]
            } else {
                0
            }
        } else {
            n
        }
    }

    /// Advances. `auto` tells the natural end of a track (where
    /// `Repeat::One` repeats) from a skip asked by the user (which always
    /// advances).
    pub fn next(&mut self, auto: bool) -> (t: Option<&TrackInfo>)
        requires
            old(self).wf(),
        ensures
            final(self).wf(),
            match old(self).next_target(auto) {
                None => *final(self) == *old(self) && t is None,
                Some(i) => {
                    &&& *final(self) == old(self).with_cursor(i)
                    &&& 0 <= i < final(self).tracks().len()
                    &&& final(self).cursor() == i
                    &&& t == Some(&final(self).tracks()[i])
                },
            },
            final(self).tracks() == old(self).tracks(),
            final(self).play_order() == old(self).play_order(),
            final(self).repeat_mode() == old(self).repeat_mode(),
            final(self).shuffled() == old(self).shuffled(),
    {
        if self.items.len() == 0 {
            return None;
        }
        if auto && self.repeat == Repeat::One {
            return self.current();
        }
        let pos = self.position_in_order();
        let last = self.items.len() - 1;
        proof {
            self.lemma_order_pos_in_range();
        }
        if pos >= last {
            match self.repeat {
                Repeat::Off => return None,
                _ => {
                    let i = self.nth_in_order(0);
                    proof {
                        self.lemma_nth_in_range(0);
                    }
                    self.index = i;
                },
            }
        } else {
            let i = self.nth_in_order(pos + 1);
            proof {
                self.lemma_nth_in_range(pos + 1);
            }
            self.index = i;
        }
        self.current()
    }

    /// Goes back. At the start of the queue it stays where it is.
    pub fn prev(&mut self) -> (t: Option<&TrackInfo>)
        requires
            old(self).wf(),
        ensures
            final(self).wf(),
            match old(self).prev_target() {
                None => *final(self) == *old(self) && t is None,
                Some(i) => {
                    &&& *final(self) == old(self).with_cursor(i)
                    &&& 0 <= i < final(self).tracks().len()
                    &&& final(self).cursor() == i
                    &&& t == Some(&final(self).tracks()[i])
                },
            },
            final(self).tracks() == old(self).tracks(),
            final(self).play_order() == old(self).play_order(),
            final(self).repeat_mode() == old(self).repeat_mode(),
            final(self).shuffled() == old(self).shuffled(),
    {
        if self.items.len() == 0 {
            return None;
        }
        let pos = self.position_in_order();
        proof {
            self.lemma_order_pos_in_range();
        }
        if pos > 0 {
            let i = self.nth_in_order(pos - 1);
            proof {
                self.lemma_nth_in_range(pos - 1);
            }
            self.index = i;
        }
        self.current()
    }

    /// The track that will sound next, to preload it without changing state.
    pub fn peek_next(&self) -> (t: Option<&TrackInfo>)
        requires
            self.wf(),
        ensures
            match self.peek_target() {
                None => t is None,
                Some(i) => 0 <= i < self.tracks().len() && t == Some(&self.tracks()[i]),
            },
    {
        if self.items.len() == 0 {
            return None;
        }
        if self.repeat == Repeat::One {
            return self.current();
        }
        let pos = self.position_in_order();
        proof {
            self.lemma_order_pos_in_range();
        }
        if pos < self.items.len() - 1 {
            let i = self.nth_in_order(pos + 1);
            proof {
                self.lemma_nth_in_range(pos + 1);
            }
            Some(&self.items[i])
        } else if self.repeat == Repeat::All {
            let i = self.nth_in_order(0);
            proof {
                self.lemma_nth_in_range(0);
            }
            Some(&self.items[i])
        } else {
            None
        }
    }

    /// Position of the track at `c` within the effective order.
    fn order_pos_of(&self, c: usize) -> (p: usize)
        requires
            self.wf(),
            c < self.tracks().len(),
        ensures
            p == self.with_cursor(c as int).order_pos(),
    {
        if self.shuffle && self.order.len() > 0 {
            let mut k: usize = 0;
            while k < self.order.len()
                invariant
                    self.wf(),
                    self.uses_order(),
                    0 <= k <= self.play_order().len(),
                    first_from(self.play_order(), c, 0) == first_from(self.play_order(), c, k as int),
                decreases self.play_order().len() - k,
            {
                if self.order[k] == c {
                    return k;
                }
                k = k + 1;
            }
            0
        } else {
            c
        }
    }

    /// Where the natural end of the track at position `c` leads (as
    /// `next(true)` would from there), or `None` when playback stops.
    pub fn natural_after(&self, c: usize) -> (r: Option<usize>)
        requires
            self.wf(),
            c < self.tracks().len(),
        ensures
            match self.with_cursor(c as int).next_target(true) {
                None => r is None,
                Some(i) => r is Some && r->0 as int == i && 0 <= i < self.tracks().len(),
            },
    {
        let ghost q = self.with_cursor(c as int);
        if self.repeat == Repeat::One {
            return Some(c);
        }
        let n = self.items.len();
        let pos = self.order_pos_of(c);
        proof {
            assert(q.wf());
            assert(q.tracks() == self.tracks() && q.play_order() == self.play_order());
            assert(q.uses_order() == self.uses_order());
            assert(pos == q.order_pos());
            q.lemma_order_pos_in_range();
        }
        if pos >= n - 1 {
            match self.repeat {
                Repeat::Off => None,
                _ => {
                    let i = self.nth_in_order(0);
                    proof {
                        self.lemma_nth_in_range(0);
                    }
                    Some(i)
                },
            }
        } else {
            let i = self.nth_in_order(pos + 1);
            proof {
                self.lemma_nth_in_range(pos + 1);
            }
            Some(i)
        }
    }

    /// The positions of the next `n` tracks that will sound if each plays to
    /// its end, from the current one; fewer when playback stops before.
    pub fn ahead(&self, n: usize) -> (r: Vec<usize>)
        requires
            self.wf(),
        ensures
            r@.map_values(|i: usize| i as int) == ahead_from(*self, self.cursor(), n as nat),
    {
        let mut out: Vec<usize> = Vec::new();
        if self.items.len() == 0 {
            proof {
                assert(out@.map_values(|i: usize| i as int) =~= ahead_from(*self, self.cursor(), n as nat));
            }
            return out;
        }
        let mut c = self.index;
        let mut k: usize = 0;
        while k < n
            invariant
                self.wf(),
                self.tracks().len() > 0,
                0 <= c < self.tracks().len(),
                k <= n,
                out@.len() == k,
                out@.map_values(|i: usize| i as int) + ahead_from(*self, c as int, (n - k) as nat)
                    == ahead_from(*self, self.cursor(), n as nat),
            decreases n - k,
        {
            let ghost before = out@.map_values(|i: usize| i as int);
            match self.natural_after(c) {
                None => {
                    proof {
                        assert(ahead_from(*self, c as int, (n - k) as nat) =~= Seq::<int>::empty());
                        assert(out@.map_values(|i: usize| i as int) =~= ahead_from(*self, self.cursor(), n as nat));
                    }
                    return out;
                },
                Some(i) => {
                    out.push(i);
                    proof {
                        assert(self.with_cursor(c as int).next_target(true) == Some(i as int));
                        assert((n - k) as nat > 0);
                        assert(out@.map_values(|i: usize| i as int) =~= before.push(i as int));
                        assert(ahead_from(*self, c as int, (n - k) as nat) =~= seq![i as int] + ahead_from(
                            *self,
                            i as int,
                            (n - k - 1) as nat,
                        ));
                    }
                    c = i;
                },
            }
            k = k + 1;
        }
        proof {
            assert(ahead_from(*self, c as int, 0) =~= Seq::<int>::empty());
        }
        out
    }

    /// Draws a new order: a permutation of the queue positions that starts
    /// with the current track, so that turning shuffle on does not cut what is
    /// playing. The seed comes from the clock.
    fn reshuffle(&mut self)
        requires
            old(self).shuffled(),
            old(self).tracks().len() == 0 ==> old(self).cursor() == 0,
            old(self).tracks().len() > 0 ==> 0 <= old(self).cursor() < old(self).tracks().len(),
        ensures
            final(self).wf(),
            final(self).tracks() == old(self).tracks(),
            final(self).cursor() == old(self).cursor(),
            final(self).repeat_mode() == old(self).repeat_mode(),
            final(self).shuffled(),
            is_permutation(final(self).play_order(), final(self).tracks().len() as int),
            final(self).tracks().len() > 0 ==> final(self).play_order()[0] == final(self).cursor(),
            exists|seed: u64|
                final(self).play_order() == #[trigger] shuffle_spec(
                    final(self).tracks().len(),
                    final(self).cursor(),
                    seed,
                ),
    {
        let seed = clock_seed();
        self.order = shuffled_order(self.items.len(), self.index, seed);
        assert(self.play_order() == shuffle_spec(self.tracks().len(), self.cursor(), seed));
    }
}

/// One step of the xorshift generator that draws the shuffle.
pub open spec fn xorshift(s: u64) -> u64 {
    let a = s ^ (s << 13u64);
    let b = a ^ (a >> 7u64);
    b ^ (b << 17u64)
}

/// Fisher-Yates from position `i` down to 1: each step advances the seed
/// with [`xorshift`] and swaps position `i` with the one the seed gives
/// modulo `i + 1`.
pub open spec fn fisher_yates(order: Seq<usize>, seed: u64, i: nat) -> Seq<usize>
    decreases i,
{
    if i == 0 {
        order
    } else {
        let s = xorshift(seed);
        let j = (s as int) % (i + 1) as int;
        fisher_yates(order.update(i as int, order[j]).update(j, order[i as int]), s, (i - 1) as nat)
    }
}

/// The shuffled order of `n` positions drawn from `seed`: the positions in
/// queue order, shuffled by [`fisher_yates`] from the seed with its lowest
/// bit set, and then `current` swapped to the front (where it occurs).
pub open spec fn shuffle_spec(n: nat, current: int, seed: u64) -> Seq<usize> {
    if n == 0 {
        seq![]
    } else {
        let drawn = fisher_yates(Seq::new(n, |k: int| k as usize), seed | 1u64, (n - 1) as nat);
        let p = first_from(drawn, current as usize, 0);
        if p >= 0 {
            drawn.update(0, drawn[p]).update(p, drawn[0])
        } else {
            drawn
        }
    }
}

/// The shuffled order of `n` queue positions that a seed gives (see
/// [`shuffle_spec`]): a permutation that starts with `current`.
pub fn shuffled_order(n: usize, current: usize, seed: u64) -> (order: Vec<usize>)
    ensures
        order@ == shuffle_spec(n as nat, current as int, seed),
        is_permutation(order@, n as int),
        current < n ==> order@[0] == current,
{
    let mut order: Vec<usize> = Vec::new();
    let mut k: usize = 0;
    while k < n
        invariant
            0 <= k <= n,
            order@.len() == k,
            forall|j: int| 0 <= j < k ==> #[trigger] order@[j] == j,
        decreases n - k,
    {
        order.push(k);
        k = k + 1;
    }
    proof {
        assert forall|v: int| 0 <= v < n implies #[trigger] occurs_in(order@, v, n as int) by {
            assert(order@[v] == v);
        }
        assert(order@ =~= Seq::new(n as nat, |k: int| k as usize));
    }
    if n == 0 {
        return order;
    }
    // Fisher-Yates with a cheap xorshift source: shuffling songs needs no
    // cryptographic quality.
    let mut seed: u64 = seed | 1;
    let ghost start = fisher_yates(order@, seed, (n - 1) as nat);
    let mut i: usize = n - 1;
    while i >= 1
        invariant
            1 <= n,
            0 <= i < n,
            is_permutation(order@, n as int),
            fisher_yates(order@, seed, i as nat) == start,
        decreases i,
    {
        let ghost s0 = seed;
        seed = seed ^ (seed << 13u64);
        seed = seed ^ (seed >> 7u64);
        seed = seed ^ (seed << 17u64);
        assert(seed == xorshift(s0));
        let j = (seed % (i as u64 + 1)) as usize;
        let ghost before = order@;
        let a = order[i];
        let b = order[j];
        order.set(i, b);
        order.set(j, a);
        proof {
            assert(j == (seed as int) % (i + 1));
            assert(order@ == before.update(i as int, before[j as int]).update(j as int, before[i as int]));
            lemma_swap_keeps_permutation(before, order@, i as int, j as int, n as int);
        }
        i = i - 1;
    }
    assert(order@ == start);
    // The current track goes first.
    let mut p: usize = 0;
    while p < n && order[p] != current
        invariant
            0 <= p <= n,
            order@.len() == n,
            first_from(order@, current, 0) == first_from(order@, current, p as int),
        decreases n - p,
    {
        p = p + 1;
    }
    proof {
        lemma_first_from_found(order@, current, 0);
    }
    if p < n {
        let ghost before = order@;
        let a = order[0];
        let b = order[p];
        order.set(0, b);
        order.set(p, a);
        proof {
            lemma_swap_keeps_permutation(before, order@, 0, p as int, n as int);
        }
    } else {
        proof {
            if current < n {
                assert(occurs_in(order@, current as int, n as int));
                let w = choose|w: int| 0 <= w < n && order@[w] == current;
                assert(order@[w] == current);
            }
        }
    }
    order
}

/// Where the track at position `x` stands once the track at `removed` (if
/// any) is taken out and a track is inserted at `dest`.
pub open spec fn moved_pos(x: int, removed: Option<int>, dest: int) -> int {
    let y = match removed {
        Some(p) => if x > p {
            x - 1
        } else {
            x
        },
        None => x,
    };
    if y >= dest {
        y + 1
    } else {
        y
    }
}

/// The order `o` with the entries equal to `removed` dropped and the others
/// carried to where their tracks stand after the move (see [`moved_pos`]).
pub open spec fn remap_order(o: Seq<usize>, removed: Option<int>, dest: int) -> Seq<usize>
    decreases o.len(),
{
    if o.len() == 0 {
        seq![]
    } else {
        let rest = remap_order(o.drop_last(), removed, dest);
        if removed == Some(o.last() as int) {
            rest
        } else {
            rest.push(moved_pos(o.last() as int, removed, dest) as usize)
        }
    }
}

/// `r` with `v` put right after the first entry equal to `cur` (after the
/// first entry, where none is equal to `cur`: that is where the order stands
/// then).
pub open spec fn insert_after(r: Seq<usize>, cur: int, v: usize) -> Seq<usize> {
    r.insert(insert_index(r, cur), v)
}

/// The index at which [`insert_after`] puts its entry.
pub open spec fn insert_index(r: Seq<usize>, cur: int) -> int {
    let k = first_from(r, cur as usize, 0);
    if k >= 0 {
        k + 1
    } else if r.len() > 0 {
        1
    } else {
        0
    }
}

/// A position, if any, as an integer.
pub open spec fn int_pos(p: Option<usize>) -> Option<int> {
    match p {
        Some(p) => Some(p as int),
        None => None,
    }
}

/// The entries of `o`, carried over as [`remap_order`] does.
fn remap_entries(o: &Vec<usize>, n: usize, removed: Option<usize>, dest: usize) -> (r: Vec<usize>)
    requires
        forall|k: int| 0 <= k < o@.len() ==> #[trigger] o@[k] < n,
        removed matches Some(p) ==> p < n,
        dest <= (if removed is Some { n - 1 } else { n as int }),
    ensures
        r@ == remap_order(o@, int_pos(removed), dest as int),
        forall|i: int|
            0 <= i < r@.len() ==> #[trigger] r@[i] != dest && r@[i] <= (if removed is Some {
                n - 1
            } else {
                n as int
            }),
        is_permutation(o@, n as int) ==> {
            &&& r@.len() == (if removed is Some { n - 1 } else { n as int })
            &&& forall|a: int, b: int| 0 <= a < b < r@.len() ==> r@[a] != r@[b]
            &&& forall|x: int|
                0 <= x < n && !(removed == Some(x as usize)) ==> occurs_in(
                    r@,
                    #[trigger] moved_pos(x, int_pos(removed), dest as int),
                    r@.len() as int,
                )
        },
{
    let ghost rem: Option<int> = int_pos(removed);
    let ghost top: int = if removed is Some { n - 1 } else { n as int };
    let mut r: Vec<usize> = Vec::new();
    let mut k: usize = 0;
    while k < o.len()
        invariant
            forall|j: int| 0 <= j < o@.len() ==> #[trigger] o@[j] < n,
            removed matches Some(p) ==> p < n,
            rem == int_pos(removed),
            top == (if removed is Some { n - 1 } else { n as int }),
            dest <= top,
            0 <= k <= o@.len(),
            r@ == remap_order(o@.subrange(0, k as int), rem, dest as int),
            forall|i: int| 0 <= i < r@.len() ==> #[trigger] r@[i] != dest && r@[i] <= top,
            forall|i: int|
                0 <= i < r@.len() ==> exists|j: int|
                    0 <= j < k && rem != Some(o@[j] as int) && #[trigger] r@[i] == moved_pos(
                        o@[j] as int,
                        rem,
                        dest as int,
                    ),
            forall|j: int|
                0 <= j < k && rem != Some(#[trigger] o@[j] as int) ==> occurs_in(
                    r@,
                    moved_pos(o@[j] as int, rem, dest as int),
                    r@.len() as int,
                ),
            is_permutation(o@, n as int) ==> {
                &&& r@.len() == k - (if rem matches Some(p) && occurs_in(o@, p, k as int) {
                    1int
                } else {
                    0
                })
                &&& forall|a: int, b: int| 0 <= a < b < r@.len() ==> r@[a] != r@[b]
            },
        decreases o@.len() - k,
    {
        let x = o[k];
        let dropped = match removed {
            Some(p) => x == p,
            None => false,
        };
        let ghost before = r@;
        proof {
            assert(o@.subrange(0, k + 1).drop_last() =~= o@.subrange(0, k as int));
            assert(o@.subrange(0, k + 1).last() == x);
        }
        if !dropped {
            let y = match removed {
                Some(p) => if x > p {
                    x - 1
                } else {
                    x
                },
                None => x,
            };
            let z = if y >= dest {
                y + 1
            } else {
                y
            };
            proof {
                assert(z == moved_pos(x as int, rem, dest as int));
                lemma_moved_pos_injective(rem, dest as int);
            }
            r.push(z);
            proof {
                assert forall|i: int| 0 <= i < r@.len() implies exists|j: int|
                    0 <= j < k + 1 && rem != Some(o@[j] as int) && #[trigger] r@[i] == moved_pos(
                        o@[j] as int,
                        rem,
                        dest as int,
                    ) by {
                    if i == before.len() {
                        assert(r@[i] == moved_pos(o@[k as int] as int, rem, dest as int));
                        assert(0 <= k < k + 1 && rem != Some(o@[k as int] as int));
                    } else {
                        assert(r@[i] == before[i]);
                        let j = choose|j: int|
                            0 <= j < k && rem != Some(o@[j] as int) && #[trigger] before[i] == moved_pos(
                                o@[j] as int,
                                rem,
                                dest as int,
                            );
                        assert(0 <= j < k + 1 && rem != Some(o@[j] as int) && r@[i] == moved_pos(
                            o@[j] as int,
                            rem,
                            dest as int,
                        ));
                    }
                }
                assert forall|j: int|
                    0 <= j < k + 1 && rem != Some(#[trigger] o@[j] as int) implies occurs_in(
                    r@,
                    moved_pos(o@[j] as int, rem, dest as int),
                    r@.len() as int,
                ) by {
                    if j == k {
                        assert(r@[before.len() as int] == z);
                    } else {
                        assert(occurs_in(before, moved_pos(o@[j] as int, rem, dest as int), before.len() as int));
                        let w = choose|w: int| 0 <= w < before.len() && before[w] == moved_pos(o@[j] as int, rem, dest as int);
                        assert(r@[w] == before[w]);
                    }
                }
                if is_permutation(o@, n as int) {
                    assert forall|a: int, b: int| 0 <= a < b < r@.len() implies r@[a] != r@[b] by {
                        if b == before.len() {
                            assert(r@[a] == before[a]);
                            let j = choose|j: int|
                                0 <= j < k && rem != Some(o@[j] as int) && #[trigger] before[a] == moved_pos(
                                    o@[j] as int,
                                    rem,
                                    dest as int,
                                );
                            assert(o@[j] != o@[k as int]);
                        } else {
                            assert(r@[a] == before[a] && r@[b] == before[b]);
                        }
                    }
                    match rem {
                        Some(p) => {
                            if occurs_in(o@, p, k + 1) {
                                let w = choose|w: int| 0 <= w < k + 1 && o@[w] == p;
                                assert(w != k);
                                assert(occurs_in(o@, p, k as int));
                            }
                        },
                        None => {},
                    }
                }
            }
        } else {
            proof {
                assert forall|i: int| 0 <= i < r@.len() implies exists|j: int|
                    0 <= j < k + 1 && rem != Some(o@[j] as int) && #[trigger] r@[i] == moved_pos(
                        o@[j] as int,
                        rem,
                        dest as int,
                    ) by {
                    let j = choose|j: int|
                        0 <= j < k && rem != Some(o@[j] as int) && #[trigger] r@[i] == moved_pos(
                            o@[j] as int,
                            rem,
                            dest as int,
                        );
                    assert(0 <= j < k + 1);
                }
                if is_permutation(o@, n as int) {
                    let p = removed->0;
                    assert(o@[k as int] == p);
                    assert(occurs_in(o@, p as int, k + 1));
                    if occurs_in(o@, p as int, k as int) {
                        let w = choose|w: int| 0 <= w < k && o@[w] == p;
                        assert(o@[w] == o@[k as int]);
                    }
                }
            }
        }
        k = k + 1;
    }
    proof {
        assert(o@.subrange(0, o@.len() as int) =~= o@);
        if is_permutation(o@, n as int) {
            match rem {
                Some(p) => {
                    assert(occurs_in(o@, p, n as int));
                },
                None => {},
            }
            assert forall|x: int|
                0 <= x < n && !(removed == Some(x as usize)) implies occurs_in(
                r@,
                #[trigger] moved_pos(x, rem, dest as int),
                r@.len() as int,
            ) by {
                assert(occurs_in(o@, x, n as int));
                let j = choose|j: int| 0 <= j < n && o@[j] == x;
                assert(rem != Some(o@[j] as int));
            }
        }
    }
    r
}

/// Where [`insert_after`] puts its entry in `r`.
fn insert_point(r: &Vec<usize>, cur: usize) -> (at: usize)
    ensures
        at == insert_index(r@, cur as int),
{
    let mut k: usize = 0;
    while k < r.len()
        invariant
            0 <= k <= r@.len(),
            first_from(r@, cur, 0) == first_from(r@, cur, k as int),
        decreases r@.len() - k,
    {
        if r[k] == cur {
            return k + 1;
        }
        k = k + 1;
    }
    if r.len() > 0 {
        1
    } else {
        0
    }
}

proof fn lemma_insert_index_bound(r: Seq<usize>, cur: int)
    ensures
        0 <= insert_index(r, cur) <= r.len(),
{
    lemma_first_from_found(r, cur as usize, 0);
}

/// [`moved_pos`] sends distinct positions other than `removed` to distinct
/// positions.
proof fn lemma_moved_pos_injective(removed: Option<int>, dest: int)
    ensures
        forall|a: int, b: int|
            a != b && removed != Some(a) && removed != Some(b) ==> moved_pos(a, removed, dest)
                != moved_pos(b, removed, dest),
{
}

proof fn lemma_push_keeps_permutation(order: Seq<usize>, n: int)
    requires
        is_permutation(order, n),
        0 <= n <= usize::MAX,
    ensures
        is_permutation(order.push(n as usize), n + 1),
{
    let o = order.push(n as usize);
    assert forall|v: int| 0 <= v < n + 1 implies #[trigger] occurs_in(o, v, n + 1) by {
        if v == n {
            assert(o[n] == v);
        } else {
            assert(occurs_in(order, v, n));
            let k = choose|k: int| 0 <= k < n && order[k] == v;
            assert(o[k] == v);
        }
    }
    assert forall|k: int| 0 <= k < n + 1 implies #[trigger] o[k] < n + 1 by {
        if k < n {
            assert(o[k] == order[k]);
        }
    }
    assert forall|a: int, b: int| 0 <= a < n + 1 && 0 <= b < n + 1 && a != b implies o[a] != o[b] by {
        if a < n && b < n {
            assert(o[a] == order[a] && o[b] == order[b]);
        } else if a < n {
            assert(o[a] == order[a]);
        } else {
            assert(o[b] == order[b]);
        }
    }
}

proof fn lemma_swap_keeps_permutation(before: Seq<usize>, after: Seq<usize>, i: int, j: int, n: int)
    requires
        0 <= i < n,
        0 <= j < n,
        is_permutation(before, n),
        after == before.update(i, before[j]).update(j, before[i]),
    ensures
        is_permutation(after, n),
{
    assert forall|v: int| 0 <= v < n implies #[trigger] occurs_in(after, v, n) by {
        assert(occurs_in(before, v, n));
        let k = choose|k: int| 0 <= k < n && before[k] == v;
        if k == i {
            assert(after[j] == v);
        } else if k == j {
            assert(after[i] == v);
        } else {
            assert(after[k] == v);
        }
    }
}


/// No two tracks share an id.
pub open spec fn ids_distinct(ts: Seq<TrackInfo>) -> bool {
    forall|a: int, b: int|
        0 <= a < b < ts.len() ==> (#[trigger] ts[a]).video_id@ != (#[trigger] ts[b]).video_id@
}

proof fn lemma_insert_distinct(base: Seq<TrackInfo>, dest: int, item: TrackInfo)
    requires
        ids_distinct(base),
        0 <= dest <= base.len(),
        forall|j: int| 0 <= j < base.len() ==> (#[trigger] base[j]).video_id@ != item.video_id@,
    ensures
        ids_distinct(base.insert(dest, item)),
{
    let t = base.insert(dest, item);
    assert forall|a: int, b: int| 0 <= a < b < t.len() implies (#[trigger] t[a]).video_id@ != (
    #[trigger] t[b]).video_id@ by {
        let ia = if a < dest { a } else { a - 1 };
        let ib = if b < dest { b } else { b - 1 };
        if a == dest {
            assert(t[b] == base[ib]);
        } else if b == dest {
            assert(t[a] == base[ia]);
        } else {
            assert(t[a] == base[ia]);
            assert(t[b] == base[ib]);
            assert(ia < ib);
        }
    }
}

proof fn lemma_first_duplicate_exists(q: Queue, id: Seq<char>, j: int)
    requires
        Queue::is_duplicate(q, id, j),
    ensures
        exists|p: int| Queue::is_first_duplicate(q, id, p),
    decreases j,
{
    if forall|g: int| 0 <= g < j ==> !Queue::is_duplicate(q, id, g) {
        assert(Queue::is_first_duplicate(q, id, j));
    } else {
        let g = choose|g: int| 0 <= g < j && Queue::is_duplicate(q, id, g);
        lemma_first_duplicate_exists(q, id, g);
    }
}

/// Playing next moves a track instead of duplicating it: in a queue where no
/// two tracks share an id, putting a track other than the current one right
/// after it leaves no two tracks sharing an id, and that track right after
/// the current one.
pub proof fn lemma_play_next_no_repeats(q: Queue, item: TrackInfo)
    requires
        q.wf(),
        ids_distinct(q.tracks()),
        q.tracks().len() > 0 ==> item.video_id@ != q.tracks()[q.cursor()].video_id@,
    ensures
        ids_distinct(Queue::after_play_next(q, item).0),
        q.tracks().len() > 0 ==> Queue::after_play_next(q, item).0[Queue::after_play_next(q, item).1
            + 1] == item,
{
    let id = item.video_id@;
    let ts = q.tracks();
    let n = ts.len() as int;
    let removed = Queue::removed_duplicate(q, id);
    match removed {
        Some(p) => {
            assert(exists|p: int| Queue::is_first_duplicate(q, id, p));
            assert(Queue::is_first_duplicate(q, id, p));
            let base = ts.remove(p);
            assert forall|j: int| 0 <= j < base.len() implies (#[trigger] base[j]).video_id@
                != item.video_id@ by {
                if j < p {
                    assert(base[j] == ts[j]);
                } else {
                    assert(base[j] == ts[j + 1]);
                }
            }
            assert(ids_distinct(base)) by {
                assert forall|a: int, b: int| 0 <= a < b < base.len() implies (
                #[trigger] base[a]).video_id@ != (#[trigger] base[b]).video_id@ by {
                    let ia = if a < p { a } else { a + 1 };
                    let ib = if b < p { b } else { b + 1 };
                    assert(base[a] == ts[ia]);
                    assert(base[b] == ts[ib]);
                }
            }
            assert(p != q.cursor());
            let cur = Queue::after_play_next(q, item).1;
            assert(0 <= cur < base.len());
            lemma_insert_distinct(base, cur + 1, item);
        },
        None => {
            assert forall|j: int| 0 <= j < n implies (#[trigger] ts[j]).video_id@
                != item.video_id@ by {
                if ts[j].video_id@ == id {
                    assert(Queue::is_duplicate(q, id, j));
                    lemma_first_duplicate_exists(q, id, j);
                }
            }
            let cur = q.cursor();
            if n > 0 {
                assert(0 <= cur < n);
            }
            let dest = if cur + 1 < n { cur + 1 } else { n };
            lemma_insert_distinct(ts, dest, item);
        },
    }
}

/// Looking ahead agrees with the natural end of a track: the track that
/// `peek_next` announces is the one `next(true)` moves to, and `peek_next`
/// announces nothing exactly when `next(true)` stops.
pub proof fn lemma_peek_is_natural_next(q: Queue)
    requires
        q.wf(),
    ensures
        q.peek_target() == q.next_target(true),
{
}

/// `prev` undoes `next`: after a user skip forward that did not wrap around
/// from the end of the order, going back returns to the track that was
/// playing. This holds in queue order and in a shuffled order that is a
/// permutation of the queue.
pub proof fn lemma_prev_undoes_next(q: Queue, i: int)
    requires
        q.wf(),
        q.tracks().len() <= usize::MAX,
        q.next_target(false) == Some(i),
        q.order_pos() < q.tracks().len() - 1,
    ensures
        q.with_cursor(i).prev_target() == Some(q.cursor()),
{
    let n = q.tracks().len() as int;
    let r = q.with_cursor(i);
    assert(r.tracks() == q.tracks());
    assert(r.play_order() == q.play_order());
    assert(r.shuffled() == q.shuffled());
    assert(r.repeat_mode() == q.repeat_mode());
    if q.uses_order() {
        let o = q.play_order();
        assert(occurs_in(o, q.cursor(), n));
        let w = choose|w: int| 0 <= w < n && o[w] == q.cursor();
        lemma_first_from_unique(o, q.cursor() as usize, w);
        assert(q.order_pos() == w);
        let p = w + 1;
        assert(i == o[p]);
        assert(r.cursor() == o[p]);
        lemma_first_from_unique(o, o[p], p);
        assert(r.order_pos() == p);
        assert(r.uses_order());
        assert(r.nth(p - 1) == o[w]);
    } else {
        assert(!r.uses_order());
        q.lemma_order_pos_in_range();
        assert(0 <= i < n);
        assert(r.order_pos() == i);
    }
}

/// `next` undoes `prev`: after going back in a way that moved the cursor, a
/// user skip forward returns to the track that was playing. This holds in
/// queue order and in a shuffled order that is a permutation of the queue.
pub proof fn lemma_next_undoes_prev(q: Queue, j: int)
    requires
        q.wf(),
        q.tracks().len() <= usize::MAX,
        q.prev_target() == Some(j),
        j != q.cursor(),
    ensures
        q.with_cursor(j).next_target(false) == Some(q.cursor()),
{
    let n = q.tracks().len() as int;
    let r = q.with_cursor(j);
    assert(r.tracks() == q.tracks());
    assert(r.play_order() == q.play_order());
    assert(r.shuffled() == q.shuffled());
    assert(r.repeat_mode() == q.repeat_mode());
    if q.uses_order() {
        let o = q.play_order();
        assert(occurs_in(o, q.cursor(), n));
        let w = choose|w: int| 0 <= w < n && o[w] == q.cursor();
        lemma_first_from_unique(o, q.cursor() as usize, w);
        assert(q.order_pos() == w);
        assert(w > 0);
        let p = w - 1;
        assert(j == o[p]);
        assert(r.cursor() == o[p]);
        lemma_first_from_unique(o, o[p], p);
        assert(r.order_pos() == p);
        assert(r.uses_order());
        assert(r.nth(p + 1) == o[w]);
    } else {
        assert(!r.uses_order());
        q.lemma_order_pos_in_range();
        assert(0 <= j < n);
        assert(r.order_pos() == j);
    }
}

/// With shuffle on, `next(false)` walks the order
/// one entry at a time: from the `p`-th entry it moves to the `p+1`-th, so
/// that going forward from the first entry visits every track exactly once.
pub proof fn lemma_shuffle_walks_order(q: Queue)
    requires
        q.wf(),
        q.shuffled(),
        q.order_pos() + 1 < q.tracks().len(),
    ensures
        q.next_target(false) == Some(q.play_order()[q.order_pos() + 1] as int),
        q.with_cursor(q.play_order()[q.order_pos() + 1] as int).order_pos() == q.order_pos() + 1,
{
    let n = q.tracks().len() as int;
    let o = q.play_order();
    let r = q.with_cursor(o[q.order_pos() + 1] as int);
    assert(occurs_in(o, q.cursor(), n));
    let w = choose|w: int| 0 <= w < n && o[w] == q.cursor();
    lemma_first_from_unique(o, q.cursor() as usize, w);
    assert(r.play_order() == o);
    lemma_first_from_unique(o, o[w + 1], w + 1);
}

impl Default for Queue {
    fn default() -> (q: Self)
        ensures
            q.wf(),
            q.tracks().len() == 0,
            q.cursor() == 0,
            q.repeat_mode() == Repeat::Off,
            !q.shuffled(),
    {
        Queue::new()
    }
}

} // verus!
