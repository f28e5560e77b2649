//! Direct memory: a pool of physical offsets, dense from 0.
//!
//! A guest reserves a range of offsets, maps an offset at the address that is the pool's
//! base plus the offset, and releases by offset.  Offsets are handed out by a cursor that
//! only moves up, so none is ever handed out twice; a release only stops a range from
//! counting as reserved.

use crate::arith::{align_up, checked_align_up, lemma_align_up, lemma_align_up_least};
use vstd::prelude::*;

verus! {

/// The granularity of reservations.
pub const DIRECT_MEMORY_PAGE: u64 = 0x1000;

/// The size of the pool: five gibibytes.
pub const DIRECT_MEMORY_POOL_SIZE: u64 = 0x1_4000_0000;

/// The address that offset 0 is mapped at.
pub const DIRECT_MEMORY_POOL_BASE: u64 = 0x10_0000_0000;

#[verifier::ext_equal]
pub struct DirectMemoryView {
    pub next_off: u64,
    pub reservations: Seq<(u64, u64)>,
}

/// The cursor, and the reservations as (offset, length), lowest first.
pub struct DirectMemory {
    next_off: u64,
    reservations: Vec<(u64, u64)>,
}

impl View for DirectMemory {
    type V = DirectMemoryView;

    closed spec fn view(&self) -> DirectMemoryView {
        DirectMemoryView { next_off: self.next_off, reservations: self.reservations@ }
    }
}

/// The offset lies in the reservation.
pub open spec fn covers(r: (u64, u64), off: int) -> bool {
    r.0 <= off < r.0 + r.1
}

/// The offset is reserved.
pub open spec fn reserved(s: Seq<(u64, u64)>, off: int) -> bool {
    exists|i: int| 0 <= i < s.len() && covers(#[trigger] s[i], off)
}

/// Reservations are not empty, end at `limit` or below, and stand in ascending order
/// without overlapping.
pub open spec fn ordered(s: Seq<(u64, u64)>, limit: int) -> bool {
    &&& forall|i: int|
        0 <= i < s.len() ==> (#[trigger] s[i]).1 > 0 && s[i].0 + s[i].1 <= limit
    &&& forall|i: int, j: int|
        0 <= i < j < s.len() ==> (#[trigger] s[i]).0 + s[i].1 <= (#[trigger] s[j]).0
}

impl DirectMemoryView {
    /// The cursor lies in the pool, and nothing at or above it is reserved.
    pub open spec fn wf(self) -> bool {
        &&& self.next_off <= DIRECT_MEMORY_POOL_SIZE
        &&& ordered(self.reservations, self.next_off as int)
    }
}

/// The length that a request is rounded up to.
pub open spec fn rounded_len(len: u64) -> int {
    align_up(
        if len >= DIRECT_MEMORY_PAGE {
            len as int
        } else {
            DIRECT_MEMORY_PAGE as int
        },
        DIRECT_MEMORY_PAGE as int,
    )
}

/// The alignment of a request: a page at least.
pub open spec fn effective_align(align: u64) -> int {
    if align >= DIRECT_MEMORY_PAGE {
        align as int
    } else {
        DIRECT_MEMORY_PAGE as int
    }
}

/// What remains of one reservation when `[start, end)` is released.
pub open spec fn cut(r: (u64, u64), start: u64, end: u64) -> Seq<(u64, u64)> {
    if r.0 < end && r.0 + r.1 > start {
        let head = if r.0 < start {
            seq![(r.0, (start - r.0) as u64)]
        } else {
            Seq::<(u64, u64)>::empty()
        };
        let tail = if r.0 + r.1 > end {
            seq![(end, (r.0 + r.1 - end) as u64)]
        } else {
            Seq::<(u64, u64)>::empty()
        };
        head + tail
    } else {
        seq![r]
    }
}

/// What remains of all reservations when `[start, end)` is released.
pub open spec fn trimmed(s: Seq<(u64, u64)>, start: u64, end: u64) -> Seq<(u64, u64)>
    decreases s.len(),
{
    if s.len() == 0 {
        Seq::empty()
    } else {
        trimmed(s.drop_last(), start, end) + cut(s.last(), start, end)
    }
}

/// How much a release of length 0 frees: the rest of the reservation that the offset lies
/// in, or a page where it lies in none.
pub open spec fn rest_of_reservation(s: Seq<(u64, u64)>, off: u64) -> int {
    if reserved(s, off as int) {
        let i = choose|i: int| 0 <= i < s.len() && covers(#[trigger] s[i], off as int);
        s[i].0 + s[i].1 - off
    } else {
        DIRECT_MEMORY_PAGE as int
    }
}

/// How much a release frees, before it is cut off at the end of the pool.
pub open spec fn release_len(s: Seq<(u64, u64)>, off: u64, len: u64) -> int {
    if len == 0 {
        rest_of_reservation(s, off)
    } else {
        align_up(len as int, DIRECT_MEMORY_PAGE as int)
    }
}

/// Where a release ends.
pub open spec fn release_end(s: Seq<(u64, u64)>, off: u64, len: u64) -> int {
    let end = off + release_len(s, off, len);
    if end <= DIRECT_MEMORY_POOL_SIZE {
        end
    } else {
        DIRECT_MEMORY_POOL_SIZE as int
    }
}

/// What an allocation gives: the offset, if the pool still holds the request.
pub open spec fn allocated(s: DirectMemoryView, len: u64, align: u64) -> Option<u64> {
    let off = align_up(s.next_off as int, effective_align(align));
    if off + rounded_len(len) <= DIRECT_MEMORY_POOL_SIZE {
        Some(off as u64)
    } else {
        None
    }
}

/// The pool after an allocation at `off`.
pub open spec fn after_allocation(s: DirectMemoryView, off: u64, len: u64) -> DirectMemoryView {
    DirectMemoryView {
        next_off: (off + rounded_len(len)) as u64,
        reservations: s.reservations.push((off, rounded_len(len) as u64)),
    }
}

/// The pool after a release.
pub open spec fn after_release(s: DirectMemoryView, off: u64, len: u64) -> DirectMemoryView {
    DirectMemoryView {
        reservations: trimmed(
            s.reservations,
            off,
            release_end(s.reservations, off, len) as u64,
        ),
        ..s
    }
}

/// The free run that a query finds, as offset and size.
pub open spec fn available(
    s: DirectMemoryView,
    search_start: u64,
    search_end: u64,
    align: u64,
) -> Option<(u64, u64)> {
    let start = align_up(
        if search_start >= s.next_off {
            search_start as int
        } else {
            s.next_off as int
        },
        effective_align(align),
    );
    let end = if search_end == 0 || search_end > DIRECT_MEMORY_POOL_SIZE {
        DIRECT_MEMORY_POOL_SIZE
    } else {
        search_end
    };
    if start < end {
        Some((start as u64, (end - start) as u64))
    } else {
        None
    }
}

/// Cutting the last reservation keeps the order.
proof fn lemma_cut_ordered(done: Seq<(u64, u64)>, r: (u64, u64), start: u64, end: u64, limit: int)
    requires
        start < end,
        ordered(done, r.0 as int),
        r.1 > 0,
        r.0 + r.1 <= limit,
    ensures
        ordered(done + cut(r, start, end), limit),
        forall|x: int| #[trigger]
            reserved(done + cut(r, start, end), x) == (reserved(done, x) || (covers(r, x) && !(start
                <= x < end))),
{
    let c = cut(r, start, end);
    let all = done + c;
    assert forall|i: int| 0 <= i < all.len() implies (#[trigger] all[i]).1 > 0 && all[i].0
        + all[i].1 <= limit by {
        if i < done.len() {
            assert(all[i] == done[i]);
        } else {
            assert(all[i] == c[i - done.len()]);
        }
    }
    assert forall|i: int, j: int| 0 <= i < j < all.len() implies (#[trigger] all[i]).0 + all[i].1
        <= (#[trigger] all[j]).0 by {
        if j < done.len() {
            assert(all[i] == done[i] && all[j] == done[j]);
        } else if i < done.len() {
            assert(all[i] == done[i] && all[j] == c[j - done.len()]);
        } else {
            assert(all[i] == c[i - done.len()] && all[j] == c[j - done.len()]);
        }
    }
    assert forall|x: int| #[trigger]
        reserved(all, x) == (reserved(done, x) || (covers(r, x) && !(start <= x < end))) by {
        if reserved(done, x) {
            let i = choose|i: int| 0 <= i < done.len() && covers(#[trigger] done[i], x);
            assert(all[i] == done[i]);
            assert(reserved(all, x));
        }
        if covers(r, x) && !(start <= x < end) {
            if r.0 < end && r.0 + r.1 > start {
                if x < start {
                    assert(c[0] == (r.0, (start - r.0) as u64));
                    assert(covers(all[done.len() as int], x));
                } else {
                    assert(c[c.len() - 1] == (end, (r.0 + r.1 - end) as u64));
                    assert(covers(all[done.len() + c.len() - 1], x));
                }
            } else {
                assert(c[0] == r);
                assert(covers(all[done.len() as int], x));
            }
        }
        if reserved(all, x) {
            let i = choose|i: int| 0 <= i < all.len() && covers(#[trigger] all[i], x);
            if i < done.len() {
                assert(covers(done[i], x));
            } else {
                assert(all[i] == c[i - done.len()]);
            }
        }
    }
}

/// A release frees exactly its range, and keeps the order.
proof fn lemma_trimmed(s: Seq<(u64, u64)>, start: u64, end: u64, limit: int)
    requires
        start < end,
        ordered(s, limit),
    ensures
        ordered(trimmed(s, start, end), limit),
        forall|x: int| #[trigger]
            reserved(trimmed(s, start, end), x) == (reserved(s, x) && !(start <= x < end)),
    decreases s.len(),
{
    if s.len() > 0 {
        let front = s.drop_last();
        let r = s.last();
        assert(ordered(front, r.0 as int)) by {
            assert forall|i: int| 0 <= i < front.len() implies (#[trigger] front[i]).1 > 0
                && front[i].0 + front[i].1 <= r.0 by {
                assert(front[i] == s[i]);
                assert(s[i].0 + s[i].1 <= s[s.len() - 1].0);
            }
            assert forall|i: int, j: int| 0 <= i < j < front.len() implies (#[trigger] front[i]).0
                + front[i].1 <= (#[trigger] front[j]).0 by {
                assert(front[i] == s[i] && front[j] == s[j]);
            }
        }
        lemma_trimmed(front, start, end, r.0 as int);
        lemma_cut_ordered(trimmed(front, start, end), r, start, end, limit);
        assert forall|x: int| #[trigger]
            reserved(trimmed(s, start, end), x) == (reserved(s, x) && !(start <= x < end)) by {
            assert(reserved(trimmed(front, start, end), x) == (reserved(front, x) && !(start <= x
                < end)));
            if reserved(s, x) {
                let i = choose|i: int| 0 <= i < s.len() && covers(#[trigger] s[i], x);
                if i < front.len() {
                    assert(covers(front[i], x));
                } else {
                    assert(covers(r, x));
                }
            }
            if reserved(front, x) {
                let i = choose|i: int| 0 <= i < front.len() && covers(#[trigger] front[i], x);
                assert(covers(s[i], x));
            }
            if covers(r, x) {
                assert(covers(s[s.len() - 1], x));
            }
        }
    }
}

/// At most one reservation covers an offset.
proof fn lemma_cover_unique(s: Seq<(u64, u64)>, limit: int, i: int, j: int, off: int)
    requires
        ordered(s, limit),
        0 <= i < s.len(),
        0 <= j < s.len(),
        covers(s[i], off),
        covers(s[j], off),
    ensures
        i == j,
{
    if i < j {
        assert(s[i].0 + s[i].1 <= s[j].0);
    } else if j < i {
        assert(s[j].0 + s[j].1 <= s[i].0);
    }
}

impl DirectMemory {
    pub fn new() -> (dm: Self)
        ensures
            dm@.wf(),
            dm@ == (DirectMemoryView { next_off: 0, reservations: Seq::empty() }),
    {
        DirectMemory { next_off: 0, reservations: Vec::new() }
    }

    /// The next offset that was never handed out.
    pub fn next_off(&self) -> (off: u64)
        ensures
            off == self@.next_off,
    {
        self.next_off
    }

    /// The length of the reservation that begins at an offset.
    pub fn reservation_at(&self, off: u64) -> (len: Option<u64>)
        requires
            self@.wf(),
        ensures
            match len {
                Some(l) => self@.reservations.contains((off, l)),
                None => forall|l: u64| !self@.reservations.contains((off, l)),
            },
    {
        let mut i: usize = 0;
        while i < self.reservations.len()
            invariant
                i <= self.reservations@.len(),
                forall|j: int| 0 <= j < i ==> (#[trigger] self.reservations@[j]).0 != off,
            decreases self.reservations@.len() - i,
        {
            if self.reservations[i].0 == off {
                assert(self.reservations@[i as int] == (off, self.reservations@[i as int].1));
                return Some(self.reservations[i].1);
            }
            i = i + 1;
        }
        None
    }

    /// The address an offset is mapped at.
    pub fn phys_to_va(off: u64) -> (va: u64)
        requires
            DIRECT_MEMORY_POOL_BASE + off <= u64::MAX,
        ensures
            va == DIRECT_MEMORY_POOL_BASE + off,
    {
        DIRECT_MEMORY_POOL_BASE + off
    }

    /// Reserve a fresh range.  `None` says that the pool is exhausted.
    pub fn allocate(&mut self, len: u64, align: u64) -> (off: Option<u64>)
        requires
            old(self)@.wf(),
        ensures
            final(self)@.wf(),
            off == allocated(old(self)@, len, align),
            final(self)@ == (match off {
                Some(off) => after_allocation(old(self)@, off, len),
                None => old(self)@,
            }),
            off matches Some(off) ==> old(self)@.next_off <= off && off % (if align
                >= DIRECT_MEMORY_PAGE {
                align
            } else {
                DIRECT_MEMORY_PAGE
            }) == 0,
    {
        let want: u64 = if len >= DIRECT_MEMORY_PAGE {
            len
        } else {
            DIRECT_MEMORY_PAGE
        };
        let align: u64 = if align >= DIRECT_MEMORY_PAGE {
            align
        } else {
            DIRECT_MEMORY_PAGE
        };
        proof {
            lemma_align_up(want as int, DIRECT_MEMORY_PAGE as int);
            lemma_align_up(self.next_off as int, align as int);
        }
        let len: u64 = match checked_align_up(want, DIRECT_MEMORY_PAGE) {
            Some(l) => l,
            None => {
                return None;
            },
        };
        let off: u64 = match checked_align_up(self.next_off, align) {
            Some(o) => o,
            None => {
                return None;
            },
        };
        let end: u64 = match off.checked_add(len) {
            Some(e) => e,
            None => {
                return None;
            },
        };
        if end > DIRECT_MEMORY_POOL_SIZE {
            return None;
        }
        let ghost before = self.reservations@;
        self.next_off = end;
        self.reservations.push((off, len));
        proof {
            let s = self.reservations@;
            assert forall|i: int| 0 <= i < s.len() implies (#[trigger] s[i]).1 > 0 && s[i].0
                + s[i].1 <= end by {
                if i < before.len() {
                    assert(s[i] == before[i]);
                }
            }
            assert forall|i: int, j: int| 0 <= i < j < s.len() implies (#[trigger] s[i]).0 + s[i].1
                <= (#[trigger] s[j]).0 by {
                assert(s[i] == before[i]);
                if j < before.len() {
                    assert(s[j] == before[j]);
                }
            }
        }
        Some(off)
    }

    /// The rest of the reservation that an offset lies in, or a page.
    fn rest(&self, off: u64) -> (len: u64)
        requires
            self@.wf(),
        ensures
            len == rest_of_reservation(self@.reservations, off),
            0 < len <= DIRECT_MEMORY_POOL_SIZE,
    {
        let mut i: usize = 0;
        while i < self.reservations.len()
            invariant
                self@.wf(),
                i <= self.reservations@.len(),
                forall|j: int|
                    0 <= j < i ==> !covers(#[trigger] self.reservations@[j], off as int),
            decreases self.reservations@.len() - i,
        {
            let r = self.reservations[i];
            assert(self@.reservations[i as int] == r);
            if r.0 <= off && off < r.0 + r.1 {
                proof {
                    let s = self@.reservations;
                    assert(covers(s[i as int], off as int));
                    let k = choose|k: int|
                        0 <= k < s.len() && covers(#[trigger] s[k], off as int);
                    lemma_cover_unique(s, self@.next_off as int, i as int, k, off as int);
                }
                return r.0 + r.1 - off;
            }
            i = i + 1;
        }
        DIRECT_MEMORY_PAGE
    }

    /// Release a range.  The result is the span of addresses that the range has, or
    /// `None`, with nothing done, where the offset lies outside of the pool.
    pub fn take_for_release(&mut self, off: u64, len: u64) -> (span: Option<(u64, u64)>)
        requires
            old(self)@.wf(),
            off < DIRECT_MEMORY_POOL_SIZE ==> off + align_up(
                len as int,
                DIRECT_MEMORY_PAGE as int,
            ) <= u64::MAX,
        ensures
            final(self)@.wf(),
            ({
                let end = release_end(old(self)@.reservations, off, len);
                if off >= DIRECT_MEMORY_POOL_SIZE {
                    span is None && final(self)@ == old(self)@
                } else {
                    &&& span == Some(((DIRECT_MEMORY_POOL_BASE + off) as u64, (end - off) as u64))
                    &&& off < end <= DIRECT_MEMORY_POOL_SIZE
                    &&& final(self)@ == after_release(old(self)@, off, len)
                }
            }),
    {
        if off >= DIRECT_MEMORY_POOL_SIZE {
            return None;
        }
        proof {
            lemma_align_up(len as int, DIRECT_MEMORY_PAGE as int);
        }
        let free_len: u64 = if len == 0 {
            self.rest(off)
        } else {
            match checked_align_up(len, DIRECT_MEMORY_PAGE) {
                Some(l) => l,
                None => DIRECT_MEMORY_PAGE,
            }
        };
        let end: u64 = if off + free_len <= DIRECT_MEMORY_POOL_SIZE {
            off + free_len
        } else {
            DIRECT_MEMORY_POOL_SIZE
        };
        self.trim_reservations(off, end);
        Some((Self::phys_to_va(off), end - off))
    }

    /// Cut `[start, end)` out of every reservation.
    fn trim_reservations(&mut self, start: u64, end: u64)
        requires
            old(self)@.wf(),
            start < end,
        ensures
            final(self)@.wf(),
            final(self)@ == (DirectMemoryView {
                reservations: trimmed(old(self)@.reservations, start, end),
                ..old(self)@
            }),
    {
        let mut kept: Vec<(u64, u64)> = Vec::new();
        let mut i: usize = 0;
        assert(self.reservations@.take(0) =~= Seq::empty());
        while i < self.reservations.len()
            invariant
                *self == *old(self),
                self@.wf(),
                i <= self.reservations@.len(),
                kept@ == trimmed(self.reservations@.take(i as int), start, end),
            decreases self.reservations@.len() - i,
        {
            let r = self.reservations[i];
            assert(self@.reservations[i as int] == r);
            let ghost done = kept@;
            if r.0 < end && r.0 + r.1 > start {
                if r.0 < start {
                    kept.push((r.0, start - r.0));
                }
                if r.0 + r.1 > end {
                    kept.push((end, r.0 + r.1 - end));
                }
            } else {
                kept.push(r);
            }
            assert(kept@ =~= done + cut(r, start, end));
            let ghost next = self.reservations@.take(i + 1);
            assert(next.drop_last() =~= self.reservations@.take(i as int));
            i = i + 1;
        }
        assert(self.reservations@.take(i as int) =~= self.reservations@);
        proof {
            lemma_trimmed(self.reservations@, start, end, self.next_off as int);
        }
        self.reservations = kept;
    }

    /// The largest free run in `[search_start, search_end)`, as offset and size.  No
    /// offset is ever reused, so this is what lies above the cursor.  An end of 0 is none.
    pub fn available_direct_memory(&self, search_start: u64, search_end: u64, align: u64) -> (run:
        Option<(u64, u64)>)
        requires
            self@.wf(),
        ensures
            run == available(self@, search_start, search_end, align),
    {
        let align: u64 = if align >= DIRECT_MEMORY_PAGE {
            align
        } else {
            DIRECT_MEMORY_PAGE
        };
        let from: u64 = if search_start >= self.next_off {
            search_start
        } else {
            self.next_off
        };
        let start: u64 = match checked_align_up(from, align) {
            Some(s) => s,
            None => {
                return None;
            },
        };
        let end: u64 = if search_end == 0 || search_end > DIRECT_MEMORY_POOL_SIZE {
            DIRECT_MEMORY_POOL_SIZE
        } else {
            search_end
        };
        if start < end {
            Some((start, end - start))
        } else {
            None
        }
    }
}

/// An allocation is fresh: it lies at or above the cursor, so that it overlaps neither
/// what is reserved nor anything handed out before, released or not; and the cursor moves
/// past it.
pub proof fn law_offsets_are_never_reused(s: DirectMemoryView, len: u64, align: u64, x: int)
    requires
        s.wf(),
    ensures
        allocated(s, len, align) matches Some(off) ==> {
            let t = after_allocation(s, off, len);
            &&& t.wf()
            &&& off >= s.next_off
            &&& t.next_off == off + rounded_len(len)
            &&& rounded_len(len) >= len
            &&& !(reserved(s.reservations, x) && off <= x < t.next_off)
            &&& reserved(t.reservations, x) == (reserved(s.reservations, x) || off <= x
                < t.next_off)
        },
{
    let want = if len >= DIRECT_MEMORY_PAGE {
        len as int
    } else {
        DIRECT_MEMORY_PAGE as int
    };
    lemma_align_up(want, DIRECT_MEMORY_PAGE as int);
    lemma_align_up(s.next_off as int, effective_align(align));
    if let Some(off) = allocated(s, len, align) {
        let t = after_allocation(s, off, len);
        let n = s.reservations.len() as int;
        assert(t.reservations[n] == (off, rounded_len(len) as u64));
        assert forall|i: int| 0 <= i < n implies t.reservations[i] == #[trigger] s.reservations[i] by {
        }
        assert(ordered(t.reservations, t.next_off as int)) by {
            assert forall|i: int| 0 <= i < t.reservations.len() implies (
            #[trigger] t.reservations[i]).1 > 0 && t.reservations[i].0 + t.reservations[i].1
                <= t.next_off by {
                if i < n {
                    assert(t.reservations[i] == s.reservations[i]);
                }
            }
            assert forall|i: int, j: int| 0 <= i < j < t.reservations.len() implies (
            #[trigger] t.reservations[i]).0 + t.reservations[i].1 <= (
            #[trigger] t.reservations[j]).0 by {
                assert(t.reservations[i] == s.reservations[i]);
                if j < n {
                    assert(t.reservations[j] == s.reservations[j]);
                }
            }
        }
        if reserved(s.reservations, x) {
            let i = choose|i: int|
                0 <= i < s.reservations.len() && covers(#[trigger] s.reservations[i], x);
            assert(covers(t.reservations[i], x));
        }
        if reserved(t.reservations, x) {
            let i = choose|i: int|
                0 <= i < t.reservations.len() && covers(#[trigger] t.reservations[i], x);
            if i < n {
                assert(covers(s.reservations[i], x));
            }
        }
        if off <= x < t.next_off {
            assert(covers(t.reservations[n], x));
        }
    }
}

/// A release frees its range and nothing else, and leaves the cursor where it is: what
/// straddles the range keeps its head and its tail.
pub proof fn law_release_frees_exactly_its_range(s: DirectMemoryView, off: u64, len: u64, x: int)
    requires
        s.wf(),
        off < DIRECT_MEMORY_POOL_SIZE,
    ensures
        ({
            let t = after_release(s, off, len);
            let end = release_end(s.reservations, off, len);
            &&& t.wf()
            &&& t.next_off == s.next_off
            &&& off < end
            &&& reserved(t.reservations, x) == (reserved(s.reservations, x) && !(off <= x < end))
        }),
{
    lemma_align_up(len as int, DIRECT_MEMORY_PAGE as int);
    lemma_trimmed(
        s.reservations,
        off,
        release_end(s.reservations, off, len) as u64,
        s.next_off as int,
    );
}

/// What a query reports as free, an allocation of the same alignment gets: at the offset
/// reported, and exactly as long as it fits in the size reported.
pub proof fn law_available_is_what_allocation_gets(s: DirectMemoryView, len: u64, align: u64)
    requires
        s.wf(),
    ensures
        match available(s, 0, 0, align) {
            Some((start, size)) => allocated(s, len, align) == (if rounded_len(len) <= size {
                Some(start)
            } else {
                None::<u64>
            }),
            None => allocated(s, len, align) is None,
        },
{
    let want = if len >= DIRECT_MEMORY_PAGE {
        len as int
    } else {
        DIRECT_MEMORY_PAGE as int
    };
    lemma_align_up(want, DIRECT_MEMORY_PAGE as int);
}

/// An allocation wastes no more than alignment asks for: it is the lowest aligned offset
/// at or above the cursor.
pub proof fn law_allocation_is_dense(s: DirectMemoryView, len: u64, align: u64, m: int)
    requires
        s.wf(),
        m >= s.next_off,
        m % effective_align(align) == 0,
    ensures
        allocated(s, len, align) matches Some(off) ==> off <= m,
{
    lemma_align_up_least(s.next_off as int, effective_align(align), m);
}

/// A pool of five gibibytes at the address 0x10_0000_0000, in pages of 4096 bytes.
pub proof fn law_pool()
    ensures
        DIRECT_MEMORY_POOL_SIZE == 5 * 1024 * 1024 * 1024,
        DIRECT_MEMORY_POOL_BASE == 0x10_0000_0000,
        DIRECT_MEMORY_PAGE == 4096,
{
}

/// A request takes whole pages, one at least, and no more of them than it needs; it is aligned as
/// asked for, and to a page at least.
pub proof fn law_requests_take_whole_pages(len: u64, align: u64)
    ensures
        rounded_len(len) % 4096 == 0,
        len == 0 ==> rounded_len(len) == 4096,
        len > 0 ==> len <= rounded_len(len) < len + 4096,
        align < 4096 ==> effective_align(align) == 4096,
        align >= 4096 ==> effective_align(align) == align,
{
    lemma_align_up(
        if len >= 4096 {
            len as int
        } else {
            4096
        },
        4096,
    );
}

/// An allocation fails only where no place at or above the cursor would do; where one would, it
/// gets the lowest, and is noted there with its length.
pub proof fn law_allocation_finds_a_place(s: DirectMemoryView, len: u64, align: u64, m: int)
    requires
        s.wf(),
    ensures
        ({
            let a = effective_align(align);
            let fits = s.next_off <= m && m % a == 0 && m + rounded_len(len) <= 5 * 0x4000_0000;
            match allocated(s, len, align) {
                Some(off) => {
                    &&& s.next_off <= off && off as int % a == 0 && off + rounded_len(len) <= 5
                        * 0x4000_0000
                    &&& fits ==> off <= m
                    &&& after_allocation(s, off, len).reservations.len() == s.reservations.len() + 1
                    &&& after_allocation(s, off, len).reservations.last() == (
                        off,
                        rounded_len(len) as u64,
                    )
                    &&& after_allocation(s, off, len).reservations.drop_last() == s.reservations
                    &&& after_allocation(s, off, len).next_off == off + rounded_len(len)
                },
                None => !fits,
            }
        }),
{
    let a = effective_align(align);
    lemma_align_up(s.next_off as int, a);
    law_requests_take_whole_pages(len, align);
    if s.next_off <= m && m % a == 0 {
        lemma_align_up_least(s.next_off as int, a, m);
    }
    if let Some(off) = allocated(s, len, align) {
        assert(after_allocation(s, off, len).reservations.drop_last() =~= s.reservations);
    }
}

/// A release ends where it was asked to, in whole pages; one without a length at the end of the
/// reservation that the offset lies in, or after a page where it lies in none; and none goes
/// beyond the pool.
pub proof fn law_releases_end(s: DirectMemoryView, off: u64, len: u64, i: int)
    requires
        s.wf(),
        off < 5 * 0x4000_0000,
    ensures
        ({
            let end = release_end(s.reservations, off, len);
            let r = s.reservations[i];
            let pool = 5 * 0x4000_0000;
            &&& end <= pool
            &&& len > 0 && off + len + 4096 <= pool ==> off + len <= end < off + len + 4096 && (end
                - off) % 4096 == 0
            &&& len > 0 && off + len >= pool ==> end == pool
            &&& len == 0 && 0 <= i < s.reservations.len() && r.0 <= off < r.0 + r.1 ==> end == r.0
                + r.1
            &&& len == 0 && off + 4096 <= pool && (forall|k: int|
                0 <= k < s.reservations.len() ==> !((#[trigger] s.reservations[k]).0 <= off
                    < s.reservations[k].0 + s.reservations[k].1)) ==> end == off + 4096
        }),
{
    lemma_align_up(len as int, 4096);
    let q = s.reservations;
    if len == 0 && 0 <= i < q.len() && q[i].0 <= off < q[i].0 + q[i].1 {
        assert(covers(q[i], off as int));
        let k = choose|k: int| 0 <= k < q.len() && covers(#[trigger] q[k], off as int);
        lemma_cover_unique(q, s.next_off as int, i, k, off as int);
    }
    if len == 0 && (forall|k: int|
        0 <= k < q.len() ==> !((#[trigger] q[k]).0 <= off < q[k].0 + q[k].1)) {
        assert(!reserved(q, off as int));
    }
}

/// A query finds the lowest aligned offset that is neither below where it searches nor below the
/// cursor, and all from there to where it searches, or to the end of the pool.
pub proof fn law_queries(s: DirectMemoryView, search_start: u64, search_end: u64, align: u64, m: int)
    requires
        s.wf(),
    ensures
        ({
            let a = effective_align(align);
            let end = if search_end == 0 || search_end > 5 * 0x4000_0000 {
                0x1_4000_0000int
            } else {
                search_end as int
            };
            let free = search_start <= m && s.next_off <= m && m % a == 0 && m < end;
            match available(s, search_start, search_end, align) {
                Some((start, size)) => {
                    &&& start >= search_start && start >= s.next_off && start as int % a == 0
                    &&& start + size == end && size > 0
                    &&& free ==> start <= m
                },
                None => !free,
            }
        }),
{
    let from = if search_start >= s.next_off {
        search_start as int
    } else {
        s.next_off as int
    };
    let a = effective_align(align);
    lemma_align_up(from, a);
    if from <= m && m % a == 0 {
        lemma_align_up_least(from, a, m);
    }
}

} // verus!
