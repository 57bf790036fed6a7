//! What holds of a stream as a whole: the ring buffer is a queue between the application and the
//! hardware.

use vstd::arithmetic::div_mod::{
    lemma_add_mod_noop_right, lemma_fundamental_div_mod, lemma_hoist_over_denominator,
    lemma_mod_bound, lemma_mod_multiples_vanish, lemma_small_mod, lemma_sub_mod_noop_right,
};
use vstd::prelude::*;

use crate::dir::{lemma_one_turn, Capture, MmapDir, Playback};
use crate::iter::{law_walk_covers_what_is_available, Iter};
use crate::mmap::{lemma_room, lemma_samples, lemma_start, lemma_whole_frames, Ring};
use crate::playback::{drawn, drawn_until, lemma_answers_add_up};
use crate::ring::{cell_after, law_ring_stores_add_up, ring_load, ring_store};

verus! {

impl Ring {
    /// Frames from the pointer `from` on to the pointer `to`, counted around the boundary.
    pub open spec fn lag(self, from: int, to: int) -> int {
        (to - from) % self.bound
    }

    /// The cell of the buffer at the pointer `at`.
    pub open spec fn cell_at(self, at: int) -> int {
        (at % self.frames) * self.channels
    }

    /// The samples in the buffer from the pointer `from` on to the pointer `to`.
    pub open spec fn queue<S>(self, mem: Seq<S>, from: int, to: int) -> Seq<S> {
        ring_load(mem, self.cell_at(from), self.lag(from, to) * self.channels)
    }

    /// What has been written and not been played.
    pub open spec fn to_play<S>(self, mem: Seq<S>) -> Seq<S> {
        self.queue(mem, self.hw, self.appl)
    }

    /// What has been recorded and not been read.
    pub open spec fn to_read<S>(self, mem: Seq<S>) -> Seq<S> {
        self.queue(mem, self.appl, self.hw)
    }

    /// The ring after the hardware has read or written `v` frames.
    pub open spec fn hw_advanced(self, v: int) -> Ring {
        Ring { hw: (self.hw + v) % self.bound, ..self }
    }
}

/// The pointers stay in the ring whatever is committed and whatever the hardware gets done. Where a
/// buffer beyond the boundary can be counted, so can what is available and what is to be committed.
pub proof fn law_pointers_stay_in_ring<D: MmapDir>(ring: Ring, n: int)
    requires
        ring.in_ring(),
    ensures
        ring.advanced(n).in_ring(),
        ring.hw_advanced(n).in_ring(),
        ring.bound + ring.frames <= isize::MAX ==> {
            &&& ring.countable::<D>()
            &&& ring.appl + ring.room::<D>() <= isize::MAX
        },
{
    D::law_lead_is_within_buffer(ring.frames);
    lemma_mod_bound(ring.appl + n, ring.bound);
    lemma_mod_bound(ring.hw + n, ring.bound);
}

/// What the application commits is no longer available to it.
pub proof fn law_commit_uses_up_avail<D: MmapDir>(ring: Ring, n: int)
    requires
        ring.in_ring(),
        ring.countable::<D>(),
        ring.advanced(n).countable::<D>(),
        0 <= n <= ring.avail::<D>(),
    ensures
        ring.advanced(n).in_ring(),
        ring.advanced(n).avail::<D>() == ring.avail::<D>() - n,
{
    let goal = ring.hw + D::lead(ring.frames);
    lemma_mod_bound(ring.appl + n, ring.bound);
    lemma_room::<D>(ring);
    lemma_room::<D>(ring.advanced(n));
    lemma_sub_mod_noop_right(goal, ring.appl + n, ring.bound);
    lemma_add_mod_noop_right(-n, goal - ring.appl, ring.bound);
    lemma_small_mod((ring.avail::<D>() - n) as nat, ring.bound as nat);
}

/// What the hardware gets done becomes available, as long as it stays below the boundary.
pub proof fn law_hardware_adds_to_avail<D: MmapDir>(ring: Ring, n: int)
    requires
        ring.in_ring(),
        ring.countable::<D>(),
        0 <= n,
        ring.avail::<D>() + n < ring.bound,
        ring.hw_advanced(n).countable::<D>(),
    ensures
        ring.hw_advanced(n).in_ring(),
        ring.hw_advanced(n).avail::<D>() == ring.avail::<D>() + n,
{
    let d = D::lead(ring.frames) - ring.appl;
    lemma_mod_bound(ring.hw + n, ring.bound);
    lemma_room::<D>(ring);
    lemma_room::<D>(ring.hw_advanced(n));
    lemma_add_mod_noop_right(d, ring.hw + n, ring.bound);
    lemma_add_mod_noop_right(n, ring.hw + d, ring.bound);
    lemma_small_mod((ring.avail::<D>() + n) as nat, ring.bound as nat);
}

/// To commit in two goes is to commit at once.
pub proof fn law_commits_add_up(ring: Ring, m: int, n: int)
    requires
        ring.in_ring(),
    ensures
        ring.advanced(m).advanced(n) == ring.advanced(m + n),
{
    lemma_add_mod_noop_right(n, ring.appl + m, ring.bound);
}

/// To commit nothing changes nothing: a walk that has come to its end can still be finished.
pub proof fn law_commit_of_nothing_changes_nothing(ring: Ring)
    requires
        ring.in_ring(),
    ensures
        ring.advanced(0) == ring,
{
    lemma_small_mod(ring.appl as nat, ring.bound as nat);
}

/// A stream that plays leaves free what it has not been given to play. Where the hardware has
/// played more than it was given, an underrun, more is available than the buffer holds.
///
/// Left out is a stream with nothing to play whose buffer is as long as a turn of the boundary.
pub proof fn law_playback_avail_is_what_is_free(ring: Ring)
    requires
        ring.in_ring(),
        ring.countable::<Playback>(),
        ring.hw != ring.appl || ring.frames < ring.bound,
    ensures
        ring.lag(ring.hw, ring.appl) <= ring.frames ==> ring.avail::<Playback>() == ring.frames
            - ring.lag(ring.hw, ring.appl),
        ring.lag(ring.hw, ring.appl) > ring.frames ==> ring.avail::<Playback>() == ring.bound
            + ring.frames - ring.lag(ring.hw, ring.appl) > ring.frames,
{
    lemma_room::<Playback>(ring);
    lemma_one_turn(ring.hw + ring.frames - ring.appl, ring.bound);
    lemma_one_turn(ring.appl - ring.hw, ring.bound);
}

/// To a stream that records, what has been recorded and not been read is available.
pub proof fn law_capture_avail_is_what_is_recorded(ring: Ring)
    requires
        ring.in_ring(),
    ensures
        ring.avail::<Capture>() == ring.lag(ring.appl, ring.hw),
{
    lemma_room::<Capture>(ring);
}

/// The position after `n` frames is `n` frames further on in the buffer, around its end. Where the
/// pointer wraps, that takes a boundary of whole buffers.
pub proof fn law_positions_follow_each_other(ring: Ring, at: int, n: int)
    requires
        ring.in_ring(),
        0 <= at < ring.bound,
        0 <= n <= ring.frames,
        at + n < ring.bound || ring.bound % ring.frames == 0,
    ensures
        0 <= ring.cell_at(at) < ring.cells(),
        ring.cell_at((at + n) % ring.bound) == cell_after(
            ring.cell_at(at),
            n * ring.channels,
            ring.cells(),
        ),
{
    let (frames, c) = (ring.frames, ring.channels);
    let offset = at % frames;
    lemma_mod_bound(at, frames);
    lemma_one_turn(at + n, ring.bound);
    if at + n >= ring.bound {
        lemma_fundamental_div_mod(ring.bound, frames);
        lemma_mod_multiples_vanish(-(ring.bound / frames), at + n, frames);
        assert(frames * (-(ring.bound / frames)) == -(frames * (ring.bound / frames)))
            by (nonlinear_arith);
    }
    lemma_add_mod_noop_right(n, at, frames);
    lemma_one_turn(offset + n, frames);
    lemma_start(Ring { appl: at, ..ring });
    assert(offset * c + n * c == (offset + n) * c && (offset + n - frames) * c == (offset + n) * c
        - frames * c) by (nonlinear_arith);
    assert(offset + n < frames <==> (offset + n) * c < frames * c) by (nonlinear_arith)
        requires
            0 < c,
    ;
}

/// What is stored from the end of the queue on comes last in the queue, and what was in it stays.
pub proof fn law_store_appends_to_queue<S>(
    ring: Ring,
    mem: Seq<S>,
    from: int,
    to: int,
    samples: Seq<S>,
    n: int,
)
    requires
        ring.in_ring(),
        mem.len() == ring.cells(),
        0 <= from < ring.bound,
        0 <= to < ring.bound,
        0 <= n * ring.channels <= samples.len(),
        ring.lag(from, to) * ring.channels + samples.len() <= ring.cells(),
        ring.lag(from, to) + n < ring.bound,
        from <= to || ring.bound % ring.frames == 0,
    ensures
        ring.queue(ring_store(mem, ring.cell_at(to), samples), from, (to + n) % ring.bound)
            == ring.queue(mem, from, to) + samples.take(n * ring.channels),
{
    let (lag, c) = (ring.lag(from, to), ring.channels);
    let after = ring_store(mem, ring.cell_at(to), samples);
    lemma_mod_bound(to - from, ring.bound);
    lemma_one_turn(to - from, ring.bound);
    assert(0 <= n && lag <= ring.frames && lag * c + n * c == (lag + n) * c && 0 <= lag * c)
        by (nonlinear_arith)
        requires
            0 <= n * c,
            0 < c,
            0 <= lag,
            lag * c <= ring.frames * c,
    ;
    lemma_one_turn(from + lag, ring.bound);
    law_positions_follow_each_other(ring, from, lag);
    lemma_sub_mod_noop_right(0, from, ring.bound);
    lemma_add_mod_noop_right(-from, to + n, ring.bound);
    lemma_add_mod_noop_right(n, to - from, ring.bound);
    lemma_small_mod((lag + n) as nat, ring.bound as nat);
    assert(ring.queue(after, from, (to + n) % ring.bound) =~= ring.queue(mem, from, to)
        + samples.take(n * c));
}

/// To move the start of the queue on is to drop what came first.
pub proof fn law_advance_drops_from_queue<S>(
    ring: Ring,
    mem: Seq<S>,
    from: int,
    to: int,
    n: int,
)
    requires
        ring.in_ring(),
        mem.len() == ring.cells(),
        0 <= from < ring.bound,
        0 <= to < ring.bound,
        0 <= n <= ring.lag(from, to) <= ring.frames,
        from + n < ring.bound || ring.bound % ring.frames == 0,
    ensures
        ring.queue(mem, (from + n) % ring.bound, to) == ring.queue(mem, from, to).skip(
            n * ring.channels,
        ),
{
    let (lag, c) = (ring.lag(from, to), ring.channels);
    law_positions_follow_each_other(ring, from, n);
    lemma_samples(ring, n);
    lemma_samples(ring, lag);
    assert(lag * c - n * c == (lag - n) * c && n * c <= lag * c) by (nonlinear_arith)
        requires
            n <= lag,
            0 < c,
    ;
    lemma_sub_mod_noop_right(to, from + n, ring.bound);
    lemma_add_mod_noop_right(-n, to - from, ring.bound);
    lemma_mod_bound(to - from, ring.bound);
    lemma_small_mod((lag - n) as nat, ring.bound as nat);
    assert(ring.queue(mem, (from + n) % ring.bound, to) =~= ring.queue(mem, from, to).skip(n * c));
}

/// To write is to append whole frames to what is to be played: the samples before them stay, and
/// those of a frame that is not whole do not count.
pub proof fn law_write_appends_to_what_is_to_play<S>(ring: Ring, mem: Seq<S>, taken: Seq<S>)
    requires
        ring.in_ring(),
        ring.countable::<Playback>(),
        mem.len() == ring.cells(),
        ring.lag(ring.hw, ring.appl) <= ring.frames,
        taken.len() <= ring.room::<Playback>() * ring.channels,
        ring.lag(ring.hw, ring.appl) + taken.len() as int / ring.channels < ring.bound,
        ring.hw <= ring.appl || ring.bound % ring.frames == 0,
    ensures
        ({
            let n = taken.len() as int / ring.channels;
            ring.advanced(n).to_play(ring_store(mem, ring.start(), taken)) == ring.to_play(mem)
                + taken.take(n * ring.channels)
        }),
{
    let (lag, room, c) = (ring.lag(ring.hw, ring.appl), ring.room::<Playback>(), ring.channels);
    let n = taken.len() as int / c;
    lemma_room::<Playback>(ring);
    lemma_one_turn(ring.appl - ring.hw, ring.bound);
    lemma_one_turn(ring.hw + ring.frames - ring.appl, ring.bound);
    if ring.hw != ring.appl || ring.frames < ring.bound {
        law_playback_avail_is_what_is_free(ring);
    }
    assert(lag * c + room * c <= ring.frames * c) by (nonlinear_arith)
        requires
            lag + room <= ring.frames,
            0 < c,
    ;
    lemma_fundamental_div_mod(taken.len() as int, c);
    lemma_mod_bound(taken.len() as int, c);
    lemma_whole_frames(taken.len() as int, room, c);
    assert(0 <= n * c <= taken.len()) by (nonlinear_arith)
        requires
            taken.len() == c * n + taken.len() as int % c,
            0 <= taken.len() as int % c,
            0 <= n,
            0 < c,
    ;
    law_store_appends_to_queue(ring, mem, ring.hw, ring.appl, taken, n);
}

/// The answers of an iterator that has these samples and no more, when asked for `room` of them.
pub open spec fn answers_of<S>(samples: Seq<S>, room: int) -> Seq<Option<S>> {
    let some = samples.map_values(|s: S| Some(s));
    if samples.len() < room {
        some.push(None)
    } else {
        some
    }
}

/// To write twice is to write the one iterator chained to the other, whatever the second is: it is
/// asked as often and answers the same, the same samples end up in the same cells, the position is
/// the same, and the numbers of frames add up. The first has whole frames, and there is room for
/// them. Left out is a pointer that wraps at a boundary which is not one of whole buffers, and an
/// underrun.
pub proof fn law_two_writes_are_one_write_of_both<S>(
    ring: Ring,
    mem: Seq<S>,
    first: Seq<S>,
    second: Seq<Option<S>>,
)
    requires
        ring.in_ring(),
        ring.countable::<Playback>(),
        ring.advanced(first.len() as int / ring.channels).countable::<Playback>(),
        mem.len() == ring.cells(),
        ring.avail::<Playback>() <= ring.frames,
        first.len() as int % ring.channels == 0,
        first.len() <= ring.avail::<Playback>() * ring.channels,
        ring.appl + first.len() as int / ring.channels < ring.bound || ring.bound % ring.frames
            == 0,
        drawn_until(
            second,
            ring.advanced(first.len() as int / ring.channels).extent::<Playback>() * ring.channels,
        ),
    ensures
        ({
            let c = ring.channels;
            let room = ring.extent::<Playback>() * c;
            let alone = answers_of(first, room);
            let after = ring.advanced(first.len() as int / c);
            let both = first.map_values(|s: S| Some(s)) + second;
            &&& drawn_until(alone, room)
            &&& drawn(alone) == first
            &&& drawn_until(both, room)
            &&& drawn(both) == first + drawn(second)
            &&& after.in_ring()
            &&& ring_store(ring_store(mem, ring.start(), first), after.start(), drawn(second))
                == ring_store(mem, ring.start(), drawn(both))
            &&& after.advanced(drawn(second).len() as int / c) == ring.advanced(
                drawn(both).len() as int / c,
            )
            &&& first.len() as int / c + drawn(second).len() as int / c == drawn(both).len() as int
                / c
        }),
{
    let c = ring.channels;
    let avail = ring.avail::<Playback>();
    let (n, m) = (first.len() as int / c, drawn(second).len() as int);
    let after = ring.advanced(n);
    let some = first.map_values(|s: S| Some(s));
    lemma_room::<Playback>(ring);
    lemma_samples(ring, avail);
    lemma_fundamental_div_mod(first.len() as int, c);
    lemma_whole_frames(first.len() as int, avail, c);
    law_commit_uses_up_avail::<Playback>(ring, n);
    lemma_room::<Playback>(after);
    assert(n * c == first.len() && (avail - n) * c == avail * c - n * c) by (nonlinear_arith)
        requires
            first.len() == c * n,
    ;
    assert(drawn(answers_of(first, avail * c)) =~= first);
    assert(drawn(some) =~= first);
    lemma_answers_add_up(some, second, first.len() as int, (avail - n) * c);
    law_positions_follow_each_other(ring, ring.appl, n);
    law_ring_stores_add_up(mem, ring.start(), first, drawn(second));
    lemma_hoist_over_denominator(m, n, c as nat);
    law_commits_add_up(ring, n, m / c);
}

/// To play is to take from the front of what is to be played.
pub proof fn law_playing_takes_what_comes_first<S>(ring: Ring, mem: Seq<S>, n: int)
    requires
        ring.in_ring(),
        mem.len() == ring.cells(),
        0 <= n <= ring.lag(ring.hw, ring.appl) <= ring.frames,
        ring.hw + n < ring.bound || ring.bound % ring.frames == 0,
    ensures
        ring.hw_advanced(n).to_play(mem) == ring.to_play(mem).skip(n * ring.channels),
{
    law_advance_drops_from_queue(ring, mem, ring.hw, ring.appl, n);
}

/// To record is to append to what is to be read.
pub proof fn law_recording_appends_to_what_is_to_read<S>(
    ring: Ring,
    mem: Seq<S>,
    samples: Seq<S>,
    n: int,
)
    requires
        ring.in_ring(),
        mem.len() == ring.cells(),
        0 <= n,
        samples.len() == n * ring.channels,
        ring.avail::<Capture>() + n <= ring.frames,
        ring.avail::<Capture>() + n < ring.bound,
        ring.appl <= ring.hw || ring.bound % ring.frames == 0,
    ensures
        ring.hw_advanced(n).to_read(ring_store(mem, ring.cell_at(ring.hw), samples))
            == ring.to_read(mem) + samples,
{
    let (avail, c) = (ring.avail::<Capture>(), ring.channels);
    law_capture_avail_is_what_is_recorded(ring);
    assert(avail * c + n * c <= ring.frames * c) by (nonlinear_arith)
        requires
            avail + n <= ring.frames,
            0 < c,
    ;
    law_store_appends_to_queue(ring, mem, ring.appl, ring.hw, samples, n);
    assert(samples.take(n * c) =~= samples);
}

/// A walk hands out what is to be read, from the first on. Where it is finished after `k` samples,
/// the frames among them that are whole have been read; the samples of a frame that is not whole
/// come first in the next walk.
pub proof fn law_walk_takes_what_comes_first<S>(ring: Ring, mem: Seq<S>, k: int)
    requires
        ring.in_ring(),
        mem.len() == ring.cells(),
        ring.avail::<Capture>() <= ring.frames,
        0 <= k <= ring.avail::<Capture>() * ring.channels,
        ring.appl + k / ring.channels < ring.bound || ring.bound % ring.frames == 0,
    ensures
        Iter::<S>::first(ring).values(mem) == ring.to_read(mem),
        ring.advanced(k / ring.channels).to_read(mem) == ring.to_read(mem).skip(
            k / ring.channels * ring.channels,
        ),
        ring.advanced(k / ring.channels).avail::<Capture>() == ring.avail::<Capture>() - k
            / ring.channels,
{
    lemma_room::<Capture>(ring);
    law_walk_covers_what_is_available::<S>(ring);
    law_capture_avail_is_what_is_recorded(ring);
    lemma_whole_frames(k, ring.avail::<Capture>(), ring.channels);
    law_advance_drops_from_queue(ring, mem, ring.appl, ring.hw, k / ring.channels);
    lemma_mod_bound(ring.appl + k / ring.channels, ring.bound);
    law_commit_uses_up_avail::<Capture>(ring, k / ring.channels);
}

} // verus!
