//! Playing: writing samples to the ring buffer.

use vstd::arithmetic::div_mod::lemma_hoist_over_denominator;
use vstd::prelude::*;
use vstd::std_specs::iter::IteratorSpec;

use crate::dir::Playback;
use crate::mmap::{
    law_where_a_ring_makes_sense, lemma_room, lemma_samples, lemma_start, lemma_whole_frames,
    MmapIO,
};
use crate::pcm::Frames;
use crate::ring::{law_ring_stores_add_up, ring_store};

verus! {

/// Whether these are the answers of an iterator that is asked for at most `room` samples, and not
/// again once it has none: only the last can be `None`, and where it is not, there are `room`.
pub open spec fn drawn_until<S>(answers: Seq<Option<S>>, room: int) -> bool {
    &&& answers.len() > 0 ==> answers.len() <= room
    &&& forall|k: int|
        0 <= k < answers.len() && #[trigger] answers[k] is None ==> k + 1 == answers.len()
    &&& answers.len() > 0 && answers.last() is None || answers.len() >= room
}

/// The samples among the answers.
pub open spec fn drawn<S>(answers: Seq<Option<S>>) -> Seq<S> {
    let n = if answers.len() > 0 && answers.last() is None {
        answers.len() - 1
    } else {
        answers.len() as int
    };
    Seq::new(n as nat, |k: int| answers[k]->Some_0)
}

/// Whether these are the states of an iterator from `before` on to `after`, one more than answers.
pub open spec fn states_of<S, I>(
    states: Seq<I>,
    answers: Seq<Option<S>>,
    before: I,
    after: I,
) -> bool {
    &&& states.len() == answers.len() + 1
    &&& states[0] == before
    &&& states.last() == after
}

impl<S> MmapIO<S, Playback> {
    /// Samples can be written to the buffer and be committed within machine numbers.
    pub open spec fn writable(self) -> bool {
        &&& self.ring().accessible::<Playback>()
        &&& self.committable(self.ring().extent::<Playback>())
    }

    /// Puts samples into the cells from `p` on, at most `max_samples` of them. Returns whether the
    /// samples ran out before that, how many there were, what the iterator answered, and its
    /// states.
    fn write_internal<I: Iterator<Item = S>>(
        &self,
        mem: &mut [S],
        p: isize,
        max_samples: isize,
        i: &mut I,
    ) -> (r: (bool, isize, Ghost<Seq<Option<S>>>, Ghost<Seq<I>>))
        requires
            0 <= p <= old(mem)@.len() <= isize::MAX,
            p + max_samples <= old(mem)@.len(),
        ensures
            max_samples <= 0 ==> r.1 == 0,
            max_samples > 0 ==> 0 <= r.1 <= max_samples,
            r.0 <==> r.1 < max_samples,
            drawn_until(r.2@, max_samples as int),
            r.0 <==> r.2@.len() > 0 && r.2@.last() is None,
            r.1 == drawn(r.2@).len(),
            final(mem)@ == ring_store(old(mem)@, p as int, drawn(r.2@)),
            states_of(r.3@, r.2@, *old(i), *final(i)),
            forall|k: int|
                0 <= k < r.2@.len() ==> (#[trigger] r.2@[k] is None ==> k + 1 == r.2@.len()) && (
                exists|q: &mut I|
                    *q == r.3@[k] && *final(q) == r.3@[k + 1] && #[trigger] call_ensures(
                        <I as Iterator>::next,
                        (q,),
                        r.2@[k],
                    )),
            <I as IteratorSpec>::obeys_prophetic_iter_laws(final(i))
                == <I as IteratorSpec>::obeys_prophetic_iter_laws(old(i)),
            <I as IteratorSpec>::obeys_prophetic_iter_laws(old(i)) ==> {
                &&& <I as IteratorSpec>::remaining(old(i)) == drawn(r.2@)
                    + <I as IteratorSpec>::remaining(final(i))
                &&& r.0 ==> <I as IteratorSpec>::remaining(final(i)).len() == 0
                &&& r.0 <==> <I as IteratorSpec>::remaining(old(i)).len() < max_samples
            },
    {
        let ghost mut answers: Seq<Option<S>> = Seq::empty();
        let ghost mut states: Seq<I> = seq![*i];
        let mut z: isize = 0;
        assert(mem@ =~= ring_store(old(mem)@, p as int, drawn(answers)));
        while z < max_samples
            invariant
                0 <= z,
                z <= max_samples || z == 0,
                0 <= p <= old(mem)@.len() <= isize::MAX,
                p + max_samples <= old(mem)@.len(),
                answers.len() == z,
                mem@.len() == old(mem)@.len(),
                mem@ == ring_store(old(mem)@, p as int, drawn(answers)),
                states_of(states, answers, *old(i), *i),
                forall|k: int|
                    0 <= k < answers.len() ==> #[trigger] answers[k] is Some && (exists|q: &mut I|
                        *q == states[k] && *final(q) == states[k + 1] && #[trigger] call_ensures(
                            <I as Iterator>::next,
                            (q,),
                            answers[k],
                        )),
                <I as IteratorSpec>::obeys_prophetic_iter_laws(i)
                    == <I as IteratorSpec>::obeys_prophetic_iter_laws(old(i)),
                <I as IteratorSpec>::obeys_prophetic_iter_laws(i)
                    ==> <I as IteratorSpec>::remaining(old(i)) == drawn(answers)
                    + <I as IteratorSpec>::remaining(i),
            decreases max_samples - z,
        {
            let ghost (answers0, states0) = (answers, states);
            let answer: Option<S> = i.next();
            proof {
                answers = answers.push(answer);
                states = states.push(*i);
                assert forall|k: int| 0 <= k < answers.len() implies (#[trigger] answers[k] is None
                    ==> k + 1 == answers.len()) && (exists|q: &mut I|
                    *q == states[k] && *final(q) == states[k + 1] && #[trigger] call_ensures(
                        <I as Iterator>::next,
                        (q,),
                        answers[k],
                    )) by {
                    if k < answers0.len() {
                        assert(answers0[k] == answers[k]);
                        assert(states0[k] == states[k] && states0[k + 1] == states[k + 1]);
                    }
                }
            }
            let b = match answer {
                Some(b) => b,
                None => {
                    assert(drawn(answers) =~= drawn(answers0));
                    return (true, z, Ghost(answers), Ghost(states));
                },
            };
            mem[(p + z) as usize] = b;
            z += 1;
            proof {
                assert(drawn(answers) =~= drawn(answers0).push(b));
                assert(mem@ =~= ring_store(old(mem)@, p as int, drawn(answers)));
            }
        }
        (false, z, Ghost(answers), Ghost(states))
    }

    /// Puts samples into the one or two stretches of the buffer that are free. Returns the number
    /// of whole frames, what the iterator answered, and its states.
    fn write_stretches<I: Iterator<Item = S>>(
        &self,
        mem: &mut [S],
        i: &mut I,
    ) -> (r: (Frames, Ghost<Seq<Option<S>>>, Ghost<Seq<I>>))
        requires
            self.ring().accessible::<Playback>(),
            old(mem)@.len() == self.ring().cells(),
        ensures
            0 <= r.0 <= self.ring().extent::<Playback>(),
            drawn_until(r.1@, self.ring().extent::<Playback>() * self.ring().channels),
            r.0 == drawn(r.1@).len() as int / self.ring().channels,
            final(mem)@ == ring_store(old(mem)@, self.ring().start(), drawn(r.1@)),
            states_of(r.2@, r.1@, *old(i), *final(i)),
            forall|k: int|
                0 <= k < r.1@.len() ==> (#[trigger] r.1@[k] is None ==> k + 1 == r.1@.len()) && (
                exists|q: &mut I|
                    *q == r.2@[k] && *final(q) == r.2@[k + 1] && #[trigger] call_ensures(
                        <I as Iterator>::next,
                        (q,),
                        r.1@[k],
                    )),
            <I as IteratorSpec>::obeys_prophetic_iter_laws(old(i)) ==> {
                &&& <I as IteratorSpec>::remaining(old(i)) == drawn(r.1@)
                    + <I as IteratorSpec>::remaining(final(i))
                &&& drawn(r.1@).len() < self.ring().extent::<Playback>() * self.ring().channels
                    ==> <I as IteratorSpec>::remaining(final(i)).len() == 0
            },
    {
        let ghost ring = self.ring();
        let ghost room = ring.extent::<Playback>();
        proof {
            lemma_start(ring);
            lemma_samples(ring, room);
        }
        let (p, av, more_data) = self.data_ptr();
        let c: isize = self.channels() as isize;
        proof {
            assert(av * c <= (ring.frames - ring.offset()) * c && av * c <= room * c && (av <= 0
                ==> av * c <= 0) && (0 <= av ==> 0 <= av * c) && (room == 0 ==> room * c == 0))
                by (nonlinear_arith)
                requires
                    av <= ring.frames - ring.offset(),
                    av <= room,
                    0 < c,
            ;
        }
        let (iter_end, samples, Ghost(first), Ghost(from)) = self.write_internal(
            mem,
            p,
            av * c,
            i,
        );
        let ghost mut answers = first;
        let ghost mut states = from;
        let mut z: isize = samples / c;
        proof {
            lemma_whole_frames(samples as int, if av < 0 {
                0
            } else {
                av as int
            }, c as int);
        }
        if !iter_end {
            if let Some((p2, av2)) = more_data {
                proof {
                    assert(av * c + av2 * c == room * c) by (nonlinear_arith)
                        requires
                            av + av2 == room,
                    ;
                    lemma_samples(ring, av2 as int);
                    assert(av * c == (ring.frames - ring.offset()) * c);
                }
                let (_, samples2, Ghost(second), Ghost(on)) = self.write_internal(
                    mem,
                    p2,
                    av2 * c,
                    i,
                );
                proof {
                    lemma_answers_add_up(first, second, av * c, av2 * c);
                    law_ring_stores_add_up(old(mem)@, ring.start(), drawn(first), drawn(second));
                    lemma_whole_frames(samples2 as int, av2 as int, c as int);
                    lemma_hoist_over_denominator(samples2 as int, av as int, c as nat);
                    answers = first + second;
                    states = from.drop_last() + on;
                    assert forall|k: int| 0 <= k < answers.len() implies (#[trigger] answers[k]
                        is None ==> k + 1 == answers.len()) && (exists|q: &mut I|
                        *q == states[k] && *final(q) == states[k + 1] && #[trigger] call_ensures(
                            <I as Iterator>::next,
                            (q,),
                            answers[k],
                        )) by {
                        if k < first.len() {
                            assert(first[k] == answers[k] && from[k] == states[k] && from[k + 1]
                                == states[k + 1]);
                        } else {
                            let j = k - first.len();
                            assert(second[j] == answers[k] && on[j] == states[k] && on[j + 1]
                                == states[k + 1]);
                        }
                    }
                }
                z += samples2 / c;
            }
        }
        proof {
            lemma_whole_frames(drawn(answers).len() as int, room, c as int);
        }
        (z, Ghost(answers), Ghost(states))
    }

    /// Tells whether samples can be written to the buffer and be committed.
    pub fn can_write(&self) -> (r: bool)
        ensures
            r == self.writable(),
            r <==> {
                let avail = self.ring().avail::<Playback>();
                let (frames, c) = (self.data.frames as int, self.data.channels as int);
                &&& self.c.0.appl_ptr <= isize::MAX
                &&& 0 < frames
                &&& 0 < c
                &&& frames * c <= isize::MAX
                &&& isize::MIN <= avail * c
                &&& self.committable(
                    if avail < 0 {
                        0
                    } else if avail < frames {
                        avail
                    } else {
                        frames
                    },
                )
            },
    {
        if !self.can_access() {
            return false;
        }
        let (avail, frames): (Frames, Frames) = (self.avail(), self.buffer_size());
        let extent: Frames = if avail < 0 {
            0
        } else if avail < frames {
            avail
        } else {
            frames
        };
        self.can_commit(extent)
    }

    /// Writes samples to the ring buffer, which is `mem`.
    ///
    /// Samples are taken from `i` as long as there is room and it has some: it is not asked again
    /// once it answers `None`. Returns the number of whole frames among them, which are committed.
    pub fn write<I: Iterator<Item = S>>(&mut self, mem: &mut [S], i: &mut I) -> (r: Frames)
        requires
            old(self).writable(),
            old(mem)@.len() == old(self).ring().cells(),
        ensures
            0 <= r <= old(self).ring().extent::<Playback>(),
            *final(self) == old(self).committed(r as int),
            old(self).ring().in_ring() ==> {
                &&& final(self).ring() == old(self).ring().advanced(r as int)
                &&& final(self).ring().in_ring()
            },
            final(self).data == old(self).data,
            final(self).ss == old(self).ss,
            final(self).bound == old(self).bound,
            final(self).c.0.avail_min == old(self).c.0.avail_min,
            ({
                let z = old(self).c.0.appl_ptr + r;
                &&& z < old(self).bound ==> final(self).c.0.appl_ptr == z
                &&& 0 <= old(self).bound <= z ==> final(self).c.0.appl_ptr == z - old(self).bound
            }),
            exists|answers: Seq<Option<S>>, states: Seq<I>|
                {
                    &&& #[trigger] states_of(states, answers, *old(i), *final(i))
                    &&& forall|k: int|
                        0 <= k < answers.len() ==> (#[trigger] answers[k] is None ==> k + 1
                            == answers.len()) && (exists|q: &mut I|
                            *q == states[k] && *final(q) == states[k + 1]
                                && #[trigger] call_ensures(
                                <I as Iterator>::next,
                                (q,),
                                answers[k],
                            ))
                    &&& drawn_until(
                        answers,
                        old(self).ring().extent::<Playback>() * old(self).ring().channels,
                    )
                    &&& final(mem)@ == ring_store(
                        old(mem)@,
                        old(self).ring().start(),
                        drawn(answers),
                    )
                    &&& r == drawn(answers).len() as int / old(self).ring().channels
                },
            <I as IteratorSpec>::obeys_prophetic_iter_laws(old(i)) ==> {
                let all = <I as IteratorSpec>::remaining(old(i));
                let room = old(self).ring().extent::<Playback>() * old(self).ring().channels;
                let n = if all.len() < room {
                    all.len() as int
                } else {
                    room
                };
                &&& final(mem)@ == ring_store(old(mem)@, old(self).ring().start(), all.take(n))
                &&& r == n / old(self).ring().channels
                &&& <I as IteratorSpec>::remaining(final(i)) == all.skip(n)
            },
    {
        let (z, Ghost(answers), Ghost(states)) = self.write_stretches(mem, i);
        proof {
            assert(states_of(states, answers, *old(i), *i));
            if <I as IteratorSpec>::obeys_prophetic_iter_laws(old(i)) {
                let all = <I as IteratorSpec>::remaining(old(i));
                let taken = drawn(answers);
                assert(all.take(taken.len() as int) =~= taken);
                assert(all.skip(taken.len() as int) =~= <I as IteratorSpec>::remaining(i));
            }
        }
        self.commit(z);
        z
    }
}

/// Answers that are all samples, followed by more, are the answers of one iterator that is asked
/// for both.
pub proof fn lemma_answers_add_up<S>(
    first: Seq<Option<S>>,
    second: Seq<Option<S>>,
    room1: int,
    room2: int,
)
    requires
        drawn_until(first, room1),
        drawn_until(second, room2),
        0 <= room1 == first.len(),
        0 <= room2,
        forall|k: int| 0 <= k < first.len() ==> #[trigger] first[k] is Some,
    ensures
        drawn_until(first + second, room1 + room2),
        drawn(first + second) == drawn(first) + drawn(second),
{
    let both = first + second;
    assert forall|k: int| 0 <= k < both.len() && #[trigger] both[k] is None implies k + 1
        == both.len() by {
        if k < first.len() {
            assert(first[k] is Some);
        } else {
            assert(second[k - first.len()] is None);
        }
    }
    if second.len() == 0 {
        assert(both =~= first);
    }
    assert(drawn(both) =~= drawn(first) + drawn(second));
}

/// An iterator that is asked for `room` samples answers with a sample each time but the last, which
/// may be that it has none. Where it is not, it was asked `room` times.
pub proof fn law_iterator_is_asked_until_it_has_no_more<S>(answers: Seq<Option<S>>, room: int)
    requires
        0 <= room,
    ensures
        drawn_until(answers, room) <==> {
            &&& answers.len() <= room
            &&& forall|k: int| 0 <= k < answers.len() - 1 ==> #[trigger] answers[k] is Some
            &&& answers.len() < room ==> answers.len() > 0 && answers[answers.len() - 1] is None
        },
        drawn_until(answers, room) ==> {
            &&& drawn(answers).len() <= room
            &&& drawn(answers).len() < room ==> {
                &&& answers.len() == drawn(answers).len() + 1
                &&& answers[drawn(answers).len() as int] is None
            }
            &&& drawn(answers).len() == room ==> answers.len() == room
            &&& forall|k: int|
                0 <= k < drawn(answers).len() ==> #[trigger] answers[k] == Some(drawn(answers)[k])
        },
{
    if drawn_until(answers, room) {
        assert forall|k: int| 0 <= k < answers.len() - 1 implies #[trigger] answers[k] is Some by {
            assert(answers[k] is None ==> k + 1 == answers.len());
        }
    }
}

/// An iterator has a state before the first and after each of its answers.
pub proof fn law_states_go_from_one_to_the_other<S, I>(
    states: Seq<I>,
    answers: Seq<Option<S>>,
    before: I,
    after: I,
)
    ensures
        states_of(states, answers, before, after) <==> states.len() == answers.len() + 1
            && states[0] == before && states[answers.len() as int] == after,
{
}

/// Samples can be written wherever there is a position in the buffer, and the samples and the
/// position after them can be counted. In the ring, with a boundary that leaves room for a buffer
/// above it, that is always so.
pub proof fn law_where_a_stream_can_be_written<S>(m: MmapIO<S, Playback>)
    ensures
        m.writable() <==> {
            let (frames, c) = (m.data.frames as int, m.data.channels as int);
            let avail = m.ring().avail::<Playback>();
            &&& m.c.0.appl_ptr <= isize::MAX
            &&& 0 < frames
            &&& 0 < c
            &&& frames * c <= isize::MAX
            &&& isize::MIN <= avail * c
            &&& m.committable(
                if avail < 0 {
                    0
                } else if avail < frames {
                    avail
                } else {
                    frames
                },
            )
        },
        m.ss.0.hw_ptr < m.bound && m.c.0.appl_ptr < m.bound && 0 < m.data.frames <= m.bound && 0
            < m.data.channels && m.data.frames * m.data.channels <= isize::MAX && m.bound
            + m.data.frames <= isize::MAX ==> m.writable(),
{
    law_where_a_ring_makes_sense::<Playback>(m.ring());
    if m.ring().in_ring() && m.bound + m.data.frames <= isize::MAX {
        lemma_room::<Playback>(m.ring());
    }
}

} // verus!
