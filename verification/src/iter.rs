//! Recording: reading samples from the ring buffer.

use core::marker::PhantomData;

use vstd::arithmetic::div_mod::{
    lemma_div_pos_is_pos, lemma_fundamental_div_mod, lemma_mod_bound, lemma_mod_multiples_vanish,
    lemma_small_mod,
};
use vstd::prelude::*;

use crate::dir::{lemma_one_turn, Capture, MmapDir};
use crate::mmap::{
    lemma_room, lemma_samples, lemma_start, lemma_whole_frames, MmapCapture, MmapIO, Ring,
};
use crate::ring::{cell_after, law_loaded_samples_lie_one_after_the_other, ring_load};

verus! {

/// A walk over the samples of the ring buffer that were available when it began.
///
/// When the walk reaches its end or is finished before, the frames that were read whole are
/// committed: the kernel can then write data to their location again. So do this as soon as
/// possible. Only have one walk at a time, otherwise some samples are read twice and others not
/// at all.
#[derive(Debug)]
pub struct Iter<S> {
    /// The first cell of the stretch that is being read.
    pub p: isize,
    /// The number of cells in this stretch.
    pub max_samples: isize,
    /// The number of cells of this stretch that have been read.
    pub p_offs: isize,
    /// The number of cells that have been read and not been committed.
    pub read_samples: isize,
    /// The first cell and the number of cells of the stretch that follows.
    pub next_p: Option<(isize, isize)>,
    /// The type of a sample.
    pub samples: PhantomData<S>,
}

/// `n` cells from `p` on, and none where `n` is negative.
pub open spec fn stretch(p: int, n: int) -> Seq<int> {
    Seq::new(
        if n < 0 {
            0
        } else {
            n as nat
        },
        |k: int| p + k,
    )
}

impl<S> Iter<S> {
    /// The cells that are still to be read, in order.
    pub open spec fn pending(self) -> Seq<int> {
        let here = stretch(self.p + self.p_offs, self.max_samples - self.p_offs);
        match self.next_p {
            Some((p2, c2)) => here + stretch(p2 as int, c2 as int),
            None => here,
        }
    }

    /// The samples that are still to be read, in order.
    pub open spec fn values(self, mem: Seq<S>) -> Seq<S> {
        Seq::new(self.pending().len(), |k: int| mem[self.pending()[k]])
    }

    /// The walk stays in a buffer of `cells` cells and does not read more than there are.
    pub open spec fn valid(self, cells: int) -> bool {
        &&& 0 <= self.p <= cells
        &&& 0 <= self.p_offs
        &&& self.p_offs <= self.max_samples || self.p_offs == 0
        &&& self.p + self.max_samples <= cells <= isize::MAX
        &&& self.next_p matches Some((p2, c2)) ==> 0 <= p2 && 0 < c2 && p2 + c2 <= cells
        &&& 0 <= self.read_samples
        &&& self.read_samples + self.pending().len() <= cells
    }

    /// The frames that have been read whole.
    pub open spec fn whole_frames(self, channels: int) -> int {
        self.read_samples as int / channels
    }

    /// There are whole frames to speak of, and they can be committed within machine numbers.
    pub open spec fn commits<D>(self, m: MmapIO<S, D>) -> bool {
        &&& 0 <= self.read_samples
        &&& 0 < m.ring().channels <= isize::MAX
        &&& m.committable(self.whole_frames(m.ring().channels))
    }

    /// The walk over all that is available in a ring.
    pub open spec fn first(ring: Ring) -> Iter<S> {
        let (p, av, more_data) = ring.data_ptr::<Capture>();
        Iter {
            p,
            max_samples: (av * ring.channels) as isize,
            p_offs: 0,
            read_samples: 0,
            next_p: match more_data {
                Some((p2, av2)) => Some((p2, (av2 * ring.channels) as isize)),
                None => None,
            },
            samples: PhantomData,
        }
    }
}

impl<S> MmapIO<S, Capture> {
    /// Begins to read samples from the buffer.
    pub fn iter(&self) -> (r: Iter<S>)
        requires
            self.ring().accessible::<Capture>(),
        ensures
            r == Iter::<S>::first(self.ring()),
            r.valid(self.ring().cells()),
            r.read_samples == 0,
            r.p_offs == 0,
            r.p == (self.c.0.appl_ptr as int % self.data.frames as int) * self.data.channels,
            ({
                let here = self.data.frames - self.c.0.appl_ptr as int % self.data.frames as int;
                let avail = self.ring().avail::<Capture>();
                let most = if avail < self.data.frames {
                    avail
                } else {
                    self.data.frames as int
                };
                &&& most <= here ==> r.max_samples == most * self.data.channels && r.next_p is None
                &&& most > here ==> r.max_samples == here * self.data.channels && r.next_p == Some(
                    (0isize, ((most - here) * self.data.channels) as isize),
                )
            }),
            r.pending() == Seq::new(
                (self.ring().extent::<Capture>() * self.ring().channels) as nat,
                |k: int| cell_after(self.ring().start(), k, self.ring().cells()),
            ),
    {
        proof {
            law_walk_covers_what_is_available::<S>(self.ring());
        }
        let (p, av, more_data) = self.data_ptr();
        proof {
            lemma_start(self.ring());
            if 0 <= av {
                lemma_samples(self.ring(), av as int);
            }
            if let Some((_, av2)) = more_data {
                lemma_samples(self.ring(), av2 as int);
            }
        }
        let c: isize = self.channels() as isize;
        assert(av < 0 ==> av * c <= 0) by (nonlinear_arith)
            requires
                0 < c,
        ;
        let max_samples: isize = av * c;
        let next_p: Option<(isize, isize)> = match more_data {
            Some((p2, av2)) => Some((p2, av2 * c)),
            None => None,
        };
        Iter { p, max_samples, p_offs: 0, read_samples: 0, next_p, samples: PhantomData }
    }
}

impl<S> Iter<S> {
    /// Goes on to the stretch that follows or, where there is none, commits what has been read.
    fn handle_max(&mut self, m: &mut MmapCapture<S>)
        requires
            old(self).valid(old(m).ring().cells()),
            old(self).pending().len() == 0 ==> old(self).commits(*old(m)),
            old(self).p_offs >= old(self).max_samples,
        ensures
            final(self).valid(old(m).ring().cells()),
            final(self).pending() == old(self).pending(),
            final(self).p_offs == 0,
            final(self).next_p is None,
            final(self).max_samples == old(self).pending().len(),
            old(self).pending().len() > 0 ==> {
                &&& final(self).read_samples == old(self).read_samples
                &&& *final(m) == *old(m)
            },
            old(self).pending().len() == 0 ==> {
                &&& final(self).read_samples == 0
                &&& *final(m) == old(m).committed(old(self).whole_frames(old(m).ring().channels))
                &&& final(m).data == old(m).data
                &&& final(m).ss == old(m).ss
                &&& final(m).bound == old(m).bound
                &&& final(m).c.0.avail_min == old(m).c.0.avail_min
                &&& old(m).c.0.appl_ptr <= isize::MAX ==> {
                    let z = old(m).c.0.appl_ptr + old(self).read_samples as int
                        / old(m).data.channels as int;
                    &&& z < old(m).bound ==> final(m).c.0.appl_ptr == z
                    &&& 0 <= old(m).bound <= z ==> final(m).c.0.appl_ptr == z - old(m).bound
                }
            },
            old(self).next_p matches Some((p2, c2)) ==> final(self).p == p2
                && final(self).max_samples == c2,
            old(self).next_p is None ==> final(self).max_samples == 0,
    {
        self.p_offs = 0;
        if let Some((p2, c2)) = self.next_p.take() {
            self.max_samples = c2;
            self.p = p2;
            assert(self.pending() =~= old(self).pending());
        } else {
            self.commit_frames(m);
            self.read_samples = 0;
            self.max_samples = 0;
            assert(self.pending() =~= old(self).pending());
        }
    }

    /// Commits the frames that have been read whole.
    fn commit_frames(&self, m: &mut MmapCapture<S>)
        requires
            self.commits(*old(m)),
        ensures
            *final(m) == old(m).committed(self.whole_frames(old(m).ring().channels)),
            ({
                &&& final(m).data == old(m).data
                &&& final(m).ss == old(m).ss
                &&& final(m).bound == old(m).bound
                &&& final(m).c.0.avail_min == old(m).c.0.avail_min
                &&& old(m).c.0.appl_ptr <= isize::MAX ==> {
                    let z = old(m).c.0.appl_ptr + self.read_samples as int
                        / old(m).data.channels as int;
                    &&& z < old(m).bound ==> final(m).c.0.appl_ptr == z
                    &&& 0 <= old(m).bound <= z ==> final(m).c.0.appl_ptr == z - old(m).bound
                }
            }),
    {
        proof {
            assert(0 <= self.read_samples as int / m.data.channels as int) by {
                lemma_div_pos_is_pos(self.read_samples as int, m.data.channels as int);
            }
        }
        m.commit(self.read_samples / m.channels() as isize);
    }

    /// Tells whether the frames that have been read whole can be committed to `m`.
    pub fn can_finish(&self, m: &MmapCapture<S>) -> (r: bool)
        ensures
            r == self.commits(*m),
            r <==> 0 <= self.read_samples && 0 < m.data.channels <= isize::MAX && m.committable(
                self.read_samples as int / m.data.channels as int,
            ),
    {
        let channels: u32 = m.channels();
        if self.read_samples < 0 || channels == 0 || channels as u128 > isize::MAX as u128 {
            return false;
        }
        m.can_commit(self.read_samples / channels as isize)
    }

    /// Tells whether the walk can go on: where it is at its end, what has been read can be
    /// committed to `m`.
    pub fn can_step(&self, m: &MmapCapture<S>) -> (r: bool)
        requires
            self.valid(m.ring().cells()),
        ensures
            r == (self.pending().len() == 0 ==> self.commits(*m)),
            r <==> (self.p_offs >= self.max_samples && self.next_p is None ==> 0 < m.data.channels
                <= isize::MAX && m.committable(
                self.read_samples as int / m.data.channels as int,
            )),
    {
        self.p_offs < self.max_samples || self.next_p.is_some() || self.can_finish(m)
    }

    /// The next cell to read, where there is one. Where there is none, what has been read is
    /// committed to `m`.
    #[inline]
    pub fn next_cell(&mut self, m: &mut MmapCapture<S>) -> (r: Option<isize>)
        requires
            old(self).valid(old(m).ring().cells()),
            old(self).pending().len() == 0 ==> old(self).commits(*old(m)),
        ensures
            final(self).valid(old(m).ring().cells()),
            old(self).pending().len() > 0 ==> {
                &&& r matches Some(cell) && cell == old(self).pending()[0]
                &&& final(self).pending() == old(self).pending().drop_first()
                &&& final(self).read_samples == old(self).read_samples + 1
                &&& *final(m) == *old(m)
            },
            old(self).pending().len() == 0 ==> {
                &&& r is None
                &&& final(self).pending().len() == 0
                &&& final(self).read_samples == 0
                &&& *final(m) == old(m).committed(old(self).whole_frames(old(m).ring().channels))
            },
            old(self).p_offs < old(self).max_samples ==> {
                &&& r == Some((old(self).p + old(self).p_offs) as isize)
                &&& final(self).p == old(self).p
                &&& final(self).max_samples == old(self).max_samples
                &&& final(self).p_offs == old(self).p_offs + 1
                &&& final(self).next_p == old(self).next_p
            },
            old(self).p_offs >= old(self).max_samples ==> match old(self).next_p {
                Some((p2, c2)) => {
                    &&& r == Some(p2)
                    &&& final(self).p == p2
                    &&& final(self).max_samples == c2
                    &&& final(self).p_offs == 1
                    &&& final(self).next_p is None
                },
                None => {
                    &&& r is None
                    &&& final(self).max_samples == 0
                    &&& final(self).next_p is None
                    &&& final(self).read_samples == 0
                },
            },
            old(self).p_offs < old(self).max_samples || old(self).next_p is Some ==> *final(m)
                == *old(m) && final(self).read_samples == old(self).read_samples + 1,
            old(self).p_offs >= old(self).max_samples && old(self).next_p is None ==> {
                &&& final(m).data == old(m).data
                &&& final(m).ss == old(m).ss
                &&& final(m).bound == old(m).bound
                &&& final(m).c.0.avail_min == old(m).c.0.avail_min
                &&& old(m).c.0.appl_ptr <= isize::MAX ==> {
                    let z = old(m).c.0.appl_ptr + old(self).read_samples as int
                        / old(m).data.channels as int;
                    &&& z < old(m).bound ==> final(m).c.0.appl_ptr == z
                    &&& 0 <= old(m).bound <= z ==> final(m).c.0.appl_ptr == z - old(m).bound
                }
            },
    {
        if self.p_offs >= self.max_samples {
            self.handle_max(m);
            if self.max_samples <= 0 {
                return None;
            }
        }
        let cell: isize = self.p + self.p_offs;
        self.p_offs += 1;
        self.read_samples += 1;
        assert(self.pending() =~= old(self).pending().drop_first());
        Some(cell)
    }

    /// Ends the walk: what has been read since the last commit is committed to `m`.
    pub fn finish(self, m: &mut MmapCapture<S>)
        requires
            self.commits(*old(m)),
        ensures
            *final(m) == old(m).committed(self.whole_frames(old(m).ring().channels)),
            old(m).ring().in_ring() && self.valid(old(m).ring().cells()) ==> {
                &&& final(m).ring() == old(m).ring().advanced(
                    self.whole_frames(old(m).ring().channels),
                )
                &&& final(m).ring().in_ring()
            },
            ({
                &&& final(m).data == old(m).data
                &&& final(m).ss == old(m).ss
                &&& final(m).bound == old(m).bound
                &&& final(m).c.0.avail_min == old(m).c.0.avail_min
                &&& old(m).c.0.appl_ptr <= isize::MAX ==> {
                    let z = old(m).c.0.appl_ptr + self.read_samples as int
                        / old(m).data.channels as int;
                    &&& z < old(m).bound ==> final(m).c.0.appl_ptr == z
                    &&& 0 <= old(m).bound <= z ==> final(m).c.0.appl_ptr == z - old(m).bound
                }
            }),
            old(m).ring().in_ring() && self.valid(old(m).ring().cells()) ==> final(m).ring().appl
                == (old(m).ring().appl + self.read_samples as int / old(m).ring().channels)
                % old(m).ring().bound,
    {
        proof {
            if old(m).ring().in_ring() && self.valid(old(m).ring().cells()) {
                lemma_commit_frames(self, *old(m));
            }
        }
        self.commit_frames(m);
    }
}

impl<S: Copy> Iter<S> {
    /// The next sample of the buffer `mem`, where there is one. Where there is none, what has been
    /// read is committed to `m`.
    #[inline]
    pub fn next(&mut self, m: &mut MmapCapture<S>, mem: &[S]) -> (r: Option<S>)
        requires
            mem@.len() == old(m).ring().cells(),
            old(self).valid(old(m).ring().cells()),
            old(self).pending().len() == 0 ==> old(self).commits(*old(m)),
        ensures
            final(self).valid(old(m).ring().cells()),
            old(self).pending().len() > 0 ==> {
                &&& r == Some(mem@[old(self).pending()[0]])
                &&& final(self).pending() == old(self).pending().drop_first()
                &&& r == Some(old(self).values(mem@)[0])
                &&& final(self).values(mem@) == old(self).values(mem@).drop_first()
                &&& final(self).read_samples == old(self).read_samples + 1
                &&& *final(m) == *old(m)
            },
            old(self).pending().len() == 0 ==> {
                &&& r is None
                &&& final(self).pending().len() == 0
                &&& final(self).read_samples == 0
                &&& *final(m) == old(m).committed(old(self).whole_frames(old(m).ring().channels))
            },
            old(self).pending().len() == 0 && old(m).ring().in_ring() ==> {
                &&& final(m).ring() == old(m).ring().advanced(
                    old(self).whole_frames(old(m).ring().channels),
                )
                &&& final(m).ring().in_ring()
            },
            old(self).p_offs < old(self).max_samples ==> {
                &&& r == Some(mem@[old(self).p + old(self).p_offs])
                &&& final(self).p == old(self).p
                &&& final(self).max_samples == old(self).max_samples
                &&& final(self).p_offs == old(self).p_offs + 1
                &&& final(self).next_p == old(self).next_p
            },
            old(self).p_offs >= old(self).max_samples ==> match old(self).next_p {
                Some((p2, c2)) => {
                    &&& r == Some(mem@[p2 as int])
                    &&& final(self).p == p2
                    &&& final(self).max_samples == c2
                    &&& final(self).p_offs == 1
                    &&& final(self).next_p is None
                },
                None => {
                    &&& r is None
                    &&& final(self).max_samples == 0
                    &&& final(self).next_p is None
                    &&& final(self).read_samples == 0
                },
            },
            old(self).p_offs < old(self).max_samples || old(self).next_p is Some ==> *final(m)
                == *old(m) && final(self).read_samples == old(self).read_samples + 1,
            old(self).p_offs >= old(self).max_samples && old(self).next_p is None ==> {
                &&& final(m).data == old(m).data
                &&& final(m).ss == old(m).ss
                &&& final(m).bound == old(m).bound
                &&& final(m).c.0.avail_min == old(m).c.0.avail_min
                &&& old(m).c.0.appl_ptr <= isize::MAX ==> {
                    let z = old(m).c.0.appl_ptr + old(self).read_samples as int
                        / old(m).data.channels as int;
                    &&& z < old(m).bound ==> final(m).c.0.appl_ptr == z
                    &&& 0 <= old(m).bound <= z ==> final(m).c.0.appl_ptr == z - old(m).bound
                }
            },
    {
        proof {
            if old(m).ring().in_ring() {
                lemma_commit_frames(*old(self), *old(m));
            }
        }
        let cell: isize = match self.next_cell(m) {
            Some(cell) => cell,
            None => {
                return None;
            },
        };
        assert(self.values(mem@) =~= old(self).values(mem@).drop_first());
        Some(mem[cell as usize])
    }

    /// Reads all that is left, to the end, and ends the walk: at the end what has been read is
    /// committed to `m`, and then, as there is nothing left to commit, nothing.
    pub fn collect(self, m: &mut MmapCapture<S>, mem: &[S]) -> (r: Vec<S>)
        requires
            mem@.len() == old(m).ring().cells(),
            self.valid(old(m).ring().cells()),
            0 < old(m).ring().channels <= isize::MAX,
            ({
                let k = (self.read_samples + self.pending().len()) / old(m).ring().channels;
                old(m).committable(k) && old(m).committed(k).committable(0)
            }),
        ensures
            r@ == self.values(mem@),
            ({
                let k = (self.read_samples + self.pending().len()) / old(m).ring().channels;
                &&& *final(m) == old(m).committed(k).committed(0)
                &&& old(m).ring().in_ring() ==> {
                    &&& final(m).ring() == old(m).ring().advanced(k)
                    &&& final(m).ring().in_ring()
                }
            }),
    {
        let ghost all = self.pending();
        let ghost k = (self.read_samples + all.len()) / m.ring().channels;
        let mut it = self;
        let mut v: Vec<S> = Vec::new();
        assert(all.skip(0) =~= all);
        loop
            invariant_except_break
                *m == *old(m),
                v@.len() <= all.len(),
                it.pending() == all.skip(v@.len() as int),
                it.read_samples == self.read_samples + v@.len(),
            invariant
                mem@.len() == old(m).ring().cells(),
                0 < old(m).ring().channels <= isize::MAX,
                k == (self.read_samples + all.len()) / old(m).ring().channels,
                old(m).committable(k),
                it.valid(old(m).ring().cells()),
                all == self.pending(),
                forall|j: int| 0 <= j < v@.len() ==> v@[j] == mem@[all[j]],
            ensures
                v@.len() == all.len(),
                it.read_samples == 0,
                *m == old(m).committed(k),
                old(m).ring().in_ring() ==> {
                    &&& m.ring() == old(m).ring().advanced(k)
                    &&& m.ring().in_ring()
                },
            decreases all.len() - v@.len(),
        {
            match it.next(m, mem) {
                Some(s) => {
                    v.push(s);
                },
                None => {
                    break;
                },
            }
        }
        proof {
            assert(0int / m.ring().channels == 0) by (nonlinear_arith)
                requires
                    0 < m.ring().channels,
            ;
            if m.ring().in_ring() {
                lemma_small_mod(m.ring().appl as nat, m.ring().bound as nat);
            }
        }
        it.finish(m);
        assert(v@ =~= self.values(mem@));
        v
    }
}

/// In the ring, to commit the frames that have been read whole is to advance by them.
proof fn lemma_commit_frames<S>(it: Iter<S>, m: MmapCapture<S>)
    requires
        m.ring().in_ring(),
        it.valid(m.ring().cells()),
    ensures
        0 <= it.whole_frames(m.ring().channels) <= m.ring().frames,
        m.committed(it.whole_frames(m.ring().channels)).ring() == m.ring().advanced(
            it.whole_frames(m.ring().channels),
        ),
        m.ring().advanced(it.whole_frames(m.ring().channels)).in_ring(),
{
    lemma_start(m.ring());
    lemma_whole_frames(it.read_samples as int, m.ring().frames, m.ring().channels);
    lemma_one_turn(m.ring().appl + it.whole_frames(m.ring().channels), m.ring().bound);
}

/// A walk begins with all that is available, up to a buffer, in the order in which it lies in the
/// ring from the application's position on.
pub proof fn law_walk_covers_what_is_available<S>(ring: Ring)
    requires
        ring.accessible::<Capture>(),
    ensures
        Iter::<S>::first(ring).valid(ring.cells()),
        Iter::<S>::first(ring).pending() == Seq::new(
            (ring.extent::<Capture>() * ring.channels) as nat,
            |k: int| cell_after(ring.start(), k, ring.cells()),
        ),
        forall|mem: Seq<S>|
            mem.len() == ring.cells() ==> #[trigger] Iter::<S>::first(ring).values(mem)
                == ring_load(mem, ring.start(), ring.extent::<Capture>() * ring.channels),
{
    lemma_start(ring);
    let it = Iter::<S>::first(ring);
    let (room, here, c) = (ring.extent::<Capture>(), ring.frames - ring.offset(), ring.channels);
    assert(0 <= room * c <= ring.frames * c) by (nonlinear_arith)
        requires
            0 <= room <= ring.frames,
            0 < c,
    ;
    let av = ring.room::<Capture>();
    assert(av < 0 ==> av * c <= av && room * c == 0) by (nonlinear_arith)
        requires
            av < 0 ==> room == 0,
            0 < c,
    ;
    if here < room {
        assert(0 <= here * c < room * c && room * c == here * c + (room - here) * c)
            by (nonlinear_arith)
            requires
                0 <= here < room,
                0 < c,
        ;
    } else {
        assert(room * c <= here * c) by (nonlinear_arith)
            requires
                room <= here,
                0 < c,
        ;
    }
    assert(it.pending() =~= Seq::new(
        (room * c) as nat,
        |k: int| cell_after(ring.start(), k, ring.cells()),
    ));
    assert forall|mem: Seq<S>| mem.len() == ring.cells() implies #[trigger] it.values(mem)
        == ring_load(mem, ring.start(), room * c) by {
        assert(it.values(mem) =~= ring_load(mem, ring.start(), room * c));
    }
}

/// What is still to be read are the cells that are left of the stretch that is being read, and then
/// those of the stretch that follows.
pub proof fn law_walk_reads_one_cell_after_the_other<S>(it: Iter<S>, mem: Seq<S>, k: int)
    ensures
        ({
            let left = if it.p_offs < it.max_samples {
                it.max_samples - it.p_offs
            } else {
                0
            };
            let more = match it.next_p {
                Some((_, c2)) if c2 > 0 => c2 as int,
                _ => 0,
            };
            &&& it.pending().len() == left + more
            &&& it.values(mem).len() == left + more
            &&& 0 <= k < left ==> it.pending()[k] == it.p + it.p_offs + k && it.values(mem)[k]
                == mem[it.p + it.p_offs + k]
            &&& it.next_p matches Some((p2, c2)) ==> left <= k < left + more ==> it.pending()[k]
                == p2 + (k - left) && it.values(mem)[k] == mem[p2 + (k - left)]
        }),
{
}

/// A walk makes sense where both of its stretches lie in the buffer, the second is not empty, and
/// what has been read and what is left to read are no more than the buffer has cells.
pub proof fn law_where_a_walk_makes_sense<S>(it: Iter<S>, cells: int)
    ensures
        it.valid(cells) <==> {
            &&& 0 <= it.p <= cells <= isize::MAX
            &&& 0 <= it.p_offs
            &&& it.p_offs <= it.max_samples || it.p_offs == 0
            &&& it.p + it.max_samples <= cells
            &&& it.next_p matches Some((p2, c2)) ==> 0 <= p2 && 0 < c2 && p2 + c2 <= cells
            &&& 0 <= it.read_samples
            &&& it.read_samples + it.pending().len() <= cells
        },
{
}

/// The frames that have been read whole hold no more samples than have been read, and another frame
/// would hold more.
pub proof fn law_whole_frames_are_those_read_to_the_end<S>(it: Iter<S>, channels: int)
    requires
        0 < channels,
    ensures
        it.whole_frames(channels) * channels <= it.read_samples < (it.whole_frames(channels) + 1)
            * channels,
{
    lemma_fundamental_div_mod(it.read_samples as int, channels);
    lemma_mod_bound(it.read_samples as int, channels);
    let n = it.whole_frames(channels);
    assert(n * channels == channels * n && (n + 1) * channels == channels * n + channels)
        by (nonlinear_arith);
}

/// What has been read can be committed exactly where the frames that it makes up can.
pub proof fn law_where_a_walk_can_be_finished<S, D>(it: Iter<S>, m: MmapIO<S, D>)
    ensures
        it.commits(m) <==> 0 <= it.read_samples && 0 < m.data.channels <= isize::MAX
            && m.committable(it.read_samples as int / m.data.channels as int),
{
}

/// However far a walk has come, to finish it moves the application on by the frames that have been
/// read whole, around the boundary, and by nothing else. So the next walk begins with the first
/// sample that is not part of them.
pub proof fn law_finish_moves_on_by_what_was_read<S>(it: Iter<S>, m: MmapCapture<S>)
    requires
        m.ring().in_ring(),
        it.valid(m.ring().cells()),
    ensures
        ({
            let n = it.read_samples as int / m.data.channels as int;
            let after = m.committed(it.whole_frames(m.ring().channels));
            &&& after.c.0.appl_ptr == (m.c.0.appl_ptr + n) % (m.bound as int)
            &&& after.c.0.avail_min == m.c.0.avail_min
            &&& after.data == m.data
            &&& after.ss == m.ss
            &&& after.bound == m.bound
            &&& m.ring().bound % m.ring().frames == 0 || m.ring().appl + n < m.ring().bound
                ==> Iter::<S>::first(after.ring()).p == ((m.c.0.appl_ptr + n) as int % (
            m.data.frames as int)) * m.data.channels
        }),
{
    let ring = m.ring();
    let n = it.whole_frames(ring.channels);
    lemma_commit_frames(it, m);
    lemma_one_turn(ring.appl + n, ring.bound);
    lemma_mod_bound(ring.appl + n, ring.bound);
    let after = m.committed(n);
    lemma_start(after.ring());
    lemma_room::<Capture>(after.ring());
    if ring.appl + n >= ring.bound && ring.bound % ring.frames == 0 {
        lemma_fundamental_div_mod(ring.bound, ring.frames);
        lemma_mod_multiples_vanish(-(ring.bound / ring.frames), ring.appl + n, ring.frames);
        assert(ring.frames * (-(ring.bound / ring.frames)) == -(ring.frames * (ring.bound
            / ring.frames))) by (nonlinear_arith);
    }
}

/// A walk begins at the application's position with what is available, a buffer at most: its `k`th
/// sample is that of the `k`th cell from there on, around the end of the buffer.
pub proof fn law_walk_begins_at_the_position<S>(ring: Ring, mem: Seq<S>, k: int)
    requires
        ring.accessible::<Capture>(),
        mem.len() == ring.frames * ring.channels,
    ensures
        ({
            let it = Iter::<S>::first(ring);
            let avail = Capture::frames_avail(ring.hw, ring.appl, ring.frames, ring.bound);
            let most = if avail < 0 {
                0
            } else if avail < ring.frames {
                avail
            } else {
                ring.frames
            };
            &&& it.p == (ring.appl % ring.frames) * ring.channels
            &&& it.p_offs == 0
            &&& it.read_samples == 0
            &&& it.values(mem).len() == most * ring.channels
            &&& 0 <= k < most * ring.channels ==> {
                let cell = (ring.appl % ring.frames) * ring.channels + k;
                it.values(mem)[k] == mem[cell % (ring.frames * ring.channels)]
            }
        }),
{
    law_walk_covers_what_is_available::<S>(ring);
    lemma_start(ring);
    lemma_samples(ring, ring.extent::<Capture>());
    if 0 <= k < ring.extent::<Capture>() * ring.channels {
        law_loaded_samples_lie_one_after_the_other(
            mem,
            ring.start(),
            ring.extent::<Capture>() * ring.channels,
            k,
        );
    }
}

} // verus!
