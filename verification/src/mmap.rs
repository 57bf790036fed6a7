//! Reading and writing the ring buffer of a stream.

use core::marker::PhantomData;

use vstd::arithmetic::div_mod::{
    lemma_add_mod_noop_right, lemma_div_by_multiple, lemma_div_is_ordered, lemma_mod_bound,
};
use vstd::prelude::*;

use crate::control::{snd_pcm_mmap_control, Control};
use crate::dir::{lemma_one_turn, Capture, MmapDir, Playback};
use crate::pcm::{signed, unsigned, Frames};
use crate::sample::SampleData;
use crate::status::Status;

verus! {

/// A stream that plays.
pub type MmapPlayback<S> = MmapIO<S, Playback>;

/// A stream that records.
pub type MmapCapture<S> = MmapIO<S, Capture>;

/// A stream as it stands: its ring buffer, and the two records as last read.
#[derive(Debug)]
pub struct MmapIO<S, D> {
    /// The ring buffer.
    pub data: SampleData<S>,
    /// The control record.
    pub c: Control,
    /// The status record.
    pub ss: Status,
    /// The number at which the pointers wrap.
    pub bound: Frames,
    /// The direction.
    pub dir: PhantomData<D>,
}

/// The numbers that decide what can be read from or written to a stream.
pub ghost struct Ring {
    /// Frames the hardware has read or written.
    pub hw: int,
    /// Frames the application has read or written.
    pub appl: int,
    /// Frames in the buffer.
    pub frames: int,
    /// Samples in a frame.
    pub channels: int,
    /// Where the two pointers wrap.
    pub bound: int,
}

impl Ring {
    /// The application is at some cell of the buffer: there is one, and they can all be counted
    /// with machine numbers.
    pub open spec fn placed(self) -> bool {
        &&& 0 <= self.appl
        &&& 0 < self.frames
        &&& 0 < self.channels
        &&& self.frames * self.channels <= isize::MAX
    }

    /// What the kernel keeps to: both pointers are below the boundary, and the boundary is a buffer
    /// or more.
    pub open spec fn in_ring(self) -> bool {
        &&& self.placed()
        &&& 0 <= self.hw < self.bound
        &&& self.appl < self.bound
        &&& self.frames <= self.bound <= isize::MAX
    }

    /// The frames available to the application can be counted with machine numbers.
    pub open spec fn countable<D: MmapDir>(self) -> bool {
        self.hw + D::lead(self.frames) - self.appl <= isize::MAX
    }

    /// Frames available to the application.
    pub open spec fn avail<D: MmapDir>(self) -> int {
        D::frames_avail(self.hw, self.appl, self.frames, self.bound)
    }

    /// Frames that can be read or written at once: what is available, but a buffer at most.
    pub open spec fn room<D: MmapDir>(self) -> int {
        if self.avail::<D>() < self.frames {
            self.avail::<D>()
        } else {
            self.frames
        }
    }

    /// Frames that are read or written at once: none where the pointers are so far out of the ring
    /// that the number available is negative.
    pub open spec fn extent<D: MmapDir>(self) -> int {
        if self.room::<D>() < 0 {
            0
        } else {
            self.room::<D>()
        }
    }

    /// The application is at some cell of the buffer, and the samples available from there on can
    /// be counted with machine numbers.
    pub open spec fn accessible<D: MmapDir>(self) -> bool {
        &&& self.placed()
        &&& isize::MIN <= self.room::<D>() * self.channels
    }

    /// Frames in the buffer before the application's position.
    pub open spec fn offset(self) -> int {
        self.appl % self.frames
    }

    /// The cell of the buffer at the application's position.
    pub open spec fn start(self) -> int {
        self.offset() * self.channels
    }

    /// Cells in the buffer.
    pub open spec fn cells(self) -> int {
        self.frames * self.channels
    }

    /// Where to read or write: the cell and the number of frames up to the end of the buffer, and
    /// what remains from its beginning on.
    pub open spec fn data_ptr<D: MmapDir>(self) -> (isize, Frames, Option<(isize, Frames)>) {
        let here = self.frames - self.offset();
        if here < self.room::<D>() {
            (
                self.start() as isize,
                here as isize,
                Some((0isize, (self.room::<D>() - here) as isize)),
            )
        } else {
            (self.start() as isize, self.room::<D>() as isize, None)
        }
    }

    /// The ring after the application has read or written `v` frames.
    pub open spec fn advanced(self, v: int) -> Ring {
        Ring { appl: (self.appl + v) % self.bound, ..self }
    }
}

impl<S, D> MmapIO<S, D> {
    /// The numbers that decide what can be read or written.
    pub open spec fn ring(self) -> Ring {
        Ring {
            hw: signed(self.ss.0.hw_ptr),
            appl: signed(self.c.0.appl_ptr),
            frames: self.data.frames as int,
            channels: self.data.channels as int,
            bound: self.bound as int,
        }
    }

    /// This stream with another position of the application.
    pub open spec fn with_appl(self, appl: int) -> MmapIO<S, D> {
        MmapIO {
            c: Control(
                snd_pcm_mmap_control { appl_ptr: unsigned(appl) as usize, ..self.c.0 },
            ),
            ..self
        }
    }

    /// The position of the application `v` frames further on can be counted with machine numbers.
    pub open spec fn committable(self, v: int) -> bool {
        &&& isize::MIN <= self.ring().appl + v <= isize::MAX
        &&& self.ring().appl + v - self.bound <= isize::MAX
    }

    /// This stream with the application `v` frames further on, from the boundary on counted anew.
    pub open spec fn committed(self, v: int) -> MmapIO<S, D> {
        if self.ring().appl + v >= self.bound {
            self.with_appl(self.ring().appl + v - self.bound)
        } else {
            self.with_appl(self.ring().appl + v)
        }
    }
}

impl<S, D: MmapDir> MmapIO<S, D> {
    /// The status.
    pub fn status(&self) -> (r: &Status)
        ensures
            *r == self.ss,
    {
        &self.ss
    }

    /// Number of frames committed by the application.
    ///
    /// This number wraps at the boundary.
    #[inline]
    pub fn appl_ptr(&self) -> (r: Frames)
        ensures
            r == self.ring().appl,
            r == self.c.0.appl_ptr || r + usize::MAX + 1 == self.c.0.appl_ptr,
    {
        self.c.appl_ptr()
    }

    /// Number of frames read or written by the hardware.
    ///
    /// This number wraps at the boundary.
    #[inline]
    pub fn hw_ptr(&self) -> (r: Frames)
        ensures
            r == self.ring().hw,
            r == self.ss.0.hw_ptr || r + usize::MAX + 1 == self.ss.0.hw_ptr,
    {
        self.ss.hw_ptr()
    }

    /// The number at which the pointers of the hardware and of the application wrap.
    #[inline]
    pub fn boundary(&self) -> (r: Frames)
        ensures
            r == self.ring().bound,
            r == self.bound,
    {
        self.bound
    }

    /// Total number of frames in the hardware buffer.
    #[inline]
    pub fn buffer_size(&self) -> (r: Frames)
        ensures
            r == self.ring().frames,
            r == self.data.frames,
    {
        self.data.frames
    }

    /// Number of channels in the stream.
    #[inline]
    pub fn channels(&self) -> (r: u32)
        ensures
            r == self.ring().channels,
            r == self.data.channels,
    {
        self.data.channels
    }

    /// Tells whether the application is at some cell of the buffer.
    pub fn is_placed(&self) -> (r: bool)
        ensures
            r == self.ring().placed(),
            r <==> self.c.0.appl_ptr <= isize::MAX && 0 < self.data.frames && 0 < self.data.channels
                && self.data.frames * self.data.channels <= isize::MAX,
    {
        let (frames, channels): (Frames, u32) = (self.buffer_size(), self.channels());
        if self.appl_ptr() < 0 || frames <= 0 || channels == 0 {
            return false;
        }
        proof {
            assert(0 <= frames * channels <= 0x7fff_ffff_ffff_ffff * 0xffff_ffff)
                by (nonlinear_arith)
                requires
                    0 <= frames <= 0x7fff_ffff_ffff_ffff,
                    0 <= channels <= 0xffff_ffff,
            ;
        }
        frames as i128 * channels as i128 <= isize::MAX as i128
    }

    /// Tells whether both pointers are where the kernel should have them.
    pub fn check(&self) -> (r: bool)
        ensures
            r == self.ring().in_ring(),
            r <==> {
                &&& self.ss.0.hw_ptr < self.bound
                &&& self.c.0.appl_ptr < self.bound
                &&& 0 < self.data.frames <= self.bound
                &&& 0 < self.data.channels
                &&& self.data.frames * self.data.channels <= isize::MAX
            },
    {
        let (hw, appl) = (self.hw_ptr(), self.appl_ptr());
        let (frames, bound) = (self.buffer_size(), self.boundary());
        self.is_placed() && 0 <= hw && hw < bound && appl < bound && frames <= bound
    }

    /// Tells whether the buffer can be read or written from the application's position on.
    pub fn can_access(&self) -> (r: bool)
        ensures
            r == self.ring().accessible::<D>(),
            r <==> self.c.0.appl_ptr <= isize::MAX && 0 < self.data.frames && 0 < self.data.channels
                && self.data.frames * self.data.channels <= isize::MAX && isize::MIN
                <= self.ring().avail::<D>() * self.data.channels,
    {
        let (avail, channels): (Frames, u32) = (self.avail(), self.channels());
        if !self.is_placed() {
            return false;
        }
        proof {
            let room = self.ring().room::<D>();
            assert(0 <= room ==> 0 <= room * channels) by (nonlinear_arith);
            assert(avail < 0 ==> -0x8000_0000_0000_0000 * 0xffff_ffff <= avail * channels <= 0)
                by (nonlinear_arith)
                requires
                    -0x8000_0000_0000_0000 <= avail,
                    0 <= channels <= 0xffff_ffff,
            ;
        }
        avail >= 0 || avail as i128 * channels as i128 >= isize::MIN as i128
    }

    /// Tells whether the position of the application `v` frames further on can be counted.
    pub fn can_commit(&self, v: Frames) -> (r: bool)
        ensures
            r == self.committable(v as int),
            self.c.0.appl_ptr <= isize::MAX && 0 <= self.bound ==> (r <==> self.c.0.appl_ptr + v
                <= isize::MAX),
    {
        match self.appl_ptr().checked_add(v) {
            None => false,
            Some(z) => z < self.boundary() || z.checked_sub(self.boundary()).is_some(),
        }
    }

    /// Notifies the kernel that `v` frames have now been read or written by the application.
    ///
    /// This will allow the kernel to use this part of the buffer again. The pointer of the
    /// application wraps at the boundary. The caller stores the control record.
    pub fn commit(&mut self, v: Frames)
        requires
            old(self).committable(v as int),
        ensures
            *final(self) == old(self).committed(v as int),
            final(self).ring().appl == if old(self).ring().appl + v >= old(self).bound {
                old(self).ring().appl + v - old(self).bound
            } else {
                old(self).ring().appl + v
            },
            old(self).ring().in_ring() && 0 <= v <= old(self).bound ==> {
                &&& final(self).ring() == old(self).ring().advanced(v as int)
                &&& final(self).ring().in_ring()
            },
            final(self).data == old(self).data,
            final(self).ss == old(self).ss,
            final(self).bound == old(self).bound,
            final(self).c.0.avail_min == old(self).c.0.avail_min,
            old(self).c.0.appl_ptr <= isize::MAX ==> {
                let z = old(self).c.0.appl_ptr + v;
                &&& 0 <= z < old(self).bound ==> final(self).c.0.appl_ptr == z
                &&& z >= old(self).bound && z - old(self).bound >= 0 ==> final(self).c.0.appl_ptr
                    == z - old(self).bound
            },
    {
        let mut z: Frames = self.appl_ptr() + v;
        if z >= self.boundary() {
            z -= self.boundary();
        }
        proof {
            if old(self).ring().in_ring() && 0 <= v <= old(self).bound {
                lemma_one_turn(old(self).ring().appl + v, old(self).bound as int);
            }
        }
        self.c.set_appl_ptr(z);
    }

    /// Number of frames available to read or to write.
    ///
    /// In case of an underrun, this value might be bigger than the buffer size.
    pub fn avail(&self) -> (r: Frames)
        ensures
            r == self.ring().avail::<D>(),
            r == D::frames_avail(
                signed(self.ss.0.hw_ptr),
                signed(self.c.0.appl_ptr),
                self.data.frames as int,
                self.bound as int,
            ),
            self.ss.0.hw_ptr < self.bound && self.c.0.appl_ptr < self.bound && 0 <= self.data.frames
                <= self.bound && self.ss.0.hw_ptr + D::lead(self.data.frames as int)
                - self.c.0.appl_ptr <= isize::MAX ==> r == (self.ss.0.hw_ptr + D::lead(
                self.data.frames as int,
            ) - self.c.0.appl_ptr) % (self.bound as int),
    {
        proof {
            if self.ss.0.hw_ptr < self.bound && self.c.0.appl_ptr < self.bound && 0
                <= self.data.frames <= self.bound && self.ss.0.hw_ptr + D::lead(
                self.data.frames as int,
            ) - self.c.0.appl_ptr <= isize::MAX {
                D::law_avail_counts_around_boundary(
                    self.ss.0.hw_ptr as isize,
                    self.c.0.appl_ptr as isize,
                    self.data.frames,
                    self.bound,
                );
            }
        }
        D::avail(self.hw_ptr(), self.appl_ptr(), self.buffer_size(), self.boundary())
    }

    /// Where to read or write.
    ///
    /// Returns the cell of the buffer to go on from, and the number of frames available there.
    /// Since this is a ring buffer, there might be more data to read or write in the beginning of
    /// the buffer. If so, that cell and that number are the third value.
    pub fn data_ptr(&self) -> (r: (isize, Frames, Option<(isize, Frames)>))
        requires
            self.ring().placed(),
        ensures
            r == self.ring().data_ptr::<D>(),
            r.0 == (self.c.0.appl_ptr as int % self.data.frames as int) * self.data.channels,
            ({
                let here = self.data.frames - self.c.0.appl_ptr as int % self.data.frames as int;
                let avail = self.ring().avail::<D>();
                let most = if avail < self.data.frames {
                    avail
                } else {
                    self.data.frames as int
                };
                &&& most <= here ==> r.1 == most && r.2 is None
                &&& most > here ==> r.1 == here && r.2 == Some((0isize, (most - here) as isize))
            }),
            0 <= r.0 == self.ring().start() < self.ring().cells(),
            r.1 <= self.ring().frames - self.ring().offset(),
            self.ring().in_ring() && self.ring().countable::<D>() ==> 0 <= r.1,
            match r.2 {
                None => r.1 == self.ring().room::<D>(),
                Some((cell, more)) => {
                    &&& cell == 0
                    &&& r.1 == self.ring().frames - self.ring().offset()
                    &&& 0 < more
                    &&& r.1 + more == self.ring().room::<D>()
                },
            },
    {
        let (hwptr, applptr) = (self.hw_ptr(), self.appl_ptr());
        let bufsize: Frames = self.buffer_size();

        let offs: Frames = applptr % bufsize;
        let mut a: Frames = D::avail(hwptr, applptr, bufsize, self.boundary());
        proof {
            lemma_start(self.ring());
            if self.ring().in_ring() && self.ring().countable::<D>() {
                lemma_room::<D>(self.ring());
            }
        }
        if a > bufsize {
            a = bufsize;
        }
        let b: Frames = bufsize - offs;
        let more_data: Option<(isize, Frames)> = if b < a {
            let z: Frames = a - b;
            a = b;
            Some((0, z))
        } else {
            None
        };

        let p: isize = offs * self.channels() as isize;
        (p, a, more_data)
    }
}

/// There is at least nothing and at most a buffer to read or to write.
pub proof fn lemma_room<D: MmapDir>(ring: Ring)
    requires
        ring.in_ring(),
        ring.countable::<D>(),
    ensures
        0 <= ring.avail::<D>() < ring.bound,
        ring.avail::<D>() == (ring.hw + D::lead(ring.frames) - ring.appl) % ring.bound,
        0 <= ring.extent::<D>() == ring.room::<D>() <= ring.frames,
        0 <= D::lead(ring.frames) <= ring.frames,
        ring.accessible::<D>(),
{
    D::law_lead_is_within_buffer(ring.frames);
    D::law_avail_counts_around_boundary(
        ring.hw as isize,
        ring.appl as isize,
        ring.frames as isize,
        ring.bound as isize,
    );
    lemma_mod_bound(ring.hw + D::lead(ring.frames) - ring.appl, ring.bound);
    lemma_samples(ring, ring.room::<D>());
}

/// The application's position is a cell of the buffer, at the start of a frame.
pub proof fn lemma_start(ring: Ring)
    requires
        ring.placed(),
    ensures
        0 <= ring.offset() < ring.frames,
        0 <= ring.start() < ring.cells(),
        ring.channels <= ring.cells(),
        ring.frames <= ring.cells(),
        ring.start() + (ring.frames - ring.offset()) * ring.channels == ring.cells(),
{
    lemma_mod_bound(ring.appl, ring.frames);
    let (offset, frames, channels) = (ring.offset(), ring.frames, ring.channels);
    assert(0 <= offset * channels < frames * channels) by (nonlinear_arith)
        requires
            0 <= offset < frames,
            0 < channels,
    ;
    assert(channels <= frames * channels && frames <= frames * channels) by (nonlinear_arith)
        requires
            0 < frames,
            0 < channels,
    ;
    assert(offset * channels + (frames - offset) * channels == frames * channels)
        by (nonlinear_arith);
}

/// As many frames as the buffer has, or fewer, have as many samples as it has cells, or fewer.
pub proof fn lemma_samples(ring: Ring, n: int)
    requires
        ring.placed(),
        0 <= n <= ring.frames,
    ensures
        0 <= n * ring.channels <= ring.cells(),
{
    let (frames, channels) = (ring.frames, ring.channels);
    assert(0 <= n * channels <= frames * channels) by (nonlinear_arith)
        requires
            0 <= n <= frames,
            0 < channels,
    ;
}

/// `n` samples of at most `frames` frames hold at most that many whole frames, and exactly that
/// many if they are all there.
pub proof fn lemma_whole_frames(n: int, frames: int, channels: int)
    requires
        0 <= frames,
        0 < channels,
        0 <= n <= frames * channels,
    ensures
        0 <= n / channels <= frames,
        n == frames * channels ==> n / channels == frames,
{
    lemma_div_is_ordered(0, n, channels);
    lemma_div_is_ordered(n, frames * channels, channels);
    lemma_div_by_multiple(frames, channels);
}

/// A stream goes by the numbers in its two records and by the sizes it was opened with.
pub proof fn law_ring_is_what_the_records_say<S, D>(m: MmapIO<S, D>)
    ensures
        isize::MIN <= m.ring().hw <= isize::MAX,
        isize::MIN <= m.ring().appl <= isize::MAX,
        m.ring().hw == m.ss.0.hw_ptr || m.ring().hw + usize::MAX + 1 == m.ss.0.hw_ptr,
        m.ring().appl == m.c.0.appl_ptr || m.ring().appl + usize::MAX + 1 == m.c.0.appl_ptr,
        m.ring().frames == m.data.frames,
        m.ring().channels == m.data.channels,
        m.ring().bound == m.bound,
{
}

/// When the pointers are in the ring, what is available to the application is the way that is left
/// to it around the boundary. When it has gone that far, it is `lead` frames ahead of the hardware.
pub proof fn law_avail_leads_up_to_the_hardware<S, D: MmapDir>(m: MmapIO<S, D>)
    requires
        m.ss.0.hw_ptr < m.bound,
        m.c.0.appl_ptr < m.bound,
        0 <= m.data.frames <= m.bound,
        m.ss.0.hw_ptr + D::lead(m.data.frames as int) - m.c.0.appl_ptr <= isize::MAX,
    ensures
        0 <= m.ring().avail::<D>() < m.bound,
        m.ring().avail::<D>() == (m.ss.0.hw_ptr + D::lead(m.data.frames as int) - m.c.0.appl_ptr)
            % (m.bound as int),
        (m.c.0.appl_ptr + m.ring().avail::<D>()) % (m.bound as int) == (m.ss.0.hw_ptr + D::lead(
            m.data.frames as int,
        )) % (m.bound as int),
{
    let bound = m.bound as int;
    let goal = m.ss.0.hw_ptr + D::lead(m.data.frames as int);
    D::law_avail_counts_around_boundary(
        m.ss.0.hw_ptr as isize,
        m.c.0.appl_ptr as isize,
        m.data.frames,
        m.bound,
    );
    lemma_mod_bound(goal - m.c.0.appl_ptr, bound);
    lemma_add_mod_noop_right(m.c.0.appl_ptr as int, goal - m.c.0.appl_ptr, bound);
}

/// What the words about a ring come to in numbers: what is available is counted by the direction, a
/// buffer at most is gone through at once, and a position is a cell at the start of a frame.
pub proof fn law_ring_is_counted_in_frames_and_cells<D: MmapDir>(ring: Ring, v: int)
    ensures
        ring.avail::<D>() == D::frames_avail(ring.hw, ring.appl, ring.frames, ring.bound),
        ring.room::<D>() <= ring.avail::<D>(),
        ring.room::<D>() <= ring.frames,
        ring.room::<D>() == ring.avail::<D>() || ring.room::<D>() == ring.frames,
        ring.extent::<D>() >= 0,
        ring.extent::<D>() >= ring.room::<D>(),
        ring.extent::<D>() == 0 || ring.extent::<D>() == ring.room::<D>(),
        ring.offset() == ring.appl % ring.frames,
        ring.start() == (ring.appl % ring.frames) * ring.channels,
        ring.cells() == ring.frames * ring.channels,
        ring.advanced(v).appl == (ring.appl + v) % ring.bound,
        ring.advanced(v).hw == ring.hw,
        ring.advanced(v).frames == ring.frames,
        ring.advanced(v).channels == ring.channels,
        ring.advanced(v).bound == ring.bound,
        ring.countable::<D>() <==> ring.hw + D::lead(ring.frames) - ring.appl <= isize::MAX,
{
}

/// The application is somewhere in the buffer exactly where its pointer is no negative number, the
/// buffer is not empty, and its cells can be counted. Both pointers are in the ring exactly where,
/// beyond that, each of them is below the boundary, and a turn holds a buffer. What is available
/// can be got at exactly where its samples can be counted, too.
pub proof fn law_where_a_ring_makes_sense<D: MmapDir>(ring: Ring)
    ensures
        ring.placed() <==> 0 <= ring.appl && 0 < ring.frames && 0 < ring.channels && ring.frames
            * ring.channels <= isize::MAX,
        ring.in_ring() <==> 0 <= ring.appl < ring.bound && 0 <= ring.hw < ring.bound && 0
            < ring.frames <= ring.bound <= isize::MAX && 0 < ring.channels && ring.frames
            * ring.channels <= isize::MAX,
        ring.accessible::<D>() <==> 0 <= ring.appl && 0 < ring.frames && 0 < ring.channels
            && ring.frames * ring.channels <= isize::MAX && isize::MIN <= D::frames_avail(
            ring.hw,
            ring.appl,
            ring.frames,
            ring.bound,
        ) * ring.channels,
{
    let avail = D::frames_avail(ring.hw, ring.appl, ring.frames, ring.bound);
    let (frames, c) = (ring.frames, ring.channels);
    if 0 < c && 0 < frames && avail >= frames {
        assert(0 <= avail * c && 0 <= frames * c) by (nonlinear_arith)
            requires
                0 < c,
                0 < frames <= avail,
        ;
    }
}

/// What is available lies in the buffer from the application's position on: up to its end, and
/// where that is not all, the rest from its beginning. Both together are what is available, a
/// buffer at most.
pub proof fn law_data_lies_from_the_position_on<D: MmapDir>(ring: Ring)
    requires
        ring.accessible::<D>(),
    ensures
        ({
            let (p, here, more) = ring.data_ptr::<D>();
            let avail = D::frames_avail(ring.hw, ring.appl, ring.frames, ring.bound);
            let most = if avail < ring.frames {
                avail
            } else {
                ring.frames
            };
            &&& p == (ring.appl % ring.frames) * ring.channels
            &&& here <= ring.frames - ring.appl % ring.frames
            &&& more is None ==> here == most
            &&& more matches Some((p2, n)) ==> p2 == 0 && 0 < n && here == ring.frames - ring.appl
                % ring.frames && here + n == most
        }),
{
    lemma_start(ring);
    let (room, c) = (ring.room::<D>(), ring.channels);
    assert(room < 0 ==> room * c <= room) by (nonlinear_arith)
        requires
            0 < c,
    ;
}

/// A commit moves the position of the application on, and a turn of the boundary back where it
/// comes to the boundary. It changes nothing else.
pub proof fn law_commit_moves_the_position_alone<S, D>(m: MmapIO<S, D>, v: int)
    requires
        m.committable(v),
    ensures
        ({
            let after = m.committed(v);
            let z = m.ring().appl + v;
            &&& after.data == m.data
            &&& after.ss == m.ss
            &&& after.bound == m.bound
            &&& after.c.0.avail_min == m.c.0.avail_min
            &&& z < m.bound ==> after.ring().appl == z
            &&& z >= m.bound ==> after.ring().appl == z - m.bound
        }),
        m.c.0.appl_ptr <= isize::MAX && 0 <= m.c.0.appl_ptr + v < m.bound
            ==> m.committed(v).c.0.appl_ptr == m.c.0.appl_ptr + v,
        m.c.0.appl_ptr <= isize::MAX && 0 <= m.bound <= m.c.0.appl_ptr + v
            ==> m.committed(v).c.0.appl_ptr == m.c.0.appl_ptr + v - m.bound,
{
}

/// A commit needs numbers of the machine: those of the position it moves to, before and after it is
/// brought back below the boundary. With a boundary that is no negative number, the first will do.
pub proof fn law_commit_needs_numbers_of_the_machine<S, D>(m: MmapIO<S, D>, v: int)
    ensures
        m.committable(v) <==> isize::MIN <= m.ring().appl + v <= isize::MAX && m.ring().appl + v
            - m.bound <= isize::MAX,
        m.c.0.appl_ptr <= isize::MAX && 0 <= m.bound && 0 <= v ==> (m.committable(v)
            <==> m.c.0.appl_ptr + v <= isize::MAX),
{
}

/// The same stream with another position differs in nothing but the position.
pub proof fn law_only_the_position_is_replaced<S, D>(m: MmapIO<S, D>, appl: Frames)
    ensures
        m.with_appl(appl as int).ring().appl == appl,
        m.with_appl(appl as int).c.0.avail_min == m.c.0.avail_min,
        m.with_appl(appl as int).data == m.data,
        m.with_appl(appl as int).ss == m.ss,
        m.with_appl(appl as int).bound == m.bound,
{
}

} // verus!
