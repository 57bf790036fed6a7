//! The ring buffer of samples, and how it is opened.

use core::marker::PhantomData;

use vstd::prelude::*;

use crate::error::{Error, Result};
use crate::mapping::{
    law_mapping_is_least_whole_pages, lemma_whole_pages, DriverMemory, MapRequest,
};
use crate::open::{granted_by, only_fd, pcm_to_fd, Device, Reply, Request, Step};
use crate::pcm::{from_frames, unsigned, Access, Frames, RawFd};

verus! {

/// Where the samples of a channel lie, as the driver reports it.
#[allow(non_camel_case_types)]
#[derive(Clone, Copy, Debug, PartialEq, Eq, Structural)]
pub struct snd_pcm_channel_info {
    /// The channel.
    pub channel: libc::c_uint,
    /// Where in the file its memory starts.
    pub offset: libc::c_long,
    /// The distance to its first sample, in bits.
    pub first: libc::c_uint,
    /// The distance between its samples, in bits.
    pub step: libc::c_uint,
}

/// The hardware parameters of a device that is set up.
#[derive(Clone, Copy, Debug, PartialEq, Eq, Structural)]
pub struct HwParams {
    /// The length of the ring buffer in frames.
    pub buffer_size: Frames,
    /// The number of channels.
    pub channels: u32,
    /// How the samples are accessed.
    pub access: Access,
}

/// The mapped ring buffer of a stream whose samples are of the type `S`.
#[derive(Debug)]
pub struct SampleData<S> {
    /// The memory it lies in.
    pub mem: DriverMemory,
    /// Its length in frames.
    pub frames: Frames,
    /// The number of samples in a frame.
    pub channels: u32,
    /// The type of a sample.
    pub samples: PhantomData<S>,
}

impl<S> SampleData<S> {
    /// Starts to open the ring buffer of a device, where a page of memory has `page_size` bytes.
    pub fn new(page_size: usize) -> (r: SampleOpening<S>)
        ensures
            r == SampleOpening::<S>::first(page_size),
            r.page_size == page_size,
            r.stage is Params,
    {
        SampleOpening { page_size, stage: SampleStage::Params, samples: PhantomData }
    }
}

/// How far the opening of a ring buffer has come.
#[derive(Clone, Copy, Debug, PartialEq, Eq, Structural)]
pub enum SampleStage {
    /// Nothing is known.
    Params,
    /// The hardware parameters are known.
    Descriptor(HwParams),
    /// The file descriptor is known, too.
    Info(HwParams, RawFd),
    /// The mapping to ask for is known.
    Memory(HwParams, MapRequest),
}

/// The opening of a ring buffer.
#[derive(Debug)]
pub struct SampleOpening<S> {
    /// The size of a page of memory.
    pub page_size: usize,
    /// How far it has come.
    pub stage: SampleStage,
    /// The type of a sample.
    pub samples: PhantomData<S>,
}

/// The distance in bits from one sample of a channel to the next, where frames of `channels`
/// samples of the type `S` follow each other.
pub open spec fn frame_bits<S>(channels: u32) -> int {
    channels * (core::mem::size_of::<S>() as u32) * 8
}

/// Whether the driver lays out the samples of channel `0` as frames of samples of the type `S`.
pub open spec fn is_interleaved<S>(channels: u32, info: snd_pcm_channel_info) -> bool {
    info.step == frame_bits::<S>(channels) && info.first == 0
}

impl<S> SampleOpening<S> {
    /// The opening of which nothing is known.
    pub open spec fn first(page_size: usize) -> SampleOpening<S> {
        SampleOpening { page_size, stage: SampleStage::Params, samples: PhantomData }
    }

    /// The mapping of the ring buffer, from its place in the file on.
    pub open spec fn mapping_of(
        hw: HwParams,
        fd: RawFd,
        info: snd_pcm_channel_info,
        page_size: usize,
    ) -> MapRequest {
        MapRequest::of(
            fd,
            unsigned(hw.buffer_size as int) * hw.channels,
            core::mem::size_of::<S>() as int,
            info.offset,
            true,
            page_size as int,
        )
    }

    /// Whether the sizes that follow from the driver's report are numbers of the machine, and the
    /// buffer, where it is as expected, is not empty.
    pub open spec fn fits(hw: HwParams, info: snd_pcm_channel_info, page_size: usize) -> bool {
        let count = unsigned(hw.buffer_size as int) * hw.channels;
        &&& frame_bits::<S>(hw.channels) <= u32::MAX
        &&& is_interleaved::<S>(hw.channels, info) ==> {
            &&& count <= usize::MAX
            &&& MapRequest::fits(count, core::mem::size_of::<S>() as int, page_size as int)
        }
    }

    /// Whether that is so of what a device reports when it is asked.
    pub open spec fn fits_devices(page_size: usize, devices: Seq<Device>) -> bool {
        match (devices[0].hw_params, devices[1].fd()) {
            (Ok(hw), Ok(fd)) => (devices[2].channel_info)(fd) matches Ok(info) ==> Self::fits(
                hw,
                info,
                page_size,
            ),
            _ => true,
        }
    }

    /// Whether a reply can be worked out.
    pub open spec fn acceptable(self, reply: Reply) -> bool {
        self.stage matches SampleStage::Info(hw, _) ==> reply matches Reply::ChannelInfo(info)
            ==> Self::fits(hw, info, self.page_size)
    }

    /// The next question: for the parameters, the descriptor, the layout and the mapping.
    pub open spec fn question(self) -> Request {
        match self.stage {
            SampleStage::Params => Request::HwParams,
            SampleStage::Descriptor(_) => Request::PollDescriptors,
            SampleStage::Info(_, fd) => Request::ChannelInfo(fd),
            SampleStage::Memory(_, request) => Request::Memory(request),
        }
    }

    /// What follows from a reply.
    pub open spec fn next(self, reply: Reply) -> Step<SampleOpening<S>, SampleData<S>> {
        match (self.stage, reply) {
            (SampleStage::Info(_, _), Reply::Failed(_)) => Step::Done(
                Err(Error::of("SNDRV_PCM_IOCTL_CHANNEL_INFO")),
            ),
            (_, Reply::Failed(e)) => Step::Done(Err(e)),
            (SampleStage::Params, Reply::HwParams(hw)) => if hw.access == Access::MMapInterleaved {
                Step::Ask(SampleOpening { stage: SampleStage::Descriptor(hw), ..self })
            } else {
                Step::Done(Err(Error::of("Not MMAP interleaved data")))
            },
            (SampleStage::Descriptor(hw), Reply::PollDescriptors(c, fd)) => match only_fd(c, fd) {
                Ok(fd) => Step::Ask(SampleOpening { stage: SampleStage::Info(hw, fd), ..self }),
                Err(e) => Step::Done(Err(e)),
            },
            (SampleStage::Info(hw, fd), Reply::ChannelInfo(info)) => if is_interleaved::<S>(
                hw.channels,
                info,
            ) {
                let request = Self::mapping_of(hw, fd, info, self.page_size);
                Step::Ask(SampleOpening { stage: SampleStage::Memory(hw, request), ..self })
            } else {
                Step::Done(Err(Error::of("MMAP data size mismatch")))
            },
            (SampleStage::Memory(hw, request), Reply::Memory(p)) => match DriverMemory::granted(
                request,
                p,
            ) {
                Ok(mem) => Step::Done(
                    Ok(
                        SampleData {
                            mem,
                            frames: hw.buffer_size,
                            channels: hw.channels,
                            samples: PhantomData,
                        },
                    ),
                ),
                Err(e) => Step::Done(Err(e)),
            },
            _ => Step::Ask(self),
        }
    }

    /// What comes of asking one question of the device at each of these times, up to the end.
    pub open spec fn run(self, devices: Seq<Device>) -> Step<SampleOpening<S>, SampleData<S>>
        decreases devices.len(),
    {
        if devices.len() == 0 {
            Step::Ask(self)
        } else {
            match self.next(devices[0].answer(self.question())) {
                Step::Ask(o) => o.run(devices.drop_first()),
                done => done,
            }
        }
    }

    /// The ring buffer of a device: its access must be mapped and interleaved, it must have one
    /// file descriptor, and the driver must lay out samples of the type `S` as expected.
    pub open spec fn outcome(page_size: usize, devices: Seq<Device>) -> Result<SampleData<S>> {
        match (devices[0].hw_params, devices[1].fd()) {
            (Err(e), _) => Err(e),
            (Ok(hw), _) if hw.access != Access::MMapInterleaved => Err(
                Error::of("Not MMAP interleaved data"),
            ),
            (Ok(_), Err(e)) => Err(e),
            (Ok(hw), Ok(fd)) => match (devices[2].channel_info)(fd) {
                Err(_) => Err(Error::of("SNDRV_PCM_IOCTL_CHANNEL_INFO")),
                Ok(info) => if is_interleaved::<S>(hw.channels, info) {
                    match devices[3].map(Self::mapping_of(hw, fd, info, page_size)) {
                        Ok(mem) => Ok(
                            SampleData {
                                mem,
                                frames: hw.buffer_size,
                                channels: hw.channels,
                                samples: PhantomData,
                            },
                        ),
                        Err(e) => Err(e),
                    }
                } else {
                    Err(Error::of("MMAP data size mismatch"))
                },
            },
        }
    }

    /// Tells whether a reply can be worked out.
    pub fn accepts(&self, reply: Reply) -> (r: bool)
        ensures
            r == self.acceptable(reply),
            r <==> match (self.stage, reply) {
                (SampleStage::Info(hw, _), Reply::ChannelInfo(info)) => {
                    let bits = hw.channels * (core::mem::size_of::<S>() as u32) * 8;
                    let count = unsigned(hw.buffer_size as int) * hw.channels;
                    &&& bits <= u32::MAX
                    &&& info.first == 0 && info.step == bits ==> {
                        let size = core::mem::size_of::<S>() as int;
                        &&& count <= usize::MAX
                        &&& MapRequest::fits(count, size, self.page_size as int)
                    }
                },
                _ => true,
            },
    {
        match (self.stage, reply) {
            (SampleStage::Info(hw, _), Reply::ChannelInfo(info)) => {
                let size: usize = core::mem::size_of::<S>();
                proof {
                    assert(0 <= hw.channels * (size as u32) <= 0xffff_ffff * 0xffff_ffff)
                        by (nonlinear_arith)
                        requires
                            0 <= hw.channels <= 0xffff_ffff,
                            0 <= (size as u32) <= 0xffff_ffff,
                    ;
                }
                let bits: u128 = hw.channels as u128 * (size as u32) as u128 * 8;
                if bits > u32::MAX as u128 {
                    return false;
                }
                if info.step as u128 != bits || info.first != 0 {
                    return true;
                }
                match from_frames(hw.buffer_size).checked_mul(hw.channels as usize) {
                    None => false,
                    Some(count) => MapRequest::check(count, size, self.page_size),
                }
            },
            _ => true,
        }
    }

    /// The next question.
    pub fn request(&self) -> (r: Request)
        ensures
            r == self.question(),
            match self.stage {
                SampleStage::Params => r is HwParams,
                SampleStage::Descriptor(_) => r is PollDescriptors,
                SampleStage::Info(_, fd) => r matches Request::ChannelInfo(of) && of == fd,
                SampleStage::Memory(_, q) => r matches Request::Memory(of) && of == q,
            },
    {
        match self.stage {
            SampleStage::Params => Request::HwParams,
            SampleStage::Descriptor(_) => Request::PollDescriptors,
            SampleStage::Info(_, fd) => Request::ChannelInfo(fd),
            SampleStage::Memory(_, request) => Request::Memory(request),
        }
    }

    /// Takes the answer.
    pub fn step(self, reply: Reply) -> (r: Step<SampleOpening<S>, SampleData<S>>)
        requires
            self.acceptable(reply),
        ensures
            r == self.next(reply),
            match (self.stage, reply) {
                (SampleStage::Info(_, _), Reply::Failed(_)) => {
                    &&& r matches Step::Done(Err(e))
                    &&& e.func == Some("SNDRV_PCM_IOCTL_CHANNEL_INFO")
                    &&& e.code == -1
                },
                (_, Reply::Failed(e)) => r == Step::<SampleOpening<S>, SampleData<S>>::Done(Err(e)),
                (SampleStage::Params, Reply::HwParams(hw)) => if hw.access is MMapInterleaved {
                    &&& r matches Step::Ask(next)
                    &&& next.page_size == self.page_size
                    &&& next.stage == SampleStage::Descriptor(hw)
                } else {
                    &&& r matches Step::Done(Err(e))
                    &&& e.func == Some("Not MMAP interleaved data")
                    &&& e.code == -1
                },
                (SampleStage::Descriptor(hw), Reply::PollDescriptors(c, fd)) => if c == 1 {
                    &&& r matches Step::Ask(next)
                    &&& next.page_size == self.page_size
                    &&& next.stage == SampleStage::Info(hw, fd)
                } else {
                    &&& r matches Step::Done(Err(e))
                    &&& e.func == Some("snd_pcm_poll_descriptors returned wrong number of fds")
                    &&& e.code == c as libc::c_int
                },
                (SampleStage::Info(hw, fd), Reply::ChannelInfo(info)) => if info.first == 0
                    && info.step == hw.channels * (core::mem::size_of::<S>() as u32) * 8 {
                    &&& r matches Step::Ask(next)
                    &&& next.page_size == self.page_size
                    &&& next.stage matches SampleStage::Memory(params, q)
                    &&& params == hw
                    &&& q.fd == fd
                    &&& q.offset == info.offset
                    &&& q.writable
                    &&& q.len % self.page_size == 0
                    &&& ({
                        let frames = unsigned(hw.buffer_size as int);
                        let bytes = frames * hw.channels * core::mem::size_of::<S>();
                        bytes <= q.len < bytes + self.page_size
                    })
                } else {
                    &&& r matches Step::Done(Err(e))
                    &&& e.func == Some("MMAP data size mismatch")
                    &&& e.code == -1
                },
                (SampleStage::Memory(hw, q), Reply::Memory(p)) => if p == 0 || p == usize::MAX {
                    &&& r matches Step::Done(Err(e))
                    &&& e.func == Some("driver memory mmap")
                    &&& e.code == -1
                } else {
                    &&& r matches Step::Done(Ok(data))
                    &&& data.mem.ptr == p
                    &&& data.mem.size == q.len
                    &&& data.frames == hw.buffer_size
                    &&& data.channels == hw.channels
                },
                _ => r == Step::<SampleOpening<S>, SampleData<S>>::Ask(self),
            },
    {
        proof {
            law_sample_opening_goes_by_the_answer(self, reply);
        }
        match (self.stage, reply) {
            (SampleStage::Info(_, _), Reply::Failed(_)) => Step::Done(
                Err(Error::new(Some("SNDRV_PCM_IOCTL_CHANNEL_INFO"), -1)),
            ),
            (_, Reply::Failed(e)) => Step::Done(Err(e)),
            (SampleStage::Params, Reply::HwParams(hw)) => {
                if hw.access != Access::MMapInterleaved {
                    return Step::Done(Err(Error::new(Some("Not MMAP interleaved data"), -1)));
                }
                Step::Ask(SampleOpening { stage: SampleStage::Descriptor(hw), ..self })
            },
            (SampleStage::Descriptor(hw), Reply::PollDescriptors(c, fd)) => match pcm_to_fd(c, fd) {
                Ok(fd) => Step::Ask(SampleOpening { stage: SampleStage::Info(hw, fd), ..self }),
                Err(e) => Step::Done(Err(e)),
            },
            (SampleStage::Info(hw, fd), Reply::ChannelInfo(info)) => {
                let size: usize = core::mem::size_of::<S>();
                if info.step != hw.channels * #[verifier::truncate] (size as u32) * 8 || info.first
                    != 0 {
                    return Step::Done(Err(Error::new(Some("MMAP data size mismatch"), -1)));
                }
                let count: usize = from_frames(hw.buffer_size) * (hw.channels as usize);
                let request = MapRequest::new(fd, count, size, info.offset, true, self.page_size);
                Step::Ask(SampleOpening { stage: SampleStage::Memory(hw, request), ..self })
            },
            (SampleStage::Memory(hw, request), Reply::Memory(p)) => match DriverMemory::new(
                request,
                p,
            ) {
                Ok(mem) => Step::Done(
                    Ok(
                        SampleData {
                            mem,
                            frames: hw.buffer_size,
                            channels: hw.channels,
                            samples: PhantomData,
                        },
                    ),
                ),
                Err(e) => Step::Done(Err(e)),
            },
            _ => Step::Ask(self),
        }
    }
}

/// The opening of a ring buffer holds no memory while it goes on: it ends with the reply that
/// grants some, and then hands it out.
pub proof fn law_sample_opening_holds_no_memory<S>(opening: SampleOpening<S>, reply: Reply)
    ensures
        match opening.next(reply) {
            Step::Done(Ok(data)) => granted_by(opening.question(), reply) == seq![data.mem],
            _ => granted_by(opening.question(), reply) == Seq::<DriverMemory>::empty(),
        },
{
}

/// A reply to some other question leaves the opening of a ring buffer as it is.
pub proof fn law_sample_opening_waits_for_its_answer<S>(opening: SampleOpening<S>, reply: Reply)
    requires
        !reply.answers(opening.question()),
    ensures
        opening.next(reply) == Step::<SampleOpening<S>, SampleData<S>>::Ask(opening),
{
}

/// A ring buffer is opened with four questions.
pub proof fn law_sample_opening_ends<S>(page_size: usize, devices: Seq<Device>)
    requires
        devices.len() >= 4,
    ensures
        SampleOpening::<S>::first(page_size).run(devices) == Step::<
            SampleOpening<S>,
            SampleData<S>,
        >::Done(SampleOpening::<S>::outcome(page_size, devices)),
{
    reveal_with_fuel(SampleOpening::run, 5);
}

/// A ring buffer that has been opened has room for all of its samples.
pub proof fn law_opened_buffer_has_room_for_its_samples<S>(page_size: usize, devices: Seq<Device>)
    requires
        SampleOpening::<S>::fits_devices(page_size, devices),
    ensures
        SampleOpening::<S>::outcome(page_size, devices) matches Ok(data) ==> data.mem.size
            >= data.frames * data.channels * core::mem::size_of::<S>(),
{
    if let Ok(data) = SampleOpening::<S>::outcome(page_size, devices) {
        let hw = devices[0].hw_params->Ok_0;
        let (frames, channels, size) = (
            unsigned(hw.buffer_size as int),
            hw.channels as int,
            core::mem::size_of::<S>() as int,
        );
        lemma_whole_pages(frames * channels * size, page_size as int);
        assert(hw.buffer_size * channels * size <= frames * channels * size) by (nonlinear_arith)
            requires
                hw.buffer_size <= frames,
                0 <= channels,
                0 <= size,
        ;
    }
}

/// The layout that the driver reports is that of interleaved frames exactly where the samples of
/// channel `0` begin at once, and are as many bits apart as a frame of samples of the type `S` has.
pub proof fn law_frames_are_channels_samples_wide<S>(channels: u32, info: snd_pcm_channel_info)
    ensures
        frame_bits::<S>(channels) == 8 * channels * (core::mem::size_of::<S>() as u32),
        is_interleaved::<S>(channels, info) <==> info.first == 0 && info.step == 8 * channels * (
        core::mem::size_of::<S>() as u32),
        core::mem::size_of::<S>() <= u32::MAX ==> (is_interleaved::<S>(channels, info)
            <==> info.first == 0 && info.step == 8 * channels * core::mem::size_of::<S>()),
{
    let size = core::mem::size_of::<S>() as u32 as int;
    assert(channels * size * 8 == 8 * channels * size) by (nonlinear_arith);
}

/// What an opening of a ring buffer makes of each answer. It goes on from mapped and interleaved
/// access, from a device with one descriptor, and from a layout in which frames of `channels`
/// samples of the type `S` follow each other. It ends with the memory at the address that was
/// given, and with the length and the channels that the device has.
pub proof fn law_sample_opening_goes_by_the_answer<S>(opening: SampleOpening<S>, reply: Reply)
    requires
        opening.acceptable(reply),
    ensures
        match (opening.stage, reply) {
            (SampleStage::Info(_, _), Reply::Failed(_)) => {
                &&& opening.next(reply) matches Step::Done(Err(e))
                &&& e.func == Some("SNDRV_PCM_IOCTL_CHANNEL_INFO")
                &&& e.code == -1
            },
            (_, Reply::Failed(e)) => opening.next(reply) matches Step::Done(Err(err)) && err == e,
            (SampleStage::Params, Reply::HwParams(hw)) => if hw.access is MMapInterleaved {
                &&& opening.next(reply) matches Step::Ask(next)
                &&& next.page_size == opening.page_size
                &&& next.stage == SampleStage::Descriptor(hw)
            } else {
                &&& opening.next(reply) matches Step::Done(Err(e))
                &&& e.func == Some("Not MMAP interleaved data")
                &&& e.code == -1
            },
            (SampleStage::Descriptor(hw), Reply::PollDescriptors(c, fd)) => if c == 1 {
                &&& opening.next(reply) matches Step::Ask(next)
                &&& next.page_size == opening.page_size
                &&& next.stage == SampleStage::Info(hw, fd)
            } else {
                &&& opening.next(reply) matches Step::Done(Err(e))
                &&& e.func == Some("snd_pcm_poll_descriptors returned wrong number of fds")
                &&& e.code == c as libc::c_int
            },
            (SampleStage::Info(hw, fd), Reply::ChannelInfo(info)) => if info.first == 0
                    && info.step == hw.channels * (core::mem::size_of::<S>() as u32) * 8 {
                &&& opening.next(reply) matches Step::Ask(next)
                &&& next.page_size == opening.page_size
                &&& next.stage matches SampleStage::Memory(params, q)
                &&& params == hw
                &&& q.fd == fd
                &&& q.offset == info.offset
                &&& q.writable
                &&& q.len % opening.page_size == 0
                &&& ({
                    let frames = unsigned(hw.buffer_size as int);
                    let bytes = frames * hw.channels * core::mem::size_of::<S>();
                    bytes <= q.len < bytes + opening.page_size
                })
            } else {
                &&& opening.next(reply) matches Step::Done(Err(e))
                &&& e.func == Some("MMAP data size mismatch")
                &&& e.code == -1
            },
            (SampleStage::Memory(hw, q), Reply::Memory(p)) => if p == 0 || p == usize::MAX {
                &&& opening.next(reply) matches Step::Done(Err(e))
                &&& e.func == Some("driver memory mmap")
                &&& e.code == -1
            } else {
                &&& opening.next(reply) matches Step::Done(Ok(data))
                &&& data.mem.ptr == p
                &&& data.mem.size == q.len
                &&& data.frames == hw.buffer_size
                &&& data.channels == hw.channels
            },
            _ => opening.next(reply) == Step::<SampleOpening<S>, SampleData<S>>::Ask(opening),
        },
{
    if let (SampleStage::Info(hw, fd), Reply::ChannelInfo(info)) = (opening.stage, reply) {
        if is_interleaved::<S>(hw.channels, info) {
            law_mapping_is_least_whole_pages(
                unsigned(hw.buffer_size as int) * hw.channels * core::mem::size_of::<S>() as int,
                opening.page_size as int,
            );
        }
    }
}

/// The opening of a ring buffer asks for the parameters, the descriptor, the layout and the memory,
/// each with what it has been told before.
pub proof fn law_sample_opening_asks_in_order<S>(opening: SampleOpening<S>)
    ensures
        match opening.stage {
            SampleStage::Params => opening.question() is HwParams,
            SampleStage::Descriptor(_) => opening.question() is PollDescriptors,
            SampleStage::Info(_, fd) => {
                opening.question() matches Request::ChannelInfo(of) && of == fd
            },
            SampleStage::Memory(_, q) => opening.question() matches Request::Memory(of) && of == q,
        },
{
}

/// A reply can be worked out unless it is a layout: there, the bits of a frame must be a number of
/// the machine, and where the layout is as expected, there must be a mapping for all samples.
pub proof fn law_where_a_layout_can_be_worked_out<S>(opening: SampleOpening<S>, reply: Reply)
    ensures
        opening.acceptable(reply) <==> match (opening.stage, reply) {
            (SampleStage::Info(hw, _), Reply::ChannelInfo(info)) => {
                let bits = hw.channels * (core::mem::size_of::<S>() as u32) * 8;
                let count = unsigned(hw.buffer_size as int) * hw.channels;
                &&& bits <= u32::MAX
                &&& info.first == 0 && info.step == bits ==> {
                    let size = core::mem::size_of::<S>() as int;
                    &&& count <= usize::MAX
                    &&& MapRequest::fits(count, size, opening.page_size as int)
                }
            },
            _ => true,
        },
{
}

/// The opening of a ring buffer begins with nothing known but the size of a page.
pub proof fn law_sample_opening_begins_with_nothing<S>(page_size: usize)
    ensures
        SampleOpening::<S>::first(page_size).page_size == page_size,
        SampleOpening::<S>::first(page_size).stage is Params,
{
}

} // verus!
