//! How a stream is opened: what is asked of the device, in which order, and what the answers mean.
//!
//! An opening is a value that holds what is known so far. It names the next question with
//! `request`; the answer goes to `step`, which returns either an opening that knows more or the
//! outcome. A reply to some other question than the one that was asked leaves an opening as it is.

use vstd::prelude::*;

use crate::control::Control;
use crate::error::{Error, Result};
use crate::mapping::{
    law_mapping_is_least_whole_pages, law_mapping_needs_pages_that_can_be_counted, DriverMemory,
    MapRequest,
};
use crate::pcm::{Direction, Frames, RawFd};
use crate::sample::{snd_pcm_channel_info, HwParams};
use crate::status::Status;

verus! {

/// A question to the device.
#[derive(Clone, Copy, Debug, PartialEq, Eq, Structural)]
pub enum Request {
    /// In which direction does the stream run?
    Stream,
    /// At which number do its pointers wrap?
    Boundary,
    /// What are its hardware parameters?
    HwParams,
    /// How many poll descriptors does it have, and what is the file descriptor of the first?
    PollDescriptors,
    /// Where do the samples of channel `0` of the device behind this file descriptor lie?
    ChannelInfo(RawFd),
    /// At which address is this mapping?
    Memory(MapRequest),
}

/// An answer of the device.
#[derive(Clone, Copy, Debug, PartialEq, Eq)]
pub enum Reply {
    /// The question could not be answered.
    Failed(Error),
    /// To `Request::Stream`.
    Stream(Direction),
    /// To `Request::Boundary`.
    Boundary(Frames),
    /// To `Request::HwParams`.
    HwParams(HwParams),
    /// To `Request::PollDescriptors`: their number, and the file descriptor of the first.
    PollDescriptors(usize, RawFd),
    /// To `Request::ChannelInfo`.
    ChannelInfo(snd_pcm_channel_info),
    /// To `Request::Memory`: the address, which is `0` or `MAP_FAILED` where there is none.
    Memory(usize),
}

/// What an opening comes to when it is told an answer: another question, or the outcome.
#[derive(Debug)]
pub enum Step<A, T> {
    Ask(A),
    Done(Result<T>),
}

impl Reply {
    /// Whether this is an answer to the question, be it that there is none.
    pub open spec fn answers(self, request: Request) -> bool {
        match self {
            Reply::Failed(_) => true,
            Reply::Stream(_) => request is Stream,
            Reply::Boundary(_) => request is Boundary,
            Reply::HwParams(_) => request is HwParams,
            Reply::PollDescriptors(_, _) => request is PollDescriptors,
            Reply::ChannelInfo(_) => request is ChannelInfo,
            Reply::Memory(_) => request is Memory,
        }
    }
}

/// A device at some time: its answer to every question. An opening asks one question at a time, and
/// the device may have changed from one to the next.
pub ghost struct Device {
    /// To `Request::Stream`.
    pub stream: Result<Direction>,
    /// To `Request::Boundary`.
    pub boundary: Result<Frames>,
    /// To `Request::HwParams`.
    pub hw_params: Result<HwParams>,
    /// To `Request::PollDescriptors`.
    pub descriptors: Result<(usize, RawFd)>,
    /// To `Request::ChannelInfo`.
    pub channel_info: spec_fn(RawFd) -> Result<snd_pcm_channel_info>,
    /// To `Request::Memory`.
    pub memory: spec_fn(MapRequest) -> usize,
}

impl Device {
    /// The reply to a question.
    pub open spec fn answer(self, request: Request) -> Reply {
        match request {
            Request::Stream => match self.stream {
                Ok(stream) => Reply::Stream(stream),
                Err(e) => Reply::Failed(e),
            },
            Request::Boundary => match self.boundary {
                Ok(boundary) => Reply::Boundary(boundary),
                Err(e) => Reply::Failed(e),
            },
            Request::HwParams => match self.hw_params {
                Ok(hw) => Reply::HwParams(hw),
                Err(e) => Reply::Failed(e),
            },
            Request::PollDescriptors => match self.descriptors {
                Ok((c, fd)) => Reply::PollDescriptors(c, fd),
                Err(e) => Reply::Failed(e),
            },
            Request::ChannelInfo(fd) => match (self.channel_info)(fd) {
                Ok(info) => Reply::ChannelInfo(info),
                Err(e) => Reply::Failed(e),
            },
            Request::Memory(request) => Reply::Memory((self.memory)(request)),
        }
    }

    /// The file descriptor of the device.
    pub open spec fn fd(self) -> Result<RawFd> {
        match self.descriptors {
            Ok((c, fd)) => only_fd(c, fd),
            Err(e) => Err(e),
        }
    }

    /// The outcome of a mapping.
    pub open spec fn map(self, request: MapRequest) -> Result<DriverMemory> {
        DriverMemory::granted(request, (self.memory)(request))
    }
}

/// The memory that a reply grants to an opening that asked `request`: one mapping, or none.
pub open spec fn granted_by(request: Request, reply: Reply) -> Seq<DriverMemory> {
    match (request, reply) {
        (Request::Memory(request), Reply::Memory(p)) => match DriverMemory::granted(request, p) {
            Ok(mem) => seq![mem],
            Err(_) => seq![],
        },
        _ => seq![],
    }
}

/// The file descriptor of a device with `c` poll descriptors of which `fd` is the first.
pub open spec fn only_fd(c: usize, fd: RawFd) -> Result<RawFd> {
    if c == 1 {
        Ok(fd)
    } else {
        Err(
            Error {
                func: Some("snd_pcm_poll_descriptors returned wrong number of fds"),
                code: c as libc::c_int,
            },
        )
    }
}

/// The file descriptor of a device with `c` poll descriptors of which `fd` is the first: there
/// must not be another.
pub fn pcm_to_fd(c: usize, fd: RawFd) -> (r: Result<RawFd>)
    ensures
        r == only_fd(c, fd),
        r is Ok <==> c == 1,
        r matches Ok(it) ==> it == fd,
        r matches Err(e) ==> e.func == Some(
            "snd_pcm_poll_descriptors returned wrong number of fds",
        ) && e.code == c as libc::c_int,
{
    if c != 1 {
        return Err(
            Error::new(
                Some("snd_pcm_poll_descriptors returned wrong number of fds"),
                #[verifier::truncate]
                (c as libc::c_int),
            ),
        );
    }
    Ok(fd)
}

/// The two records that the kernel shares.
#[derive(Clone, Copy, Debug, PartialEq, Eq, Structural)]
pub enum Page {
    Status,
    Control,
}

/// The opening of one of the two records.
#[derive(Clone, Copy, Debug, PartialEq, Eq, Structural)]
pub struct PageOpening {
    /// Which record.
    pub page: Page,
    /// Its size in bytes.
    pub record: usize,
    /// The size of a page of memory.
    pub page_size: usize,
    /// The file descriptor of the device, once it is known.
    pub fd: Option<RawFd>,
}

impl PageOpening {
    /// The opening of which nothing is known.
    pub open spec fn first(page: Page, record: usize, page_size: usize) -> PageOpening {
        PageOpening { page, record, page_size, fd: None }
    }

    /// Whether a record of this size can be mapped.
    pub open spec fn valid(self) -> bool {
        MapRequest::fits(1, self.record as int, self.page_size as int)
    }

    /// The mapping of the record.
    pub open spec fn mapping_of(self, fd: RawFd) -> MapRequest {
        match self.page {
            Page::Status => Status::mapping_of(fd, self.record, self.page_size),
            Page::Control => Control::mapping_of(fd, self.record, self.page_size),
        }
    }

    /// The next question: first for the descriptor, then for the mapping.
    pub open spec fn question(self) -> Request {
        match self.fd {
            None => Request::PollDescriptors,
            Some(fd) => Request::Memory(self.mapping_of(fd)),
        }
    }

    /// What follows from a reply.
    pub open spec fn next(self, reply: Reply) -> Step<PageOpening, DriverMemory> {
        match (self.fd, reply) {
            (_, Reply::Failed(e)) => Step::Done(Err(e)),
            (None, Reply::PollDescriptors(c, fd)) => match only_fd(c, fd) {
                Ok(fd) => Step::Ask(PageOpening { fd: Some(fd), ..self }),
                Err(e) => Step::Done(Err(e)),
            },
            (Some(fd), Reply::Memory(p)) => Step::Done(
                DriverMemory::granted(self.mapping_of(fd), p),
            ),
            _ => Step::Ask(self),
        }
    }

    /// What comes of asking one question of the device at each of these times, up to the end.
    pub open spec fn run(self, devices: Seq<Device>) -> Step<PageOpening, DriverMemory>
        decreases devices.len(),
    {
        if devices.len() == 0 {
            Step::Ask(self)
        } else {
            match self.next(devices[0].answer(self.question())) {
                Step::Ask(o) => o.run(devices.drop_first()),
                done => done,
            }
        }
    }

    /// The record of a device: mapped from its file descriptor.
    pub open spec fn outcome(
        page: Page,
        record: usize,
        page_size: usize,
        devices: Seq<Device>,
    ) -> Result<DriverMemory> {
        match devices[0].fd() {
            Ok(fd) => devices[1].map(PageOpening::first(page, record, page_size).mapping_of(fd)),
            Err(e) => Err(e),
        }
    }

    /// Tells whether a record of this size can be mapped.
    pub fn check(&self) -> (r: bool)
        ensures
            r == self.valid(),
    {
        MapRequest::check(1, self.record, self.page_size)
    }

    fn map_request(&self, fd: RawFd) -> (r: MapRequest)
        requires
            self.valid(),
        ensures
            r == self.mapping_of(fd),
    {
        match self.page {
            Page::Status => Status::from_fd(fd, self.record, self.page_size),
            Page::Control => Control::from_fd(fd, self.record, self.page_size),
        }
    }

    /// The next question.
    pub fn request(&self) -> (r: Request)
        requires
            self.valid(),
        ensures
            r == self.question(),
            self.fd is None ==> r == Request::PollDescriptors,
            self.fd matches Some(fd) ==> {
                &&& r matches Request::Memory(q)
                &&& q.fd == fd
                &&& self.page == Page::Status ==> q.offset == 0x8000_0000 && !q.writable
                &&& self.page == Page::Control ==> q.offset == 0x8100_0000 && q.writable
                &&& q.len % self.page_size == 0
                &&& self.record <= q.len < self.record + self.page_size
            },
    {
        proof {
            law_page_opening_asks_for_descriptor_and_record(*self);
        }
        match self.fd {
            None => Request::PollDescriptors,
            Some(fd) => Request::Memory(self.map_request(fd)),
        }
    }

    /// Takes the answer.
    pub fn step(self, reply: Reply) -> (r: Step<PageOpening, DriverMemory>)
        requires
            self.valid(),
        ensures
            r == self.next(reply),
            r matches Step::Ask(o) ==> o.valid(),
            match (self.fd, reply) {
                (_, Reply::Failed(e)) => r == Step::<PageOpening, DriverMemory>::Done(Err(e)),
                (None, Reply::PollDescriptors(c, fd)) => if c == 1 {
                    &&& r matches Step::Ask(next)
                    &&& next == (PageOpening { fd: Some(fd), ..self })
                } else {
                    &&& r matches Step::Done(Err(e))
                    &&& e.func == Some("snd_pcm_poll_descriptors returned wrong number of fds")
                    &&& e.code == c as libc::c_int
                },
                (Some(_), Reply::Memory(p)) => if p == 0 || p == usize::MAX {
                    &&& r matches Step::Done(Err(e))
                    &&& e.func == Some("driver memory mmap")
                    &&& e.code == -1
                } else {
                    &&& r matches Step::Done(Ok(mem))
                    &&& mem.ptr == p
                    &&& mem.size % self.page_size == 0
                    &&& self.record <= mem.size < self.record + self.page_size
                },
                _ => r == Step::<PageOpening, DriverMemory>::Ask(self),
            },
    {
        proof {
            law_page_opening_goes_by_the_answer(self, reply);
        }
        match (self.fd, reply) {
            (_, Reply::Failed(e)) => Step::Done(Err(e)),
            (None, Reply::PollDescriptors(c, fd)) => match pcm_to_fd(c, fd) {
                Ok(fd) => Step::Ask(PageOpening { fd: Some(fd), ..self }),
                Err(e) => Step::Done(Err(e)),
            },
            (Some(fd), Reply::Memory(p)) => Step::Done(DriverMemory::new(self.map_request(fd), p)),
            _ => Step::Ask(self),
        }
    }
}

/// The opening of a record holds no memory while it goes on: it ends with the reply that grants
/// some, and then hands it out.
pub proof fn law_page_opening_holds_no_memory(opening: PageOpening, reply: Reply)
    ensures
        match opening.next(reply) {
            Step::Done(Ok(mem)) => granted_by(opening.question(), reply) == seq![mem],
            _ => granted_by(opening.question(), reply) == Seq::<DriverMemory>::empty(),
        },
{
}

/// A reply to some other question leaves the opening of a record as it is.
pub proof fn law_page_opening_waits_for_its_answer(opening: PageOpening, reply: Reply)
    requires
        !reply.answers(opening.question()),
    ensures
        opening.next(reply) == Step::<PageOpening, DriverMemory>::Ask(opening),
{
}

/// A record is opened with two questions.
pub proof fn law_page_opening_ends(
    page: Page,
    record: usize,
    page_size: usize,
    devices: Seq<Device>,
)
    requires
        devices.len() >= 2,
    ensures
        PageOpening::first(page, record, page_size).run(devices) == Step::<
            PageOpening,
            DriverMemory,
        >::Done(PageOpening::outcome(page, record, page_size, devices)),
{
    reveal_with_fuel(PageOpening::run, 3);
}

/// A device is opened by its file descriptor where it has exactly one poll descriptor. Any other
/// number is reported as the code of the error.
pub proof fn law_device_has_one_descriptor(c: usize, fd: RawFd)
    ensures
        only_fd(c, fd) is Ok <==> c == 1,
        only_fd(c, fd) matches Ok(it) ==> it == fd,
        only_fd(c, fd) matches Err(e) ==> e.func == Some(
            "snd_pcm_poll_descriptors returned wrong number of fds",
        ) && e.code == c as libc::c_int,
{
}

/// The opening of a record asks for the descriptor first, and then for the whole pages that hold
/// the record, at the place in the file where it lies.
pub proof fn law_page_opening_asks_for_descriptor_and_record(opening: PageOpening)
    requires
        MapRequest::fits(1, opening.record as int, opening.page_size as int),
    ensures
        opening.valid(),
        opening.fd is None ==> opening.question() == Request::PollDescriptors,
        opening.fd matches Some(fd) ==> {
            &&& opening.question() matches Request::Memory(q)
            &&& q.fd == fd
            &&& opening.page == Page::Status ==> q.offset == 0x8000_0000 && !q.writable
            &&& opening.page == Page::Control ==> q.offset == 0x8100_0000 && q.writable
            &&& q.len % opening.page_size == 0
            &&& opening.record <= q.len < opening.record + opening.page_size
        },
{
    law_mapping_is_least_whole_pages(opening.record as int, opening.page_size as int);
}

/// The opening of a record ends with the error of a question that could not be answered. It goes on
/// with the descriptor, if there is one and no other, and ends with the memory of the record,
/// unless the mapping was refused.
pub proof fn law_page_opening_goes_by_the_answer(opening: PageOpening, reply: Reply)
    requires
        MapRequest::fits(1, opening.record as int, opening.page_size as int),
    ensures
        match (opening.fd, reply) {
            (_, Reply::Failed(e)) => opening.next(reply) matches Step::Done(Err(err)) && err == e,
            (None, Reply::PollDescriptors(c, fd)) => if c == 1 {
                &&& opening.next(reply) matches Step::Ask(next)
                &&& next == (PageOpening { fd: Some(fd), ..opening })
            } else {
                &&& opening.next(reply) matches Step::Done(Err(e))
                &&& e.func == Some("snd_pcm_poll_descriptors returned wrong number of fds")
                &&& e.code == c as libc::c_int
            },
            (Some(_), Reply::Memory(p)) => if p == 0 || p == usize::MAX {
                &&& opening.next(reply) matches Step::Done(Err(e))
                &&& e.func == Some("driver memory mmap")
                &&& e.code == -1
            } else {
                &&& opening.next(reply) matches Step::Done(Ok(mem))
                &&& mem.ptr == p
                &&& mem.size % opening.page_size == 0
                &&& opening.record <= mem.size < opening.record + opening.page_size
            },
            _ => opening.next(reply) == Step::<PageOpening, DriverMemory>::Ask(opening),
        },
{
    law_mapping_is_least_whole_pages(opening.record as int, opening.page_size as int);
}

/// A record can be opened exactly where there is a mapping for one record of its size.
pub proof fn law_where_a_record_can_be_opened(opening: PageOpening)
    ensures
        opening.valid() <==> 0 < opening.page_size && 0 < opening.record && exists|pages: int|
            opening.record <= #[trigger] (pages * opening.page_size) <= usize::MAX,
{
    if 0 < opening.page_size {
        law_mapping_needs_pages_that_can_be_counted(
            1,
            opening.record as int,
            opening.page_size as int,
        );
    }
}

/// A reply grants memory exactly where a mapping was asked for and its address was given: one piece
/// of memory at that address, as long as was asked for.
pub proof fn law_memory_is_granted_by_an_address(request: Request, reply: Reply)
    ensures
        (request matches Request::Memory(q) && reply matches Reply::Memory(p) && p != 0 && p
            != usize::MAX) ==> granted_by(request, reply) == seq![
            DriverMemory { ptr: reply->Memory_0, size: request->Memory_0.len },
        ],
        !(request is Memory && reply is Memory && reply->Memory_0 != 0 && reply->Memory_0
            != usize::MAX) ==> granted_by(request, reply).len() == 0,
{
}

} // verus!
