//! How a whole stream is opened.

use core::marker::PhantomData;

use vstd::prelude::*;

use crate::control::Control;
use crate::dir::MmapDir;
use crate::error::{Error, Result};
use crate::mapping::{DriverMemory, MapRequest};
use crate::mmap::MmapIO;
use crate::open::{
    granted_by, law_page_opening_holds_no_memory, Device, Page, PageOpening, Reply, Request, Step,
};
use crate::pcm::{Direction, Frames, RawFd};
use crate::sample::{
    law_opened_buffer_has_room_for_its_samples, law_sample_opening_holds_no_memory,
    snd_pcm_channel_info, HwParams, SampleData, SampleOpening,
};
use crate::status::Status;

verus! {

/// Sizes in bytes that a machine fixes.
#[derive(Clone, Copy, Debug, PartialEq, Eq, Structural)]
pub struct Sizes {
    /// Of the control record.
    pub control: usize,
    /// Of the status record.
    pub status: usize,
    /// Of a page of memory.
    pub page: usize,
}

impl Sizes {
    /// Whether records of these sizes can be mapped.
    pub open spec fn valid(self) -> bool {
        &&& MapRequest::fits(1, self.control as int, self.page as int)
        &&& MapRequest::fits(1, self.status as int, self.page as int)
    }

    /// The size of a record.
    pub open spec fn record(self, page: Page) -> usize {
        match page {
            Page::Control => self.control,
            Page::Status => self.status,
        }
    }

    /// The opening of a record of which nothing is known.
    pub open spec fn first(self, page: Page) -> PageOpening {
        PageOpening::first(page, self.record(page), self.page)
    }

    /// The record of a device.
    pub open spec fn outcome(self, page: Page, devices: Seq<Device>) -> Result<DriverMemory> {
        PageOpening::outcome(page, self.record(page), self.page, devices)
    }

    /// Tells whether records of these sizes can be mapped.
    pub fn check(&self) -> (r: bool)
        ensures
            r == self.valid(),
            r <==> MapRequest::fits(1, self.control as int, self.page as int) && MapRequest::fits(
                1,
                self.status as int,
                self.page as int,
            ),
    {
        MapRequest::check(1, self.control, self.page) && MapRequest::check(
            1,
            self.status,
            self.page,
        )
    }
}

/// A stream that has been opened: all of its memory is mapped.
#[derive(Debug)]
pub struct Mapping<S, D> {
    /// The ring buffer.
    pub data: SampleData<S>,
    /// The memory of the control record.
    pub c: DriverMemory,
    /// The memory of the status record.
    pub ss: DriverMemory,
    /// The number at which the pointers wrap.
    pub bound: Frames,
    /// The direction.
    pub dir: PhantomData<D>,
}

impl<S, D> Mapping<S, D> {
    /// The memory of the stream.
    pub open spec fn held(self) -> Seq<DriverMemory> {
        seq![self.data.mem, self.c, self.ss]
    }

    /// The stream as it stands, with the two records as just read.
    pub fn io(&self, c: Control, ss: Status) -> (r: MmapIO<S, D>)
        ensures
            r == (MmapIO::<S, D> { data: self.data, c, ss, bound: self.bound, dir: self.dir }),
    {
        let data = SampleData {
            mem: self.data.mem,
            frames: self.data.frames,
            channels: self.data.channels,
            samples: PhantomData,
        };
        MmapIO { data, c, ss, bound: self.bound, dir: PhantomData }
    }
}

/// How far the opening of a stream has come.
#[derive(Debug)]
pub enum MmapStage<S> {
    /// Nothing is known.
    Stream,
    /// The stream runs in the right direction.
    Boundary,
    /// The boundary is known, and the ring buffer is being opened.
    Data(Frames, SampleOpening<S>),
    /// The ring buffer is mapped, and the control record is being opened.
    Control(Frames, SampleData<S>, PageOpening),
    /// The control record is mapped, too, and the status record is being opened.
    Status(Frames, SampleData<S>, DriverMemory, PageOpening),
}

/// The opening of a stream.
#[derive(Debug)]
pub struct MmapOpening<S, D> {
    /// The sizes that the machine fixes.
    pub sizes: Sizes,
    /// How far it has come.
    pub stage: MmapStage<S>,
    /// The direction.
    pub dir: PhantomData<D>,
}

impl<S, D: MmapDir> MmapOpening<S, D> {
    /// The opening of which nothing is known.
    pub open spec fn first(sizes: Sizes) -> MmapOpening<S, D> {
        MmapOpening { sizes, stage: MmapStage::Stream, dir: PhantomData }
    }

    /// The records can be mapped.
    pub open spec fn valid(self) -> bool {
        &&& self.sizes.valid()
        &&& self.stage matches MmapStage::Control(_, _, o) ==> o.valid()
        &&& self.stage matches MmapStage::Status(_, _, _, o) ==> o.valid()
    }

    /// Whether a reply can be worked out.
    pub open spec fn acceptable(self, reply: Reply) -> bool {
        self.stage matches MmapStage::Data(_, o) ==> o.acceptable(reply)
    }

    /// The memory that has been mapped so far.
    pub open spec fn held(self) -> Seq<DriverMemory> {
        match self.stage {
            MmapStage::Control(_, data, _) => seq![data.mem],
            MmapStage::Status(_, data, c, _) => seq![data.mem, c],
            _ => seq![],
        }
    }

    /// The memory that is to be unmapped again when a reply has been taken: where the opening
    /// fails, all that has been mapped.
    pub open spec fn given_back(self, reply: Reply) -> Seq<DriverMemory> {
        match self.next(reply) {
            Step::Done(Err(_)) => self.held(),
            _ => seq![],
        }
    }

    /// The next question: for the direction and the boundary, and then what the opening of the
    /// ring buffer, of the control record and of the status record ask.
    pub open spec fn question(self) -> Request {
        match self.stage {
            MmapStage::Stream => Request::Stream,
            MmapStage::Boundary => Request::Boundary,
            MmapStage::Data(_, o) => o.question(),
            MmapStage::Control(_, _, o) => o.question(),
            MmapStage::Status(_, _, _, o) => o.question(),
        }
    }

    /// What follows from a reply.
    pub open spec fn next(self, reply: Reply) -> Step<MmapOpening<S, D>, Mapping<S, D>> {
        match self.stage {
            MmapStage::Stream => match reply {
                Reply::Failed(e) => Step::Done(Err(e)),
                Reply::Stream(stream) => if stream == D::direction() {
                    Step::Ask(MmapOpening { stage: MmapStage::Boundary, ..self })
                } else {
                    Step::Done(Err(Error::of("Wrong direction")))
                },
                _ => Step::Ask(self),
            },
            MmapStage::Boundary => match reply {
                Reply::Failed(e) => Step::Done(Err(e)),
                Reply::Boundary(bound) => Step::Ask(
                    MmapOpening {
                        stage: MmapStage::Data(bound, SampleOpening::<S>::first(self.sizes.page)),
                        ..self
                    },
                ),
                _ => Step::Ask(self),
            },
            MmapStage::Data(bound, o) => match o.next(reply) {
                Step::Ask(o) => Step::Ask(
                    MmapOpening { stage: MmapStage::Data(bound, o), ..self },
                ),
                Step::Done(Ok(data)) => Step::Ask(
                    MmapOpening {
                        stage: MmapStage::Control(bound, data, self.sizes.first(Page::Control)),
                        ..self
                    },
                ),
                Step::Done(Err(e)) => Step::Done(Err(e)),
            },
            MmapStage::Control(bound, data, o) => match o.next(reply) {
                Step::Ask(o) => Step::Ask(
                    MmapOpening { stage: MmapStage::Control(bound, data, o), ..self },
                ),
                Step::Done(Ok(c)) => Step::Ask(
                    MmapOpening {
                        stage: MmapStage::Status(bound, data, c, self.sizes.first(Page::Status)),
                        ..self
                    },
                ),
                Step::Done(Err(e)) => Step::Done(Err(e)),
            },
            MmapStage::Status(bound, data, c, o) => match o.next(reply) {
                Step::Ask(o) => Step::Ask(
                    MmapOpening { stage: MmapStage::Status(bound, data, c, o), ..self },
                ),
                Step::Done(Ok(ss)) => Step::Done(
                    Ok(Mapping { data, c, ss, bound, dir: PhantomData }),
                ),
                Step::Done(Err(e)) => Step::Done(Err(e)),
            },
        }
    }

    /// What comes of these replies.
    pub open spec fn after(self, replies: Seq<Reply>) -> Step<MmapOpening<S, D>, Mapping<S, D>>
        decreases replies.len(),
    {
        if replies.len() == 0 {
            Step::Ask(self)
        } else {
            match self.next(replies[0]) {
                Step::Ask(o) => o.after(replies.drop_first()),
                done => done,
            }
        }
    }

    /// The memory that these replies grant, up to the end of the opening.
    pub open spec fn granted_in(self, replies: Seq<Reply>) -> Seq<DriverMemory>
        decreases replies.len(),
    {
        if replies.len() == 0 {
            seq![]
        } else {
            granted_by(self.question(), replies[0]) + match self.next(replies[0]) {
                Step::Ask(o) => o.granted_in(replies.drop_first()),
                Step::Done(_) => seq![],
            }
        }
    }

    /// The memory that is to be unmapped again when these replies have been taken.
    pub open spec fn given_back_in(self, replies: Seq<Reply>) -> Seq<DriverMemory>
        decreases replies.len(),
    {
        if replies.len() == 0 {
            seq![]
        } else {
            match self.next(replies[0]) {
                Step::Ask(o) => o.given_back_in(replies.drop_first()),
                Step::Done(_) => self.given_back(replies[0]),
            }
        }
    }

    /// What comes of asking one question of the device at each of these times, up to the end.
    pub open spec fn run(self, devices: Seq<Device>) -> Step<MmapOpening<S, D>, Mapping<S, D>>
        decreases devices.len(),
    {
        if devices.len() == 0 {
            Step::Ask(self)
        } else {
            match self.next(devices[0].answer(self.question())) {
                Step::Ask(o) => o.run(devices.drop_first()),
                done => done,
            }
        }
    }

    /// The replies to these questions.
    pub open spec fn replies(self, devices: Seq<Device>) -> Seq<Reply>
        decreases devices.len(),
    {
        if devices.len() == 0 {
            seq![]
        } else {
            let reply = devices[0].answer(self.question());
            seq![reply] + match self.next(reply) {
                Step::Ask(o) => o.replies(devices.drop_first()),
                Step::Done(_) => seq![],
            }
        }
    }

    /// The stream of a device: it must run in the direction `D`, and its ring buffer and both
    /// records must open.
    pub open spec fn outcome(sizes: Sizes, devices: Seq<Device>) -> Result<Mapping<S, D>> {
        match (devices[0].stream, devices[1].boundary) {
            (Err(e), _) => Err(e),
            (Ok(stream), _) if stream != D::direction() => Err(Error::of("Wrong direction")),
            (Ok(_), Err(e)) => Err(e),
            (Ok(_), Ok(bound)) => match SampleOpening::<S>::outcome(sizes.page, devices.skip(2)) {
                Err(e) => Err(e),
                Ok(data) => match (
                    sizes.outcome(Page::Control, devices.skip(6)),
                    sizes.outcome(Page::Status, devices.skip(8)),
                ) {
                    (Err(e), _) => Err(e),
                    (Ok(_), Err(e)) => Err(e),
                    (Ok(c), Ok(ss)) => Ok(Mapping { data, c, ss, bound, dir: PhantomData }),
                },
            },
        }
    }

    /// Tells whether a reply can be worked out.
    pub fn accepts(&self, reply: Reply) -> (r: bool)
        ensures
            r == self.acceptable(reply),
            r <==> match self.stage {
                MmapStage::Data(_, o) => o.acceptable(reply),
                _ => true,
            },
    {
        match &self.stage {
            MmapStage::Data(_, o) => o.accepts(reply),
            _ => true,
        }
    }

    /// The memory that has been mapped so far.
    pub fn mapped(&self) -> (r: Vec<DriverMemory>)
        ensures
            r@ == self.held(),
            match self.stage {
                MmapStage::Control(_, data, _) => r@ == seq![data.mem],
                MmapStage::Status(_, data, c, _) => r@ == seq![data.mem, c],
                _ => r@.len() == 0,
            },
    {
        match &self.stage {
            MmapStage::Control(_, data, _) => vec![data.mem],
            MmapStage::Status(_, data, c, _) => vec![data.mem, *c],
            _ => Vec::new(),
        }
    }

    /// The next question.
    pub fn request(&self) -> (r: Request)
        requires
            self.valid(),
        ensures
            r == self.question(),
            match self.stage {
                MmapStage::Stream => r is Stream,
                MmapStage::Boundary => r is Boundary,
                MmapStage::Data(_, o) => r == o.question(),
                MmapStage::Control(_, _, o) => r == o.question(),
                MmapStage::Status(_, _, _, o) => r == o.question(),
            },
    {
        match &self.stage {
            MmapStage::Stream => Request::Stream,
            MmapStage::Boundary => Request::Boundary,
            MmapStage::Data(_, o) => o.request(),
            MmapStage::Control(_, _, o) => o.request(),
            MmapStage::Status(_, _, _, o) => o.request(),
        }
    }

    /// Takes the answer. Where the opening fails with it, the memory that had been mapped comes
    /// with the outcome, to be unmapped again.
    pub fn step(
        self,
        reply: Reply,
    ) -> (r: (Step<MmapOpening<S, D>, Mapping<S, D>>, Vec<DriverMemory>))
        requires
            self.valid(),
            self.acceptable(reply),
        ensures
            r.0 == self.next(reply),
            r.0 matches Step::Ask(o) ==> o.valid(),
            r.1@ == self.given_back(reply),
            r.0 matches Step::Done(Err(_)) ==> r.1@ == self.held(),
            !(r.0 matches Step::Done(Err(_))) ==> r.1@.len() == 0,
            match self.stage {
                MmapStage::Stream => match reply {
                    Reply::Failed(e) => r.0 matches Step::Done(Err(err)) && err == e,
                    Reply::Stream(stream) => if stream == D::direction() {
                        &&& r.0 matches Step::Ask(next)
                        &&& next.stage is Boundary
                        &&& next.sizes == self.sizes
                    } else {
                        &&& r.0 matches Step::Done(Err(e))
                        &&& e.func == Some("Wrong direction")
                        &&& e.code == -1
                    },
                    _ => r.0 == Step::<MmapOpening<S, D>, Mapping<S, D>>::Ask(self),
                },
                MmapStage::Boundary => match reply {
                    Reply::Failed(e) => r.0 matches Step::Done(Err(err)) && err == e,
                    Reply::Boundary(b) => {
                        &&& r.0 matches Step::Ask(next)
                        &&& next.sizes == self.sizes
                        &&& next.stage matches MmapStage::Data(bound, buffer)
                        &&& bound == b
                        &&& buffer.page_size == self.sizes.page
                        &&& buffer.stage is Params
                    },
                    _ => r.0 == Step::<MmapOpening<S, D>, Mapping<S, D>>::Ask(self),
                },
                MmapStage::Data(b, o) => match o.next(reply) {
                    Step::Ask(buffer) => {
                        &&& r.0 matches Step::Ask(next)
                        &&& next.sizes == self.sizes
                        &&& next.stage == MmapStage::Data(b, buffer)
                    },
                    Step::Done(Ok(data)) => {
                        &&& r.0 matches Step::Ask(next)
                        &&& next.sizes == self.sizes
                        &&& next.stage matches MmapStage::Control(bound, buffer, page)
                        &&& bound == b
                        &&& buffer == data
                        &&& page.page is Control
                        &&& page.record == self.sizes.control
                        &&& page.page_size == self.sizes.page
                        &&& page.fd is None
                    },
                    Step::Done(Err(e)) => r.0 matches Step::Done(Err(err)) && err == e,
                },
                MmapStage::Control(b, data, o) => match o.next(reply) {
                    Step::Ask(page) => {
                        &&& r.0 matches Step::Ask(next)
                        &&& next.sizes == self.sizes
                        &&& next.stage == MmapStage::Control(b, data, page)
                    },
                    Step::Done(Ok(mem)) => {
                        &&& r.0 matches Step::Ask(next)
                        &&& next.sizes == self.sizes
                        &&& next.stage matches MmapStage::Status(bound, buffer, c, page)
                        &&& bound == b
                        &&& buffer == data
                        &&& c == mem
                        &&& page.page is Status
                        &&& page.record == self.sizes.status
                        &&& page.page_size == self.sizes.page
                        &&& page.fd is None
                    },
                    Step::Done(Err(e)) => r.0 matches Step::Done(Err(err)) && err == e,
                },
                MmapStage::Status(b, data, c, o) => match o.next(reply) {
                    Step::Ask(page) => {
                        &&& r.0 matches Step::Ask(next)
                        &&& next.sizes == self.sizes
                        &&& next.stage == MmapStage::Status(b, data, c, page)
                    },
                    Step::Done(Ok(mem)) => {
                        &&& r.0 matches Step::Done(Ok(m))
                        &&& m.data == data
                        &&& m.c == c
                        &&& m.ss == mem
                        &&& m.bound == b
                    },
                    Step::Done(Err(e)) => r.0 matches Step::Done(Err(err)) && err == e,
                },
            },
    {
        proof {
            law_mmap_opening_goes_by_the_answer(self, reply);
        }
        let held = self.mapped();
        let step = self.advance(reply);
        match step {
            Step::Done(Err(e)) => (Step::Done(Err(e)), held),
            step => (step, Vec::new()),
        }
    }

    /// Takes the answer.
    fn advance(self, reply: Reply) -> (r: Step<MmapOpening<S, D>, Mapping<S, D>>)
        requires
            self.valid(),
            self.acceptable(reply),
        ensures
            r == self.next(reply),
            r matches Step::Ask(o) ==> o.valid(),
    {
        let MmapOpening { sizes, stage, dir } = self;
        let stage = match stage {
            MmapStage::Stream => match reply {
                Reply::Failed(e) => return Step::Done(Err(e)),
                Reply::Stream(stream) => {
                    proof {
                        D::law_direction_is_dir();
                    }
                    if stream != D::DIR {
                        return Step::Done(Err(Error::new(Some("Wrong direction"), -1)));
                    }
                    MmapStage::Boundary
                },
                _ => MmapStage::Stream,
            },
            MmapStage::Boundary => match reply {
                Reply::Failed(e) => return Step::Done(Err(e)),
                Reply::Boundary(bound) => MmapStage::Data(bound, SampleData::new(sizes.page)),
                _ => MmapStage::Boundary,
            },
            MmapStage::Data(bound, o) => match o.step(reply) {
                Step::Ask(o) => MmapStage::Data(bound, o),
                Step::Done(Ok(data)) => MmapStage::Control(
                    bound,
                    data,
                    Control::new(sizes.control, sizes.page),
                ),
                Step::Done(Err(e)) => return Step::Done(Err(e)),
            },
            MmapStage::Control(bound, data, o) => match o.step(reply) {
                Step::Ask(o) => MmapStage::Control(bound, data, o),
                Step::Done(Ok(c)) => MmapStage::Status(
                    bound,
                    data,
                    c,
                    Status::new(sizes.status, sizes.page),
                ),
                Step::Done(Err(e)) => return Step::Done(Err(e)),
            },
            MmapStage::Status(bound, data, c, o) => match o.step(reply) {
                Step::Ask(o) => MmapStage::Status(bound, data, c, o),
                Step::Done(Ok(ss)) => return Step::Done(
                    Ok(Mapping { data, c, ss, bound, dir: PhantomData }),
                ),
                Step::Done(Err(e)) => return Step::Done(Err(e)),
            },
        };
        Step::Ask(MmapOpening { sizes, stage, dir })
    }
}

impl<S, D: MmapDir> MmapIO<S, D> {
    /// Starts to open a stream in the direction `D` with samples of the type `S`.
    pub fn new(sizes: Sizes) -> (r: MmapOpening<S, D>)
        ensures
            r == MmapOpening::<S, D>::first(sizes),
            r.sizes == sizes,
            r.stage is Stream,
    {
        MmapOpening { sizes, stage: MmapStage::Stream, dir: PhantomData }
    }
}

/// Starts to open a stream in the direction `D` with samples of the type `S`.
pub fn new_mmap<S, D: MmapDir>(sizes: Sizes) -> (r: MmapOpening<S, D>)
    ensures
        r == MmapOpening::<S, D>::first(sizes),
        r.sizes == sizes,
        r.stage is Stream,
{
    MmapIO::<S, D>::new(sizes)
}

/// A reply to some other question leaves the opening of a stream as it is.
pub proof fn law_mmap_opening_waits_for_its_answer<S, D: MmapDir>(
    opening: MmapOpening<S, D>,
    reply: Reply,
)
    requires
        !reply.answers(opening.question()),
    ensures
        opening.next(reply) == Step::<MmapOpening<S, D>, Mapping<S, D>>::Ask(opening),
{
}

/// To ask is to be told the replies.
pub proof fn law_mmap_opening_goes_by_its_replies<S, D: MmapDir>(
    opening: MmapOpening<S, D>,
    devices: Seq<Device>,
)
    ensures
        opening.run(devices) == opening.after(opening.replies(devices)),
        opening.replies(devices).len() <= devices.len(),
    decreases devices.len(),
{
    if devices.len() > 0 {
        let reply = devices[0].answer(opening.question());
        let replies = opening.replies(devices);
        assert(replies[0] == reply);
        if let Step::Ask(o) = opening.next(reply) {
            law_mmap_opening_goes_by_its_replies(o, devices.drop_first());
            assert(replies.drop_first() =~= o.replies(devices.drop_first()));
        }
    }
}

/// A stream is opened with ten questions.
pub proof fn law_mmap_opening_ends<S, D: MmapDir>(sizes: Sizes, devices: Seq<Device>)
    requires
        devices.len() >= 10,
    ensures
        MmapOpening::<S, D>::first(sizes).run(devices) == Step::<
            MmapOpening<S, D>,
            Mapping<S, D>,
        >::Done(MmapOpening::<S, D>::outcome(sizes, devices)),
{
    reveal_with_fuel(MmapOpening::run, 11);
}

/// An opening holds just what it has been granted: a reply adds what it grants to what is held, a
/// stream that is open has all of it, and an opening that fails gives all of it back.
pub proof fn law_mmap_opening_holds_what_is_granted<S, D: MmapDir>(
    opening: MmapOpening<S, D>,
    reply: Reply,
)
    ensures
        opening.held() + granted_by(opening.question(), reply) == match opening.next(reply) {
            Step::Ask(o) => o.held(),
            Step::Done(Ok(m)) => m.held(),
            Step::Done(Err(_)) => opening.given_back(reply),
        },
{
    let granted = granted_by(opening.question(), reply);
    match opening.stage {
        MmapStage::Data(_, o) => law_sample_opening_holds_no_memory(o, reply),
        MmapStage::Control(_, _, o) => law_page_opening_holds_no_memory(o, reply),
        MmapStage::Status(_, _, _, o) => law_page_opening_holds_no_memory(o, reply),
        _ => {},
    }
    assert(opening.held() + granted =~= match opening.next(reply) {
        Step::Ask(o) => o.held(),
        Step::Done(Ok(m)) => m.held(),
        Step::Done(Err(_)) => opening.given_back(reply),
    });
}

/// Whatever is granted while a stream is opened belongs to the stream or is given back, whatever
/// the replies: where the opening fails, no mapping is left behind.
pub proof fn law_failed_opening_gives_back_all_memory<S, D: MmapDir>(
    opening: MmapOpening<S, D>,
    replies: Seq<Reply>,
)
    ensures
        match opening.after(replies) {
            Step::Ask(o) => {
                &&& o.held() == opening.held() + opening.granted_in(replies)
                &&& opening.given_back_in(replies) == Seq::<DriverMemory>::empty()
            },
            Step::Done(Ok(m)) => {
                &&& m.held() == opening.held() + opening.granted_in(replies)
                &&& opening.given_back_in(replies) == Seq::<DriverMemory>::empty()
            },
            Step::Done(Err(_)) => opening.given_back_in(replies) == opening.held()
                + opening.granted_in(replies),
        },
    decreases replies.len(),
{
    let held = opening.held();
    if replies.len() == 0 {
        assert(held + opening.granted_in(replies) =~= held);
    } else {
        let granted = granted_by(opening.question(), replies[0]);
        law_mmap_opening_holds_what_is_granted(opening, replies[0]);
        match opening.next(replies[0]) {
            Step::Ask(o) => {
                let rest = o.granted_in(replies.drop_first());
                law_failed_opening_gives_back_all_memory(o, replies.drop_first());
                assert(held + (granted + rest) =~= (held + granted) + rest);
            },
            Step::Done(_) => {
                assert(granted + Seq::<DriverMemory>::empty() =~= granted);
            },
        }
    }
}

/// A stream that has been opened has room in its buffer for all of its samples.
pub proof fn law_opened_stream_has_room_for_its_samples<S, D: MmapDir>(
    sizes: Sizes,
    devices: Seq<Device>,
)
    requires
        SampleOpening::<S>::fits_devices(sizes.page, devices.skip(2)),
    ensures
        MmapOpening::<S, D>::outcome(sizes, devices) matches Ok(m) ==> m.data.mem.size
            >= m.data.frames * m.data.channels * core::mem::size_of::<S>(),
{
    law_opened_buffer_has_room_for_its_samples::<S>(sizes.page, devices.skip(2));
}

/// What an opening of a stream makes of each answer. It goes on from the right direction, and takes
/// the boundary as it is told. What its parts make of an answer is what it makes of it, and nothing
/// that it has been told before is lost or changed on the way.
pub proof fn law_mmap_opening_goes_by_the_answer<S, D: MmapDir>(
    opening: MmapOpening<S, D>,
    reply: Reply,
)
    ensures
        match opening.stage {
            MmapStage::Stream => match reply {
                Reply::Failed(e) => opening.next(reply) matches Step::Done(Err(err)) && err == e,
                Reply::Stream(stream) => if stream == D::direction() {
                    &&& opening.next(reply) matches Step::Ask(next)
                    &&& next.stage is Boundary
                    &&& next.sizes == opening.sizes
                } else {
                    &&& opening.next(reply) matches Step::Done(Err(e))
                    &&& e.func == Some("Wrong direction")
                    &&& e.code == -1
                },
                _ => opening.next(reply) == Step::<MmapOpening<S, D>, Mapping<S, D>>::Ask(opening),
            },
            MmapStage::Boundary => match reply {
                Reply::Failed(e) => opening.next(reply) matches Step::Done(Err(err)) && err == e,
                Reply::Boundary(b) => {
                    &&& opening.next(reply) matches Step::Ask(next)
                    &&& next.sizes == opening.sizes
                    &&& next.stage matches MmapStage::Data(bound, buffer)
                    &&& bound == b
                    &&& buffer.page_size == opening.sizes.page
                    &&& buffer.stage is Params
                },
                _ => opening.next(reply) == Step::<MmapOpening<S, D>, Mapping<S, D>>::Ask(opening),
            },
            MmapStage::Data(b, o) => match o.next(reply) {
                Step::Ask(buffer) => {
                    &&& opening.next(reply) matches Step::Ask(next)
                    &&& next.sizes == opening.sizes
                    &&& next.stage == MmapStage::Data(b, buffer)
                },
                Step::Done(Ok(data)) => {
                    &&& opening.next(reply) matches Step::Ask(next)
                    &&& next.sizes == opening.sizes
                    &&& next.stage matches MmapStage::Control(bound, buffer, page)
                    &&& bound == b
                    &&& buffer == data
                    &&& page.page is Control
                    &&& page.record == opening.sizes.control
                    &&& page.page_size == opening.sizes.page
                    &&& page.fd is None
                },
                Step::Done(Err(e)) => opening.next(reply) matches Step::Done(Err(err)) && err == e,
            },
            MmapStage::Control(b, data, o) => match o.next(reply) {
                Step::Ask(page) => {
                    &&& opening.next(reply) matches Step::Ask(next)
                    &&& next.sizes == opening.sizes
                    &&& next.stage == MmapStage::Control(b, data, page)
                },
                Step::Done(Ok(mem)) => {
                    &&& opening.next(reply) matches Step::Ask(next)
                    &&& next.sizes == opening.sizes
                    &&& next.stage matches MmapStage::Status(bound, buffer, c, page)
                    &&& bound == b
                    &&& buffer == data
                    &&& c == mem
                    &&& page.page is Status
                    &&& page.record == opening.sizes.status
                    &&& page.page_size == opening.sizes.page
                    &&& page.fd is None
                },
                Step::Done(Err(e)) => opening.next(reply) matches Step::Done(Err(err)) && err == e,
            },
            MmapStage::Status(b, data, c, o) => match o.next(reply) {
                Step::Ask(page) => {
                    &&& opening.next(reply) matches Step::Ask(next)
                    &&& next.sizes == opening.sizes
                    &&& next.stage == MmapStage::Status(b, data, c, page)
                },
                Step::Done(Ok(mem)) => {
                    &&& opening.next(reply) matches Step::Done(Ok(m))
                    &&& m.data == data
                    &&& m.c == c
                    &&& m.ss == mem
                    &&& m.bound == b
                },
                Step::Done(Err(e)) => opening.next(reply) matches Step::Done(Err(err)) && err == e,
            },
        },
{
}

/// The opening of a stream asks for the direction, the boundary, the ring buffer and the two
/// records. It begins with nothing known but the sizes that the machine fixes.
pub proof fn law_mmap_opening_asks_in_order<S, D: MmapDir>(
    opening: MmapOpening<S, D>,
    sizes: Sizes,
)
    ensures
        MmapOpening::<S, D>::first(sizes).sizes == sizes,
        MmapOpening::<S, D>::first(sizes).stage is Stream,
        match opening.stage {
            MmapStage::Stream => opening.question() is Stream,
            MmapStage::Boundary => opening.question() is Boundary,
            MmapStage::Data(_, o) => opening.question() == o.question(),
            MmapStage::Control(_, _, o) => opening.question() == o.question(),
            MmapStage::Status(_, _, _, o) => opening.question() == o.question(),
        },
{
}

/// A reply can be worked out unless it is a layout that the opening of the ring buffer cannot work
/// out, and an opening makes sense where both records can be opened.
pub proof fn law_where_an_opening_makes_sense<S, D: MmapDir>(
    opening: MmapOpening<S, D>,
    reply: Reply,
)
    ensures
        opening.acceptable(reply) <==> match opening.stage {
            MmapStage::Data(_, o) => o.acceptable(reply),
            _ => true,
        },
        opening.valid() <==> {
            &&& MapRequest::fits(1, opening.sizes.control as int, opening.sizes.page as int)
            &&& MapRequest::fits(1, opening.sizes.status as int, opening.sizes.page as int)
            &&& opening.stage matches MmapStage::Control(_, _, o) ==> MapRequest::fits(
                1,
                o.record as int,
                o.page_size as int,
            )
            &&& opening.stage matches MmapStage::Status(_, _, _, o) ==> MapRequest::fits(
                1,
                o.record as int,
                o.page_size as int,
            )
        },
{
}

/// An opening holds the memory of the buffer once that is open, and that of the control record once
/// that is open, too. Where it fails, it gives back all of it, and where it does not, nothing.
pub proof fn law_opening_holds_what_is_open<S, D: MmapDir>(
    opening: MmapOpening<S, D>,
    reply: Reply,
)
    ensures
        match opening.stage {
            MmapStage::Control(_, data, _) => opening.held() == seq![data.mem],
            MmapStage::Status(_, data, c, _) => opening.held() == seq![data.mem, c],
            _ => opening.held().len() == 0,
        },
        opening.next(reply) matches Step::Done(Err(_)) ==> opening.given_back(reply)
            == opening.held(),
        !(opening.next(reply) matches Step::Done(Err(_))) ==> opening.given_back(reply).len() == 0,
{
}

/// An opening that knows the boundary keeps it, whatever the replies: it is the boundary of the
/// stream.
pub proof fn law_boundary_stays_as_it_is<S, D: MmapDir>(
    opening: MmapOpening<S, D>,
    replies: Seq<Reply>,
    b: Frames,
)
    requires
        match opening.stage {
            MmapStage::Data(bound, _) => bound == b,
            MmapStage::Control(bound, _, _) => bound == b,
            MmapStage::Status(bound, _, _, _) => bound == b,
            _ => false,
        },
    ensures
        opening.after(replies) matches Step::Done(Ok(m)) ==> m.bound == b,
    decreases replies.len(),
{
    if replies.len() > 0 {
        if let Step::Ask(o) = opening.next(replies[0]) {
            law_boundary_stays_as_it_is(o, replies.drop_first(), b);
        }
    }
}

/// The boundary of a stream is one that was given in answer to the question for it: an opening that
/// does not know it yet comes to a stream only by a reply that holds just this number.
pub proof fn law_boundary_is_the_one_that_was_told<S, D: MmapDir>(
    opening: MmapOpening<S, D>,
    replies: Seq<Reply>,
)
    requires
        opening.stage is Stream || opening.stage is Boundary,
    ensures
        opening.after(replies) matches Step::Done(Ok(m)) ==> exists|k: int|
            0 <= k < replies.len() && #[trigger] replies[k] == Reply::Boundary(m.bound),
    decreases replies.len(),
{
    if replies.len() > 0 {
        let rest = replies.drop_first();
        if let Step::Ask(o) = opening.next(replies[0]) {
            if o.stage is Stream || o.stage is Boundary {
                law_boundary_is_the_one_that_was_told(o, rest);
                if let Step::Done(Ok(m)) = o.after(rest) {
                    let k = choose|k: int|
                        0 <= k < rest.len() && #[trigger] rest[k] == Reply::Boundary(m.bound);
                    assert(replies[k + 1] == rest[k]);
                }
            } else {
                law_boundary_stays_as_it_is(o, rest, replies[0]->Boundary_0);
            }
        }
    }
}

/// A stream that has been opened is as the device said when it was asked: it runs in the direction
/// `D`, and has the boundary, the length and the channels of the device. The access is mapped and
/// interleaved, the driver lays out frames of samples of the type `S`, and the memory is where the
/// device put it.
pub proof fn law_opened_stream_is_what_the_device_said<S, D: MmapDir>(
    sizes: Sizes,
    devices: Seq<Device>,
)
    requires
        devices.len() >= 10,
    ensures
        MmapOpening::<S, D>::first(sizes).run(devices) matches Step::Done(Ok(m)) ==> {
            &&& devices[0].stream == Ok::<Direction, Error>(D::direction())
            &&& devices[1].boundary == Ok::<Frames, Error>(m.bound)
            &&& devices[2].hw_params matches Ok(hw)
            &&& hw.access is MMapInterleaved
            &&& m.data.frames == hw.buffer_size
            &&& m.data.channels == hw.channels
            &&& devices[3].descriptors matches Ok((n, fd))
            &&& n == 1
            &&& (devices[4].channel_info)(fd) matches Ok(info)
            &&& info.first == 0
            &&& info.step == hw.channels * (core::mem::size_of::<S>() as u32) * 8
            &&& m.data.mem.ptr != 0
            &&& m.data.mem.ptr != usize::MAX
            &&& devices[6].descriptors matches Ok((n, _))
            &&& n == 1
            &&& m.c.ptr != 0
            &&& m.c.ptr != usize::MAX
            &&& devices[8].descriptors matches Ok((n, _))
            &&& n == 1
            &&& m.ss.ptr != 0
            &&& m.ss.ptr != usize::MAX
        },
{
    law_mmap_opening_ends::<S, D>(sizes, devices);
}

/// A device that runs in the direction `D`, is set up as expected and grants every mapping is
/// opened: nothing else stands in the way.
pub proof fn law_willing_device_is_opened<S, D: MmapDir>(
    sizes: Sizes,
    devices: Seq<Device>,
    bound: Frames,
    hw: HwParams,
    fds: (RawFd, RawFd, RawFd),
    info: snd_pcm_channel_info,
)
    requires
        devices.len() >= 10,
        devices[0].stream == Ok::<Direction, Error>(D::direction()),
        devices[1].boundary == Ok::<Frames, Error>(bound),
        devices[2].hw_params == Ok::<HwParams, Error>(hw),
        hw.access is MMapInterleaved,
        devices[3].descriptors == Ok::<(usize, RawFd), Error>((1usize, fds.0)),
        (devices[4].channel_info)(fds.0) == Ok::<snd_pcm_channel_info, Error>(info),
        info.first == 0,
        info.step == hw.channels * (core::mem::size_of::<S>() as u32) * 8,
        devices[6].descriptors == Ok::<(usize, RawFd), Error>((1usize, fds.1)),
        devices[8].descriptors == Ok::<(usize, RawFd), Error>((1usize, fds.2)),
        forall|k: int, q: MapRequest|
            k == 5 || k == 7 || k == 9 ==> (#[trigger] (devices[k].memory)(q)) != 0 && (
            devices[k].memory)(q) != usize::MAX,
    ensures
        MmapOpening::<S, D>::first(sizes).run(devices) matches Step::Done(Ok(m)) && m.bound == bound
            && m.data.frames == hw.buffer_size && m.data.channels == hw.channels,
{
    law_mmap_opening_ends::<S, D>(sizes, devices);
}

} // verus!
