//! How streams are opened.

use pcm_direct::control::Control;
use pcm_direct::dir::{Capture, Playback};
use pcm_direct::error::Error;
use pcm_direct::mapping::{DriverMemory, MapRequest, MAP_FAILED};
use pcm_direct::open::{pcm_to_fd, PageOpening, Reply, Request, Step};
use pcm_direct::pcm::{Access, Direction, Frames};
use pcm_direct::sample::{snd_pcm_channel_info, HwParams, SampleData, SampleOpening};
use pcm_direct::status::Status;
use pcm_direct::stream::{new_mmap, Mapping, MmapOpening, Sizes};

const SIZES: Sizes = Sizes { control: 16, status: 56, page: 4096 };

fn hw(access: Access) -> HwParams {
    HwParams { buffer_size: 3000, channels: 2, access }
}

fn info(first: u32, step: u32) -> snd_pcm_channel_info {
    snd_pcm_channel_info { channel: 0, offset: 77, first, step }
}

fn error(func: &'static str) -> Error {
    Error::new(Some(func), -1)
}

/// Answers every question of the opening of a stream of 16 bit samples.
fn answer(request: Request) -> Reply {
    match request {
        Request::Stream => Reply::Stream(Direction::Playback),
        Request::Boundary => Reply::Boundary(3000 * 1024),
        Request::HwParams => Reply::HwParams(hw(Access::MMapInterleaved)),
        Request::PollDescriptors => Reply::PollDescriptors(1, 5),
        Request::ChannelInfo(fd) => {
            assert_eq!(fd, 5);
            Reply::ChannelInfo(info(0, 32))
        }
        Request::Memory(request) => Reply::Memory(request.offset as usize + 0x1000),
    }
}

type Outcome = Result<Mapping<i16, Playback>, (Error, Vec<DriverMemory>)>;

/// Runs an opening in which the `n`th answer is replaced; returns the questions and the outcome.
/// What is mapped must be what was granted at every step.
fn open_with(n: usize, reply: Reply) -> (Vec<Request>, Outcome) {
    let mut opening: MmapOpening<i16, Playback> = new_mmap(SIZES);
    let mut questions = Vec::new();
    let mut granted = Vec::new();
    loop {
        assert_eq!(opening.mapped(), granted);
        let request = opening.request();
        let r = if questions.len() == n { reply } else { answer(request) };
        questions.push(request);
        assert!(opening.accepts(r));
        if let (Request::Memory(request), Reply::Memory(p)) = (request, r) {
            granted.extend(DriverMemory::new(request, p));
        }
        match opening.step(r) {
            (Step::Ask(next), given_back) => {
                assert!(given_back.is_empty());
                opening = next;
            }
            (Step::Done(Ok(m)), given_back) => {
                assert!(given_back.is_empty());
                assert_eq!(granted, vec![m.data.mem, m.c, m.ss]);
                return (questions, Ok(m));
            }
            (Step::Done(Err(e)), given_back) => {
                assert_eq!(given_back, granted);
                return (questions, Err((e, given_back)));
            }
        }
    }
}

fn failure(n: usize, reply: Reply) -> Error {
    let (questions, outcome) = open_with(n, reply);
    assert_eq!(questions.len(), n + 1);
    outcome.err().unwrap().0
}

#[test]
fn stream_opens_in_ten_steps() {
    let (questions, outcome) = open_with(100, Reply::Failed(Error::new(None, 0)));
    let data = MapRequest { fd: 5, len: 12288, offset: 77, writable: true };
    let control = MapRequest { fd: 5, len: 4096, offset: 0x8100_0000, writable: true };
    let status = MapRequest { fd: 5, len: 4096, offset: 0x8000_0000, writable: false };
    assert_eq!(
        questions,
        vec![
            Request::Stream,
            Request::Boundary,
            Request::HwParams,
            Request::PollDescriptors,
            Request::ChannelInfo(5),
            Request::Memory(data),
            Request::PollDescriptors,
            Request::Memory(control),
            Request::PollDescriptors,
            Request::Memory(status),
        ]
    );
    let m = outcome.unwrap();
    assert_eq!(m.data.mem, DriverMemory { ptr: 0x104d, size: 12288 });
    assert_eq!(m.data.frames, 3000);
    assert_eq!(m.data.channels, 2);
    assert_eq!(m.c, DriverMemory { ptr: 0x8100_1000, size: 4096 });
    assert_eq!(m.ss, DriverMemory { ptr: 0x8000_1000, size: 4096 });
    assert_eq!(m.bound, 3000 * 1024);
}

#[test]
fn wrong_direction_is_refused() {
    assert_eq!(failure(0, Reply::Stream(Direction::Capture)), error("Wrong direction"));
    let opening: MmapOpening<i16, Capture> = new_mmap(SIZES);
    match opening.step(Reply::Stream(Direction::Capture)) {
        (Step::Ask(next), _) => assert_eq!(next.request(), Request::Boundary),
        (Step::Done(_), _) => panic!(),
    }
}

#[test]
fn wrong_access_is_refused() {
    let others = [
        Access::MMapNonInterleaved,
        Access::MMapComplex,
        Access::RWInterleaved,
        Access::RWNonInterleaved,
    ];
    for access in others {
        assert_eq!(failure(2, Reply::HwParams(hw(access))), error("Not MMAP interleaved data"));
    }
}

#[test]
fn wrong_number_of_descriptors_is_refused() {
    let message = "snd_pcm_poll_descriptors returned wrong number of fds";
    assert_eq!(pcm_to_fd(1, 9), Ok(9));
    assert_eq!(pcm_to_fd(0, 9), Err(Error::new(Some(message), 0)));
    assert_eq!(pcm_to_fd(3, 9), Err(Error::new(Some(message), 3)));
    for n in [3, 6, 8] {
        assert_eq!(failure(n, Reply::PollDescriptors(2, 5)), Error::new(Some(message), 2));
    }
}

#[test]
fn wrong_layout_is_refused() {
    let mismatch = error("MMAP data size mismatch");
    assert_eq!(failure(4, Reply::ChannelInfo(info(0, 16))), mismatch);
    assert_eq!(failure(4, Reply::ChannelInfo(info(0, 64))), mismatch);
    assert_eq!(failure(4, Reply::ChannelInfo(info(16, 32))), mismatch);
}

#[test]
fn refused_mapping_is_an_error() {
    for n in [5, 7, 9] {
        assert_eq!(failure(n, Reply::Memory(MAP_FAILED)), error("driver memory mmap"));
        assert_eq!(failure(n, Reply::Memory(0)), error("driver memory mmap"));
    }
}

#[test]
fn failed_opening_gives_back_what_was_mapped() {
    let data = DriverMemory { ptr: 0x104d, size: 12288 };
    let control = DriverMemory { ptr: 0x8100_1000, size: 4096 };
    let given_back = |n| open_with(n, Reply::Failed(Error::new(None, -5))).1.err().unwrap().1;
    for n in 0..5 {
        assert_eq!(given_back(n), vec![]);
    }
    assert_eq!(given_back(6), vec![data]);
    assert_eq!(given_back(8), vec![data, control]);
    let refused = |n| open_with(n, Reply::Memory(MAP_FAILED)).1.err().unwrap().1;
    assert_eq!(refused(5), vec![]);
    assert_eq!(refused(7), vec![data]);
    assert_eq!(refused(9), vec![data, control]);
}

#[test]
fn opened_buffer_has_room_for_its_samples() {
    let m = open_with(100, Reply::Failed(Error::new(None, 0))).1.unwrap();
    let bytes = m.data.frames as usize * m.data.channels as usize * std::mem::size_of::<i16>();
    assert_eq!(bytes, 12000);
    assert!(m.data.mem.size >= bytes);
}

#[test]
fn failed_calls_are_reported() {
    let e = Error::new(Some("snd_pcm_info"), -19);
    for n in [0, 1, 2, 3, 6, 8] {
        assert_eq!(failure(n, Reply::Failed(e)), e);
    }
    assert_eq!(failure(4, Reply::Failed(e)), error("SNDRV_PCM_IOCTL_CHANNEL_INFO"));
}

#[test]
fn replies_to_other_questions_change_nothing() {
    let (questions, outcome) = open_with(3, Reply::Stream(Direction::Playback));
    assert_eq!(questions.len(), 11);
    assert_eq!(questions[3], questions[4]);
    assert!(outcome.is_ok());
}

#[test]
fn every_question_is_answered_anew() {
    // The device has another descriptor by the time the control record is opened.
    let (questions, outcome) = open_with(6, Reply::PollDescriptors(1, 9));
    let control = MapRequest { fd: 9, len: 4096, offset: 0x8100_0000, writable: true };
    let status = MapRequest { fd: 5, len: 4096, offset: 0x8000_0000, writable: false };
    assert_eq!(questions[7], Request::Memory(control));
    assert_eq!(questions[9], Request::Memory(status));
    assert!(outcome.is_ok());
}

fn sample_opening(buffer_size: Frames, channels: u32) -> SampleOpening<i16> {
    let hw = HwParams { buffer_size, channels, access: Access::MMapInterleaved };
    let mut opening = SampleData::<i16>::new(4096);
    for reply in [Reply::HwParams(hw), Reply::PollDescriptors(1, 5)] {
        opening = match opening.step(reply) {
            Step::Ask(next) => next,
            Step::Done(_) => panic!(),
        };
    }
    opening
}

#[test]
fn sizes_out_of_range_are_noticed() {
    assert!(sample_opening(3000, 2).accepts(Reply::ChannelInfo(info(0, 32))));
    assert!(!sample_opening(0, 2).accepts(Reply::ChannelInfo(info(0, 32))));
    assert!(!sample_opening(Frames::MAX, 2).accepts(Reply::ChannelInfo(info(0, 32))));
    assert!(!sample_opening(-1, 2).accepts(Reply::ChannelInfo(info(0, 32))));
    assert!(!sample_opening(3000, u32::MAX).accepts(Reply::ChannelInfo(info(0, 32))));
    // Where the layout is refused anyway, the size of the buffer does not matter.
    assert!(sample_opening(Frames::MAX, 2).accepts(Reply::ChannelInfo(info(1, 32))));
}

#[test]
fn mappings_are_whole_pages() {
    assert_eq!(MapRequest::new(3, 1, 4096, 0, true, 4096).len, 4096);
    assert_eq!(MapRequest::new(3, 1, 4097, 0, true, 4096).len, 8192);
    assert_eq!(MapRequest::new(3, 10, 100, 0, true, 64).len, 1024);
    assert!(!MapRequest::check(0, 4, 4096));
    assert!(!MapRequest::check(4, 0, 4096));
    assert!(!MapRequest::check(4, 4, 0));
    assert!(!MapRequest::check(usize::MAX, 2, 4096));
    assert!(!MapRequest::check(usize::MAX, 1, 4096));
    assert!(MapRequest::check(usize::MAX - 4095, 1, 4096));
    assert!(MapRequest::check(1, 5, usize::MAX));
}

#[test]
fn records_open_by_themselves() {
    let mut opening: PageOpening = Status::new(56, 4096);
    assert!(opening.check());
    assert_eq!(opening.request(), Request::PollDescriptors);
    opening = match opening.step(Reply::PollDescriptors(1, 8)) {
        Step::Ask(next) => next,
        Step::Done(_) => panic!(),
    };
    assert_eq!(opening.request(), Request::Memory(Status::from_fd(8, 56, 4096)));
    match opening.step(Reply::Memory(0x5000)) {
        Step::Done(Ok(mem)) => assert_eq!(mem, DriverMemory { ptr: 0x5000, size: 4096 }),
        _ => panic!(),
    }

    let opening = Control::new(16, 4096);
    match opening.step(Reply::PollDescriptors(1, 8)) {
        Step::Ask(next) => {
            assert_eq!(next.request(), Request::Memory(Control::from_fd(8, 16, 4096)));
            assert!(Control::from_fd(8, 16, 4096).writable);
        }
        Step::Done(_) => panic!(),
    }
    assert!(!Control::new(0, 4096).check());
    assert!(SIZES.check());
    assert!(!Sizes { control: 16, status: 56, page: 0 }.check());
}
