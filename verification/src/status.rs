//! The record in which the kernel reports where the hardware stands.

use vstd::prelude::*;

use crate::mapping::{law_mapping_is_least_whole_pages, MapRequest};
use crate::open::{Page, PageOpening};
use crate::pcm::{signed, to_frames, Frames, RawFd, State};

verus! {

/// Declares the type `libc::timespec`, a point in time as the C library has it. Nothing is claimed
/// of it: its values are handed on as they are, and its fields are never looked at.
#[verifier::external_type_specification]
#[verifier::external_body]
pub struct ExTimespec(libc::timespec);

/// Where the kernel offers the status record for mapping.
pub const SNDRV_PCM_MMAP_OFFSET_STATUS: libc::c_uint = 0x8000_0000;

/// The status record, field by field.
#[allow(non_camel_case_types)]
#[derive(Clone, Copy, Debug)]
pub struct snd_pcm_mmap_status {
    /// State of the stream, by number.
    pub state: libc::c_int,
    /// Fills the record up to the alignment of what follows.
    pub pad1: libc::c_int,
    /// Frames that the hardware has read or written, from `0` up to the boundary.
    pub hw_ptr: usize,
    /// Timestamp.
    pub tstamp: libc::timespec,
    /// State of the stream before it was suspended, by number.
    pub suspended_state: libc::c_int,
    /// Timestamp from the sample counter or the wall clock.
    pub audio_tstamp: libc::timespec,
}

/// The PCM status as last read from the record that the kernel shares.
///
/// The kernel updates the record every now and then. Many calls on the device force an update to
/// happen.
#[derive(Clone, Copy, Debug)]
pub struct Status(pub snd_pcm_mmap_status);

impl Status {
    /// The mapping of the record: one of it, at its place in the file.
    pub open spec fn mapping_of(fd: RawFd, record: usize, page_size: usize) -> MapRequest {
        MapRequest::of(
            fd,
            1,
            record as int,
            SNDRV_PCM_MMAP_OFFSET_STATUS as libc::off_t,
            false,
            page_size as int,
        )
    }

    /// Starts to open the status record of a device: `record` is its size in bytes and `page_size`
    /// that of a page of memory.
    pub fn new(record: usize, page_size: usize) -> (r: PageOpening)
        ensures
            r == PageOpening::first(Page::Status, record, page_size),
            r == (PageOpening { page: Page::Status, record, page_size, fd: None }),
    {
        PageOpening { page: Page::Status, record, page_size, fd: None }
    }

    /// The mapping that makes the status record of the device behind `fd` readable.
    pub fn from_fd(fd: RawFd, record: usize, page_size: usize) -> (r: MapRequest)
        requires
            MapRequest::fits(1, record as int, page_size as int),
        ensures
            r == Status::mapping_of(fd, record, page_size),
            r.fd == fd,
            r.offset == 0x8000_0000,
            !r.writable,
            r.len % page_size == 0,
            record <= r.len < record + page_size,
    {
        MapRequest::new(
            fd,
            1,
            record,
            SNDRV_PCM_MMAP_OFFSET_STATUS as libc::off_t,
            false,
            page_size,
        )
    }

    /// Current PCM state.
    pub fn state(&self) -> (r: State)
        requires
            State::Open.number() <= self.0.state <= State::Disconnected.number(),
        ensures
            r.number() == self.0.state,
            r == State::Open <==> self.0.state == 0,
            r == State::Setup <==> self.0.state == 1,
            r == State::Prepared <==> self.0.state == 2,
            r == State::Running <==> self.0.state == 3,
            r == State::XRun <==> self.0.state == 4,
            r == State::Draining <==> self.0.state == 5,
            r == State::Paused <==> self.0.state == 6,
            r == State::Suspended <==> self.0.state == 7,
            r == State::Disconnected <==> self.0.state == 8,
    {
        State::from_number(self.0.state).unwrap()
    }

    /// Number of frames the hardware has read or written.
    ///
    /// This number is updated every now and then by the kernel, and wraps at the boundary.
    pub fn hw_ptr(&self) -> (r: Frames)
        ensures
            r == signed(self.0.hw_ptr),
            r == self.0.hw_ptr || r + usize::MAX + 1 == self.0.hw_ptr,
    {
        to_frames(self.0.hw_ptr)
    }

    /// Timestamp of the last update.
    pub fn htstamp(&self) -> (r: libc::timespec)
        ensures
            r == self.0.tstamp,
    {
        self.0.tstamp
    }

    /// Audio timestamp of the last update.
    pub fn audio_htstamp(&self) -> (r: libc::timespec)
        ensures
            r == self.0.audio_tstamp,
    {
        self.0.audio_tstamp
    }
}

/// The status record lies at its own place in the file of the device, and is mapped to be read
/// only. Its mapping is the least whole pages that hold one record.
pub proof fn law_status_record_has_its_place(fd: RawFd, record: usize, page_size: usize)
    requires
        MapRequest::fits(1, record as int, page_size as int),
    ensures
        ({
            let request = Status::mapping_of(fd, record, page_size);
            &&& request.fd == fd
            &&& request.offset == 0x8000_0000
            &&& !request.writable
            &&& request.len % page_size == 0
            &&& record <= request.len < record + page_size
        }),
{
    law_mapping_is_least_whole_pages(record as int, page_size as int);
}

} // verus!
