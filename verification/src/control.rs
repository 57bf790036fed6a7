//! The record in which the application reports where it stands.

use vstd::prelude::*;

use crate::mapping::{law_mapping_is_least_whole_pages, MapRequest};
use crate::open::{Page, PageOpening};
use crate::pcm::{from_frames, signed, to_frames, unsigned, Frames, RawFd};

verus! {

/// Where the kernel offers the control record for mapping.
pub const SNDRV_PCM_MMAP_OFFSET_CONTROL: libc::c_uint = 0x8100_0000;

/// The control record, field by field.
#[allow(non_camel_case_types)]
#[derive(Clone, Copy, Debug, PartialEq, Eq, Structural)]
pub struct snd_pcm_mmap_control {
    /// Frames that the application has read or written, from `0` up to the boundary.
    pub appl_ptr: usize,
    /// Frames that must be available before the kernel wakes the application.
    pub avail_min: usize,
}

/// The control record as last read from, or about to be written to, the memory that the kernel
/// shares.
#[derive(Clone, Copy, Debug, PartialEq, Eq, Structural)]
pub struct Control(pub snd_pcm_mmap_control);

impl Control {
    /// The mapping of the record: one of it, at its place in the file.
    pub open spec fn mapping_of(fd: RawFd, record: usize, page_size: usize) -> MapRequest {
        MapRequest::of(
            fd,
            1,
            record as int,
            SNDRV_PCM_MMAP_OFFSET_CONTROL as libc::off_t,
            true,
            page_size as int,
        )
    }

    /// Starts to open the control record of a device: `record` is its size in bytes and
    /// `page_size` that of a page of memory.
    pub fn new(record: usize, page_size: usize) -> (r: PageOpening)
        ensures
            r == PageOpening::first(Page::Control, record, page_size),
            r == (PageOpening { page: Page::Control, record, page_size, fd: None }),
    {
        PageOpening { page: Page::Control, record, page_size, fd: None }
    }

    /// The mapping that makes the control record of the device behind `fd` readable and writable.
    pub fn from_fd(fd: RawFd, record: usize, page_size: usize) -> (r: MapRequest)
        requires
            MapRequest::fits(1, record as int, page_size as int),
        ensures
            r == Control::mapping_of(fd, record, page_size),
            r.fd == fd,
            r.offset == 0x8100_0000,
            r.writable,
            r.len % page_size == 0,
            record <= r.len < record + page_size,
    {
        MapRequest::new(
            fd,
            1,
            record,
            SNDRV_PCM_MMAP_OFFSET_CONTROL as libc::off_t,
            true,
            page_size,
        )
    }

    /// Number of frames the application has read or written.
    ///
    /// This value wraps at the boundary.
    pub fn appl_ptr(&self) -> (r: Frames)
        ensures
            r == signed(self.0.appl_ptr),
            r == self.0.appl_ptr || r + usize::MAX + 1 == self.0.appl_ptr,
    {
        to_frames(self.0.appl_ptr)
    }

    /// Sets the number of frames the application has read or written.
    ///
    /// When the kernel wakes up due to a period interrupt, it checks this value. An overrun or
    /// underrun happens in case the application has not read or written enough data.
    pub fn set_appl_ptr(&mut self, value: Frames)
        ensures
            final(self).0 == (snd_pcm_mmap_control {
                appl_ptr: unsigned(value as int) as usize,
                ..old(self).0
            }),
            signed(final(self).0.appl_ptr) == value,
            final(self).0.appl_ptr == value || final(self).0.appl_ptr == value + usize::MAX + 1,
            final(self).0.avail_min == old(self).0.avail_min,
    {
        self.0.appl_ptr = from_frames(value);
    }

    /// Minimum number of frames in the buffer in order to wake up the process.
    pub fn avail_min(&self) -> (r: Frames)
        ensures
            r == signed(self.0.avail_min),
            r == self.0.avail_min || r + usize::MAX + 1 == self.0.avail_min,
    {
        to_frames(self.0.avail_min)
    }

    /// Sets the minimum number of frames in the buffer in order to wake up the process.
    pub fn set_avail_min(&mut self, value: Frames)
        ensures
            final(self).0 == (snd_pcm_mmap_control {
                avail_min: unsigned(value as int) as usize,
                ..old(self).0
            }),
            signed(final(self).0.avail_min) == value,
            final(self).0.avail_min == value || final(self).0.avail_min == value + usize::MAX + 1,
            final(self).0.appl_ptr == old(self).0.appl_ptr,
    {
        self.0.avail_min = from_frames(value);
    }
}

/// The control record lies at its own place in the file of the device, and is mapped to be
/// written. Its mapping is the least whole pages that hold one record.
pub proof fn law_control_record_has_its_place(fd: RawFd, record: usize, page_size: usize)
    requires
        MapRequest::fits(1, record as int, page_size as int),
    ensures
        ({
            let request = Control::mapping_of(fd, record, page_size);
            &&& request.fd == fd
            &&& request.offset == 0x8100_0000
            &&& request.writable
            &&& request.len % page_size == 0
            &&& record <= request.len < record + page_size
        }),
{
    law_mapping_is_least_whole_pages(record as int, page_size as int);
}

} // verus!
