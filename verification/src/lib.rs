//! Direct access to the ring buffer of a memory-mapped ALSA PCM device.
//!
//! The kernel shares three pieces of memory with the owner of a PCM file descriptor: a status
//! record, which it updates, a control record, which the application updates, and the ring buffer
//! of samples. This crate holds everything that is decided about them: how a stream is opened, how
//! many frames there are to read or to write, where in the buffer they lie, which samples go where,
//! and what the application pointer becomes. The system calls and the accesses to shared memory
//! stay with the caller, who hands over plain values: the records as last read, and the buffer as
//! a slice.

pub mod control;
pub mod dir;
pub mod error;
pub mod iter;
pub mod laws;
pub mod mapping;
pub mod mmap;
pub mod open;
pub mod pcm;
pub mod playback;
pub mod ring;
pub mod sample;
pub mod status;
pub mod stream;
