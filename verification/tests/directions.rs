//! How many frames each direction leaves to the application.

use pcm_direct::dir::{Capture, MmapDir, Playback};
use pcm_direct::pcm::{from_frames, to_frames, Direction, Frames};

#[test]
fn directions_are_named() {
    assert_eq!(Playback::DIR, Direction::Playback);
    assert_eq!(Capture::DIR, Direction::Capture);
}

#[test]
fn playback_leaves_the_whole_buffer_at_first() {
    assert_eq!(Playback::avail(0, 0, 1024, 1 << 40), 1024);
}

#[test]
fn playback_leaves_what_is_free() {
    assert_eq!(Playback::avail(100, 612, 1024, 1 << 40), 512);
    assert_eq!(Playback::avail(100, 1124, 1024, 1 << 40), 0);
}

#[test]
fn playback_counts_around_the_boundary() {
    // The application has wrapped, the hardware has not.
    assert_eq!(Playback::avail(62, 3, 8, 64), 3);
    // The hardware has wrapped past the application.
    assert_eq!(Playback::avail(2, 60, 8, 64), 14);
}

#[test]
fn playback_underrun_leaves_more_than_the_buffer() {
    assert_eq!(Playback::avail(1100, 1000, 1024, 1 << 40), 1124);
}

#[test]
fn playback_arithmetic_wraps_at_the_word() {
    // The sum leaves the range of frames and comes back negative.
    let max: Frames = Frames::MAX;
    assert_eq!(Playback::avail(max, 0, 1, 16), Frames::MIN);
    assert_eq!(Playback::avail(max, -1, 1, max), 0);
}

#[test]
fn capture_leaves_what_is_recorded() {
    assert_eq!(Capture::avail(0, 0, 1024, 1 << 40), 0);
    assert_eq!(Capture::avail(612, 100, 1024, 1 << 40), 512);
}

#[test]
fn capture_counts_around_the_boundary() {
    assert_eq!(Capture::avail(2, 60, 8, 64), 6);
}

#[test]
fn capture_arithmetic_wraps_at_the_word() {
    assert_eq!(Capture::avail(Frames::MIN, 1, 8, 64), Frames::MAX);
    assert_eq!(Capture::avail(Frames::MAX, -1, 8, 64), Frames::MIN + 64);
}

#[test]
fn frames_round_trip() {
    assert_eq!(to_frames(usize::MAX), -1);
    assert_eq!(to_frames(5), 5);
    assert_eq!(from_frames(-1), usize::MAX);
    let samples: [Frames; 5] = [0, 1, -1, Frames::MAX, Frames::MIN];
    for f in samples {
        assert_eq!(to_frames(from_frames(f)), f);
    }
}
