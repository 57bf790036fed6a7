//! The status and the control record.

use pcm_direct::control::{snd_pcm_mmap_control, Control};
use pcm_direct::pcm::State;
use pcm_direct::status::{snd_pcm_mmap_status, Status};

fn status(state: i32, hw_ptr: usize) -> Status {
    Status(snd_pcm_mmap_status {
        state,
        pad1: 0,
        hw_ptr,
        tstamp: libc::timespec { tv_sec: 11, tv_nsec: 12 },
        suspended_state: 0,
        audio_tstamp: libc::timespec { tv_sec: 21, tv_nsec: 22 },
    })
}

#[test]
fn states_are_numbered_in_order() {
    let states = [
        State::Open,
        State::Setup,
        State::Prepared,
        State::Running,
        State::XRun,
        State::Draining,
        State::Paused,
        State::Suspended,
        State::Disconnected,
    ];
    for i in 0..9i32 {
        assert_eq!(State::from_number(i), Some(states[i as usize]));
        assert_eq!(status(i, 0).state(), states[i as usize]);
    }
    assert_eq!(State::from_number(-1), None);
    assert_eq!(State::from_number(9), None);
}

#[test]
fn status_reports_pointer_and_timestamps() {
    let s = status(2, 512);
    assert_eq!(s.hw_ptr(), 512);
    assert_eq!(s.htstamp().tv_sec, 11);
    assert_eq!(s.htstamp().tv_nsec, 12);
    assert_eq!(s.audio_htstamp().tv_sec, 21);
    assert_eq!(s.audio_htstamp().tv_nsec, 22);
}

#[test]
fn control_keeps_what_is_set() {
    let mut c = Control(snd_pcm_mmap_control { appl_ptr: 7, avail_min: 9 });
    assert_eq!(c.appl_ptr(), 7);
    assert_eq!(c.avail_min(), 9);
    c.set_appl_ptr(100);
    assert_eq!(c.appl_ptr(), 100);
    assert_eq!(c.avail_min(), 9);
    c.set_avail_min(200);
    assert_eq!(c.avail_min(), 200);
    assert_eq!(c.appl_ptr(), 100);
    c.set_appl_ptr(-3);
    assert_eq!(c.0.appl_ptr, usize::MAX - 2);
    assert_eq!(c.appl_ptr(), -3);
    c.set_avail_min(-1);
    assert_eq!(c.avail_min(), -1);
}
