//! Reading and writing ring buffers.

use std::marker::PhantomData;

use pcm_direct::control::{snd_pcm_mmap_control, Control};
use pcm_direct::dir::{Capture, Playback};
use pcm_direct::iter::Iter;
use pcm_direct::mapping::DriverMemory;
use pcm_direct::mmap::{MmapCapture, MmapIO, MmapPlayback};
use pcm_direct::pcm::{Frames, State};
use pcm_direct::sample::SampleData;
use pcm_direct::status::{snd_pcm_mmap_status, Status};

fn stream<S, D>(
    frames: Frames,
    channels: u32,
    bound: Frames,
    hw: usize,
    appl: usize,
) -> MmapIO<S, D> {
    let no_time = libc::timespec { tv_sec: 0, tv_nsec: 0 };
    MmapIO {
        data: SampleData {
            mem: DriverMemory { ptr: 0x1000, size: 4096 },
            frames,
            channels,
            samples: PhantomData,
        },
        c: Control(snd_pcm_mmap_control { appl_ptr: appl, avail_min: 1 }),
        ss: Status(snd_pcm_mmap_status {
            state: 2,
            pad1: 0,
            hw_ptr: hw,
            tstamp: no_time,
            suspended_state: 0,
            audio_tstamp: no_time,
        }),
        bound,
        dir: PhantomData,
    }
}

#[test]
fn stream_tells_its_numbers() {
    let m: MmapCapture<i16> = stream(8, 2, 64, 5, 3);
    assert_eq!(m.status().hw_ptr(), 5);
    assert_eq!(m.hw_ptr(), 5);
    assert_eq!(m.appl_ptr(), 3);
    assert_eq!(m.boundary(), 64);
    assert_eq!(m.buffer_size(), 8);
    assert_eq!(m.channels(), 2);
    assert_eq!(m.avail(), 2);
    assert!(m.check());
}

#[test]
fn bad_numbers_are_noticed() {
    assert!(!stream::<i16, Capture>(8, 2, 64, 64, 3).check());
    assert!(!stream::<i16, Capture>(8, 2, 64, 5, 64).check());
    assert!(!stream::<i16, Capture>(8, 2, 64, 5, usize::MAX).check());
    assert!(!stream::<i16, Capture>(0, 2, 64, 5, 3).check());
    assert!(!stream::<i16, Capture>(65, 2, 64, 5, 3).check());
    assert!(!stream::<i16, Capture>(8, 0, 64, 5, 3).check());
    assert!(stream::<i16, Capture>(8, 2, Frames::MAX, 5, 3).check());
    assert!(!stream::<i16, Capture>(Frames::MAX / 2, 3, Frames::MAX, 5, 3).check());
}

#[test]
fn positions_in_the_buffer_are_noticed() {
    assert!(stream::<i16, Capture>(8, 2, 64, 5, 3).is_placed());
    // Neither the hardware nor the boundary matters.
    assert!(stream::<i16, Capture>(8, 2, 64, 70, 3).is_placed());
    assert!(stream::<i16, Capture>(8, 2, -1, usize::MAX, 100).is_placed());
    assert!(!stream::<i16, Capture>(8, 2, 64, 5, usize::MAX).is_placed());
    assert!(!stream::<i16, Capture>(0, 2, 64, 5, 3).is_placed());
    assert!(!stream::<i16, Capture>(-8, 2, 64, 5, 3).is_placed());
    assert!(!stream::<i16, Capture>(8, 0, 64, 5, 3).is_placed());
    assert!(!stream::<i16, Capture>(Frames::MAX / 2, 3, Frames::MAX, 5, 3).is_placed());

    assert!(stream::<i16, Capture>(8, 2, 64, 0, 100).can_access());
    assert!(!stream::<i16, Capture>(8, 2, 64, 5, usize::MAX).can_access());
    let end = Frames::MAX as usize;
    assert!(stream::<i16, Capture>(8, 1, 0, 0, end).can_access());
    assert!(!stream::<i16, Capture>(8, 2, 0, 0, end).can_access());

    assert!(stream::<i16, Playback>(8, 2, 64, 5, 3).can_write());
    assert!(stream::<i16, Playback>(8, 2, 64, 70, 3).can_write());
    assert!(!stream::<i16, Playback>(8, 2, 64, 5, usize::MAX).can_write());
    assert!(stream::<i16, Playback>(8, 2, Frames::MAX, end - 8, end - 8).can_write());
    assert!(!stream::<i16, Playback>(8, 2, Frames::MAX, end - 7, end - 7).can_write());
}

#[test]
fn pointers_out_of_the_ring_are_counted_all_the_same() {
    let mut mem = vec![0i16; 16];
    let m: MmapCapture<i16> = stream(8, 2, 64, 70, 3);
    assert_eq!(m.data_ptr(), (6, 5, Some((0, 3))));
    let mut m: MmapPlayback<i16> = stream(8, 2, 64, 70, 3);
    assert_eq!(m.data_ptr(), (6, 5, Some((0, 3))));
    assert_eq!(m.write(&mut mem, &mut (1..=4i16)), 2);
    assert_eq!(mem[6..10], [1, 2, 3, 4]);
    assert_eq!(m.appl_ptr(), 5);

    // Where the number available is negative, nothing is read or written.
    let mut m: MmapPlayback<i16> = stream(8, 2, 64, 0, 100);
    assert_eq!(m.data_ptr(), (8, -92, None));
    let mut i = 1..=4i16;
    assert_eq!(m.write(&mut mem, &mut i), 0);
    assert_eq!(i, 1..=4);
    assert_eq!(m.appl_ptr(), 36);
    let mut m: MmapCapture<i16> = stream(8, 2, 64, 0, 100);
    assert_eq!(m.data_ptr(), (8, -36, None));
    let mut it = m.iter();
    assert_eq!(it.next(&mut m, &mem), None);
    assert_eq!(m.appl_ptr(), 36);
    it.finish(&mut m);
    assert_eq!(m.appl_ptr(), 36);
}

#[test]
fn commit_moves_the_pointer() {
    let mut m: MmapPlayback<i16> = stream(8, 2, 64, 5, 3);
    m.commit(4);
    assert_eq!(m.appl_ptr(), 7);
    m.commit(0);
    assert_eq!(m.appl_ptr(), 7);
    assert_eq!(m.hw_ptr(), 5);
    assert_eq!(m.c.avail_min(), 1);
}

#[test]
fn commit_wraps_at_the_boundary() {
    let mut m: MmapPlayback<i16> = stream(8, 2, 64, 50, 50);
    m.commit(8);
    // 66 would be beyond the boundary, but 58 is not.
    assert_eq!(m.appl_ptr(), 58);
    m.commit(5);
    assert_eq!(m.appl_ptr(), 63);
    m.commit(1);
    assert_eq!(m.appl_ptr(), 0);
    let mut m: MmapPlayback<i16> = stream(8, 2, 64, 60, 60);
    m.commit(6);
    assert_eq!(m.appl_ptr(), 2);
}

#[test]
fn commit_out_of_range_is_noticed() {
    let m: MmapPlayback<i16> = stream(8, 2, Frames::MAX, 0, 10);
    assert!(m.can_commit(Frames::MAX - 10));
    assert!(!m.can_commit(Frames::MAX - 9));
    assert!(m.can_commit(Frames::MIN));
    let m: MmapPlayback<i16> = stream(8, 2, -5, 0, 10);
    assert!(m.can_commit(Frames::MAX - 15));
    assert!(!m.can_commit(Frames::MAX - 14));
}

#[test]
fn commit_uses_up_what_is_available() {
    let mut m: MmapPlayback<i16> = stream(8, 2, 64, 60, 62);
    assert_eq!(m.avail(), 6);
    m.commit(4);
    assert_eq!(m.avail(), 2);
    let mut m: MmapCapture<i16> = stream(8, 2, 64, 3, 62);
    assert_eq!(m.avail(), 5);
    m.commit(4);
    assert_eq!(m.avail(), 1);
}

#[test]
fn data_lies_in_one_or_two_stretches() {
    let m: MmapPlayback<i16> = stream(8, 2, 64, 0, 0);
    assert_eq!(m.data_ptr(), (0, 8, None));
    let m: MmapPlayback<i16> = stream(8, 2, 64, 5, 5);
    assert_eq!(m.data_ptr(), (10, 3, Some((0, 5))));
    let m: MmapPlayback<i16> = stream(8, 2, 64, 5, 13);
    assert_eq!(m.data_ptr(), (10, 0, None));
    // After an underrun there is still no more than a buffer to write.
    let m: MmapPlayback<i16> = stream(8, 2, 64, 20, 5);
    assert_eq!(m.data_ptr(), (10, 3, Some((0, 5))));
    let m: MmapCapture<i16> = stream(8, 2, 64, 7, 5);
    assert_eq!(m.data_ptr(), (10, 2, None));
    let m: MmapCapture<i16> = stream(8, 2, 64, 10, 5);
    assert_eq!(m.data_ptr(), (10, 3, Some((0, 2))));
}

#[test]
fn write_goes_round_the_end_of_the_buffer() {
    let mut m: MmapPlayback<i16> = stream(4, 2, 64, 3, 3);
    let mut mem = vec![0i16; 8];
    let mut i = 1..=6i16;
    assert_eq!(m.write(&mut mem, &mut i), 3);
    assert_eq!(mem, vec![3, 4, 5, 6, 0, 0, 1, 2]);
    assert_eq!(m.appl_ptr(), 6);
    assert_eq!(m.avail(), 1);
}

#[test]
fn write_stops_where_the_buffer_is_full() {
    let mut m: MmapPlayback<i16> = stream(4, 2, 64, 3, 5);
    let mut mem = vec![0i16; 8];
    let mut i = vec![1i16, 2, 3, 4, 5, 6].into_iter();
    assert_eq!(m.write(&mut mem, &mut i), 2);
    assert_eq!(mem, vec![0, 0, 1, 2, 3, 4, 0, 0]);
    assert_eq!(m.appl_ptr(), 7);
    assert_eq!(i.next(), Some(5));
    assert_eq!(m.write(&mut mem, &mut i), 0);
    assert_eq!(m.appl_ptr(), 7);
    assert_eq!(i.next(), Some(6));
}

#[test]
fn write_does_not_count_part_of_a_frame() {
    let mut m: MmapPlayback<i16> = stream(4, 2, 64, 3, 3);
    let mut mem = vec![0i16; 8];
    assert_eq!(m.write(&mut mem, &mut (1..=5i16)), 2);
    assert_eq!(mem, vec![3, 4, 5, 0, 0, 0, 1, 2]);
    assert_eq!(m.appl_ptr(), 5);
    assert_eq!(m.write(&mut mem, &mut std::iter::empty()), 0);
    assert_eq!(m.appl_ptr(), 5);
}

/// An iterator that may have more after it has had none, and counts how often it is asked.
struct Counted {
    answers: Vec<Option<i16>>,
    asked: usize,
}

impl Iterator for Counted {
    type Item = i16;

    fn next(&mut self) -> Option<i16> {
        self.asked += 1;
        self.answers[self.asked - 1]
    }
}

fn counted(answers: &[Option<i16>]) -> Counted {
    Counted { answers: answers.to_vec(), asked: 0 }
}

#[test]
fn write_does_not_ask_again() {
    let answers = [Some(1), Some(2), None, Some(3), Some(4)];
    let mut mem = vec![0i16; 4];
    let mut m: MmapPlayback<i16> = stream(4, 1, 64, 0, 0);
    let mut i = counted(&answers);
    assert_eq!(m.write(&mut mem, &mut i), 2);
    assert_eq!((i.asked, &mem[..]), (3, &[1, 2, 0, 0][..]));
    // The next write goes on with what the iterator has then.
    assert_eq!(m.write(&mut mem, &mut i), 2);
    assert_eq!((i.asked, &mem[..]), (5, &[1, 2, 3, 4][..]));
    // There is no room, so the iterator is not asked.
    assert_eq!(m.write(&mut mem, &mut i), 0);
    assert_eq!(i.asked, 5);

    // It has no more just where the first stretch ends.
    let mut mem = vec![0i16; 4];
    let mut m: MmapPlayback<i16> = stream(4, 1, 64, 2, 2);
    let mut i = counted(&answers);
    assert_eq!(m.write(&mut mem, &mut i), 2);
    assert_eq!((i.asked, &mem[..]), (3, &[0, 0, 1, 2][..]));

    // It has no more before the first stretch ends.
    let mut m: MmapPlayback<i16> = stream(4, 1, 64, 1, 1);
    let mut i = counted(&answers);
    assert_eq!(m.write(&mut mem, &mut i), 2);
    assert_eq!((i.asked, &mem[..]), (3, &[0, 1, 2, 2][..]));
}

#[test]
fn two_writes_are_one_write_of_both() {
    let second = [Some(5), Some(6), Some(7), None, Some(8)];
    let mut mem = vec![0i16; 16];
    let mut m: MmapPlayback<i16> = stream(8, 2, 64, 5, 5);
    let mut i = counted(&second);
    assert_eq!(m.write(&mut mem, &mut (1..=4i16)), 2);
    assert_eq!(m.write(&mut mem, &mut i), 1);
    assert_eq!(i.asked, 4);

    let mut at_once = vec![0i16; 16];
    let mut n: MmapPlayback<i16> = stream(8, 2, 64, 5, 5);
    let mut i = counted(&second);
    assert_eq!(n.write(&mut at_once, &mut (1..=4i16).chain(&mut i)), 3);
    assert_eq!(i.asked, 4);
    assert_eq!(mem, at_once);
    assert_eq!(mem[10..16], [1, 2, 3, 4, 5, 6]);
    assert_eq!(mem[0], 7);
    assert_eq!(m.appl_ptr(), 8);
    assert_eq!(n.appl_ptr(), 8);
}

#[test]
fn writes_follow_each_other_across_the_boundary() {
    let mut m: MmapPlayback<i16> = stream(4, 1, 8, 6, 6);
    let mut mem = vec![0i16; 4];
    assert_eq!(m.write(&mut mem, &mut [1, 2, 3].into_iter()), 3);
    assert_eq!(m.appl_ptr(), 1);
    assert_eq!(m.write(&mut mem, &mut [4, 5].into_iter()), 1);
    assert_eq!(m.appl_ptr(), 2);
    // From the hardware's position on, the samples are in the order in which they were written.
    assert_eq!(mem, vec![3, 4, 1, 2]);
    assert_eq!(m.avail(), 0);
}

#[test]
fn walk_reads_what_is_recorded() {
    let mut m: MmapCapture<i16> = stream(4, 2, 64, 6, 3);
    let mem = vec![3i16, 4, 5, 6, 0, 0, 1, 2];
    let samples = m.iter().collect(&mut m, &mem);
    assert_eq!(samples, vec![1, 2, 3, 4, 5, 6]);
    assert_eq!(m.appl_ptr(), 6);
    assert_eq!(m.avail(), 0);
    assert_eq!(m.iter().collect(&mut m, &mem), Vec::<i16>::new());
    assert_eq!(m.appl_ptr(), 6);
}

#[test]
fn walk_commits_at_its_end() {
    let mut m: MmapCapture<i16> = stream(4, 2, 64, 4, 3);
    let mem = vec![3i16, 4, 5, 6, 0, 0, 1, 2];
    let mut it: Iter<i16> = m.iter();
    assert_eq!(it.next(&mut m, &mem), Some(1));
    assert_eq!(it.next(&mut m, &mem), Some(2));
    assert_eq!(m.appl_ptr(), 3);
    assert_eq!(it.next(&mut m, &mem), None);
    assert_eq!(m.appl_ptr(), 4);
    assert_eq!(it.next(&mut m, &mem), None);
    it.finish(&mut m);
    assert_eq!(m.appl_ptr(), 4);
}

#[test]
fn walk_hands_out_cells() {
    let mut m: MmapCapture<i16> = stream(4, 2, 64, 6, 3);
    let mut it = m.iter();
    for cell in [6, 7, 0, 1, 2, 3] {
        assert_eq!(it.next_cell(&mut m), Some(cell));
        assert_eq!(m.appl_ptr(), 3);
    }
    assert_eq!(it.next_cell(&mut m), None);
    assert_eq!(m.appl_ptr(), 6);
}

#[test]
fn walk_commits_though_the_hardware_is_out_of_the_ring() {
    let mut m: MmapCapture<i16> = stream(4, 2, 64, 6, 3);
    let mem = vec![3i16, 4, 5, 6, 0, 0, 1, 2];
    let mut it = m.iter();
    assert_eq!(it.next(&mut m, &mem), Some(1));
    assert_eq!(it.next(&mut m, &mem), Some(2));
    m.ss.0.hw_ptr = 1000;
    assert!(it.can_finish(&m));
    it.finish(&mut m);
    assert_eq!(m.appl_ptr(), 4);

    let mut it = stream::<i16, Capture>(4, 2, 64, 6, 3).iter();
    m.c.set_appl_ptr(Frames::MAX);
    assert!(it.can_finish(&m));
    assert_eq!(it.next_cell(&mut m), Some(6));
    assert_eq!(it.next_cell(&mut m), Some(7));
    assert!(!it.can_finish(&m));
    // As long as there is more to read, nothing is committed.
    assert!(it.can_step(&m));
    for _ in 0..4 {
        assert!(it.next_cell(&mut m).is_some());
    }
    assert!(!it.can_step(&m));
    m.data.channels = 0;
    assert!(!it.can_finish(&m));
}

#[test]
fn finished_walk_commits_whole_frames() {
    let mut m: MmapCapture<i16> = stream(4, 2, 64, 6, 3);
    let mem = vec![3i16, 4, 5, 6, 0, 0, 1, 2];
    let mut it = m.iter();
    for expected in 1..=5i16 {
        assert_eq!(it.next(&mut m, &mem), Some(expected));
    }
    it.finish(&mut m);
    assert_eq!(m.appl_ptr(), 5);
    // The fifth sample belongs to a frame that was not read whole.
    assert_eq!(m.iter().collect(&mut m, &mem), vec![5, 6]);
    assert_eq!(m.appl_ptr(), 6);
}

#[test]
fn walk_reads_across_the_boundary() {
    let mut m: MmapCapture<i16> = stream(4, 1, 8, 1, 6);
    let mem = vec![3i16, 4, 1, 2];
    assert_eq!(m.iter().collect(&mut m, &mem), vec![1, 2, 3]);
    assert_eq!(m.appl_ptr(), 1);
}

#[test]
fn what_is_written_is_read_back() {
    let mut out: MmapPlayback<i16> = stream(16, 2, 1 << 20, 1000, 1000);
    let mut mem = vec![0i16; 32];
    let sent: Vec<i16> = (100..120).collect();
    assert_eq!(out.write(&mut mem, &mut sent.clone().into_iter()), 10);
    let mut back: MmapCapture<i16> = stream(16, 2, 1 << 20, 1010, 1000);
    assert_eq!(back.iter().collect(&mut back, &mem), sent);
    assert_eq!(back.appl_ptr(), 1010);
}

#[test]
fn two_walks_at_a_time_read_samples_twice() {
    let mut m: MmapCapture<i16> = stream(8, 1, 64, 6, 0);
    let mem: Vec<i16> = (0..8).collect();
    let (mut a, mut b) = (m.iter(), m.iter());
    for expected in 0..3i16 {
        assert_eq!(a.next(&mut m, &mem), Some(expected));
        assert_eq!(b.next(&mut m, &mem), Some(expected));
    }
    a.finish(&mut m);
    b.finish(&mut m);
    // The samples 3 to 5 are passed over.
    assert_eq!(m.appl_ptr(), 6);
    assert_eq!(m.avail(), 0);
}

/// The hardware records frames of two equal samples, counting up.
fn record(m: &mut MmapCapture<i16>, mem: &mut [i16], frames: usize) {
    for _ in 0..frames {
        let at = m.ss.0.hw_ptr % (m.buffer_size() as usize);
        mem[2 * at] = m.ss.0.hw_ptr as i16;
        mem[2 * at + 1] = m.ss.0.hw_ptr as i16;
        m.ss.0.hw_ptr += 1;
    }
}

#[test]
fn record_from_plughw_mmap() {
    let mut m: MmapCapture<i16> = stream(1024, 2, 1024 << 20, 0, 0);
    let mut mem = vec![0i16; 2048];

    assert_eq!(m.status().state(), State::Prepared);
    assert_eq!(m.appl_ptr(), 0);
    assert_eq!(m.hw_ptr(), 0);

    while m.avail() < 256 {
        record(&mut m, &mut mem, 100);
    }
    let (ptr1, av1, md) = m.data_ptr();
    assert!(av1 >= 256);
    assert!(md.is_none());
    let samples: Vec<i16> = m.iter().collect(&mut m, &mem);
    assert!(samples.len() >= av1 as usize * 2);
    assert_eq!(samples[2 * 255], 255);
    let (ptr2, _av2, _md) = m.data_ptr();
    assert!(ptr1 + 256 * 2 <= ptr2);
}

#[test]
fn record_from_plughw_rw() {
    let mut m: MmapCapture<i16> = stream(1024, 2, 1024 << 20, 0, 0);
    let mut mem = vec![0i16; 2048];
    assert_eq!(m.ss.state(), State::Prepared);
    assert_eq!(m.c.appl_ptr(), 0);
    m.ss.0.state = 3;
    m.ss.0.tstamp.tv_sec = 1000;
    record(&mut m, &mut mem, 512);
    assert_eq!(m.iter().collect(&mut m, &mem).len() / 2, 512);
    assert_eq!(m.c.appl_ptr(), 512);

    assert_eq!(m.ss.state(), State::Running);
    assert!(m.ss.hw_ptr() >= 512);
    let t2 = m.ss.htstamp();
    assert!(t2.tv_sec > 0 || t2.tv_sec > 0);
}

#[test]
fn playback_to_plughw_mmap() {
    let mut m: MmapPlayback<i16> = stream(1024, 2, 1024 << 20, 0, 0);
    let mut mem = vec![0i16; 2048];

    assert_eq!(m.status().state(), State::Prepared);
    assert_eq!(m.appl_ptr(), 0);
    assert_eq!(m.hw_ptr(), 0);

    let mut i = (0..(m.buffer_size() * 2)).map(|i| {
        (((i / 2) as f32 * 2.0 * std::f32::consts::PI / 128.0).sin() * 8192.0) as i16
    });
    m.write(&mut mem, &mut i);
    assert_eq!(m.appl_ptr(), m.buffer_size());
    assert_eq!(mem[2 * 32], 8192);

    // The hardware plays all of it.
    m.ss.0.hw_ptr += 1024;
    assert_eq!(m.appl_ptr(), m.buffer_size());
    assert!(m.hw_ptr() >= m.buffer_size());
    assert_eq!(m.avail(), m.buffer_size());
}
