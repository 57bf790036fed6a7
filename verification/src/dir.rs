//! The two directions of a stream and the number of frames each leaves to the application.

use vstd::arithmetic::div_mod::{
    lemma_mod_add_multiples_vanish, lemma_mod_sub_multiples_vanish, lemma_small_mod,
};
use vstd::prelude::*;

use crate::pcm::{from_frames, unsigned, wrapped, Direction, Frames};

verus! {

/// The pointers of a ring: both count frames from `0` up to `boundary`, where they start over, and
/// a turn of the boundary holds at least one buffer.
pub open spec fn pointers_in_ring(
    hwptr: int,
    applptr: int,
    buffersize: int,
    boundary: int,
) -> bool {
    &&& 0 <= hwptr < boundary
    &&& 0 <= applptr < boundary
    &&& 0 <= buffersize <= boundary
}

/// A direction of a stream, as a type.
pub trait MmapDir: core::fmt::Debug + Sized {
    /// The direction as a value.
    const DIR: Direction;

    /// The direction as a value, for contracts to speak of.
    spec fn direction() -> Direction;

    /// The two name the same direction.
    proof fn law_direction_is_dir()
        ensures
            Self::DIR == Self::direction(),
    ;

    /// By how many frames the application may be ahead of the hardware.
    spec fn lead(buffersize: int) -> int;

    /// The number that `avail` returns, for arguments in the range of `Frames`.
    spec fn frames_avail(hwptr: int, applptr: int, buffersize: int, boundary: int) -> int;

    /// The application is never more than a buffer ahead of the hardware.
    proof fn law_lead_is_within_buffer(buffersize: int)
        requires
            0 <= buffersize,
        ensures
            0 <= Self::lead(buffersize) <= buffersize,
    ;

    /// While the pointers are in the ring, the application may go on until it is `lead` frames
    /// ahead of the hardware, counted around the boundary.
    proof fn law_avail_counts_around_boundary(
        hwptr: Frames,
        applptr: Frames,
        buffersize: Frames,
        boundary: Frames,
    )
        requires
            pointers_in_ring(hwptr as int, applptr as int, buffersize as int, boundary as int),
            hwptr + Self::lead(buffersize as int) - applptr <= isize::MAX,
        ensures
            Self::frames_avail(hwptr as int, applptr as int, buffersize as int, boundary as int)
                == (hwptr + Self::lead(buffersize as int) - applptr) % (boundary as int),
    ;

    /// Number of frames available to read or to write.
    fn avail(hwptr: Frames, applptr: Frames, buffersize: Frames, boundary: Frames) -> (r: Frames)
        ensures
            r == Self::frames_avail(
                hwptr as int,
                applptr as int,
                buffersize as int,
                boundary as int,
            ),
    ;
}

/// The direction of a stream that plays.
#[derive(Copy, Clone, Debug)]
pub struct Playback;

impl MmapDir for Playback {
    const DIR: Direction = Direction::Playback;

    open spec fn direction() -> Direction {
        Direction::Playback
    }

    proof fn law_direction_is_dir() {
    }

    open spec fn lead(buffersize: int) -> int {
        buffersize
    }

    open spec fn frames_avail(hwptr: int, applptr: int, buffersize: int, boundary: int) -> int {
        let free = wrapped(hwptr + buffersize - applptr);
        let r = if free < 0 {
            wrapped(free + boundary)
        } else {
            free
        };
        if unsigned(r) >= unsigned(boundary) {
            wrapped(r - boundary)
        } else {
            r
        }
    }

    proof fn law_lead_is_within_buffer(buffersize: int) {
    }

    proof fn law_avail_counts_around_boundary(
        hwptr: Frames,
        applptr: Frames,
        buffersize: Frames,
        boundary: Frames,
    ) {
        lemma_one_turn(hwptr + buffersize - applptr, boundary as int);
    }

    #[inline]
    fn avail(hwptr: Frames, applptr: Frames, buffersize: Frames, boundary: Frames) -> (r: Frames)
        ensures
            0 <= hwptr < boundary && 0 <= applptr < boundary && 0 <= buffersize <= boundary && hwptr
                + buffersize - applptr <= isize::MAX ==> r == (hwptr + buffersize - applptr)
                % (boundary as int),
    {
        proof {
            if 0 <= hwptr < boundary && 0 <= applptr < boundary && 0 <= buffersize <= boundary {
                lemma_one_turn(hwptr + buffersize - applptr, boundary as int);
            }
        }
        let r: Frames = hwptr.wrapping_add(buffersize).wrapping_sub(applptr);
        let r: Frames = if r < 0 {
            r.wrapping_add(boundary)
        } else {
            r
        };
        if from_frames(r) >= from_frames(boundary) {
            r.wrapping_sub(boundary)
        } else {
            r
        }
    }
}

/// The direction of a stream that records.
#[derive(Copy, Clone, Debug)]
pub struct Capture;

impl MmapDir for Capture {
    const DIR: Direction = Direction::Capture;

    open spec fn direction() -> Direction {
        Direction::Capture
    }

    proof fn law_direction_is_dir() {
    }

    open spec fn lead(buffersize: int) -> int {
        0
    }

    open spec fn frames_avail(hwptr: int, applptr: int, buffersize: int, boundary: int) -> int {
        let recorded = wrapped(hwptr - applptr);
        if recorded < 0 {
            wrapped(recorded + boundary)
        } else {
            recorded
        }
    }

    proof fn law_lead_is_within_buffer(buffersize: int) {
    }

    proof fn law_avail_counts_around_boundary(
        hwptr: Frames,
        applptr: Frames,
        buffersize: Frames,
        boundary: Frames,
    ) {
        lemma_one_turn(hwptr - applptr, boundary as int);
    }

    #[inline]
    fn avail(hwptr: Frames, applptr: Frames, _buffersize: Frames, boundary: Frames) -> (r: Frames)
        ensures
            0 <= hwptr < boundary && 0 <= applptr < boundary ==> r == (hwptr - applptr) % (
            boundary as int),
    {
        proof {
            if 0 <= hwptr < boundary && 0 <= applptr < boundary {
                lemma_one_turn(hwptr - applptr, boundary as int);
            }
        }
        let r: Frames = hwptr.wrapping_sub(applptr);
        if r < 0 {
            r.wrapping_add(boundary)
        } else {
            r
        }
    }
}

/// A number less than one turn outside the ring comes back into it by one addition or subtraction.
pub proof fn lemma_one_turn(x: int, boundary: int)
    requires
        -boundary <= x < 2 * boundary,
    ensures
        x < 0 ==> x % boundary == x + boundary,
        0 <= x < boundary ==> x % boundary == x,
        boundary <= x ==> x % boundary == x - boundary,
{
    if x < 0 {
        lemma_small_mod((x + boundary) as nat, boundary as nat);
        lemma_mod_add_multiples_vanish(x, boundary);
    } else if x < boundary {
        lemma_small_mod(x as nat, boundary as nat);
    } else {
        lemma_small_mod((x - boundary) as nat, boundary as nat);
        lemma_mod_sub_multiples_vanish(x, boundary);
    }
}

/// A stream plays or records as its type says: an application that plays may be a buffer ahead of
/// the hardware, and one that records not at all.
pub proof fn law_directions_are_told_apart(buffersize: int)
    ensures
        Playback::DIR == Direction::Playback,
        Capture::DIR == Direction::Capture,
        Playback::direction() == Direction::Playback,
        Capture::direction() == Direction::Capture,
        Playback::lead(buffersize) == buffersize,
        Capture::lead(buffersize) == 0,
{
}

/// While the pointers are in the ring, an application that plays can write until it is a buffer
/// ahead of the hardware, and one that records can read until it has caught up with the hardware.
pub proof fn law_avail_is_what_is_left_to_go(
    hwptr: Frames,
    applptr: Frames,
    buffersize: Frames,
    boundary: Frames,
)
    requires
        0 <= hwptr < boundary,
        0 <= applptr < boundary,
        0 <= buffersize <= boundary,
    ensures
        ({
            let (hw, appl, buf, bound) = (
                hwptr as int,
                applptr as int,
                buffersize as int,
                boundary as int,
            );
            let (free, recorded) = (
                Playback::frames_avail(hw, appl, buf, bound),
                Capture::frames_avail(hw, appl, buf, bound),
            );
            &&& 0 <= recorded < bound
            &&& (appl + recorded) % bound == hw
            &&& hw + buf - appl <= isize::MAX ==> {
                &&& 0 <= free < bound
                &&& (appl + free) % bound == (hw + buf) % bound
            }
        }),
{
    let bound = boundary as int;
    lemma_one_turn(hwptr - applptr, bound);
    lemma_one_turn(hwptr + buffersize - applptr, bound);
    lemma_one_turn(hwptr as int, bound);
    lemma_one_turn(hwptr + bound, bound);
    lemma_one_turn(hwptr + buffersize, bound);
    lemma_mod_add_multiples_vanish(hwptr + buffersize, bound);
    lemma_mod_sub_multiples_vanish(hwptr + buffersize, bound);
}

/// Whatever the pointers, what is available to an application that records is the way from its
/// pointer to that of the hardware, and a turn of the boundary more where that is negative. All
/// sums are taken up to whole turns of the machine's numbers.
pub proof fn law_capture_avail_of_any_pointers(
    hwptr: Frames,
    applptr: Frames,
    buffersize: Frames,
    boundary: Frames,
    way: Frames,
)
    requires
        way == hwptr - applptr || way == hwptr - applptr + usize::MAX + 1 || way == hwptr - applptr
            - usize::MAX - 1,
    ensures
        ({
            let r = Capture::frames_avail(
                hwptr as int,
                applptr as int,
                buffersize as int,
                boundary as int,
            );
            let turned = way + boundary;
            &&& isize::MIN <= r <= isize::MAX
            &&& way >= 0 ==> r == way
            &&& way < 0 ==> r == turned || r == turned + usize::MAX + 1 || r == turned - usize::MAX
                - 1
        }),
{
}

/// Whatever the pointers, what is available to an application that plays is the way from its
/// pointer to a buffer beyond that of the hardware, a turn of the boundary more where that is
/// negative, and a turn less where the boundary is not above that, both read as words. All sums are
/// taken up to whole turns of the machine's numbers.
pub proof fn law_playback_avail_of_any_pointers(
    hwptr: Frames,
    applptr: Frames,
    buffersize: Frames,
    boundary: Frames,
    way: Frames,
    turned: Frames,
)
    requires
        ({
            let x = hwptr + buffersize - applptr;
            way == x || way == x + usize::MAX + 1 || way == x - usize::MAX - 1
        }),
        way >= 0 ==> turned == way,
        way < 0 ==> turned == way + boundary || turned == way + boundary - usize::MAX - 1 || turned
            == way + boundary + usize::MAX + 1,
    ensures
        ({
            let r = Playback::frames_avail(
                hwptr as int,
                applptr as int,
                buffersize as int,
                boundary as int,
            );
            let beyond = if turned < 0 {
                boundary >= 0 || turned >= boundary
            } else {
                boundary >= 0 && turned >= boundary
            };
            let less = turned - boundary;
            &&& isize::MIN <= r <= isize::MAX
            &&& !beyond ==> r == turned
            &&& beyond ==> r == less || r == less + usize::MAX + 1 || r == less - usize::MAX - 1
        }),
{
}

} // verus!
