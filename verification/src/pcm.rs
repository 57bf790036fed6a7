//! The vocabulary of PCM streams: frame counts, directions, access types and states.

use vstd::prelude::*;

verus! {

/// A number of frames, as the C type `long`, which on Linux has the width of a pointer.
pub type Frames = isize;

/// A file descriptor.
pub type RawFd = libc::c_int;

/// Whether a stream plays or records.
#[derive(Clone, Copy, Debug, PartialEq, Eq, Structural)]
pub enum Direction {
    Playback,
    Capture,
}

/// How an application gets at the samples of a stream.
#[derive(Clone, Copy, Debug, PartialEq, Eq, Structural)]
pub enum Access {
    MMapInterleaved,
    MMapNonInterleaved,
    MMapComplex,
    RWInterleaved,
    RWNonInterleaved,
}

/// The state of a PCM stream, in the order in which the kernel numbers them from zero.
#[derive(Clone, Copy, Debug, PartialEq, Eq, Structural)]
pub enum State {
    Open,
    Setup,
    Prepared,
    Running,
    XRun,
    Draining,
    Paused,
    Suspended,
    Disconnected,
}

impl State {
    /// The number that the kernel uses for this state.
    pub open spec fn number(self) -> int {
        match self {
            State::Open => 0,
            State::Setup => 1,
            State::Prepared => 2,
            State::Running => 3,
            State::XRun => 4,
            State::Draining => 5,
            State::Paused => 6,
            State::Suspended => 7,
            State::Disconnected => 8,
        }
    }

    /// The state that the kernel numbers `i`, if there is one.
    pub fn from_number(i: libc::c_int) -> (r: Option<State>)
        ensures
            r is Some <==> State::Open.number() <= i <= State::Disconnected.number(),
            r matches Some(s) ==> s.number() == i,
            r is None <==> i < 0 || 8 < i,
            r == Some(State::Open) <==> i == 0,
            r == Some(State::Setup) <==> i == 1,
            r == Some(State::Prepared) <==> i == 2,
            r == Some(State::Running) <==> i == 3,
            r == Some(State::XRun) <==> i == 4,
            r == Some(State::Draining) <==> i == 5,
            r == Some(State::Paused) <==> i == 6,
            r == Some(State::Suspended) <==> i == 7,
            r == Some(State::Disconnected) <==> i == 8,
    {
        match i {
            0 => Some(State::Open),
            1 => Some(State::Setup),
            2 => Some(State::Prepared),
            3 => Some(State::Running),
            4 => Some(State::XRun),
            5 => Some(State::Draining),
            6 => Some(State::Paused),
            7 => Some(State::Suspended),
            8 => Some(State::Disconnected),
            _ => None,
        }
    }
}

/// Reads a machine word as a signed number.
pub open spec fn signed(u: usize) -> int {
    if u <= isize::MAX {
        u as int
    } else {
        u - usize::MAX - 1
    }
}

/// Reads a signed number of the width of a machine word as an unsigned one.
pub open spec fn unsigned(f: int) -> int {
    if f < 0 {
        f + usize::MAX + 1
    } else {
        f
    }
}

/// Brings a sum that left the range of `Frames` by less than one turn back into it, as two's
/// complement arithmetic does.
pub open spec fn wrapped(x: int) -> int {
    if x > isize::MAX {
        x - usize::MAX - 1
    } else if x < isize::MIN {
        x + usize::MAX + 1
    } else {
        x
    }
}

/// Reads a pointer of the kernel's as a number of frames.
pub fn to_frames(u: usize) -> (r: Frames)
    ensures
        r == signed(u),
        r == u || r + usize::MAX + 1 == u,
{
    proof {
        assert(usize::BITS == 64 && u > 0x7fff_ffff_ffff_ffff ==> (u as isize) == u
            - 0x1_0000_0000_0000_0000) by (bit_vector);
        assert(usize::BITS == 32 && u > 0x7fff_ffff ==> (u as isize) == u - 0x1_0000_0000)
            by (bit_vector);
    }
    u as isize
}

/// Writes a number of frames as a pointer of the kernel's.
pub fn from_frames(f: Frames) -> (r: usize)
    ensures
        r == unsigned(f as int),
        r == f || r == f + usize::MAX + 1,
{
    proof {
        assert(usize::BITS == 64 && f < 0 ==> (f as usize) == f + 0x1_0000_0000_0000_0000)
            by (bit_vector);
        assert(usize::BITS == 32 && f < 0 ==> (f as usize) == f + 0x1_0000_0000)
            by (bit_vector);
    }
    f as usize
}

/// The states are numbered from zero on, in the order in which a stream comes to them.
pub proof fn law_states_are_numbered_in_order()
    ensures
        State::Open.number() == 0,
        State::Setup.number() == 1,
        State::Prepared.number() == 2,
        State::Running.number() == 3,
        State::XRun.number() == 4,
        State::Draining.number() == 5,
        State::Paused.number() == 6,
        State::Suspended.number() == 7,
        State::Disconnected.number() == 8,
{
}

/// To read a word as a signed number, or a signed number as a word, keeps it up to whole turns of
/// the machine's numbers.
pub proof fn law_words_keep_their_value(u: usize, f: Frames)
    ensures
        isize::MIN <= signed(u) <= isize::MAX,
        signed(u) == u || signed(u) + usize::MAX + 1 == u,
        0 <= unsigned(f as int) <= usize::MAX,
        unsigned(f as int) == f || unsigned(f as int) == f + usize::MAX + 1,
{
}

/// A number that is less than a turn out of range is brought back by one turn, and one in range
/// stays as it is.
pub proof fn law_wrapping_keeps_numbers_up_to_a_turn(x: int)
    requires
        isize::MIN - usize::MAX <= x + 1,
        x <= isize::MAX + usize::MAX + 1,
    ensures
        isize::MIN <= wrapped(x) <= isize::MAX,
        wrapped(x) == x || wrapped(x) == x + usize::MAX + 1 || wrapped(x) == x - usize::MAX - 1,
{
}

/// What is written as a pointer of the kernel's is read back unchanged.
pub proof fn law_frames_round_trip(f: Frames)
    ensures
        0 <= unsigned(f as int) <= usize::MAX,
        signed(unsigned(f as int) as usize) == f,
{
}

} // verus!
