//! Interest-flag bitsets: readable, writable, hangup and error, in the three
//! representations the bridge moves between.
//!
//! The foreign side speaks a flag word (`PA_IO_EVENT_*` bits), the reactor
//! speaks a readiness set, and the level-triggered re-check speaks the raw OS
//! poll-event word.  The library's own representation of a readiness set is
//! [`Interest`]; the conversion functions below move values between it and the
//! two foreign words, and are exact in both directions.

use vstd::prelude::*;

verus! {

/// Flag bit of the foreign word: the descriptor is readable.
pub const PA_IO_EVENT_INPUT: u32 = 1;
/// Flag bit of the foreign word: the descriptor is writable.
pub const PA_IO_EVENT_OUTPUT: u32 = 2;
/// Flag bit of the foreign word: the peer hung up.
pub const PA_IO_EVENT_HANGUP: u32 = 4;
/// Flag bit of the foreign word: the descriptor is in an error state.
pub const PA_IO_EVENT_ERROR: u32 = 8;

/// OS poll-event bit: data may be read.
pub const POLL_IN: u16 = 1;
/// OS poll-event bit: data may be written.
pub const POLL_OUT: u16 = 4;
/// OS poll-event bit: error condition.
pub const POLL_ERR: u16 = 8;
/// OS poll-event bit: the peer hung up.
pub const POLL_HUP: u16 = 16;

/// A set of interest directions on one descriptor: the library's own readiness
/// representation.
#[derive(Clone, Copy, Debug, PartialEq, Eq, Structural)]
pub struct Interest {
    /// Readable.
    pub read: bool,
    /// Writable.
    pub write: bool,
    /// Peer hung up.
    pub hangup: bool,
    /// Error condition.
    pub error: bool,
}

impl Interest {
    /// The empty set of directions.
    pub fn empty() -> (r: Interest)
        ensures
            r == (Interest { read: false, write: false, hangup: false, error: false }),
    {
        Interest { read: false, write: false, hangup: false, error: false }
    }

    /// True when no direction is set.
    pub open spec fn spec_is_empty(self) -> bool {
        !self.read && !self.write && !self.hangup && !self.error
    }

    /// True when no direction is set.
    pub fn is_empty(self) -> (r: bool)
        ensures
            r == self.spec_is_empty(),
    {
        !self.read && !self.write && !self.hangup && !self.error
    }

    /// The union of two direction sets.
    pub open spec fn spec_union(self, other: Interest) -> Interest {
        Interest {
            read: self.read || other.read,
            write: self.write || other.write,
            hangup: self.hangup || other.hangup,
            error: self.error || other.error,
        }
    }

    /// The union of two direction sets.
    pub fn union(self, other: Interest) -> (r: Interest)
        ensures
            r == self.spec_union(other),
    {
        Interest {
            read: self.read || other.read,
            write: self.write || other.write,
            hangup: self.hangup || other.hangup,
            error: self.error || other.error,
        }
    }

    /// The intersection of two direction sets.
    pub open spec fn spec_intersect(self, other: Interest) -> Interest {
        Interest {
            read: self.read && other.read,
            write: self.write && other.write,
            hangup: self.hangup && other.hangup,
            error: self.error && other.error,
        }
    }

    /// The intersection of two direction sets.
    pub fn intersect(self, other: Interest) -> (r: Interest)
        ensures
            r == self.spec_intersect(other),
    {
        Interest {
            read: self.read && other.read,
            write: self.write && other.write,
            hangup: self.hangup && other.hangup,
            error: self.error && other.error,
        }
    }

    /// True when any direction other than writable is set: those are the
    /// directions the reactor re-arms together as its read-side interest.
    pub open spec fn spec_has_read_side(self) -> bool {
        self.read || self.hangup || self.error
    }

    /// True when any direction other than writable is set.
    pub fn has_read_side(self) -> (r: bool)
        ensures
            r == self.spec_has_read_side(),
    {
        self.read || self.hangup || self.error
    }
}

/// The direction set encoded by a foreign flag word: one field per
/// `PA_IO_EVENT_*` bit.
pub open spec fn pulse_word_directions(flags: u32) -> Interest {
    Interest {
        read: flags & PA_IO_EVENT_INPUT != 0,
        write: flags & PA_IO_EVENT_OUTPUT != 0,
        hangup: flags & PA_IO_EVENT_HANGUP != 0,
        error: flags & PA_IO_EVENT_ERROR != 0,
    }
}

/// The direction set encoded by an OS poll-event word: one field per `POLL_*`
/// bit.
pub open spec fn poll_word_directions(flags: u16) -> Interest {
    Interest {
        read: flags & POLL_IN != 0,
        write: flags & POLL_OUT != 0,
        hangup: flags & POLL_HUP != 0,
        error: flags & POLL_ERR != 0,
    }
}

/// Decodes the foreign flag word into a direction set.
pub fn pulse_to_mio(flags: u32) -> (r: Interest)
    ensures
        r == pulse_word_directions(flags),
{
    Interest {
        read: flags & PA_IO_EVENT_INPUT != 0,
        write: flags & PA_IO_EVENT_OUTPUT != 0,
        hangup: flags & PA_IO_EVENT_HANGUP != 0,
        error: flags & PA_IO_EVENT_ERROR != 0,
    }
}

/// Encodes a direction set as the foreign flag word.
///
/// The result decodes back to the same set, so the encoding loses nothing.
pub fn mio_to_pulse(flags: Interest) -> (r: u32)
    ensures
        pulse_word_directions(r) == flags,
        r < 16,
{
    let ret: u32 = (if flags.read { 1u32 } else { 0u32 }) | (if flags.write { 2u32 } else { 0u32 })
        | (if flags.hangup { 4u32 } else { 0u32 }) | (if flags.error { 8u32 } else { 0u32 });
    proof {
        lemma_pulse_word_encoding(flags.read, flags.write, flags.hangup, flags.error);
    }
    ret
}

/// Encodes a direction set as an OS poll-event word, as handed to the
/// non-blocking readiness re-check.
pub fn mio_to_poll(flags: Interest) -> (r: u16)
    ensures
        poll_word_directions(r) == flags,
        r < 32,
        r & 2 == 0,
{
    let ret: u16 = (if flags.read { 1u16 } else { 0u16 }) | (if flags.write { 4u16 } else { 0u16 })
        | (if flags.hangup { 16u16 } else { 0u16 }) | (if flags.error { 8u16 } else { 0u16 });
    proof {
        lemma_poll_word_encoding(flags.read, flags.write, flags.hangup, flags.error);
    }
    ret
}

/// Decodes an OS poll-event word, as reported back by the readiness re-check.
pub fn poll_to_mio(flags: u16) -> (r: Interest)
    ensures
        r == poll_word_directions(flags),
{
    Interest {
        read: flags & POLL_IN != 0,
        write: flags & POLL_OUT != 0,
        hangup: flags & POLL_HUP != 0,
        error: flags & POLL_ERR != 0,
    }
}

/// The word built by `mio_to_pulse` carries exactly the four requested bits.
proof fn lemma_pulse_word_encoding(read: bool, write: bool, hangup: bool, error: bool)
    by (bit_vector)
    ensures
        (((if read { 1u32 } else { 0u32 }) | (if write { 2u32 } else { 0u32 })
            | (if hangup { 4u32 } else { 0u32 }) | (if error { 8u32 } else { 0u32 })) & 1 != 0)
            == read,
        (((if read { 1u32 } else { 0u32 }) | (if write { 2u32 } else { 0u32 })
            | (if hangup { 4u32 } else { 0u32 }) | (if error { 8u32 } else { 0u32 })) & 2 != 0)
            == write,
        (((if read { 1u32 } else { 0u32 }) | (if write { 2u32 } else { 0u32 })
            | (if hangup { 4u32 } else { 0u32 }) | (if error { 8u32 } else { 0u32 })) & 4 != 0)
            == hangup,
        (((if read { 1u32 } else { 0u32 }) | (if write { 2u32 } else { 0u32 })
            | (if hangup { 4u32 } else { 0u32 }) | (if error { 8u32 } else { 0u32 })) & 8 != 0)
            == error,
        ((if read { 1u32 } else { 0u32 }) | (if write { 2u32 } else { 0u32 })
            | (if hangup { 4u32 } else { 0u32 }) | (if error { 8u32 } else { 0u32 })) < 16,
{
}

/// The word built by `mio_to_poll` carries exactly the four requested bits.
proof fn lemma_poll_word_encoding(read: bool, write: bool, hangup: bool, error: bool)
    by (bit_vector)
    ensures
        (((if read { 1u16 } else { 0u16 }) | (if write { 4u16 } else { 0u16 })
            | (if hangup { 16u16 } else { 0u16 }) | (if error { 8u16 } else { 0u16 })) & 1 != 0)
            == read,
        (((if read { 1u16 } else { 0u16 }) | (if write { 4u16 } else { 0u16 })
            | (if hangup { 16u16 } else { 0u16 }) | (if error { 8u16 } else { 0u16 })) & 4 != 0)
            == write,
        (((if read { 1u16 } else { 0u16 }) | (if write { 4u16 } else { 0u16 })
            | (if hangup { 16u16 } else { 0u16 }) | (if error { 8u16 } else { 0u16 })) & 16 != 0)
            == hangup,
        (((if read { 1u16 } else { 0u16 }) | (if write { 4u16 } else { 0u16 })
            | (if hangup { 16u16 } else { 0u16 }) | (if error { 8u16 } else { 0u16 })) & 8 != 0)
            == error,
        ((if read { 1u16 } else { 0u16 }) | (if write { 4u16 } else { 0u16 })
            | (if hangup { 16u16 } else { 0u16 }) | (if error { 8u16 } else { 0u16 })) < 32,
        ((if read { 1u16 } else { 0u16 }) | (if write { 4u16 } else { 0u16 })
            | (if hangup { 16u16 } else { 0u16 }) | (if error { 8u16 } else { 0u16 })) & 2 == 0,
{
}

} // verus!
