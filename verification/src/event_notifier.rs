//! The doorbell primitive: a kernel object that one side signals and the
//! other drains.
//!
//! Two backends offer the same doorbell: a counting object, whose single
//! descriptor is both ends, and a pipe, which has one descriptor per end. The
//! system calls are the caller's; this module holds the descriptors, says
//! which call to make next, and judges what a call returned.

use vstd::prelude::*;

verus! {

/// Number of bytes that one drain asks for at most.
pub const DRAIN_LEN: usize = 512;

/// A doorbell, by the descriptors of its two ends.
#[derive(Clone, Copy, Debug, PartialEq, Eq)]
pub enum EventNotifier {
    /// A counting object: one descriptor serves as both ends.
    Event(i32),
    /// A pipe pair.
    Pipe { read: i32, write: i32 },
}

/// Why a doorbell could not be made.
#[derive(Clone, Copy, Debug, PartialEq, Eq)]
pub enum NotifierError {
    /// Creating the counting object failed; holds what the call returned.
    Eventfd(i32),
    /// Creating the pipe pair failed; holds what the call returned.
    Pipe(i32),
}

/// The signalling write failed for a reason other than an interruption.
#[derive(Clone, Copy, Debug, PartialEq, Eq)]
pub struct SetFailed;

/// What follows one attempt at a system call that a signal may interrupt.
#[derive(Debug, PartialEq, Eq)]
pub enum Attempt<T> {
    /// The call was interrupted: make it again.
    Retry,
    /// The operation is over, with this result.
    Done(T),
}

/// The unsigned integer that eight bytes spell in little-endian order.
pub open spec fn le_u64(b: Seq<u8>) -> int
    recommends
        b.len() == 8,
{
    b[0] as int + 0x100 * (b[1] as int) + 0x1_0000 * (b[2] as int) + 0x100_0000 * (b[3] as int)
        + 0x1_0000_0000 * (b[4] as int) + 0x100_0000_0000 * (b[5] as int) + 0x1_0000_0000_0000 * (
    b[6] as int) + 0x100_0000_0000_0000 * (b[7] as int)
}

/// The eight bytes that ring a doorbell: the value 1.
pub open spec fn kick_bytes() -> Seq<u8> {
    seq![1u8, 0u8, 0u8, 0u8, 0u8, 0u8, 0u8, 0u8]
}

/// The payload that is written to ring a doorbell: always the value 1, as a
/// little-endian unsigned 64-bit integer.
pub fn kick() -> (payload: [u8; 8])
    ensures
        payload@ == kick_bytes(),
        le_u64(payload@) == 1,
{
    let payload: [u8; 8] = [1, 0, 0, 0, 0, 0, 0, 0];
    assert(payload@ =~= kick_bytes());
    payload
}

/// Reads eight bytes as a little-endian unsigned 64-bit integer.
pub fn u64_from_le_bytes(bytes: &[u8; 8]) -> (value: u64)
    ensures
        value == le_u64(bytes@),
{
    bytes[0] as u64 + 0x100 * (bytes[1] as u64) + 0x1_0000 * (bytes[2] as u64) + 0x100_0000 * (
    bytes[3] as u64) + 0x1_0000_0000 * (bytes[4] as u64) + 0x100_0000_0000 * (bytes[5] as u64)
        + 0x1_0000_0000_0000 * (bytes[6] as u64) + 0x100_0000_0000_0000 * (bytes[7] as u64)
}

impl EventNotifier {
    /// The descriptor of the receive end.
    pub open spec fn read_end(self) -> i32 {
        match self {
            EventNotifier::Event(fd) => fd,
            EventNotifier::Pipe { read, .. } => read,
        }
    }

    /// The descriptor of the send end.
    pub open spec fn write_end(self) -> i32 {
        match self {
            EventNotifier::Event(fd) => fd,
            EventNotifier::Pipe { write, .. } => write,
        }
    }

    /// What creating a doorbell comes to, given what the kernel returned.
    pub open spec fn created(eventfd: bool, ret: i32, fds: Seq<i32>) -> Result<
        EventNotifier,
        NotifierError,
    > {
        if eventfd {
            if ret >= 0 {
                Ok(EventNotifier::Event(ret))
            } else {
                Err(NotifierError::Eventfd(ret))
            }
        } else {
            if ret == 0 {
                Ok(EventNotifier::Pipe { read: fds[0], write: fds[1] })
            } else {
                Err(NotifierError::Pipe(ret))
            }
        }
    }

    /// Makes a doorbell out of what the creating call returned.
    ///
    /// With `eventfd` the call was the one that creates a counting object,
    /// and `ret`, if it is not negative, is its descriptor. Without, the call
    /// was the one that creates a pipe: `ret` is zero on success and `fds`
    /// then holds the read end and the write end, in this order. Both kinds
    /// are to be created non-blocking and close-on-exec. The doorbell owns
    /// the descriptors it is made of.
    pub fn new(eventfd: bool, ret: i32, fds: [i32; 2]) -> (r: Result<EventNotifier, NotifierError>)
        ensures
            r == Self::created(eventfd, ret, fds@),
    {
        if eventfd {
            if ret >= 0 {
                Ok(EventNotifier::Event(ret))
            } else {
                Err(NotifierError::Eventfd(ret))
            }
        } else {
            if ret == 0 {
                Ok(EventNotifier::Pipe { read: fds[0], write: fds[1] })
            } else {
                Err(NotifierError::Pipe(ret))
            }
        }
    }

    /// The descriptor to read from. It stays the doorbell's own.
    pub fn rfd(&self) -> (fd: i32)
        ensures
            fd == self.read_end(),
    {
        match self {
            EventNotifier::Event(fd) => *fd,
            EventNotifier::Pipe { read, .. } => *read,
        }
    }

    /// The descriptor to write to. It stays the doorbell's own.
    pub fn wfd(&self) -> (fd: i32)
        ensures
            fd == self.write_end(),
    {
        match self {
            EventNotifier::Event(fd) => *fd,
            EventNotifier::Pipe { write, .. } => *write,
        }
    }

    /// The write that rings the doorbell: the descriptor of the send end and
    /// the eight bytes to write to it.
    pub fn set(&self) -> (request: (i32, [u8; 8]))
        ensures
            request.0 == self.write_end(),
            request.1@ == kick_bytes(),
    {
        (self.wfd(), kick())
    }

    /// What follows a signalling write that returned `ret`; `interrupted`
    /// says whether the error it left behind is an interruption.
    ///
    /// A failed write is made again if it was interrupted and is an error
    /// otherwise. A write that did not fail has rung the doorbell.
    pub fn set_done(ret: isize, interrupted: bool) -> (next: Attempt<Result<(), SetFailed>>)
        ensures
            next == (if ret < 0 && interrupted {
                Attempt::Retry
            } else if ret < 0 {
                Attempt::Done(Err(SetFailed))
            } else {
                Attempt::Done(Ok(()))
            }),
    {
        if ret < 0 && interrupted {
            Attempt::Retry
        } else if ret < 0 {
            Attempt::Done(Err(SetFailed))
        } else {
            Attempt::Done(Ok(()))
        }
    }

    /// The read that drains the doorbell: the descriptor of the receive end
    /// and the number of bytes to ask for.
    pub fn test_and_clear(&self) -> (request: (i32, usize))
        ensures
            request.0 == self.read_end(),
            request.1 == DRAIN_LEN,
    {
        (self.rfd(), DRAIN_LEN)
    }

    /// What follows a draining read that returned `len`; `interrupted` says
    /// whether the error it left behind is an interruption.
    ///
    /// A read that failed with an interruption is made again. Any other read
    /// ends the drain, and the doorbell had been rung if and only if bytes
    /// were read: a true error counts as not rung.
    pub fn test_and_clear_done(len: isize, interrupted: bool) -> (next: Attempt<bool>)
        ensures
            next == (if len == -1 && interrupted {
                Attempt::<bool>::Retry
            } else {
                Attempt::Done(len > 0)
            }),
    {
        if len == -1 && interrupted {
            Attempt::Retry
        } else {
            Attempt::Done(len > 0)
        }
    }
}

} // verus!
