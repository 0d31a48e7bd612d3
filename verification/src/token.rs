//! Operation tokens, connection phases and the sizes of the wire format.

use vstd::prelude::*;

verus! {

/// Largest payload length accepted for a single frame.
pub const MAX_MSG_SIZE: usize = 4096;

/// Number of bytes in a frame's length prefix.
pub const HEADER_SIZE: usize = 4;

/// Capacity of every pooled buffer: a header, a maximal payload, one spare byte.
pub const BUFFER_CAPACITY: usize = HEADER_SIZE + MAX_MSG_SIZE + 1;

/// Which part of a frame a connection is waiting for.
#[derive(Clone, Copy, Debug, PartialEq, Eq, Structural)]
pub enum MessageState {
    /// The four bytes of a length prefix.
    Header,
    /// The payload that the last header declared.
    Message,
}

/// The record kept for one pending operation.
#[derive(Clone, Copy, Debug, PartialEq, Eq, Structural)]
pub enum Token {
    /// The standing accept on the listening socket.
    Accept,
    /// A receive from connection `fd` into buffer `buf_index`, which asked
    /// for `want` bytes of the part `state`.
    Read { fd: i32, buf_index: usize, state: MessageState, want: usize },
    /// A wait for connection `fd` to become readable, in phase `state`.
    Poll { fd: i32, state: MessageState },
}

} // verus!
