//! Byte streams on the wire: how payloads are framed, and what a read
//! returns from a stream.

use vstd::prelude::*;
use vstd::utf8::encode_utf8;
use crate::protocol::length_prefix;
use crate::token::MAX_MSG_SIZE;

verus! {

/// Whether a payload can travel in one frame: its encoding is not empty and
/// not longer than `MAX_MSG_SIZE`.
pub open spec fn framable(payload: Seq<char>) -> bool {
    0 < encode_utf8(payload).len() <= MAX_MSG_SIZE
}

/// The frame that carries `payload`: the length of its encoding, then the
/// encoding.
pub open spec fn frame(payload: Seq<char>) -> Seq<u8> {
    length_prefix(encode_utf8(payload).len()) + encode_utf8(payload)
}

/// The frames that carry `payloads`, one after the other.
pub open spec fn frames(payloads: Seq<Seq<char>>) -> Seq<u8>
    decreases payloads.len(),
{
    if payloads.len() == 0 {
        Seq::empty()
    } else {
        frame(payloads[0]) + frames(payloads.drop_first())
    }
}

/// The frame of length zero, which ends a command.
pub open spec fn terminator() -> Seq<u8> {
    seq![0u8, 0u8, 0u8, 0u8]
}

/// What a read that asks for `want` bytes returns from `stream`: that many
/// bytes while the stream has them, else all that is left.
pub open spec fn received(stream: Seq<u8>, want: usize) -> Seq<u8> {
    if want as nat <= stream.len() {
        stream.take(want as int)
    } else {
        stream
    }
}

} // verus!
