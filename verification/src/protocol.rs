//! The wire format: frames of a 4-byte big-endian length followed by that
//! many bytes of UTF-8, a zero length ending the command.

use vstd::prelude::*;
use vstd::string::StringSliceAdditionalSpecFns;
use vstd::utf8::{decode_utf8, encode_utf8, valid_utf8};
use crate::token::{MessageState, HEADER_SIZE, MAX_MSG_SIZE};

verus! {

/// The number that four bytes spell in big-endian order.
pub open spec fn be_u32(bytes: Seq<u8>) -> nat
    recommends
        bytes.len() == 4,
{
    (bytes[0] as nat) * 16777216 + (bytes[1] as nat) * 65536 + (bytes[2] as nat) * 256 + (
    bytes[3] as nat)
}

/// The four bytes that spell `n` in big-endian order.
pub open spec fn length_prefix(n: nat) -> Seq<u8>
    recommends
        n <= u32::MAX,
{
    seq![
        (n / 16777216) as u8,
        ((n / 65536) % 256) as u8,
        ((n / 256) % 256) as u8,
        (n % 256) as u8,
    ]
}

/// A length prefix spells the number it was made from.
pub proof fn lemma_length_prefix_round_trip(n: nat)
    requires
        n <= u32::MAX,
    ensures
        length_prefix(n).len() == 4,
        be_u32(length_prefix(n)) == n,
{
}

/// Why a connection's input was refused.
#[derive(Clone, Copy, Debug, PartialEq, Eq, Structural)]
pub enum FrameError {
    /// A header read returned some bytes, but not four.
    HeaderLength,
    /// A header declared more than `MAX_MSG_SIZE` bytes.
    Oversize,
    /// A payload read returned some bytes, but not as many as the header declared.
    PayloadLength,
    /// A payload is not valid UTF-8.
    Utf8,
}

/// What the bytes of one completed read mean, as a mathematical value.
pub enum Verdict {
    /// End of the command: nothing was read, or the header declared length zero.
    Close,
    /// A header that declares a payload of this many bytes.
    Payload(usize),
    /// A complete payload, decoded.
    Message(Seq<char>),
    /// The input breaks the wire format.
    Malformed(FrameError),
}

/// What the bytes of one completed read mean.
pub enum ReadVerdict {
    /// End of the command: nothing was read, or the header declared length zero.
    Close,
    /// A header that declares a payload of this many bytes.
    Payload(usize),
    /// A complete payload, decoded.
    Message(String),
    /// The input breaks the wire format.
    Malformed(FrameError),
}

impl View for ReadVerdict {
    type V = Verdict;

    open spec fn view(&self) -> Verdict {
        match self {
            ReadVerdict::Close => Verdict::Close,
            ReadVerdict::Payload(n) => Verdict::Payload(*n),
            ReadVerdict::Message(s) => Verdict::Message(s@),
            ReadVerdict::Malformed(e) => Verdict::Malformed(*e),
        }
    }
}

/// The meaning of `data`, the bytes that a read returned, for a connection in
/// phase `state` whose read asked for `want` bytes.
///
/// No byte at all closes the connection. A header must be exactly four bytes;
/// length zero closes, a length above `MAX_MSG_SIZE` is refused. A payload
/// must be exactly the `want` bytes that its header declared, and valid UTF-8.
pub open spec fn verdict(state: MessageState, want: usize, data: Seq<u8>) -> Verdict {
    if data.len() == 0 {
        Verdict::Close
    } else {
        match state {
            MessageState::Header => {
                if data.len() != HEADER_SIZE {
                    Verdict::Malformed(FrameError::HeaderLength)
                } else if be_u32(data) == 0 {
                    Verdict::Close
                } else if be_u32(data) > MAX_MSG_SIZE {
                    Verdict::Malformed(FrameError::Oversize)
                } else {
                    Verdict::Payload(be_u32(data) as usize)
                }
            },
            MessageState::Message => {
                if data.len() != want {
                    Verdict::Malformed(FrameError::PayloadLength)
                } else if !valid_utf8(data) {
                    Verdict::Malformed(FrameError::Utf8)
                } else {
                    Verdict::Message(decode_utf8(data))
                }
            },
        }
    }
}

/// `std::str::from_utf8`: the bytes as a string slice when they are valid
/// UTF-8, in which case the slice's bytes are the given ones; `None` when
/// they are not.
#[verifier::external_body]
fn utf8_str(bytes: &[u8]) -> (r: Option<&str>)
    ensures
        r is Some <==> valid_utf8(bytes@),
        r is Some ==> (r->0).spec_bytes() == bytes@,
{
    match std::str::from_utf8(bytes) {
        Ok(s) => Some(s),
        Err(_) => None,
    }
}

/// Reads a length prefix: the big-endian number in `header`, or `None` unless
/// `header` is exactly four bytes long.
pub fn decode_length(header: &[u8]) -> (r: Option<u32>)
    ensures
        r is Some <==> header@.len() == HEADER_SIZE,
        r is Some ==> r->0 == be_u32(header@),
{
    if header.len() != HEADER_SIZE {
        return None;
    }
    let b0: u32 = header[0] as u32;
    let b1: u32 = header[1] as u32;
    let b2: u32 = header[2] as u32;
    let b3: u32 = header[3] as u32;
    Some(b0 * 16777216 + b1 * 65536 + b2 * 256 + b3)
}

/// Decodes a payload: the string that `payload` encodes, or `None` when it is
/// not valid UTF-8.
pub fn decode_payload(payload: &[u8]) -> (r: Option<String>)
    ensures
        r is Some <==> valid_utf8(payload@),
        r is Some ==> (r->0)@ == decode_utf8(payload@),
{
    broadcast use vstd::utf8::encode_utf8_decode_utf8;

    match utf8_str(payload) {
        Some(s) => {
            assert(decode_utf8(encode_utf8(s@)) == s@);
            Some(s.to_owned())
        },
        None => None,
    }
}

/// Interprets the bytes that a read returned for a connection in phase
/// `state` whose read asked for `want` bytes.
pub fn interpret(state: MessageState, want: usize, data: &[u8]) -> (v: ReadVerdict)
    ensures
        v@ == verdict(state, want, data@),
{
    if data.len() == 0 {
        return ReadVerdict::Close;
    }
    match state {
        MessageState::Header => {
            match decode_length(data) {
                None => ReadVerdict::Malformed(FrameError::HeaderLength),
                Some(len) => {
                    if len == 0 {
                        ReadVerdict::Close
                    } else if len as usize > MAX_MSG_SIZE {
                        ReadVerdict::Malformed(FrameError::Oversize)
                    } else {
                        ReadVerdict::Payload(len as usize)
                    }
                },
            }
        },
        MessageState::Message => {
            if data.len() != want {
                ReadVerdict::Malformed(FrameError::PayloadLength)
            } else {
                match decode_payload(data) {
                    Some(s) => ReadVerdict::Message(s),
                    None => ReadVerdict::Malformed(FrameError::Utf8),
                }
            }
        },
    }
}

} // verus!
