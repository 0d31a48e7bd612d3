//! A whole connection, from its first poll to its end: the transitions that
//! the server makes when a peer sends a stream of bytes and closes.

use vstd::prelude::*;
use vstd::utf8::{encode_utf8, encode_utf8_decode_utf8, encode_utf8_valid_utf8};
use crate::backlog::Request;
use crate::model::{token_buffer, DropReason, ReactionModel, ServerModel};
use crate::protocol::{
    lemma_length_prefix_round_trip,
    length_prefix,
    verdict,
    FrameError,
    Verdict,
};
use crate::store::{outcome_of, store_after};
use crate::stream::{frame, frames, framable, received, terminator};
use crate::token::{MessageState, Token, BUFFER_CAPACITY, HEADER_SIZE, MAX_MSG_SIZE};

verus! {

/// The bytes of a buffer after a receive wrote `data` at its start.
pub open spec fn filled(before: Seq<u8>, data: Seq<u8>) -> Seq<u8> {
    data + before.skip(data.len() as int)
}

impl ServerModel {
    /// The pending read of token `key` completes after receiving `data`: the
    /// bytes are in its buffer, and the completion carries their number.
    pub open spec fn receive(self, key: usize, data: Seq<u8>) -> (Self, ReactionModel) {
        let buf_index = token_buffer(self.tokens.get(key))->0;
        self.written(buf_index, filled(self.pool.bytes(buf_index), data)).step(
            key as u64,
            data.len() as i32,
        )
    }

    /// What becomes of the connection whose read is pending under `key` when
    /// its peer sends `stream` and then closes, and no other completion
    /// arrives meanwhile: each read receives what it asked for, or what is
    /// left of the stream; each poll completes at once.
    pub open spec fn serve(self, key: usize, stream: Seq<u8>) -> (Self, ReactionModel)
        decreases stream.len(),
    {
        match self.tokens.get(key) {
            Token::Read { want, .. } => {
                let data = received(stream, want);
                let (next, reaction) = self.receive(key, data);
                if data.len() == 0 {
                    (next, reaction)
                } else {
                    let rest = stream.skip(data.len() as int);
                    match reaction {
                        ReactionModel::Submit(Request::Recv { .. }) => next.serve(key, rest),
                        ReactionModel::Submit(Request::PollAdd { .. }) => next.step(
                            key as u64,
                            1,
                        ).0.serve(key, rest),
                        _ => (next, reaction),
                    }
                }
            },
            _ => (self, ReactionModel::Stale),
        }
    }

    /// Whether `key` is the poll token, in the header phase, of connection
    /// `fd`, in a state that satisfies the invariant and in which the
    /// identifier of the next buffer is a machine integer.
    pub open spec fn idle(self, key: usize, fd: i32) -> bool {
        &&& self.inv()
        &&& self.tokens.contains(key)
        &&& self.tokens.get(key) == (Token::Poll { fd, state: MessageState::Header })
        &&& self.pool.acquire_id() <= usize::MAX
    }

    /// Whether `key` is the read token of connection `fd`, in phase `state`
    /// and asking for `want` bytes, in a state that satisfies the invariant.
    pub open spec fn reading(self, key: usize, fd: i32, state: MessageState, want: usize) -> bool {
        &&& self.inv()
        &&& self.tokens.contains(key)
        &&& self.tokens.get(key) matches Token::Read { fd: f, state: s, want: w, .. }
        &&& f == fd
        &&& s == state
        &&& w == want
    }

    /// Whether the commands of connection `fd`, the store and the backlog are
    /// the same in `self` and `other`.
    pub open spec fn same_data(self, other: Self, fd: i32) -> bool {
        &&& self.conns.contains_key(fd)
        &&& other.conns.contains_key(fd)
        &&& self.conns[fd].commands == other.conns[fd].commands
        &&& self.store == other.store
        &&& self.backlog == other.backlog
    }

    /// Whether connection `fd` and its token `key` are gone from a state
    /// that satisfies the invariant.
    pub open spec fn forgot(self, key: usize, fd: i32) -> bool {
        &&& self.inv()
        &&& !self.conns.contains_key(fd)
        &&& !self.tokens.contains(key)
    }

    /// When an idle connection becomes readable, a read of a header is
    /// pending for it, and its commands and the store are as before.
    pub proof fn lemma_readable(self, key: usize, fd: i32)
        requires
            self.idle(key, fd),
        ensures
            self.step(key as u64, 1).0.reading(key, fd, MessageState::Header, HEADER_SIZE),
            self.step(key as u64, 1).0.same_data(self, fd),
    {
        let buf = self.pool.acquire_id() as usize;
        self.lemma_poll_inv(key, fd, MessageState::Header);
        self.tokens.lemma_set(
            key,
            Token::Read { fd, buf_index: buf, state: MessageState::Header, want: HEADER_SIZE },
        );
    }

    /// A read that receives `data` is decided by the protocol's verdict on
    /// exactly those bytes.
    ///
    /// On `Close` the commands of the connection are run and the connection
    /// is forgotten. On a header the same token asks for the payload. On a
    /// payload the commands grow by it and the connection is idle again. On
    /// malformed input the connection is forgotten and the store is as it
    /// was.
    pub proof fn lemma_receive(
        self,
        key: usize,
        fd: i32,
        state: MessageState,
        want: usize,
        data: Seq<u8>,
    )
        requires
            self.reading(key, fd, state, want),
            data.len() <= BUFFER_CAPACITY,
        ensures
            ({
                let (next, reaction) = self.receive(key, data);
                let commands = self.conns[fd].commands;
                match verdict(state, want, data) {
                    Verdict::Close => {
                        &&& reaction == (ReactionModel::Closed {
                            fd,
                            outcome: outcome_of(commands, self.store),
                        })
                        &&& next.store == store_after(commands, self.store)
                        &&& next.forgot(key, fd)
                    },
                    Verdict::Payload(len) => {
                        &&& reaction matches ReactionModel::Submit(Request::Recv { .. })
                        &&& next.reading(key, fd, MessageState::Message, len)
                        &&& next.same_data(self, fd)
                    },
                    Verdict::Message(payload) => {
                        &&& reaction matches ReactionModel::Submit(Request::PollAdd { .. })
                        &&& next.idle(key, fd)
                        &&& next.conns[fd].commands == commands.push(payload)
                        &&& next.store == self.store
                        &&& next.backlog == self.backlog
                    },
                    Verdict::Malformed(e) => {
                        &&& reaction == (ReactionModel::Dropped { fd, reason: DropReason::Frame(e) })
                        &&& next.store == self.store
                        &&& next.forgot(key, fd)
                    },
                }
            }),
    {
        let buf = token_buffer(self.tokens.get(key))->0;
        let n = data.len() as usize;
        assert(self.pool.buffers.contains(buf));
        let bytes = filled(self.pool.bytes(buf), data);
        let w = self.written(buf, bytes);
        self.lemma_write_inv(buf);
        self.pool.lemma_write_any(buf);
        assert(w.inv());
        assert(w.pool.bytes(buf).take(n as int) =~= data);
        w.lemma_read_inv(key, fd, buf, state, want, n);
        match verdict(state, want, data) {
            Verdict::Close => {
                w.tokens.lemma_remove(key);
            },
            Verdict::Payload(len) => {
                w.tokens.lemma_set(
                    key,
                    Token::Read { fd, buf_index: buf, state: MessageState::Message, want: len },
                );
            },
            Verdict::Message(payload) => {
                w.tokens.lemma_set(key, Token::Poll { fd, state: MessageState::Header });
                w.pool.lemma_release(buf);
            },
            Verdict::Malformed(e) => {
                w.tokens.lemma_remove(key);
            },
        }
    }

    /// The state after an idle connection became readable and received the
    /// frame that carries `payload`.
    pub open spec fn after_frame(self, key: usize, payload: Seq<char>) -> Self {
        let bytes = encode_utf8(payload);
        self.step(key as u64, 1).0.receive(key, length_prefix(bytes.len())).0.receive(key, bytes).0
    }

    /// An idle connection that receives a whole frame is idle again, with the
    /// frame's payload appended to its commands and the store untouched.
    pub proof fn lemma_after_frame(self, key: usize, fd: i32, payload: Seq<char>, tail: Seq<u8>)
        requires
            self.idle(key, fd),
            framable(payload),
        ensures
            self.after_frame(key, payload).idle(key, fd),
            self.after_frame(key, payload).conns[fd].commands == self.conns[fd].commands.push(
                payload,
            ),
            self.after_frame(key, payload).store == self.store,
            self.after_frame(key, payload).backlog == self.backlog,
            self.step(key as u64, 1).0.serve(key, frame(payload) + tail) == self.after_frame(
                key,
                payload,
            ).step(key as u64, 1).0.serve(key, tail),
    {
        broadcast use {encode_utf8_decode_utf8, encode_utf8_valid_utf8};

        let bytes = encode_utf8(payload);
        let len = bytes.len() as usize;
        let header = length_prefix(bytes.len());
        lemma_length_prefix_round_trip(bytes.len());

        let s1 = self.step(key as u64, 1).0;
        self.lemma_readable(key, fd);
        s1.lemma_receive(key, fd, MessageState::Header, HEADER_SIZE, header);
        let s2 = s1.receive(key, header).0;
        s2.lemma_receive(key, fd, MessageState::Message, len, bytes);
        let s3 = s2.receive(key, bytes).0;

        let stream = frame(payload) + tail;
        assert(received(stream, HEADER_SIZE) =~= header);
        let rest = stream.skip(HEADER_SIZE as int);
        assert(rest =~= bytes + tail);
        assert(s1.serve(key, stream) == s2.serve(key, rest));
        assert(received(rest, len) =~= bytes);
        assert(rest.skip(len as int) =~= tail);
        assert(s2.serve(key, rest) == s3.step(key as u64, 1).0.serve(key, tail));
    }

    /// An idle connection that receives whole frames decodes their payloads
    /// in order and goes on with what follows them, from the state that this
    /// lemma returns.
    pub proof fn lemma_serve_frames(
        self,
        key: usize,
        fd: i32,
        payloads: Seq<Seq<char>>,
        tail: Seq<u8>,
    ) -> (after: Self)
        requires
            self.idle(key, fd),
            forall|i: int| 0 <= i < payloads.len() ==> framable(#[trigger] payloads[i]),
        ensures
            after.idle(key, fd),
            after.conns[fd].commands == self.conns[fd].commands + payloads,
            after.store == self.store,
            after.backlog == self.backlog,
            self.step(key as u64, 1).0.serve(key, frames(payloads) + tail) == after.step(
                key as u64,
                1,
            ).0.serve(key, tail),
        decreases payloads.len(),
    {
        if payloads.len() == 0 {
            assert(frames(payloads) + tail =~= tail);
            assert(self.conns[fd].commands + payloads =~= self.conns[fd].commands);
            self
        } else {
            let first = payloads[0];
            let others = payloads.drop_first();
            self.lemma_after_frame(key, fd, first, frames(others) + tail);
            assert(frames(payloads) + tail =~= frame(first) + (frames(others) + tail));
            assert forall|i: int| 0 <= i < others.len() implies framable(#[trigger] others[i]) by {
                assert(others[i] == payloads[i + 1]);
            }
            let after = self.after_frame(key, first).lemma_serve_frames(key, fd, others, tail);
            assert(self.conns[fd].commands.push(first) + others =~= self.conns[fd].commands
                + payloads);
            after
        }
    }

    /// A connection that sends frames and then the frame of length zero has
    /// exactly the framed payloads decoded, in the order in which they were
    /// sent, after whatever it had decoded before; they are run as one
    /// command against the store, and the connection is closed and forgotten.
    pub proof fn lemma_framed_stream_runs_its_payloads(
        self,
        key: usize,
        fd: i32,
        payloads: Seq<Seq<char>>,
    )
        requires
            self.idle(key, fd),
            forall|i: int| 0 <= i < payloads.len() ==> framable(#[trigger] payloads[i]),
        ensures
            ({
                let command = self.conns[fd].commands + payloads;
                let end = self.step(key as u64, 1).0.serve(key, frames(payloads) + terminator());
                &&& end.1 == (ReactionModel::Closed { fd, outcome: outcome_of(command, self.store) })
                &&& end.0.store == store_after(command, self.store)
                &&& end.0.forgot(key, fd)
            }),
    {
        let after = self.lemma_serve_frames(key, fd, payloads, terminator());
        let s1 = after.step(key as u64, 1).0;
        after.lemma_readable(key, fd);
        assert(received(terminator(), HEADER_SIZE) =~= terminator());
        s1.lemma_receive(key, fd, MessageState::Header, HEADER_SIZE, terminator());
        assert(s1.serve(key, terminator()) == s1.receive(key, terminator()));
    }

    /// A connection whose last header declares more bytes than ever follow
    /// it, some but not all of them arriving: the connection is torn down and
    /// forgotten, and nothing is run, neither the partial payload nor the
    /// payloads decoded before it. The store is as it was.
    pub proof fn lemma_short_payload_is_never_run(
        self,
        key: usize,
        fd: i32,
        payloads: Seq<Seq<char>>,
        declared: usize,
        partial: Seq<u8>,
    )
        requires
            self.idle(key, fd),
            forall|i: int| 0 <= i < payloads.len() ==> framable(#[trigger] payloads[i]),
            0 < declared <= MAX_MSG_SIZE,
            0 < partial.len() < declared,
        ensures
            ({
                let stream = frames(payloads) + (length_prefix(declared as nat) + partial);
                let end = self.step(key as u64, 1).0.serve(key, stream);
                &&& end.1 == (ReactionModel::Dropped {
                    fd,
                    reason: DropReason::Frame(FrameError::PayloadLength),
                })
                &&& end.0.store == self.store
                &&& end.0.forgot(key, fd)
            }),
    {
        let header = length_prefix(declared as nat);
        let tail = header + partial;
        let after = self.lemma_serve_frames(key, fd, payloads, tail);
        lemma_length_prefix_round_trip(declared as nat);

        let s1 = after.step(key as u64, 1).0;
        after.lemma_readable(key, fd);
        assert(received(tail, HEADER_SIZE) =~= header);
        s1.lemma_receive(key, fd, MessageState::Header, HEADER_SIZE, header);
        let s2 = s1.receive(key, header).0;
        let rest = tail.skip(HEADER_SIZE as int);
        assert(rest =~= partial);
        assert(s1.serve(key, tail) == s2.serve(key, rest));

        assert(received(rest, declared) =~= partial);
        s2.lemma_receive(key, fd, MessageState::Message, declared, partial);
        assert(s2.serve(key, rest) == s2.receive(key, partial));
    }

    /// A connection whose last header declares a payload of which no byte
    /// ever follows: the read for the payload returns nothing, which ends the
    /// connection in order. The command that is run holds the payloads that
    /// arrived whole, and nothing of the frame that was cut off.
    pub proof fn lemma_missing_payload_is_not_run(
        self,
        key: usize,
        fd: i32,
        payloads: Seq<Seq<char>>,
        declared: usize,
    )
        requires
            self.idle(key, fd),
            forall|i: int| 0 <= i < payloads.len() ==> framable(#[trigger] payloads[i]),
            0 < declared <= MAX_MSG_SIZE,
        ensures
            ({
                let command = self.conns[fd].commands + payloads;
                let stream = frames(payloads) + length_prefix(declared as nat);
                let end = self.step(key as u64, 1).0.serve(key, stream);
                &&& end.1 == (ReactionModel::Closed { fd, outcome: outcome_of(command, self.store) })
                &&& end.0.store == store_after(command, self.store)
                &&& end.0.forgot(key, fd)
            }),
    {
        let header = length_prefix(declared as nat);
        let after = self.lemma_serve_frames(key, fd, payloads, header);
        lemma_length_prefix_round_trip(declared as nat);

        let s1 = after.step(key as u64, 1).0;
        after.lemma_readable(key, fd);
        assert(received(header, HEADER_SIZE) =~= header);
        s1.lemma_receive(key, fd, MessageState::Header, HEADER_SIZE, header);
        let s2 = s1.receive(key, header).0;
        let rest = header.skip(HEADER_SIZE as int);
        assert(rest =~= Seq::<u8>::empty());
        assert(s1.serve(key, header) == s2.serve(key, rest));

        assert(received(rest, declared) =~= Seq::<u8>::empty());
        s2.lemma_receive(key, fd, MessageState::Message, declared, Seq::<u8>::empty());
        assert(s2.serve(key, rest) == s2.receive(key, Seq::<u8>::empty()));
    }
}

} // verus!
