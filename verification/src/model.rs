//! The server as a mathematical state machine: its state, the transition
//! that one completion causes, and the invariant that every transition keeps.

use vstd::prelude::*;
use crate::backlog::Request;
use crate::conns::ConnModel;
use crate::pool::PoolModel;
use crate::protocol::{verdict, FrameError, Verdict};
use crate::slots::SlotModel;
use crate::store::{outcome_of, store_after, OutcomeModel};
use crate::token::{MessageState, Token, HEADER_SIZE, MAX_MSG_SIZE};

verus! {

/// Why a connection was torn down without running its commands.
#[derive(Clone, Copy, Debug, PartialEq, Eq, Structural)]
pub enum DropReason {
    /// Its input broke the wire format.
    Frame(FrameError),
    /// One of its operations completed with this negative result.
    Os(i32),
}

/// What the event loop has to do after a completion, as a mathematical value.
pub enum ReactionModel {
    /// The completion named no pending operation. Nothing changed.
    Stale,
    /// An accept completed with this negative result. Nothing changed.
    AcceptFailed(i32),
    /// An accept returned an identifier that is already live. Nothing changed.
    Rejected(i32),
    /// Submit this request.
    Submit(Request),
    /// The connection ended in order and its commands ran. Close `fd`.
    Closed { fd: i32, outcome: OutcomeModel },
    /// The connection was torn down and nothing ran. Close `fd`.
    Dropped { fd: i32, reason: DropReason },
}

/// The connection that a token belongs to, if it belongs to one.
pub open spec fn token_fd(t: Token) -> Option<i32> {
    match t {
        Token::Accept => None,
        Token::Read { fd, .. } => Some(fd),
        Token::Poll { fd, .. } => Some(fd),
    }
}

/// The buffer that a token holds, if it holds one.
pub open spec fn token_buffer(t: Token) -> Option<usize> {
    match t {
        Token::Read { buf_index, .. } => Some(buf_index),
        _ => None,
    }
}

/// The number of bytes to ask for when a connection in phase `state` becomes
/// readable.
pub open spec fn read_size(state: MessageState) -> usize {
    match state {
        MessageState::Header => HEADER_SIZE,
        MessageState::Message => MAX_MSG_SIZE,
    }
}

/// The meaning of a read that transferred `n` bytes into a buffer holding
/// `bytes`: that of the first `n` bytes, or a length error when the buffer
/// cannot hold that many.
pub open spec fn read_verdict(state: MessageState, want: usize, bytes: Seq<u8>, n: usize) -> Verdict {
    if n > bytes.len() {
        Verdict::Malformed(
            match state {
                MessageState::Header => FrameError::HeaderLength,
                MessageState::Message => FrameError::PayloadLength,
            },
        )
    } else {
        verdict(state, want, bytes.take(n as int))
    }
}

/// The abstract state of the server.
pub struct ServerModel {
    /// The pending operations, by key.
    pub tokens: SlotModel<Token>,
    /// The receive buffers.
    pub pool: PoolModel,
    /// The live connections, by identifier.
    pub conns: Map<i32, ConnModel>,
    /// The key-value store.
    pub store: Map<Seq<char>, Seq<char>>,
    /// The requests waiting for room in the submission queue.
    pub backlog: Seq<Request>,
    /// The key of the standing accept token.
    pub accept: usize,
}

impl ServerModel {
    /// The keys that the next token and the next buffer would get are machine
    /// integers.
    pub open spec fn fits(self) -> bool {
        self.tokens.next_key() <= usize::MAX && self.pool.acquire_id() <= usize::MAX
    }

    /// Whether the token under `k` is sound: a poll or read token belongs to
    /// a live connection that names `k` as its token; a read token moreover
    /// holds a buffer that is in use and asks for a possible number of bytes.
    pub open spec fn token_ok(self, k: usize) -> bool {
        match self.tokens.get(k) {
            Token::Accept => true,
            Token::Poll { fd, state } => self.conns.contains_key(fd) && self.conns[fd].token == k,
            Token::Read { fd, buf_index, state, want } => {
                &&& self.conns.contains_key(fd)
                &&& self.conns[fd].token == k
                &&& self.pool.in_use(buf_index)
                &&& 0 < want <= MAX_MSG_SIZE
                &&& state == MessageState::Header ==> want == HEADER_SIZE
            },
        }
    }

    /// Whether the live connection `fd` is sound: its token is pending and
    /// belongs to it.
    pub open spec fn conn_ok(self, fd: i32) -> bool {
        self.tokens.contains(self.conns[fd].token) && token_fd(
            self.tokens.get(self.conns[fd].token),
        ) == Some(fd)
    }

    /// Whether the tokens under `j` and `k` do not hold the same buffer.
    pub open spec fn apart(self, j: usize, k: usize) -> bool {
        token_buffer(self.tokens.get(j)) is Some ==> token_buffer(self.tokens.get(j))
            != token_buffer(self.tokens.get(k))
    }

    /// The invariant of the server.
    ///
    /// The standing accept token is in place. Every other token belongs to a
    /// live connection that names it as its token, so no connection has two
    /// pending operations. Every read token holds a buffer that is in use,
    /// so none holds a buffer that was released. No two read tokens hold the
    /// same buffer. Every live connection's token is pending and belongs to it.
    pub open spec fn inv(self) -> bool {
        &&& self.tokens.wf()
        &&& self.pool.wf()
        &&& self.tokens.contains(self.accept)
        &&& self.tokens.get(self.accept) == Token::Accept
        &&& forall|k: usize| #[trigger] self.tokens.contains(k) ==> self.token_ok(k)
        &&& forall|fd: i32| #[trigger] self.conns.contains_key(fd) ==> self.conn_ok(fd)
        &&& forall|j: usize, k: usize|
            j != k && #[trigger] self.tokens.contains(j) && #[trigger] self.tokens.contains(k)
                ==> self.apart(j, k)
    }

    /// The state after the bytes of buffer `id` were replaced by `bytes`, as a
    /// receive does.
    pub open spec fn written(self, id: usize, bytes: Seq<u8>) -> Self {
        ServerModel { pool: self.pool.write(id, bytes), ..self }
    }

    /// The state in which the server starts: the accept token alone, under key 0.
    pub open spec fn initial() -> Self {
        ServerModel {
            tokens: SlotModel::<Token>::empty().insert(Token::Accept),
            pool: PoolModel { buffers: SlotModel::empty(), free: Seq::empty() },
            conns: Map::empty(),
            store: Map::empty(),
            backlog: Seq::empty(),
            accept: 0,
        }
    }

    /// An accept completed with `result`: a negative result changes nothing;
    /// otherwise the result is a new connection, which gets a poll token in
    /// the header phase and an empty command list, and is polled.
    pub open spec fn on_accept(self, result: i32) -> (Self, ReactionModel) {
        if result < 0 {
            (self, ReactionModel::AcceptFailed(result))
        } else if self.conns.contains_key(result) {
            (self, ReactionModel::Rejected(result))
        } else {
            let key = self.tokens.next_key() as usize;
            (
                ServerModel {
                    tokens: self.tokens.insert(
                        Token::Poll { fd: result, state: MessageState::Header },
                    ),
                    conns: self.conns.insert(
                        result,
                        ConnModel { token: key, commands: Seq::empty() },
                    ),
                    ..self
                },
                ReactionModel::Submit(Request::PollAdd { fd: result, user_data: key as u64 }),
            )
        }
    }

    /// A poll completed: the connection is readable. A buffer is acquired,
    /// the token becomes a read token in place, and a receive is submitted.
    pub open spec fn on_poll(self, key: usize, fd: i32, state: MessageState) -> (
        Self,
        ReactionModel,
    ) {
        let buf_index = self.pool.acquire_id() as usize;
        let want = read_size(state);
        (
            ServerModel {
                tokens: self.tokens.set(key, Token::Read { fd, buf_index, state, want }),
                pool: self.pool.acquire(),
                ..self
            },
            ReactionModel::Submit(
                Request::Recv { fd, buf_index, len: want, user_data: key as u64 },
            ),
        )
    }

    /// The connection ends in order: its commands run against the store, its
    /// buffer returns to the pool, its token and its command list go.
    pub open spec fn close(self, key: usize, fd: i32, buf_index: usize) -> (Self, ReactionModel) {
        let commands = self.conns[fd].commands;
        (
            ServerModel {
                tokens: self.tokens.remove(key),
                pool: self.pool.release(buf_index),
                conns: self.conns.remove(fd),
                store: store_after(commands, self.store),
                ..self
            },
            ReactionModel::Closed { fd, outcome: outcome_of(commands, self.store) },
        )
    }

    /// The connection is torn down: its buffer, if it holds one, returns to
    /// the pool, its token and its command list go, and the store is left
    /// alone.
    pub open spec fn teardown(
        self,
        key: usize,
        fd: i32,
        buf_index: Option<usize>,
        reason: DropReason,
    ) -> (Self, ReactionModel) {
        (
            ServerModel {
                tokens: self.tokens.remove(key),
                pool: match buf_index {
                    Some(b) => self.pool.release(b),
                    None => self.pool,
                },
                conns: self.conns.remove(fd),
                ..self
            },
            ReactionModel::Dropped { fd, reason },
        )
    }

    /// A read completed after transferring `n` bytes into its buffer.
    pub open spec fn on_read(
        self,
        key: usize,
        fd: i32,
        buf_index: usize,
        state: MessageState,
        want: usize,
        n: usize,
    ) -> (Self, ReactionModel) {
        match read_verdict(state, want, self.pool.bytes(buf_index), n) {
            Verdict::Close => self.close(key, fd, buf_index),
            Verdict::Payload(len) => (
                ServerModel {
                    tokens: self.tokens.set(
                        key,
                        Token::Read { fd, buf_index, state: MessageState::Message, want: len },
                    ),
                    ..self
                },
                ReactionModel::Submit(Request::Recv { fd, buf_index, len, user_data: key as u64 }),
            ),
            Verdict::Message(payload) => (
                ServerModel {
                    tokens: self.tokens.set(key, Token::Poll { fd, state: MessageState::Header }),
                    pool: self.pool.release(buf_index),
                    conns: self.conns.insert(
                        fd,
                        ConnModel { token: key, commands: self.conns[fd].commands.push(payload) },
                    ),
                    ..self
                },
                ReactionModel::Submit(Request::PollAdd { fd, user_data: key as u64 }),
            ),
            Verdict::Malformed(e) => self.teardown(key, fd, Some(buf_index), DropReason::Frame(e)),
        }
    }

    /// The transition that the completion `(user_data, result)` causes, and
    /// what the event loop has to do after it.
    pub open spec fn step(self, user_data: u64, result: i32) -> (Self, ReactionModel) {
        if user_data > usize::MAX || !self.tokens.contains(user_data as usize) {
            (self, ReactionModel::Stale)
        } else {
            let key = user_data as usize;
            match self.tokens.get(key) {
                Token::Accept => self.on_accept(result),
                Token::Poll { fd, state } => {
                    if result < 0 {
                        self.teardown(key, fd, None, DropReason::Os(result))
                    } else {
                        self.on_poll(key, fd, state)
                    }
                },
                Token::Read { fd, buf_index, state, want } => {
                    if result < 0 {
                        self.teardown(key, fd, Some(buf_index), DropReason::Os(result))
                    } else {
                        self.on_read(key, fd, buf_index, state, want, result as usize)
                    }
                },
            }
        }
    }
}

impl ServerModel {
    /// Whether the token under `key` belongs to `fd` and holds `buf_index`.
    pub open spec fn owns(self, key: usize, fd: i32, buf_index: Option<usize>) -> bool {
        &&& self.tokens.contains(key)
        &&& token_fd(self.tokens.get(key)) == Some(fd)
        &&& token_buffer(self.tokens.get(key)) == buf_index
    }

    /// The initial state satisfies the invariant.
    pub proof fn lemma_initial_inv()
        ensures
            Self::initial().inv(),
    {
        let s = Self::initial();
        SlotModel::<Token>::empty().lemma_insert(Token::Accept);
        assert(s.tokens.slots =~= seq![Some(Token::Accept)]);
        assert forall|k: usize| #[trigger] s.tokens.contains(k) implies k == 0 by {}
    }

    /// Accepting a connection keeps the invariant.
    pub proof fn lemma_accept_inv(self, result: i32)
        requires
            self.inv(),
            self.tokens.next_key() <= usize::MAX,
        ensures
            self.on_accept(result).0.inv(),
    {
        if result >= 0 && !self.conns.contains_key(result) {
            let after = self.on_accept(result).0;
            let key = self.tokens.next_key() as usize;
            self.tokens.lemma_insert(Token::Poll { fd: result, state: MessageState::Header });
            assert forall|k: usize| #[trigger] after.tokens.contains(k) implies after.token_ok(
                k,
            ) by {
                if k != key {
                    assert(self.tokens.contains(k) && self.token_ok(k));
                }
            }
            assert forall|fd: i32| #[trigger] after.conns.contains_key(fd) implies after.conn_ok(
                fd,
            ) by {
                if fd != result {
                    assert(self.conns.contains_key(fd) && self.conn_ok(fd));
                }
            }
            assert forall|j: usize, k: usize|
                j != k && #[trigger] after.tokens.contains(j) && #[trigger] after.tokens.contains(
                    k,
                ) implies after.apart(j, k) by {
                if j != key && k != key {
                    assert(self.tokens.contains(j) && self.tokens.contains(k) && self.apart(j, k));
                }
            }
        }
    }

    /// Turning a poll token into a read token keeps the invariant.
    pub proof fn lemma_poll_inv(self, key: usize, fd: i32, state: MessageState)
        requires
            self.inv(),
            self.tokens.contains(key),
            self.tokens.get(key) == (Token::Poll { fd, state }),
            self.pool.acquire_id() <= usize::MAX,
        ensures
            self.on_poll(key, fd, state).0.inv(),
    {
        let after = self.on_poll(key, fd, state).0;
        let id = self.pool.acquire_id() as usize;
        self.pool.lemma_acquire();
        self.tokens.lemma_set(key, Token::Read { fd, buf_index: id, state, want: read_size(state) });
        assert(self.token_ok(key));
        assert forall|k: usize| #[trigger] after.tokens.contains(k) implies after.token_ok(k) by {
            assert(self.tokens.contains(k) && self.token_ok(k));
        }
        assert forall|fd2: i32| #[trigger] after.conns.contains_key(fd2) implies after.conn_ok(
            fd2,
        ) by {
            assert(self.conns.contains_key(fd2) && self.conn_ok(fd2));
        }
        assert forall|j: usize, k: usize|
            j != k && #[trigger] after.tokens.contains(j) && #[trigger] after.tokens.contains(k)
            implies after.apart(j, k) by {
            assert(self.tokens.contains(j) && self.tokens.contains(k) && self.apart(j, k));
            assert(self.token_ok(j) && self.token_ok(k));
        }
    }

    /// What stays true when the token of a connection goes, with its buffer
    /// released and its command list forgotten, whatever becomes of the store.
    pub proof fn lemma_retire_inv(
        self,
        key: usize,
        fd: i32,
        buf_index: Option<usize>,
        store: Map<Seq<char>, Seq<char>>,
    )
        requires
            self.inv(),
            self.owns(key, fd, buf_index),
        ensures
            (ServerModel { store, ..self.teardown(key, fd, buf_index, DropReason::Os(0)).0 }).inv(),
    {
        let after = ServerModel { store, ..self.teardown(key, fd, buf_index, DropReason::Os(0)).0 };
        self.tokens.lemma_remove(key);
        assert(self.token_ok(key));
        match buf_index {
            Some(b) => {
                self.pool.lemma_release(b);
            },
            None => {},
        }
        assert forall|k: usize| #[trigger] after.tokens.contains(k) implies after.token_ok(k) by {
            assert(self.tokens.contains(k) && self.token_ok(k) && self.apart(key, k));
        }
        assert forall|fd2: i32| #[trigger] after.conns.contains_key(fd2) implies after.conn_ok(
            fd2,
        ) by {
            assert(self.conns.contains_key(fd2) && self.conn_ok(fd2));
        }
        assert forall|j: usize, k: usize|
            j != k && #[trigger] after.tokens.contains(j) && #[trigger] after.tokens.contains(k)
            implies after.apart(j, k) by {
            assert(self.tokens.contains(j) && self.tokens.contains(k) && self.apart(j, k));
        }
    }

    /// Handling a completed read keeps the invariant.
    pub proof fn lemma_read_inv(
        self,
        key: usize,
        fd: i32,
        buf_index: usize,
        state: MessageState,
        want: usize,
        n: usize,
    )
        requires
            self.inv(),
            self.tokens.contains(key),
            self.tokens.get(key) == (Token::Read { fd, buf_index, state, want }),
        ensures
            self.on_read(key, fd, buf_index, state, want, n).0.inv(),
    {
        let after = self.on_read(key, fd, buf_index, state, want, n).0;
        assert(self.token_ok(key));
        match read_verdict(state, want, self.pool.bytes(buf_index), n) {
            Verdict::Close => {
                self.lemma_retire_inv(
                    key,
                    fd,
                    Some(buf_index),
                    store_after(self.conns[fd].commands, self.store),
                );
            },
            Verdict::Malformed(e) => {
                self.lemma_retire_inv(key, fd, Some(buf_index), self.store);
            },
            Verdict::Payload(len) => {
                self.tokens.lemma_set(
                    key,
                    Token::Read { fd, buf_index, state: MessageState::Message, want: len },
                );
                assert forall|k: usize| #[trigger] after.tokens.contains(k) implies after.token_ok(
                    k,
                ) by {
                    assert(self.tokens.contains(k) && self.token_ok(k));
                }
                assert forall|fd2: i32| #[trigger]
                    after.conns.contains_key(fd2) implies after.conn_ok(fd2) by {
                    assert(self.conns.contains_key(fd2) && self.conn_ok(fd2));
                }
                assert forall|j: usize, k: usize|
                    j != k && #[trigger] after.tokens.contains(j) && #[trigger] after.tokens.contains(
                        k,
                    ) implies after.apart(j, k) by {
                    assert(self.tokens.contains(j) && self.tokens.contains(k) && self.apart(j, k));
                }
            },
            Verdict::Message(payload) => {
                self.tokens.lemma_set(key, Token::Poll { fd, state: MessageState::Header });
                self.pool.lemma_release(buf_index);
                assert forall|k: usize| #[trigger] after.tokens.contains(k) implies after.token_ok(
                    k,
                ) by {
                    assert(self.tokens.contains(k) && self.token_ok(k));
                    if k != key {
                        assert(self.apart(key, k));
                    }
                }
                assert forall|fd2: i32| #[trigger]
                    after.conns.contains_key(fd2) implies after.conn_ok(fd2) by {
                    if fd2 != fd {
                        assert(self.conns.contains_key(fd2) && self.conn_ok(fd2));
                    }
                }
                assert forall|j: usize, k: usize|
                    j != k && #[trigger] after.tokens.contains(j) && #[trigger] after.tokens.contains(
                        k,
                    ) implies after.apart(j, k) by {
                    assert(self.tokens.contains(j) && self.tokens.contains(k) && self.apart(j, k));
                }
            },
        }
    }

    /// Writing received bytes into a buffer keeps the invariant, whatever the
    /// bytes are, as long as the buffer keeps its size.
    pub proof fn lemma_write_inv(self, id: usize)
        requires
            self.inv(),
            self.pool.allocated(id),
        ensures
            forall|bytes: Seq<u8>|
                bytes.len() == self.pool.bytes(id).len() ==> (#[trigger] self.written(
                    id,
                    bytes,
                )).inv(),
    {
        self.pool.lemma_write_any(id);
        assert forall|bytes: Seq<u8>| bytes.len() == self.pool.bytes(id).len() implies (
        #[trigger] self.written(id, bytes)).inv() by {
            let after = self.written(id, bytes);
            assert(self.pool.buffers.contains(id));
            assert(self.pool.write(id, bytes).wf());
            assert forall|k: usize| #[trigger] after.tokens.contains(k) implies after.token_ok(
                k,
            ) by {
                assert(self.tokens.contains(k) && self.token_ok(k));
            }
            assert forall|fd: i32| #[trigger] after.conns.contains_key(fd) implies after.conn_ok(
                fd,
            ) by {
                assert(self.conn_ok(fd));
            }
            assert forall|j: usize, k: usize|
                j != k && #[trigger] after.tokens.contains(j) && #[trigger] after.tokens.contains(
                    k,
                ) implies after.apart(j, k) by {
                assert(self.apart(j, k));
            }
        }
    }

    /// Every transition keeps the invariant.
    pub proof fn lemma_step_inv(self, user_data: u64, result: i32)
        requires
            self.inv(),
            self.fits(),
        ensures
            self.step(user_data, result).0.inv(),
    {
        if user_data > usize::MAX || !self.tokens.contains(user_data as usize) {
        } else {
            let key = user_data as usize;
            assert(self.token_ok(key));
            match self.tokens.get(key) {
                Token::Accept => {
                    self.lemma_accept_inv(result);
                },
                Token::Poll { fd, state } => {
                    if result < 0 {
                        self.lemma_retire_inv(key, fd, None, self.store);
                    } else {
                        self.lemma_poll_inv(key, fd, state);
                    }
                },
                Token::Read { fd, buf_index, state, want } => {
                    if result < 0 {
                        self.lemma_retire_inv(key, fd, Some(buf_index), self.store);
                    } else {
                        self.lemma_read_inv(key, fd, buf_index, state, want, result as usize);
                    }
                },
            }
        }
    }

    /// A request that a transition asks to submit describes a pending token:
    /// it carries the key of a token of the new state, names that token's
    /// connection, and asks for what the token waits for. A receive targets
    /// the buffer that its read token holds, for as many bytes as the token
    /// wants.
    pub proof fn lemma_request_names_its_token(self, user_data: u64, result: i32)
        requires
            self.inv(),
            self.fits(),
            self.step(user_data, result).1 is Submit,
        ensures
            ({
                let after = self.step(user_data, result).0;
                match self.step(user_data, result).1->Submit_0 {
                    Request::Accept { .. } => false,
                    Request::PollAdd { fd, user_data: key } => {
                        &&& key <= usize::MAX
                        &&& after.tokens.contains(key as usize)
                        &&& after.tokens.get(key as usize) == (Token::Poll {
                            fd,
                            state: MessageState::Header,
                        })
                    },
                    Request::Recv { fd, buf_index, len, user_data: key } => {
                        &&& key <= usize::MAX
                        &&& after.tokens.contains(key as usize)
                        &&& after.tokens.get(key as usize) matches Token::Read {
                            fd: f,
                            buf_index: b,
                            want,
                            ..
                        }
                        &&& f == fd
                        &&& b == buf_index
                        &&& want == len
                    },
                }
            }),
    {
        let key = user_data as usize;
        assert(self.token_ok(key));
        match self.tokens.get(key) {
            Token::Accept => {
                self.tokens.lemma_insert(Token::Poll { fd: result, state: MessageState::Header });
            },
            Token::Poll { fd, state } => {
                self.tokens.lemma_set(
                    key,
                    Token::Read {
                        fd,
                        buf_index: self.pool.acquire_id() as usize,
                        state,
                        want: read_size(state),
                    },
                );
            },
            Token::Read { fd, buf_index, state, want } => {
                match read_verdict(state, want, self.pool.bytes(buf_index), result as usize) {
                    Verdict::Payload(len) => {
                        self.tokens.lemma_set(
                            key,
                            Token::Read { fd, buf_index, state: MessageState::Message, want: len },
                        );
                    },
                    Verdict::Message(payload) => {
                        self.tokens.lemma_set(key, Token::Poll { fd, state: MessageState::Header });
                    },
                    _ => {},
                }
            },
        }
    }

    /// No connection has two pending operations: two tokens that belong to
    /// the same connection are one and the same token.
    pub proof fn lemma_one_operation_per_connection(self, j: usize, k: usize)
        requires
            self.inv(),
            self.tokens.contains(j),
            self.tokens.contains(k),
            token_fd(self.tokens.get(j)) is Some,
            token_fd(self.tokens.get(j)) == token_fd(self.tokens.get(k)),
        ensures
            j == k,
    {
        assert(self.token_ok(j) && self.token_ok(k));
    }

    /// A buffer that a pending read holds is allocated and is not on the free
    /// stack, and no other token holds it.
    pub proof fn lemma_held_buffer_is_not_free(self, k: usize, buf_index: usize)
        requires
            self.inv(),
            self.tokens.contains(k),
            token_buffer(self.tokens.get(k)) == Some(buf_index),
        ensures
            self.pool.allocated(buf_index),
            !self.pool.free.contains(buf_index),
            forall|j: usize|
                j != k && self.tokens.contains(j) ==> token_buffer(self.tokens.get(j)) != Some(
                    buf_index,
                ),
    {
        assert(self.token_ok(k));
        assert forall|j: usize| j != k && self.tokens.contains(j) implies token_buffer(
            self.tokens.get(j),
        ) != Some(buf_index) by {
            assert(self.apart(k, j));
        }
    }

    /// An identifier on the free stack, that is, one that was released and
    /// not handed out again, is held by no token.
    pub proof fn lemma_free_buffer_is_not_held(self, i: int, k: usize)
        requires
            self.inv(),
            0 <= i < self.pool.free.len(),
            self.tokens.contains(k),
        ensures
            token_buffer(self.tokens.get(k)) != Some(self.pool.free[i]),
    {
        assert(self.token_ok(k));
    }

    /// A payload read that returns some bytes, but fewer than its header
    /// declared, tears the connection down: the store is as it was, the
    /// connection and its commands are gone, and its buffer is free again.
    pub proof fn lemma_short_payload_not_dispatched(
        self,
        key: usize,
        fd: i32,
        buf_index: usize,
        want: usize,
        result: i32,
    )
        requires
            self.inv(),
            self.tokens.contains(key),
            self.tokens.get(key) == (Token::Read {
                fd,
                buf_index,
                state: MessageState::Message,
                want,
            }),
            0 < result < want,
        ensures
            self.step(key as u64, result).1 == (ReactionModel::Dropped {
                fd,
                reason: DropReason::Frame(FrameError::PayloadLength),
            }),
            self.step(key as u64, result).0.store == self.store,
            !self.step(key as u64, result).0.conns.contains_key(fd),
            !self.step(key as u64, result).0.tokens.contains(key),
            !self.step(key as u64, result).0.pool.in_use(buf_index),
    {
        assert(self.token_ok(key));
        self.tokens.lemma_remove(key);
        self.pool.lemma_release(buf_index);
    }
}

} // verus!
