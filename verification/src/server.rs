//! The server: the token table, the buffer pool, the live connections, the
//! store and the backlog, driven by one completion at a time.

use vstd::prelude::*;
use vstd::slice::slice_subrange;
use crate::backlog::{drained, remaining, Backlog, Request};
use crate::conns::ConnTable;
use crate::model::{DropReason, ReactionModel, ServerModel};
use crate::pool::BufferPool;
use crate::protocol::{interpret, FrameError, ReadVerdict};
use crate::registry::TokenTable;
use crate::store::{run_command, store_after, CommandOutcome, CommandStore};
use crate::token::{MessageState, Token, HEADER_SIZE, MAX_MSG_SIZE};

verus! {

/// What the event loop has to do after a completion.
#[derive(Debug)]
pub enum Reaction {
    /// The completion named no pending operation. Nothing changed.
    Stale,
    /// An accept completed with this negative result. Nothing changed.
    AcceptFailed(i32),
    /// An accept returned an identifier that is already live. Nothing changed.
    Rejected(i32),
    /// Submit this request, or defer it if the submission queue is full.
    Submit(Request),
    /// The connection ended in order and its commands ran. Close `fd`.
    Closed { fd: i32, outcome: CommandOutcome },
    /// The connection was torn down and nothing ran. Close `fd`.
    Dropped { fd: i32, reason: DropReason },
}

impl View for Reaction {
    type V = ReactionModel;

    open spec fn view(&self) -> ReactionModel {
        match self {
            Reaction::Stale => ReactionModel::Stale,
            Reaction::AcceptFailed(r) => ReactionModel::AcceptFailed(*r),
            Reaction::Rejected(fd) => ReactionModel::Rejected(*fd),
            Reaction::Submit(r) => ReactionModel::Submit(*r),
            Reaction::Closed { fd, outcome } => ReactionModel::Closed { fd: *fd, outcome: outcome@ },
            Reaction::Dropped { fd, reason } => ReactionModel::Dropped { fd: *fd, reason: *reason },
        }
    }
}

/// The state of the server.
pub struct Server {
    tokens: TokenTable,
    pool: BufferPool,
    conns: ConnTable,
    store: CommandStore,
    backlog: Backlog,
    accept: usize,
}

impl View for Server {
    type V = ServerModel;

    closed spec fn view(&self) -> ServerModel {
        ServerModel {
            tokens: self.tokens@,
            pool: self.pool@,
            conns: self.conns@,
            store: self.store@,
            backlog: self.backlog@,
            accept: self.accept,
        }
    }
}

impl Server {
    /// The server's invariant holds.
    pub open spec fn wf(&self) -> bool {
        self@.inv()
    }

    /// A server with no connection, an empty store, and the standing accept
    /// token in place.
    pub fn new() -> (s: Self)
        ensures
            s.wf(),
            s@ == ServerModel::initial(),
    {
        let mut tokens = TokenTable::new();
        let accept = tokens.insert(Token::Accept);
        proof {
            ServerModel::lemma_initial_inv();
        }
        Server {
            tokens,
            pool: BufferPool::new(),
            conns: ConnTable::new(),
            store: CommandStore::new(),
            backlog: Backlog::new(),
            accept,
        }
    }

    /// The request that keeps the listening socket accepting; the event loop
    /// submits it once per iteration.
    pub fn accept_request(&self) -> (r: Request)
        ensures
            r == (Request::Accept { user_data: self@.accept as u64 }),
    {
        Request::Accept { user_data: self.accept as u64 }
    }

    /// The token stored under `key`, if there is one.
    pub fn token(&self, key: usize) -> (r: Option<Token>)
        ensures
            r is Some <==> self@.tokens.contains(key),
            r is Some ==> r->0 == self@.tokens.get(key),
    {
        self.tokens.get(key)
    }

    /// The key of the token that describes the pending operation of
    /// connection `fd`, if `fd` is live.
    pub fn token_of(&self, fd: i32) -> (r: Option<usize>)
        ensures
            r is Some <==> self@.conns.contains_key(fd),
            r is Some ==> r->0 == self@.conns[fd].token,
    {
        self.conns.token_of(fd)
    }

    /// The value stored under `key` in the command store, if any.
    pub fn lookup(&self, key: &str) -> (r: Option<String>)
        ensures
            r is Some <==> self@.store.contains_key(key@),
            r is Some ==> (r->0)@ == self@.store[key@],
    {
        self.store.get(key)
    }

    /// The bytes of buffer `id`, or `None` when no such buffer was allocated.
    pub fn buffer(&self, id: usize) -> (r: Option<&[u8]>)
        ensures
            r is Some <==> self@.pool.allocated(id),
            r is Some ==> (r->0)@ == self@.pool.bytes(id),
    {
        self.pool.bytes(id)
    }

    /// Mutable access to the bytes of buffer `id`, into which a receive
    /// writes; `None` when no such buffer was allocated. The server
    /// afterwards holds what was written, and is otherwise unchanged.
    pub fn buffer_mut(&mut self, id: usize) -> (r: Option<&mut [u8]>)
        requires
            old(self).wf(),
        ensures
            final(self).wf(),
            r is Some <==> old(self)@.pool.allocated(id),
            r is Some ==> (r->0)@ == old(self)@.pool.bytes(id),
            r is Some ==> final(self)@ == old(self)@.written(id, final(r->0)@),
            r is None ==> final(self)@ == old(self)@,
    {
        proof {
            if self@.pool.allocated(id) {
                self@.lemma_write_inv(id);
            }
        }
        let r = self.pool.bytes_mut(id);
        proof {
            if r is Some {
                assert(old(self)@.written(id, final(r->0)@).inv());
            }
        }
        r
    }

    /// The number of requests waiting in the backlog.
    pub fn backlog_len(&self) -> (n: usize)
        ensures
            n == self@.backlog.len(),
    {
        self.backlog.len()
    }

    /// Keeps a request that the full submission queue did not take: it goes
    /// to the end of the backlog.
    pub fn defer(&mut self, request: Request)
        requires
            old(self).wf(),
        ensures
            final(self).wf(),
            final(self)@ == (ServerModel {
                backlog: old(self)@.backlog.push(request),
                ..old(self)@
            }),
    {
        self.backlog.defer(request);
    }

    /// Decides where a new request goes when the submission queue has `room`
    /// free slots: into the queue when there is room, which the result `true`
    /// tells the caller to do; otherwise to the end of the backlog. No
    /// request is dropped.
    pub fn route(&mut self, request: Request, room: usize) -> (push: bool)
        requires
            old(self).wf(),
        ensures
            final(self).wf(),
            push == (room > 0),
            push ==> final(self)@ == old(self)@,
            !push ==> final(self)@ == (ServerModel {
                backlog: old(self)@.backlog.push(request),
                ..old(self)@
            }),
    {
        if room > 0 {
            true
        } else {
            self.backlog.defer(request);
            false
        }
    }

    /// Takes from the backlog the requests that fit into `room` free slots of
    /// the submission queue: the oldest ones, in the order in which they were
    /// deferred.
    pub fn drain_backlog(&mut self, room: usize) -> (out: Vec<Request>)
        requires
            old(self).wf(),
        ensures
            final(self).wf(),
            out@ == drained(old(self)@.backlog, room),
            final(self)@ == (ServerModel {
                backlog: remaining(old(self)@.backlog, room),
                ..old(self)@
            }),
    {
        self.backlog.drain(room)
    }

    /// An accept completed with `result`.
    fn handle_accept(&mut self, result: i32) -> (r: Reaction)
        requires
            old(self).wf(),
        ensures
            final(self).wf(),
            (final(self)@, r@) == old(self)@.on_accept(result),
    {
        if result < 0 {
            return Reaction::AcceptFailed(result);
        }
        if self.conns.contains(result) {
            return Reaction::Rejected(result);
        }
        let key = self.tokens.insert(Token::Poll { fd: result, state: MessageState::Header });
        self.conns.open(result, key);
        proof {
            old(self)@.lemma_accept_inv(result);
        }
        Reaction::Submit(Request::PollAdd { fd: result, user_data: key as u64 })
    }

    /// The poll of connection `fd` completed: it is readable.
    fn handle_poll(&mut self, key: usize, fd: i32, state: MessageState) -> (r: Reaction)
        requires
            old(self).wf(),
            old(self)@.tokens.contains(key),
            old(self)@.tokens.get(key) == (Token::Poll { fd, state }),
        ensures
            final(self).wf(),
            (final(self)@, r@) == old(self)@.on_poll(key, fd, state),
    {
        let buf_index = self.pool.acquire();
        let want = match state {
            MessageState::Header => HEADER_SIZE,
            MessageState::Message => MAX_MSG_SIZE,
        };
        self.tokens.replace(key, Token::Read { fd, buf_index, state, want });
        proof {
            old(self)@.lemma_poll_inv(key, fd, state);
        }
        Reaction::Submit(Request::Recv { fd, buf_index, len: want, user_data: key as u64 })
    }

    /// Tears connection `fd` down without running its commands.
    fn teardown(&mut self, key: usize, fd: i32, buf_index: Option<usize>, reason: DropReason) -> (r:
        Reaction)
        requires
            old(self).wf(),
            old(self)@.owns(key, fd, buf_index),
        ensures
            final(self).wf(),
            (final(self)@, r@) == old(self)@.teardown(key, fd, buf_index, reason),
    {
        proof {
            old(self)@.lemma_retire_inv(key, fd, buf_index, old(self)@.store);
        }
        self.tokens.remove(key);
        match buf_index {
            Some(b) => {
                self.pool.release(b);
            },
            None => {},
        }
        self.conns.close(fd);
        Reaction::Dropped { fd, reason }
    }

    /// Ends connection `fd` in order: runs its commands and forgets it.
    fn finish(&mut self, key: usize, fd: i32, buf_index: usize) -> (r: Reaction)
        requires
            old(self).wf(),
            old(self)@.owns(key, fd, Some(buf_index)),
        ensures
            final(self).wf(),
            (final(self)@, r@) == old(self)@.close(key, fd, buf_index),
    {
        proof {
            let s = old(self)@;
            assert(s.conns.contains_key(fd));
            s.lemma_retire_inv(
                key,
                fd,
                Some(buf_index),
                store_after(s.conns[fd].commands, s.store),
            );
        }
        self.tokens.remove(key);
        self.pool.release(buf_index);
        let commands = match self.conns.close(fd) {
            Some(c) => c,
            None => Vec::new(),
        };
        let outcome = run_command(&commands, &mut self.store);
        Reaction::Closed { fd, outcome }
    }

    /// The read of connection `fd` completed after transferring `n` bytes.
    fn handle_read(
        &mut self,
        key: usize,
        fd: i32,
        buf_index: usize,
        state: MessageState,
        want: usize,
        n: usize,
    ) -> (r: Reaction)
        requires
            old(self).wf(),
            old(self)@.tokens.contains(key),
            old(self)@.tokens.get(key) == (Token::Read { fd, buf_index, state, want }),
        ensures
            final(self).wf(),
            (final(self)@, r@) == old(self)@.on_read(key, fd, buf_index, state, want, n),
    {
        proof {
            old(self)@.lemma_read_inv(key, fd, buf_index, state, want, n);
        }
        let verdict = match self.pool.bytes(buf_index) {
            Some(bytes) => {
                if n > bytes.len() {
                    ReadVerdict::Malformed(
                        match state {
                            MessageState::Header => FrameError::HeaderLength,
                            MessageState::Message => FrameError::PayloadLength,
                        },
                    )
                } else {
                    interpret(state, want, slice_subrange(bytes, 0, n))
                }
            },
            None => ReadVerdict::Close,
        };
        match verdict {
            ReadVerdict::Close => self.finish(key, fd, buf_index),
            ReadVerdict::Payload(len) => {
                self.tokens.replace(
                    key,
                    Token::Read { fd, buf_index, state: MessageState::Message, want: len },
                );
                Reaction::Submit(Request::Recv { fd, buf_index, len, user_data: key as u64 })
            },
            ReadVerdict::Message(payload) => {
                self.conns.push(fd, payload);
                self.pool.release(buf_index);
                self.tokens.replace(
                    key,
                    Token::Poll { fd, state: MessageState::Header },
                );
                Reaction::Submit(Request::PollAdd { fd, user_data: key as u64 })
            },
            ReadVerdict::Malformed(e) => self.teardown(
                key,
                fd,
                Some(buf_index),
                DropReason::Frame(e),
            ),
        }
    }

    /// Handles one completion: `user_data` is the key that the completed
    /// request carried, `result` the kernel's result for it.
    ///
    /// A key without a token changes nothing. A negative result on the
    /// accept token is only reported; on any other token it tears the
    /// connection down. Otherwise the token decides: an accept registers the
    /// new connection and polls it; a poll acquires a buffer and starts a
    /// read; a read is interpreted by the bytes in its buffer, and either
    /// ends the connection (running its commands), asks for the payload,
    /// stores the payload and polls again, or tears the connection down.
    pub fn on_completion(&mut self, user_data: u64, result: i32) -> (r: Reaction)
        requires
            old(self).wf(),
        ensures
            final(self).wf(),
            (final(self)@, r@) == old(self)@.step(user_data, result),
    {
        if user_data > usize::MAX as u64 {
            return Reaction::Stale;
        }
        let key = user_data as usize;
        match self.tokens.get(key) {
            None => Reaction::Stale,
            Some(Token::Accept) => self.handle_accept(result),
            Some(Token::Poll { fd, state }) => {
                if result < 0 {
                    self.teardown(key, fd, None, DropReason::Os(result))
                } else {
                    self.handle_poll(key, fd, state)
                }
            },
            Some(Token::Read { fd, buf_index, state, want }) => {
                if result < 0 {
                    self.teardown(key, fd, Some(buf_index), DropReason::Os(result))
                } else {
                    self.handle_read(key, fd, buf_index, state, want, result as usize)
                }
            },
        }
    }
}

} // verus!
