//! Requests for the submission queue, and the backlog of those that did not
//! fit into it.

use vstd::prelude::*;
use std::collections::VecDeque;

verus! {

/// One I/O request, as plain values: what to ask of the kernel and the key
/// of the token that its completion will carry.
#[derive(Clone, Copy, Debug, PartialEq, Eq, Structural)]
pub enum Request {
    /// Accept a connection on the listening socket.
    Accept { user_data: u64 },
    /// Wait until `fd` is readable.
    PollAdd { fd: i32, user_data: u64 },
    /// Receive up to `len` bytes from `fd` into the start of buffer `buf_index`.
    Recv { fd: i32, buf_index: usize, len: usize, user_data: u64 },
}

/// How many requests leave a backlog of `len` when the queue has `room` slots.
pub open spec fn drain_count(len: nat, room: usize) -> nat {
    if room as nat <= len {
        room as nat
    } else {
        len
    }
}

/// The requests that leave `backlog` when the queue has `room` slots: the
/// oldest ones, oldest first.
pub open spec fn drained(backlog: Seq<Request>, room: usize) -> Seq<Request> {
    backlog.take(drain_count(backlog.len(), room) as int)
}

/// The requests that stay in `backlog` when the queue has `room` slots.
pub open spec fn remaining(backlog: Seq<Request>, room: usize) -> Seq<Request> {
    backlog.skip(drain_count(backlog.len(), room) as int)
}

/// Draining loses and reorders nothing: what leaves, followed by what stays,
/// is the backlog as it was. A request deferred later therefore never leaves
/// before one deferred earlier.
pub proof fn lemma_drain_is_fifo(backlog: Seq<Request>, room: usize)
    ensures
        drained(backlog, room) + remaining(backlog, room) == backlog,
        drained(backlog, room).len() == drain_count(backlog.len(), room),
        forall|i: int|
            0 <= i < drained(backlog, room).len() ==> drained(backlog, room)[i] == backlog[i],
        forall|i: int|
            0 <= i < remaining(backlog, room).len() ==> remaining(backlog, room)[i] == backlog[i
                + drain_count(backlog.len(), room)],
{
    assert(drained(backlog, room) + remaining(backlog, room) =~= backlog);
}

/// A request deferred onto a backlog leaves only after every request that was
/// there before it: it leaves exactly when the queue has room for all of them
/// and for itself, and then it leaves last.
pub proof fn lemma_deferred_leaves_last(backlog: Seq<Request>, request: Request, room: usize)
    ensures
        room as nat > backlog.len() ==> drained(backlog.push(request), room) == backlog.push(
            request,
        ),
        room as nat <= backlog.len() ==> drained(backlog.push(request), room) == drained(
            backlog,
            room,
        ) && remaining(backlog.push(request), room) == remaining(backlog, room).push(request),
{
    if room as nat > backlog.len() {
        assert(drained(backlog.push(request), room) =~= backlog.push(request));
    } else {
        assert(drained(backlog.push(request), room) =~= drained(backlog, room));
        assert(remaining(backlog.push(request), room) =~= remaining(backlog, room).push(request));
    }
}

/// The queue of requests that are waiting for room in the submission queue,
/// oldest first.
pub struct Backlog {
    queue: VecDeque<Request>,
}

impl View for Backlog {
    type V = Seq<Request>;

    closed spec fn view(&self) -> Seq<Request> {
        self.queue@
    }
}

impl Backlog {
    /// An empty backlog.
    pub fn new() -> (b: Self)
        ensures
            b@ == Seq::<Request>::empty(),
    {
        Backlog { queue: VecDeque::new() }
    }

    /// The number of waiting requests.
    pub fn len(&self) -> (n: usize)
        ensures
            n == self@.len(),
    {
        self.queue.len()
    }

    /// Puts a request that could not be submitted at the end of the backlog.
    pub fn defer(&mut self, request: Request)
        ensures
            final(self)@ == old(self)@.push(request),
    {
        self.queue.push_back(request);
    }

    /// Takes out the requests that fit into `room` free slots of the
    /// submission queue: the oldest ones, in the order in which they were
    /// deferred. The others stay, in their order.
    pub fn drain(&mut self, room: usize) -> (out: Vec<Request>)
        ensures
            out@ == drained(old(self)@, room),
            final(self)@ == remaining(old(self)@, room),
    {
        let mut out: Vec<Request> = Vec::new();
        let mut taken: usize = 0;
        while taken < room
            invariant
                taken <= room,
                taken <= old(self)@.len(),
                out@ == old(self)@.take(taken as int),
                self@ == old(self)@.skip(taken as int),
            ensures
                taken == drain_count(old(self)@.len(), room),
                out@ == old(self)@.take(taken as int),
                self@ == old(self)@.skip(taken as int),
            decreases room - taken,
        {
            match self.queue.pop_front() {
                Some(request) => {
                    assert(request == old(self)@[taken as int]);
                    out.push(request);
                    taken = taken + 1;
                    assert(out@ =~= old(self)@.take(taken as int));
                    assert(self@ =~= old(self)@.skip(taken as int));
                },
                None => {
                    break ;
                },
            }
        }
        out
    }
}

/// How a call that submits to, or waits on, the kernel's queues ended.
#[derive(Clone, Copy, Debug, PartialEq, Eq, Structural)]
pub enum IoStatus {
    /// The call succeeded.
    Done,
    /// The call reported that the device is busy.
    Busy,
    /// The call failed for any other reason.
    Failed,
}

/// What the event loop does next.
#[derive(Clone, Copy, Debug, PartialEq, Eq, Structural)]
pub enum Control {
    /// Go on with the current step.
    Proceed,
    /// Leave the current step without error.
    Stop,
    /// Give up: the failure ends the loop.
    Fatal,
}

/// What follows the wait for completions: a busy device only means that no
/// completion is ready yet, so the iteration goes on; any other failure ends
/// the loop.
pub fn after_wait(status: IoStatus) -> (c: Control)
    ensures
        c == match status {
            IoStatus::Done | IoStatus::Busy => Control::Proceed,
            IoStatus::Failed => Control::Fatal,
        },
{
    match status {
        IoStatus::Done => Control::Proceed,
        IoStatus::Busy => Control::Proceed,
        IoStatus::Failed => Control::Fatal,
    }
}

/// What follows a flush of a full submission queue while the backlog is
/// drained: on success draining goes on; a busy device ends the draining for
/// this iteration, without error; any other failure ends the loop.
pub fn after_flush(status: IoStatus) -> (c: Control)
    ensures
        c == match status {
            IoStatus::Done => Control::Proceed,
            IoStatus::Busy => Control::Stop,
            IoStatus::Failed => Control::Fatal,
        },
{
    match status {
        IoStatus::Done => Control::Proceed,
        IoStatus::Busy => Control::Stop,
        IoStatus::Failed => Control::Fatal,
    }
}

} // verus!
