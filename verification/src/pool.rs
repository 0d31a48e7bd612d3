//! The buffer pool: fixed-capacity byte buffers stored in a `slab::Slab`,
//! with a stack of the identifiers that are free for reuse.

use vstd::prelude::*;
use slab::Slab;
use crate::slots::SlotModel;
use crate::token::BUFFER_CAPACITY;

verus! {

/// The entries of a buffer slab in key order: the bytes of the buffer for an
/// occupied entry, `None` for a vacant one.
pub uninterp spec fn buffer_slots(s: Slab<Vec<u8>>) -> Seq<Option<Seq<u8>>>;

/// The vacant keys of a buffer slab that insertions will reuse, starting with
/// the key that the next insertion takes.
pub uninterp spec fn buffer_vacant(s: Slab<Vec<u8>>) -> Seq<usize>;

/// The model of a buffer slab, assembled from its two named parts.
pub open spec fn buffer_model(s: Slab<Vec<u8>>) -> SlotModel<Seq<u8>> {
    SlotModel { slots: buffer_slots(s), vacant: buffer_vacant(s) }
}

/// `Slab::with_capacity`: a slab with no entry and no vacant key. The
/// capacity only reserves memory; the bound keeps the reservation far from
/// the size at which the allocation would panic.
#[verifier::external_body]
fn buffer_slab_new(capacity: usize) -> (s: Slab<Vec<u8>>)
    requires
        capacity <= 1024,
    ensures
        buffer_slots(s) == Seq::<Option<Seq<u8>>>::empty(),
        buffer_vacant(s) == Seq::<usize>::empty(),
{
    Slab::with_capacity(capacity)
}

/// `Slab::insert`: stores the buffer under the first key of the vacant list,
/// or in a new entry after the last one when that list is empty, and returns
/// the key. As for `Vec::push`, on which it rests, running out of memory is
/// not modelled.
#[verifier::external_body]
fn buffer_slab_insert(s: &mut Slab<Vec<u8>>, buf: Vec<u8>) -> (key: usize)
    ensures
        key == buffer_model(*old(s)).next_key(),
        buffer_slots(*final(s)) == buffer_model(*old(s)).insert(buf@).slots,
        buffer_vacant(*final(s)) == buffer_model(*old(s)).insert(buf@).vacant,
{
    s.insert(buf)
}

/// `Slab::get`: the buffer stored under the key, or `None` when the key is
/// past the last entry or its entry is vacant.
#[verifier::external_body]
fn buffer_slab_get(s: &Slab<Vec<u8>>, key: usize) -> (r: Option<&Vec<u8>>)
    ensures
        r is Some <==> buffer_model(*s).contains(key),
        r is Some ==> (r->0)@ == buffer_model(*s).get(key),
{
    s.get(key)
}

/// `IndexMut::index_mut` of `Slab`, borrowed as a slice: mutable access to
/// the bytes of the buffer stored under an occupied key. A slice cannot
/// change its length, so the buffer keeps its size; whatever is written
/// through the slice becomes the content of that entry, and nothing else
/// changes. The index operation panics on any other key, which the
/// precondition leaves out.
#[verifier::external_body]
fn buffer_slab_index_mut(s: &mut Slab<Vec<u8>>, key: usize) -> (r: &mut [u8])
    requires
        buffer_model(*old(s)).contains(key),
    ensures
        r@ == buffer_model(*old(s)).get(key),
        final(r)@.len() == r@.len(),
        buffer_slots(*final(s)) == buffer_slots(*old(s)).update(key as int, Some(final(r)@)),
        buffer_vacant(*final(s)) == buffer_vacant(*old(s)),
{
    s[key].as_mut_slice()
}

/// The abstract state of a buffer pool.
pub struct PoolModel {
    /// Every buffer ever allocated, by identifier.
    pub buffers: SlotModel<Seq<u8>>,
    /// The identifiers that are free, the next one to be handed out last.
    pub free: Seq<usize>,
}

impl PoolModel {
    /// Whether `id` names an allocated buffer.
    pub open spec fn allocated(self, id: usize) -> bool {
        self.buffers.contains(id)
    }

    /// Whether `id` names a buffer that is currently handed out.
    pub open spec fn in_use(self, id: usize) -> bool {
        self.buffers.contains(id) && !self.free.contains(id)
    }

    /// The bytes held by buffer `id`.
    pub open spec fn bytes(self, id: usize) -> Seq<u8> {
        self.buffers.get(id)
    }

    /// Free identifiers are distinct and allocated, and every buffer has the
    /// fixed capacity.
    pub open spec fn wf(self) -> bool {
        &&& self.buffers.wf()
        &&& self.free.no_duplicates()
        &&& forall|i: int|
            0 <= i < self.free.len() ==> self.buffers.contains(#[trigger] self.free[i])
        &&& forall|id: usize| #[trigger]
            self.buffers.contains(id) ==> self.buffers.get(id).len() == BUFFER_CAPACITY
    }

    /// The identifier that `acquire` hands out: the top of the free stack, or
    /// a newly allocated one when the stack is empty.
    pub open spec fn acquire_id(self) -> int {
        if self.free.len() > 0 {
            self.free.last() as int
        } else {
            self.buffers.next_key()
        }
    }

    /// The pool after `acquire`.
    pub open spec fn acquire(self) -> Self {
        if self.free.len() > 0 {
            PoolModel { buffers: self.buffers, free: self.free.drop_last() }
        } else {
            PoolModel { buffers: self.buffers.insert(zeroed()), free: self.free }
        }
    }

    /// The pool after `release(id)`.
    pub open spec fn release(self, id: usize) -> Self {
        PoolModel { buffers: self.buffers, free: self.free.push(id) }
    }

    /// The pool after the bytes of buffer `id` were replaced.
    pub open spec fn write(self, id: usize, bytes: Seq<u8>) -> Self {
        PoolModel { buffers: self.buffers.set(id, bytes), free: self.free }
    }

    /// `acquire` hands out a buffer that was not in use, puts it in use and
    /// leaves every other buffer as it was.
    pub proof fn lemma_acquire(self)
        requires
            self.wf(),
        ensures
            self.acquire().wf(),
            0 <= self.acquire_id(),
            self.acquire_id() <= usize::MAX ==> {
                let id = self.acquire_id() as usize;
                &&& !self.in_use(id)
                &&& self.acquire().in_use(id)
                &&& forall|other: usize|
                    other != id ==> (self.acquire().in_use(other) <==> self.in_use(other))
                &&& forall|other: usize|
                    self.allocated(other) ==> self.acquire().allocated(other)
                        && self.acquire().bytes(other) == self.bytes(other)
            },
    {
        let after = self.acquire();
        if self.free.len() > 0 {
            let id = self.free.last();
            assert(self.free[self.free.len() - 1] == id);
            assert forall|other: usize| other != id implies (after.in_use(other) <==> self.in_use(
                other,
            )) by {
                if self.free.contains(other) {
                    let i = choose|i: int| 0 <= i < self.free.len() && self.free[i] == other;
                    assert(after.free[i] == other);
                }
            }
            assert(!after.free.contains(id)) by {
                if after.free.contains(id) {
                    let i = choose|i: int| 0 <= i < after.free.len() && after.free[i] == id;
                    assert(self.free[i] == id);
                }
            }
            assert(after.free.no_duplicates());
            assert forall|i: int| 0 <= i < after.free.len() implies after.buffers.contains(
                #[trigger] after.free[i],
            ) by {
                assert(after.free[i] == self.free[i]);
            }
        } else {
            self.buffers.lemma_insert(zeroed());
            if self.acquire_id() <= usize::MAX {
                let id = self.acquire_id() as usize;
                assert forall|other: usize| #[trigger]
                    after.buffers.contains(other) implies after.buffers.get(other).len()
                    == BUFFER_CAPACITY by {
                    if other != id {
                        assert(self.buffers.contains(other));
                    }
                }
            } else {
                assert forall|other: usize| #[trigger]
                    after.buffers.contains(other) implies after.buffers.get(other).len()
                    == BUFFER_CAPACITY by {
                    assert(self.buffers.contains(other));
                }
            }
        }
    }

    /// Replacing the bytes of a buffer by as many bytes changes that buffer only.
    pub proof fn lemma_write_any(self, id: usize)
        requires
            self.wf(),
            self.allocated(id),
        ensures
            forall|bytes: Seq<u8>|
                bytes.len() == BUFFER_CAPACITY ==> {
                    let after = #[trigger] self.write(id, bytes);
                    &&& after.wf()
                    &&& after.bytes(id) == bytes
                    &&& forall|other: usize| after.in_use(other) <==> self.in_use(other)
                    &&& forall|other: usize|
                        other != id && self.allocated(other) ==> after.bytes(other) == self.bytes(
                            other,
                        )
                },
    {
        assert forall|bytes: Seq<u8>| bytes.len() == BUFFER_CAPACITY implies ({
            let after = #[trigger] self.write(id, bytes);
            &&& after.wf()
            &&& after.bytes(id) == bytes
            &&& forall|other: usize| after.in_use(other) <==> self.in_use(other)
            &&& forall|other: usize|
                other != id && self.allocated(other) ==> after.bytes(other) == self.bytes(other)
        }) by {
            self.buffers.lemma_set(id, bytes);
            let after = self.write(id, bytes);
            assert forall|k: usize| #[trigger]
                after.buffers.contains(k) implies after.buffers.get(k).len()
                == BUFFER_CAPACITY by {
                if k != id {
                    assert(self.buffers.contains(k));
                }
            }
            assert forall|i: int| 0 <= i < after.free.len() implies after.buffers.contains(
                #[trigger] after.free[i],
            ) by {
                assert(self.buffers.contains(self.free[i]));
            }
        }
    }

    /// `release` takes a buffer out of use and touches no other.
    pub proof fn lemma_release(self, id: usize)
        requires
            self.wf(),
            self.in_use(id),
        ensures
            self.release(id).wf(),
            !self.release(id).in_use(id),
            self.release(id).acquire_id() == id,
            forall|other: usize|
                other != id ==> (self.release(id).in_use(other) <==> self.in_use(other)),
    {
        let after = self.release(id);
        assert(after.free[after.free.len() - 1] == id);
        assert forall|other: usize| other != id implies (after.in_use(other) <==> self.in_use(
            other,
        )) by {
            if self.free.contains(other) {
                let i = choose|i: int| 0 <= i < self.free.len() && self.free[i] == other;
                assert(after.free[i] == other);
            }
            if after.free.contains(other) {
                let i = choose|i: int| 0 <= i < after.free.len() && after.free[i] == other;
                assert(self.free[i] == other);
            }
        }
        assert forall|i: int, j: int|
            0 <= i < after.free.len() && 0 <= j < after.free.len() && i != j implies after.free[i]
            != after.free[j] by {
            if i < self.free.len() {
                assert(self.free[i] == after.free[i]);
            }
            if j < self.free.len() {
                assert(self.free[j] == after.free[j]);
            }
        }
    }
}

/// The content of a newly allocated buffer: `BUFFER_CAPACITY` zero bytes.
pub open spec fn zeroed() -> Seq<u8> {
    Seq::new(BUFFER_CAPACITY as nat, |i: int| 0u8)
}

/// The pool of receive buffers.
pub struct BufferPool {
    free: Vec<usize>,
    slab: Slab<Vec<u8>>,
}

impl View for BufferPool {
    type V = PoolModel;

    closed spec fn view(&self) -> PoolModel {
        PoolModel { buffers: buffer_model(self.slab), free: self.free@ }
    }
}

impl BufferPool {
    /// The pool's invariant holds.
    pub open spec fn wf(&self) -> bool {
        self@.wf()
    }

    /// A pool with no buffer.
    pub fn new() -> (p: Self)
        ensures
            p.wf(),
            p@.buffers == SlotModel::<Seq<u8>>::empty(),
            p@.free == Seq::<usize>::empty(),
    {
        BufferPool { free: Vec::with_capacity(64), slab: buffer_slab_new(64) }
    }

    /// Hands out a buffer: the most recently released one if any is free
    /// (its bytes are left as they were), otherwise a new zero-filled buffer
    /// of `BUFFER_CAPACITY` bytes.
    pub fn acquire(&mut self) -> (id: usize)
        requires
            old(self).wf(),
        ensures
            final(self).wf(),
            id == old(self)@.acquire_id(),
            final(self)@ == old(self)@.acquire(),
            !old(self)@.in_use(id),
            final(self)@.in_use(id),
    {
        proof {
            self@.lemma_acquire();
        }
        match self.free.pop() {
            Some(id) => id,
            None => {
                let buf: Vec<u8> = vec![0u8; BUFFER_CAPACITY];
                assert(buf@ =~= zeroed());
                buffer_slab_insert(&mut self.slab, buf)
            },
        }
    }

    /// Returns a buffer that is in use to the pool. Its bytes are not cleared.
    pub fn release(&mut self, id: usize)
        requires
            old(self).wf(),
            old(self)@.in_use(id),
        ensures
            final(self).wf(),
            final(self)@ == old(self)@.release(id),
            !final(self)@.in_use(id),
    {
        proof {
            self@.lemma_release(id);
        }
        self.free.push(id);
    }

    /// The bytes of buffer `id`, or `None` when no such buffer was allocated.
    pub fn bytes(&self, id: usize) -> (r: Option<&[u8]>)
        ensures
            r is Some <==> self@.allocated(id),
            r is Some ==> (r->0)@ == self@.bytes(id),
    {
        match buffer_slab_get(&self.slab, id) {
            Some(v) => Some(v.as_slice()),
            None => None,
        }
    }

    /// Mutable access to the bytes of buffer `id`, for whoever fills it with
    /// received data; `None` when no such buffer was allocated. The pool
    /// afterwards holds what was written, and is otherwise unchanged.
    pub fn bytes_mut(&mut self, id: usize) -> (r: Option<&mut [u8]>)
        requires
            old(self).wf(),
        ensures
            final(self).wf(),
            r is Some <==> old(self)@.allocated(id),
            r is Some ==> (r->0)@ == old(self)@.bytes(id),
            r is Some ==> final(self)@ == old(self)@.write(id, final(r->0)@),
            r is None ==> final(self)@ == old(self)@,
    {
        if buffer_slab_get(&self.slab, id).is_some() {
            let ghost before = self@;
            proof {
                before.lemma_write_any(id);
            }
            let r = buffer_slab_index_mut(&mut self.slab, id);
            proof {
                assert(before.write(id, final(r)@).wf());
                assert(buffer_model(after_borrow(self.slab)) =~= before.buffers.set(id, final(r)@));
            }
            Some(r)
        } else {
            None
        }
    }
}

} // verus!
