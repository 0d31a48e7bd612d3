//! A mathematical model of a dense table of reusable slots: what a slab of
//! values looks like to its callers.

use vstd::prelude::*;

verus! {

/// The abstract state of a slot table.
///
/// `slots` lists every slot ever created, in key order, `Some` where a value
/// is stored and `None` where the slot is vacant. `vacant` lists the vacant
/// keys that insertions will reuse, the next one first.
pub struct SlotModel<T> {
    pub slots: Seq<Option<T>>,
    pub vacant: Seq<usize>,
}

impl<T> SlotModel<T> {
    /// The table with no slot at all.
    pub open spec fn empty() -> Self {
        SlotModel { slots: Seq::empty(), vacant: Seq::empty() }
    }

    /// Every key on the reuse list names a vacant slot, and none is listed twice.
    pub open spec fn wf(self) -> bool {
        &&& forall|i: int|
            0 <= i < self.vacant.len() ==> (#[trigger] self.vacant[i]) < self.slots.len()
                && self.slots[self.vacant[i] as int] is None
        &&& self.vacant.no_duplicates()
    }

    /// Whether a value is stored under `key`.
    pub open spec fn contains(self, key: usize) -> bool {
        key < self.slots.len() && self.slots[key as int] is Some
    }

    /// The value stored under `key`.
    pub open spec fn get(self, key: usize) -> T
        recommends
            self.contains(key),
    {
        self.slots[key as int]->0
    }

    /// The key that the next insertion will use: the most recently freed key
    /// if there is one, otherwise the first key never used.
    pub open spec fn next_key(self) -> int {
        if self.vacant.len() > 0 {
            self.vacant[0] as int
        } else {
            self.slots.len() as int
        }
    }

    /// The table after storing `value` under `next_key()`.
    pub open spec fn insert(self, value: T) -> Self {
        if self.vacant.len() > 0 {
            SlotModel {
                slots: self.slots.update(self.vacant[0] as int, Some(value)),
                vacant: self.vacant.skip(1),
            }
        } else {
            SlotModel { slots: self.slots.push(Some(value)), vacant: self.vacant }
        }
    }

    /// The table after overwriting the value stored under `key`.
    pub open spec fn set(self, key: usize, value: T) -> Self
        recommends
            self.contains(key),
    {
        SlotModel { slots: self.slots.update(key as int, Some(value)), vacant: self.vacant }
    }

    /// The table after freeing `key`, which becomes the next key to be reused.
    pub open spec fn remove(self, key: usize) -> Self
        recommends
            self.contains(key),
    {
        SlotModel {
            slots: self.slots.update(key as int, None),
            vacant: seq![key] + self.vacant,
        }
    }

    /// An insertion uses a key that held no value, stores the value there and
    /// leaves every other key as it was.
    pub proof fn lemma_insert(self, value: T)
        requires
            self.wf(),
        ensures
            self.insert(value).wf(),
            0 <= self.next_key(),
            self.next_key() <= usize::MAX ==> {
                let key = self.next_key() as usize;
                &&& !self.contains(key)
                &&& self.insert(value).contains(key)
                &&& self.insert(value).get(key) == value
                &&& forall|k: usize|
                    k != key ==> (self.insert(value).contains(k) <==> self.contains(k))
                        && (self.contains(k) ==> self.insert(value).get(k) == self.get(k))
            },
    {
        let after = self.insert(value);
        if self.vacant.len() > 0 {
            assert(self.vacant[0] < self.slots.len());
            assert forall|i: int| 0 <= i < after.vacant.len() implies (
            #[trigger] after.vacant[i]) < after.slots.len()
                && after.slots[after.vacant[i] as int] is None by {
                assert(after.vacant[i] == self.vacant[i + 1]);
                assert(self.vacant[i + 1] != self.vacant[0]);
            }
            assert(after.vacant.no_duplicates()) by {
                assert forall|i: int, j: int|
                    0 <= i < after.vacant.len() && 0 <= j < after.vacant.len() && i != j implies after.vacant[i]
                    != after.vacant[j] by {
                    assert(after.vacant[i] == self.vacant[i + 1]);
                    assert(after.vacant[j] == self.vacant[j + 1]);
                }
            }
        }
    }

    /// Overwriting a stored value changes that key only.
    pub proof fn lemma_set(self, key: usize, value: T)
        requires
            self.wf(),
            self.contains(key),
        ensures
            self.set(key, value).wf(),
            self.set(key, value).contains(key),
            self.set(key, value).get(key) == value,
            self.set(key, value).next_key() == self.next_key(),
            forall|k: usize|
                k != key ==> (self.set(key, value).contains(k) <==> self.contains(k)) && (
                self.contains(k) ==> self.set(key, value).get(k) == self.get(k)),
    {
        let after = self.set(key, value);
        assert forall|i: int| 0 <= i < after.vacant.len() implies (#[trigger] after.vacant[i])
            < after.slots.len() && after.slots[after.vacant[i] as int] is None by {
            assert(self.vacant[i] != key);
        }
    }

    /// Freeing a key removes that value only, and the freed key is the next
    /// one to be handed out.
    pub proof fn lemma_remove(self, key: usize)
        requires
            self.wf(),
            self.contains(key),
        ensures
            self.remove(key).wf(),
            !self.remove(key).contains(key),
            self.remove(key).next_key() == key,
            forall|k: usize|
                k != key ==> (self.remove(key).contains(k) <==> self.contains(k)) && (
                self.contains(k) ==> self.remove(key).get(k) == self.get(k)),
    {
        let after = self.remove(key);
        assert forall|i: int| 0 <= i < after.vacant.len() implies (#[trigger] after.vacant[i])
            < after.slots.len() && after.slots[after.vacant[i] as int] is None by {
            if i > 0 {
                assert(after.vacant[i] == self.vacant[i - 1]);
                assert(self.vacant[i - 1] != key);
            }
        }
        assert forall|i: int, j: int|
            0 <= i < after.vacant.len() && 0 <= j < after.vacant.len() && i != j implies after.vacant[i]
            != after.vacant[j] by {
            if i > 0 {
                assert(after.vacant[i] == self.vacant[i - 1]);
            }
            if j > 0 {
                assert(after.vacant[j] == self.vacant[j - 1]);
            }
        }
    }
}

} // verus!
