//! The operation token table, kept in a `slab::Slab`.

use vstd::prelude::*;
use slab::Slab;
use crate::token::Token;
use crate::slots::SlotModel;

verus! {

#[verifier::external_type_specification]
#[verifier::external_body]
#[verifier::reject_recursive_types(T)]
pub struct ExSlab<T>(Slab<T>);

/// The slots of a token slab in key order: `Some` for an occupied entry,
/// `None` for a vacant one.
pub uninterp spec fn token_slots(s: Slab<Token>) -> Seq<Option<Token>>;

/// The vacant keys of a token slab that insertions will reuse, starting with
/// the key that the next insertion takes.
pub uninterp spec fn token_vacant(s: Slab<Token>) -> Seq<usize>;

/// The model of a token slab, assembled from its two named parts.
pub open spec fn token_model(s: Slab<Token>) -> SlotModel<Token> {
    SlotModel { slots: token_slots(s), vacant: token_vacant(s) }
}

/// `Slab::with_capacity`: a slab with no entry and no vacant key. The
/// capacity only reserves memory; the bound keeps the reservation far from
/// the size at which the allocation would panic.
#[verifier::external_body]
fn token_slab_new(capacity: usize) -> (s: Slab<Token>)
    requires
        capacity <= 1024,
    ensures
        token_slots(s) == Seq::<Option<Token>>::empty(),
        token_vacant(s) == Seq::<usize>::empty(),
{
    Slab::with_capacity(capacity)
}

/// `Slab::insert`: stores the value under the first key of the vacant list,
/// or in a new entry after the last one when that list is empty, and returns
/// the key. As for `Vec::push`, on which it rests, running out of memory is
/// not modelled.
#[verifier::external_body]
fn token_slab_insert(s: &mut Slab<Token>, t: Token) -> (key: usize)
    ensures
        key == token_model(*old(s)).next_key(),
        token_slots(*final(s)) == token_model(*old(s)).insert(t).slots,
        token_vacant(*final(s)) == token_model(*old(s)).insert(t).vacant,
{
    s.insert(t)
}

/// `Slab::get`: the value stored under the key, or `None` when the key is
/// past the last entry or its entry is vacant.
#[verifier::external_body]
fn token_slab_get(s: &Slab<Token>, key: usize) -> (r: Option<&Token>)
    ensures
        r is Some <==> token_model(*s).contains(key),
        r is Some ==> *r->0 == token_model(*s).get(key),
{
    s.get(key)
}

/// Assignment through `IndexMut::index_mut` of `Slab`: replaces the value
/// stored under an occupied key and touches nothing else. The index
/// operation panics on any other key, which the precondition leaves out.
#[verifier::external_body]
fn token_slab_set(s: &mut Slab<Token>, key: usize, t: Token)
    requires
        token_model(*old(s)).contains(key),
    ensures
        token_slots(*final(s)) == token_model(*old(s)).set(key, t).slots,
        token_vacant(*final(s)) == token_vacant(*old(s)),
{
    s[key] = t;
}

/// `Slab::try_remove`: takes the value out of an occupied entry, which
/// becomes the head of the vacant list, and returns it; leaves the slab alone
/// and returns `None` for any other key.
#[verifier::external_body]
fn token_slab_remove(s: &mut Slab<Token>, key: usize) -> (r: Option<Token>)
    ensures
        r is Some <==> token_model(*old(s)).contains(key),
        r is Some ==> r->0 == token_model(*old(s)).get(key),
        r is Some ==> token_slots(*final(s)) == token_model(*old(s)).remove(key).slots,
        r is Some ==> token_vacant(*final(s)) == token_model(*old(s)).remove(key).vacant,
        r is None ==> token_slots(*final(s)) == token_slots(*old(s)),
        r is None ==> token_vacant(*final(s)) == token_vacant(*old(s)),
{
    s.try_remove(key)
}

/// The table of pending operations: each token lives under a small integer
/// key that is attached to the request it describes.
pub struct TokenTable {
    slab: Slab<Token>,
}

impl View for TokenTable {
    type V = SlotModel<Token>;

    closed spec fn view(&self) -> SlotModel<Token> {
        token_model(self.slab)
    }
}

impl TokenTable {
    /// The table's reuse list is consistent with its slots.
    pub open spec fn wf(&self) -> bool {
        self@.wf()
    }

    /// An empty table.
    pub fn new() -> (t: Self)
        ensures
            t.wf(),
            t@ == SlotModel::<Token>::empty(),
    {
        TokenTable { slab: token_slab_new(64) }
    }

    /// Stores a token and returns its key: the most recently freed key if
    /// there is one, else the first key never used.
    pub fn insert(&mut self, t: Token) -> (key: usize)
        requires
            old(self).wf(),
        ensures
            final(self).wf(),
            key == old(self)@.next_key(),
            final(self)@ == old(self)@.insert(t),
            !old(self)@.contains(key),
            final(self)@.contains(key),
            final(self)@.get(key) == t,
    {
        proof {
            self@.lemma_insert(t);
        }
        token_slab_insert(&mut self.slab, t)
    }

    /// The token stored under `key`, if there is one.
    pub fn get(&self, key: usize) -> (r: Option<Token>)
        ensures
            r is Some <==> self@.contains(key),
            r is Some ==> r->0 == self@.get(key),
    {
        match token_slab_get(&self.slab, key) {
            Some(t) => Some(*t),
            None => None,
        }
    }

    /// Replaces the token stored under `key`, keeping the key. Returns
    /// `false`, and changes nothing, when no token is stored there.
    pub fn replace(&mut self, key: usize, t: Token) -> (done: bool)
        requires
            old(self).wf(),
        ensures
            final(self).wf(),
            done == old(self)@.contains(key),
            done ==> final(self)@ == old(self)@.set(key, t),
            !done ==> final(self)@ == old(self)@,
    {
        if token_slab_get(&self.slab, key).is_some() {
            proof {
                self@.lemma_set(key, t);
            }
            token_slab_set(&mut self.slab, key, t);
            true
        } else {
            false
        }
    }

    /// Removes and returns the token stored under `key`, freeing the key for
    /// reuse. Returns `None`, and changes nothing, when no token is stored
    /// there.
    pub fn remove(&mut self, key: usize) -> (r: Option<Token>)
        requires
            old(self).wf(),
        ensures
            final(self).wf(),
            r is Some <==> old(self)@.contains(key),
            r is Some ==> r->0 == old(self)@.get(key) && final(self)@ == old(self)@.remove(key),
            r is None ==> final(self)@ == old(self)@,
    {
        proof {
            if self@.contains(key) {
                self@.lemma_remove(key);
            }
        }
        token_slab_remove(&mut self.slab, key)
    }
}

} // verus!
