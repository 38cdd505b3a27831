//! The store and its handles.

use crate::outside::{
    live_count, release, same_marker, share, slab_insert, slab_keys, slab_new, slab_remove,
    witness_of, Marker, Witness,
};
use slab::Slab;
use std::marker::PhantomData;
use std::sync::Arc;
use vstd::prelude::*;

verus! {

/// A handle to a value in an `ObjectStore`. Any thread may hold it, even where
/// `T` is neither `Send` nor `Sync`: the value itself is reached only through
/// the store, on the thread that owns the store.
///
/// Besides its key, a handle carries two ghost identities: the store that
/// issued it and the lineage of its slot (shared by all its clones). A store
/// answers only to handles of its own, for a slot that is still the one they
/// were issued for.
#[must_use]
#[verifier::reject_recursive_types(T)]
pub struct ObjectRef<T> {
    index: usize,
    rc: Marker<T>,
    store: Ghost<int>,
    lineage: Ghost<int>,
}

impl<T> ObjectRef<T> {
    /// The key of the slot that this handle refers to.
    pub closed spec fn key(&self) -> usize {
        self.index
    }

    /// The identity of the store that issued this handle.
    pub closed spec fn store_id(&self) -> int {
        self.store@
    }

    /// The identity of the insertion this handle comes from.
    pub closed spec fn id(&self) -> int {
        self.lineage@
    }
}

impl<T> Clone for ObjectRef<T> {
    /// Another handle to the same slot, sharing its strong marker.
    fn clone(&self) -> (r: Self)
        ensures
            r.key() == self.key(),
            r.store_id() == self.store_id(),
            r.id() == self.id(),
    {
        ObjectRef { index: self.index, rc: share(&self.rc), store: self.store, lineage: self.lineage }
    }
}

/// A slot: the value, a weak witness of its handles' strong marker, and the
/// identity of the insertion that filled it.
#[verifier::reject_recursive_types(T)]
struct Object<T> {
    rc: Witness<T>,
    data: T,
    lineage: Ghost<int>,
}

/// A store of values that are not necessarily `Send` or `Sync`, reached
/// through `ObjectRef` handles.
///
/// The slab hands out the keys, reusing freed ones; the value under a key sits
/// at that position of `slots`. The slab holds no values itself: what a slab
/// holds can only be stated for one concrete item type, and here the item
/// type is generic. A slot whose handles are all dropped stays until `clean`
/// runs, or until `remove` is given its last handle.
#[verifier::reject_recursive_types(T)]
pub struct ObjectStore<T> {
    keys: Slab<()>,
    slots: Vec<Option<Object<T>>>,
    id: Ghost<int>,
    issued: Ghost<int>,
}

impl<T> Default for ObjectStore<T> {
    /// An empty store. Nothing is promised of its identity, so no handle can
    /// be shown to belong to it before it issues one.
    fn default() -> (r: Self)
        ensures
            r.wf(),
            r@ == Map::<usize, T>::empty(),
            r.ids() == Map::<usize, int>::empty(),
            r.issued() == 0,
    {
        let r = ObjectStore {
            keys: slab_new(),
            slots: Vec::new(),
            id: Ghost(arbitrary()),
            issued: Ghost(0),
        };
        assert(r@ =~= Map::<usize, T>::empty());
        assert(r.ids() =~= Map::<usize, int>::empty());
        r
    }
}

/// What `clean_with_counts` leaves of the store map `m`, given the live handle
/// count `counts[k]` observed for each key `k`: every slot whose count is known
/// to be zero goes, every other slot stays unchanged.
pub open spec fn swept<V>(m: Map<usize, V>, counts: Seq<usize>) -> Map<usize, V> {
    Map::new(
        |k: usize| m.contains_key(k) && !(k < counts.len() && counts[k as int] == 0),
        |k: usize| m[k],
    )
}

/// The insertion identity of each filled slot of `slots`, by position.
spec fn ids_of<T>(slots: Seq<Option<Object<T>>>) -> Map<usize, int> {
    Map::new(
        |k: usize| k < slots.len() && slots[k as int] is Some,
        |k: usize| slots[k as int]->Some_0.lineage@,
    )
}

/// Changing what a filled slot holds, but not its identity, keeps the
/// identities of all slots.
proof fn lemma_ids_keep_on_data_update<T>(slots: Seq<Option<Object<T>>>, key: usize)
    requires
        key < slots.len(),
        slots[key as int] is Some,
    ensures
        forall|o: Object<T>|
            o.lineage == slots[key as int]->Some_0.lineage ==> #[trigger] ids_of(
                slots.update(key as int, Some(o)),
            ) == ids_of(slots),
{
    assert forall|o: Object<T>| o.lineage == slots[key as int]->Some_0.lineage implies #[trigger] ids_of(
        slots.update(key as int, Some(o)),
    ) == ids_of(slots) by {
        assert(ids_of(slots.update(key as int, Some(o))) =~= ids_of(slots));
    }
}

impl<T> ObjectStore<T> {
    spec fn occupied(&self, k: usize) -> bool {
        k < self.slots@.len() && self.slots@[k as int] is Some
    }

    /// The slab's keys are exactly the occupied slots, and each slot has its
    /// own insertion identity, below the number of insertions made.
    pub closed spec fn wf(&self) -> bool {
        &&& forall|k: usize| #[trigger] slab_keys(self.keys).contains(k) <==> self.occupied(k)
        &&& 0 <= self.issued@
        &&& forall|k: usize| #[trigger] self.ids().contains_key(k) ==> 0 <= self.ids()[k] < self.issued@
        &&& forall|j: usize, k: usize|
            #[trigger] self.ids().contains_key(j) && #[trigger] self.ids().contains_key(k) && j != k
                ==> self.ids()[j] != self.ids()[k]
    }

    /// The stored values, by key.
    pub closed spec fn view(&self) -> Map<usize, T> {
        Map::new(|k: usize| self.occupied(k), |k: usize| self.slots@[k as int]->Some_0.data)
    }

    /// The insertion identity of each stored slot, by key.
    pub closed spec fn ids(&self) -> Map<usize, int> {
        ids_of(self.slots@)
    }

    /// The identity of this store.
    pub closed spec fn store_id(&self) -> int {
        self.id@
    }

    /// How many insertions this store has made.
    pub closed spec fn issued(&self) -> int {
        self.issued@
    }

    /// `obj_ref` was issued by this store for a slot that is still stored.
    pub open spec fn owns(&self, obj_ref: &ObjectRef<T>) -> bool {
        &&& obj_ref.store_id() == self.store_id()
        &&& self.ids().contains_key(obj_ref.key())
        &&& self.ids()[obj_ref.key()] == obj_ref.id()
    }

    /// Every stored value has an identity and every identity a value.
    pub proof fn lemma_ids_match_values(&self)
        ensures
            self.ids().dom() == self@.dom(),
    {
        assert(self.ids().dom() =~= self@.dom());
    }

    /// The value that `obj_ref` refers to.
    pub fn get(&self, obj_ref: &ObjectRef<T>) -> (r: &T)
        requires
            self.owns(obj_ref),
        ensures
            *r == self@[obj_ref.key()],
    {
        &self.slots[obj_ref.index].as_ref().unwrap().data
    }

    /// The value that `obj_ref` refers to, to change in place.
    pub fn get_mut(&mut self, obj_ref: &ObjectRef<T>) -> (r: &mut T)
        requires
            old(self).wf(),
            old(self).owns(obj_ref),
        ensures
            *r == old(self)@[obj_ref.key()],
            final(self).wf(),
            final(self)@ == old(self)@.insert(obj_ref.key(), *final(r)),
            final(self).ids() == old(self).ids(),
            final(self).store_id() == old(self).store_id(),
            final(self).issued() == old(self).issued(),
    {
        proof {
            lemma_ids_keep_on_data_update(self.slots@, obj_ref.index);
        }
        &mut self.slots[obj_ref.index].as_mut().unwrap().data
    }

    /// The number of live handles of each slot, by key, as it stands now; a
    /// free key counts zero. Every key of the store is below its length.
    pub fn live_counts(&self) -> (r: Vec<usize>)
        ensures
            forall|k: usize| self@.contains_key(k) ==> k < r@.len(),
            forall|k: usize| k < r@.len() && !self@.contains_key(k) ==> r@[k as int] == 0,
    {
        let mut counts: Vec<usize> = Vec::new();
        let mut i: usize = 0;
        while i < self.slots.len()
            invariant
                i <= self.slots@.len(),
                counts@.len() == i,
                forall|k: usize| k < i && !self.occupied(k) ==> counts@[k as int] == 0,
            decreases self.slots@.len() - i,
        {
            let n: usize = match &self.slots[i] {
                Some(obj) => live_count(&obj.rc),
                None => 0,
            };
            counts.push(n);
            i += 1;
        }
        counts
    }

    /// Removes every slot whose observed handle count in `counts` is zero.
    /// The other slots keep their keys, values and identities.
    ///
    /// The counts are trusted as given: a zero for a slot whose handles are
    /// still alive frees it under them, and its key may then back a new value.
    /// Pass what `live_counts` reported, as `clean` does.
    pub fn clean_with_counts(&mut self, counts: &Vec<usize>)
        requires
            old(self).wf(),
        ensures
            final(self).wf(),
            final(self)@ == swept(old(self)@, counts@),
            final(self).ids() == swept(old(self).ids(), counts@),
            final(self).store_id() == old(self).store_id(),
            final(self).issued() == old(self).issued(),
    {
        let ghost before = self@;
        let ghost before_ids = self.ids();
        let mut i: usize = 0;
        while i < self.slots.len() && i < counts.len()
            invariant
                self.wf(),
                i <= self.slots@.len(),
                self.id == old(self).id,
                self.issued == old(self).issued,
                self@ == Map::new(
                    |k: usize| before.contains_key(k) && !(k < i && k < counts@.len() && counts@[k as int] == 0),
                    |k: usize| before[k],
                ),
                self.ids() == Map::new(
                    |k: usize| before_ids.contains_key(k) && !(k < i && k < counts@.len() && counts@[k as int] == 0),
                    |k: usize| before_ids[k],
                ),
            decreases self.slots@.len() - i,
        {
            if counts[i] == 0 && self.slots[i].is_some() {
                let ghost prev = self@;
                let ghost prev_ids = self.ids();
                slab_remove(&mut self.keys, i);
                self.slots[i] = None;
                assert(self@ =~= prev.remove(i));
                assert(self.ids() =~= prev_ids.remove(i));
            }
            i += 1;
        }
        assert(self@ =~= swept(before, counts@));
        assert(self.ids() =~= swept(before_ids, counts@));
    }

    /// Reclaims every slot whose handles have all been dropped, on this thread
    /// or any other. The other slots keep their keys, values and identities.
    /// Which slots go is decided by the handle counts as they stand, which
    /// other threads change; `clean_with_counts` states the outcome for given
    /// counts.
    pub fn clean(&mut self)
        requires
            old(self).wf(),
        ensures
            final(self).wf(),
            exists|counts: Seq<usize>|
                #![trigger swept(old(self)@, counts)]
                final(self)@ == swept(old(self)@, counts) && final(self).ids() == swept(old(self).ids(), counts),
            final(self)@.submap_of(old(self)@),
            final(self).store_id() == old(self).store_id(),
            final(self).issued() == old(self).issued(),
            forall|g: ObjectRef<T>|
                old(self).owns(&g) && final(self)@.contains_key(g.key()) ==> #[trigger] final(self).owns(&g),
    {
        let counts = self.live_counts();
        self.clean_with_counts(&counts);
        assert(final(self)@ == swept(old(self)@, counts@));
    }

    /// Stores `data` in a free slot, reusing a freed key if there is one, and
    /// returns the first handle to it, with a new insertion identity.
    pub fn insert(&mut self, data: T) -> (h: ObjectRef<T>)
        requires
            old(self).wf(),
        ensures
            final(self).wf(),
            !old(self)@.contains_key(h.key()),
            final(self)@ == old(self)@.insert(h.key(), data),
            final(self).ids() == old(self).ids().insert(h.key(), h.id()),
            h.id() == old(self).issued(),
            forall|k: usize| old(self).ids().contains_key(k) ==> old(self).ids()[k] != h.id(),
            final(self).issued() == old(self).issued() + 1,
            h.store_id() == old(self).store_id(),
            final(self).store_id() == old(self).store_id(),
            final(self).owns(&h),
            forall|g: ObjectRef<T>| old(self).owns(&g) ==> #[trigger] final(self).owns(&g),
    {
        let rc: Marker<T> = Arc::new(PhantomData);
        let lineage: Ghost<int> = Ghost(self.issued@);
        let obj = Object { rc: witness_of(&rc), data, lineage };
        let ghost before = self@;
        let ghost before_ids = self.ids();
        let index = slab_insert(&mut self.keys);
        assert(!self.occupied(index)) by {
            assert(!slab_keys(old(self).keys).contains(index) ==> !old(self).occupied(index));
        }
        while self.slots.len() <= index
            invariant
                forall|k: usize| #[trigger] slab_keys(self.keys).contains(k) <==> (self.occupied(k) || k == index),
                !self.occupied(index),
                self@ == before,
                self.ids() == before_ids,
                self.issued == old(self).issued,
                self.id == old(self).id,
            decreases index + 1 - self.slots.len(),
        {
            self.slots.push(None);
            assert(self@ =~= before);
            assert(self.ids() =~= before_ids);
        }
        self.slots[index] = Some(obj);
        self.issued = Ghost(self.issued@ + 1);
        assert(self@ =~= before.insert(index, data));
        assert(self.ids() =~= before_ids.insert(index, lineage@));
        assert forall|k: usize| #[trigger] self.ids().contains_key(k) implies 0 <= self.ids()[k]
            < self.issued@ by {
            if k != index {
                assert(before_ids.contains_key(k));
            }
        }
        assert forall|j: usize, k: usize|
            #[trigger] self.ids().contains_key(j) && #[trigger] self.ids().contains_key(k) && j != k
                implies self.ids()[j] != self.ids()[k] by {
            if j != index {
                assert(before_ids.contains_key(j));
            }
            if k != index {
                assert(before_ids.contains_key(k));
            }
        }
        ObjectRef { index, rc, store: self.id, lineage }
    }

    /// Gives back a handle of this store. When it was the last handle of its
    /// slot, the slot is removed and its value returned; while other handles
    /// remain, nothing changes and `None` is returned. Which of the two holds
    /// is decided by the handle count, which other threads change;
    /// `finish_remove` states the outcome for each answer.
    pub fn remove(&mut self, obj_ref: ObjectRef<T>) -> (r: Option<T>)
        requires
            old(self).wf(),
            old(self).owns(&obj_ref),
        ensures
            final(self).wf(),
            final(self).store_id() == old(self).store_id(),
            final(self).issued() == old(self).issued(),
            match r {
                Some(v) => {
                    &&& v == old(self)@[obj_ref.key()]
                    &&& final(self)@ == old(self)@.remove(obj_ref.key())
                    &&& final(self).ids() == old(self).ids().remove(obj_ref.key())
                },
                None => final(self)@ == old(self)@ && final(self).ids() == old(self).ids(),
            },
    {
        let index = obj_ref.index;
        let ours = witness_of(&obj_ref.rc);
        let matched = same_marker(&ours, &self.slots[index].as_ref().unwrap().rc);
        let last = if matched {
            match release(obj_ref.rc) {
                Ok(_) => true,
                Err(_) => false,
            }
        } else {
            false
        };
        self.finish_remove(index, matched, last)
    }

    /// The rest of `remove`, given whether the handle's marker is the slot's
    /// (`matched`) and whether it was the last one (`last`): only then is the
    /// slot removed and its value returned.
    fn finish_remove(&mut self, key: usize, matched: bool, last: bool) -> (r: Option<T>)
        requires
            old(self).wf(),
            old(self).ids().contains_key(key),
        ensures
            final(self).wf(),
            final(self).store_id() == old(self).store_id(),
            final(self).issued() == old(self).issued(),
            matched && last ==> {
                &&& r == Some(old(self)@[key])
                &&& final(self)@ == old(self)@.remove(key)
                &&& final(self).ids() == old(self).ids().remove(key)
            },
            !(matched && last) ==> r is None && final(self)@ == old(self)@ && final(self).ids() == old(
                self,
            ).ids(),
    {
        if !(matched && last) {
            return None;
        }
        let ghost before = self@;
        let ghost before_ids = self.ids();
        slab_remove(&mut self.keys, key);
        let mut taken: Option<Object<T>> = None;
        std::mem::swap(&mut taken, &mut self.slots[key]);
        assert(self@ =~= before.remove(key));
        assert(self.ids() =~= before_ids.remove(key));
        Some(taken.unwrap().data)
    }
}

} // verus!
