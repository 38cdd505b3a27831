//! Trusted items: the calls into `slab` and into std's atomic reference counting.

use rich_phantoms::PhantomInvariantAlwaysSendSync;
use slab::Slab;
use std::sync::{Arc, Weak};
use vstd::prelude::*;

verus! {

/// The strong marker shared by all handles of one slot. It is always `Send` and
/// `Sync` and invariant in `T`, whatever `T` is.
pub type Marker<T> = Arc<PhantomInvariantAlwaysSendSync<T>>;

#[verifier::external_type_specification]
#[verifier::external_body]
#[verifier::reject_recursive_types(T)]
pub struct ExPhantomInvariant<T: ?Sized>(rich_phantoms::PhantomInvariantAlwaysSendSyncWorkaround<T>);

#[verifier::external_type_specification]
#[verifier::external_body]
#[verifier::reject_recursive_types(T)]
pub struct ExSlab<T>(Slab<T>);

/// The keys that a slab of unit entries has occupied.
pub uninterp spec fn slab_keys(s: Slab<()>) -> Set<usize>;

/// Relies on `Slab::new`: a new slab has no entries.
#[verifier::external_body]
pub(crate) fn slab_new() -> (r: Slab<()>)
    ensures
        slab_keys(r) == Set::<usize>::empty(),
{
    Slab::new()
}

/// Relies on `Slab::insert`: the entry goes to a vacant key (a freed one is
/// reused first), which is returned; no other key changes.
#[verifier::external_body]
pub(crate) fn slab_insert(s: &mut Slab<()>) -> (r: usize)
    ensures
        !slab_keys(*old(s)).contains(r),
        slab_keys(*final(s)) == slab_keys(*old(s)).insert(r),
{
    s.insert(())
}

/// Relies on `Slab::remove`: the key is freed for later inserts; it panics on a
/// vacant key.
#[verifier::external_body]
pub(crate) fn slab_remove(s: &mut Slab<()>, key: usize)
    requires
        slab_keys(*old(s)).contains(key),
    ensures
        slab_keys(*final(s)) == slab_keys(*old(s)).remove(key),
{
    s.remove(key)
}

/// A weak witness of a strong marker: it reports how many handles are alive
/// without keeping any alive. Held whole, as `Weak` has an allocator parameter
/// that cannot be named here.
#[verifier::external_body]
#[verifier::reject_recursive_types(T)]
pub struct Witness<T> {
    weak: Weak<PhantomInvariantAlwaysSendSync<T>>,
}

/// Relies on `Arc::downgrade`: a weak pointer to the marker's allocation.
#[verifier::external_body]
pub(crate) fn witness_of<T>(rc: &Marker<T>) -> (r: Witness<T>) {
    Witness { weak: Arc::downgrade(rc) }
}

/// Relies on `Weak::strong_count`: how many strong markers are alive right now.
/// Other threads may drop handles at any time, so nothing is stated of it.
#[verifier::external_body]
pub(crate) fn live_count<T>(w: &Witness<T>) -> (r: usize) {
    w.weak.strong_count()
}

/// Relies on `Weak::ptr_eq`: whether two witnesses point to one allocation. It
/// depends on addresses, so nothing is stated of it.
#[verifier::external_body]
pub(crate) fn same_marker<T>(a: &Witness<T>, b: &Witness<T>) -> (r: bool) {
    Weak::ptr_eq(&a.weak, &b.weak)
}

/// Relies on `Arc::try_unwrap`: it succeeds exactly when this was the last
/// strong marker, which other threads decide, so nothing is stated of it.
/// Either way the marker given is consumed or handed back.
#[verifier::external_body]
pub(crate) fn release<T>(rc: Marker<T>) -> (r: Result<PhantomInvariantAlwaysSendSync<T>, Marker<T>>) {
    Arc::try_unwrap(rc)
}

/// Relies on `Arc::clone`: one more strong marker of the same allocation.
#[verifier::external_body]
pub(crate) fn share<T>(rc: &Marker<T>) -> (r: Marker<T>) {
    Arc::clone(rc)
}

} // verus!
