//! Laws that relate the store's operations, stated over its view (`Map` from
//! key to value) and over `swept`, the state that `clean_with_counts` leaves.

use crate::store::swept;
use vstd::prelude::*;

verus! {

/// Once the handle count of one slot has dropped to zero while every other
/// slot still has handles, a sweep removes exactly that slot and no other.
pub proof fn lemma_sweep_removes_only_released<T>(m: Map<usize, T>, counts: Seq<usize>, key: usize)
    requires
        key < counts.len(),
        counts[key as int] == 0,
        forall|k: usize| k < counts.len() && k != key ==> #[trigger] counts[k as int] > 0,
    ensures
        swept(m, counts) == m.remove(key),
{
    assert(swept(m, counts) =~= m.remove(key));
}

/// A sweep never renumbers a slot: every slot that survives keeps its key and
/// its value, so each of its handles still resolves to the same value.
pub proof fn lemma_sweep_keeps_survivors<T>(m: Map<usize, T>, counts: Seq<usize>, key: usize)
    requires
        m.contains_key(key),
        !(key < counts.len() && counts[key as int] == 0),
    ensures
        swept(m, counts).contains_key(key),
        swept(m, counts)[key] == m[key],
{
}

/// A sweep only ever removes slots: what remains is part of what was there.
pub proof fn lemma_sweep_shrinks<T>(m: Map<usize, T>, counts: Seq<usize>)
    ensures
        swept(m, counts).submap_of(m),
{
}

/// Round trip: a value inserted under a fresh key is what a lookup of that key
/// gives, and removing that key gives it back and restores the earlier store.
pub proof fn lemma_insert_round_trip<T>(m: Map<usize, T>, key: usize, v: T)
    requires
        !m.contains_key(key),
    ensures
        m.insert(key, v).contains_key(key),
        m.insert(key, v)[key] == v,
        m.insert(key, v).remove(key) == m,
{
    assert(m.insert(key, v).remove(key) =~= m);
}

} // verus!
