//! The dirty set: which data blocks have a shadow copy, and in which journal slot.
use vstd::prelude::*;
use ahash::AHashMap;

verus! {

#[verifier::external_type_specification]
#[verifier::external_body]
#[verifier::reject_recursive_types(K)]
#[verifier::reject_recursive_types(V)]
#[verifier::reject_recursive_types(S)]
pub struct ExAHashMap<K, V, S>(AHashMap<K, V, S>);

#[verifier::external_type_specification]
#[verifier::external_body]
pub struct ExRandomState(ahash::RandomState);

/// The dirty set with no entries.
pub open spec fn no_entries() -> Map<u32, u32> {
    Map::empty()
}

/// The pairs that a dirty set holds, from data-block id to journal-slot id.
pub uninterp spec fn dirty_map(m: AHashMap<u32, u32>) -> Map<u32, u32>;

/// Relies on `AHashMap::new`: a map with no entries.
#[verifier::external_body]
pub(crate) fn dirty_new() -> (r: AHashMap<u32, u32>)
    ensures
        dirty_map(r) == no_entries(),
{
    AHashMap::new()
}

/// Relies on `AHashMap::get`: the slot stored under `k`, if any.
#[verifier::external_body]
pub(crate) fn dirty_get(m: &AHashMap<u32, u32>, k: u32) -> (r: Option<u32>)
    ensures
        r == (if dirty_map(*m).contains_key(k) { Some(dirty_map(*m)[k]) } else { None::<u32> }),
{
    m.get(&k).copied()
}

/// Relies on `AHashMap::insert`: stores `v` under `k`, replacing what was there.
#[verifier::external_body]
pub(crate) fn dirty_insert(m: &mut AHashMap<u32, u32>, k: u32, v: u32)
    ensures
        dirty_map(*final(m)) == dirty_map(*old(m)).insert(k, v),
{
    m.insert(k, v);
}

/// Relies on `HashMap::clear`, reached through `AHashMap`'s `DerefMut`: no entries are left.
#[verifier::external_body]
pub(crate) fn dirty_clear(m: &mut AHashMap<u32, u32>)
    ensures
        dirty_map(*final(m)) == no_entries(),
{
    m.clear()
}

/// Whether `order` lists each pair of `m` exactly once.
pub open spec fn lists(m: Map<u32, u32>, order: Seq<(u32, u32)>) -> bool {
    &&& order.len() == m.dom().len()
    &&& forall|i: int| 0 <= i < order.len() ==> #[trigger] m.contains_key(order[i].0) && m[order[i].0] == order[i].1
    &&& forall|i: int, j: int| 0 <= i < j < order.len() ==> #[trigger] order[i].0 != #[trigger] order[j].0
    &&& forall|k: u32| #[trigger] m.contains_key(k) ==> exists|i: int| 0 <= i < order.len() && #[trigger] order[i].0 == k
}

/// Relies on `HashMap::iter`, reached through `AHashMap`'s `Deref`: it visits
/// every pair once, in an order that the hasher's seed decides.
#[verifier::external_body]
pub(crate) fn dirty_entries(m: &AHashMap<u32, u32>) -> (r: Vec<(u32, u32)>)
    ensures
        lists(dirty_map(*m), r@),
{
    m.iter().map(|(k, v)| (*k, *v)).collect()
}

} // verus!
