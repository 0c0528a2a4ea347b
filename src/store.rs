//! The concurrent map from channel id to the generation of the channel that
//! currently has that id, declared for the verifier.

use vstd::prelude::*;
use dashmap::DashMap;

verus! {

#[verifier::external_type_specification]
#[verifier::external_body]
#[verifier::reject_recursive_types(K)]
#[verifier::reject_recursive_types(V)]
#[verifier::reject_recursive_types(S)]
pub struct ExDashMap<K, V, S>(DashMap<K, V, S>);

/// The map from channel id to channel generation.
pub type ChannelIndex = DashMap<String, u64>;

/// What an index holds: each channel id with its generation.
pub uninterp spec fn generations_in(m: ChannelIndex) -> Map<Seq<char>, u64>;

/// Relies on `DashMap::new`: a new map is empty.
#[verifier::external_body]
pub(crate) fn index_new() -> (r: ChannelIndex)
    ensures
        generations_in(r).is_empty(),
{
    DashMap::new()
}

/// Relies on `DashMap::insert`: afterwards the key maps to the value, and
/// the value it replaced, if any, is returned.
#[verifier::external_body]
pub(crate) fn index_insert(m: &mut ChannelIndex, k: String, v: u64) -> (r: Option<u64>)
    ensures
        generations_in(*final(m)) == generations_in(*old(m)).insert(k@, v),
        r is Some <==> generations_in(*old(m)).contains_key(k@),
        r is Some ==> r->0 == generations_in(*old(m))[k@],
{
    m.insert(k, v)
}

/// Relies on `DashMap::remove`: afterwards the key is absent, and the value
/// it held, if any, is returned.
#[verifier::external_body]
pub(crate) fn index_remove(m: &mut ChannelIndex, k: &String) -> (r: Option<u64>)
    ensures
        generations_in(*final(m)) == generations_in(*old(m)).remove(k@),
        r is Some <==> generations_in(*old(m)).contains_key(k@),
        r is Some ==> r->0 == generations_in(*old(m))[k@],
{
    m.remove(k).map(|(_, v)| v)
}

/// Relies on `DashMap::get`: the value that the key maps to, if any.
#[verifier::external_body]
pub(crate) fn index_get(m: &ChannelIndex, k: &String) -> (r: Option<u64>)
    ensures
        r is Some <==> generations_in(*m).contains_key(k@),
        r is Some ==> r->0 == generations_in(*m)[k@],
{
    m.get(k).map(|e| *e)
}

} // verus!
