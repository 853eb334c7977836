//! Concurrent collections and identifiers that the session manager keeps.
//!
//! The sets and the queue are `dashmap` collections. Their contents are
//! described by the spec functions below, and every operation that the
//! library performs on them goes through one of the wrappers in this file.
//! Operations that mutate take `&mut`, so that a change of contents is
//! visible to the verifier even though the collections themselves only need
//! a shared reference.
use dashmap::{DashMap, DashSet};
use matrix_sdk_common::uuid::Uuid;
use vstd::prelude::*;

use crate::requests::OutgoingRequest;

verus! {

#[verifier::external_type_specification]
#[verifier::external_body]
#[verifier::reject_recursive_types(K)]
#[verifier::reject_recursive_types(S)]
pub struct ExDashSet<K, S>(DashSet<K, S>);

/// A (user id, device id) pair as the contracts see it.
pub type DevicePair = (Seq<char>, Seq<char>);

/// The pair of views of a (user id, device id) pair of strings.
pub open spec fn pair_view(p: (String, String)) -> DevicePair {
    (p.0@, p.1@)
}

/// The views of a list of (user id, device id) pairs of strings.
pub open spec fn pair_views(s: Seq<(String, String)>) -> Seq<DevicePair> {
    s.map_values(|p: (String, String)| pair_view(p))
}

/// The (user, device) pairs held by a set.
pub uninterp spec fn pair_set_contents(s: DashSet<(String, String)>) -> Set<DevicePair>;

/// Relies on `DashSet::new`: a new set is empty.
#[verifier::external_body]
pub(crate) fn pair_set_new() -> (r: DashSet<(String, String)>)
    ensures
        pair_set_contents(r) == Set::<DevicePair>::empty(),
{
    DashSet::new()
}

/// Relies on `DashSet::insert`: the key is in the set afterwards, and no
/// other key is added or removed.
#[verifier::external_body]
pub(crate) fn pair_set_insert(s: &mut DashSet<(String, String)>, user_id: String, device_id: String)
    ensures
        pair_set_contents(*final(s)) == pair_set_contents(*old(s)).insert((user_id@, device_id@)),
{
    s.insert((user_id, device_id));
}

/// Relies on `DashSet::remove`: it returns the key if it was present, and
/// the key is absent afterwards.
#[verifier::external_body]
pub(crate) fn pair_set_remove(s: &mut DashSet<(String, String)>, user_id: &String, device_id: &String) -> (r: bool)
    ensures
        r == pair_set_contents(*old(s)).contains((user_id@, device_id@)),
        pair_set_contents(*final(s)) == pair_set_contents(*old(s)).remove((user_id@, device_id@)),
{
    s.remove(&(user_id.clone(), device_id.clone())).is_some()
}

/// Relies on `DashSet::contains`: whether the key is in the set.
#[verifier::external_body]
pub(crate) fn pair_set_contains(s: &DashSet<(String, String)>, user_id: &String, device_id: &String) -> (r: bool)
    ensures
        r == pair_set_contents(*s).contains((user_id@, device_id@)),
{
    s.contains(&(user_id.clone(), device_id.clone()))
}

/// Relies on `DashSet::iter`: it visits every key of the set once, in an
/// order that depends on the hasher.
#[verifier::external_body]
pub(crate) fn pair_set_items(s: &DashSet<(String, String)>) -> (r: Vec<(String, String)>)
    ensures
        pair_views(r@).to_set() == pair_set_contents(*s),
{
    s.iter().map(|k| k.key().clone()).collect()
}

#[verifier::external_type_specification]
#[verifier::external_body]
#[verifier::reject_recursive_types(K)]
#[verifier::reject_recursive_types(V)]
#[verifier::reject_recursive_types(S)]
pub struct ExDashMap<K, V, S>(DashMap<K, V, S>);

/// The outgoing queue: to-device requests by request id.
pub type RequestQueue = DashMap<u128, OutgoingRequest>;

/// The requests held by the outgoing queue, by request id.
pub uninterp spec fn queued_requests(q: RequestQueue) -> Map<u128, OutgoingRequest>;

/// Relies on `DashMap::new`: a new map is empty.
#[verifier::external_body]
pub(crate) fn request_queue_new() -> (r: RequestQueue)
    ensures
        queued_requests(r).dom() == Set::<u128>::empty(),
{
    DashMap::new()
}

/// Relies on `DashMap::insert`: the key maps to the value afterwards,
/// replacing an earlier value under the same key.
#[verifier::external_body]
pub(crate) fn request_queue_insert(q: &mut RequestQueue, id: u128, request: OutgoingRequest)
    ensures
        queued_requests(*final(q)) == queued_requests(*old(q)).insert(id, request),
{
    q.insert(id, request);
}

/// Relies on `DashMap::remove`: the key is absent afterwards; removing an
/// absent key changes nothing.
#[verifier::external_body]
pub(crate) fn request_queue_remove(q: &mut RequestQueue, id: u128)
    ensures
        queued_requests(*final(q)) == queued_requests(*old(q)).remove(id),
{
    q.remove(&id);
}

/// Relies on `DashMap::len`: the number of keys in the map.
#[verifier::external_body]
pub(crate) fn request_queue_len(q: &RequestQueue) -> (r: usize)
    ensures
        r as int == queued_requests(*q).len(),
{
    q.len()
}

/// Relies on `DashMap::get`: the value under the key, if any, handed out as
/// a copy made by the request's `Clone`.
#[verifier::external_body]
pub(crate) fn request_queue_get(q: &RequestQueue, id: u128) -> (r: Option<OutgoingRequest>)
    ensures
        r is Some <==> queued_requests(*q).contains_key(id),
        r is Some ==> r->0 == queued_requests(*q)[id],
{
    q.get(&id).map(|e| e.value().clone())
}

/// Relies on `Uuid::new_v4`: a random identifier, read as its 128-bit
/// value. Nothing is promised of the value.
#[verifier::external_body]
pub(crate) fn new_request_id() -> (r: u128) {
    Uuid::new_v4().as_u128()
}

} // verus!
