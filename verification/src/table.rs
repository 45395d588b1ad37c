//! Per-key state, held in [`dashmap::DashMap`].
//!
//! A map is only ever changed through an exclusive reference here, so what it
//! holds is a function of the calls made. Keys count by their characters.
use dashmap::DashMap;
use std::collections::VecDeque;
use vstd::prelude::*;

use crate::quota::Quota;

verus! {

/// The concurrent hash map.
#[verifier::external_type_specification]
#[verifier::external_body]
#[verifier::reject_recursive_types(K)]
#[verifier::reject_recursive_types(V)]
#[verifier::reject_recursive_types(S)]
pub struct ExDashMap<K, V, S>(dashmap::DashMap<K, V, S>);

/// The arrival time that a map holds for each key.
pub uninterp spec fn arrival_times(map: DashMap<String, u64>) -> Map<Seq<char>, u64>;

/// The request times that a map holds for each key, oldest first.
pub uninterp spec fn request_logs(map: DashMap<String, VecDeque<u128>>) -> Map<
    Seq<char>,
    Seq<u128>,
>;

/// The quota that a map holds for each key.
pub uninterp spec fn key_quotas(map: DashMap<String, Quota>) -> Map<Seq<char>, Quota>;

/// `DashMap::new`: holds nothing.
#[verifier::external_body]
pub(crate) fn new_arrival_times() -> (r: DashMap<String, u64>)
    ensures
        (arrival_times(r) == Map::<Seq<char>, u64>::empty()),
{
    DashMap::new()
}

/// `DashMap::get`: the value held for the key, if there is one.
#[verifier::external_body]
pub(crate) fn get_arrival(map: &DashMap<String, u64>, key: &str) -> (r: Option<u64>)
    ensures
        r == if arrival_times(*map).contains_key(key@) {
            Some(arrival_times(*map)[key@])
        } else {
            None
        },
{
    map.get(key).map(|held| *held.value())
}

/// `DashMap::get_mut`: writing through the reference that it returns replaces
/// the value held for the key, and where none is held there is no reference.
#[verifier::external_body]
pub(crate) fn set_arrival(map: &mut DashMap<String, u64>, key: &str, time: u64)
    ensures
        arrival_times(*final(map)) == if arrival_times(*old(map)).contains_key(key@) {
            arrival_times(*old(map)).insert(key@, time)
        } else {
            arrival_times(*old(map))
        },
{
    if let Some(mut held) = map.get_mut(key) {
        *held.value_mut() = time;
    }
}

/// `DashMap::entry` with `or_insert`: holds the value for the key from then on,
/// unless one was held already.
#[verifier::external_body]
pub(crate) fn add_arrival(map: &mut DashMap<String, u64>, key: String, time: u64)
    ensures
        arrival_times(*final(map)) == if arrival_times(*old(map)).contains_key(key@) {
            arrival_times(*old(map))
        } else {
            arrival_times(*old(map)).insert(key@, time)
        },
{
    map.entry(key).or_insert(time);
}

/// `DashMap::clone`: a map of its own that holds the same.
#[verifier::external_body]
pub(crate) fn copy_arrival_times(map: &DashMap<String, u64>) -> (r: DashMap<String, u64>)
    ensures
        arrival_times(r) == arrival_times(*map),
{
    map.clone()
}

/// `DashMap::new`: holds nothing.
#[verifier::external_body]
pub(crate) fn new_request_logs() -> (r: DashMap<String, VecDeque<u128>>)
    ensures
        (request_logs(r) == Map::<Seq<char>, Seq<u128>>::empty()),
{
    DashMap::new()
}

/// `DashMap::remove`: takes out the value held for the key, if there is one.
#[verifier::external_body]
pub(crate) fn take_log(map: &mut DashMap<String, VecDeque<u128>>, key: &str) -> (r: Option<
    VecDeque<u128>,
>)
    ensures
        match r {
            Some(log) => request_logs(*old(map)).contains_key(key@) && log@ == request_logs(
                *old(map),
            )[key@],
            None => !request_logs(*old(map)).contains_key(key@),
        },
        request_logs(*final(map)) == request_logs(*old(map)).remove(key@),
{
    map.remove(key).map(|held| held.1)
}

/// `DashMap::insert`: holds the value for the key from then on.
#[verifier::external_body]
pub(crate) fn put_log(map: &mut DashMap<String, VecDeque<u128>>, key: String, log: VecDeque<u128>)
    ensures
        request_logs(*final(map)) == request_logs(*old(map)).insert(key@, log@),
{
    map.insert(key, log);
}

/// `DashMap::clone`: a map of its own that holds the same.
#[verifier::external_body]
pub(crate) fn copy_request_logs(map: &DashMap<String, VecDeque<u128>>) -> (r: DashMap<
    String,
    VecDeque<u128>,
>)
    ensures
        request_logs(r) == request_logs(*map),
{
    map.clone()
}

/// `DashMap::new`: holds nothing.
#[verifier::external_body]
pub(crate) fn new_key_quotas() -> (r: DashMap<String, Quota>)
    ensures
        (key_quotas(r) == Map::<Seq<char>, Quota>::empty()),
{
    DashMap::new()
}

/// `DashMap::get`: the value held for the key, if there is one.
#[verifier::external_body]
pub(crate) fn get_quota(map: &DashMap<String, Quota>, key: &str) -> (r: Option<Quota>)
    ensures
        r == if key_quotas(*map).contains_key(key@) {
            Some(key_quotas(*map)[key@])
        } else {
            None
        },
{
    map.get(key).map(|held| *held.value())
}

/// `DashMap::insert`: holds the value for the key from then on.
#[verifier::external_body]
pub(crate) fn put_quota(map: &mut DashMap<String, Quota>, key: String, quota: Quota)
    ensures
        key_quotas(*final(map)) == key_quotas(*old(map)).insert(key@, quota),
{
    map.insert(key, quota);
}

} // verus!
