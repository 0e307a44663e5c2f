//! The caches of the client: one of user information that expires, and the
//! keys under which the state, rooms and messages are stored.

pub mod state;

use crate::cache::state::AppState;
use crate::model::strmap::StrMap;
use vstd::prelude::*;

verus! {

/// A map whose entries expire: each value is stored with the time it was
/// inserted, in milliseconds, and is given back only until `timeout`
/// milliseconds have passed.
pub struct CacheMap<V: DeepView> {
    pub map: StrMap<(u64, V)>,
    pub timeout: u64,
}

impl<V: DeepView> CacheMap<V> {
    /// An empty cache whose entries expire after ten seconds.
    pub fn new() -> (c: CacheMap<V>)
        ensures
            c.map.map() == Map::<Seq<char>, (u64, V::V)>::empty(),
            c.timeout == 10000,
    {
        CacheMap { map: StrMap::new(), timeout: 10000 }
    }

    /// The same cache with entries expiring after `timeout` milliseconds.
    pub fn timeout(self, timeout: u64) -> (c: CacheMap<V>)
        ensures
            c.map.map() == self.map.map(),
            c.timeout == timeout,
    {
        CacheMap { map: self.map, timeout }
    }

    /// The value stored under `k`, unless it expired by the time `now`.
    pub fn get(&self, k: &str, now: u64) -> (r: Option<&V>)
        ensures
            match r {
                Some(v) => self.map.map().dom().contains(k@) && self.map.map()[k@].1 == v.deep_view()
                    && !(now >= self.map.map()[k@].0 && now - self.map.map()[k@].0 >= self.timeout),
                None => !self.map.map().dom().contains(k@) || (now >= self.map.map()[k@].0 && now
                    - self.map.map()[k@].0 >= self.timeout),
            },
    {
        match self.map.get(k) {
            Some(t) => {
                if now >= t.0 && now - t.0 >= self.timeout {
                    None
                } else {
                    Some(&t.1)
                }
            },
            None => None,
        }
    }

    /// Stores `v` under `k` at the time `now`.
    pub fn insert(&mut self, k: String, v: V, now: u64)
        ensures
            final(self).map.map() == old(self).map.map().insert(k@, (now, v.deep_view())),
            final(self).timeout == old(self).timeout,
    {
        self.map.insert(k, (now, v));
    }

    /// Removes the entry of `k` and gives back its value, expired or not.
    pub fn remove(&mut self, k: &str) -> (r: Option<V>)
        ensures
            final(self).map.map() == old(self).map.map().remove(k@),
            final(self).timeout == old(self).timeout,
            match r {
                Some(v) => old(self).map.map().dom().contains(k@) && v.deep_view() == old(self).map.map()[k@].1,
                None => !old(self).map.map().dom().contains(k@),
            },
    {
        match self.map.remove(k) {
            Some(e) => Some(e.1),
            None => None,
        }
    }
}

/// What is kept of a session between runs.
pub struct CacheData {
    pub since: Option<String>,
    pub username: String,
    pub uid: String,
    pub device_id: String,
}

/// The state to store for a session: its fields as given.
pub fn store(since: Option<String>, username: String, uid: String, device_id: String) -> (st: AppState)
    ensures
        st.since.deep_view() == since.deep_view(),
        st.username@ == username@,
        st.uid@ == uid@,
        st.device_id@ == device_id@,
{
    AppState { since, username, uid, device_id }
}

/// The session data that a stored state gives back: its fields as they
/// were stored.
pub fn load(st: AppState) -> (d: CacheData)
    ensures
        d.since.deep_view() == st.since.deep_view(),
        d.username@ == st.username@,
        d.uid@ == st.uid@,
        d.device_id@ == st.device_id@,
{
    CacheData { since: st.since, username: st.username, uid: st.uid, device_id: st.device_id }
}

/// Drops a user's information from the cache of user information (the
/// avatar file on disk is removed by the caller).
pub fn remove_from_cache<V: DeepView>(user_info_cache: &mut CacheMap<V>, user_id: &str)
    ensures
        final(user_info_cache).map.map() == old(user_info_cache).map.map().remove(user_id@),
        final(user_info_cache).timeout == old(user_info_cache).timeout,
{
    let _ = user_info_cache.remove(user_id);
}

/// A value stored under a key at the time `now` is given back for that
/// key until `timeout` milliseconds have passed, and not after.
pub proof fn lemma_stored_until_timeout<V>(
    m: Map<Seq<char>, (u64, V)>,
    k: Seq<char>,
    v: V,
    now: u64,
    later: u64,
    timeout: u64,
)
    requires
        now <= later,
    ensures
        m.insert(k, (now, v)).dom().contains(k),
        m.insert(k, (now, v))[k].1 == v,
        !(later >= m.insert(k, (now, v))[k].0 && later - m.insert(k, (now, v))[k].0 >= timeout) <==> later
            - now < timeout,
{
}

} // verus!
