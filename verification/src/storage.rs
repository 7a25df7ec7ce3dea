//! Keyed storage for built acceleration structures: one entry per asset
//! identity, which is either a dense numeric index or a globally unique
//! identifier; the two key spaces are held apart and routed on the tag.

use std::collections::hash_map::Entry;
use std::collections::HashMap;

use vstd::prelude::*;
use vstd::std_specs::hash::{EntrySpecFns, OccupiedEntrySpecFns, VacantEntrySpecFns};

verus! {

broadcast use vstd::std_specs::hash::group_hash_axioms;

/// What a stored structure must be: a marker that cache payloads implement.
pub trait AssetBvhCache {

}

impl AssetBvhCache for crate::bvh::BvhCache {

}

impl AssetBvhCache for crate::obvhs::ObvhsBvh2Cache {

}

/// An asset identity: a dense index reused across re-saves of a slot, or a
/// stable unique identifier. Exactly one key space is consulted per lookup.
#[derive(Clone, Copy, Debug, PartialEq, Eq, Structural)]
pub enum AssetKey {
    Index(u64),
    Uuid(u128),
}

/// Cached structures per asset, with the two key spaces held separately.
pub struct AssetsBvhCaches<B: AssetBvhCache> {
    dense_storage: HashMap<u64, B>,
    hash_map: HashMap<u128, B>,
}

impl<B: AssetBvhCache> AssetsBvhCaches<B> {
    /// The dense-index entries.
    pub closed spec fn dense(self) -> Map<u64, B> {
        self.dense_storage@
    }

    /// The unique-identifier entries.
    pub closed spec fn uuids(self) -> Map<u128, B> {
        self.hash_map@
    }

    /// The entry the given key addresses, if any.
    pub open spec fn spec_get(self, id: AssetKey) -> Option<B> {
        match id {
            AssetKey::Index(k) => if self.dense().contains_key(k) {
                Some(self.dense()[k])
            } else {
                None
            },
            AssetKey::Uuid(u) => if self.uuids().contains_key(u) {
                Some(self.uuids()[u])
            } else {
                None
            },
        }
    }

    /// An empty store.
    pub fn new() -> (r: Self)
        ensures
            r.dense() == Map::<u64, B>::empty(),
            r.uuids() == Map::<u128, B>::empty(),
    {
        AssetsBvhCaches { dense_storage: HashMap::new(), hash_map: HashMap::new() }
    }

    /// Retrieves a reference to the cache of the asset with the given `id`,
    /// if it exists.
    pub fn get(&self, id: AssetKey) -> (r: Option<&B>)
        ensures
            match r {
                Some(b) => self.spec_get(id) == Some(*b),
                None => self.spec_get(id).is_none(),
            },
    {
        match id {
            AssetKey::Index(k) => self.dense_storage.get(&k),
            AssetKey::Uuid(u) => self.hash_map.get(&u),
        }
    }
}

impl<B: AssetBvhCache> Default for AssetsBvhCaches<B> {
    /// An empty store, as `new` builds it.
    fn default() -> (r: Self)
        ensures
            r.dense() == Map::<u64, B>::empty(),
            r.uuids() == Map::<u128, B>::empty(),
    {
        Self::new()
    }
}

impl<B: AssetBvhCache> AssetsBvhCaches<B> {
    /// Retrieves a mutable reference to the cache of the asset with the
    /// given `id`, if it exists; the store afterwards holds whatever the
    /// caller leaves behind the reference, under the same key.
    pub fn get_mut(&mut self, id: AssetKey) -> (r: Option<&mut B>)
        ensures
            r.is_some() == old(self).spec_get(id).is_some(),
            match r {
                Some(b) => {
                    &&& old(self).spec_get(id) == Some(*b)
                    &&& final(self).spec_get(id) == Some(*final(b))
                    &&& match id {
                        AssetKey::Index(k) => final(self).dense() == old(self).dense().insert(
                            k,
                            *final(b),
                        ) && final(self).uuids() == old(self).uuids(),
                        AssetKey::Uuid(u) => final(self).uuids() == old(self).uuids().insert(
                            u,
                            *final(b),
                        ) && final(self).dense() == old(self).dense(),
                    }
                },
                None => final(self).dense() == old(self).dense() && final(self).uuids()
                    == old(self).uuids(),
            },
    {
        match id {
            AssetKey::Index(k) => match self.dense_storage.entry(k) {
                Entry::Occupied(e) => Some(e.into_mut()),
                Entry::Vacant(_e) => None,
            },
            AssetKey::Uuid(u) => match self.hash_map.entry(u) {
                Entry::Occupied(e) => Some(e.into_mut()),
                Entry::Vacant(_e) => None,
            },
        }
    }

    /// Removes (and returns) the cache with the given `id`, if it exists.
    pub fn remove(&mut self, id: AssetKey) -> (r: Option<B>)
        ensures
            match r {
                Some(b) => old(self).spec_get(id) == Some(b),
                None => old(self).spec_get(id).is_none(),
            },
            match id {
                AssetKey::Index(k) => final(self).dense() == old(self).dense().remove(k) && final(self).uuids() == old(self).uuids(),
                AssetKey::Uuid(u) => final(self).uuids() == old(self).uuids().remove(u) && final(self).dense() == old(self).dense(),
            },
    {
        match id {
            AssetKey::Index(k) => self.dense_storage.remove(&k),
            AssetKey::Uuid(u) => self.hash_map.remove(&u),
        }
    }

    /// Inserts the given cache under the asset's `id`. An existing entry
    /// under the same identity is replaced.
    pub fn insert(&mut self, id: AssetKey, bvh_cache: B)
        ensures
            match id {
                AssetKey::Index(k) => final(self).dense() == old(self).dense().insert(k, bvh_cache)
                    && final(self).uuids() == old(self).uuids(),
                AssetKey::Uuid(u) => final(self).uuids() == old(self).uuids().insert(u, bvh_cache)
                    && final(self).dense() == old(self).dense(),
            },
    {
        match id {
            AssetKey::Index(k) => {
                self.insert_with_index(k, bvh_cache);
            },
            AssetKey::Uuid(u) => {
                self.insert_with_uuid(u, bvh_cache);
            },
        }
    }

    /// Inserts under a unique identifier, returning the replaced entry.
    pub fn insert_with_uuid(&mut self, uuid: u128, bvh_cache: B) -> (r: Option<B>)
        ensures
            final(self).uuids() == old(self).uuids().insert(uuid, bvh_cache),
            final(self).dense() == old(self).dense(),
            match r {
                Some(b) => old(self).uuids().contains_key(uuid) && old(self).uuids()[uuid] == b,
                None => !old(self).uuids().contains_key(uuid),
            },
    {
        self.hash_map.insert(uuid, bvh_cache)
    }

    /// Inserts under a dense index, returning the replaced entry.
    pub fn insert_with_index(&mut self, index: u64, bvh_cache: B) -> (r: Option<B>)
        ensures
            final(self).dense() == old(self).dense().insert(index, bvh_cache),
            final(self).uuids() == old(self).uuids(),
            match r {
                Some(b) => old(self).dense().contains_key(index) && old(self).dense()[index] == b,
                None => !old(self).dense().contains_key(index),
            },
    {
        self.dense_storage.insert(index, bvh_cache)
    }
}

} // verus!
