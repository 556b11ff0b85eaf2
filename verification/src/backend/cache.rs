use std::collections::HashMap;

use vstd::prelude::*;

use crate::common::meta::HasItemMeta;

verus! {

broadcast use vstd::std_specs::hash::group_hash_axioms;

//==============================================================================================
//        Cache
//==============================================================================================

/// Items held for the front end by identifier, each with the number of references to it;
/// an item goes when its last reference is released.
pub struct Cache<T> {
    internal: HashMap<u128, T>,
    count: HashMap<u128, usize>,
}

/// The number of references to `k` after one more.
pub open spec fn counted(counts: Map<u128, usize>, k: u128) -> Map<u128, usize> {
    counts.insert(k, if counts.contains_key(k) { (counts[k] + 1) as usize } else { 1 })
}

/// The references and items after one reference to `k` is released: the count drops by
/// one (never below zero), and at zero the count and the item go.
pub open spec fn released<T>(items: Map<u128, T>, counts: Map<u128, usize>, k: u128) -> (Map<u128, T>, Map<u128, usize>) {
    if counts.contains_key(k) {
        let c = if counts[k] > 0 { (counts[k] - 1) as usize } else { 0 };
        if c == 0 {
            (items.remove(k), counts.remove(k))
        } else {
            (items, counts.insert(k, c))
        }
    } else {
        (items, counts)
    }
}

impl<T: HasItemMeta> Cache<T> {
    pub closed spec fn items(&self) -> Map<u128, T> {
        self.internal@
    }

    pub closed spec fn counts(&self) -> Map<u128, usize> {
        self.count@
    }

    pub fn new() -> (r: Cache<T>)
        ensures
            r.items() == Map::<u128, T>::empty(),
            r.counts() == Map::<u128, usize>::empty(),
    {
        Cache { internal: HashMap::new(), count: HashMap::new() }
    }

    /// Holds `item` under its identifier, unless an item is held there already, and counts
    /// one more reference to it.
    pub fn cache(&mut self, item: T)
        requires
            old(self).counts().contains_key(item.meta_view().uuid) ==> old(self).counts()[item.meta_view().uuid]
                < usize::MAX,
        ensures
            final(self).items() == (if old(self).items().contains_key(item.meta_view().uuid) {
                old(self).items()
            } else {
                old(self).items().insert(item.meta_view().uuid, item)
            }),
            final(self).counts() == counted(old(self).counts(), item.meta_view().uuid),
    {
        let uuid = item.get_meta().uuid();
        if !self.internal.contains_key(&uuid) {
            self.internal.insert(uuid, item);
        }
        self.increment_count(uuid);
    }

    /// Counts one more reference to `uuid`.
    pub fn increment_count(&mut self, uuid: u128)
        requires
            old(self).counts().contains_key(uuid) ==> old(self).counts()[uuid] < usize::MAX,
        ensures
            final(self).items() == old(self).items(),
            final(self).counts() == counted(old(self).counts(), uuid),
    {
        let current = match self.count.get(&uuid) {
            Some(c) => *c,
            None => 0,
        };
        self.count.insert(uuid, current + 1);
    }

    /// Releases one reference to `uuid`; at the last one, the item goes.
    pub fn decrement_count(&mut self, uuid: u128)
        ensures
            (final(self).items(), final(self).counts()) == released(old(self).items(), old(self).counts(), uuid),
    {
        let current = match self.count.get(&uuid) {
            Some(c) => *c,
            None => return,
        };
        let next = current.saturating_sub(1);
        if next == 0 {
            self.count.remove(&uuid);
            self.internal.remove(&uuid);
        } else {
            self.count.insert(uuid, next);
        }
    }

    /// The number of references held to `uuid`.
    pub fn count(&self, uuid: u128) -> (r: usize)
        ensures
            r == (if self.counts().contains_key(uuid) { self.counts()[uuid] } else { 0 }),
    {
        match self.count.get(&uuid) {
            Some(c) => *c,
            None => 0,
        }
    }

    /// The item held under `uuid`, if any.
    pub fn get(&self, uuid: u128) -> (r: Option<&T>)
        ensures
            match r {
                Some(v) => self.items().contains_key(uuid) && *v == self.items()[uuid],
                None => !self.items().contains_key(uuid),
            },
    {
        self.internal.get(&uuid)
    }
}

/// Holding an item that was not held, and then releasing that one reference, leaves the
/// cache as it was.
pub proof fn law_cache_then_release<T>(items: Map<u128, T>, counts: Map<u128, usize>, k: u128, item: T)
    requires
        !items.contains_key(k),
        !counts.contains_key(k),
    ensures
        released(items.insert(k, item), counted(counts, k), k) == (items, counts),
{
    assert(items.insert(k, item).remove(k) =~= items);
    assert(counted(counts, k).remove(k) =~= counts);
}

/// While a reference is left, the item stays held: releasing one of two or more
/// references keeps the item.
pub proof fn law_release_keeps_shared<T>(items: Map<u128, T>, counts: Map<u128, usize>, k: u128)
    requires
        counts.contains_key(k),
        counts[k] >= 2,
    ensures
        released(items, counts, k).0 == items,
        released(items, counts, k).1[k] == counts[k] - 1,
{
}

} // verus!
