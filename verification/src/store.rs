//! The registry of active indexes.

use vstd::prelude::*;
use std::collections::HashMap;
use std::sync::Arc;
use crate::catalog::{DatabaseId, IndexId, IndexKeyBase, NamespaceId, TableId};

verus! {

broadcast use vstd::std_specs::hash::group_hash_axioms;

/// What an active index is known by.
pub type SharedQortexKey = (NamespaceId, DatabaseId, TableId, IndexId);

/// The key of the index with the key base `ikb` on the table `tb`.
pub open spec fn shared_key(tb: TableId, ikb: IndexKeyBase) -> SharedQortexKey {
    (ikb.ns, ikb.db, tb, ikb.ix)
}

/// The four ids of a key in one number, which tells keys apart.
pub open spec fn packed(key: SharedQortexKey) -> u128 {
    (((key.0.0 * 0x1_0000_0000 + key.1.0) * 0x1_0000_0000 + key.2.0) * 0x1_0000_0000
        + key.3.0) as u128
}

/// Registry of all active indexes. An index is created on first access, and then shared.
#[verifier::reject_recursive_types(T)]
pub struct QortexIndexes<T> {
    indexes: HashMap<u128, Arc<T>>,
}

impl<T> View for QortexIndexes<T> {
    type V = Map<SharedQortexKey, Arc<T>>;

    closed spec fn view(&self) -> Map<SharedQortexKey, Arc<T>> {
        Map::new(
            |k: SharedQortexKey| self.indexes@.contains_key(packed(k)),
            |k: SharedQortexKey| self.indexes@[packed(k)],
        )
    }
}

proof fn packed_is_injective(a: SharedQortexKey, b: SharedQortexKey)
    requires
        packed(a) == packed(b),
    ensures
        a == b,
{
}

fn pack(tb: TableId, ikb: &IndexKeyBase) -> (n: u128)
    ensures
        n == packed(shared_key(tb, *ikb)),
{
    ((ikb.ns.0 as u128 * 0x1_0000_0000 + ikb.db.0 as u128) * 0x1_0000_0000 + tb.0 as u128)
        * 0x1_0000_0000 + ikb.ix.0 as u128
}

impl<T> Default for QortexIndexes<T> {
    fn default() -> (r: Self)
        ensures
            r@ == Map::<SharedQortexKey, Arc<T>>::empty(),
    {
        let r = QortexIndexes { indexes: HashMap::new() };
        assert(r@ =~= Map::<SharedQortexKey, Arc<T>>::empty());
        r
    }
}

/// The registry after `h` was offered under `key`: an index that is there already stays.
pub open spec fn inserted<T>(
    m: Map<SharedQortexKey, Arc<T>>,
    key: SharedQortexKey,
    h: Arc<T>,
) -> Map<SharedQortexKey, Arc<T>> {
    if m.contains_key(key) {
        m
    } else {
        m.insert(key, h)
    }
}

impl<T> QortexIndexes<T> {
    /// The active index of the given table and key base, where there is one.
    ///
    /// Called first under a shared lock and then, before an index is created, once more under an
    /// exclusive one.
    pub fn get(&self, tb: TableId, ikb: &IndexKeyBase) -> (r: Option<Arc<T>>)
        ensures
            r == self@.get(shared_key(tb, *ikb)),
    {
        match self.indexes.get(&pack(tb, ikb)) {
            Some(h) => Some(Arc::clone(h)),
            None => None,
        }
    }

    /// Makes `h` the active index of the given table and key base, unless there is one. Gives
    /// the index that is active now.
    pub fn insert(&mut self, tb: TableId, ikb: &IndexKeyBase, h: Arc<T>) -> (r: Arc<T>)
        ensures
            final(self)@ == inserted(old(self)@, shared_key(tb, *ikb), h),
            r == final(self)@[shared_key(tb, *ikb)],
    {
        let key: u128 = pack(tb, ikb);
        if let Some(active) = self.get(tb, ikb) {
            return active;
        }
        let r = Arc::clone(&h);
        self.indexes.insert(key, h);
        proof {
            assert forall|k: SharedQortexKey| packed(k) == key implies k == shared_key(tb, *ikb) by {
                packed_is_injective(k, shared_key(tb, *ikb));
            }
            assert(self@ =~= old(self)@.insert(shared_key(tb, *ikb), h));
        }
        r
    }

    /// Removes an index from the registry.
    pub fn remove(&mut self, tb: TableId, ikb: &IndexKeyBase)
        ensures
            final(self)@ == old(self)@.remove(shared_key(tb, *ikb)),
    {
        let key: u128 = pack(tb, ikb);
        self.indexes.remove(&key);
        proof {
            assert forall|k: SharedQortexKey| packed(k) == key implies k == shared_key(tb, *ikb) by {
                packed_is_injective(k, shared_key(tb, *ikb));
            }
            assert(self@ =~= old(self)@.remove(shared_key(tb, *ikb)));
        }
    }
}

/// Of two indexes offered under one key, the first is the one that everybody shares.
pub proof fn first_index_wins<T>(
    m: Map<SharedQortexKey, Arc<T>>,
    key: SharedQortexKey,
    a: Arc<T>,
    b: Arc<T>,
)
    ensures
        inserted(inserted(m, key, a), key, b) == inserted(m, key, a),
        !m.contains_key(key) ==> inserted(m, key, a)[key] == a,
{
}

/// An index that was removed is created anew on the next access, and the others are not touched.
pub proof fn removal_forgets_one_index<T>(
    m: Map<SharedQortexKey, Arc<T>>,
    key: SharedQortexKey,
    other: SharedQortexKey,
    h: Arc<T>,
)
    ensures
        m.remove(key).get(key) is None,
        inserted(m.remove(key), key, h)[key] == h,
        other != key ==> m.remove(key).get(other) == m.get(other),
        other != key ==> inserted(m, key, h).get(other) == m.get(other),
{
}

} // verus!
