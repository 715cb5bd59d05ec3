//! [`SharedCache`]: a cloneable, thread-safe handle around an [`LruCache`].
//!
//! Clones share one cache behind a lock. What one handle can know of the
//! cache is what the lock guarantees of every state: the cache's invariant
//! holds and its budgets are the ones it was made with. What a call returns
//! otherwise depends on what other handles did, so those results are stated
//! only as far as every outcome allows.

use std::hash::Hash;
use std::sync::Arc;
use vstd::prelude::*;
use vstd::rwlock::{RwLock, RwLockPredicate};

use super::lru::{key_model, share, LruCache, Weight};

verus! {

/// The budgets a shared cache was made with; as the lock's predicate it
/// states that every state of the cache is well formed under them.
pub struct Budgets {
    pub max_entries: Option<usize>,
    pub max_bytes: Option<usize>,
}

impl<K: Eq + Hash + Clone, V: Weight> RwLockPredicate<LruCache<K, V>> for Budgets {
    open spec fn inv(self, c: LruCache<K, V>) -> bool {
        &&& c.wf()
        &&& c.entry_cap() == self.max_entries
        &&& c.byte_cap() == self.max_bytes
    }
}

/// A thread-safe, cloneable LRU cache. Clones share the same underlying cache.
pub struct SharedCache<K: Eq + Hash + Clone, V: Weight> {
    inner: Arc<RwLock<LruCache<K, V>, Budgets>>,
}

impl<K: Eq + Hash + Clone, V: Weight> Clone for SharedCache<K, V> {
    fn clone(&self) -> (r: Self)
        ensures
            r.budgets() == self.budgets(),
    {
        SharedCache { inner: share(&self.inner) }
    }
}

impl<K: Eq + Hash + Clone, V: Weight> SharedCache<K, V> {
    /// The budgets this cache (and every clone of it) keeps.
    pub closed spec fn budgets(&self) -> Budgets {
        self.inner.pred()
    }

    /// A cache bounded by `max_entries` and/or `max_bytes`.
    pub fn new(max_entries: Option<usize>, max_bytes: Option<usize>) -> (r: Self)
        ensures
            r.budgets() == (Budgets { max_entries, max_bytes }),
    {
        let cache = LruCache::new(max_entries, max_bytes);
        let lock = RwLock::new(cache, Ghost(Budgets { max_entries, max_bytes }));
        SharedCache { inner: Arc::new(lock) }
    }

    /// A cache bounded only by a byte budget.
    pub fn with_max_bytes(max_bytes: usize) -> (r: Self)
        ensures
            r.budgets() == (Budgets { max_entries: None, max_bytes: Some(max_bytes) }),
    {
        Self::new(None, Some(max_bytes))
    }

    /// Fetch a value, marking it most-recently-used.
    pub fn get(&self, key: &K) -> (r: Option<Arc<V>>)
        requires
            key_model::<K>(),
    {
        let (mut c, handle) = self.inner.acquire_write();
        let r = c.get(key);
        handle.release_write(c);
        r
    }

    /// Store `value` under `key`, evicting to fit, and hand it back. Where the
    /// byte count would no longer fit in a `usize`, the value is handed back
    /// without being stored.
    pub fn put(&self, key: K, value: V) -> (r: Arc<V>)
        requires
            key_model::<K>(),
        ensures
            *r == value,
    {
        let (mut c, handle) = self.inner.acquire_write();
        let w = value.weight();
        let held = c.weight_of(&key);
        if c.bytes() - held > usize::MAX - w {
            handle.release_write(c);
            return Arc::new(value);
        }
        let r = c.put(key, value);
        handle.release_write(c);
        r
    }

    /// Return the cached value, or compute and insert it on a miss.
    pub fn get_or_insert_with<F: FnOnce() -> V>(&self, key: K, f: F) -> (r: Arc<V>)
        requires
            key_model::<K>(),
            f.requires(()),
    {
        let (mut c, handle) = self.inner.acquire_write();
        match c.get(&key) {
            Some(v) => {
                handle.release_write(c);
                v
            },
            None => {
                let value = f();
                let w = value.weight();
                if c.bytes() > usize::MAX - w {
                    handle.release_write(c);
                    return Arc::new(value);
                }
                let r = c.put(key, value);
                handle.release_write(c);
                r
            },
        }
    }

    /// Remove and return a value.
    pub fn remove(&self, key: &K) -> (r: Option<Arc<V>>)
        requires
            key_model::<K>(),
    {
        let (mut c, handle) = self.inner.acquire_write();
        let r = c.remove(key);
        handle.release_write(c);
        r
    }

    /// Whether `key` is held.
    pub fn contains(&self, key: &K) -> (r: bool)
        requires
            key_model::<K>(),
    {
        let h = self.inner.acquire_read();
        let r = h.borrow().contains(key);
        h.release_read();
        r
    }

    /// Drop every entry.
    pub fn clear(&self) {
        let (mut c, handle) = self.inner.acquire_write();
        c.clear();
        handle.release_write(c);
    }

    /// The number of entries held: within the entry budget, or a single
    /// entry.
    pub fn len(&self) -> (r: usize)
        requires
            key_model::<K>(),
        ensures
            self.budgets().max_entries matches Some(n) ==> r <= n || r <= 1,
    {
        let h = self.inner.acquire_read();
        let c = h.borrow();
        proof {
            c.lemma_consistent();
        }
        let r = c.len();
        h.release_read();
        r
    }

    /// Whether no entry is held (what other handles did decides it).
    pub fn is_empty(&self) -> (r: bool) {
        let h = self.inner.acquire_read();
        let r = h.borrow().is_empty();
        h.release_read();
        r
    }

    /// Total bytes currently held (what other handles did decides it).
    pub fn bytes(&self) -> (r: usize) {
        let h = self.inner.acquire_read();
        let r = h.borrow().bytes();
        h.release_read();
        r
    }
}

} // verus!
