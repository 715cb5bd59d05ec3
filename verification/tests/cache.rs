use std::sync::Arc;

use ferrox::cache::budgets::CacheBudgets;
use ferrox::cache::lru::{LruCache, Weight};
use ferrox::cache::shared::SharedCache;
use ferrox::frame::{Frame, PixelFormat};

#[test]
fn lru_put_then_get_returns_value() {
    let mut c: LruCache<u64, Vec<u8>> = LruCache::new(None, None);
    let v = c.put(7, vec![1, 2, 3]);
    assert_eq!(*v, vec![1, 2, 3]);
    assert_eq!(c.get(&7).map(|a| (*a).clone()), Some(vec![1, 2, 3]));
    assert!(c.get(&8).is_none());
    assert_eq!(c.len(), 1);
    assert_eq!(c.bytes(), 3);
}

#[test]
fn lru_evicts_least_recently_used_by_count() {
    let mut c: LruCache<u64, Vec<u8>> = LruCache::new(Some(2), None);
    c.put(1, vec![0; 1]);
    c.put(2, vec![0; 1]);
    // touch 1 so that 2 becomes the least recently used
    assert!(c.get(&1).is_some());
    c.put(3, vec![0; 1]);
    assert!(c.contains(&1));
    assert!(!c.contains(&2));
    assert!(c.contains(&3));
    assert_eq!(c.len(), 2);
}

#[test]
fn lru_evicts_by_bytes() {
    let mut c: LruCache<u64, Vec<u8>> = LruCache::with_max_bytes(10);
    c.put(1, vec![0; 4]);
    c.put(2, vec![0; 4]);
    c.put(3, vec![0; 4]);
    assert!(!c.contains(&1));
    assert!(c.contains(&2));
    assert!(c.contains(&3));
    assert_eq!(c.bytes(), 8);
}

#[test]
fn lru_keeps_single_oversized_value() {
    let mut c: LruCache<u64, Vec<u8>> = LruCache::with_max_bytes(4);
    c.put(1, vec![0; 2]);
    c.put(2, vec![0; 100]);
    assert!(!c.contains(&1));
    assert!(c.contains(&2));
    assert_eq!(c.len(), 1);
    assert_eq!(c.bytes(), 100);
}

#[test]
fn lru_replace_updates_bytes() {
    let mut c: LruCache<u64, Vec<u8>> = LruCache::new(None, None);
    c.put(1, vec![0; 10]);
    c.put(1, vec![0; 3]);
    assert_eq!(c.len(), 1);
    assert_eq!(c.bytes(), 3);
}

#[test]
fn lru_remove_and_clear() {
    let mut c: LruCache<u64, Vec<u8>> = LruCache::new(None, None);
    c.put(1, vec![9; 5]);
    c.put(2, vec![9; 6]);
    let r = c.remove(&1).expect("held");
    assert_eq!(r.len(), 5);
    assert!(c.remove(&1).is_none());
    assert_eq!(c.bytes(), 6);
    c.clear();
    assert!(c.is_empty());
    assert_eq!(c.bytes(), 0);
}

#[test]
fn lru_get_or_insert_with_computes_once() {
    let mut c: LruCache<u64, Vec<u8>> = LruCache::new(None, None);
    let a = c.get_or_insert_with(5, || vec![1; 4]);
    let b = c.get_or_insert_with(5, || vec![2; 8]);
    assert_eq!(*a, vec![1; 4]);
    assert_eq!(*b, vec![1; 4]);
    assert_eq!(c.bytes(), 4);
}

#[test]
fn lru_put_arc_hands_back_same_allocation() {
    let mut c: LruCache<u64, Vec<u8>> = LruCache::new(None, None);
    let v = Arc::new(vec![4u8; 2]);
    let r = c.put_arc(3, v.clone());
    assert!(Arc::ptr_eq(&v, &r));
    assert!(Arc::ptr_eq(&v, &c.get(&3).unwrap()));
}

#[test]
fn shared_cache_doc_example() {
    let cache = SharedCache::<String, Vec<u8>>::with_max_bytes(1024);
    let v = cache.get_or_insert_with("k".into(), || vec![0u8; 256]);
    assert_eq!(v.len(), 256);
    assert_eq!(cache.bytes(), 256);
}

#[test]
fn shared_cache_clones_share_state() {
    let a = SharedCache::<u64, Vec<u8>>::new(Some(2), None);
    let b = a.clone();
    a.put(1, vec![1]);
    assert!(b.contains(&1));
    b.put(2, vec![2]);
    b.put(3, vec![3]);
    assert_eq!(a.len(), 2);
    assert!(!a.contains(&1));
    assert_eq!(a.remove(&3).map(|v| v[0]), Some(3));
    a.clear();
    assert!(b.is_empty());
}

#[test]
fn weights_of_values() {
    assert_eq!(vec![0u8; 7].weight(), 7);
    assert_eq!(String::from("héllo").weight(), 6);
    let f = Frame::new(2, 2, PixelFormat::Rgba8, vec![0; 16]);
    assert_eq!(f.weight(), 16);
}

#[test]
fn cache_budget_defaults() {
    let b = CacheBudgets::default();
    assert_eq!(b.frames, 128 * 1024 * 1024);
    assert_eq!(b.images, 64 * 1024 * 1024);
    assert_eq!(b.luts, 8 * 1024 * 1024);
    assert_eq!(b.audio, 32 * 1024 * 1024);
}
