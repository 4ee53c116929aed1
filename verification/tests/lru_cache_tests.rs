use ft_vox::lru_cache::LRUCache;
use ft_vox::lru_cache_arc::LRUCache as ArcLRUCache;

#[test]
fn lru_put_then_get_returns_value() {
    let mut c: LRUCache<u64, u32> = LRUCache::new(2);
    c.put(1, 10);
    assert!(c.has(&1));
    assert_eq!(c.get(&1), Some(10));
    assert_eq!(c.get(&2), None);
}

#[test]
fn lru_evicts_least_recently_used() {
    let mut c: LRUCache<u64, u32> = LRUCache::new(2);
    c.put(1, 10);
    c.put(2, 20);
    c.put(3, 30);
    assert!(!c.has(&1));
    assert!(c.has(&2));
    assert!(c.has(&3));
    assert_eq!(c.get(&2), Some(20));
    c.put(4, 40);
    assert!(!c.has(&3));
    assert!(c.has(&2));
    assert!(c.has(&4));
}

#[test]
fn lru_get_refreshes_usage() {
    let mut c: LRUCache<u64, u32> = LRUCache::new(2);
    c.put(1, 10);
    c.put(2, 20);
    assert_eq!(c.get(&1), Some(10));
    c.put(3, 30);
    assert!(c.has(&1));
    assert!(!c.has(&2));
}

#[test]
fn lru_reput_of_oldest_key_keeps_it() {
    let mut c: LRUCache<u64, u32> = LRUCache::new(2);
    c.put(1, 10);
    c.put(2, 20);
    c.put(1, 11);
    assert!(c.has(&1));
    assert!(c.has(&2));
    assert_eq!(c.get(&1), Some(11));
    c.put(3, 30);
    assert!(!c.has(&2));
    assert!(c.has(&1));
    assert!(c.has(&3));
}

#[test]
fn lru_rewrite_in_capacity_one_keeps_key() {
    let mut c: LRUCache<i32, i32> = LRUCache::new(1);
    c.put(1, 10);
    c.put(1, 11);
    assert!(c.has(&1));
    assert_eq!(c.get(&1), Some(11));
}

#[test]
fn lru_put_with_room_evicts_nothing() {
    let mut c: LRUCache<u64, u32> = LRUCache::new(2);
    c.put(1, 10);
    c.put(1, 11);
    c.put(2, 20);
    assert_eq!(c.get(&1), Some(11));
    assert_eq!(c.get(&2), Some(20));
}

#[test]
fn lru_set_capacity_shrinks_from_oldest() {
    let mut c: LRUCache<u64, u32> = LRUCache::new(3);
    c.put(1, 10);
    c.put(2, 20);
    c.put(3, 30);
    c.set_capacity(1);
    assert!(!c.has(&1));
    assert!(!c.has(&2));
    assert!(c.has(&3));
    c.set_capacity(0);
    assert!(!c.has(&3));
}

#[test]
fn lru_zero_capacity_keeps_nothing() {
    let mut c: LRUCache<u64, u32> = LRUCache::new(0);
    c.put(5, 50);
    assert!(!c.has(&5));
    assert_eq!(c.get(&5), None);
}

#[test]
fn arc_lru_put_then_get_returns_value() {
    let mut c: ArcLRUCache<u64, u32> = ArcLRUCache::new(2);
    c.put(7, 70);
    assert!(c.has(&7));
    assert_eq!(c.get(&7), Some(70));
    assert_eq!(c.get(&8), None);
}

#[test]
fn arc_lru_put_existing_updates_value_without_eviction() {
    let mut c: ArcLRUCache<u64, u32> = ArcLRUCache::new(2);
    c.put(1, 10);
    c.put(2, 20);
    c.put(1, 11);
    assert!(c.has(&1));
    assert!(c.has(&2));
    assert_eq!(c.get(&1), Some(11));
    c.put(3, 30);
    assert!(!c.has(&2));
    assert!(c.has(&1));
    assert!(c.has(&3));
}

#[test]
fn arc_lru_evicts_least_recent_on_new_key() {
    let mut c: ArcLRUCache<u64, u32> = ArcLRUCache::new(2);
    c.put(1, 10);
    c.put(2, 20);
    assert_eq!(c.get(&1), Some(10));
    c.put(3, 30);
    assert!(c.has(&1));
    assert!(!c.has(&2));
    assert!(c.has(&3));
}

#[test]
fn arc_lru_set_capacity_evicts_oldest() {
    let mut c: ArcLRUCache<u64, u32> = ArcLRUCache::new(3);
    c.put(1, 10);
    c.put(2, 20);
    c.put(3, 30);
    c.set_capacity(2);
    assert!(!c.has(&1));
    assert!(c.has(&2));
    assert!(c.has(&3));
}

#[test]
fn arc_lru_zero_capacity_holds_the_last_put() {
    let mut c: ArcLRUCache<u64, u32> = ArcLRUCache::new(0);
    c.put(1, 10);
    assert!(c.has(&1));
    c.put(2, 20);
    assert!(!c.has(&1));
    assert!(c.has(&2));
}
