use dns_cache::cache::DnsCache;
use dns_cache::Address;

fn wait_millis(ms: u64) {
    let start = std::time::Instant::now();
    while start.elapsed() < std::time::Duration::from_millis(ms) {}
}

#[test]
fn test_cache_insert_and_get() {
    let mut cache = DnsCache::new();
    let addrs = vec![Address::v4(127, 0, 0, 1, 80)];

    cache.insert("example.com".to_string(), addrs.clone());

    let cached = cache.get("example.com").unwrap();
    assert_eq!(cached, addrs);
}

#[test]
fn test_cache_expiration() {
    let mut cache = DnsCache::with_config(10, 100);
    let addrs = vec![Address::v4(127, 0, 0, 1, 80)];

    cache.insert("example.com".to_string(), addrs.clone());

    // Should be cached
    assert!(cache.get("example.com").is_some());

    // Wait for expiration
    wait_millis(20);

    // Should be expired
    assert!(cache.get("example.com").is_none());
}

#[test]
fn test_cache_miss() {
    let mut cache = DnsCache::new();
    assert!(cache.get("nonexistent.com").is_none());
}

#[test]
fn test_cache_cleanup() {
    let mut cache = DnsCache::with_config(10, 100);
    let addrs = vec![Address::v4(127, 0, 0, 1, 80)];

    cache.insert("example.com".to_string(), addrs);
    assert_eq!(cache.len(), 1);

    wait_millis(20);
    cache.cleanup_expired();

    assert_eq!(cache.len(), 0);
}

#[test]
fn test_hit_after_insert_at_instant() {
    let mut cache = DnsCache::with_config(1000, 100);
    let addrs = vec![Address::v4(10, 0, 0, 7, 443)];

    cache.insert_with_ttl_at("example.com".to_string(), addrs.clone(), 10, 1000);

    // Fresh until instant 1010.
    assert_eq!(cache.get_at("example.com", 1000), Some(addrs.clone()));
    assert_eq!(cache.get_at("example.com", 1009), Some(addrs));
}

#[test]
fn test_expiry_at_instant_removes_entry() {
    let mut cache = DnsCache::with_config(1000, 100);
    let addrs = vec![Address::v4(10, 0, 0, 7, 443)];

    cache.insert_with_ttl_at("example.com".to_string(), addrs, 10, 1000);
    assert_eq!(cache.len(), 1);

    // The entry is stale from instant 1010 on; the lookup removes it.
    assert!(cache.get_at("example.com", 1010).is_none());
    assert_eq!(cache.len(), 0);
}

#[test]
fn test_capacity_bound() {
    let mut cache = DnsCache::with_config(1000, 100);
    for i in 0..150u32 {
        let host = format!("host-{i}.example");
        cache.insert_with_ttl_at(host, vec![Address::v4(192, 0, 2, 1, 53)], 1000, 0);
        assert!(cache.len() <= 100);
    }
    assert_eq!(cache.len(), 100);
}

#[test]
fn test_eviction_keeps_newest_key() {
    let mut cache = DnsCache::with_config(1000, 2);
    cache.insert_with_ttl_at("a.example".to_string(), vec![Address::v4(192, 0, 2, 1, 0)], 100, 0);
    cache.insert_with_ttl_at("b.example".to_string(), vec![Address::v4(192, 0, 2, 2, 0)], 100, 0);
    cache.insert_with_ttl_at("c.example".to_string(), vec![Address::v4(192, 0, 2, 3, 0)], 100, 0);

    assert!(cache.len() <= 2);
    // The key just inserted is always present, whichever entry was evicted.
    assert!(cache.get_at("c.example", 1).is_some());
}

#[test]
fn test_cleanup_idempotent_at_instant() {
    let mut cache = DnsCache::with_config(1000, 100);
    cache.insert_with_ttl_at("short.example".to_string(), vec![Address::v4(192, 0, 2, 1, 0)], 5, 0);
    cache.insert_with_ttl_at("long.example".to_string(), vec![Address::v4(192, 0, 2, 2, 0)], 50, 0);

    cache.cleanup_expired_at(10);
    assert_eq!(cache.len(), 1);

    // A second sweep at the same instant removes nothing.
    cache.cleanup_expired_at(10);
    assert_eq!(cache.len(), 1);
}

#[test]
fn test_clear_and_is_empty() {
    let mut cache = DnsCache::new();
    assert!(cache.is_empty());
    cache.insert("example.com".to_string(), vec![Address::v4(127, 0, 0, 1, 80)]);
    assert!(!cache.is_empty());
    cache.clear();
    assert!(cache.is_empty());
    assert_eq!(cache.len(), 0);
}

#[test]
fn test_scenario_ttl_capacity() {
    let mut cache = DnsCache::with_config(10, 100);
    let addr1 = Address::v4(203, 0, 113, 1, 0);

    cache.insert("example.com".to_string(), vec![addr1]);
    assert_eq!(cache.get("example.com"), Some(vec![addr1]));

    wait_millis(20);

    assert_eq!(cache.get("example.com"), None);
    cache.cleanup_expired();
    assert_eq!(cache.len(), 0);
}
