use dns_cache::cache::DnsCache;
use dns_cache::resolver::{resolve_after_lookup, ResolveError};
use dns_cache::Address;

#[test]
fn test_resolve_after_lookup_success_caches() {
    let mut cache = DnsCache::new();
    let addrs = vec![Address::v4(198, 51, 100, 4, 0)];

    let r = resolve_after_lookup(&mut cache, "example.com", Ok(addrs.clone()));
    assert_eq!(r, Ok(addrs.clone()));

    // The result was cached: the next lookup is a hit.
    assert_eq!(cache.get("example.com"), Some(addrs));
}

#[test]
fn test_resolve_after_lookup_empty_not_cached() {
    let mut cache = DnsCache::new();

    let r = resolve_after_lookup(&mut cache, "example.com", Ok(vec![]));
    assert_eq!(r, Ok(vec![]));

    // An empty answer is not cached.
    assert_eq!(cache.get("example.com"), None);
    assert_eq!(cache.len(), 0);
}

#[test]
fn test_resolve_after_lookup_error_passes_through() {
    let mut cache = DnsCache::new();

    let outcome: Result<Vec<Address>, ResolveError> =
        Err(ResolveError::LookupFailed("connection refused".to_string()));
    let r = resolve_after_lookup(&mut cache, "example.com", outcome);

    assert!(matches!(r, Err(ResolveError::LookupFailed(m)) if m == "connection refused"));
    // A failure is never remembered.
    assert_eq!(cache.len(), 0);
    assert_eq!(cache.get("example.com"), None);
}
