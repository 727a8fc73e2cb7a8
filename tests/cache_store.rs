use gitsc::cache::{classify_row, entry_is_live, CacheRepository, MemoryCache, RowLookup, CACHE_TTL_SECONDS};

#[test]
fn ttl_is_one_hour() {
    assert_eq!(CACHE_TTL_SECONDS, 3600);
}

#[test]
fn round_trip_within_ttl() {
    let mut c = MemoryCache::new();
    c.set("k", "v", 1000);
    assert_eq!(c.get("k", 1000), Some("v".to_string()));
    assert_eq!(c.get("k", 1000 + 3599), Some("v".to_string()));
}

#[test]
fn expired_entry_is_gone_for_good() {
    let mut c = MemoryCache::new();
    c.set("k", "v", 1000);
    assert_eq!(c.get("k", 1000 + 3600), None);
    assert_eq!(c.get("k", 1000), None);
}

#[test]
fn missing_key_misses() {
    let mut c = MemoryCache::new();
    c.set("a", "1", 0);
    assert_eq!(c.get("b", 0), None);
    assert_eq!(c.get("a", 0), Some("1".to_string()));
}

#[test]
fn second_set_overwrites() {
    let mut c = MemoryCache::new();
    c.set("k", "old", 0);
    c.set("other", "x", 0);
    c.set("k", "new", 10);
    assert_eq!(c.get("k", 10 + 3599), Some("new".to_string()));
    assert_eq!(c.get("other", 3599), Some("x".to_string()));
}

#[test]
fn repository_interface() {
    let mut c = MemoryCache::new();
    assert!(CacheRepository::set(&mut c, "k", "v", 5).is_ok());
    assert_eq!(CacheRepository::get(&mut c, "k", 6).unwrap(), Some("v".to_string()));
    assert_eq!(CacheRepository::get(&mut c, "k", 5 + 3600).unwrap(), None);
}

#[test]
fn liveness_boundary() {
    assert!(entry_is_live(100, 100));
    assert!(entry_is_live(100, 100 + 3599));
    assert!(!entry_is_live(100, 100 + 3600));
    assert!(entry_is_live(200, 100));
}

#[test]
fn classify_rows() {
    assert_eq!(classify_row(None, 5), RowLookup::Missing);
    assert_eq!(classify_row(Some(("v".to_string(), 10)), 20), RowLookup::Hit("v".to_string()));
    assert_eq!(classify_row(Some(("v".to_string(), 10)), 3610), RowLookup::Expired);
}
