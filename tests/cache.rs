use magicbox::cache::TtlCache;

#[test]
fn put_then_get_round_trip() {
    let mut c = TtlCache::new(10, 4);
    c.put("k".to_string(), "v".to_string(), 100);
    assert_eq!(c.get("k", 100), Some("v".to_string()));
    assert_eq!(c.get("k", 109), Some("v".to_string()));
    assert_eq!(c.get("other", 100), None);
}

#[test]
fn entry_expires_after_ttl() {
    let mut c = TtlCache::new(10, 4);
    c.put("k".to_string(), "v".to_string(), 100);
    assert_eq!(c.get("k", 110), None);
    assert_eq!(c.get("k", 500), None);
}

#[test]
fn put_replaces_value_of_same_key() {
    let mut c = TtlCache::new(10, 4);
    c.put("k".to_string(), "a".to_string(), 100);
    c.put("k".to_string(), "b".to_string(), 105);
    assert_eq!(c.len(), 1);
    assert_eq!(c.get("k", 112), Some("b".to_string()));
}

#[test]
fn capacity_evicts_oldest() {
    let mut c = TtlCache::new(100, 2);
    c.put("a".to_string(), "1".to_string(), 1);
    c.put("b".to_string(), "2".to_string(), 2);
    c.put("c".to_string(), "3".to_string(), 3);
    assert_eq!(c.len(), 2);
    assert_eq!(c.get("a", 3), None);
    assert_eq!(c.get("b", 3), Some("2".to_string()));
    assert_eq!(c.get("c", 3), Some("3".to_string()));
}

#[test]
fn expired_entries_are_purged_on_put() {
    let mut c = TtlCache::new(5, 3);
    c.put("a".to_string(), "1".to_string(), 0);
    c.put("b".to_string(), "2".to_string(), 1);
    c.put("c".to_string(), "3".to_string(), 10);
    assert_eq!(c.len(), 1);
}

#[test]
fn zero_capacity_holds_nothing() {
    let mut c = TtlCache::new(100, 0);
    c.put("a".to_string(), "1".to_string(), 1);
    assert_eq!(c.len(), 0);
    assert_eq!(c.get("a", 1), None);
}

#[test]
fn other_key_put_keeps_value() {
    let mut c = TtlCache::new(10, 3);
    c.put("k".to_string(), "v".to_string(), 100);
    c.put("j".to_string(), "w".to_string(), 105);
    assert_eq!(c.get("k", 109), Some("v".to_string()));
    assert_eq!(c.get("j", 109), Some("w".to_string()));
    assert_eq!(c.get("k", 110), None);
    assert_eq!(c.get("j", 114), Some("w".to_string()));
}
