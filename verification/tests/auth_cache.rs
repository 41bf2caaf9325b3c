use tskv_jobs::auth_cache::{AuthCache, AuthCacheKey, CacheEntry};

const SECOND: u128 = 1_000_000_000;

fn key(name: &str) -> AuthCacheKey {
    AuthCacheKey::new(name.to_string(), "tenant".to_string())
}

fn names(listing: &[(AuthCacheKey, &'static str)]) -> Vec<(String, &'static str)> {
    listing
        .iter()
        .map(|(key, value)| (key.authorization().to_string(), *value))
        .collect()
}

#[test]
fn key_keeps_authorization_and_tenant() {
    let key = AuthCacheKey::new("root:secret".to_string(), "cnosdb".to_string());
    assert_eq!(key.authorization(), "root:secret");
    assert_eq!(key.tenant(), "cnosdb");
    assert_eq!(key.authorization, "root:secret");
    assert_eq!(key.tenant, "cnosdb");
}

#[test]
fn keys_are_equal_by_both_parts() {
    let key = AuthCacheKey::new("a".to_string(), "t".to_string());
    assert!(key == AuthCacheKey::new("a".to_string(), "t".to_string()));
    assert!(key != AuthCacheKey::new("a".to_string(), "u".to_string()));
    assert!(key != AuthCacheKey::new("b".to_string(), "t".to_string()));
    assert!(key.clone() == key);
    let empty = AuthCacheKey::new(String::new(), String::new());
    assert_eq!(empty.authorization(), "");
    assert_eq!(empty.tenant(), "");
}

#[test]
fn entry_expires_at_its_time_and_not_before() {
    let entry = CacheEntry::new("v1", Some(5_000_000_000), 1_000);
    assert_eq!(entry.expires_at, Some(5_000_001_000));
    assert_eq!(entry.value, "v1");
    assert!(!entry.is_expired(1_000));
    assert!(!entry.is_expired(5_000_000_999));
    assert!(entry.is_expired(5_000_001_000));
    assert!(entry.is_expired(u128::MAX));
}

#[test]
fn entry_without_ttl_never_expires() {
    let entry = CacheEntry::new(7, None, 123);
    assert_eq!(entry.expires_at, None);
    assert!(!entry.is_expired(0));
    assert!(!entry.is_expired(u128::MAX));
}

#[test]
fn entry_with_no_time_to_live_is_expired_at_once() {
    let entry = CacheEntry::new(7, Some(0), 123);
    assert_eq!(entry.expires_at, Some(123));
    assert!(entry.is_expired(123));
    assert!(!entry.is_expired(122));
}

#[test]
fn expiry_stops_at_the_end_of_time() {
    let entry = CacheEntry::new((), Some(u128::MAX), 1);
    assert_eq!(entry.expires_at, Some(u128::MAX));
    let entry = CacheEntry::new((), Some(2), u128::MAX - 1);
    assert_eq!(entry.expires_at, Some(u128::MAX));
    let entry = CacheEntry::new((), Some(1), u128::MAX - 1);
    assert_eq!(entry.expires_at, Some(u128::MAX));
    assert!(!entry.is_expired(u128::MAX - 1));
}

#[test]
fn live_value_hides_expired_entries() {
    let entry = CacheEntry::new("v", Some(10), 5);
    assert_eq!(entry.live_value(14), Some(&"v"));
    assert_eq!(entry.live_value(15), None);
    let forever = CacheEntry::new("w", None, 5);
    assert_eq!(forever.live_value(u128::MAX), Some(&"w"));
}

#[test]
fn test() {
    let mut cache: AuthCache<&str> = AuthCache::new(2, Some(5 * SECOND));

    cache.insert(key("k1"), "v1", 0);
    cache.insert(key("k2"), "v2", 0);
    assert_eq!("v1", cache.get(&key("k1"), 0).unwrap());
    assert_eq!("v2", cache.get(&key("k2"), 0).unwrap());
    cache.remove(&key("k2"));
    assert!(cache.get(&key("k2"), 0).is_none());
    assert_eq!("v1", cache.get(&key("k1"), 0).unwrap());

    let now = 3 * SECOND;

    assert_eq!("v1", cache.get(&key("k1"), now).unwrap());
    assert!(cache.get(&key("k2"), now).is_none());

    let now = 6 * SECOND;

    assert!(cache.get(&key("k1"), now).is_none());
    assert!(cache.get(&key("k2"), now).is_none());

    cache.insert(key("k1"), "v1", now);
    assert_eq!("v1", cache.get(&key("k1"), now).unwrap());
    cache.clear();
    assert!(cache.get(&key("k1"), now).is_none());
}

#[test]
fn new_cache_is_empty() {
    let mut cache: AuthCache<&str> = AuthCache::new(3, None);
    assert!(cache.get(&key("k1"), 0).is_none());
    assert!(!cache.remove(&key("k1")));
    assert!(cache.iter(0).is_empty());
    cache.clear();
    assert!(cache.iter(0).is_empty());
}

#[test]
fn full_cache_forgets_the_least_recently_used() {
    let mut cache: AuthCache<&str> = AuthCache::new(2, None);
    cache.insert(key("a"), "1", 0);
    cache.insert(key("b"), "2", 0);
    assert_eq!(cache.get(&key("a"), 0), Some("1"));
    cache.insert(key("c"), "3", 0);
    assert_eq!(cache.get(&key("b"), 0), None);
    assert_eq!(cache.get(&key("a"), 0), Some("1"));
    assert_eq!(cache.get(&key("c"), 0), Some("3"));
    cache.insert(key("d"), "4", 0);
    assert_eq!(cache.get(&key("a"), 0), None);
    assert_eq!(
        names(&cache.iter(0)),
        vec![("d".to_string(), "4"), ("c".to_string(), "3")]
    );
}

#[test]
fn insert_replaces_the_entry_of_its_key() {
    let mut cache: AuthCache<&str> = AuthCache::new(2, Some(10));
    cache.insert(key("a"), "old", 0);
    cache.insert(key("b"), "2", 0);
    cache.insert(key("a"), "new", 5);
    assert_eq!(
        names(&cache.iter(5)),
        vec![("a".to_string(), "new"), ("b".to_string(), "2")]
    );
    assert_eq!(cache.get(&key("a"), 14), Some("new"));
    assert_eq!(cache.get(&key("a"), 15), None);
    assert_eq!(cache.get(&key("b"), 9), Some("2"));
    assert_eq!(cache.get(&key("b"), 10), None);
}

#[test]
fn keys_differ_by_tenant() {
    let mut cache: AuthCache<u8> = AuthCache::new(4, None);
    cache.insert(AuthCacheKey::new("u".to_string(), "t1".to_string()), 1, 0);
    cache.insert(AuthCacheKey::new("u".to_string(), "t2".to_string()), 2, 0);
    assert_eq!(
        cache.get(&AuthCacheKey::new("u".to_string(), "t1".to_string()), 0),
        Some(1)
    );
    assert_eq!(
        cache.get(&AuthCacheKey::new("u".to_string(), "t2".to_string()), 0),
        Some(2)
    );
    assert_eq!(
        cache.get(&AuthCacheKey::new("u".to_string(), "t3".to_string()), 0),
        None
    );
}

#[test]
fn expired_entry_is_hidden_but_still_takes_its_place() {
    let mut cache: AuthCache<&str> = AuthCache::new(2, Some(10));
    cache.insert(key("a"), "1", 0);
    cache.insert(key("b"), "2", 5);
    assert_eq!(cache.get(&key("a"), 10), None);
    assert_eq!(names(&cache.iter(10)), vec![("b".to_string(), "2")]);
    cache.insert(key("c"), "3", 10);
    assert_eq!(cache.get(&key("b"), 11), None);
    assert!(cache.remove(&key("a")));
    assert!(!cache.remove(&key("a")));
    assert!(!cache.remove(&key("b")));
    assert!(cache.iter(100).is_empty());
    assert_eq!(names(&cache.iter(19)), vec![("c".to_string(), "3")]);
}

#[test]
fn iter_goes_from_the_most_recently_used_and_moves_nothing() {
    let mut cache: AuthCache<&str> = AuthCache::new(3, None);
    cache.insert(key("a"), "1", 0);
    cache.insert(key("b"), "2", 0);
    cache.insert(key("c"), "3", 0);
    let order = vec![
        ("c".to_string(), "3"),
        ("b".to_string(), "2"),
        ("a".to_string(), "1"),
    ];
    assert_eq!(names(&cache.iter(0)), order);
    assert_eq!(names(&cache.iter(0)), order);
    assert_eq!(cache.get(&key("a"), 0), Some("1"));
    assert_eq!(
        names(&cache.iter(0)),
        vec![
            ("a".to_string(), "1"),
            ("c".to_string(), "3"),
            ("b".to_string(), "2")
        ]
    );
    cache.insert(key("d"), "4", 0);
    assert_eq!(
        names(&cache.iter(0)),
        vec![
            ("d".to_string(), "4"),
            ("a".to_string(), "1"),
            ("c".to_string(), "3")
        ]
    );
}

#[test]
fn remove_and_clear_make_room() {
    let mut cache: AuthCache<u32> = AuthCache::new(2, None);
    cache.insert(key("a"), 1, 0);
    cache.insert(key("b"), 2, 0);
    assert!(cache.remove(&key("a")));
    cache.insert(key("c"), 3, 0);
    assert_eq!(cache.get(&key("b"), 0), Some(2));
    assert_eq!(cache.get(&key("c"), 0), Some(3));
    cache.clear();
    cache.insert(key("d"), 4, 0);
    assert_eq!(cache.iter(0).len(), 1);
    assert_eq!(cache.get(&key("d"), 0), Some(4));
    assert_eq!(cache.get(&key("b"), 0), None);
}

#[test]
fn cache_of_one_keeps_the_last_entry_through_many_changes() {
    let mut cache: AuthCache<usize> = AuthCache::new(1, Some(3));
    for round in 0..1000usize {
        let name = format!("k{}", round % 7);
        cache.insert(key(&name), round, round as u128);
        assert_eq!(cache.get(&key(&name), round as u128 + 2), Some(round));
        assert_eq!(cache.get(&key(&name), round as u128 + 3), None);
        assert_eq!(cache.iter(round as u128).len(), 1);
        if round % 3 == 0 {
            assert!(cache.remove(&key(&name)));
            assert!(cache.iter(round as u128).is_empty());
        }
        if round > 0 {
            let earlier = format!("k{}", (round - 1) % 7);
            assert_eq!(cache.get(&key(&earlier), round as u128), None);
        }
    }
}

#[test]
fn larger_cache_agrees_with_a_plain_list() {
    let mut cache: AuthCache<usize> = AuthCache::new(3, None);
    let mut model: Vec<(String, usize)> = Vec::new();
    for round in 0..500usize {
        let name = format!("k{}", (round * 7 + round / 3) % 5);
        match round % 4 {
            0 | 1 => {
                cache.insert(key(&name), round, 0);
                model.retain(|(stored, _)| *stored != name);
                model.insert(0, (name, round));
                model.truncate(3);
            }
            2 => {
                let found = model.iter().position(|(stored, _)| *stored == name);
                assert_eq!(
                    cache.get(&key(&name), 0),
                    found.map(|at| model[at].1)
                );
                if let Some(at) = found {
                    let entry = model.remove(at);
                    model.insert(0, entry);
                }
            }
            _ => {
                let found = model.iter().position(|(stored, _)| *stored == name);
                assert_eq!(cache.remove(&key(&name)), found.is_some());
                if let Some(at) = found {
                    model.remove(at);
                }
            }
        }
        let listing: Vec<(String, usize)> = cache
            .iter(0)
            .into_iter()
            .map(|(key, value)| (key.authorization().to_string(), value))
            .collect();
        assert_eq!(listing, model);
    }
}
