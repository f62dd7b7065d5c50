use lru_weighted_cache::{LruCacheItem, LruError, LruWeightedCache};

#[test]
fn build_an_entry() {
    let entry = LruCacheItem::new("test", "value");
    assert_eq!(entry.key, "test");
    assert_eq!(entry.value, "value");
}

#[test]
fn build_an_empty_cache() {
    let cache: LruWeightedCache<&str, &str> = LruWeightedCache::new(5, 2).unwrap();
    assert_eq!(cache.len(), 0);
    assert_eq!(cache.weight(), 0);
}

#[test]
fn add_to_the_cache() {
    let mut cache: LruWeightedCache<&str, &str> = LruWeightedCache::new(5, 2).unwrap();
    let _ = cache.insert("foo", "aa");
    let _ = cache.insert("bar", "bb");
    assert_eq!(cache.len(), 2);
    assert_eq!(cache.weight(), 4);
}

#[test]
fn replace_in_the_cache() {
    let mut cache: LruWeightedCache<&str, &str> = LruWeightedCache::new(5, 2).unwrap();
    let _ = cache.insert("foo", "aa");
    let _ = cache.insert("bar", "bb");
    let _ = cache.insert("bar", "c");
    assert_eq!(cache.len(), 2);
    assert_eq!(cache.weight(), 3); // "bb" + "c", since "aa" should have been ejected.
}

#[test]
fn eject_by_weight() {
    let mut cache: LruWeightedCache<&str, &str> = LruWeightedCache::new(3, 4).unwrap();
    for i in &["a", "b", "c", "d", "e", "f", "g", "h", "i", "j", "k", "l"] {
        let _ = cache.insert(i, i);
    }
    let _ = cache.insert("z", "zzz");
    assert_eq!(cache.weight(), 12); // 3 * 4
    assert_eq!(cache.len(), 10); // three items should have been removed, then one added.
}

#[test]
fn replace_by_weight() {
    let mut cache: LruWeightedCache<&str, &str> = LruWeightedCache::new(3, 4).unwrap();
    for i in &["a", "b", "c", "d", "e", "f", "g", "h", "i", "j", "k", "l"] {
        let _ = cache.insert(i, i);
    }
    let _ = cache.insert("l", "zzz");
    assert_eq!(cache.weight(), 12); // 3 * 4
    assert_eq!(cache.len(), 10); // three items should have been removed, then one added.
}

#[test]
fn delete_in_the_cache() {
    let mut cache: LruWeightedCache<&str, &str> = LruWeightedCache::new(5, 2).unwrap();
    let _ = cache.insert("foo", "aa");
    let _ = cache.insert("bar", "bb");
    cache.remove(&"bar");
    assert_eq!(cache.len(), 1);
    assert_eq!(cache.weight(), 2);
    assert!(cache.contains_key(&"foo"));
    assert!(!cache.contains_key(&"bar"));
    assert!(cache.get(&"foo") == Some(&"aa"));
    assert!(cache.get(&"bar").is_none());
}

#[test]
fn catch_errant_nonsense() {
    let cache = LruWeightedCache::<&str, &str>::new(0, 0);
    match cache {
        Ok(_) => unreachable!(),
        Err(err) => assert_eq!(err, LruError::NonsenseParameters),
    }
}

#[test]
fn nonsense_count_alone_is_refused() {
    match LruWeightedCache::<&str, &str>::new(0, 5) {
        Ok(_) => unreachable!(),
        Err(err) => assert_eq!(err, LruError::NonsenseParameters),
    }
}

#[test]
fn nonsense_weight_alone_is_refused() {
    match LruWeightedCache::<&str, &str>::new(5, 0) {
        Ok(_) => unreachable!(),
        Err(err) => assert_eq!(err, LruError::NonsenseParameters),
    }
}

#[test]
fn will_accept_checks_the_item_ceiling() {
    let mut cache: LruWeightedCache<&str, &str> = LruWeightedCache::new(5, 2).unwrap();
    assert!(cache.will_accept(&"aa"));
    assert!(cache.will_accept(&"a"));
    assert!(cache.will_accept(&""));
    assert!(!cache.will_accept(&"aaa"));
}

#[test]
fn too_heavy_a_value_is_rejected_and_nothing_changes() {
    let mut cache: LruWeightedCache<&str, &str> = LruWeightedCache::new(1, 2).unwrap();
    let _ = cache.insert("foo", "aa");
    let res = cache.insert("bar", "xxx");
    assert_eq!(res, Err(LruError::ExceedsMaximumWeight));
    assert_eq!(cache.len(), 1);
    assert_eq!(cache.weight(), 2);
    assert!(cache.contains_key(&"foo"));
    assert!(!cache.contains_key(&"bar"));
}

#[test]
fn weight_is_the_sum_after_every_call() {
    let mut cache: LruWeightedCache<&str, &str> = LruWeightedCache::new(4, 3).unwrap();
    assert_eq!(cache.weight(), 0);
    let _ = cache.insert("a", "x");
    assert_eq!(cache.weight(), 1);
    let _ = cache.insert("b", "xxx");
    assert_eq!(cache.weight(), 4);
    let _ = cache.insert("c", "xx");
    assert_eq!(cache.weight(), 6);
    let _ = cache.insert("a", "xxx");
    assert_eq!(cache.weight(), 8);
    cache.remove(&"b");
    assert_eq!(cache.weight(), 5);
    cache.remove(&"nope");
    assert_eq!(cache.weight(), 5);
    assert!(cache.weight() <= 4 * 3);
}

#[test]
fn reinserting_a_key_keeps_the_count() {
    let mut cache: LruWeightedCache<&str, &str> = LruWeightedCache::new(5, 2).unwrap();
    let _ = cache.insert("foo", "aa");
    let _ = cache.insert("bar", "bb");
    assert_eq!(cache.len(), 2);
    let _ = cache.insert("foo", "c");
    assert_eq!(cache.len(), 2);
    assert_eq!(cache.weight(), 3);
    assert!(cache.get(&"foo") == Some(&"c"));
}

#[test]
fn get_does_not_promote() {
    let mut cache: LruWeightedCache<&str, &str> = LruWeightedCache::new(2, 2).unwrap();
    let _ = cache.insert("a", "aa");
    let _ = cache.insert("b", "bb");
    // Reading the oldest entry must not save it from eviction.
    assert!(cache.get(&"a") == Some(&"aa"));
    let _ = cache.insert("c", "cc");
    assert!(!cache.contains_key(&"a"));
    assert!(cache.contains_key(&"b"));
    assert!(cache.contains_key(&"c"));
}

#[test]
fn eviction_can_empty_the_cache() {
    let mut cache: LruWeightedCache<&str, &str> = LruWeightedCache::new(1, 5).unwrap();
    let _ = cache.insert("a", "xxxxx");
    assert_eq!(cache.weight(), 5);
    let _ = cache.insert("b", "yyyyy");
    assert_eq!(cache.len(), 1);
    assert_eq!(cache.weight(), 5);
    assert!(!cache.contains_key(&"a"));
    assert!(cache.contains_key(&"b"));
}

#[test]
fn absent_keys_answer_softly() {
    let mut cache: LruWeightedCache<&str, &str> = LruWeightedCache::new(5, 2).unwrap();
    assert!(cache.is_empty());
    assert!(cache.get(&"a").is_none());
    assert!(cache.remove(&"a").is_none());
    assert!(!cache.contains_key(&"a"));
    let _ = cache.insert("a", "x");
    assert!(!cache.is_empty());
}

#[test]
fn remove_returns_the_owned_value() {
    let mut cache: LruWeightedCache<String, String> =
        LruWeightedCache::new(5, 4).unwrap();
    let _ = cache.insert(String::from("one"), String::from("wun"));
    let _ = cache.insert(String::from("two"), String::from("too"));
    let got = cache.remove(&String::from("one"));
    assert_eq!(got, Some(String::from("wun")));
    assert_eq!(cache.len(), 1);
    assert_eq!(cache.weight(), 3);
}

#[test]
fn byte_vectors_can_be_cached() {
    let mut cache: LruWeightedCache<Vec<u8>, Vec<u8>> = LruWeightedCache::new(2, 3).unwrap();
    let _ = cache.insert(vec![1], vec![9, 9]);
    let _ = cache.insert(vec![2], vec![8, 8, 8]);
    assert_eq!(cache.len(), 2);
    assert_eq!(cache.weight(), 5);
    // The budget is 6: a third entry of weight 2 evicts the oldest.
    let _ = cache.insert(vec![3], vec![7, 7]);
    assert_eq!(cache.weight(), 5);
    assert!(!cache.contains_key(&vec![1]));
    assert!(cache.get(&vec![2]) == Some(&vec![8, 8, 8]));
}

#[test]
fn the_largest_budgets_are_accepted() {
    let mut big: LruWeightedCache<&str, &str> = LruWeightedCache::new(usize::MAX, 1).unwrap();
    let _ = big.insert("a", "x");
    assert_eq!(big.weight(), 1);
    let tall: LruWeightedCache<&str, &str> = LruWeightedCache::new(1, usize::MAX).unwrap();
    assert_eq!(tall.len(), 0);
}
