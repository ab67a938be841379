use bytes::Bytes;
use in_memory_cache::{Cache, Entry, Error};

fn populate(cache: &mut Cache, limit: usize, size: usize, prefix: &str) {
    for i in 0..limit {
        let v = vec![1; size];

        if cache.add(&format!("{}{}", prefix, i), Bytes::from(v)).is_ok() {}
    }
}

fn keys_of(list: &[&str]) -> Vec<String> {
    list.iter().map(|v| String::from(*v)).collect::<Vec<String>>()
}

#[test]
fn with_capacity_by_key() {
    let mut cache = Cache::with_capacity(4);

    populate(&mut cache, 4, 1, "key-");

    let keys = cache.keys();
    assert_eq!("key-3", keys[0]);
    assert_eq!("key-0", keys[3]);
}

#[test]
fn with_capacity_basic_operations() {
    let mut cache = Cache::with_capacity(4);

    populate(&mut cache, 4, 1, "key-");

    assert_eq!(keys_of(&["key-3", "key-2", "key-1", "key-0"]), cache.keys());

    cache.get("key-0");

    assert_eq!(keys_of(&["key-0", "key-3", "key-2", "key-1"]), cache.keys());

    cache.get("key-2");

    assert_eq!(keys_of(&["key-2", "key-0", "key-3", "key-1"]), cache.keys());

    if let Err(e) = cache.add("key-added", Bytes::from(vec![1, 1])) {
        println!("{:?}", e);
    }

    assert_eq!(keys_of(&["key-added", "key-2", "key-0", "key-3"]), cache.keys());
}

#[test]
fn clear() {
    let mut cache = Cache::with_capacity(4);

    assert_eq!(cache.len(), 0);

    populate(&mut cache, 4, 4, "key-");

    assert_eq!(cache.len(), 4);

    cache.clear();

    assert_eq!(cache.len(), 0);
}

#[test]
fn overflow() {
    let mut cache = Cache::with_size_kb(4);

    let _ = cache.add("/1", Bytes::from(vec![1; 2048])).is_ok();
    let _ = cache.add("/2", Bytes::from(vec![1; 2048])).is_ok();

    assert!(cache.add("/3", Bytes::from(vec![1; 4097])).is_err());
}

#[test]
fn promotion_moves_hit_to_front() {
    let mut cache = Cache::with_capacity(4);
    for k in ["A", "B", "C", "D"] {
        assert!(cache.add(k, Bytes::from(vec![0u8])).is_ok());
    }
    assert_eq!(keys_of(&["D", "C", "B", "A"]), cache.keys());
    let hit = cache.get("A").map(|e| e.key().to_string());
    assert_eq!(hit, Some(String::from("A")));
    assert_eq!(keys_of(&["A", "D", "C", "B"]), cache.keys());
}

#[test]
fn get_on_front_entry_keeps_order() {
    let mut cache = Cache::with_capacity(3);
    populate(&mut cache, 3, 1, "k");
    assert!(cache.get("k2").is_some());
    assert_eq!(keys_of(&["k2", "k1", "k0"]), cache.keys());
}

#[test]
fn get_miss_changes_nothing() {
    let mut cache = Cache::with_capacity(3);
    populate(&mut cache, 3, 1, "k");
    assert!(cache.get("absent").is_none());
    assert!(cache.get_bytes("absent").is_none());
    assert_eq!(keys_of(&["k2", "k1", "k0"]), cache.keys());
}

#[test]
fn overflow_evicts_oldest() {
    let mut cache = Cache::with_capacity(4);
    populate(&mut cache, 4, 1, "key-");
    assert!(cache.add("key-added", Bytes::from(vec![1])).is_ok());
    assert_eq!(keys_of(&["key-added", "key-3", "key-2", "key-1"]), cache.keys());
    assert!(cache.get("key-0").is_none());
}

#[test]
fn duplicate_add_keeps_first_value_and_place() {
    let mut cache = Cache::with_capacity(4);
    assert!(cache.add("k", Bytes::from(vec![1, 2, 3])).is_ok());
    assert!(cache.add("other", Bytes::from(vec![9])).is_ok());
    assert!(cache.add("k", Bytes::from(vec![4, 5])).is_ok());
    assert_eq!(keys_of(&["other", "k"]), cache.keys());
    assert_eq!(cache.len(), 2);
    let v = cache.get_bytes("k").cloned();
    assert_eq!(v, Some(Bytes::from(vec![1, 2, 3])));
}

#[test]
fn size_rejection_leaves_cache_unchanged() {
    let mut cache = Cache::with_size(4096);
    assert!(cache.add("/1", Bytes::from(vec![1; 2048])).is_ok());
    assert!(cache.add("/2", Bytes::from(vec![1; 2048])).is_ok());
    let r = cache.add("/3", Bytes::from(vec![1; 4097]));
    assert_eq!(r, Err(Error { size: 4097, limit: 4096 }));
    assert_eq!(keys_of(&["/2", "/1"]), cache.keys());
}

#[test]
fn size_rejection_on_empty_cache() {
    let mut cache = Cache::with_size(10);
    assert!(cache.add("big", Bytes::from(vec![0; 11])).is_err());
    assert!(cache.is_empty());
    assert!(cache.add("fits", Bytes::from(vec![0; 10])).is_ok());
    assert_eq!(cache.len(), 1);
}

#[test]
fn size_eviction_drops_as_many_as_needed() {
    let mut cache = Cache::with_size(10);
    assert!(cache.add("a", Bytes::from(vec![0; 3])).is_ok());
    assert!(cache.add("b", Bytes::from(vec![0; 3])).is_ok());
    assert!(cache.add("c", Bytes::from(vec![0; 3])).is_ok());
    assert_eq!(keys_of(&["c", "b", "a"]), cache.keys());
    // 9 stored; 7 more leaves room for one of the three
    assert!(cache.add("d", Bytes::from(vec![0; 7])).is_ok());
    assert_eq!(keys_of(&["d", "c"]), cache.keys());
}

#[test]
fn size_exact_fit_evicts_nothing() {
    let mut cache = Cache::with_size(8);
    assert!(cache.add("a", Bytes::from(vec![0; 4])).is_ok());
    assert!(cache.add("b", Bytes::from(vec![0; 4])).is_ok());
    assert_eq!(keys_of(&["b", "a"]), cache.keys());
    assert!(cache.add("c", Bytes::from(vec![0; 0])).is_ok());
    assert_eq!(keys_of(&["c", "b", "a"]), cache.keys());
}

#[test]
fn size_promotion_decides_eviction() {
    let mut cache = Cache::with_size(6);
    assert!(cache.add("a", Bytes::from(vec![0; 2])).is_ok());
    assert!(cache.add("b", Bytes::from(vec![0; 2])).is_ok());
    assert!(cache.add("c", Bytes::from(vec![0; 2])).is_ok());
    assert!(cache.get("a").is_some());
    assert!(cache.add("d", Bytes::from(vec![0; 2])).is_ok());
    assert_eq!(keys_of(&["d", "a", "c"]), cache.keys());
}

#[test]
fn capacity_bound_holds_over_many_adds() {
    let mut cache = Cache::with_capacity(3);
    for i in 0..20 {
        assert!(cache.add(&format!("k{}", i), Bytes::from(vec![0; i])).is_ok());
        assert!(cache.len() <= 3);
    }
    assert_eq!(keys_of(&["k19", "k18", "k17"]), cache.keys());
}

#[test]
fn size_bound_holds_over_many_adds() {
    let mut cache = Cache::with_size(50);
    for i in 0..30 {
        let _ = cache.add(&format!("k{}", i), Bytes::from(vec![0; i]));
        let mut total = 0;
        for k in cache.keys() {
            total += cache.get_bytes(&k).map(|b| b.len()).unwrap_or(0);
        }
        assert!(total <= 50);
    }
}

#[test]
fn capacity_zero_keeps_nothing() {
    let mut cache = Cache::with_capacity(0);
    assert!(cache.add("a", Bytes::from(vec![1])).is_ok());
    assert!(cache.is_empty());
}

#[test]
fn clear_twice_is_same_state() {
    let mut cache = Cache::with_size(100);
    populate(&mut cache, 5, 3, "k");
    cache.clear();
    assert_eq!(cache.len(), 0);
    assert!(cache.is_empty());
    cache.clear();
    assert_eq!(cache.len(), 0);
    assert!(cache.keys().is_empty());
    // the policy survives clearing
    assert!(cache.add("big", Bytes::from(vec![0; 101])).is_err());
}

#[test]
fn get_returns_entry_and_payload() {
    let mut cache = Cache::with_capacity(2);
    assert!(cache.add("x", Bytes::from(vec![7, 8, 9])).is_ok());
    let e = cache.get("x").cloned().unwrap();
    assert_eq!(e.key(), "x");
    assert_eq!(e.size(), 3);
    assert_eq!(e.value().as_ref(), &[7u8, 8, 9][..]);
    assert_eq!(cache.get_bytes("x").map(|b| b.to_vec()), Some(vec![7, 8, 9]));
}

#[test]
fn entry_new_keeps_key_and_value() {
    let e = Entry::new(String::from("key"), Bytes::from(vec![1, 2]));
    assert_eq!(e.key(), "key");
    assert_eq!(e.size(), 2);
    assert!(e.matches_key(&String::from("key")));
    assert!(!e.matches_key(&String::from("other")));
}

#[test]
fn scaled_constructors() {
    let mut kb = Cache::with_size_kb(1);
    assert!(kb.add("a", Bytes::from(vec![0; 1024])).is_ok());
    assert_eq!(kb.add("b", Bytes::from(vec![0; 1025])), Err(Error { size: 1025, limit: 1024 }));
    let mut mb = Cache::with_size_mb(1);
    assert_eq!(
        mb.add("b", Bytes::from(vec![0; 1024 * 1024 + 1])),
        Err(Error { size: 1024 * 1024 + 1, limit: 1024 * 1024 })
    );
    let mut gb = Cache::with_size_gb(1);
    assert_eq!(
        gb.add("c", Bytes::from(vec![0; 2])).is_ok(),
        true
    );
    assert_eq!(gb.add("d", Bytes::from_static(&[])), Ok(()));
}
