use hash_table::HashMap;

#[test]
fn empty_table_finds_nothing() {
    let table: HashMap<String, i32> = HashMap::new();
    assert_eq!(table.len(), 0);
    assert_eq!(table.capacity(), 0);
    assert_eq!(table.get(&"x".to_string()), None);
}

#[test]
fn single_key_lifecycle() {
    let mut table: HashMap<&str, i32> = HashMap::new();
    assert_eq!(table.get(&"x"), None);
    assert_eq!(table.insert("x", 1), None);
    assert_eq!(table.len(), 1);
    assert_eq!(table.insert("x", 2), Some(1));
    assert_eq!(table.len(), 1);
    assert_eq!(table.remove(&"x"), Some(2));
    assert_eq!(table.len(), 0);
    assert_eq!(table.get(&"x"), None);
}

#[test]
fn single_key_lifecycle_with_owned_strings() {
    let mut table: HashMap<String, i32> = HashMap::new();
    let x = "x".to_string();
    assert_eq!(table.get(&x), None);
    assert_eq!(table.insert(x.clone(), 1), None);
    assert_eq!(table.len(), 1);
    assert_eq!(table.insert(x.clone(), 2), Some(1));
    assert_eq!(table.len(), 1);
    assert_eq!(table.remove(&x), Some(2));
    assert_eq!(table.len(), 0);
    assert_eq!(table.get(&x), None);
}

#[test]
fn len_counts_distinct_keys() {
    let mut table: HashMap<u64, u64> = HashMap::new();
    for k in 0..1000u64 {
        assert_eq!(table.insert(k * 7919, k), None);
        assert_eq!(table.len(), (k + 1) as usize);
    }
    for k in 0..1000u64 {
        assert_eq!(table.get(&(k * 7919)), Some(&k));
    }
    assert_eq!(table.get(&1), None);
}

#[test]
fn second_insert_returns_first_value() {
    let mut table: HashMap<u32, &str> = HashMap::new();
    assert_eq!(table.insert(7, "first"), None);
    let len = table.len();
    assert_eq!(table.insert(7, "second"), Some("first"));
    assert_eq!(table.len(), len);
    assert_eq!(table.get(&7), Some(&"second"));
}

#[test]
fn remove_absent_key_changes_nothing() {
    let mut table: HashMap<u64, i32> = HashMap::new();
    assert_eq!(table.remove(&3), None);
    assert_eq!(table.len(), 0);
    table.insert(1, 10);
    table.insert(2, 20);
    assert_eq!(table.remove(&3), None);
    assert_eq!(table.len(), 2);
    assert_eq!(table.get(&1), Some(&10));
    assert_eq!(table.get(&2), Some(&20));
}

#[test]
fn remove_present_key_returns_last_value() {
    let mut table: HashMap<u64, i32> = HashMap::new();
    table.insert(1, 10);
    table.insert(2, 20);
    table.insert(1, 11);
    assert_eq!(table.len(), 2);
    assert_eq!(table.remove(&1), Some(11));
    assert_eq!(table.len(), 1);
    assert_eq!(table.get(&1), None);
    assert_eq!(table.get(&2), Some(&20));
    assert_eq!(table.remove(&1), None);
    assert_eq!(table.len(), 1);
}

#[test]
fn lookup_finds_value_until_removed_or_overwritten() {
    let mut table: HashMap<usize, usize> = HashMap::new();
    table.insert(5, 50);
    for k in 100..300usize {
        table.insert(k, k);
        assert_eq!(table.get(&5), Some(&50));
    }
    for k in 100..200usize {
        table.remove(&k);
        assert_eq!(table.get(&5), Some(&50));
    }
    table.insert(5, 51);
    assert_eq!(table.get(&5), Some(&51));
    table.remove(&5);
    assert_eq!(table.get(&5), None);
}

#[test]
fn first_insert_allocates_64_slots() {
    let mut table: HashMap<u64, u64> = HashMap::new();
    assert_eq!(table.capacity(), 0);
    table.insert(1, 1);
    assert_eq!(table.capacity(), 64);
    assert_eq!(table.len(), 1);
}

#[test]
fn forty_nine_inserts_stay_in_64_slots() {
    let mut table: HashMap<u64, u64> = HashMap::new();
    for k in 0..48u64 {
        table.insert(k, k);
        assert_eq!(table.capacity(), 64);
    }
    // 48 of 64 slots are in use: the next insertion rebuilds first, and
    // since no more than three quarters are occupied the size stays.
    table.insert(48, 48);
    assert_eq!(table.capacity(), 64);
    assert_eq!(table.len(), 49);
    // Now more than three quarters are occupied: the table doubles.
    table.insert(49, 49);
    assert_eq!(table.capacity(), 128);
    assert_eq!(table.len(), 50);
    for k in 0..50u64 {
        assert_eq!(table.get(&k), Some(&k));
    }
}

#[test]
fn capacity_doubles_from_128_to_256() {
    let mut table: HashMap<u64, u64> = HashMap::new();
    for k in 0..97u64 {
        table.insert(k, k);
    }
    // 96 of 128 slots in use rebuilt without growth at the 97th insertion.
    assert_eq!(table.capacity(), 128);
    table.insert(97, 97);
    assert_eq!(table.capacity(), 256);
    assert_eq!(table.len(), 98);
}

#[test]
fn load_stays_within_three_quarters_and_one() {
    let mut table: HashMap<u64, u64> = HashMap::new();
    for k in 0..5000u64 {
        table.insert(k, k);
        let capacity = table.capacity();
        assert!(capacity >= 64);
        assert!(4 * table.len() <= 3 * capacity + 4);
    }
}

#[test]
fn tombstones_count_towards_the_load() {
    let mut table: HashMap<u64, u64> = HashMap::new();
    for k in 0..40u64 {
        table.insert(k, k);
    }
    for k in 0..40u64 {
        assert_eq!(table.remove(&k), Some(k));
    }
    assert_eq!(table.len(), 0);
    assert_eq!(table.capacity(), 64);
    // 40 tombstones and 8 pairs make 48 slots in use.
    for k in 100..108u64 {
        table.insert(k, k);
    }
    assert_eq!(table.capacity(), 64);
    // The next insertion rebuilds without growth and drops the tombstones,
    // so 39 more pairs fit before the next rebuild.
    for k in 108..148u64 {
        table.insert(k, k);
        assert_eq!(table.capacity(), 64);
    }
    assert_eq!(table.len(), 48);
    for k in 100..148u64 {
        assert_eq!(table.get(&k), Some(&k));
    }
    for k in 0..40u64 {
        assert_eq!(table.get(&k), None);
    }
}

#[test]
fn reinsert_after_remove_restores_len() {
    let mut table: HashMap<u64, &str> = HashMap::new();
    table.insert(1, "a");
    table.insert(2, "b");
    let before = table.len();
    assert_eq!(table.insert(3, "c"), None);
    let after_first = table.len();
    assert_eq!(after_first, before + 1);
    assert_eq!(table.remove(&3), Some("c"));
    assert_eq!(table.len(), before);
    assert_eq!(table.insert(3, "d"), None);
    assert_eq!(table.len(), after_first);
    assert_eq!(table.get(&3), Some(&"d"));
}

#[test]
fn many_cycles_on_one_key_keep_the_table_usable() {
    let mut table: HashMap<u64, u64> = HashMap::new();
    for round in 0..1000u64 {
        assert_eq!(table.insert(9, round), None);
        assert_eq!(table.len(), 1);
        assert_eq!(table.get(&9), Some(&round));
        assert_eq!(table.remove(&9), Some(round));
        assert_eq!(table.len(), 0);
    }
    assert_eq!(table.capacity(), 64);
    assert_eq!(table.get(&9), None);
}

#[test]
fn get_mut_writes_through() {
    let mut table: HashMap<u64, i32> = HashMap::new();
    assert!(table.get_mut(&1).is_none());
    table.insert(1, 10);
    table.insert(2, 20);
    match table.get_mut(&1) {
        Some(val) => {
            assert_eq!(*val, 10);
            *val = 15;
        }
        None => panic!("key 1 is stored"),
    }
    assert_eq!(table.get(&1), Some(&15));
    assert_eq!(table.get(&2), Some(&20));
    assert_eq!(table.len(), 2);
    assert!(table.get_mut(&3).is_none());
    table.remove(&1);
    assert!(table.get_mut(&1).is_none());
}

#[test]
fn removed_key_does_not_hide_keys_behind_it() {
    // With 60 keys in 128 slots some keys share probe paths. Removing
    // every other key must leave the rest reachable.
    let mut table: HashMap<u64, u64> = HashMap::new();
    for k in 0..60u64 {
        table.insert(k, k + 1);
    }
    for k in (0..60u64).filter(|k| k % 2 == 0) {
        assert_eq!(table.remove(&k), Some(k + 1));
    }
    for k in 0..60u64 {
        if k % 2 == 0 {
            assert_eq!(table.get(&k), None);
        } else {
            assert_eq!(table.get(&k), Some(&(k + 1)));
        }
    }
    assert_eq!(table.len(), 30);
}

#[test]
fn values_need_not_be_copyable() {
    let mut table: HashMap<String, Vec<String>> = HashMap::new();
    table.insert("a".to_string(), vec!["1".to_string()]);
    assert_eq!(
        table.insert("a".to_string(), vec!["2".to_string(), "3".to_string()]),
        Some(vec!["1".to_string()])
    );
    assert_eq!(table.remove(&"a".to_string()), Some(vec!["2".to_string(), "3".to_string()]));
    assert_eq!(table.len(), 0);
}

#[test]
fn pairs_serve_as_keys() {
    let mut table: HashMap<(u32, String), u64> = HashMap::new();
    for a in 0..20u32 {
        for b in ["x", "y", "z"] {
            assert_eq!(table.insert((a, b.to_string()), a as u64), None);
        }
    }
    assert_eq!(table.len(), 60);
    assert_eq!(table.get(&(7, "y".to_string())), Some(&7));
    assert_eq!(table.remove(&(7, "y".to_string())), Some(7));
    assert_eq!(table.get(&(7, "y".to_string())), None);
    assert_eq!(table.get(&(7, "x".to_string())), Some(&7));
    assert_eq!(table.len(), 59);
}
