use hash_table::key::hash_key;
use hash_table::TableKey;
use std::collections::hash_map::DefaultHasher;
use std::hash::{Hash, Hasher};

#[test]
fn equal_keys_hash_alike() {
    assert_eq!(hash_key(&5u64), hash_key(&5u64));
    assert_eq!(hash_key(&5u32), hash_key(&5u32));
    assert_eq!(hash_key(&5usize), hash_key(&5usize));
    assert_eq!(hash_key(&"abc".to_string()), hash_key(&"abc".to_string()));
    assert_eq!(hash_key(&"abc"), hash_key(&"abc"));
}

#[test]
fn owned_and_borrowed_strings_hash_alike() {
    assert_eq!(hash_key(&"snow".to_string()), hash_key(&"snow"));
}

#[test]
fn different_keys_hash_apart() {
    assert_ne!(hash_key(&1u64), hash_key(&2u64));
    assert_ne!(hash_key(&"a"), hash_key(&"b"));
    assert_ne!(hash_key(&""), hash_key(&"a"));
}

#[test]
fn same_compares_integers() {
    assert!(3u32.same(&3));
    assert!(!3u32.same(&4));
    assert!(3u64.same(&3));
    assert!(!3u64.same(&4));
    assert!(3usize.same(&3));
    assert!(!3usize.same(&4));
}

#[test]
fn same_compares_strings() {
    assert!("abc".to_string().same(&"abc".to_string()));
    assert!(!"abc".to_string().same(&"abd".to_string()));
    assert!("abc".same(&"abc"));
    assert!(!"abc".same(&"abd"));
    assert!(!"abc".same(&"ab"));
    assert!(!"ab".same(&"abc"));
    assert!("".same(&""));
    assert!("h\u{e9}".same(&"h\u{e9}"));
    assert!(!"h\u{e9}".same(&"he"));
}

#[test]
fn text_hashes_as_the_standard_hasher_hashes_it() {
    let mut hasher = DefaultHasher::new();
    "snow".hash(&mut hasher);
    assert_eq!(hash_key(&"snow"), hasher.finish());
}

#[test]
fn pairs_hash_and_compare_by_both_parts() {
    assert_eq!(hash_key(&(1u64, "a")), hash_key(&(1u64, "a")));
    assert_ne!(hash_key(&(1u64, "a")), hash_key(&(1u64, "b")));
    assert_ne!(hash_key(&("ab", "c")), hash_key(&("a", "bc")));
    assert!((1u64, "a").same(&(1u64, "a")));
    assert!(!(1u64, "a").same(&(2u64, "a")));
    assert!(!(1u64, "a").same(&(1u64, "b")));
}
