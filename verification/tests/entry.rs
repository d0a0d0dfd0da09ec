use hash_table::Entry;

#[test]
fn take_empties_an_occupied_slot() {
    let mut slot = Entry::Occupied { key: 1u64, val: "a" };
    assert_eq!(slot.take(), Some("a"));
    assert!(matches!(slot, Entry::Tombstone));
    assert_eq!(slot.take(), None);
    assert!(matches!(slot, Entry::Tombstone));
}

#[test]
fn take_leaves_a_vacant_slot_vacant() {
    let mut slot: Entry<u64, &str> = Entry::Vacant;
    assert_eq!(slot.take(), None);
    assert!(matches!(slot, Entry::Vacant));
}

#[test]
fn replace_swaps_the_value_of_an_occupied_slot() {
    let mut slot = Entry::Occupied { key: 1u64, val: "a" };
    assert_eq!(slot.replace("b"), Some("a"));
    assert!(matches!(slot, Entry::Occupied { key: 1, val: "b" }));
}

#[test]
fn replace_leaves_other_slots_alone() {
    let mut vacant: Entry<u64, &str> = Entry::Vacant;
    assert_eq!(vacant.replace("b"), None);
    assert!(matches!(vacant, Entry::Vacant));
    let mut tombstone: Entry<u64, &str> = Entry::Tombstone;
    assert_eq!(tombstone.replace("b"), None);
    assert!(matches!(tombstone, Entry::Tombstone));
}
