use dstructs::open_addressing::{OpenAddressingHashTable, TableFull};

#[test]
fn scenario_capacity_five() {
    let mut t = OpenAddressingHashTable::new(5);
    assert_eq!(t.insert(2), Ok(2));
    assert_eq!(t.insert(7), Ok(3));
    assert_eq!(t.insert(12), Ok(4));
    assert_eq!(t.search(12), Some(4));
    assert_eq!(t.search(3), None);
    assert_eq!(t.search(2), Some(2));
    assert_eq!(t.search(7), Some(3));
}

#[test]
fn inserted_keys_are_found() {
    let mut t = OpenAddressingHashTable::new(11);
    for k in [4usize, 15, 26, 3, 9] {
        t.insert(k).unwrap();
    }
    for k in [4usize, 15, 26, 3, 9] {
        let idx = t.search(k).expect("inserted key must be found");
        assert_eq!(t.table[idx], Some(k));
    }
}

#[test]
fn absent_keys_are_not_found() {
    let mut t = OpenAddressingHashTable::new(7);
    assert_eq!(t.search(3), None);
    t.insert(1).unwrap();
    t.insert(8).unwrap();
    assert_eq!(t.search(3), None);
    assert_eq!(t.search(15), None);
}

#[test]
fn insert_beyond_capacity_fails() {
    let mut t = OpenAddressingHashTable::new(3);
    assert_eq!(t.insert(10), Ok(1));
    assert_eq!(t.insert(20), Ok(2));
    assert_eq!(t.insert(30), Ok(0));
    assert_eq!(t.insert(40), Err(TableFull));
    // The failed insertion left the table unchanged.
    assert_eq!(t.table, vec![Some(30), Some(10), Some(20)]);
}

#[test]
fn colliding_keys_coexist() {
    let mut t = OpenAddressingHashTable::new(5);
    assert_eq!(t.insert(0), Ok(0));
    assert_eq!(t.insert(5), Ok(1));
    assert_eq!(t.search(0), Some(0));
    assert_eq!(t.search(5), Some(1));
}

#[test]
fn search_is_idempotent() {
    let mut t = OpenAddressingHashTable::new(5);
    t.insert(2).unwrap();
    t.insert(7).unwrap();
    assert_eq!(t.search(7), t.search(7));
    assert_eq!(t.search(3), t.search(3));
}

#[test]
fn full_table_search_terminates() {
    let mut t = OpenAddressingHashTable::new(2);
    t.insert(0).unwrap();
    t.insert(2).unwrap();
    // Every slot is occupied and neither holds 4: the probe bound stops
    // the search.
    assert_eq!(t.search(4), None);
}

#[test]
fn duplicate_key_occupies_second_slot() {
    // No duplicate suppression: re-inserting a key fills another probe
    // position, and search keeps returning the first one.
    let mut t = OpenAddressingHashTable::new(5);
    assert_eq!(t.insert(2), Ok(2));
    assert_eq!(t.insert(2), Ok(3));
    assert_eq!(t.table[2], Some(2));
    assert_eq!(t.table[3], Some(2));
    assert_eq!(t.search(2), Some(2));
}

#[test]
fn hash_division_probes() {
    assert_eq!(OpenAddressingHashTable::hash_division(7, 0, 5), 2);
    assert_eq!(OpenAddressingHashTable::hash_division(7, 1, 5), 3);
    assert_eq!(OpenAddressingHashTable::hash_division(7, 4, 5), 1);
    assert_eq!(OpenAddressingHashTable::hash_division(9, 1, 5), 0);
}
