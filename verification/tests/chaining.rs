use dstructs::chaining::LinkedListHashTable;

#[test]
fn insert_returns_bucket_index() {
    let mut t = LinkedListHashTable::new(10);
    assert_eq!(t.insert(3), 3);
    assert_eq!(t.insert(13), 3);
    assert_eq!(t.insert(25), 5);
}

#[test]
fn chained_keys_are_found() {
    let mut t = LinkedListHashTable::new(10);
    t.insert(3);
    t.insert(13);
    t.insert(25);
    assert_eq!(t.search(3), Some(3));
    assert_eq!(t.search(13), Some(3));
    assert_eq!(t.search(25), Some(5));
    assert_eq!(t.table[3], vec![3, 13]);
}

#[test]
fn absent_key_is_not_found() {
    let mut t = LinkedListHashTable::new(10);
    assert_eq!(t.search(23), None);
    t.insert(3);
    assert_eq!(t.search(23), None);
}

#[test]
fn duplicate_keys_lengthen_the_chain() {
    let mut t = LinkedListHashTable::new(4);
    t.insert(6);
    t.insert(6);
    assert_eq!(t.table[2], vec![6, 6]);
    assert_eq!(t.search(6), Some(2));
}

#[test]
fn chaining_hash_division() {
    assert_eq!(LinkedListHashTable::hash_division(10000, 50000), 10000);
    assert_eq!(LinkedListHashTable::hash_division(73, 50), 23);
}
