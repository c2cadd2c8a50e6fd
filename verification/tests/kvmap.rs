use dckv::{KVMap, Key, Value};

fn key(block: u64) -> Key {
    let mut blocks = [0u64; 12];
    blocks[0] = block;
    Key::from_key_blocks(&mut blocks)
}

#[test]
fn map_starts_empty() {
    let map = KVMap::new();
    assert_eq!(map.len(), 0);
    assert_eq!(map.get(key(1)), None);
    assert_eq!(map, KVMap::default());
}

#[test]
fn map_gets_what_was_inserted() {
    let mut map = KVMap::new();
    map.insert(key(1), Value::new(vec![10]));
    map.insert(key(2), Value::new(vec![20, 21]));
    assert_eq!(map.len(), 2);
    assert_eq!(map.get(key(1)), Some(&vec![10]));
    assert_eq!(map.get(key(2)), Some(&vec![20, 21]));
    assert_eq!(map.get(key(3)), None);
}

#[test]
fn map_get_key_value_gives_the_stored_key() {
    let mut map = KVMap::new();
    map.insert(key(0x0102_0304_0506_0708), Value::new(vec![10]));
    assert_eq!(
        map.get_key_value(key(0x0102_0304_0506_0708)),
        Some((&vec![1, 2, 3, 4, 5, 6, 7, 8], &vec![10]))
    );
    assert_eq!(map.get_key_value(key(9)), None);
}

#[test]
fn map_insert_twice_is_insert_once() {
    let mut once = KVMap::new();
    once.insert(key(1), Value::new(vec![10]));
    let mut twice = KVMap::new();
    twice.insert(key(1), Value::new(vec![10]));
    twice.insert(key(1), Value::new(vec![10]));
    assert_eq!(twice.len(), 1);
    assert_eq!(once, twice);
    assert_eq!(twice.get_index(0), once.get_index(0));
}

#[test]
fn map_overwrites_in_place() {
    let mut map = KVMap::new();
    map.insert(key(1), Value::new(vec![10]));
    map.insert(key(2), Value::new(vec![20]));
    map.insert(key(3), Value::new(vec![30]));
    map.insert(key(1), Value::new(vec![11]));
    assert_eq!(map.len(), 3);
    assert_eq!(map.get_index(0), Some((&key(1).into_bytes(), &vec![11])));
    assert_eq!(map.get_index(1), Some((&key(2).into_bytes(), &vec![20])));
    assert_eq!(map.get_index(2), Some((&key(3).into_bytes(), &vec![30])));
    assert_eq!(map.get_index(3), None);
}

#[test]
fn map_remove_keeps_the_order_of_the_rest() {
    let mut map = KVMap::new();
    map.insert(key(1), Value::new(vec![10]));
    map.insert(key(2), Value::new(vec![20]));
    map.insert(key(3), Value::new(vec![30]));
    map.insert(key(4), Value::new(vec![40]));
    assert_eq!(map.remove(key(2)), Some(vec![20]));
    assert_eq!(map.len(), 3);
    assert_eq!(map.get_index(0), Some((&key(1).into_bytes(), &vec![10])));
    assert_eq!(map.get_index(1), Some((&key(3).into_bytes(), &vec![30])));
    assert_eq!(map.get_index(2), Some((&key(4).into_bytes(), &vec![40])));
    assert_eq!(map.get(key(2)), None);
}

#[test]
fn map_remove_of_a_missing_key_changes_nothing() {
    let mut map = KVMap::new();
    map.insert(key(1), Value::new(vec![10]));
    let before = map.clone();
    assert_eq!(map.remove(key(5)), None);
    assert_eq!(map, before);
    assert_eq!(map.len(), 1);
}

#[test]
fn map_clone_keeps_entries_and_order() {
    let mut map = KVMap::new();
    map.insert(key(2), Value::new(vec![20]));
    map.insert(key(1), Value::new(vec![10]));
    let copy = map.clone();
    assert_eq!(copy.len(), 2);
    assert_eq!(copy.get_index(0), Some((&key(2).into_bytes(), &vec![20])));
    assert_eq!(copy.get_index(1), Some((&key(1).into_bytes(), &vec![10])));
}

#[test]
fn map_removed_key_is_gone() {
    let mut map = KVMap::new();
    map.insert(key(1), Value::new(vec![10]));
    map.insert(key(2), Value::new(vec![20]));
    map.insert(key(1), Value::new(vec![11]));
    assert_eq!(map.remove(key(1)), Some(vec![11]));
    assert_eq!(map.get(key(1)), None);
    assert_eq!(map.get_key_value(key(1)), None);
    assert_eq!(map.len(), 1);
    assert_eq!(map.remove(key(1)), None);
}
