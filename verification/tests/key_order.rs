use ply_writer::keymap::KeyMap;

fn key(s: &str) -> String {
    s.to_string()
}

#[test]
fn new_map_is_empty() {
    let map: KeyMap<u32> = KeyMap::new();
    assert_eq!(map.len(), 0);
    assert_eq!(map.get(&key("a")), None);
    assert!(map.get_index(0).is_none());
    assert!(!map.contains_key(&key("a")));
}

#[test]
fn entries_keep_the_order_of_insertion() {
    let mut map = KeyMap::new();
    assert_eq!(map.insert(key("z"), 1u32), None);
    assert_eq!(map.insert(key("a"), 2), None);
    assert_eq!(map.insert(key("m"), 3), None);
    assert_eq!(map.len(), 3);
    assert_eq!(map.get_index(0), Some((&key("z"), &1)));
    assert_eq!(map.get_index(1), Some((&key("a"), &2)));
    assert_eq!(map.get_index(2), Some((&key("m"), &3)));
    assert_eq!(map.get_index(3), None);
}

#[test]
fn known_key_keeps_its_place_and_hands_back_the_earlier_value() {
    let mut map = KeyMap::new();
    map.insert(key("x"), 1u32);
    map.insert(key("y"), 2);
    map.insert(key("z"), 3);
    assert_eq!(map.insert(key("x"), 10), Some(1));
    assert_eq!(map.insert(key("z"), 30), Some(3));
    assert_eq!(map.len(), 3);
    assert_eq!(map.get_index(0), Some((&key("x"), &10)));
    assert_eq!(map.get_index(1), Some((&key("y"), &2)));
    assert_eq!(map.get_index(2), Some((&key("z"), &30)));
}

#[test]
fn lookup_finds_values_by_key() {
    let mut map = KeyMap::new();
    map.insert(key("x"), 1u32);
    map.insert(key("y"), 2);
    assert_eq!(map.get(&key("x")), Some(&1));
    assert_eq!(map.get(&key("y")), Some(&2));
    assert_eq!(map.get(&key("")), None);
    assert_eq!(map.find(&key("y")), Some(&2));
    assert_eq!(map.find(&key("w")), None);
    assert_eq!(map.index_of(&key("y")), Some(1));
    assert_eq!(map.index_of(&key("w")), None);
    assert!(map.contains_key(&key("x")));
    assert!(!map.contains_key(&key("X")));
}

#[test]
fn clone_keeps_keys_values_and_order() {
    let mut map = KeyMap::new();
    map.insert(key("b"), vec![1u8, 2]);
    map.insert(key("a"), vec![]);
    let copy = map.clone();
    assert_eq!(copy, map);
    assert_eq!(copy.get_index(0), Some((&key("b"), &vec![1u8, 2])));
    assert_eq!(copy.get_index(1), Some((&key("a"), &vec![])));
}
