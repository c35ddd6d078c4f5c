use glam::sorted_map::SortedMap;

#[test]
fn read_after_write() {
    let mut m: SortedMap<u32> = SortedMap::new();
    assert_eq!(m.insert("b".to_string(), 2), None);
    assert_eq!(m.get("b"), Some(&2));
    assert_eq!(m.get("a"), None);
    assert_eq!(m.insert("b".to_string(), 5), Some(2));
    assert_eq!(m.get("b"), Some(&5));
    assert_eq!(m.len(), 1);
}

#[test]
fn keys_stay_in_str_order() {
    let mut m: SortedMap<usize> = SortedMap::new();
    let keys = ["zeta", "alpha", "Beta", "alp", "é", "z", ""];
    for (i, k) in keys.iter().enumerate() {
        m.insert(k.to_string(), i);
    }
    let mut expected: Vec<&str> = keys.to_vec();
    expected.sort();
    assert_eq!(m.len(), keys.len());
    for (i, k) in expected.iter().enumerate() {
        assert_eq!(m.key_at(i), k);
        let pos = keys.iter().position(|x| x == k).unwrap();
        assert_eq!(*m.value_at(i), pos);
    }
}

#[test]
fn write_leaves_other_keys() {
    let mut m: SortedMap<&str> = SortedMap::new();
    m.insert("x".to_string(), "1");
    m.insert("y".to_string(), "2");
    m.insert("x".to_string(), "3");
    assert_eq!(m.get("y"), Some(&"2"));
    assert_eq!(m.get("x"), Some(&"3"));
    assert_eq!(m.len(), 2);
}
