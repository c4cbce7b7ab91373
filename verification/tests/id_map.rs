use bar_tray::id_map::IdMap;

fn ids(map: &IdMap<u32>) -> Vec<String> {
    (0..map.len()).map(|i| map.entry(i).0.clone()).collect()
}

#[test]
fn entries_come_out_in_order() {
    let mut map: IdMap<u32> = IdMap::new();
    for (n, id) in ["m", "b", "z", "a"].iter().enumerate() {
        map.insert(id.to_string(), n as u32);
    }
    assert_eq!(ids(&map), ["a", "b", "m", "z"]);
    assert_eq!(*map.entry(2).1, 0);
}

#[test]
fn an_id_has_one_value() {
    let mut map: IdMap<u32> = IdMap::new();
    map.insert("a".to_owned(), 1);
    map.insert("a".to_owned(), 2);
    assert_eq!(map.len(), 1);
    assert_eq!(map.get("a"), Some(&2));
    assert_eq!(map.get("b"), None);
    assert_eq!(map.get(""), None);
}

#[test]
fn removing_takes_one_entry_out() {
    let mut map: IdMap<u32> = IdMap::new();
    map.insert("a".to_owned(), 1);
    map.insert("b".to_owned(), 2);
    map.insert("c".to_owned(), 3);
    map.remove("nothing");
    assert_eq!(map.len(), 3);
    map.remove("b");
    assert_eq!(ids(&map), ["a", "c"]);
    map.remove_at(0);
    assert_eq!(ids(&map), ["c"]);
    assert_eq!(map.get("c"), Some(&3));
}

#[test]
fn the_way_to_the_contents_does_not_matter() {
    let mut a: IdMap<u32> = IdMap::new();
    let mut b: IdMap<u32> = IdMap::new();
    for id in ["c", "a", "b"] {
        a.insert(id.to_owned(), 1);
    }
    for id in ["b", "x", "c", "a"] {
        b.insert(id.to_owned(), 1);
    }
    b.remove("x");
    assert_eq!(ids(&a), ids(&b));
}
