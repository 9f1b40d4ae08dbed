use bare_metal_map::BareMetalMap;

#[test]
fn it_works() {
    let mut map: BareMetalMap<&str, i32, 10> = BareMetalMap::new();
    map.put("hello", 0);
    map.put("bye", 1);
    map.put("greetings", 2);

    map.for_each(|k, v| println!("{k}: {v}"));

    let mut count: i32 = 0;
    map.for_each_mut(|_, _| {
        count += 1;
    });
    assert_eq!(count, 3);
}

#[test]
fn three_text_entries() {
    let mut map: BareMetalMap<&str, i32, 10> = BareMetalMap::new();
    assert_eq!(map.put("hello", 0), Some(0));
    assert_eq!(map.put("bye", 1), Some(1));
    assert_eq!(map.put("greetings", 2), Some(2));
    assert_eq!(map.len(), 3);
    assert_eq!(map.get("bye"), Some(1));
    assert_eq!(map.get("nope"), None);

    let mut visits: usize = 0;
    map.for_each_mut(|_, _| {
        visits += 1;
    });
    assert_eq!(visits, 3);
}

#[test]
fn capacity_one_exhausted() {
    let mut map: BareMetalMap<&str, i32, 1> = BareMetalMap::new();
    assert_eq!(map.put("a", 1), Some(0));
    assert_eq!(map.put("b", 2), None);
    assert_eq!(map.len(), 1);
    assert_eq!(map.get("b"), None);
    assert_eq!(map.get("a"), Some(1));
}

#[test]
fn duplicate_key_first_wins() {
    let mut map: BareMetalMap<&str, i32, 4> = BareMetalMap::new();
    assert_eq!(map.put("k", 1), Some(0));
    assert_eq!(map.put("k", 2), Some(1));
    assert_eq!(map.get("k"), Some(1));
    assert_eq!(map.get_at(0), Some(1));
    assert_eq!(map.get_at(1), Some(2));

    let mut seen: Vec<(&str, i32)> = Vec::new();
    map.for_each_mut(|k, v| {
        seen.push((k, v));
    });
    assert_eq!(seen, vec![("k", 1), ("k", 2)]);
}

#[test]
fn put_indices_strictly_increase_until_full() {
    let mut map: BareMetalMap<u32, u32, 4> = BareMetalMap::new();
    assert_eq!(map.put(10, 100), Some(0));
    assert_eq!(map.put(20, 200), Some(1));
    assert_eq!(map.put(30, 300), Some(2));
    assert_eq!(map.put(40, 400), Some(3));
    assert_eq!(map.put(50, 500), None);
}

#[test]
fn failed_put_changes_nothing() {
    let mut map: BareMetalMap<u32, u32, 2> = BareMetalMap::new();
    map.put(1, 11);
    map.put(2, 22);
    assert_eq!(map.len(), 2);
    assert_eq!(map.put(3, 33), None);
    assert_eq!(map.len(), 2);
    assert_eq!(map.get(1), Some(11));
    assert_eq!(map.get(2), Some(22));
    assert_eq!(map.get(3), None);
    assert_eq!(map.get_at(0), Some(11));
    assert_eq!(map.get_at(1), Some(22));
}

#[test]
fn len_counts_each_successful_put() {
    let mut map: BareMetalMap<u32, u32, 8> = BareMetalMap::new();
    assert_eq!(map.len(), 0);
    for k in 0..8u32 {
        map.put(k, k + 1);
        assert_eq!(map.len(), (k + 1) as usize);
    }
}

#[test]
fn empty_map_finds_nothing() {
    let map: BareMetalMap<&str, i32, 3> = BareMetalMap::new();
    assert_eq!(map.len(), 0);
    assert_eq!(map.get("anything"), None);
    assert_eq!(map.get_at(0), None);
    assert_eq!(map.get_at(2), None);

    let mut visits: usize = 0;
    map.for_each_mut(|_, _| {
        visits += 1;
    });
    assert_eq!(visits, 0);
}

#[test]
fn zero_capacity_rejects_everything() {
    let mut map: BareMetalMap<u32, u32, 0> = BareMetalMap::new();
    assert_eq!(map.put(1, 1), None);
    assert_eq!(map.len(), 0);
    assert_eq!(map.get(1), None);
}

#[test]
fn traversal_is_in_insertion_slot_order() {
    let mut map: BareMetalMap<u32, u32, 5> = BareMetalMap::new();
    map.put(7, 70);
    map.put(3, 30);
    map.put(9, 90);

    let mut seen: Vec<(u32, u32)> = Vec::new();
    map.for_each_mut(|k, v| {
        seen.push((k, v));
    });
    assert_eq!(seen, vec![(7, 70), (3, 30), (9, 90)]);
}

#[test]
fn default_is_empty() {
    let map: BareMetalMap<u32, u32, 4> = Default::default();
    assert_eq!(map.len(), 0);
    assert_eq!(map.get_at(3), None);
}

#[test]
fn copies_do_not_alias() {
    let mut map: BareMetalMap<u32, u32, 4> = BareMetalMap::new();
    map.put(1, 10);
    let mut copy = map;
    copy.put(2, 20);
    assert_eq!(map.len(), 1);
    assert_eq!(copy.len(), 2);
    assert_eq!(map.get(2), None);
    assert_eq!(copy.get(2), Some(20));
}
