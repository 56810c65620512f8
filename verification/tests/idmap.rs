use lrlex::RuleIdMap;

fn listed_ids(map: &RuleIdMap<u16>) -> Vec<(String, u16)> {
    let mut out = Vec::new();
    let mut i = 0;
    while let Some(name) = map.name_at(i) {
        out.push((name.clone(), map.id_at(i).unwrap()));
        i += 1;
    }
    out
}

#[test]
fn new_map_is_empty() {
    let map: RuleIdMap<u16> = RuleIdMap::new();
    assert_eq!(map.len(), 0);
    assert_eq!(map.get("num"), None);
    assert_eq!(map.lookup("num"), None);
    assert!(map.name_at(0).is_none());
    assert_eq!(map.id_at(0), None);
}

#[test]
fn insert_adds_or_replaces() {
    let mut map: RuleIdMap<u16> = RuleIdMap::new();
    map.insert("num".to_string(), 1);
    map.insert("plus".to_string(), 2);
    assert_eq!(map.len(), 2);
    assert_eq!(map.get("num"), Some(1));
    assert_eq!(map.get("plus"), Some(2));
    assert_eq!(map.get("minus"), None);
    map.insert("num".to_string(), 9);
    assert_eq!(map.len(), 2);
    assert_eq!(map.get("num"), Some(9));
    assert_eq!(map.get("plus"), Some(2));
}

#[test]
fn get_is_exact_about_case() {
    let mut map: RuleIdMap<u16> = RuleIdMap::new();
    map.insert("num".to_string(), 1);
    assert_eq!(map.get("NUM"), None);
    assert_eq!(map.get("Num"), None);
    assert_eq!(map.get("num"), Some(1));
}

#[test]
fn lookup_ignores_ascii_case() {
    let mut map: RuleIdMap<u16> = RuleIdMap::new();
    map.insert("num".to_string(), 1);
    map.insert("PLUS".to_string(), 2);
    assert_eq!(map.lookup("num"), Some(1));
    assert_eq!(map.lookup("NUM"), Some(1));
    assert_eq!(map.lookup("Num"), Some(1));
    assert_eq!(map.lookup("plus"), Some(2));
    assert_eq!(map.lookup("minus"), None);
    assert_eq!(map.lookup("nu"), None);
}

#[test]
fn lookup_prefers_the_exact_name_then_the_first_in_name_order() {
    let mut map: RuleIdMap<u16> = RuleIdMap::new();
    map.insert("num".to_string(), 1);
    map.insert("NUM".to_string(), 2);
    map.insert("Num".to_string(), 3);
    assert_eq!(map.lookup("num"), Some(1));
    assert_eq!(map.lookup("NUM"), Some(2));
    assert_eq!(map.lookup("Num"), Some(3));
    assert_eq!(map.lookup("nUM"), Some(2));
    assert_eq!(map.lookup("nuM"), Some(2));
}

#[test]
fn entries_are_listed_in_name_order() {
    let mut map: RuleIdMap<u16> = RuleIdMap::new();
    map.insert("plus".to_string(), 2);
    map.insert("num".to_string(), 1);
    map.insert("minus".to_string(), 3);
    assert_eq!(
        listed_ids(&map),
        vec![("minus".to_string(), 3), ("num".to_string(), 1), ("plus".to_string(), 2)]
    );
    assert!(map.name_at(3).is_none());
    assert_eq!(map.id_at(3), None);
}

#[test]
fn maps_built_in_different_orders_list_the_same_entries() {
    let pairs: [(&str, u16); 4] = [("d", 4), ("a", 1), ("c", 3), ("b", 2)];
    let mut forward: RuleIdMap<u16> = RuleIdMap::new();
    for (name, id) in pairs.iter() {
        forward.insert(name.to_string(), *id);
    }
    let mut backward: RuleIdMap<u16> = RuleIdMap::new();
    for (name, id) in pairs.iter().rev() {
        backward.insert(name.to_string(), *id);
    }
    assert_eq!(listed_ids(&forward), listed_ids(&backward));
}

#[test]
fn from_pairs_inserts_the_pairs_in_turn() {
    let map: RuleIdMap<u16> = RuleIdMap::from_pairs(vec![
        ("plus".to_string(), 2),
        ("num".to_string(), 7),
        ("minus".to_string(), 3),
        ("num".to_string(), 1),
    ]);
    assert_eq!(
        listed_ids(&map),
        vec![("minus".to_string(), 3), ("num".to_string(), 1), ("plus".to_string(), 2)]
    );
    let none: RuleIdMap<u16> = RuleIdMap::from_pairs(Vec::new());
    assert_eq!(none.len(), 0);
}

#[test]
fn from_pairs_does_not_depend_on_the_order_of_distinct_names() {
    let pairs: Vec<(String, u16)> =
        vec![("c".to_string(), 3), ("a".to_string(), 1), ("d".to_string(), 4), ("b".to_string(), 2)];
    let mut turned = pairs.clone();
    turned.reverse();
    let mut shifted = pairs.clone();
    shifted.rotate_left(1);
    let first = listed_ids(&RuleIdMap::from_pairs(pairs));
    assert_eq!(first, listed_ids(&RuleIdMap::from_pairs(turned)));
    assert_eq!(first, listed_ids(&RuleIdMap::from_pairs(shifted)));
}
