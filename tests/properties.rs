use seq_map::{decimal_string, render_debug, render_display, SeqMap, SeqMapError};
use std::collections::hash_map::DefaultHasher;
use std::hash::{Hash, Hasher};

fn hash_of(map: &SeqMap<&str, i32>) -> u64 {
    let mut hasher = DefaultHasher::new();
    map.hash(&mut hasher);
    hasher.finish()
}

#[test]
fn distinct_inserts_keep_their_order() {
    let mut map = SeqMap::new();
    for (k, v) in [("e", 5), ("a", 1), ("d", 4), ("b", 2), ("c", 3)] {
        map.insert(k, v).unwrap();
    }
    let keys: Vec<_> = map.keys().into_iter().copied().collect();
    assert_eq!(keys, vec!["e", "a", "d", "b", "c"]);
    let pairs: Vec<_> = map.iter().into_iter().map(|(k, v)| (*k, *v)).collect();
    assert_eq!(pairs, vec![("e", 5), ("a", 1), ("d", 4), ("b", 2), ("c", 3)]);
}

#[test]
fn lookup_follows_inserts_and_removals() {
    let mut map = SeqMap::new();
    assert_eq!(map.get(&"a"), None);
    map.insert("a", 1).unwrap();
    map.insert("b", 2).unwrap();
    assert_eq!(map.get(&"a"), Some(&1));
    assert_eq!(map.get(&"b"), Some(&2));
    assert_eq!(map.get(&"z"), None);
    assert!(map.contains_key(&"a"));
    assert!(!map.contains_key(&"z"));

    assert_eq!(map.remove(&"a"), Some(1));
    assert_eq!(map.get(&"a"), None);
    assert!(!map.contains_key(&"a"));
    assert_eq!(map.get(&"b"), Some(&2));

    if let Some(v) = map.get_mut(&"b") {
        *v = 20;
    }
    assert_eq!(map.get(&"b"), Some(&20));
    assert_eq!(map[&"b"], 20);
    assert!(map.get_mut(&"a").is_none());
}

#[test]
fn reinserted_key_moves_to_the_end() {
    let mut map = SeqMap::new();
    map.insert("a", 1).unwrap();
    map.insert("b", 2).unwrap();
    assert_eq!(map.remove(&"a"), Some(1));
    map.insert("a", 3).unwrap();
    let keys: Vec<_> = map.keys().into_iter().copied().collect();
    assert_eq!(keys, vec!["b", "a"]);
    assert_eq!(map.get_index(&"a"), Some(1));
    assert_eq!(map.get(&"a"), Some(&3));
}

#[test]
fn duplicate_insert_is_rejected() {
    let mut map = SeqMap::new();
    map.insert("a", 1).unwrap();
    map.insert("b", 2).unwrap();
    assert_eq!(map.insert("a", 9), Err(SeqMapError::KeyAlreadyExists));
    assert_eq!(map.len(), 2);
    assert_eq!(map.get(&"a"), Some(&1));
    assert_eq!(map.get_index(&"a"), Some(0));
}

#[test]
fn error_describes_itself() {
    assert_eq!(
        SeqMapError::KeyAlreadyExists.to_string(),
        "The key already exists in the SeqMap."
    );
}

#[test]
fn remove_absent_first_and_last() {
    let mut map = SeqMap::new();
    for (k, v) in [("a", 1), ("b", 2), ("c", 3), ("d", 4)] {
        map.insert(k, v).unwrap();
    }
    assert_eq!(map.remove(&"z"), None);
    assert_eq!(map.len(), 4);

    assert_eq!(map.remove(&"a"), Some(1));
    assert_eq!(map.get_index(&"b"), Some(0));
    assert_eq!(map.get_index(&"c"), Some(1));
    assert_eq!(map.get_index(&"d"), Some(2));

    assert_eq!(map.remove(&"d"), Some(4));
    assert_eq!(map.get_index(&"b"), Some(0));
    assert_eq!(map.get_index(&"c"), Some(1));
    assert_eq!(map.get_index(&"d"), None);

    assert_eq!(map.remove(&"b"), Some(2));
    assert_eq!(map.remove(&"c"), Some(3));
    assert!(map.is_empty());
    map.insert("e", 5).unwrap();
    assert_eq!(map.get_index(&"e"), Some(0));
}

#[test]
fn extend_keeps_first_occurrences() {
    let mut map = SeqMap::new();
    map.extend(vec![("a", 1), ("b", 2), ("a", 3), ("c", 4), ("b", 5)]);
    assert_eq!(map.len(), 3);
    assert_eq!(map.get(&"a"), Some(&1));
    assert_eq!(map.get(&"b"), Some(&2));
    assert_eq!(map.get(&"c"), Some(&4));
    let keys: Vec<_> = map.keys().into_iter().copied().collect();
    assert_eq!(keys, vec!["a", "b", "c"]);

    map.extend(vec![("c", 40), ("d", 5)]);
    let pairs: Vec<_> = map.iter().into_iter().map(|(k, v)| (*k, *v)).collect();
    assert_eq!(pairs, vec![("a", 1), ("b", 2), ("c", 4), ("d", 5)]);
}

#[test]
fn equality_depends_on_order() {
    let mut ab = SeqMap::new();
    ab.insert("a", 1).unwrap();
    ab.insert("b", 2).unwrap();
    let mut ba = SeqMap::new();
    ba.insert("b", 2).unwrap();
    ba.insert("a", 1).unwrap();
    assert!(ab != ba);

    let mut ab2 = SeqMap::new();
    ab2.insert("a", 1).unwrap();
    ab2.insert("b", 2).unwrap();
    assert!(ab == ab2);

    let mut ab3 = SeqMap::new();
    ab3.insert("a", 1).unwrap();
    ab3.insert("b", 3).unwrap();
    assert!(ab != ab3);

    let mut a = SeqMap::new();
    a.insert("a", 1).unwrap();
    assert!(ab != a);
}

#[test]
fn equal_maps_hash_equal() {
    let mut first = SeqMap::new();
    first.insert("a", 1).unwrap();
    first.insert("b", 2).unwrap();
    let mut second = SeqMap::new();
    second.insert("a", 1).unwrap();
    second.insert("x", 7).unwrap();
    second.insert("b", 2).unwrap();
    second.remove(&"x");
    assert!(first == second);
    assert_eq!(hash_of(&first), hash_of(&second));
}

#[test]
fn drain_yields_in_order_and_empties() {
    let mut map = SeqMap::new();
    map.insert("a", 1).unwrap();
    map.insert("b", 2).unwrap();
    let drained = map.drain();
    assert_eq!(drained, vec![("a", 1), ("b", 2)]);
    assert_eq!(map.len(), 0);
    assert_eq!(map.get(&"a"), None);
    map.insert("b", 3).unwrap();
    assert_eq!(map.get_index(&"b"), Some(0));
}

#[test]
fn clear_empties() {
    let mut map = SeqMap::new();
    map.insert(1, 10).unwrap();
    map.insert(2, 20).unwrap();
    map.clear();
    assert!(map.is_empty());
    assert!(!map.contains_key(&1));
    map.insert(2, 30).unwrap();
    assert_eq!(map.get_index(&2), Some(0));
}

#[test]
fn consuming_keys_and_values() {
    let mut map = SeqMap::new();
    map.insert("x", 100).unwrap();
    map.insert("y", 200).unwrap();
    let copy = map.clone();
    assert_eq!(map.into_keys(), vec!["x", "y"]);
    assert_eq!(copy.into_values(), vec![100, 200]);
}

#[test]
fn values_mut_changes_values_only() {
    let mut map = SeqMap::new();
    map.insert("a", 1).unwrap();
    map.insert("b", 2).unwrap();
    for v in map.values_mut() {
        *v += 10;
    }
    let pairs: Vec<_> = map.iter().into_iter().map(|(k, v)| (*k, *v)).collect();
    assert_eq!(pairs, vec![("a", 11), ("b", 12)]);
    assert_eq!(map.get_index(&"b"), Some(1));
}

#[test]
fn default_is_empty() {
    let map: SeqMap<u32, u32> = SeqMap::default();
    assert!(map.is_empty());
    assert_eq!(map.to_string(), "SeqMap(0)");
    assert_eq!(map.to_debug_string(), "SeqMap()");
}

#[test]
fn display_and_debug_of_several_entries() {
    let mut map = SeqMap::new();
    map.insert("a", 1).unwrap();
    map.insert("b", -2).unwrap();
    assert_eq!(map.to_string(), "SeqMap(2)\na: 1\nb: -2");
    assert_eq!(map.to_debug_string(), "SeqMap(\"a\": 1, \"b\": -2)");
}

#[test]
fn display_counts_past_nine() {
    let mut map = SeqMap::new();
    for k in 0..12 {
        map.insert(k, k).unwrap();
    }
    assert!(map.to_string().starts_with("SeqMap(12)\n0: 0\n1: 1"));
}

#[test]
fn render_lays_out_given_texts() {
    let texts = vec![
        ("k1".to_string(), "v1".to_string()),
        ("k2".to_string(), "v2".to_string()),
    ];
    assert_eq!(render_display(&texts), "SeqMap(2)\nk1: v1\nk2: v2");
    assert_eq!(render_debug(&texts), "SeqMap(k1: v1, k2: v2)");
    assert_eq!(render_display(&Vec::new()), "SeqMap(0)");
    assert_eq!(render_debug(&Vec::new()), "SeqMap()");
}

#[test]
fn decimal_digits() {
    assert_eq!(decimal_string(0), "0");
    assert_eq!(decimal_string(7), "7");
    assert_eq!(decimal_string(10), "10");
    assert_eq!(decimal_string(1204), "1204");
    assert_eq!(decimal_string(usize::MAX), usize::MAX.to_string());
}
