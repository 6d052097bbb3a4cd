use multimap::MultiMap;

#[test]
fn values_keep_arrival_order() {
    let mut m: MultiMap<u32, u32> = MultiMap::new();
    for v in [7u32, 3, 7, 9, 1] {
        m.insert(5, v);
    }
    assert_eq!(m.get_vec(&5), Some(&vec![7, 3, 7, 9, 1]));
    assert_eq!(m.get(&5), Some(&7));
    assert_eq!(m[&5], 7);
}

#[test]
fn len_counts_keys_not_values() {
    let mut m: MultiMap<u32, u32> = MultiMap::new();
    assert_eq!(m.len(), 0);
    m.insert(1, 10);
    assert_eq!(m.len(), 1);
    m.insert(1, 11);
    assert_eq!(m.len(), 1);
    m.insert(2, 20);
    assert_eq!(m.len(), 2);
    m.insert(1, 12);
    assert_eq!(m.len(), 2);
}

#[test]
fn remove_returns_whole_list_and_forgets_key() {
    let mut m: MultiMap<u32, u32> = MultiMap::new();
    m.insert(1, 42);
    m.insert(1, 1337);
    m.insert(2, 5);
    assert_eq!(m.remove(&1), Some(vec![42, 1337]));
    assert!(!m.contains_key(&1));
    assert_eq!(m.get(&1), None);
    assert_eq!(m.len(), 1);
    assert_eq!(m.remove(&1), None);
    assert_eq!(m.len(), 1);
    assert_eq!(m.get_vec(&2), Some(&vec![5]));
}

#[test]
fn remove_absent_changes_nothing() {
    let mut m: MultiMap<u32, u32> = MultiMap::new();
    m.insert(1, 42);
    m.insert(2, 43);
    assert_eq!(m.remove(&3), None);
    assert_eq!(m.len(), 2);
    assert_eq!(m.get_vec(&1), Some(&vec![42]));
    assert_eq!(m.get_vec(&2), Some(&vec![43]));
}

#[test]
fn reinsert_after_remove_starts_fresh() {
    let mut m: MultiMap<u32, u32> = MultiMap::new();
    m.insert(1, 42);
    m.insert(1, 43);
    m.remove(&1);
    m.insert(1, 44);
    assert_eq!(m.get_vec(&1), Some(&vec![44]));
}

#[test]
fn clear_empties_whatever_was_there() {
    let mut m: MultiMap<u32, u32> = MultiMap::new();
    m.clear();
    assert!(m.is_empty());
    assert_eq!(m.len(), 0);
    for k in 0u32..50 {
        m.insert(k % 7, k);
    }
    assert_eq!(m.len(), 7);
    m.clear();
    assert!(m.is_empty());
    assert_eq!(m.len(), 0);
    assert_eq!(m.get(&3), None);
    m.insert(3, 1);
    assert_eq!(m.get_vec(&3), Some(&vec![1]));
}

#[test]
fn get_mut_rewrites_only_the_first_value() {
    let mut m: MultiMap<u32, u32> = MultiMap::new();
    m.insert(1, 42);
    m.insert(1, 1337);
    m.insert(1, 7);
    m.insert(2, 42);
    if let Some(v) = m.get_mut(&1) {
        assert_eq!(*v, 42);
        *v = 99;
    }
    assert_eq!(m.get_vec(&1), Some(&vec![99, 1337, 7]));
    assert_eq!(m.get_vec(&2), Some(&vec![42]));
    assert_eq!(m.len(), 2);
}

#[test]
fn get_mut_absent_is_none() {
    let mut m: MultiMap<u32, u32> = MultiMap::new();
    m.insert(1, 42);
    assert!(m.get_mut(&2).is_none());
    assert!(m.get_vec_mut(&2).is_none());
    assert_eq!(m.get_vec(&1), Some(&vec![42]));
    assert_eq!(m.len(), 1);
}

#[test]
fn get_vec_mut_lends_the_stored_list() {
    let mut m: MultiMap<u32, u32> = MultiMap::new();
    m.insert(1, 42);
    m.insert(1, 1337);
    m.insert(2, 8);
    match m.get_vec_mut(&1) {
        Some(list) => {
            assert_eq!(*list, vec![42, 1337]);
            list[1] = 2332;
        }
        None => panic!("key 1 is present"),
    }
    assert_eq!(m.get_vec(&1), Some(&vec![42, 2332]));
    assert_eq!(m.get_vec(&2), Some(&vec![8]));
}

#[test]
fn index_agrees_with_get() {
    let mut m: MultiMap<u32, u32> = MultiMap::new();
    m.insert(3, 30);
    m.insert(3, 31);
    m.insert(4, 40);
    assert_eq!(Some(&m[&3]), m.get(&3));
    assert_eq!(Some(&m[&4]), m.get(&4));
}

#[test]
fn query_string_scenario() {
    let mut m: MultiMap<&str, &str> = MultiMap::new();
    m.insert("urls", "http://rust-lang.org");
    m.insert("urls", "http://mozilla.org");
    m.insert("urls", "http://wikipedia.org");
    m.insert("id", "1");
    assert_eq!(m.len(), 2);
    assert_eq!(m.get(&"urls"), Some(&"http://rust-lang.org"));
    assert_eq!(
        m.get_vec("urls"),
        Some(&vec!["http://rust-lang.org", "http://mozilla.org", "http://wikipedia.org"])
    );
    assert!(m.contains_key("urls"));
    assert!(!m.contains_key("missing"));
}

#[test]
fn owned_keys_are_found_by_their_borrowed_form() {
    let mut m: MultiMap<String, u32> = MultiMap::new();
    m.insert(String::from("a"), 1);
    m.insert(String::from("a"), 2);
    m.insert(String::from("b"), 3);
    assert!(m.contains_key("a"));
    assert!(!m.contains_key("c"));
    assert_eq!(m.get_vec("a"), Some(&vec![1, 2]));
    assert_eq!(m.get_vec("c"), None);
    assert!(m.contains_key(&String::from("b")));
    assert_eq!(m.get(&String::from("b")), Some(&3));
}

#[test]
fn capacity_is_at_least_len() {
    let mut m: MultiMap<u32, u32> = MultiMap::new();
    assert!(m.capacity() >= m.len());
    for k in 0u32..100 {
        m.insert(k, k);
        assert!(m.capacity() >= m.len());
    }
    assert!(m.capacity() >= 100);
}

#[test]
fn capacity_hint_has_no_effect_on_contents() {
    let mut m: MultiMap<u32, u32> = MultiMap::with_capacity(3);
    assert!(m.is_empty());
    for k in 0u32..10 {
        m.insert(k, k + 1);
    }
    assert_eq!(m.len(), 10);
    assert_eq!(m.get(&9), Some(&10));
}

#[test]
fn iter_yields_each_key_once_with_its_first_value() {
    let mut m: MultiMap<u32, u32> = MultiMap::new();
    m.insert(1, 42);
    m.insert(1, 1337);
    m.insert(3, 2332);
    m.insert(4, 1991);
    let mut it = m.iter();
    assert_eq!(it.len(), m.len());
    assert_eq!(it.size_hint(), (3, Some(3)));
    let mut seen: Vec<(u32, u32)> = Vec::new();
    while let Some((k, v)) = it.next() {
        seen.push((*k, *v));
    }
    assert_eq!(it.len(), 0);
    assert_eq!(it.next(), None);
    seen.sort();
    assert_eq!(seen, vec![(1, 42), (3, 2332), (4, 1991)]);
}

#[test]
fn iter_on_empty_map_is_done() {
    let m: MultiMap<u32, u32> = MultiMap::new();
    let mut it = m.iter();
    assert_eq!(it.len(), 0);
    assert_eq!(it.next(), None);
}

#[test]
fn iter_all_yields_every_list() {
    let mut m: MultiMap<u32, u32> = MultiMap::new();
    m.insert(1, 42);
    m.insert(1, 1337);
    m.insert(3, 2332);
    m.insert(4, 1991);
    m.insert(5, 0);
    m.remove(&5);
    let mut seen: Vec<(u32, Vec<u32>)> = m.iter_all().map(|(k, v)| (*k, v.clone())).collect();
    seen.sort();
    assert_eq!(seen, vec![(1, vec![42, 1337]), (3, vec![2332]), (4, vec![1991])]);
    let total: usize = m.iter_all().map(|(_, v)| v.len()).sum();
    assert_eq!(total, 4);
    assert_eq!(m.iter_all().count(), m.len());
}

#[test]
fn keys_yields_each_key_once() {
    let mut m: MultiMap<u32, u32> = MultiMap::new();
    m.insert(2, 1);
    m.insert(2, 2);
    m.insert(9, 3);
    let mut keys: Vec<u32> = m.keys().cloned().collect();
    keys.sort();
    assert_eq!(keys, vec![2, 9]);
    let again: Vec<u32> = m.keys().cloned().collect();
    assert_eq!(again.len(), 2);
}

#[test]
fn iter_mut_rewrites_first_values_only() {
    let mut m: MultiMap<u32, u32> = MultiMap::new();
    m.insert(1, 42);
    m.insert(1, 1337);
    m.insert(3, 2332);
    m.insert(4, 1991);
    let mut it = m.iter_mut();
    assert_eq!(it.len(), 3);
    assert_eq!(it.size_hint(), (3, Some(3)));
    let mut seen: Vec<(u32, u32)> = Vec::new();
    while let Some((k, v)) = it.next() {
        seen.push((*k, *v));
        *v = *v + *k;
    }
    assert_eq!(it.len(), 0);
    assert!(it.next().is_none());
    seen.sort();
    assert_eq!(seen, vec![(1, 42), (3, 2332), (4, 1991)]);
    assert_eq!(m.get_vec(&1), Some(&vec![43, 1337]));
    assert_eq!(m.get_vec(&3), Some(&vec![2335]));
    assert_eq!(m.get_vec(&4), Some(&vec![1995]));
    assert_eq!(m.len(), 3);
}

#[test]
fn iter_mut_left_untouched_changes_nothing() {
    let mut m: MultiMap<u32, u32> = MultiMap::new();
    m.insert(1, 42);
    m.insert(2, 43);
    {
        let mut it = m.iter_mut();
        it.next();
    }
    assert_eq!(m.get_vec(&1), Some(&vec![42]));
    assert_eq!(m.get_vec(&2), Some(&vec![43]));
}

#[test]
fn iter_all_mut_lends_every_list() {
    let mut m: MultiMap<u32, u32> = MultiMap::new();
    m.insert(1, 42);
    m.insert(1, 1337);
    m.insert(3, 2332);
    m.insert(4, 1991);
    let mut keys: Vec<u32> = Vec::new();
    for (key, values) in m.iter_all_mut() {
        keys.push(*key);
        for value in values.iter_mut() {
            *value = 99;
        }
    }
    keys.sort();
    assert_eq!(keys, vec![1, 3, 4]);
    assert_eq!(m.get_vec(&1), Some(&vec![99, 99]));
    assert_eq!(m.get_vec(&3), Some(&vec![99]));
    assert_eq!(m.get_vec(&4), Some(&vec![99]));
    assert_eq!(m.len(), 3);
}

#[test]
fn iter_all_mut_shows_the_stored_lists() {
    let mut m: MultiMap<u32, u32> = MultiMap::new();
    m.insert(7, 1);
    m.insert(7, 2);
    let mut it = m.iter_all_mut();
    match it.next() {
        Some((k, list)) => {
            assert_eq!(*k, 7);
            assert_eq!(*list, vec![1, 2]);
            list.push(3);
        }
        None => panic!("one key is present"),
    }
    assert!(it.next().is_none());
    assert_eq!(m.get_vec(&7), Some(&vec![1, 2, 3]));
}

#[test]
fn iter_clone_keeps_its_place() {
    let mut m: MultiMap<u32, u32> = MultiMap::new();
    m.insert(1, 10);
    m.insert(2, 20);
    m.insert(3, 30);
    let mut it = m.iter();
    it.next();
    let mut twin = it.clone();
    assert_eq!(twin.len(), 2);
    assert_eq!(twin.next(), it.next());
    assert_eq!(twin.next(), it.next());
    assert_eq!(twin.next(), None);
}

#[test]
fn first_value_of_a_run_of_inserts() {
    let mut m: MultiMap<u32, u32> = MultiMap::new();
    m.insert(2, 0);
    for v in 1u32..6 {
        m.insert(9, v);
        m.insert(2, v * 10);
    }
    assert_eq!(m.get(&9), Some(&1));
    assert_eq!(m.get_vec(&9), Some(&vec![1, 2, 3, 4, 5]));
    assert_eq!(m.get_vec(&2), Some(&vec![0, 10, 20, 30, 40, 50]));
    let total: usize = m.iter_all().map(|(_, v)| v.len()).sum();
    assert_eq!(total, 11);
}

#[test]
fn capacity_keeps_the_room_asked_for() {
    let mut m: MultiMap<u32, u32> = MultiMap::with_capacity(20);
    assert!(m.capacity() >= 20);
    assert_eq!(m.len(), 0);
    m.insert(1, 1);
    m.insert(1, 2);
    assert!(m.capacity() >= 20);
    m.remove(&1);
    assert!(m.capacity() >= 20);
    for k in 0u32..64 {
        m.insert(k, k);
    }
    assert!(m.capacity() >= 64);
    m.clear();
    assert!(m.capacity() >= 20);
}

#[test]
fn capacity_without_a_hint_covers_the_keys() {
    let mut m: MultiMap<u32, u32> = MultiMap::with_capacity(0);
    assert!(m.capacity() >= m.len());
    m.insert(3, 4);
    assert!(m.capacity() >= 1);
}

#[test]
fn iter_counts_down_as_pairs_are_taken() {
    let mut m: MultiMap<u32, u32> = MultiMap::new();
    m.insert(1, 10);
    m.insert(1, 11);
    m.insert(2, 20);
    let mut it = m.iter();
    assert_eq!(it.len(), 2);
    assert!(it.next().is_some());
    assert_eq!(it.len(), 1);
    assert_eq!(it.size_hint(), (1, Some(1)));
    assert!(it.next().is_some());
    assert_eq!(it.len(), 0);
    assert_eq!(it.next(), None);
    assert_eq!(it.next(), None);
}

#[test]
fn iter_mut_counts_down_as_pairs_are_taken() {
    let mut m: MultiMap<u32, u32> = MultiMap::new();
    m.insert(1, 10);
    m.insert(2, 20);
    m.insert(2, 21);
    let mut it = m.iter_mut();
    assert_eq!(it.len(), 2);
    if let Some((k, v)) = it.next() {
        *v = *k;
    }
    assert_eq!(it.len(), 1);
    assert_eq!(it.size_hint(), (1, Some(1)));
    if let Some((k, v)) = it.next() {
        *v = *k;
    }
    assert_eq!(it.len(), 0);
    assert!(it.next().is_none());
    assert_eq!(m.get_vec(&1), Some(&vec![1]));
    assert_eq!(m.get_vec(&2), Some(&vec![2, 21]));
}
