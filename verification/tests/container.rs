use multimap::MultiMap;

#[test]
fn create() {
    let m: MultiMap<usize, usize> = MultiMap::new();
    assert_eq!(m.len(), 0);
}

#[test]
fn new() {
    let _: MultiMap<usize, usize> = MultiMap::new();
}

#[test]
fn with_capacity() {
    let _: MultiMap<usize, usize> = MultiMap::with_capacity(20);
}

#[test]
fn insert() {
    let mut m: MultiMap<usize, usize> = MultiMap::new();
    m.insert(1, 3);
}

#[test]
fn insert_existing() {
    let mut m: MultiMap<usize, usize> = MultiMap::new();
    m.insert(1, 3);
    m.insert(1, 4);
}

#[test]
fn index() {
    let mut m: MultiMap<usize, usize> = MultiMap::new();
    m.insert(1, 42);
    let values = m[&1];
    assert_eq!(values, 42);
}

#[test]
fn contains_key_true() {
    let mut m: MultiMap<usize, usize> = MultiMap::new();
    m.insert(1, 42);
    assert!(m.contains_key(&1));
}

#[test]
fn contains_key_false() {
    let m: MultiMap<usize, usize> = MultiMap::new();
    assert_eq!(m.contains_key(&1), false);
}

#[test]
fn len() {
    let mut m: MultiMap<usize, usize> = MultiMap::new();
    m.insert(1, 42);
    m.insert(2, 1337);
    m.insert(3, 99);
    assert_eq!(m.len(), 3);
}

#[test]
fn remove_not_present() {
    let mut m: MultiMap<usize, usize> = MultiMap::new();
    let v = m.remove(&1);
    assert_eq!(v, None);
}

#[test]
fn remove_present() {
    let mut m: MultiMap<usize, usize> = MultiMap::new();
    m.insert(1, 42);
    let v = m.remove(&1);
    assert_eq!(v, Some(vec![42]));
}

#[test]
fn get_not_present() {
    let m: MultiMap<usize, usize> = MultiMap::new();
    assert_eq!(m.get(&1), None);
}

#[test]
fn get_present() {
    let mut m: MultiMap<usize, usize> = MultiMap::new();
    m.insert(1, 42);
    assert_eq!(m.get(&1), Some(&42));
}

#[test]
fn get_vec_not_present() {
    let m: MultiMap<usize, usize> = MultiMap::new();
    assert_eq!(m.get_vec(&1), None);
}

#[test]
fn get_vec_present() {
    let mut m: MultiMap<usize, usize> = MultiMap::new();
    m.insert(1, 42);
    m.insert(1, 1337);
    assert_eq!(m.get_vec(&1), Some(&vec![42, 1337]));
}

#[test]
fn capacity() {
    let m: MultiMap<usize, usize> = MultiMap::with_capacity(20);
    assert!(m.capacity() >= 20);
}

#[test]
fn is_empty_true() {
    let m: MultiMap<usize, usize> = MultiMap::new();
    assert_eq!(m.is_empty(), true);
}

#[test]
fn is_empty_false() {
    let mut m: MultiMap<usize, usize> = MultiMap::new();
    m.insert(1, 42);
    assert_eq!(m.is_empty(), false);
}

#[test]
fn clear() {
    let mut m: MultiMap<usize, usize> = MultiMap::new();
    m.insert(1, 42);
    m.clear();
    assert!(m.is_empty());
}

#[test]
fn get_mut() {
    let mut m: MultiMap<usize, usize> = MultiMap::new();
    m.insert(1, 42);
    if let Some(v) = m.get_mut(&1) {
        *v = 1337;
    }
    assert_eq!(m[&1], 1337)
}

#[test]
fn get_vec_mut() {
    let mut m: MultiMap<usize, usize> = MultiMap::new();
    m.insert(1, 42);
    m.insert(1, 1337);
    if let Some(v) = m.get_vec_mut(&1) {
        (*v)[0] = 5;
        (*v)[1] = 10;
    }
    assert_eq!(m.get_vec(&1), Some(&vec![5, 10]))
}

#[test]
fn keys() {
    let mut m: MultiMap<usize, usize> = MultiMap::new();
    m.insert(1, 42);
    m.insert(2, 42);
    m.insert(4, 42);
    m.insert(8, 42);

    let keys: Vec<_> = m.keys().cloned().collect();
    assert_eq!(keys.len(), 4);
    assert!(keys.contains(&1));
    assert!(keys.contains(&2));
    assert!(keys.contains(&4));
    assert!(keys.contains(&8));
}

#[test]
fn iter() {
    let mut m: MultiMap<usize, usize> = MultiMap::new();
    m.insert(1, 42);
    m.insert(1, 42);
    m.insert(4, 42);
    m.insert(8, 42);

    let mut iter = m.iter();

    for _ in 0..2 {
        iter.next();
    }

    assert_eq!(iter.len(), 1);
}

#[test]
#[should_panic]
fn index_no_entry() {
    let m: MultiMap<usize, usize> = MultiMap::new();
    let _ = &m[&1];
}
