use hybridmap::HybridMap;

// Helper function to create a filled map
fn filled_map(size: usize) -> HybridMap<i64, 8> {
    let mut map = HybridMap::<i64, 8>::new();
    for i in 0..(size as i64) {
        map.insert(i, i * 10);
    }
    map
}

#[test]
fn new_map_is_empty() {
    let map: HybridMap<i64, 8> = HybridMap::new();
    assert!(map.get(&1).is_none());
}

#[test]
fn with_capacity_initializes_correct_inner_container() {
    const TEST_THRESHOLD: usize = 16;
    let small_map = HybridMap::<i64, TEST_THRESHOLD>::with_capacity(TEST_THRESHOLD - 1);
    if small_map.is_large() {
        panic!("Should be a Vec");
    }

    let large_map = HybridMap::<i64, TEST_THRESHOLD>::with_capacity(TEST_THRESHOLD + 1);
    if !large_map.is_large() {
        panic!("Should be a HashMap");
    }
}

#[test]
fn insert_and_get_work_correctly() {
    let mut map = filled_map(5);
    assert_eq!(map.get(&3), Some(&30));
    assert_eq!(map.insert(3, 35), Some(30));
    assert_eq!(map.get(&3), Some(&35));
}

#[test]
fn insert_transitions_from_vec_to_hashmap() {
    const TEST_THRESHOLD: usize = 16;
    let mut map = filled_map(TEST_THRESHOLD);
    // This insert should trigger the transition
    map.insert(TEST_THRESHOLD as i64, TEST_THRESHOLD as i64 * 10);
    if !map.is_large() {
        panic!("Should have transitioned to HashMap");
    }
}

#[test]
fn overwrite_existing_value() {
    const TEST_THRESHOLD: usize = 8;
    let mut map = HybridMap::<i32, TEST_THRESHOLD>::new();
    assert_eq!(map.insert(1, 10), None); // First insert
    assert_eq!(map.insert(1, 20), Some(10)); // Overwrite
    assert_eq!(map.get(&1), Some(&20)); // Check new value
}

#[test]
fn remove_and_reinsert_key() {
    let mut map = filled_map(5);
    assert_eq!(map.insert(3, 35), Some(30)); // Overwrite
    assert_eq!(map.insert(3, 40), Some(35)); // Overwrite again
    assert_eq!(map.get(&3), Some(&40)); // Check new value
}

#[test]
fn capacity_expansion() {
    const TEST_THRESHOLD: usize = 8;
    let mut map = HybridMap::<i32, TEST_THRESHOLD>::with_capacity(5);
    for i in 0..15i64 {
        map.insert(i, i as i32 * 10);
    }
    assert_eq!(map.get(&10), Some(&100));
    assert!(map.is_large());
}

#[test]
fn query_non_existent_key() {
    let map = filled_map(5);
    assert_eq!(map.get(&10), None);
}

#[test]
fn stress_test_large_insertions() {
    const TEST_THRESHOLD: usize = 8;
    let mut map = HybridMap::<i32, TEST_THRESHOLD>::new();
    for i in 0..1000i64 {
        map.insert(i, i as i32 * 10);
    }
    for i in 0..1000i64 {
        assert_eq!(map.get(&i), Some(&(i as i32 * 10)));
    }
}

#[test]
pub fn test_len() {
    let mut map = HybridMap::<i32, 3>::new();
    assert_eq!(map.len(), 0);
    map.insert(1, 10);
    map.insert(2, 20);
    map.insert(3, 30);
    assert_eq!(map.len(), 3);
    map.insert(4, 40);
    assert_eq!(map.len(), 4);
}

#[test]
pub fn test_default() {
    let map = HybridMap::<i32, 3>::default();
    assert_eq!(map.len(), 0);
}

#[test]
pub fn test_clone() {
    let mut map = HybridMap::<i32, 3>::new();
    map.insert(1, 10);
    map.insert(2, 20);
    map.insert(3, 30);
    let map2 = map.clone();
    assert_eq!(map2.len(), 3);
    assert_eq!(map2.get(&1), Some(&10));
    assert_eq!(map2.get(&2), Some(&20));
    assert_eq!(map2.get(&3), Some(&30));
    map.insert(4, 40);
    assert_eq!(map2.len(), 3);
    let map3 = map.clone();
    assert_eq!(map3.len(), 4);
}

#[test]
fn test_is_empty() {
    let mut map = HybridMap::<i32, 3>::new();
    assert!(map.is_empty());
    map.insert(1, 10);
    assert!(!map.is_empty());
    map.insert(2, 20);
    map.insert(3, 30);
    map.insert(4, 40);
    assert!(!map.is_empty());
}

#[test]
fn test_get_mut() {
    let mut map = HybridMap::<i32, 3>::new();
    map.insert(1, 10);
    assert_eq!(map.get_mut(&1), Some(&mut 10));
    let entry = map.get_mut(&1).unwrap();
    *entry = 20;
    assert_eq!(map.get(&1), Some(&20));

    let mut map = HybridMap::<i32, 3>::new();
    map.insert(1, 10);
    map.insert(2, 20);
    map.insert(3, 30);
    map.insert(4, 40);
    let entry = map.get_mut(&1).unwrap();
    *entry = 30;
    assert_eq!(map.get(&1), Some(&30));
}

#[test]
fn test_remove_entry() {
    let mut map = HybridMap::<i32, 3>::new();
    map.insert(1, 10);
    map.insert(2, 20);
    map.insert(3, 30);
    assert_eq!(map.remove_entry(&2), Some((2, 20)));
    assert!(map.len() == 2);
    assert_eq!(map.get(&2), None);
    assert_eq!(map.remove_entry(&2), None);
    map.insert(4, 40);
    map.insert(5, 50);
    assert_eq!(map.remove_entry(&12), None);
    assert_eq!(map.remove_entry(&3), Some((3, 30)));
    assert!(map.len() == 3);
}

#[test]
fn test_remove() {
    let mut map = HybridMap::<i32, 3>::new();
    map.insert(1, 10);
    map.insert(2, 20);
    map.insert(3, 30);
    assert_eq!(map.remove(&2), Some(20));
    assert!(map.len() == 2);
    assert_eq!(map.get(&2), None);
    assert_eq!(map.remove(&2), None);
    map.insert(4, 40);
    map.insert(5, 50);
    assert_eq!(map.remove(&12), None);
    assert_eq!(map.remove(&3), Some(30));
    assert!(map.len() == 3);
}

#[test]
fn test_clear() {
    let mut map = HybridMap::<i32, 3>::new();
    map.insert(1, 10);
    map.clear();
    assert!(map.is_empty());
    assert_eq!(map.get(&1), None);
    map.insert(2, 20);
    map.insert(3, 30);
    map.insert(4, 40);
    map.insert(5, 50);
    assert_eq!(map.len(), 4);
    map.clear();
    assert!(map.is_empty());
    assert_eq!(map.get(&4), None);
}

#[test]
fn test_iter() {
    let mut map = HybridMap::<i32, 3>::new();
    map.insert(1, 10);
    map.insert(2, 20);
    map.insert(3, 30);
    let mut iter = map.iter();
    // Ordered
    assert_eq!(iter.next(), Some((&1, &10)));
    assert_eq!(iter.next(), Some((&2, &20)));
    assert_eq!(iter.next(), Some((&3, &30)));
    assert_eq!(iter.next(), None);
    map.insert(4, 40);
    let mut iter = map.iter();
    let mut collected = Vec::new();
    while let Some(pair) = iter.next() {
        collected.push(pair);
    }
    assert_eq!(collected.len(), 4);
}

#[test]
fn test_iter_mut() {
    // Add +1
    let mut map = HybridMap::<i32, 3>::new();
    map.insert(1, 10);
    map.insert(2, 20);
    map.insert(3, 30);
    let mut iter = map.iter_mut();
    while let Some((_, v)) = iter.next() {
        *v += 1;
    }
    assert_eq!(map.get(&1), Some(&11));
    assert_eq!(map.get(&2), Some(&21));
    assert_eq!(map.get(&3), Some(&31));

    map.insert(4, 40);
    let mut iter = map.iter_mut();
    while let Some((_, v)) = iter.next() {
        *v += 1;
    }

    assert_eq!(map.get(&1), Some(&12));
    assert_eq!(map.get(&4), Some(&41));
}

#[test]
fn test_into_iter() {
    let mut map = HybridMap::<i32, 3>::new();
    map.insert(1, 10);
    map.insert(2, 20);
    let mut iter = map.into_iter();
    let mut vec = Vec::new();
    while let Some(pair) = iter.next() {
        vec.push(pair);
    }
    assert_eq!(vec.len(), 2);
    assert_eq!(vec[0], (1, 10));
    assert_eq!(vec[1], (2, 20));

    let mut map = HybridMap::<i32, 3>::new();
    map.insert(1, 10);
    map.insert(2, 20);
    map.insert(3, 30);
    map.insert(4, 40);
    let mut iter = map.into_iter();
    let mut vec = Vec::new();
    while let Some(pair) = iter.next() {
        vec.push(pair);
    }
    assert_eq!(vec.len(), 4);
    let sum = vec.iter().fold(0, |acc, (_, v)| acc + v);
    assert_eq!(sum, 100);
}
