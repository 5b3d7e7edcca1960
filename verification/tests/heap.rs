use max_heap::MaxHeap;

#[test]
fn test_create_1() {
    // Setup/Run
    let heap = MaxHeap::from_vec(vec![1, 2, 3]);

    // test output
    assert_eq!(heap.get(0), 3);
    let mut others = vec![heap.get(1), heap.get(2)];
    others.sort();
    assert_eq!(others, vec![1, 2]);
}

#[test]
fn test_create_2() {
    // Setup/Run
    let heap = MaxHeap::from_vec(vec![1, 2, 3, 4, 5, 6]);

    // test output
    assert_eq!(heap.get(0), 6);
    let mut others = vec![heap.get(1), heap.get(2), heap.get(3), heap.get(4), heap.get(5)];
    others.sort();
    assert_eq!(others, vec![1, 2, 3, 4, 5]);
}

#[test]
fn test_insert_1() {
    // Setup
    let mut heap = MaxHeap::from_vec(vec![1, 2, 3, 4, 5, 6]);

    // pre condition
    assert_eq!(heap.get(0), 6);

    // Run
    heap.insert(44);

    // test output
    assert_eq!(heap.get(0), 44);
}

#[test]
fn test_insert_2() {
    // Setup
    let mut heap = MaxHeap::new();

    // Run/test
    heap.insert(1);
    assert_eq!(heap.get(0), 1);
    heap.insert(2);
    assert_eq!(heap.get(0), 2);
    heap.insert(3);
    assert_eq!(heap.get(0), 3);
    heap.insert(4);
    assert_eq!(heap.get(0), 4);
    heap.insert(5);
    assert_eq!(heap.get(0), 5);
    heap.insert(6);
    assert_eq!(heap.get(0), 6);
    heap.insert(7);
    assert_eq!(heap.get(0), 7);
}

#[test]
fn test_insert_3() {
    // Setup
    let mut heap = MaxHeap::new();

    // Run/test
    heap.insert(7);
    assert_eq!(heap.get(0), 7);
    heap.insert(1);
    assert_eq!(heap.get(0), 7);
    heap.insert(2);
    assert_eq!(heap.get(0), 7);
    heap.insert(3);
    assert_eq!(heap.get(0), 7);
    heap.insert(4);
    assert_eq!(heap.get(0), 7);
    heap.insert(5);
    assert_eq!(heap.get(0), 7);
    heap.insert(6);
    assert_eq!(heap.get(0), 7);
}

#[test]
fn test_extract_1() {
    // Setup
    let mut heap = MaxHeap::new();

    // Test
    assert_eq!(heap.extract_root(), None);

    // Additional Setup
    heap.insert(7);
    heap.insert(1);
    heap.insert(2);
    heap.insert(3);
    heap.insert(4);
    heap.insert(5);
    heap.insert(6);

    // Test
    assert_eq!(heap.extract_root(), Some(7));
    assert_eq!(heap.extract_root(), Some(6));
    assert_eq!(heap.extract_root(), Some(5));
    assert_eq!(heap.extract_root(), Some(4));
    assert_eq!(heap.extract_root(), Some(3));
    assert_eq!(heap.extract_root(), Some(2));
    assert_eq!(heap.extract_root(), Some(1));
    assert_eq!(heap.extract_root(), None);
}

#[test]
fn test_empty_heap_stays_empty() {
    // extracting from a fresh empty heap reports empty and mutates nothing,
    // so a second call reports empty as well
    let mut heap = MaxHeap::new();
    assert_eq!(heap.len(), 0);
    assert_eq!(heap.extract_root(), None);
    assert_eq!(heap.len(), 0);
    assert_eq!(heap.extract_root(), None);
    assert_eq!(heap.len(), 0);
}

#[test]
fn test_from_vec_empty() {
    let mut heap = MaxHeap::from_vec(vec![]);
    assert_eq!(heap.len(), 0);
    assert_eq!(heap.extract_root(), None);
}

#[test]
fn test_from_vec_single() {
    let mut heap = MaxHeap::from_vec(vec![42]);
    assert_eq!(heap.len(), 1);
    assert_eq!(heap.get(0), 42);
    assert_eq!(heap.extract_root(), Some(42));
    assert_eq!(heap.extract_root(), None);
}

#[test]
fn test_duplicate_elements() {
    let mut heap = MaxHeap::new();
    heap.insert(5);
    heap.insert(5);
    heap.insert(1);
    heap.insert(5);
    assert_eq!(heap.extract_root(), Some(5));
    assert_eq!(heap.extract_root(), Some(5));
    assert_eq!(heap.extract_root(), Some(5));
    assert_eq!(heap.extract_root(), Some(1));
    assert_eq!(heap.extract_root(), None);
}

#[test]
fn test_extreme_values() {
    let mut heap = MaxHeap::from_vec(vec![0, i64::MIN, i64::MAX, -1, 1]);
    assert_eq!(heap.extract_root(), Some(i64::MAX));
    assert_eq!(heap.extract_root(), Some(1));
    assert_eq!(heap.extract_root(), Some(0));
    assert_eq!(heap.extract_root(), Some(-1));
    assert_eq!(heap.extract_root(), Some(i64::MIN));
    assert_eq!(heap.extract_root(), None);
}

#[test]
fn test_bulk_root_is_max() {
    let input = vec![12, -3, 44, 7, 44, 0, 19, -100, 3];
    let heap = MaxHeap::from_vec(input.clone());
    assert_eq!(heap.len(), input.len());
    assert_eq!(heap.get(0), 44);
}

#[test]
fn test_sorted_extraction() {
    // repeated extraction yields the input multiset in non-increasing order
    let input = vec![3, 1, 4, 1, 5, 9, 2, 6, 5, 3, 5];
    let mut heap = MaxHeap::from_vec(input.clone());
    let mut drained = Vec::new();
    while let Some(v) = heap.extract_root() {
        drained.push(v);
    }
    let mut expected = input.clone();
    expected.sort();
    expected.reverse();
    assert_eq!(drained, expected);
    assert_eq!(heap.len(), 0);
}

#[test]
fn test_size_conservation() {
    // n inserts, then exactly n extractions succeed before the empty signal
    let mut heap = MaxHeap::new();
    let n = 100;
    for v in 0..n {
        heap.insert((v * 37) % 11);
        assert_eq!(heap.len(), (v + 1) as usize);
    }
    let mut previous = i64::MAX;
    for v in 0..n {
        let got = heap.extract_root();
        assert!(got.is_some());
        let got = got.unwrap();
        assert!(got <= previous);
        previous = got;
        assert_eq!(heap.len(), (n - 1 - v) as usize);
    }
    assert_eq!(heap.extract_root(), None);
}

#[test]
fn test_invariant_after_mixed_operations() {
    // after a mixed run of inserts and extractions, every node bounds its
    // in-range children
    let mut heap = MaxHeap::from_vec(vec![8, -2, 15, 15, 0]);
    heap.insert(3);
    heap.insert(99);
    heap.extract_root();
    heap.insert(-7);
    heap.extract_root();
    heap.insert(4);
    let n = heap.len();
    for i in 0..n {
        let left = 2 * i + 1;
        let right = 2 * i + 2;
        if left < n {
            assert!(heap.get(i) >= heap.get(left));
        }
        if right < n {
            assert!(heap.get(i) >= heap.get(right));
        }
    }
}

#[test]
fn test_parent_index() {
    let mut heap = MaxHeap::new();
    assert_eq!(heap.parent_index(1), 0);
    assert_eq!(heap.parent_index(2), 0);
    assert_eq!(heap.parent_index(3), 1);
    assert_eq!(heap.parent_index(4), 1);
    assert_eq!(heap.parent_index(5), 2);
    assert_eq!(heap.parent_index(6), 2);
    assert_eq!(heap.parent_index(7), 3);
}
