use sort_bench::sorts::{
    selection_sort, insertion_sort, bubble_sort, merge_sort, quick_sort, quick_sort_partition,
};
use sort_bench::heap::{heap_sort, HeapifiedSlice};

fn algorithms() -> Vec<(&'static str, fn(&mut Vec<i32>))> {
    vec![
        ("selection", selection_sort as fn(&mut Vec<i32>)),
        ("insertion", insertion_sort),
        ("bubble", bubble_sort),
        ("merge", merge_sort),
        ("heap", heap_sort),
        ("quick", quick_sort),
    ]
}

#[test]
fn every_algorithm_sorts_mixed_input() {
    for (name, sort) in algorithms() {
        let mut v = vec![5, 3, 8, 1, 9, 2];
        sort(&mut v);
        assert_eq!(v, vec![1, 2, 3, 5, 8, 9], "{} sort failed", name);
    }
}

#[test]
fn every_algorithm_preserves_duplicates() {
    for (name, sort) in algorithms() {
        let mut v = vec![3, 1, 3, 2, 2, 1, 3];
        sort(&mut v);
        assert_eq!(v, vec![1, 1, 2, 2, 3, 3, 3], "{} sort failed", name);
    }
}

#[test]
fn empty_input_is_a_no_op() {
    for (name, sort) in algorithms() {
        let mut v: Vec<i32> = vec![];
        sort(&mut v);
        assert!(v.is_empty(), "{} sort changed an empty input", name);
    }
}

#[test]
fn singleton_input_is_a_no_op() {
    for (name, sort) in algorithms() {
        let mut v = vec![7];
        sort(&mut v);
        assert_eq!(v, vec![7], "{} sort changed a singleton", name);
    }
}

#[test]
fn sorted_input_is_returned_identical() {
    for (name, sort) in algorithms() {
        let mut v = vec![-9, -2, 0, 0, 4, 4, 11];
        sort(&mut v);
        assert_eq!(v, vec![-9, -2, 0, 0, 4, 4, 11], "{} sort disturbed sorted input", name);
    }
}

#[test]
fn every_algorithm_sorts_descending_input() {
    for (name, sort) in algorithms() {
        let mut v = vec![4, 3, 2, 1, 0];
        sort(&mut v);
        assert_eq!(v, vec![0, 1, 2, 3, 4], "{} sort failed on descending input", name);
    }
}

#[test]
fn merge_sort_orders_equal_values_scenario() {
    let mut v = vec![2, 2, 1];
    merge_sort(&mut v);
    assert_eq!(v, vec![1, 2, 2]);
}

#[test]
fn partition_places_first_element_pivot() {
    // Pivot 5 ends between the smaller and larger elements.
    let mut v = vec![5, 8, 1, 9, 2];
    let r = quick_sort_partition(&mut v, 0, 5);
    assert_eq!(v[r], 5);
    for k in 0..r {
        assert!(v[k] <= v[r]);
    }
    for k in (r + 1)..5 {
        assert!(v[k] >= v[r]);
    }
}

#[test]
fn partition_on_descending_input_shrinks_by_one() {
    // A strictly descending input drives the partition into its quadratic
    // pattern: each call splits off one element only, so the recursion sizes
    // fall as n-1, n-2, ...
    let mut v = vec![4, 3, 2, 1, 0];
    let r1 = quick_sort_partition(&mut v, 0, 5);
    assert_eq!(r1, 4);
    assert_eq!(v, vec![0, 3, 2, 1, 4]);
    // Sub-ranges [0, 4) and [5, 5): sizes 4 and 0.
    let r2 = quick_sort_partition(&mut v, 0, 4);
    assert_eq!(r2, 0);
    assert_eq!(v, vec![0, 3, 2, 1, 4]);
    // Sub-ranges [0, 0) and [1, 4): sizes 0 and 3.
    let r3 = quick_sort_partition(&mut v, 1, 4);
    assert_eq!(r3, 3);
    assert_eq!(v, vec![0, 1, 2, 3, 4]);
    // Sub-ranges [1, 3) and [4, 4): sizes 2 and 0.
}

#[test]
fn heapify_establishes_max_heap() {
    let input = vec![5, 3, 8, 1, 9, 2];
    let heap = HeapifiedSlice::heapify(input.clone());
    let v = heap.into_vec();
    for i in 0..v.len() {
        let left = 2 * i + 1;
        let right = 2 * i + 2;
        if left < v.len() {
            assert!(v[i] >= v[left], "heap property broken at {} / {}", i, left);
        }
        if right < v.len() {
            assert!(v[i] >= v[right], "heap property broken at {} / {}", i, right);
        }
    }
    let mut expected = input;
    expected.sort();
    let mut actual = v;
    actual.sort();
    assert_eq!(actual, expected, "heapify changed the multiset of elements");
}

#[test]
fn heapified_slice_sort_produces_ascending_order() {
    let mut heap = HeapifiedSlice::heapify(vec![5, 3, 8, 1, 9, 2]);
    heap.sort();
    assert_eq!(heap.into_vec(), vec![1, 2, 3, 5, 8, 9]);
}

#[test]
fn heapify_of_tiny_inputs_is_a_no_op() {
    let heap = HeapifiedSlice::heapify(Vec::new());
    assert!(heap.into_vec().is_empty());
    let heap = HeapifiedSlice::heapify(vec![3]);
    assert_eq!(heap.into_vec(), vec![3]);
}
