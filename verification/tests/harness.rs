use sort_bench::bench::{
    benchmark, gen_descending, gen_sizes, refill_random, run_algorithm, worker, worker_gen_sizes,
    Algorithm,
};

#[test]
fn gen_sizes_walks_the_arithmetic_progression() {
    assert_eq!(gen_sizes(20, 100, 20), vec![20, 40, 60, 80, 100]);
    assert_eq!(gen_sizes(5, 16, 3), vec![5, 8, 11, 14]);
    assert_eq!(gen_sizes(5, 5, 3), vec![5]);
}

#[test]
fn gen_sizes_replaces_a_zero_minimum_with_the_step() {
    assert_eq!(gen_sizes(0, 100, 20), vec![20, 40, 60, 80, 100]);
    assert_eq!(gen_sizes(0, 10, 20), Vec::<usize>::new());
}

#[test]
fn gen_sizes_is_empty_above_the_maximum() {
    assert_eq!(gen_sizes(30, 10, 5), Vec::<usize>::new());
}

#[test]
fn gen_descending_counts_down_to_zero() {
    assert_eq!(gen_descending(5), vec![4, 3, 2, 1, 0]);
    assert_eq!(gen_descending(1), vec![0]);
    assert_eq!(gen_descending(0), Vec::<i32>::new());
}

#[test]
fn refill_random_keeps_the_length() {
    let mut v = vec![0; 16];
    refill_random(&mut v);
    assert_eq!(v.len(), 16);
}

#[test]
fn benchmark_times_one_sorting_run() {
    let mut v = vec![3, 1, 2];
    let _nanos: u128 = benchmark(&Algorithm::Quick, &mut v);
    assert_eq!(v, vec![1, 2, 3]);
}

#[test]
fn run_algorithm_sorts_through_every_variant() {
    let algs = [
        Algorithm::Selection,
        Algorithm::Insertion,
        Algorithm::Bubble,
        Algorithm::Merge,
        Algorithm::Heap,
        Algorithm::Quick,
    ];
    for alg in algs.iter() {
        let mut v = vec![9, -4, 0, 7, -4];
        run_algorithm(alg, &mut v);
        assert_eq!(v, vec![-4, -4, 0, 7, 9]);
    }
}

#[test]
fn worker_series_are_index_aligned_with_the_sweep() {
    let sizes = gen_sizes(2, 6, 2);
    assert_eq!(sizes, vec![2, 4, 6]);
    let r = worker(&sizes, 2);
    assert_eq!(r.selection_totals.len(), 3);
    assert_eq!(r.insertion_totals.len(), 3);
    assert_eq!(r.bubble_totals.len(), 3);
    assert_eq!(r.merge_totals.len(), 3);
    assert_eq!(r.heap_totals.len(), 3);
    assert_eq!(r.quick_totals.len(), 3);
    assert_eq!(r.quick_worst_totals.len(), 3);
}

#[test]
fn worker_gen_sizes_matches_a_separate_sweep() {
    let r = worker_gen_sizes(2, 7, 3, 1);
    let sizes = gen_sizes(2, 7, 3);
    assert_eq!(sizes, vec![2, 5]);
    assert_eq!(r.selection_totals.len(), sizes.len());
    assert_eq!(r.quick_worst_totals.len(), sizes.len());
}
