//! The benchmarking harness: the arithmetic size sweep, the random and
//! adversarial input generators, the timed invocation of one algorithm, and
//! the worker that accumulates and averages trial durations per size.

use vstd::prelude::*;
use vstd::pervasive::VecAdditionalExecFns;
use crate::order::{sorted, permutes};
use crate::sorts::{selection_sort, insertion_sort, bubble_sort, merge_sort, quick_sort};
use crate::heap::heap_sort;

verus! {

#[verifier::external_type_specification]
#[verifier::external_body]
pub struct ExInstant(std::time::Instant);

/// Relies on std::time::Instant::now: one reading of the monotonic clock.
#[verifier::external_body]
fn instant_now() -> std::time::Instant {
    std::time::Instant::now()
}

/// Relies on std::time::Instant::duration_since: the span between two clock
/// readings.
#[verifier::external_body]
fn duration_between(start: &std::time::Instant, end: &std::time::Instant) -> std::time::Duration {
    end.duration_since(*start)
}

/// Relies on std::time::Duration::as_nanos: the span in whole nanoseconds.
#[verifier::external_body]
fn duration_as_nanos(d: &std::time::Duration) -> u128 {
    d.as_nanos()
}

/// Relies on rand::random: one fresh value, uniformly distributed over the
/// whole `i32` range. Nothing can be promised of a random result.
#[verifier::external_body]
fn random_i32() -> i32 {
    rand::random()
}

/// The six measured sorting algorithms.
pub enum Algorithm {
    Selection,
    Insertion,
    Bubble,
    Merge,
    Heap,
    Quick,
}

/// Run one algorithm on the sequence in place.
pub fn run_algorithm(alg: &Algorithm, v: &mut Vec<i32>)
    requires
        2 * old(v).len() <= usize::MAX,
    ensures
        sorted(final(v)@),
        permutes(old(v)@, final(v)@),
        final(v)@.len() == old(v)@.len(),
{
    match alg {
        Algorithm::Selection => selection_sort(v),
        Algorithm::Insertion => insertion_sort(v),
        Algorithm::Bubble => bubble_sort(v),
        Algorithm::Merge => merge_sort(v),
        Algorithm::Heap => heap_sort(v),
        Algorithm::Quick => quick_sort(v),
    }
}

/// Time exactly one invocation of one algorithm, in wall-clock nanoseconds.
/// The measured duration depends on the clock, so nothing is promised of it;
/// the sequence itself comes back sorted.
pub fn benchmark(alg: &Algorithm, v: &mut Vec<i32>) -> (nanos: u128)
    requires
        2 * old(v).len() <= usize::MAX,
    ensures
        sorted(final(v)@),
        permutes(old(v)@, final(v)@),
        final(v)@.len() == old(v)@.len(),
{
    let start = instant_now();
    run_algorithm(alg, v);
    let end = instant_now();
    let d = duration_between(&start, &end);
    duration_as_nanos(&d)
}

/// The first size of the sweep: the configured minimum, or one step when the
/// minimum is zero (a size-zero array is never benchmarked).
pub open spec fn effective_min(min: usize, step: usize) -> int {
    if min != 0 {
        min as int
    } else {
        step as int
    }
}

/// `r` is exactly the arithmetic progression `min, min + step, ...` capped by
/// `max`, with a zero minimum replaced by `step`.
pub open spec fn sweep_matches(r: Seq<usize>, min: usize, max: usize, step: usize) -> bool {
    let lo = effective_min(min, step);
    &&& forall|i: int|
        0 <= i < r.len() ==> (#[trigger] r[i]) as int == lo + i * (step as int)
    &&& (lo > max ==> r.len() == 0)
    &&& (lo <= max ==> r.len() >= 1 && lo + (r.len() - 1) * (step as int) <= max && lo
        + r.len() as int * (step as int) > max)
}

/// The sweep is determined by its configuration: any two sequences that
/// match the same `(min, max, step)` are the same sequence.
pub proof fn lemma_sweep_unique(a: Seq<usize>, b: Seq<usize>, min: usize, max: usize, step: usize)
    requires
        step >= 1,
        sweep_matches(a, min, max, step),
        sweep_matches(b, min, max, step),
    ensures
        a == b,
{
    let lo = effective_min(min, step);
    let s = step as int;
    assert(a.len() == b.len()) by {
        if a.len() < b.len() {
            assert(lo <= max);
            assert(a.len() * s <= (b.len() - 1) * s) by (nonlinear_arith)
                requires s >= 1 && a.len() <= b.len() - 1;
        }
        if b.len() < a.len() {
            assert(lo <= max);
            assert(b.len() * s <= (a.len() - 1) * s) by (nonlinear_arith)
                requires s >= 1 && b.len() <= a.len() - 1;
        }
    }
    assert forall|i: int| 0 <= i < a.len() implies a[i] == b[i] by {
        assert(a[i] as int == lo + i * s);
        assert(b[i] as int == lo + i * s);
    }
    assert(a =~= b);
}

/// Generate the size sweep for the given configuration.
pub fn gen_sizes(min: usize, max: usize, step: usize) -> (r: Vec<usize>)
    requires
        step >= 1,
        max <= usize::MAX - step,
    ensures
        sweep_matches(r@, min, max, step),
{
    let lo = if min != 0 {
        min
    } else {
        step
    };
    let mut r: Vec<usize> = Vec::new();
    let mut cur = lo;
    proof {
        assert(r@.len() == 0);
        assert(r@.len() * (step as int) == 0) by (nonlinear_arith)
            requires r@.len() == 0;
    }
    while cur <= max
        invariant
            step >= 1,
            max <= usize::MAX - step,
            lo as int == effective_min(min, step),
            cur as int == lo + r@.len() * (step as int),
            forall|i: int|
                0 <= i < r@.len() ==> (#[trigger] r@[i]) as int == lo + i * (step as int),
            r@.len() >= 1 ==> lo + (r@.len() - 1) * (step as int) <= max,
            r@.len() == 0 ==> cur == lo,
        decreases max + step - cur,
    {
        let ghost n0 = r@.len() as int;
        r.push(cur);
        proof {
            assert((n0 + 1) * (step as int) == n0 * (step as int) + step) by (nonlinear_arith);
            assert((n0 + 1 - 1) * (step as int) == n0 * (step as int)) by (nonlinear_arith);
        }
        cur += step;
    }
    proof {
        let lo_i = effective_min(min, step);
        let s = step as int;
        if r@.len() == 0 {
            assert(cur == lo);
            assert(lo_i > max);
        } else {
            assert(lo_i <= max) by {
                assert(r@[0] as int == lo_i);
                assert(lo_i + (r@.len() - 1) * s >= lo_i) by (nonlinear_arith)
                    requires s >= 1 && r@.len() >= 1;
            }
            assert(lo_i + r@.len() as int * s > max);
        }
    }
    r
}

/// The fixed adversarial input for quicksort: the strictly descending
/// sequence `n-1, n-2, ..., 0`.
pub fn gen_descending(n: usize) -> (r: Vec<i32>)
    requires
        n <= i32::MAX as usize,
    ensures
        r@.len() == n,
        forall|i: int| 0 <= i < n ==> (#[trigger] r@[i]) as int == n - 1 - i,
{
    let mut r: Vec<i32> = Vec::new();
    for i in 0..n
        invariant
            n <= i32::MAX as usize,
            r@.len() == i,
            forall|t: int| 0 <= t < i ==> (#[trigger] r@[t]) as int == n - 1 - t,
    {
        let val = (n - 1 - i) as i32;
        r.push(val);
    }
    r
}

/// Overwrite every element with a fresh uniformly distributed value.
pub fn refill_random(v: &mut Vec<i32>)
    ensures
        final(v)@.len() == old(v)@.len(),
{
    let n = v.len();
    for i in 0..n
        invariant
            v@.len() == n,
    {
        let x = random_i32();
        v.set(i, x);
    }
}

/// A vector of `n` zeroes: the reusable per-size trial buffer before its
/// first refill.
fn zero_vec(n: usize) -> (r: Vec<i32>)
    ensures
        r@.len() == n,
{
    let mut r: Vec<i32> = Vec::new();
    for i in 0..n
        invariant
            r@.len() == i,
    {
        r.push(0);
    }
    r
}

/// An exact copy of the sequence, taken fresh for every timed trial.
fn copy_vec(v: &Vec<i32>) -> (r: Vec<i32>)
    ensures
        r@ == v@,
{
    let mut r: Vec<i32> = Vec::new();
    let n = v.len();
    for i in 0..n
        invariant
            n == v@.len(),
            r@ =~= v@.subrange(0, i as int),
    {
        r.push(v[i]);
    }
    proof {
        assert(r@ =~= v@);
    }
    r
}

/// Add one trial's nanoseconds to a running total, stopping at the largest
/// representable value instead of wrapping.
fn add_nanos(total: u128, nanos: u128) -> (r: u128)
    ensures
        r == (if total + nanos <= u128::MAX {
            total + nanos
        } else {
            u128::MAX as int
        }),
{
    if total <= u128::MAX - nanos {
        total + nanos
    } else {
        u128::MAX
    }
}

/// The per-algorithm average-duration series, index-aligned with the size
/// sweep; quicksort has one extra series for its adversarial descending
/// input.
pub struct BenchResult {
    pub selection_totals: Vec<u128>,
    pub insertion_totals: Vec<u128>,
    pub bubble_totals: Vec<u128>,
    pub merge_totals: Vec<u128>,
    pub heap_totals: Vec<u128>,
    pub quick_totals: Vec<u128>,
    pub quick_worst_totals: Vec<u128>,
}

/// Every series of the result is index-aligned with the sweep: one entry per
/// size.
pub open spec fn result_aligned(r: BenchResult, count: int) -> bool {
    &&& r.selection_totals@.len() == count
    &&& r.insertion_totals@.len() == count
    &&& r.bubble_totals@.len() == count
    &&& r.merge_totals@.len() == count
    &&& r.heap_totals@.len() == count
    &&& r.quick_totals@.len() == count
    &&& r.quick_worst_totals@.len() == count
}

/// For each size of the sweep: run `times` independent trials, each refilling
/// the shared random buffer once and timing every algorithm on a fresh copy,
/// plus one extra quicksort timing on the fixed descending sequence; then
/// divide each running total by the trial count, discarding fractional
/// nanoseconds.
pub fn worker(sizes: &Vec<usize>, times: usize) -> (r: BenchResult)
    requires
        times >= 1,
        forall|i: int| 0 <= i < sizes@.len() ==> #[trigger] sizes@[i] <= i32::MAX as usize,
    ensures
        result_aligned(r, sizes@.len() as int),
{
    let mut selection_totals: Vec<u128> = Vec::new();
    let mut insertion_totals: Vec<u128> = Vec::new();
    let mut bubble_totals: Vec<u128> = Vec::new();
    let mut merge_totals: Vec<u128> = Vec::new();
    let mut heap_totals: Vec<u128> = Vec::new();
    let mut quick_totals: Vec<u128> = Vec::new();
    let mut quick_worst_totals: Vec<u128> = Vec::new();
    let n = sizes.len();
    for si in 0..n
        invariant
            n == sizes@.len(),
            times >= 1,
            forall|i: int| 0 <= i < sizes@.len() ==> #[trigger] sizes@[i] <= i32::MAX as usize,
            selection_totals@.len() == si,
            insertion_totals@.len() == si,
            bubble_totals@.len() == si,
            merge_totals@.len() == si,
            heap_totals@.len() == si,
            quick_totals@.len() == si,
            quick_worst_totals@.len() == si,
    {
        let size = sizes[si];
        let mut selection_total: u128 = 0;
        let mut insertion_total: u128 = 0;
        let mut bubble_total: u128 = 0;
        let mut merge_total: u128 = 0;
        let mut heap_total: u128 = 0;
        let mut quick_total: u128 = 0;
        let mut quick_worst_total: u128 = 0;
        let mut vec = zero_vec(size);
        let bad_vec = gen_descending(size);
        let mut t: usize = 0;
        while t < times
            invariant
                t <= times,
                size <= i32::MAX as usize,
                vec@.len() == size,
                bad_vec@.len() == size,
            decreases times - t,
        {
            refill_random(&mut vec);
            let mut c1 = copy_vec(&vec);
            selection_total = add_nanos(selection_total, benchmark(&Algorithm::Selection, &mut c1));
            let mut c2 = copy_vec(&vec);
            insertion_total = add_nanos(insertion_total, benchmark(&Algorithm::Insertion, &mut c2));
            let mut c3 = copy_vec(&vec);
            bubble_total = add_nanos(bubble_total, benchmark(&Algorithm::Bubble, &mut c3));
            let mut c4 = copy_vec(&vec);
            merge_total = add_nanos(merge_total, benchmark(&Algorithm::Merge, &mut c4));
            let mut c5 = copy_vec(&vec);
            heap_total = add_nanos(heap_total, benchmark(&Algorithm::Heap, &mut c5));
            let mut c6 = copy_vec(&vec);
            quick_total = add_nanos(quick_total, benchmark(&Algorithm::Quick, &mut c6));
            let mut c7 = copy_vec(&bad_vec);
            quick_worst_total = add_nanos(quick_worst_total, benchmark(&Algorithm::Quick, &mut c7));
            t += 1;
        }
        let times_wide = times as u128;
        selection_totals.push(selection_total / times_wide);
        insertion_totals.push(insertion_total / times_wide);
        bubble_totals.push(bubble_total / times_wide);
        merge_totals.push(merge_total / times_wide);
        heap_totals.push(heap_total / times_wide);
        quick_totals.push(quick_total / times_wide);
        quick_worst_totals.push(quick_worst_total / times_wide);
    }
    BenchResult {
        selection_totals,
        insertion_totals,
        bubble_totals,
        merge_totals,
        heap_totals,
        quick_totals,
        quick_worst_totals,
    }
}

/// Generate the sweep for the configuration and run the whole benchmark over
/// it. Every series of the result has one entry per size of that sweep.
pub fn worker_gen_sizes(min: usize, max: usize, step: usize, times: usize) -> (r: BenchResult)
    requires
        step >= 1,
        max <= usize::MAX - step,
        max <= i32::MAX as usize,
        times >= 1,
    ensures
        forall|s: Seq<usize>|
            #[trigger] sweep_matches(s, min, max, step) ==> result_aligned(r, s.len() as int),
{
    let sizes = gen_sizes(min, max, step);
    proof {
        assert forall|i: int| 0 <= i < sizes@.len() implies #[trigger] sizes@[i]
            <= i32::MAX as usize by {
            if sizes@.len() > 0 {
                assert(sizes@[i] as int == effective_min(min, step) + i * (step as int));
                assert(effective_min(min, step) + i * (step as int) <= effective_min(min, step) + (
                sizes@.len() - 1) * (step as int)) by (nonlinear_arith)
                    requires step >= 1 && 0 <= i <= sizes@.len() - 1;
            }
        }
    }
    let r = worker(&sizes, times);
    proof {
        assert forall|s: Seq<usize>| #[trigger] sweep_matches(s, min, max, step) implies
            result_aligned(r, s.len() as int) by {
            lemma_sweep_unique(s, sizes@, min, max, step);
        }
    }
    r
}

} // verus!
