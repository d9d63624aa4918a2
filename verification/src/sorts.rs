//! The six comparison sorts. Every one rearranges its input in place into
//! ascending order and keeps the multiset of elements unchanged.

use vstd::prelude::*;
use vstd::seq_lib::group_to_multiset_ensures;
use crate::order::{
    sorted, permutes, vec_swap, lemma_multiset_frame_range, lemma_perm_all_le,
    lemma_perm_all_ge, lemma_push_middle_multiset,
};

verus! {

/// Selection sort: repeatedly move the largest element of the unsorted prefix
/// to the end of that prefix. Ties go to the earliest index, because the
/// comparison that replaces the running maximum is strict.
pub fn selection_sort(v: &mut Vec<i32>)
    ensures
        sorted(final(v)@),
        permutes(old(v)@, final(v)@),
        final(v)@.len() == old(v)@.len(),
{
    let mut last: usize = v.len();
    while last > 1
        invariant
            last <= v@.len(),
            v@.len() == old(v)@.len(),
            v@.to_multiset() == old(v)@.to_multiset(),
            forall|i: int, j: int|
                last <= i <= j < v@.len() ==> #[trigger] v@[i] <= #[trigger] v@[j],
            forall|k: int, m: int|
                0 <= k < last <= m < v@.len() ==> #[trigger] v@[k] <= #[trigger] v@[m],
        decreases last,
    {
        let mut max_idx: usize = 0;
        for i in 1..last
            invariant
                max_idx < i <= last <= v@.len(),
                forall|k: int| 0 <= k < i ==> #[trigger] v@[k] <= v@[max_idx as int],
        {
            if v[max_idx] < v[i] {
                max_idx = i;
            }
        }
        let ghost prev = v@;
        vec_swap(v, max_idx, last - 1);
        proof {
            assert forall|k: int, m: int|
                0 <= k < last - 1 <= m < v@.len() implies #[trigger] v@[k] <= #[trigger] v@[m] by {
                assert(v@[m] == if m == last - 1 { prev[max_idx as int] } else { prev[m] });
                assert(prev[last - 1] <= prev[max_idx as int]);
            }
        }
        last -= 1;
    }
    proof {
        if last == 1 {
            assert forall|i: int, j: int|
                0 <= i <= j < v@.len() implies #[trigger] v@[i] <= #[trigger] v@[j] by {
                if i == 0 && j > 0 {
                    assert(v@[0] <= v@[j]);
                }
            }
        }
    }
}

/// Bubble sort: adjacent-pair passes over the shrinking unsorted prefix, with
/// the mandatory early exit after a pass that performed no swap.
pub fn bubble_sort(v: &mut Vec<i32>)
    ensures
        sorted(final(v)@),
        permutes(old(v)@, final(v)@),
        final(v)@.len() == old(v)@.len(),
{
    let n = v.len();
    let mut i: usize = 0;
    let mut swapped: bool = true;
    while i < n && swapped
        invariant
            i <= n,
            n == v@.len() == old(v)@.len(),
            v@.to_multiset() == old(v)@.to_multiset(),
            forall|p: int, q: int|
                n - i <= p <= q < n ==> #[trigger] v@[p] <= #[trigger] v@[q],
            forall|k: int, m: int|
                0 <= k < n - i <= m < n ==> #[trigger] v@[k] <= #[trigger] v@[m],
            !swapped ==> sorted(v@),
        decreases n - i,
    {
        swapped = false;
        for j in 0..(n - i - 1)
            invariant
                i < n,
                n == v@.len() == old(v)@.len(),
                v@.to_multiset() == old(v)@.to_multiset(),
                forall|p: int, q: int|
                    n - i <= p <= q < n ==> #[trigger] v@[p] <= #[trigger] v@[q],
                forall|k: int, m: int|
                    0 <= k < n - i <= m < n ==> #[trigger] v@[k] <= #[trigger] v@[m],
                forall|k: int| 0 <= k <= j ==> #[trigger] v@[k] <= v@[j as int],
                !swapped ==> forall|k: int, m: int|
                    0 <= k <= m <= j ==> #[trigger] v@[k] <= #[trigger] v@[m],
        {
            if v[j] > v[j + 1] {
                vec_swap(v, j, j + 1);
                swapped = true;
            }
        }
        i += 1;
    }
    proof {
        if i < n && !swapped {
            assert(sorted(v@));
        } else {
            assert(i == n);
            assert forall|p: int, q: int|
                0 <= p <= q < v@.len() implies #[trigger] v@[p] <= #[trigger] v@[q] by {}
        }
    }
}

/// Insertion sort: for each index `i`, find the leftmost position `j` such
/// that no element of `[j, i)` is at most the element at `i`, then rotate the
/// range `[j, i]` right by one. The shift condition is strict, so an equal
/// element is never carried past another: the sort is stable.
pub fn insertion_sort(v: &mut Vec<i32>)
    ensures
        sorted(final(v)@),
        permutes(old(v)@, final(v)@),
        final(v)@.len() == old(v)@.len(),
{
    let n = v.len();
    if n < 2 {
        return ;
    }
    for i in 1..n
        invariant
            n == v@.len() == old(v)@.len(),
            v@.to_multiset() == old(v)@.to_multiset(),
            forall|k: int, m: int|
                0 <= k <= m < i ==> #[trigger] v@[k] <= #[trigger] v@[m],
    {
        let x = v[i];
        let mut j: usize = i;
        while j > 0 && v[j - 1] > x
            invariant
                j <= i < n == v@.len(),
                forall|k: int| j <= k < i ==> #[trigger] v@[k] > x,
            decreases j,
        {
            j -= 1;
        }
        let ghost prev = v@;
        let y = v.remove(i);
        v.insert(j, y);
        proof {
            broadcast use group_to_multiset_ensures;
            broadcast use vstd::multiset::group_multiset_axioms;

            assert(y == x);
            assert(prev.contains(x)) by {
                assert(prev[i as int] == x);
            }
            assert(prev.to_multiset().count(x) > 0);
            vstd::seq_lib::to_multiset_remove(prev, i as int);
            let s1 = prev.remove(i as int);
            assert(s1.to_multiset() == prev.to_multiset().remove(x));
            vstd::seq_lib::to_multiset_insert(s1, j as int, x);
            assert(v@.to_multiset() == s1.to_multiset().insert(x));
            assert(v@.to_multiset() =~= prev.to_multiset());
            assert forall|k: int, m: int|
                0 <= k <= m < i + 1 implies #[trigger] v@[k] <= #[trigger] v@[m] by {
                assert(v@[k] == if k < j { prev[k] } else if k == j { x } else { prev[k - 1] });
                assert(v@[m] == if m < j { prev[m] } else if m == j { x } else { prev[m - 1] });
                if k < j && m == j {
                    assert(prev[k] <= prev[j - 1]);
                } else if k == j && m > j {
                    assert(prev[m - 1] > x);
                }
            }
        }
    }
}

/// One Hoare-style partition pass of quicksort over the range `[lo, hi)`,
/// with the element at `lo` as pivot. Afterwards everything in `[lo, r)` is
/// at most the element at `r` and everything in `(r, hi)` is at least it, so
/// the element at `r` already stands at its final sorted position.
pub fn quick_sort_partition(v: &mut Vec<i32>, lo: usize, hi: usize) -> (r: usize)
    requires
        lo + 2 <= hi,
        hi <= old(v).len(),
    ensures
        lo <= r < hi,
        final(v)@.len() == old(v)@.len(),
        final(v)@.to_multiset() == old(v)@.to_multiset(),
        forall|k: int|
            0 <= k < lo || hi <= k < old(v)@.len() ==> final(v)@[k] == old(v)@[k],
        forall|k: int| lo <= k < r ==> #[trigger] final(v)@[k] <= final(v)@[r as int],
        forall|k: int| r < k < hi ==> #[trigger] final(v)@[k] >= final(v)@[r as int],
{
    let ghost orig = v@;
    let mut l: usize = lo + 1;
    let mut r: usize = hi - 1;
    while l < r
        invariant
            lo + 1 <= l <= hi,
            lo <= r < hi <= v@.len(),
            l <= r + 1,
            v@.len() == orig.len(),
            v@.to_multiset() == orig.to_multiset(),
            forall|k: int| 0 <= k < lo || hi <= k < orig.len() ==> v@[k] == orig[k],
            v@[lo as int] == orig[lo as int],
            forall|k: int| lo < k < l ==> #[trigger] v@[k] <= v@[lo as int],
            forall|k: int| r < k < hi ==> #[trigger] v@[k] >= v@[lo as int],
            l == r ==> v@[r as int] <= v@[lo as int] || r == hi - 1,
        decreases 2 * (r + 1 - l) + (if v@[l as int] <= v@[lo as int] {
            0int
        } else {
            1int
        }),
    {
        let ghost l0 = l;
        let ghost r0 = r;
        while l <= r && v[l] <= v[lo]
            invariant
                l0 <= l,
                l <= r + 1,
                lo + 1 <= l,
                lo <= r < hi <= v@.len(),
                forall|k: int| lo < k < l ==> #[trigger] v@[k] <= v@[lo as int],
            decreases r + 1 - l,
        {
            l += 1;
        }
        while r >= l && v[r] >= v[lo]
            invariant
                r <= r0,
                l - 1 <= r,
                lo + 1 <= l <= hi,
                lo <= r < hi <= v@.len(),
                forall|k: int| r < k < hi ==> #[trigger] v@[k] >= v@[lo as int],
            decreases r,
        {
            r -= 1;
        }
        if l < r {
            vec_swap(v, l, r);
        }
        proof {
            if l == l0 && r == r0 {
                assert(v@[l as int] <= v@[lo as int]);
            }
        }
    }
    if v[r] < v[lo] {
        let ghost before = v@;
        vec_swap(v, lo, r);
        proof {
            assert(r > lo) by {
                if r == lo {
                    assert(before[r as int] == before[lo as int]);
                }
            }
            assert(v@[r as int] == before[lo as int]);
            assert forall|k: int| lo <= k < r implies #[trigger] v@[k] <= v@[r as int] by {
                if k == lo {
                    assert(v@[k] == before[r as int]);
                } else {
                    assert(v@[k] == before[k]);
                    assert(before[k] <= before[lo as int]);
                }
            }
        }
    } else {
        proof {
            if r > lo {
                if l > r {
                    assert(v@[r as int] <= v@[lo as int]);
                } else {
                    assert(l == r);
                    assert(v@[r as int] <= v@[lo as int] || r == hi - 1);
                }
            }
        }
    }
    r
}

fn quick_sort_range(v: &mut Vec<i32>, lo: usize, hi: usize)
    requires
        lo <= hi <= old(v).len(),
    ensures
        final(v)@.len() == old(v)@.len(),
        final(v)@.to_multiset() == old(v)@.to_multiset(),
        forall|k: int|
            0 <= k < lo || hi <= k < old(v)@.len() ==> final(v)@[k] == old(v)@[k],
        forall|i: int, j: int|
            lo <= i <= j < hi ==> #[trigger] final(v)@[i] <= #[trigger] final(v)@[j],
    decreases hi - lo,
{
    if hi - lo <= 1 {
        return ;
    }
    let r = quick_sort_partition(v, lo, hi);
    let ghost v1 = v@;
    quick_sort_range(v, lo, r);
    let ghost v2 = v@;
    quick_sort_range(v, r + 1, hi);
    proof {
        let p = v1[r as int];
        assert(v2[r as int] == p);
        assert(v@[r as int] == p);
        lemma_multiset_frame_range(v1, v2, lo as int, r as int);
        lemma_perm_all_le(
            v1.subrange(lo as int, r as int),
            v2.subrange(lo as int, r as int),
            p,
        );
        lemma_multiset_frame_range(v2, v@, r + 1, hi as int);
        lemma_perm_all_ge(
            v2.subrange(r + 1, hi as int),
            v@.subrange(r + 1, hi as int),
            p,
        );
        assert forall|i: int, j: int|
            lo <= i <= j < hi implies #[trigger] v@[i] <= #[trigger] v@[j] by {
            if i < r {
                assert(v@[i] == v2[i]);
                assert(v2.subrange(lo as int, r as int)[i - lo] == v2[i]);
                assert(v2[i] <= p);
            }
            if j > r {
                assert(v@.subrange(r + 1, hi as int)[j - r - 1] == v@[j]);
                assert(v@[j] >= p);
            }
            if i < r && j < r {
                assert(v2[i] <= v2[j]);
            }
        }
    }
}

/// Merge the two sorted ranges `[lo, mid)` and `[mid, hi)` of `v` through the
/// shared auxiliary buffer, which must come in empty and is handed back
/// empty. When the two heads are equal the left one is taken, so merging
/// preserves the relative order of equal elements.
fn merge_range(v: &mut Vec<i32>, buff: &mut Vec<i32>, lo: usize, mid: usize, hi: usize)
    requires
        lo <= mid <= hi <= old(v).len(),
        old(buff)@.len() == 0,
        forall|i: int, j: int|
            lo <= i <= j < mid ==> #[trigger] old(v)@[i] <= #[trigger] old(v)@[j],
        forall|i: int, j: int|
            mid <= i <= j < hi ==> #[trigger] old(v)@[i] <= #[trigger] old(v)@[j],
    ensures
        final(v)@.len() == old(v)@.len(),
        final(v)@.to_multiset() == old(v)@.to_multiset(),
        forall|k: int|
            0 <= k < lo || hi <= k < old(v)@.len() ==> final(v)@[k] == old(v)@[k],
        forall|i: int, j: int|
            lo <= i <= j < hi ==> #[trigger] final(v)@[i] <= #[trigger] final(v)@[j],
        final(buff)@.len() == 0,
{
    broadcast use group_to_multiset_ensures;

    let mut l: usize = lo;
    let mut r: usize = mid;
    while l < mid && r < hi
        invariant
            lo <= l <= mid <= r <= hi <= v@.len(),
            v@ == old(v)@,
            forall|i: int, j: int|
                lo <= i <= j < mid ==> #[trigger] v@[i] <= #[trigger] v@[j],
            forall|i: int, j: int|
                mid <= i <= j < hi ==> #[trigger] v@[i] <= #[trigger] v@[j],
            buff@.len() == (l - lo) + (r - mid),
            forall|i: int, j: int|
                0 <= i <= j < buff@.len() ==> #[trigger] buff@[i] <= #[trigger] buff@[j],
            buff@.to_multiset() == (v@.subrange(lo as int, l as int) + v@.subrange(
                mid as int,
                r as int,
            )).to_multiset(),
            l < mid ==> forall|k: int| 0 <= k < buff@.len() ==> #[trigger] buff@[k] <= v@[l as int],
            r < hi ==> forall|k: int| 0 <= k < buff@.len() ==> #[trigger] buff@[k] <= v@[r as int],
        decreases (mid - l) + (hi - r),
    {
        let ghost left = v@.subrange(lo as int, l as int);
        let ghost right = v@.subrange(mid as int, r as int);
        let ghost b0 = buff@;
        if v[r] < v[l] {
            buff.push(v[r]);
            proof {
                let x = v@[r as int];
                vstd::seq_lib::to_multiset_build(b0, x);
                lemma_push_middle_multiset(left, right, x);
                assert(right.push(x) =~= v@.subrange(mid as int, r + 1));
                assert(buff@.to_multiset() == (left + v@.subrange(mid as int, r + 1)).to_multiset());
                assert forall|k: int| 0 <= k < buff@.len() implies #[trigger] buff@[k]
                    <= v@[l as int] by {
                    if k < b0.len() {
                        assert(buff@[k] == b0[k]);
                    } else {
                        assert(buff@[k] == x);
                    }
                }
                if r + 1 < hi {
                    assert(v@[r as int] <= v@[r + 1]);
                    assert forall|k: int| 0 <= k < buff@.len() implies #[trigger] buff@[k]
                        <= v@[r + 1] by {
                        if k < b0.len() {
                            assert(buff@[k] == b0[k]);
                            assert(b0[k] <= v@[r as int]);
                        } else {
                            assert(buff@[k] == x);
                        }
                    }
                }
            }
            r += 1;
        } else {
            buff.push(v[l]);
            proof {
                let x = v@[l as int];
                vstd::seq_lib::to_multiset_build(b0, x);
                lemma_push_middle_multiset(left, right, x);
                assert(left.push(x) =~= v@.subrange(lo as int, l + 1));
                assert(buff@.to_multiset() == (v@.subrange(lo as int, l + 1) + right).to_multiset());
                assert forall|k: int| 0 <= k < buff@.len() implies #[trigger] buff@[k]
                    <= v@[r as int] by {
                    if k < b0.len() {
                        assert(buff@[k] == b0[k]);
                    } else {
                        assert(buff@[k] == x);
                    }
                }
                if l + 1 < mid {
                    assert(v@[l as int] <= v@[l + 1]);
                    assert forall|k: int| 0 <= k < buff@.len() implies #[trigger] buff@[k]
                        <= v@[l + 1] by {
                        if k < b0.len() {
                            assert(buff@[k] == b0[k]);
                            assert(b0[k] <= v@[l as int]);
                        } else {
                            assert(buff@[k] == x);
                        }
                    }
                }
            }
            l += 1;
        }
    }
    while l < mid
        invariant
            lo <= l <= mid <= r <= hi <= v@.len(),
            l < mid ==> r == hi,
            v@ == old(v)@,
            forall|i: int, j: int|
                lo <= i <= j < mid ==> #[trigger] v@[i] <= #[trigger] v@[j],
            forall|i: int, j: int|
                mid <= i <= j < hi ==> #[trigger] v@[i] <= #[trigger] v@[j],
            buff@.len() == (l - lo) + (r - mid),
            forall|i: int, j: int|
                0 <= i <= j < buff@.len() ==> #[trigger] buff@[i] <= #[trigger] buff@[j],
            buff@.to_multiset() == (v@.subrange(lo as int, l as int) + v@.subrange(
                mid as int,
                r as int,
            )).to_multiset(),
            l < mid ==> forall|k: int| 0 <= k < buff@.len() ==> #[trigger] buff@[k] <= v@[l as int],
            r < hi ==> forall|k: int| 0 <= k < buff@.len() ==> #[trigger] buff@[k] <= v@[r as int],
        decreases mid - l,
    {
        let ghost left = v@.subrange(lo as int, l as int);
        let ghost right = v@.subrange(mid as int, r as int);
        let ghost b0 = buff@;
        buff.push(v[l]);
        proof {
            let x = v@[l as int];
            vstd::seq_lib::to_multiset_build(b0, x);
            lemma_push_middle_multiset(left, right, x);
            assert(left.push(x) =~= v@.subrange(lo as int, l + 1));
            assert(buff@.to_multiset() == (v@.subrange(lo as int, l + 1) + right).to_multiset());
            if l + 1 < mid {
                assert(old(v)@[l as int] <= old(v)@[l + 1]);
                assert(v@[l as int] <= v@[l + 1]);
                assert forall|k: int| 0 <= k < buff@.len() implies #[trigger] buff@[k]
                    <= v@[l + 1] by {
                    if k < b0.len() {
                        assert(buff@[k] == b0[k]);
                        assert(b0[k] <= v@[l as int]);
                    } else {
                        assert(buff@[k] == x);
                    }
                }
            }
        }
        l += 1;
    }
    while r < hi
        invariant
            lo <= l <= mid <= r <= hi <= v@.len(),
            l == mid,
            v@ == old(v)@,
            forall|i: int, j: int|
                lo <= i <= j < mid ==> #[trigger] v@[i] <= #[trigger] v@[j],
            forall|i: int, j: int|
                mid <= i <= j < hi ==> #[trigger] v@[i] <= #[trigger] v@[j],
            buff@.len() == (l - lo) + (r - mid),
            forall|i: int, j: int|
                0 <= i <= j < buff@.len() ==> #[trigger] buff@[i] <= #[trigger] buff@[j],
            buff@.to_multiset() == (v@.subrange(lo as int, l as int) + v@.subrange(
                mid as int,
                r as int,
            )).to_multiset(),
            r < hi ==> forall|k: int| 0 <= k < buff@.len() ==> #[trigger] buff@[k] <= v@[r as int],
        decreases hi - r,
    {
        let ghost left = v@.subrange(lo as int, l as int);
        let ghost right = v@.subrange(mid as int, r as int);
        let ghost b0 = buff@;
        buff.push(v[r]);
        proof {
            let x = v@[r as int];
            vstd::seq_lib::to_multiset_build(b0, x);
            lemma_push_middle_multiset(left, right, x);
            assert(right.push(x) =~= v@.subrange(mid as int, r + 1));
            assert(buff@.to_multiset() == (left + v@.subrange(mid as int, r + 1)).to_multiset());
            if r + 1 < hi {
                assert(v@[r as int] <= v@[r + 1]);
                assert forall|k: int| 0 <= k < buff@.len() implies #[trigger] buff@[k]
                    <= v@[r + 1] by {
                    if k < b0.len() {
                        assert(buff@[k] == b0[k]);
                        assert(b0[k] <= v@[r as int]);
                    } else {
                        assert(buff@[k] == x);
                    }
                }
            }
        }
        r += 1;
    }
    let ghost vmid = v@;
    let count = hi - lo;
    for k in 0..count
        invariant
            count == hi - lo,
            lo <= mid <= hi <= v@.len(),
            v@.len() == vmid.len(),
            buff@.len() == count,
            forall|i: int, j: int|
                0 <= i <= j < buff@.len() ==> #[trigger] buff@[i] <= #[trigger] buff@[j],
            buff@.to_multiset() == (vmid.subrange(lo as int, mid as int) + vmid.subrange(
                mid as int,
                hi as int,
            )).to_multiset(),
            forall|t: int| 0 <= t < lo || lo + k <= t < v@.len() ==> #[trigger] v@[t] == vmid[t],
            forall|t: int| lo <= t < lo + k ==> #[trigger] v@[t] == buff@[t - lo],
    {
        let x = buff[k];
        v.set(lo + k, x);
    }
    proof {
        assert(v@.subrange(lo as int, hi as int) =~= buff@);
        assert(vmid.subrange(lo as int, mid as int) + vmid.subrange(mid as int, hi as int)
            =~= vmid.subrange(lo as int, hi as int));
        assert(v@.subrange(lo as int, hi as int).to_multiset() == vmid.subrange(
            lo as int,
            hi as int,
        ).to_multiset());
        lemma_multiset_frame_range(vmid, v@, lo as int, hi as int);
        assert forall|i: int, j: int|
            lo <= i <= j < hi implies #[trigger] v@[i] <= #[trigger] v@[j] by {
            assert(v@[i] == buff@[i - lo]);
            assert(v@[j] == buff@[j - lo]);
        }
    }
    buff.clear();
}

fn merge_sort_range(v: &mut Vec<i32>, buff: &mut Vec<i32>, lo: usize, hi: usize)
    requires
        lo <= hi <= old(v).len(),
        old(buff)@.len() == 0,
    ensures
        final(v)@.len() == old(v)@.len(),
        final(v)@.to_multiset() == old(v)@.to_multiset(),
        forall|k: int|
            0 <= k < lo || hi <= k < old(v)@.len() ==> final(v)@[k] == old(v)@[k],
        forall|i: int, j: int|
            lo <= i <= j < hi ==> #[trigger] final(v)@[i] <= #[trigger] final(v)@[j],
        final(buff)@.len() == 0,
    decreases hi - lo,
{
    if hi - lo < 2 {
        return ;
    }
    if hi - lo == 2 {
        if v[lo] > v[hi - 1] {
            vec_swap(v, lo, hi - 1);
        }
        return ;
    }
    let mid = lo + (hi - lo) / 2;
    merge_sort_range(v, buff, lo, mid);
    merge_sort_range(v, buff, mid, hi);
    merge_range(v, buff, lo, mid, hi);
}

/// Merge sort: recursive halving with a single auxiliary buffer, allocated
/// once with the full length and reused (emptied) across all merge steps.
/// Equal elements keep their relative order: the sort is stable.
pub fn merge_sort(v: &mut Vec<i32>)
    ensures
        sorted(final(v)@),
        permutes(old(v)@, final(v)@),
        final(v)@.len() == old(v)@.len(),
{
    let n = v.len();
    let mut buff: Vec<i32> = Vec::with_capacity(n);
    merge_sort_range(v, &mut buff, 0, n);
}

/// Quicksort with the first element of each sub-range as pivot. In place and
/// not stable; an already descending input drives it to its quadratic worst
/// case, one partition per element.
pub fn quick_sort(v: &mut Vec<i32>)
    ensures
        sorted(final(v)@),
        permutes(old(v)@, final(v)@),
        final(v)@.len() == old(v)@.len(),
{
    let n = v.len();
    quick_sort_range(v, 0, n);
}

} // verus!
