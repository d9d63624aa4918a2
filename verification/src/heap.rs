//! A max-heap view over a prefix of a sequence: top-to-bottom repair,
//! heapification of an arbitrary sequence, and the extract-max loop that
//! turns a heap into an ascending sequence.

use vstd::prelude::*;
use crate::order::{sorted, permutes, vec_swap, lemma_multiset_frame_range, lemma_perm_all_le};

verus! {

/// Index of the parent of heap node `c`.
pub open spec fn parent_index(c: int) -> int {
    (c - 1) / 2
}

/// The heap property restricted to nodes whose parent is at least `top`:
/// every such node is at most its parent. This is the state of `heapify`
/// once all repair positions down to `top` have been processed.
pub open spec fn heap_from(s: Seq<i32>, bound: int, top: int) -> bool {
    forall|c: int|
        0 < c < bound && parent_index(c) >= top ==> s[parent_index(c)] >= #[trigger] s[c]
}

/// The max-heap property over the prefix `[0, bound)`: every node with an
/// in-bound child is at least as large as that child.
pub open spec fn is_heap(s: Seq<i32>, bound: int) -> bool {
    heap_from(s, bound, 0)
}

/// `i` lies in the subtree rooted at `root`: it is `root` itself or one of
/// its descendants along the parent chain.
pub open spec fn in_subtree(root: int, i: int) -> bool
    decreases i,
{
    if i <= root {
        i == root
    } else if root < 0 {
        false
    } else {
        in_subtree(root, parent_index(i))
    }
}

/// The heap property on the subtree rooted at `root`, restricted to indices
/// below `bound`: every in-bound node whose parent lies in the subtree is at
/// most that parent.
pub open spec fn subtree_heap(s: Seq<i32>, bound: int, root: int) -> bool {
    forall|c: int|
        0 < c < bound && in_subtree(root, parent_index(c)) ==> s[parent_index(c)]
            >= #[trigger] s[c]
}

/// A member of a subtree lies at or below the subtree's root.
pub proof fn lemma_subtree_ge(root: int, i: int)
    requires
        in_subtree(root, i),
    ensures
        i >= root,
{
}

/// Every non-negative index lies in the subtree of the heap's root.
pub proof fn lemma_subtree_root_all(i: int)
    requires
        0 <= i,
    ensures
        in_subtree(0, i),
    decreases i,
{
    if i > 0 {
        lemma_subtree_root_all(parent_index(i));
    }
}

/// A strict member of a subtree descends from one of the root's children.
pub proof fn lemma_subtree_child(root: int, i: int)
    requires
        0 <= root,
        in_subtree(root, i),
        i != root,
    ensures
        in_subtree(2 * root + 1, i) || in_subtree(2 * root + 2, i),
    decreases i,
{
    assert(i > root);
    if parent_index(i) == root {
        assert(i == 2 * root + 1 || i == 2 * root + 2);
    } else {
        lemma_subtree_child(root, parent_index(i));
        if in_subtree(2 * root + 1, parent_index(i)) {
            lemma_subtree_ge(2 * root + 1, parent_index(i));
            assert(in_subtree(2 * root + 1, i));
        } else {
            lemma_subtree_ge(2 * root + 2, parent_index(i));
            assert(in_subtree(2 * root + 2, i));
        }
    }
}

/// In a heap every element of the bounded prefix is at most the root.
pub proof fn lemma_heap_le_root(s: Seq<i32>, bound: int, c: int)
    requires
        is_heap(s, bound),
        0 <= c < bound <= s.len(),
    ensures
        s[c] <= s[0],
    decreases c,
{
    if c > 0 {
        assert(s[parent_index(c)] >= s[c]);
        lemma_heap_le_root(s, bound, parent_index(c));
    }
}

/// A max-heap bound to a sequence of elements: constructing it repairs the
/// sequence into heap order, and `sort` turns it into ascending order.
pub struct HeapifiedSlice {
    v: Vec<i32>,
}

impl HeapifiedSlice {
    /// The sequence the heap is bound to.
    pub closed spec fn seq(self) -> Seq<i32> {
        self.v@
    }

    /// The heap invariant, together with the machine limit that keeps child
    /// index arithmetic inside `usize`.
    pub closed spec fn wf(self) -> bool {
        &&& is_heap(self.v@, self.v@.len() as int)
        &&& 2 * self.v@.len() <= usize::MAX
    }

    fn get_parent(k: usize) -> (r: usize)
        requires
            k >= 1,
        ensures
            r as int == parent_index(k as int),
    {
        (k - 1) / 2
    }

    fn get_left_child(top: usize) -> (r: usize)
        requires
            2 * top + 1 <= usize::MAX,
        ensures
            r == 2 * top + 1,
    {
        top * 2 + 1
    }

    fn get_right_child(top: usize) -> (r: usize)
        requires
            2 * top + 2 <= usize::MAX,
        ensures
            r == 2 * top + 2,
    {
        top * 2 + 2
    }

    /// Move the running maximum's index to `child` when that index is inside
    /// the bound and holds the strictly larger element.
    fn conditional_swap(v: &Vec<i32>, bound: usize, largest: &mut usize, child: usize)
        requires
            *old(largest) < bound <= v.len(),
        ensures
            *final(largest) == (if child < bound && v@[child as int] > v@[(*old(largest)) as int] {
                child
            } else {
                *old(largest)
            }),
    {
        if child < bound {
            if v[child] > v[*largest] {
                *largest = child;
            }
        }
    }

    /// Sift the element at `top` down until the subtree rooted there obeys
    /// the heap property, given that the subtrees rooted at its two children
    /// already do. Nothing outside `top`'s subtree, and nothing at or beyond
    /// `bound`, changes.
    #[verifier::rlimit(100)]
    fn fix_heap_top_to_bottom(v: &mut Vec<i32>, bound: usize, top: usize)
        requires
            top < bound <= old(v).len(),
            2 * bound <= usize::MAX,
            subtree_heap(old(v)@, bound as int, 2 * top as int + 1),
            subtree_heap(old(v)@, bound as int, 2 * top as int + 2),
        ensures
            final(v)@.len() == old(v)@.len(),
            final(v)@.to_multiset() == old(v)@.to_multiset(),
            forall|k: int| bound <= k < old(v)@.len() ==> final(v)@[k] == old(v)@[k],
            forall|k: int|
                0 <= k < old(v)@.len() && !in_subtree(top as int, k) ==> final(v)@[k] == old(
                    v,
                )@[k],
            subtree_heap(final(v)@, bound as int, top as int),
    {
        let mut cur = top;
        proof {
            assert(in_subtree(top as int, top as int));
            assert forall|c: int|
                0 < c < bound && in_subtree(top as int, parent_index(c)) && parent_index(c)
                    != top as int implies v@[parent_index(c)] >= #[trigger] v@[c] by {
                lemma_subtree_child(top as int, parent_index(c));
                assert(old(v)@[parent_index(c)] >= old(v)@[c]);
            }
        }
        loop
            invariant_except_break
                top <= cur < bound <= v@.len(),
                in_subtree(top as int, cur as int),
                v@.len() == old(v)@.len(),
                2 * bound <= usize::MAX,
                v@.to_multiset() == old(v)@.to_multiset(),
                forall|k: int| bound <= k < v@.len() ==> #[trigger] v@[k] == old(v)@[k],
                forall|k: int|
                    0 <= k < v@.len() && !in_subtree(top as int, k) ==> v@[k] == old(v)@[k],
                forall|c: int|
                    0 < c < bound && in_subtree(top as int, parent_index(c)) && parent_index(c)
                        != cur ==> v@[parent_index(c)] >= #[trigger] v@[c],
                cur > top ==> forall|c: int|
                    0 < c < bound && parent_index(c) == cur ==> v@[parent_index(cur as int)]
                        >= #[trigger] v@[c],
            ensures
                v@.len() == old(v)@.len(),
                v@.to_multiset() == old(v)@.to_multiset(),
                forall|k: int| bound <= k < v@.len() ==> #[trigger] v@[k] == old(v)@[k],
                forall|k: int|
                    0 <= k < v@.len() && !in_subtree(top as int, k) ==> v@[k] == old(v)@[k],
                subtree_heap(v@, bound as int, top as int),
            decreases bound - cur,
        {
            let mut largest = cur;
            let left = Self::get_left_child(cur);
            let right = Self::get_right_child(cur);
            Self::conditional_swap(v, bound, &mut largest, left);
            Self::conditional_swap(v, bound, &mut largest, right);
            proof {
                assert(largest == cur || largest == left || largest == right);
                assert(v@[largest as int] >= v@[cur as int]);
                assert(left < bound ==> v@[largest as int] >= v@[left as int]);
                assert(right < bound ==> v@[largest as int] >= v@[right as int]);
            }
            if cur != largest {
                let ghost before = v@;
                let ghost m = largest as int;
                let ghost c0 = cur as int;
                proof {
                    assert(parent_index(m) == c0);
                    assert(in_subtree(top as int, m));
                }
                vec_swap(v, cur, largest);
                proof {
                    assert forall|k: int|
                        0 <= k < v@.len() && (bound <= k || !in_subtree(top as int, k))
                            implies v@[k] == before[k] by {
                        assert(k != c0 && k != m);
                    }
                    assert forall|c: int|
                        0 < c < bound && in_subtree(top as int, parent_index(c)) && parent_index(c)
                            != m implies v@[parent_index(c)] >= #[trigger] v@[c] by {
                        assert(parent_index(c) < c);
                        if parent_index(c) == c0 {
                            assert(c == 2 * c0 + 1 || c == 2 * c0 + 2);
                            if c == m {
                                assert(v@[c0] == before[m] && v@[m] == before[c0]);
                            } else {
                                assert(v@[c] == before[c]);
                                assert(v@[c0] == before[m]);
                            }
                        } else if c == c0 {
                            assert(c0 > top) by {
                                if c0 == top {
                                    lemma_subtree_ge(top as int, parent_index(c));
                                }
                            }
                            assert(before[parent_index(c0)] >= before[m]);
                            assert(v@[parent_index(c)] == before[parent_index(c)]);
                            assert(v@[c] == before[m]);
                        } else {
                            assert(v@[c] == before[c]);
                            assert(v@[parent_index(c)] == before[parent_index(c)]);
                            assert(before[parent_index(c)] >= before[c]);
                        }
                    }
                    assert forall|c: int|
                        0 < c < bound && parent_index(c) == m implies v@[parent_index(m)]
                            >= #[trigger] v@[c] by {
                        assert(c == 2 * m + 1 || c == 2 * m + 2);
                        assert(c != c0 && c != m);
                        assert(v@[c] == before[c]);
                        assert(before[m] >= before[c]);
                        assert(v@[parent_index(m)] == before[m]);
                    }
                }
                cur = largest;
            } else {
                proof {
                    assert forall|c: int|
                        0 < c < bound && in_subtree(top as int, parent_index(c))
                            implies v@[parent_index(c)] >= #[trigger] v@[c] by {
                        if parent_index(c) == cur {
                            assert(c == 2 * cur + 1 || c == 2 * cur + 2);
                        }
                    }
                }
                break ;
            }
        }
    }

    /// Repair an arbitrary sequence into a valid max-heap by sifting down
    /// from the parent of the last element to the root.
    pub fn heapify(v: Vec<i32>) -> (h: HeapifiedSlice)
        requires
            2 * v@.len() <= usize::MAX,
        ensures
            h.wf(),
            is_heap(h.seq(), h.seq().len() as int),
            h.seq().to_multiset() == v@.to_multiset(),
            h.seq().len() == v@.len(),
    {
        let mut w = v;
        heapify_in_place(&mut w);
        HeapifiedSlice { v: w }
    }

    /// Heap sort's extract-max loop: repeatedly swap the root with the last
    /// element of the shrinking bound and repair the heap at the root.
    pub fn sort(&mut self)
        requires
            old(self).wf(),
        ensures
            sorted(final(self).seq()),
            permutes(old(self).seq(), final(self).seq()),
            final(self).seq().len() == old(self).seq().len(),
    {
        heap_extract(&mut self.v);
    }

    /// Hand the underlying sequence back.
    pub fn into_vec(self) -> (r: Vec<i32>)
        ensures
            r@ == self.seq(),
    {
        self.v
    }
}

/// Repair the whole vector into a max-heap.
#[verifier::rlimit(100)]
fn heapify_in_place(v: &mut Vec<i32>)
    requires
        2 * old(v).len() <= usize::MAX,
    ensures
        final(v)@.len() == old(v)@.len(),
        final(v)@.to_multiset() == old(v)@.to_multiset(),
        is_heap(final(v)@, final(v)@.len() as int),
{
    let n = v.len();
    if n > 1 {
        let last = n - 1;
        let parent_of_last = HeapifiedSlice::get_parent(last);
        let mut idx = parent_of_last + 1;
        proof {
            assert forall|c: int| 0 < c < n && parent_index(c) >= idx implies v@[parent_index(
                c,
            )] >= #[trigger] v@[c] by {
                assert(parent_index(c) <= parent_index(n - 1));
            }
        }
        while idx > 0
            invariant
                idx <= parent_of_last + 1 < n == v@.len() == old(v)@.len(),
                2 * n <= usize::MAX,
                v@.to_multiset() == old(v)@.to_multiset(),
                heap_from(v@, n as int, idx as int),
            decreases idx,
        {
            idx -= 1;
            proof {
                assert forall|c: int|
                    0 < c < n && in_subtree(2 * idx as int + 1, parent_index(c))
                        implies v@[parent_index(c)] >= #[trigger] v@[c] by {
                    lemma_subtree_ge(2 * idx as int + 1, parent_index(c));
                }
                assert forall|c: int|
                    0 < c < n && in_subtree(2 * idx as int + 2, parent_index(c))
                        implies v@[parent_index(c)] >= #[trigger] v@[c] by {
                    lemma_subtree_ge(2 * idx as int + 2, parent_index(c));
                }
            }
            let ghost before = v@;
            HeapifiedSlice::fix_heap_top_to_bottom(v, n, idx);
            proof {
                assert forall|c: int|
                    0 < c < n && parent_index(c) >= idx implies v@[parent_index(c)]
                        >= #[trigger] v@[c] by {
                    let p = parent_index(c);
                    if in_subtree(idx as int, p) {
                        assert(v@[p] >= v@[c]);
                    } else {
                        assert(p < c);
                        assert(in_subtree(idx as int, idx as int));
                        assert(!in_subtree(idx as int, c)) by {
                            if in_subtree(idx as int, c) {
                                lemma_subtree_ge(idx as int, c);
                                if c != idx {
                                    assert(in_subtree(idx as int, p));
                                }
                            }
                        }
                        assert(v@[c] == before[c]);
                        assert(v@[p] == before[p]);
                        assert(p >= idx + 1);
                        assert(before[p] >= before[c]);
                    }
                }
            }
        }
    }
    proof {
        if n <= 1 {
            assert(is_heap(v@, n as int));
        }
    }
}

/// After swapping the root with the last in-bound element, the subtrees
/// rooted at the root's two children still satisfy the heap property under
/// the shrunk bound: the swap touched only the root and the element that
/// left the bound.
proof fn lemma_children_subtrees_after_root_swap(before: Seq<i32>, after: Seq<i32>, len: int)
    requires
        2 <= len <= before.len(),
        after.len() == before.len(),
        is_heap(before, len),
        after == before.update(0, before[len - 1]).update(len - 1, before[0]),
    ensures
        subtree_heap(after, len - 1, 1),
        subtree_heap(after, len - 1, 2),
{
    assert forall|c: int|
        0 < c < len - 1 && in_subtree(1, parent_index(c)) implies after[parent_index(c)]
            >= #[trigger] after[c] by {
        lemma_subtree_ge(1, parent_index(c));
        assert(parent_index(c) < c < len - 1);
        assert(after[c] == before[c]);
        assert(after[parent_index(c)] == before[parent_index(c)]);
        assert(before[parent_index(c)] >= before[c]);
    }
    assert forall|c: int|
        0 < c < len - 1 && in_subtree(2, parent_index(c)) implies after[parent_index(c)]
            >= #[trigger] after[c] by {
        lemma_subtree_ge(2, parent_index(c));
        assert(parent_index(c) < c < len - 1);
        assert(after[c] == before[c]);
        assert(after[parent_index(c)] == before[parent_index(c)]);
        assert(before[parent_index(c)] >= before[c]);
    }
}

/// The whole bounded prefix is one subtree of the root, so the subtree heap
/// property at the root is the heap property itself.
proof fn lemma_subtree_root_heap(s: Seq<i32>, bound: int)
    requires
        subtree_heap(s, bound, 0),
    ensures
        is_heap(s, bound),
{
    assert forall|c: int|
        0 < c < bound && parent_index(c) >= 0 implies s[parent_index(c)] >= #[trigger] s[c] by {
        lemma_subtree_root_all(parent_index(c));
    }
}

/// Rearranging the prefix `[0, len)` of a sequence while leaving the suffix
/// untouched keeps every prefix element at most every suffix element.
proof fn lemma_prefix_bound_preserved(mid: Seq<i32>, after: Seq<i32>, len: int, n: int)
    requires
        0 <= len <= n,
        n == mid.len() == after.len(),
        mid.to_multiset() == after.to_multiset(),
        forall|k: int| len <= k < n ==> #[trigger] after[k] == mid[k],
        forall|k: int, m: int| 0 <= k < len <= m < n ==> #[trigger] mid[k] <= #[trigger] mid[m],
    ensures
        forall|k: int, m: int|
            0 <= k < len <= m < n ==> #[trigger] after[k] <= #[trigger] after[m],
{
    lemma_multiset_frame_range(mid, after, 0, len);
    assert forall|k: int, m: int|
        0 <= k < len <= m < n implies #[trigger] after[k] <= #[trigger] after[m] by {
        assert(after[m] == mid[m]);
        assert forall|t: int| 0 <= t < len implies mid.subrange(0, len)[t] <= mid[m] by {
            assert(mid.subrange(0, len)[t] == mid[t]);
        }
        lemma_perm_all_le(mid.subrange(0, len), after.subrange(0, len), mid[m]);
        assert(after.subrange(0, len)[k] == after[k]);
    }
}

/// Turn a valid max-heap into an ascending sequence in place.
#[verifier::rlimit(100)]
fn heap_extract(v: &mut Vec<i32>)
    requires
        is_heap(old(v)@, old(v)@.len() as int),
        2 * old(v).len() <= usize::MAX,
    ensures
        final(v)@.len() == old(v)@.len(),
        final(v)@.to_multiset() == old(v)@.to_multiset(),
        sorted(final(v)@),
{
    let n = v.len();
    let mut len = n;
    while len > 1
        invariant
            len <= n == v@.len() == old(v)@.len(),
            n > 0 ==> len >= 1,
            2 * n <= usize::MAX,
            v@.to_multiset() == old(v)@.to_multiset(),
            is_heap(v@, len as int),
            forall|i: int, j: int| len <= i <= j < n ==> #[trigger] v@[i] <= #[trigger] v@[j],
            forall|k: int, m: int| 0 <= k < len <= m < n ==> #[trigger] v@[k] <= #[trigger] v@[m],
        decreases len,
    {
        let ghost before = v@;
        vec_swap(v, 0, len - 1);
        proof {
            assert forall|c: int| 0 <= c < len implies #[trigger] before[c] <= before[0] by {
                lemma_heap_le_root(before, len as int, c);
            }
            lemma_children_subtrees_after_root_swap(before, v@, len as int);
        }
        len -= 1;
        let ghost mid = v@;
        HeapifiedSlice::fix_heap_top_to_bottom(v, len, 0);
        proof {
            lemma_subtree_root_heap(v@, len as int);
            lemma_prefix_bound_preserved(mid, v@, len as int, n as int);
        }
    }
    proof {
        if len == 1 {
            assert forall|i: int, j: int|
                0 <= i <= j < v@.len() implies #[trigger] v@[i] <= #[trigger] v@[j] by {
                if i == 0 && j > 0 {
                    assert(v@[0] <= v@[j]);
                }
            }
        }
    }
}

/// Heap sort: heapify, then extract the maximum until the bound shrinks to
/// one. In place and not stable.
pub fn heap_sort(v: &mut Vec<i32>)
    requires
        2 * old(v).len() <= usize::MAX,
    ensures
        sorted(final(v)@),
        permutes(old(v)@, final(v)@),
        final(v)@.len() == old(v)@.len(),
{
    heapify_in_place(v);
    heap_extract(v);
}

} // verus!
