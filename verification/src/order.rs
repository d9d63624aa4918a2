//! The specification vocabulary shared by every sorting algorithm: ascending
//! order, permutation (equal multisets), the element swap they are all built
//! from, and the uniqueness laws that follow.

use vstd::prelude::*;
use vstd::pervasive::VecAdditionalExecFns;
use vstd::seq_lib::group_to_multiset_ensures;
use vstd::seq_lib::lemma_sorted_unique;
use vstd::multiset::group_multiset_axioms;
use vstd::multiset::Multiset;
use vstd::relations::total_ordering;
use vstd::relations::sorted_by;

verus! {

/// The sequence is in ascending order.
pub open spec fn sorted(s: Seq<i32>) -> bool {
    forall|i: int, j: int| 0 <= i <= j < s.len() ==> #[trigger] s[i] <= #[trigger] s[j]
}

/// `a` and `b` hold the same elements with the same repetition counts.
pub open spec fn permutes(a: Seq<i32>, b: Seq<i32>) -> bool {
    a.to_multiset() == b.to_multiset()
}

/// Swapping two positions of a sequence keeps its multiset of elements.
pub proof fn lemma_swap_multiset(s: Seq<i32>, i: int, j: int)
    requires
        0 <= i < s.len(),
        0 <= j < s.len(),
    ensures
        s.update(i, s[j]).update(j, s[i]).to_multiset() == s.to_multiset(),
{
    broadcast use group_to_multiset_ensures;
    broadcast use group_multiset_axioms;

    let s1 = s.update(i, s[j]);
    assert(s.contains(s[i]));
    assert(s.contains(s[j]));
    assert(s1[j] == s[j]);
    assert(s1.to_multiset() == s.to_multiset().insert(s[j]).remove(s[i]));
    assert(s1.update(j, s[i]).to_multiset() == s1.to_multiset().insert(s[i]).remove(s[j]));
    assert(s.to_multiset().insert(s[j]).remove(s[i]).insert(s[i]).remove(s[j])
        =~= s.to_multiset());
}

/// Exchange the elements at positions `i` and `j`, as `slice::swap` does.
pub fn vec_swap(v: &mut Vec<i32>, i: usize, j: usize)
    requires
        i < old(v).len(),
        j < old(v).len(),
    ensures
        final(v)@ == old(v)@.update(i as int, old(v)@[j as int]).update(
            j as int,
            old(v)@[i as int],
        ),
        final(v)@.to_multiset() == old(v)@.to_multiset(),
        final(v)@.len() == old(v)@.len(),
{
    let a = v[i];
    let b = v[j];
    v.set(i, b);
    v.set(j, a);
    proof {
        lemma_swap_multiset(old(v)@, i as int, j as int);
    }
}

/// When two equally long sequences agree outside `[lo, hi)`, their whole
/// multisets agree exactly when the multisets of the `[lo, hi)` ranges do.
pub proof fn lemma_multiset_frame_range(s: Seq<i32>, t: Seq<i32>, lo: int, hi: int)
    requires
        s.len() == t.len(),
        0 <= lo <= hi <= s.len(),
        forall|k: int| 0 <= k < lo || hi <= k < s.len() ==> s[k] == t[k],
    ensures
        s.to_multiset() == t.to_multiset() <==> s.subrange(lo, hi).to_multiset() == t.subrange(
            lo,
            hi,
        ).to_multiset(),
{
    broadcast use group_multiset_axioms;

    let n = s.len() as int;
    let sp = s.subrange(0, lo);
    let sm = s.subrange(lo, hi);
    let ss = s.subrange(hi, n);
    let tp = t.subrange(0, lo);
    let tm = t.subrange(lo, hi);
    let ts = t.subrange(hi, n);
    assert(sp =~= tp);
    assert(ss =~= ts);
    assert(s =~= sp + sm + ss);
    assert(t =~= tp + tm + ts);
    vstd::seq_lib::lemma_multiset_commutative(sp + sm, ss);
    vstd::seq_lib::lemma_multiset_commutative(sp, sm);
    vstd::seq_lib::lemma_multiset_commutative(tp + tm, ts);
    vstd::seq_lib::lemma_multiset_commutative(tp, tm);
    if sm.to_multiset() == tm.to_multiset() {
        assert(s.to_multiset() == t.to_multiset());
    }
    if s.to_multiset() == t.to_multiset() {
        assert forall|x: i32| sm.to_multiset().count(x) == tm.to_multiset().count(x) by {
            assert(s.to_multiset().count(x) == sp.to_multiset().count(x)
                + sm.to_multiset().count(x) + ss.to_multiset().count(x));
            assert(t.to_multiset().count(x) == tp.to_multiset().count(x)
                + tm.to_multiset().count(x) + ts.to_multiset().count(x));
        }
        assert(sm.to_multiset() =~= tm.to_multiset());
    }
}

/// Appending one element to either side of a concatenation inserts it into
/// the multiset of the concatenation.
pub proof fn lemma_push_middle_multiset(a: Seq<i32>, b: Seq<i32>, x: i32)
    ensures
        (a.push(x) + b).to_multiset() == (a + b).to_multiset().insert(x),
        (a + b.push(x)).to_multiset() == (a + b).to_multiset().insert(x),
{
    broadcast use group_to_multiset_ensures;
    broadcast use group_multiset_axioms;

    vstd::seq_lib::lemma_multiset_commutative(a.push(x), b);
    vstd::seq_lib::lemma_multiset_commutative(a, b.push(x));
    vstd::seq_lib::lemma_multiset_commutative(a, b);
    assert((a.push(x) + b).to_multiset() =~= (a + b).to_multiset().insert(x));
    assert((a + b.push(x)).to_multiset() =~= (a + b).to_multiset().insert(x));
}

/// Rearranging a sequence cannot raise its elements above a bound that they
/// all respected before.
pub proof fn lemma_perm_all_le(a: Seq<i32>, b: Seq<i32>, x: i32)
    requires
        a.to_multiset() == b.to_multiset(),
        forall|k: int| 0 <= k < a.len() ==> #[trigger] a[k] <= x,
    ensures
        forall|k: int| 0 <= k < b.len() ==> #[trigger] b[k] <= x,
{
    broadcast use group_to_multiset_ensures;
    broadcast use group_multiset_axioms;

    assert forall|k: int| 0 <= k < b.len() implies #[trigger] b[k] <= x by {
        assert(b.contains(b[k]));
        assert(a.to_multiset().count(b[k]) > 0);
        assert(a.contains(b[k]));
        let i = choose|i: int| 0 <= i < a.len() && a[i] == b[k];
        assert(a[i] <= x);
    }
}

/// Rearranging a sequence cannot lower its elements below a bound that they
/// all respected before.
pub proof fn lemma_perm_all_ge(a: Seq<i32>, b: Seq<i32>, x: i32)
    requires
        a.to_multiset() == b.to_multiset(),
        forall|k: int| 0 <= k < a.len() ==> #[trigger] a[k] >= x,
    ensures
        forall|k: int| 0 <= k < b.len() ==> #[trigger] b[k] >= x,
{
    broadcast use group_to_multiset_ensures;
    broadcast use group_multiset_axioms;

    assert forall|k: int| 0 <= k < b.len() implies #[trigger] b[k] >= x by {
        assert(b.contains(b[k]));
        assert(a.to_multiset().count(b[k]) > 0);
        assert(a.contains(b[k]));
        let i = choose|i: int| 0 <= i < a.len() && a[i] == b[k];
        assert(a[i] >= x);
    }
}

/// The elements equal to `k` are as many as the multiset counts.
proof fn lemma_filter_eq_len_is_count(s: Seq<i32>, k: i32)
    ensures
        s.filter(|x: i32| x == k).len() == s.to_multiset().count(k),
    decreases s.len(),
{
    broadcast use group_to_multiset_ensures;
    broadcast use group_multiset_axioms;

    reveal(Seq::filter);
    let pred = |x: i32| x == k;
    if s.len() == 0 {
        assert(s.to_multiset() =~= Multiset::<i32>::empty());
    } else {
        lemma_filter_eq_len_is_count(s.drop_last(), k);
        assert(s =~= s.drop_last().push(s.last()));
        vstd::seq_lib::to_multiset_build(s.drop_last(), s.last());
        assert(s.to_multiset() == s.drop_last().to_multiset().insert(s.last()));
    }
}

/// Equal integers are indistinguishable, so every rearrangement keeps, for
/// each value `k`, exactly the input's run of elements equal to `k`: the
/// filter-based reading of stability holds of any permutation of an integer
/// sequence, the outputs of insertion sort and merge sort among them.
pub proof fn lemma_equal_run_preserved(input: Seq<i32>, output: Seq<i32>, k: i32)
    requires
        permutes(input, output),
    ensures
        input.filter(|x: i32| x == k) == output.filter(|x: i32| x == k),
{
    let pred = |x: i32| x == k;
    let fin = input.filter(pred);
    let fout = output.filter(pred);
    lemma_filter_eq_len_is_count(input, k);
    lemma_filter_eq_len_is_count(output, k);
    assert(fin.len() == fout.len());
    assert forall|i: int| 0 <= i < fin.len() implies fin[i] == fout[i] by {
        input.lemma_filter_pred(pred, i);
        output.lemma_filter_pred(pred, i);
    }
    assert(fin =~= fout);
}

/// Ascending order and element counts determine a sequence completely; hence
/// sorting a sequence that is already sorted hands it back unchanged,
/// whichever algorithm did the sorting.
pub proof fn lemma_sort_idempotent(input: Seq<i32>, output: Seq<i32>)
    requires
        sorted(input),
        sorted(output),
        permutes(input, output),
    ensures
        output == input,
{
    let leq = |x: i32, y: i32| x <= y;
    assert(total_ordering(leq));
    assert(sorted_by(input, leq));
    assert(sorted_by(output, leq));
    lemma_sorted_unique(input, output, leq);
    assert(input =~= output);
}

/// Sequences of length zero or one are already in ascending order, so every
/// algorithm leaves them exactly as they were.
pub proof fn lemma_short_input_no_op(input: Seq<i32>, output: Seq<i32>)
    requires
        input.len() <= 1,
        sorted(output),
        permutes(input, output),
    ensures
        output == input,
{
    lemma_sort_idempotent(input, output);
}

} // verus!
