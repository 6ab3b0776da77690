//! A sort of positions `0..n` under an order that a caller supplies.
//!
//! A stable sort by a key is the same as a sort by the key with ties broken by
//! position in the input, which is a strict total order on positions.  The orders
//! given to `stable_sort_indices` already carry that tie break, so the sorted
//! result is unique and the contract pins it down.
use vstd::prelude::*;

verus! {

/// A strict total order on the positions `0..len()` of some sequence.
pub trait PositionOrder {
    spec fn spec_len(&self) -> nat;

    spec fn before(&self, i: int, j: int) -> bool;

    proof fn lemma_irreflexive(&self, i: int)
        requires
            0 <= i < self.spec_len(),
        ensures
            !self.before(i, i),
    ;

    proof fn lemma_transitive(&self, i: int, j: int, k: int)
        requires
            0 <= i < self.spec_len(),
            0 <= j < self.spec_len(),
            0 <= k < self.spec_len(),
            self.before(i, j),
            self.before(j, k),
        ensures
            self.before(i, k),
    ;

    proof fn lemma_total(&self, i: int, j: int)
        requires
            0 <= i < self.spec_len(),
            0 <= j < self.spec_len(),
            i != j,
        ensures
            self.before(i, j) || self.before(j, i),
    ;

    fn count(&self) -> (n: usize)
        ensures
            n == self.spec_len(),
    ;

    fn is_before(&self, i: usize, j: usize) -> (r: bool)
        requires
            i < self.spec_len(),
            j < self.spec_len(),
        ensures
            r == self.before(i as int, j as int),
    ;
}

/// `out` lists every position `0..n` once, in increasing `before` order.
pub open spec fn is_sorted_permutation<O: PositionOrder>(o: &O, out: Seq<usize>) -> bool {
    &&& out.len() == o.spec_len()
    &&& forall|k: usize| k < o.spec_len() ==> #[trigger] out.contains(k)
    &&& forall|a: int| 0 <= a < out.len() ==> out[a] < o.spec_len()
    &&& forall|a: int, b: int| 0 <= a < b < out.len() ==> o.before(out[a] as int, out[b] as int)
}

/// `s` lists every position of `lo..hi` once, in increasing `before` order.
pub open spec fn sorted_range<O: PositionOrder>(o: &O, s: Seq<usize>, lo: int, hi: int) -> bool {
    &&& s.len() == hi - lo
    &&& forall|k: usize| lo <= k < hi ==> #[trigger] s.contains(k)
    &&& forall|a: int| 0 <= a < s.len() ==> lo <= #[trigger] s[a] < hi
    &&& forall|a: int, b: int| 0 <= a < b < s.len() ==> o.before(#[trigger] s[a] as int, #[trigger] s[b] as int)
}

/// Merges the sorted positions of `lo..mid` and of `mid..hi`.
fn merge<O: PositionOrder>(
    o: &O,
    left: Vec<usize>,
    right: Vec<usize>,
    Ghost(lo): Ghost<int>,
    Ghost(mid): Ghost<int>,
    Ghost(hi): Ghost<int>,
) -> (out: Vec<usize>)
    requires
        0 <= lo <= mid <= hi <= o.spec_len(),
        sorted_range(o, left@, lo, mid),
        sorted_range(o, right@, mid, hi),
    ensures
        sorted_range(o, out@, lo, hi),
{
    let mut out: Vec<usize> = Vec::new();
    let mut i: usize = 0;
    let mut j: usize = 0;
    while i < left.len() || j < right.len()
        invariant
            0 <= lo <= mid <= hi <= o.spec_len(),
            sorted_range(o, left@, lo, mid),
            sorted_range(o, right@, mid, hi),
            i <= left@.len(),
            j <= right@.len(),
            out@.len() == i + j,
            forall|x: int| 0 <= x < out@.len() ==> lo <= #[trigger] out@[x] < hi,
            forall|x: int| 0 <= x < i ==> #[trigger] out@.contains(left@[x]),
            forall|x: int| 0 <= x < j ==> #[trigger] out@.contains(right@[x]),
            forall|a: int, b: int| 0 <= a < b < out@.len() ==> o.before(#[trigger] out@[a] as int, #[trigger] out@[b] as int),
            forall|x: int, y: int| 0 <= x < out@.len() && i <= y < left@.len()
                ==> o.before(#[trigger] out@[x] as int, #[trigger] left@[y] as int),
            forall|x: int, y: int| 0 <= x < out@.len() && j <= y < right@.len()
                ==> o.before(#[trigger] out@[x] as int, #[trigger] right@[y] as int),
        decreases left@.len() + right@.len() - i - j,
    {
        let ghost before_push = out@;
        let take_left = j >= right.len() || (i < left.len() && o.is_before(left[i], right[j]));
        if take_left {
            let e = left[i];
            proof {
                assert forall|y: int| i < y < left@.len() implies o.before(e as int, #[trigger] left@[y] as int) by {}
                assert forall|y: int| j <= y < right@.len() implies o.before(e as int, #[trigger] right@[y] as int) by {
                    if y > j {
                        assert(o.before(right@[j as int] as int, right@[y] as int));
                        o.lemma_transitive(e as int, right@[j as int] as int, right@[y] as int);
                    }
                }
            }
            out.push(e);
            i = i + 1;
        } else {
            let e = right[j];
            proof {
                if i < left@.len() {
                    assert(left@[i as int] != e);
                    o.lemma_total(left@[i as int] as int, e as int);
                }
                assert forall|y: int| i <= y < left@.len() implies o.before(e as int, #[trigger] left@[y] as int) by {
                    if y > i {
                        assert(o.before(left@[i as int] as int, left@[y] as int));
                        o.lemma_transitive(e as int, left@[i as int] as int, left@[y] as int);
                    }
                }
                assert forall|y: int| j < y < right@.len() implies o.before(e as int, #[trigger] right@[y] as int) by {}
            }
            out.push(e);
            j = j + 1;
        }
        proof {
            assert(out@ == before_push.push(out@[out@.len() - 1]));
            assert forall|x: int| 0 <= x < i implies #[trigger] out@.contains(left@[x]) by {
                if x < i - 1 || !take_left {
                    assert(before_push.contains(left@[x]));
                    let k = choose|k: int| 0 <= k < before_push.len() && before_push[k] == left@[x];
                    assert(out@[k] == left@[x]);
                } else {
                    assert(out@[out@.len() - 1] == left@[x]);
                }
            }
            assert forall|x: int| 0 <= x < j implies #[trigger] out@.contains(right@[x]) by {
                if x < j - 1 || take_left {
                    assert(before_push.contains(right@[x]));
                    let k = choose|k: int| 0 <= k < before_push.len() && before_push[k] == right@[x];
                    assert(out@[k] == right@[x]);
                } else {
                    assert(out@[out@.len() - 1] == right@[x]);
                }
            }
            assert forall|x: int, y: int| 0 <= x < out@.len() && i <= y < left@.len()
                implies o.before(#[trigger] out@[x] as int, #[trigger] left@[y] as int) by {
                if x < before_push.len() {
                    assert(out@[x] == before_push[x]);
                }
            }
            assert forall|x: int, y: int| 0 <= x < out@.len() && j <= y < right@.len()
                implies o.before(#[trigger] out@[x] as int, #[trigger] right@[y] as int) by {
                if x < before_push.len() {
                    assert(out@[x] == before_push[x]);
                }
            }
            assert forall|a: int, b: int| 0 <= a < b < out@.len()
                implies o.before(#[trigger] out@[a] as int, #[trigger] out@[b] as int) by {
                if b < before_push.len() {
                    assert(out@[a] == before_push[a]);
                    assert(out@[b] == before_push[b]);
                } else {
                    assert(out@[a] == before_push[a]);
                }
            }
        }
    }
    proof {
        assert forall|k: usize| lo <= k < hi implies #[trigger] out@.contains(k) by {
            if k < mid {
                assert(left@.contains(k));
                let x = choose|x: int| 0 <= x < left@.len() && left@[x] == k;
                assert(out@.contains(left@[x]));
            } else {
                assert(right@.contains(k));
                let x = choose|x: int| 0 <= x < right@.len() && right@[x] == k;
                assert(out@.contains(right@[x]));
            }
        }
    }
    out
}

/// The positions `lo..hi` of `o`, sorted by its order (a merge sort).
fn sort_range<O: PositionOrder>(o: &O, lo: usize, hi: usize) -> (out: Vec<usize>)
    requires
        lo <= hi <= o.spec_len(),
    ensures
        sorted_range(o, out@, lo as int, hi as int),
    decreases hi - lo,
{
    if hi - lo <= 1 {
        let mut out: Vec<usize> = Vec::new();
        if hi > lo {
            out.push(lo);
            assert(out@[0] == lo);
        }
        proof {
            assert forall|k: usize| lo <= k < hi implies #[trigger] out@.contains(k) by {
                assert(out@[0] == k);
            }
        }
        out
    } else {
        let mid = lo + (hi - lo) / 2;
        let left = sort_range(o, lo, mid);
        let right = sort_range(o, mid, hi);
        merge(o, left, right, Ghost(lo as int), Ghost(mid as int), Ghost(hi as int))
    }
}

/// The positions `0..n` of `o`, sorted by its order.
pub fn stable_sort_indices<O: PositionOrder>(o: &O) -> (out: Vec<usize>)
    ensures
        is_sorted_permutation(o, out@),
{
    let n = o.count();
    let out = sort_range(o, 0, n);
    proof {
        assert forall|a: int| 0 <= a < out@.len() implies out@[a] < o.spec_len() by {}
    }
    out
}

} // verus!
