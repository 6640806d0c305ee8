//! Stable sorting: the indices of a list in the order of what it holds.

use vstd::prelude::*;

verus! {

/// A type with an order, in which different values may stand at the same place.
pub trait SortKey: Sized {
    /// Whether `self` stands before `other`.
    spec fn lt(&self, other: &Self) -> bool;

    /// The order is one.
    proof fn is_order(a: &Self, b: &Self, c: &Self)
        ensures
            !a.lt(a),
            a.lt(b) && b.lt(c) ==> a.lt(c),
            !a.lt(b) && !b.lt(c) ==> !a.lt(c),
    ;

    /// Whether `self` stands before `other`.
    fn is_before(&self, other: &Self) -> (r: bool)
        ensures
            r == self.lt(other),
    ;
}

/// Whether the item `a` of a list stands before the item `b` of it once the list is sorted:
/// items at the same place keep their order.
pub open spec fn before<K: SortKey>(keys: Seq<K>, a: int, b: int) -> bool {
    keys[a].lt(&keys[b]) || (!keys[b].lt(&keys[a]) && a < b)
}

/// Whether `order` holds the indices of the list `keys` from `lo` up to `hi`, each of them
/// once, in the order of a stable sort.
pub open spec fn is_sorted_range<K: SortKey>(
    keys: Seq<K>,
    lo: int,
    hi: int,
    order: Seq<usize>,
) -> bool {
    &&& order.len() == hi - lo
    &&& forall|i: int| 0 <= i < order.len() ==> lo <= #[trigger] order[i] < hi
    &&& forall|k: int| lo <= k < hi ==> #[trigger] order.contains(k as usize)
    &&& forall|i: int, j: int|
        0 <= i < j < order.len() ==> before(keys, order[i] as int, order[j] as int)
}

/// Whether `order` holds the indices of the list `keys` in the order of a stable sort.
pub open spec fn is_stable_order<K: SortKey>(keys: Seq<K>, order: Seq<usize>) -> bool {
    is_sorted_range(keys, 0, keys.len() as int, order)
}

proof fn lemma_before<K: SortKey>(keys: Seq<K>, a: int, b: int, c: int)
    ensures
        before(keys, a, b) && before(keys, b, c) ==> before(keys, a, c),
        before(keys, a, b) ==> !before(keys, b, a),
        a != b ==> before(keys, a, b) || before(keys, b, a),
        !before(keys, a, a),
{
    K::is_order(&keys[a], &keys[b], &keys[c]);
    K::is_order(&keys[a], &keys[b], &keys[a]);
    K::is_order(&keys[c], &keys[a], &keys[b]);
    K::is_order(&keys[b], &keys[c], &keys[a]);
    K::is_order(&keys[c], &keys[b], &keys[a]);
    K::is_order(&keys[b], &keys[a], &keys[c]);
    K::is_order(&keys[a], &keys[c], &keys[b]);
}

/// Merges the sorted indices of two adjacent ranges.
fn merge<K: SortKey>(
    keys: &Vec<K>,
    left: &Vec<usize>,
    right: &Vec<usize>,
    Ghost(lo): Ghost<int>,
    Ghost(mid): Ghost<int>,
    Ghost(hi): Ghost<int>,
) -> (r: Vec<usize>)
    requires
        0 <= lo <= mid <= hi <= keys@.len(),
        is_sorted_range(keys@, lo, mid, left@),
        is_sorted_range(keys@, mid, hi, right@),
    ensures
        is_sorted_range(keys@, lo, hi, r@),
{
    let mut out: Vec<usize> = Vec::new();
    let mut i: usize = 0;
    let mut j: usize = 0;
    while i < left.len() || j < right.len()
        invariant
            0 <= lo <= mid <= hi <= keys@.len(),
            is_sorted_range(keys@, lo, mid, left@),
            is_sorted_range(keys@, mid, hi, right@),
            i <= left@.len(),
            j <= right@.len(),
            out@.len() == i + j,
            forall|a: int| 0 <= a < out@.len() ==> lo <= #[trigger] out@[a] < hi,
            forall|a: int| 0 <= a < i ==> out@.contains(#[trigger] left@[a]),
            forall|a: int| 0 <= a < j ==> out@.contains(#[trigger] right@[a]),
            forall|a: int, b: int|
                0 <= a < b < out@.len() ==> before(keys@, out@[a] as int, out@[b] as int),
            forall|a: int, b: int|
                0 <= a < out@.len() && i <= b < left@.len() ==> before(
                    keys@,
                    #[trigger] out@[a] as int,
                    #[trigger] left@[b] as int,
                ),
            forall|a: int, b: int|
                0 <= a < out@.len() && j <= b < right@.len() ==> before(
                    keys@,
                    #[trigger] out@[a] as int,
                    #[trigger] right@[b] as int,
                ),
        decreases left@.len() - i + right@.len() - j,
    {
        let take_right = if i == left.len() {
            true
        } else if j == right.len() {
            false
        } else {
            keys[right[j]].is_before(&keys[left[i]])
        };
        let ghost done = out@;
        if take_right {
            let x: usize = right[j];
            proof {
                assert forall|b: int| i <= b < left@.len() implies before(
                    keys@,
                    x as int,
                    #[trigger] left@[b] as int,
                ) by {
                    lemma_before(keys@, x as int, left@[i as int] as int, left@[b] as int);
                }
            }
            out.push(x);
            j += 1;
            assert(forall|a: int| 0 <= a < done.len() ==> out@[a] == done[a]);
            proof {
                assert forall|y: usize| done.contains(y) || y == x implies #[trigger] out@.contains(
                    y,
                ) by {
                    if y == x {
                        assert(out@[done.len() as int] == y);
                    } else {
                        let k = choose|k: int| 0 <= k < done.len() && done[k] == y;
                        assert(out@[k] == y);
                    }
                }
            }
        } else {
            let x: usize = left[i];
            proof {
                assert forall|b: int| j <= b < right@.len() implies before(
                    keys@,
                    x as int,
                    #[trigger] right@[b] as int,
                ) by {
                    lemma_before(keys@, x as int, right@[j as int] as int, right@[b] as int);
                }
            }
            out.push(x);
            i += 1;
            assert(forall|a: int| 0 <= a < done.len() ==> out@[a] == done[a]);
            proof {
                assert forall|y: usize| done.contains(y) || y == x implies #[trigger] out@.contains(
                    y,
                ) by {
                    if y == x {
                        assert(out@[done.len() as int] == y);
                    } else {
                        let k = choose|k: int| 0 <= k < done.len() && done[k] == y;
                        assert(out@[k] == y);
                    }
                }
            }
        }
    }
    proof {
        assert forall|k: int| lo <= k < hi implies #[trigger] out@.contains(k as usize) by {
            if k < mid {
                assert(left@.contains(k as usize));
            } else {
                assert(right@.contains(k as usize));
            }
        }
    }
    out
}

/// Sorts the indices from `lo` up to `hi`.
fn sort_range<K: SortKey>(keys: &Vec<K>, lo: usize, hi: usize) -> (r: Vec<usize>)
    requires
        lo <= hi <= keys@.len(),
    ensures
        is_sorted_range(keys@, lo as int, hi as int, r@),
    decreases hi - lo,
{
    let mut r: Vec<usize> = Vec::new();
    if hi - lo == 0 {
        return r;
    }
    if hi - lo == 1 {
        r.push(lo);
        assert(r@[0] == lo);
        return r;
    }
    let mid: usize = lo + (hi - lo) / 2;
    let left = sort_range(keys, lo, mid);
    let right = sort_range(keys, mid, hi);
    merge(keys, &left, &right, Ghost(lo as int), Ghost(mid as int), Ghost(hi as int))
}

/// The indices of the list `keys` in the order of a stable sort.
pub fn stable_order<K: SortKey>(keys: &Vec<K>) -> (r: Vec<usize>)
    ensures
        is_stable_order(keys@, r@),
{
    sort_range(keys, 0, keys.len())
}

/// A list has one order only: what `is_stable_order` says of it leaves nothing open.
pub proof fn law_stable_order_is_unique<K: SortKey>(keys: Seq<K>, a: Seq<usize>, b: Seq<usize>)
    requires
        keys.len() <= usize::MAX,
        is_stable_order(keys, a),
        is_stable_order(keys, b),
    ensures
        a == b,
{
    assert forall|x: usize| #[trigger] a.contains(x) == b.contains(x) by {
        if a.contains(x) {
            let k = choose|k: int| 0 <= k < a.len() && a[k] == x;
            assert(0 <= a[k] < keys.len());
            assert(b.contains(x as int as usize));
        }
        if b.contains(x) {
            let k = choose|k: int| 0 <= k < b.len() && b[k] == x;
            assert(0 <= b[k] < keys.len());
            assert(a.contains(x as int as usize));
        }
    }
    lemma_same_order(keys, a, b);
}

proof fn lemma_same_order<K: SortKey>(keys: Seq<K>, a: Seq<usize>, b: Seq<usize>)
    requires
        a.len() == b.len(),
        forall|x: usize| #[trigger] a.contains(x) == b.contains(x),
        forall|i: int, j: int| 0 <= i < j < a.len() ==> before(keys, a[i] as int, a[j] as int),
        forall|i: int, j: int| 0 <= i < j < b.len() ==> before(keys, b[i] as int, b[j] as int),
    ensures
        a == b,
    decreases a.len(),
{
    if a.len() == 0 {
        assert(a =~= b);
    } else {
        let fa = a[0];
        let fb = b[0];
        assert(a.contains(fa) == b.contains(fa));
        assert(a.contains(fb) == b.contains(fb));
        assert(a.contains(fa)) by {
            assert(a[0] == fa);
        }
        assert(b.contains(fb)) by {
            assert(b[0] == fb);
        }
        let i = choose|i: int| 0 <= i < a.len() && a[i] == b[0];
        let j = choose|j: int| 0 <= j < b.len() && b[j] == a[0];
        lemma_before(keys, a[0] as int, b[0] as int, a[0] as int);
        assert(a[0] == b[0]);
        let x = a[0];
        let ta = a.skip(1);
        let tb = b.skip(1);
        assert forall|y: usize| #[trigger] ta.contains(y) == tb.contains(y) by {
            lemma_tail(keys, a, y);
            lemma_tail(keys, b, y);
        }
        lemma_same_order(keys, ta, tb);
        assert(a =~= seq![x] + ta);
        assert(b =~= seq![x] + tb);
    }
}

proof fn lemma_tail<K: SortKey>(keys: Seq<K>, a: Seq<usize>, y: usize)
    requires
        a.len() > 0,
        forall|i: int, j: int| 0 <= i < j < a.len() ==> before(keys, a[i] as int, a[j] as int),
    ensures
        a.skip(1).contains(y) == (a.contains(y) && y != a[0]),
{
    if a.skip(1).contains(y) {
        let k = choose|k: int| 0 <= k < a.skip(1).len() && a.skip(1)[k] == y;
        assert(a[k + 1] == y);
        assert(before(keys, a[0] as int, a[k + 1] as int));
        lemma_before(keys, a[0] as int, a[0] as int, a[0] as int);
    }
    if a.contains(y) && y != a[0] {
        let k = choose|k: int| 0 <= k < a.len() && a[k] == y;
        assert(a.skip(1)[k - 1] == y);
    }
}

} // verus!
