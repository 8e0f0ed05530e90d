//! Facts about sums of weights.

use crate::weighted_shuffle::{prefix_sum, total_weight};
use vstd::prelude::*;

verus! {

/// Prefix sums look at the prefix only.
pub proof fn lemma_prefix_sum_agrees(a: Seq<u64>, b: Seq<u64>, k: int)
    requires
        0 <= k <= a.len(),
        k <= b.len(),
        forall|i: int| 0 <= i < k ==> a[i] == b[i],
    ensures
        prefix_sum(a, k) == prefix_sum(b, k),
    decreases k,
{
    if k > 0 {
        lemma_prefix_sum_agrees(a, b, k - 1);
    }
}

/// Weights that are nowhere larger sum to no more.
pub proof fn lemma_sum_pointwise(a: Seq<u64>, b: Seq<u64>, k: int)
    requires
        0 <= k <= a.len(),
        a.len() == b.len(),
        forall|i: int| 0 <= i < a.len() ==> a[i] <= b[i],
    ensures
        prefix_sum(a, k) <= prefix_sum(b, k),
    decreases k,
{
    if k > 0 {
        lemma_sum_pointwise(a, b, k - 1);
    }
}

/// Weights of at most one sum to at most their number; weights of exactly
/// one to exactly their number; weights of zero to zero.
pub proof fn lemma_sum_small(a: Seq<u64>, k: int)
    requires
        0 <= k <= a.len(),
    ensures
        (forall|i: int| 0 <= i < a.len() ==> a[i] <= 1) ==> prefix_sum(a, k) <= k,
        (forall|i: int| 0 <= i < a.len() ==> a[i] == 1) ==> prefix_sum(a, k) == k,
        (forall|i: int| 0 <= i < a.len() ==> a[i] == 0) ==> prefix_sum(a, k) == 0,
    decreases k,
{
    if k > 0 {
        lemma_sum_small(a, k - 1);
    }
}

/// Raising every weight by at most one raises the sum by at most their
/// number.
pub proof fn lemma_sum_raised(a: Seq<u64>, b: Seq<u64>, k: int)
    requires
        0 <= k <= a.len(),
        a.len() == b.len(),
        forall|i: int| 0 <= i < a.len() ==> a[i] <= b[i] + 1,
    ensures
        prefix_sum(a, k) <= prefix_sum(b, k) + k,
    decreases k,
{
    if k > 0 {
        lemma_sum_raised(a, b, k - 1);
    }
}

/// Changing one weight changes the sum by the difference.
pub proof fn lemma_sum_update(a: Seq<u64>, at: int, weight: u64, k: int)
    requires
        0 <= at < a.len(),
        0 <= k <= a.len(),
    ensures
        prefix_sum(a.update(at, weight), k) + (if at < k {
            a[at] as int
        } else {
            0
        }) == prefix_sum(a, k) + (if at < k {
            weight as int
        } else {
            0
        }),
    decreases k,
{
    if k > 0 {
        lemma_sum_update(a, at, weight, k - 1);
    }
}

/// One more weight at the end adds it to the sum.
pub proof fn lemma_sum_push(a: Seq<u64>, weight: u64)
    ensures
        total_weight(a.push(weight)) == total_weight(a) + weight,
{
    lemma_prefix_sum_agrees(a, a.push(weight), a.len() as int);
}

/// Taking one weight out lowers the sum by it.
pub proof fn lemma_sum_remove(a: Seq<u64>, at: int)
    requires
        0 <= at < a.len(),
    ensures
        total_weight(a.remove(at)) + a[at] == total_weight(a),
    decreases a.len(),
{
    let rest = a.remove(at);
    if at == a.len() - 1 {
        assert(rest == a.drop_last());
        lemma_prefix_sum_agrees(rest, a, rest.len() as int);
    } else {
        let shorter = a.drop_last();
        lemma_sum_remove(shorter, at);
        assert(shorter.remove(at) == rest.drop_last());
        lemma_prefix_sum_agrees(shorter, a, shorter.len() as int);
        lemma_prefix_sum_agrees(rest.drop_last(), rest, rest.len() - 1);
        assert(rest.last() == a.last());
    }
}

/// Values that are charged to distinct places, none above what its place
/// holds, sum to no more than the places hold. A value of zero needs no
/// place; it has the place `-1`.
pub proof fn lemma_charged_sum(values: Seq<u64>, places: Seq<int>, caps: Seq<u64>)
    requires
        places.len() == values.len(),
        forall|k: int|
            0 <= k < values.len() ==> (values[k] == 0 && #[trigger] places[k] == -1) || (0
                <= places[k] < caps.len() && values[k] <= caps[places[k]]),
        forall|a: int, b: int|
            0 <= a < b < values.len() && places[a] >= 0 ==> #[trigger] places[a]
                != #[trigger] places[b],
    ensures
        total_weight(values) <= total_weight(caps),
    decreases caps.len(),
{
    if caps.len() == 0 {
        assert forall|i: int| 0 <= i < values.len() implies values[i] == 0 by {
            assert(places[i] == -1);
        }
        lemma_sum_small(values, values.len() as int);
    } else {
        let top = caps.len() - 1;
        let fewer = caps.drop_last();
        lemma_prefix_sum_agrees(fewer, caps, top);
        if exists|k: int| 0 <= k < values.len() && #[trigger] places[k] == top {
            let k = choose|k: int| 0 <= k < values.len() && #[trigger] places[k] == top;
            let v = values.remove(k);
            let p = places.remove(k);
            lemma_sum_remove(values, k);
            assert forall|i: int| 0 <= i < v.len() implies (v[i] == 0 && #[trigger] p[i] == -1) || (0
                <= p[i] < fewer.len() && v[i] <= fewer[p[i]]) by {
                let o = if i < k {
                    i
                } else {
                    i + 1
                };
                assert(v[i] == values[o] && p[i] == places[o]);
                if o < k {
                    assert(places[o] >= 0 ==> places[o] != places[k]);
                } else {
                    assert(places[k] != places[o]);
                }
            }
            assert forall|a: int, b: int| 0 <= a < b < v.len() && p[a] >= 0 implies #[trigger] p[a]
                != #[trigger] p[b] by {
                let oa = if a < k {
                    a
                } else {
                    a + 1
                };
                let ob = if b < k {
                    b
                } else {
                    b + 1
                };
                assert(p[a] == places[oa] && p[b] == places[ob]);
            }
            lemma_charged_sum(v, p, fewer);
        } else {
            assert forall|i: int| 0 <= i < values.len() implies (values[i] == 0
                && #[trigger] places[i] == -1) || (0 <= places[i] < fewer.len() && values[i]
                <= fewer[places[i]]) by {
                assert(places[i] != top);
            }
            lemma_charged_sum(values, places, fewer);
        }
    }
}

} // verus!
