//! Weights in a tree of partial sums, so that the position that a sample
//! selects is found, and a weight cleared, in a number of steps that grows
//! with the logarithm of their number.
//!
//! The tree is complete: below the root at position one, the children of
//! the node at position `i` stand at `2 * i` and `2 * i + 1`, and the
//! weights are the leaves, filled up with zeros to a power of two. Every
//! other node holds the sum of its children.

use crate::sum_lemmas::lemma_prefix_sum_agrees;
use crate::weighted_shuffle::{lemma_select_unique, prefix_sum, select, total_weight};
use vstd::prelude::*;

verus! {

/// Two to the power `n`.
pub open spec fn pow2(n: nat) -> nat
    decreases n,
{
    if n == 0 {
        1
    } else {
        2 * pow2((n - 1) as nat)
    }
}

/// The leaves of a tree with `cap` leaves.
pub open spec fn leaves_of(tree: Seq<u64>, cap: int) -> Seq<u64> {
    Seq::new(cap as nat, |k: int| tree[cap + k])
}

/// The sum of the leaves below the node `i`.
pub open spec fn node_sum(leaves: Seq<u64>, i: int) -> nat
    decreases 2 * leaves.len() - i,
{
    if i < 1 || i >= 2 * leaves.len() {
        0
    } else if i >= leaves.len() {
        leaves[i - leaves.len()] as nat
    } else {
        node_sum(leaves, 2 * i) + node_sum(leaves, 2 * i + 1)
    }
}

/// Whether every node from `from` on that has children holds their sum.
pub open spec fn sums_from(tree: Seq<u64>, cap: int, from: int) -> bool {
    forall|j: int| from <= j < cap ==> #[trigger] tree[j] == tree[2 * j] + tree[2 * j + 1]
}

/// A node that holds the sum of its children, as do all nodes after it,
/// holds the sum of the leaves below it.
proof fn lemma_node_holds_sum(tree: Seq<u64>, cap: int, from: int, i: int)
    requires
        1 <= from <= i < 2 * cap,
        tree.len() == 2 * cap,
        sums_from(tree, cap, from),
    ensures
        tree[i] == node_sum(leaves_of(tree, cap), i),
    decreases 2 * cap - i,
{
    if i < cap {
        lemma_node_holds_sum(tree, cap, from, 2 * i);
        lemma_node_holds_sum(tree, cap, from, 2 * i + 1);
    }
}

/// No node sums more than the root.
proof fn lemma_node_sum_below_root(leaves: Seq<u64>, i: int)
    requires
        1 <= i < 2 * leaves.len(),
    ensures
        node_sum(leaves, i) <= node_sum(leaves, 1),
    decreases i,
{
    if i > 1 {
        let parent = i / 2;
        lemma_node_sum_below_root(leaves, parent);
        assert(i == 2 * parent || i == 2 * parent + 1);
    }
}

/// The node `i` of height `h` sums the `pow2(h)` leaves from `lo` on, where
/// `i * pow2(h)` is `lo` leaves past the first leaf.
proof fn lemma_node_sum_is_range(leaves: Seq<u64>, i: int, h: nat, lo: int)
    requires
        i >= 1,
        lo >= 0,
        i * pow2(h) == leaves.len() + lo,
        lo + pow2(h) <= leaves.len(),
    ensures
        node_sum(leaves, i) + prefix_sum(leaves, lo) == prefix_sum(leaves, lo + pow2(h)),
        h > 0 ==> i < leaves.len(),
        h == 0 ==> i == leaves.len() + lo,
    decreases h,
{
    let cap = leaves.len() as int;
    if h == 0 {
        assert(pow2(0) == 1);
        assert(i * 1 == i);
    } else {
        let half = pow2((h - 1) as nat);
        assert(pow2(h) == 2 * half);
        assert(half >= 1) by {
            lemma_pow2_positive((h - 1) as nat);
        }
        assert(i < cap) by (nonlinear_arith)
            requires
                i * (2 * half) == cap + lo,
                lo + 2 * half <= cap,
                half >= 1,
                i >= 1,
        ;
        assert((2 * i) * half == cap + lo) by (nonlinear_arith)
            requires
                i * (2 * half) == cap + lo,
        ;
        assert((2 * i + 1) * half == cap + lo + half) by (nonlinear_arith)
            requires
                i * (2 * half) == cap + lo,
        ;
        lemma_node_sum_is_range(leaves, 2 * i, (h - 1) as nat, lo);
        lemma_node_sum_is_range(leaves, 2 * i + 1, (h - 1) as nat, lo + half);
    }
}

proof fn lemma_pow2_positive(n: nat)
    ensures
        pow2(n) >= 1,
    decreases n,
{
    if n > 0 {
        lemma_pow2_positive((n - 1) as nat);
    }
}

/// Weights in a tree of partial sums. Its view is the weights.
pub struct WeightTree {
    tree: Vec<u64>,
    cap: usize,
    len: usize,
}

impl View for WeightTree {
    type V = Seq<u64>;

    closed spec fn view(&self) -> Seq<u64> {
        leaves_of(self.tree@, self.cap as int).take(self.len as int)
    }
}

impl WeightTree {
    /// Whether the tree is complete and every node holds its sum.
    pub closed spec fn wf(&self) -> bool {
        &&& self.tree@.len() == 2 * self.cap
        &&& 2 * self.cap <= usize::MAX
        &&& self.len <= self.cap
        &&& exists|h: nat| self.cap == pow2(h)
        &&& sums_from(self.tree@, self.cap as int, 1)
        &&& forall|k: int| self.len <= k < self.cap ==> #[trigger] self.tree@[self.cap + k] == 0
    }

    /// The root holds the sum of the weights, and the leaves sum up as the
    /// weights do.
    proof fn lemma_root(&self)
        requires
            self.wf(),
        ensures
            self.cap >= 1,
            self.tree@[1] == total_weight(self@),
            forall|k: int|
                0 <= k <= self.cap ==> #[trigger] prefix_sum(
                    leaves_of(self.tree@, self.cap as int),
                    k,
                ) == prefix_sum(self@, if k <= self.len {
                    k
                } else {
                    self.len as int
                }),
            forall|k: int| 0 <= k < self.len ==> #[trigger] self@[k] == self.tree@[self.cap + k],
    {
        let cap = self.cap as int;
        let leaves = leaves_of(self.tree@, cap);
        let h = choose|h: nat| self.cap == pow2(h);
        lemma_pow2_positive(h);
        lemma_node_holds_sum(self.tree@, cap, 1, 1);
        assert(1 * pow2(h) == pow2(h)) by (nonlinear_arith);
        lemma_node_sum_is_range(leaves, 1, h, 0);
        assert forall|k: int| 0 <= k <= cap implies #[trigger] prefix_sum(leaves, k) == prefix_sum(
            self@,
            if k <= self.len {
                k
            } else {
                self.len as int
            },
        ) by {
            self.lemma_leaves_prefix(k);
        }
    }

    proof fn lemma_leaves_prefix(&self, k: int)
        requires
            self.wf(),
            0 <= k <= self.cap,
        ensures
            prefix_sum(leaves_of(self.tree@, self.cap as int), k) == prefix_sum(
                self@,
                if k <= self.len {
                    k
                } else {
                    self.len as int
                },
            ),
        decreases k,
    {
        let leaves = leaves_of(self.tree@, self.cap as int);
        if k > 0 {
            self.lemma_leaves_prefix(k - 1);
            if k > self.len {
                assert(leaves[k - 1] == 0);
            } else {
                assert(self@[k - 1] == leaves[k - 1]);
            }
        }
    }

    /// The tree of `weights`, whose sum must fit `u64`. There is one
    /// exactly where the weights are no more than a quarter of what `usize`
    /// counts, so that the nodes of their tree can be numbered.
    pub fn new(weights: &Vec<u64>) -> (made: Option<WeightTree>)
        requires
            total_weight(weights@) <= u64::MAX,
        ensures
            made.is_some() <==> weights@.len() <= usize::MAX / 4,
            made matches Some(tree) ==> tree.wf() && tree@ == weights@,
    {
        let len: usize = weights.len();
        if len > usize::MAX / 4 {
            return None;
        }
        let mut cap: usize = 1;
        let ghost mut height: nat = 0;
        while cap < len
            invariant
                cap == pow2(height),
                cap >= 1,
                cap <= 2 * len || cap == 1,
                len <= usize::MAX / 4,
            decreases usize::MAX - cap,
        {
            cap = cap * 2;
            proof {
                height = height + 1;
            }
        }
        let mut tree: Vec<u64> = Vec::with_capacity(2 * cap);
        let mut i: usize = 0;
        while i < cap
            invariant
                i <= cap,
                tree@.len() == i,
                forall|j: int| 0 <= j < i ==> #[trigger] tree@[j] == 0,
            decreases cap - i,
        {
            tree.push(0);
            i = i + 1;
        }
        let mut k: usize = 0;
        while k < cap
            invariant
                k <= cap,
                len <= cap,
                len == weights@.len(),
                tree@.len() == cap + k,
                forall|j: int| 0 <= j < k && j < len ==> #[trigger] tree@[cap + j] == weights@[j],
                forall|j: int| len <= j < k ==> #[trigger] tree@[cap + j] == 0,
            decreases cap - k,
        {
            let weight: u64 = if k < len {
                weights[k]
            } else {
                0
            };
            tree.push(weight);
            k = k + 1;
        }
        let ghost leaves = leaves_of(tree@, cap as int);
        proof {
            assert forall|k: int| len <= k < cap implies leaves[k] == 0 by {
                assert(tree@[cap + k] == 0);
            }
            assert forall|k: int| 0 <= k < len implies leaves[k] == weights@[k] by {
                assert(tree@[cap + k] == weights@[k]);
            }
            assert(leaves.take(len as int) =~= weights@);
            assert(total_weight(leaves) == total_weight(weights@)) by {
                lemma_padded_total(leaves, weights@);
            }
            assert(1 * pow2(height) == pow2(height)) by (nonlinear_arith);
            lemma_node_sum_is_range(leaves, 1, height, 0);
        }
        let mut i: usize = cap;
        while i > 1
            invariant
                1 <= i <= cap,
                2 * cap <= usize::MAX,
                len <= cap,
                cap == pow2(height),
                tree@.len() == 2 * cap,
                leaves == leaves_of(tree@, cap as int),
                leaves.take(len as int) == weights@,
                forall|k: int| len <= k < cap ==> leaves[k] == 0,
                sums_from(tree@, cap as int, i as int),
                node_sum(leaves, 1) <= u64::MAX,
            decreases i,
        {
            i = i - 1;
            proof {
                lemma_node_holds_sum(tree@, cap as int, i + 1, 2 * i);
                lemma_node_holds_sum(tree@, cap as int, i + 1, 2 * i + 1);
                lemma_node_sum_below_root(leaves, i as int);
            }
            let sum: u64 = tree[2 * i] + tree[2 * i + 1];
            tree.set(i, sum);
            proof {
                assert(leaves_of(tree@, cap as int) =~= leaves);
            }
        }
        let made = WeightTree { tree, cap, len };
        proof {
            assert(made@ =~= weights@);
            assert forall|k: int| len <= k < cap implies #[trigger] made.tree@[cap + k] == 0 by {
                assert(leaves[k] == 0);
            }
        }
        Some(made)
    }

    /// The sum of the weights.
    pub fn total(&self) -> (total: u64)
        requires
            self.wf(),
        ensures
            total == total_weight(self@),
    {
        proof {
            self.lemma_root();
        }
        self.tree[1]
    }

    /// The position that `sample` selects, which must be below the sum of
    /// the weights.
    pub fn select(&self, sample: u64) -> (k: usize)
        requires
            self.wf(),
            sample < total_weight(self@),
        ensures
            k == select(self@, sample as nat),
            k < self@.len(),
    {
        let ghost leaves = leaves_of(self.tree@, self.cap as int);
        let ghost mut height: nat = choose|h: nat| self.cap == pow2(h);
        let ghost mut lo: int = 0;
        proof {
            self.lemma_root();
            assert(prefix_sum(leaves, self.cap as int) == total_weight(self@));
            assert(1 * pow2(height) == pow2(height)) by (nonlinear_arith);
        }
        let mut i: usize = 1;
        let mut left: u64 = sample;
        while i < self.cap
            invariant
                self.wf(),
                2 * self.cap <= usize::MAX,
                leaves == leaves_of(self.tree@, self.cap as int),
                1 <= i < 2 * self.cap,
                lo >= 0,
                i * pow2(height) == self.cap + lo,
                lo + pow2(height) <= self.cap,
                left + prefix_sum(leaves, lo) == sample,
                sample < prefix_sum(leaves, lo + pow2(height)),
            decreases 2 * self.cap - i,
        {
            proof {
                lemma_node_sum_is_range(leaves, i as int, height, lo);
                let half = pow2((height - 1) as nat);
                assert(pow2(height) == 2 * half);
                assert((2 * i) * half == self.cap + lo) by (nonlinear_arith)
                    requires
                        i * (2 * half) == self.cap + lo,
                ;
                assert((2 * i + 1) * half == self.cap + lo + half) by (nonlinear_arith)
                    requires
                        i * (2 * half) == self.cap + lo,
                ;
                lemma_node_holds_sum(self.tree@, self.cap as int, 1, 2 * i);
                lemma_node_sum_is_range(leaves, 2 * i, (height - 1) as nat, lo);
            }
            let below: u64 = self.tree[2 * i];
            if left < below {
                i = 2 * i;
            } else {
                left = left - below;
                i = 2 * i + 1;
                proof {
                    lo = lo + pow2((height - 1) as nat);
                }
            }
            proof {
                height = (height - 1) as nat;
            }
        }
        proof {
            lemma_node_sum_is_range(leaves, i as int, height, lo);
            assert(pow2(0) == 1);
            assert(leaves[lo] > 0);
            self.lemma_leaves_prefix(lo);
            self.lemma_leaves_prefix(lo + 1);
            lemma_select_unique(self@, sample as nat, lo);
        }
        i - self.cap
    }

    /// The weight at `k`.
    pub fn weight(&self, k: usize) -> (weight: u64)
        requires
            self.wf(),
            k < self@.len(),
        ensures
            weight == self@[k as int],
    {
        self.tree[self.cap + k]
    }

    /// Sets the weight at `k` to zero.
    pub fn clear(&mut self, k: usize)
        requires
            old(self).wf(),
            k < old(self)@.len(),
        ensures
            final(self).wf(),
            final(self)@ == old(self)@.update(k as int, 0),
    {
        let cap: usize = self.cap;
        let ghost before = self.tree@;
        let mut i: usize = cap + k;
        self.tree.set(i, 0);
        while i > 1
            invariant
                1 <= i < 2 * cap,
                2 * cap <= usize::MAX,
                exists|h: nat| cap == pow2(h),
                cap == self.cap,
                self.len == old(self).len,
                k < self.len <= cap,
                self.tree@.len() == 2 * cap,
                before.len() == 2 * cap,
                sums_from(before, cap as int, 1),
                forall|j: int| 0 <= j < 2 * cap ==> #[trigger] self.tree@[j] <= before[j],
                forall|j: int|
                    1 <= j < cap && j != i / 2 ==> #[trigger] self.tree@[j] == self.tree@[2 * j]
                        + self.tree@[2 * j + 1],
                forall|j: int|
                    0 <= j < cap ==> #[trigger] self.tree@[cap + j] == if j == k {
                        0
                    } else {
                        before[cap + j]
                    },
            decreases i,
        {
            i = i / 2;
            assert(before[i as int] == before[2 * i] + before[2 * i + 1]);
            let sum: u64 = self.tree[2 * i] + self.tree[2 * i + 1];
            self.tree.set(i, sum);
        }
        proof {
            assert(self@ =~= old(self)@.update(k as int, 0));
        }
    }
}

/// Leaves that are the weights, followed by zeros, sum to what the weights
/// sum to.
proof fn lemma_padded_total(leaves: Seq<u64>, weights: Seq<u64>)
    requires
        weights.len() <= leaves.len(),
        forall|k: int| 0 <= k < weights.len() ==> leaves[k] == weights[k],
        forall|k: int| weights.len() <= k < leaves.len() ==> leaves[k] == 0,
    ensures
        total_weight(leaves) == total_weight(weights),
{
    lemma_prefix_sum_agrees(leaves, weights, weights.len() as int);
    lemma_zero_tail(leaves, weights.len() as int, leaves.len() as int);
}

proof fn lemma_zero_tail(leaves: Seq<u64>, from: int, upto: int)
    requires
        0 <= from <= upto <= leaves.len(),
        forall|k: int| from <= k < leaves.len() ==> leaves[k] == 0,
    ensures
        prefix_sum(leaves, upto) == prefix_sum(leaves, from),
    decreases upto - from,
{
    if from < upto {
        lemma_zero_tail(leaves, from, upto - 1);
    }
}

} // verus!
