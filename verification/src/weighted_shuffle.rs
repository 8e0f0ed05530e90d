//! Stake-weighted sampling and shuffling, driven by a seeded generator.
//!
//! A shuffle draws positions one after another without replacement, each
//! with probability proportional to its weight among those that are left.
//! Every draw is a function of the seed alone, so all nodes agree on the
//! order.

use crate::rng::{gen_range_u64, rng_state, seeded_rng, RngState};
use crate::weight_tree::WeightTree;
use rand_chacha::ChaCha20Rng;
use vstd::prelude::*;

verus! {

/// The sum of the first `k` weights.
pub open spec fn prefix_sum(weights: Seq<u64>, k: int) -> nat
    decreases k,
{
    if k <= 0 || k > weights.len() {
        0
    } else {
        prefix_sum(weights, k - 1) + weights[k - 1] as nat
    }
}

/// The sum of all weights.
pub open spec fn total_weight(weights: Seq<u64>) -> nat {
    prefix_sum(weights, weights.len() as int)
}

/// The first position at or after `k` up to which the weights sum to more
/// than `sample`; the length where there is none.
pub open spec fn select_from(weights: Seq<u64>, sample: nat, k: int) -> int
    decreases weights.len() - k,
{
    if k < 0 || k >= weights.len() {
        weights.len() as int
    } else if prefix_sum(weights, k + 1) > sample {
        k
    } else {
        select_from(weights, sample, k + 1)
    }
}

/// The position that `sample` selects: each position owns as many
/// consecutive sample values as its weight, in order of position.
pub open spec fn select(weights: Seq<u64>, sample: nat) -> int {
    select_from(weights, sample, 0)
}

/// The first position at or after `k` whose entry exceeds `sample`; the
/// length where there is none.
pub open spec fn first_above_from(cumulative: Seq<u64>, sample: u64, k: int) -> int
    decreases cumulative.len() - k,
{
    if k < 0 || k >= cumulative.len() {
        cumulative.len() as int
    } else if cumulative[k] > sample {
        k
    } else {
        first_above_from(cumulative, sample, k + 1)
    }
}

/// The first position whose entry exceeds `sample`.
pub open spec fn first_above(cumulative: Seq<u64>, sample: u64) -> int {
    first_above_from(cumulative, sample, 0)
}

/// Whether no entry is smaller than the one before it.
pub open spec fn nondecreasing(cumulative: Seq<u64>) -> bool {
    forall|i: int, j: int| 0 <= i <= j < cumulative.len() ==> cumulative[i] <= cumulative[j]
}

/// Whether `order` lists each of `0..n` exactly once.
pub open spec fn is_permutation(order: Seq<usize>, n: nat) -> bool {
    &&& order.len() == n
    &&& forall|i: int| 0 <= i < order.len() ==> (#[trigger] order[i]) < n
    &&& forall|i: int, j: int| 0 <= i < j < order.len() ==> order[i] != order[j]
    &&& forall|k: usize| k < n ==> #[trigger] order.contains(k)
}

pub proof fn lemma_prefix_sum_monotone(weights: Seq<u64>, i: int, j: int)
    requires
        0 <= i <= j <= weights.len(),
    ensures
        prefix_sum(weights, i) <= prefix_sum(weights, j),
    decreases j - i,
{
    if i < j {
        lemma_prefix_sum_monotone(weights, i, j - 1);
    }
}

/// Clearing one weight lowers every later prefix sum by that weight.
pub proof fn lemma_prefix_sum_update(weights: Seq<u64>, k: int, j: int)
    requires
        0 <= k < weights.len(),
        0 <= j <= weights.len(),
    ensures
        prefix_sum(weights.update(k, 0), j) == if k < j {
            (prefix_sum(weights, j) - weights[k]) as nat
        } else {
            prefix_sum(weights, j)
        },
        k < j ==> prefix_sum(weights, j) >= weights[k],
    decreases j,
{
    if j > 0 {
        lemma_prefix_sum_update(weights, k, j - 1);
    }
}

/// What `select_from` returns is the first position from `k` on whose
/// prefix sum exceeds the sample.
pub proof fn lemma_select_from(weights: Seq<u64>, sample: nat, k: int)
    requires
        0 <= k <= weights.len(),
    ensures
        k <= select_from(weights, sample, k) <= weights.len(),
        select_from(weights, sample, k) < weights.len() ==> prefix_sum(
            weights,
            select_from(weights, sample, k) + 1,
        ) > sample,
        forall|j: int|
            k < j <= select_from(weights, sample, k) ==> #[trigger] prefix_sum(weights, j) <= sample,
    decreases weights.len() - k,
{
    if k < weights.len() && prefix_sum(weights, k + 1) <= sample {
        lemma_select_from(weights, sample, k + 1);
    }
}

/// A sample below the total selects a position of positive weight, and the
/// samples that select it are those from the sum before it up to the sum
/// that includes it.
pub proof fn lemma_select(weights: Seq<u64>, sample: nat)
    requires
        sample < total_weight(weights),
    ensures
        0 <= select(weights, sample) < weights.len(),
        weights[select(weights, sample)] > 0,
        prefix_sum(weights, select(weights, sample)) <= sample < prefix_sum(
            weights,
            select(weights, sample) + 1,
        ),
{
    lemma_select_from(weights, sample, 0);
    let k = select(weights, sample);
    if k > 0 {
        assert(prefix_sum(weights, k) <= sample);
    }
}

/// A position is the selected one if its own prefix sums bracket the sample.
pub proof fn lemma_select_unique(weights: Seq<u64>, sample: nat, k: int)
    requires
        0 <= k < weights.len(),
        prefix_sum(weights, k) <= sample < prefix_sum(weights, k + 1),
    ensures
        select(weights, sample) == k,
{
    lemma_select_from(weights, sample, 0);
    let s = select(weights, sample);
    if s < k {
        lemma_prefix_sum_monotone(weights, s + 1, k);
    } else if s > k {
        assert(prefix_sum(weights, k + 1) <= sample);
    }
}

pub proof fn lemma_first_above_from(cumulative: Seq<u64>, sample: u64, k: int)
    requires
        0 <= k <= cumulative.len(),
    ensures
        k <= first_above_from(cumulative, sample, k) <= cumulative.len(),
        first_above_from(cumulative, sample, k) < cumulative.len() ==> cumulative[first_above_from(
            cumulative,
            sample,
            k,
        )] > sample,
        forall|j: int|
            k <= j < first_above_from(cumulative, sample, k) ==> #[trigger] cumulative[j] <= sample,
    decreases cumulative.len() - k,
{
    if k < cumulative.len() && cumulative[k] <= sample {
        lemma_first_above_from(cumulative, sample, k + 1);
    }
}

/// In a table that never decreases, the first entry above the sample is the
/// one whose predecessor, if any, is not above it.
pub proof fn lemma_first_above_unique(cumulative: Seq<u64>, sample: u64, k: int)
    requires
        nondecreasing(cumulative),
        0 <= k < cumulative.len(),
        cumulative[k] > sample,
        k == 0 || cumulative[k - 1] <= sample,
    ensures
        first_above(cumulative, sample) == k,
{
    lemma_first_above_from(cumulative, sample, 0);
    let f = first_above(cumulative, sample);
    if f > k {
        assert(cumulative[k] <= sample);
    } else if f < k {
        assert(cumulative[f] <= cumulative[k - 1]);
    }
}

/// Where a search by halving ends between `lo` and `hi`: at a position
/// whose entry is above `sample` while the entry before it is not, given
/// that this holds of `lo` and `hi` at the start. In a table that never
/// decreases that is the first entry above `sample`.
pub open spec fn bisect(cumulative: Seq<u64>, sample: u64, lo: int, hi: int) -> int
    decreases hi - lo,
{
    if lo + 1 < hi {
        let middle = lo + (hi - lo) / 2;
        if cumulative[middle] <= sample {
            bisect(cumulative, sample, middle, hi)
        } else {
            bisect(cumulative, sample, lo, middle)
        }
    } else if sample < cumulative[lo] {
        lo
    } else {
        hi
    }
}

/// A search by halving ends at an entry above the sample whose predecessor,
/// if any, is not above it; in a table that never decreases, at the first
/// entry above the sample.
pub proof fn lemma_bisect(cumulative: Seq<u64>, sample: u64, lo: int, hi: int)
    requires
        0 <= lo <= hi < cumulative.len(),
        lo == 0 || cumulative[lo] <= sample,
        cumulative[hi] > sample,
    ensures
        lo <= bisect(cumulative, sample, lo, hi) <= hi,
        cumulative[bisect(cumulative, sample, lo, hi)] > sample,
        bisect(cumulative, sample, lo, hi) == 0 || cumulative[bisect(cumulative, sample, lo, hi)
            - 1] <= sample,
        nondecreasing(cumulative) ==> bisect(cumulative, sample, lo, hi) == first_above(
            cumulative,
            sample,
        ),
    decreases hi - lo,
{
    if lo + 1 < hi {
        let middle = lo + (hi - lo) / 2;
        if cumulative[middle] <= sample {
            lemma_bisect(cumulative, sample, middle, hi);
        } else {
            lemma_bisect(cumulative, sample, lo, middle);
        }
    }
    if nondecreasing(cumulative) {
        lemma_first_above_unique(cumulative, sample, bisect(cumulative, sample, lo, hi));
    }
}

/// What a single draw from a cumulative table yields, and the state of the
/// generator afterwards: nothing, and no draw, where the table is empty or
/// ends in zero; else the position at which a search by halving ends for a
/// uniform draw below the last entry.
pub open spec fn sample_single_spec(state: RngState, cumulative: Seq<u64>) -> (
    Option<int>,
    RngState,
) {
    if cumulative.len() == 0 || cumulative.last() == 0 {
        (None, state)
    } else {
        (
            Some(bisect(cumulative, state.drawn(0, cumulative.last()), 0, cumulative.len() - 1)),
            state.after_draw(0, cumulative.last()),
        )
    }
}

/// Draws one position from a table of cumulative weights.
///
/// Returns `None`, without drawing, exactly where the table is empty or its
/// last entry is zero. Otherwise one value is drawn uniformly below the last
/// entry and a binary search finds a position whose entry is above the draw
/// while the entry before it is not; in a table that never decreases that is
/// the first entry above the draw.
pub fn weighted_sample_single(rng: &mut ChaCha20Rng, cumulative_weights: &Vec<u64>) -> (picked:
    Option<usize>)
    ensures
        picked.is_none() <==> (cumulative_weights@.len() == 0 || cumulative_weights@.last() == 0),
        rng_state(*final(rng)) == sample_single_spec(rng_state(*old(rng)), cumulative_weights@).1,
        picked matches Some(k) ==> {
            let sample = rng_state(*old(rng)).drawn(0, cumulative_weights@.last());
            &&& k < cumulative_weights@.len()
            &&& cumulative_weights@[k as int] > sample
            &&& k == 0 || cumulative_weights@[k - 1] <= sample
        },
        (match picked {
            Some(k) => Some(k as int),
            None => None,
        }) == sample_single_spec(rng_state(*old(rng)), cumulative_weights@).0,
        nondecreasing(cumulative_weights@) ==> (picked matches Some(k) ==> k == first_above(
            cumulative_weights@,
            rng_state(*old(rng)).drawn(0, cumulative_weights@.last()),
        )),
{
    let len: usize = cumulative_weights.len();
    if len == 0 {
        return None;
    }
    let high: u64 = cumulative_weights[len - 1];
    if high == 0 {
        return None;
    }
    let sample: u64 = gen_range_u64(rng, 0, high);
    let mut lo: usize = 0;
    let mut hi: usize = len - 1;
    while lo + 1 < hi
        invariant
            lo <= hi < len,
            len == cumulative_weights@.len(),
            lo == 0 || cumulative_weights@[lo as int] <= sample,
            cumulative_weights@[hi as int] > sample,
            bisect(cumulative_weights@, sample, lo as int, hi as int) == bisect(
                cumulative_weights@,
                sample,
                0,
                len - 1,
            ),
        decreases hi - lo,
    {
        let k: usize = lo + (hi - lo) / 2;
        if cumulative_weights[k] <= sample {
            lo = k;
        } else {
            hi = k;
        }
    }
    let k: usize = if sample < cumulative_weights[lo] {
        lo
    } else {
        hi
    };
    proof {
        if nondecreasing(cumulative_weights@) {
            lemma_first_above_unique(cumulative_weights@, sample, k as int);
        }
    }
    Some(k)
}


/// Clearing the selected weight lowers the total.
pub proof fn lemma_clear_selected(weights: Seq<u64>, k: int)
    requires
        0 <= k < weights.len(),
    ensures
        total_weight(weights.update(k, 0)) == total_weight(weights) - weights[k],
        total_weight(weights) >= weights[k],
{
    lemma_prefix_sum_update(weights, k, weights.len() as int);
}

/// The order in which successive draws take the positions of positive
/// weight, and the state of the generator afterwards.
///
/// While weight is left, one value is drawn uniformly below the total that
/// is left; the position that the value selects comes next and its weight is
/// cleared. Positions of weight zero are never taken. A total beyond `u64`
/// yields nothing.
pub open spec fn shuffle_spec(state: RngState, weights: Seq<u64>) -> (Seq<usize>, RngState)
    decreases total_weight(weights),
{
    let total = total_weight(weights);
    if total == 0 || total > u64::MAX {
        (Seq::empty(), state)
    } else {
        let k = select(weights, state.drawn(0, total as u64) as nat);
        proof {
            lemma_select(weights, state.drawn(0, total as u64) as nat);
            lemma_clear_selected(weights, k);
        }
        let rest = shuffle_spec(state.after_draw(0, total as u64), weights.update(k, 0));
        (seq![k as usize] + rest.0, rest.1)
    }
}

/// A shuffle lists positions of positive weight only, and none twice.
pub proof fn lemma_shuffle_sound(state: RngState, weights: Seq<u64>)
    requires
        weights.len() <= usize::MAX,
    ensures
        forall|i: int|
            0 <= i < shuffle_spec(state, weights).0.len() ==> {
                &&& (#[trigger] shuffle_spec(state, weights).0[i]) < weights.len()
                &&& weights[shuffle_spec(state, weights).0[i] as int] > 0
            },
        shuffle_spec(state, weights).0.no_duplicates(),
    decreases total_weight(weights),
{
    let total = total_weight(weights);
    if total == 0 || total > u64::MAX {
    } else {
        let k = select(weights, state.drawn(0, total as u64) as nat);
        lemma_select(weights, state.drawn(0, total as u64) as nat);
        lemma_clear_selected(weights, k);
        let cleared = weights.update(k, 0);
        let next = state.after_draw(0, total as u64);
        lemma_shuffle_sound(next, cleared);
        let rest = shuffle_spec(next, cleared).0;
        let all = shuffle_spec(state, weights).0;
        assert(all == seq![k as usize] + rest);
        assert forall|i: int| 0 <= i < all.len() implies (#[trigger] all[i]) < weights.len()
            && weights[all[i] as int] > 0 by {
            if i > 0 {
                assert(all[i] == rest[i - 1]);
                assert(cleared[rest[i - 1] as int] > 0);
            }
        }
        assert forall|i: int, j: int| 0 <= i < all.len() && 0 <= j < all.len() && i != j implies all[i]
            != all[j] by {
            if i > 0 {
                assert(all[i] == rest[i - 1]);
                assert(cleared[rest[i - 1] as int] > 0);
            }
            if j > 0 {
                assert(all[j] == rest[j - 1]);
                assert(cleared[rest[j - 1] as int] > 0);
            }
        }
    }
}

/// A shuffle of weights whose total fits `u64` lists every position of
/// positive weight.
pub proof fn lemma_shuffle_complete(state: RngState, weights: Seq<u64>, k: usize)
    requires
        total_weight(weights) <= u64::MAX,
        weights.len() <= usize::MAX,
        k < weights.len(),
        weights[k as int] > 0,
    ensures
        shuffle_spec(state, weights).0.contains(k),
    decreases total_weight(weights),
{
    let total = total_weight(weights);
    lemma_clear_selected(weights, k as int);
    let sample = state.drawn(0, total as u64);
    lemma_select(weights, sample as nat);
    let s = select(weights, sample as nat);
    lemma_clear_selected(weights, s);
    let cleared = weights.update(s, 0);
    let next = state.after_draw(0, total as u64);
    let rest = shuffle_spec(next, cleared).0;
    let all = shuffle_spec(state, weights).0;
    assert(all == seq![s as usize] + rest);
    if s == k {
        assert(all[0] == k);
    } else {
        lemma_shuffle_complete(next, cleared, k);
        let i = choose|i: int| 0 <= i < rest.len() && rest[i] == k;
        assert(all[i + 1] == k);
    }
}

/// A list without repeats that holds every number below `n`, and no other,
/// has length `n`.
pub proof fn lemma_full_list_length(order: Seq<usize>, n: nat)
    requires
        n <= usize::MAX,
        order.no_duplicates(),
        forall|i: int| 0 <= i < order.len() ==> (#[trigger] order[i]) < n,
        forall|k: usize| k < n ==> #[trigger] order.contains(k),
    ensures
        order.len() == n,
    decreases n,
{
    if n == 0 {
        if order.len() > 0 {
            assert(order[0] < n);
        }
    } else {
        let top = (n - 1) as usize;
        assert(order.contains(top));
        let p = choose|p: int| 0 <= p < order.len() && order[p] == top;
        let rest = order.remove(p);
        assert forall|i: int| 0 <= i < rest.len() implies (#[trigger] rest[i]) < (n - 1) as nat by {
            if i < p {
                assert(rest[i] == order[i]);
            } else {
                assert(rest[i] == order[i + 1]);
            }
        }
        assert forall|i: int, j: int| 0 <= i < rest.len() && 0 <= j < rest.len() && i != j implies rest[i]
            != rest[j] by {
            let oi = if i < p { i } else { i + 1 };
            let oj = if j < p { j } else { j + 1 };
            assert(rest[i] == order[oi]);
            assert(rest[j] == order[oj]);
        }
        assert forall|k: usize| k < (n - 1) as nat implies #[trigger] rest.contains(k) by {
            assert(order.contains(k));
            let q = choose|q: int| 0 <= q < order.len() && order[q] == k;
            if q < p {
                assert(rest[q] == k);
            } else {
                assert(rest[q - 1] == k);
            }
        }
        lemma_full_list_length(rest, (n - 1) as nat);
    }
}


/// One for each weight that is zero, zero for every other: the weights by
/// which the positions that a weighted shuffle leaves out are shuffled
/// uniformly.
pub open spec fn zero_marks(weights: Seq<u64>) -> Seq<u64> {
    Seq::new(
        weights.len(),
        |i: int|
            if weights[i] == 0 {
                1u64
            } else {
                0u64
            },
    )
}

/// The weights of a list of `(weight, index)` pairs.
pub open spec fn pair_weights(pairs: Seq<(u64, usize)>) -> Seq<u64> {
    Seq::new(pairs.len(), |i: int| pairs[i].0)
}

/// The permutation that a seed gives to weighted positions: first the
/// positions of positive weight, by successive weighted draws; then, from
/// the same generator, those of weight zero, by successive uniform draws.
pub open spec fn weighted_shuffle_spec(weights: Seq<u64>, seed: Seq<u8>) -> Seq<usize> {
    let first = shuffle_spec(RngState::seeded(seed), weights);
    let second = shuffle_spec(first.1, zero_marks(weights));
    first.0 + second.0
}

/// The index that a seed selects from `(weight, index)` pairs: that of the
/// pair which the weighted shuffle of the weights puts first; zero where
/// there is no pair.
pub open spec fn weighted_best_spec(pairs: Seq<(u64, usize)>, seed: Seq<u8>) -> usize {
    if pairs.len() == 0 {
        0
    } else {
        pairs[weighted_shuffle_spec(pair_weights(pairs), seed)[0] as int].1
    }
}

pub proof fn lemma_zero_marks_total(weights: Seq<u64>, k: int)
    requires
        0 <= k <= weights.len(),
    ensures
        prefix_sum(zero_marks(weights), k) <= k,
    decreases k,
{
    if k > 0 {
        lemma_zero_marks_total(weights, k - 1);
    }
}

/// The weighted shuffle of `n` weights whose total fits `u64` lists each of
/// `0..n` exactly once.
pub proof fn lemma_weighted_shuffle_is_permutation(weights: Seq<u64>, seed: Seq<u8>)
    requires
        total_weight(weights) <= u64::MAX,
        weights.len() <= usize::MAX,
    ensures
        is_permutation(weighted_shuffle_spec(weights, seed), weights.len()),
{
    let first = shuffle_spec(RngState::seeded(seed), weights);
    let marks = zero_marks(weights);
    let second = shuffle_spec(first.1, marks);
    let all = weighted_shuffle_spec(weights, seed);
    lemma_zero_marks_total(weights, weights.len() as int);
    lemma_shuffle_sound(RngState::seeded(seed), weights);
    lemma_shuffle_sound(first.1, marks);
    assert forall|i: int| 0 <= i < all.len() implies (#[trigger] all[i]) < weights.len() by {
        if i >= first.0.len() {
            assert(all[i] == second.0[i - first.0.len()]);
        }
    }
    assert forall|i: int, j: int| 0 <= i < all.len() && 0 <= j < all.len() && i != j implies all[i]
        != all[j] by {
        let n = first.0.len();
        if i >= n {
            assert(all[i] == second.0[i - n]);
            assert(marks[second.0[i - n] as int] > 0);
        }
        if j >= n {
            assert(all[j] == second.0[j - n]);
            assert(marks[second.0[j - n] as int] > 0);
        }
    }
    assert forall|k: usize| k < weights.len() implies #[trigger] all.contains(k) by {
        if weights[k as int] > 0 {
            lemma_shuffle_complete(RngState::seeded(seed), weights, k);
            let i = choose|i: int| 0 <= i < first.0.len() && first.0[i] == k;
            assert(all[i] == k);
        } else {
            lemma_shuffle_complete(first.1, marks, k);
            let i = choose|i: int| 0 <= i < second.0.len() && second.0[i] == k;
            assert(all[i + first.0.len()] == k);
        }
    }
    lemma_full_list_length(all, weights.len());
}

/// Why a shuffle could not be set up.
#[derive(Clone, Copy, Debug, PartialEq, Eq, Structural)]
pub enum WeightedShuffleError {
    /// The weights sum to more than `u64` holds.
    SumOverflow,
}

/// Weights from which positions are drawn one after another without
/// replacement. Its view is the weights that are left: the weight of a
/// position that was drawn is zero.
pub struct WeightedShuffle {
    // The weights in a tree of partial sums. Weights too many for a tree
    // are held in a list.
    tree: Option<WeightTree>,
    weights: Vec<u64>,
    sum: u64,
}

impl View for WeightedShuffle {
    type V = Seq<u64>;

    closed spec fn view(&self) -> Seq<u64> {
        match self.tree {
            Some(tree) => tree@,
            None => self.weights@,
        }
    }
}

/// The position that `sample` selects among `weights`.
fn pick(weights: &Vec<u64>, sample: u64) -> (k: usize)
    requires
        sample < total_weight(weights@),
        total_weight(weights@) <= u64::MAX,
    ensures
        k == select(weights@, sample as nat),
        k < weights@.len(),
{
    proof {
        lemma_select(weights@, sample as nat);
        lemma_select_from(weights@, sample as nat, 0);
    }
    let len: usize = weights.len();
    let mut k: usize = 0;
    let mut below: u64 = 0;
    loop
        invariant
            k < weights@.len() == len,
            below == prefix_sum(weights@, k as int),
            below <= sample < total_weight(weights@) <= u64::MAX,
            k <= select(weights@, sample as nat) < weights@.len(),
            prefix_sum(weights@, select(weights@, sample as nat) + 1) > sample,
        ensures
            k == select(weights@, sample as nat),
            k < weights@.len(),
        decreases weights@.len() - k,
    {
        proof {
            lemma_prefix_sum_monotone(weights@, k + 1, weights@.len() as int);
        }
        let upto: u64 = below + weights[k];
        if upto > sample {
            proof {
                lemma_select_unique(weights@, sample as nat, k as int);
            }
            break ;
        }
        assert(upto == prefix_sum(weights@, k + 1));
        below = upto;
        k = k + 1;
    }
    k
}

/// The sum of `weights`, where it fits.
fn checked_total(weights: &Vec<u64>) -> (total: Option<u64>)
    ensures
        total matches Some(t) ==> t == total_weight(weights@),
        total.is_none() ==> total_weight(weights@) > u64::MAX,
{
    let mut sum: u64 = 0;
    let mut i: usize = 0;
    while i < weights.len()
        invariant
            i <= weights@.len(),
            sum == prefix_sum(weights@, i as int),
        decreases weights@.len() - i,
    {
        match sum.checked_add(weights[i]) {
            Some(next) => {
                sum = next;
            },
            None => {
                proof {
                    lemma_prefix_sum_monotone(weights@, i + 1, weights@.len() as int);
                }
                return None;
            },
        }
        i = i + 1;
    }
    Some(sum)
}

impl WeightedShuffle {
    /// Whether the sums that are kept are those of the weights.
    pub closed spec fn wf(&self) -> bool {
        match self.tree {
            Some(tree) => tree.wf(),
            None => self.sum == total_weight(self.weights@),
        }
    }

    /// Sets up a shuffle of `weights`. Fails exactly where their sum does
    /// not fit `u64`.
    pub fn new(weights: &Vec<u64>) -> (made: Result<WeightedShuffle, WeightedShuffleError>)
        ensures
            made.is_ok() <==> total_weight(weights@) <= u64::MAX,
            made matches Ok(shuffle) ==> shuffle.wf() && shuffle@ == weights@,
            made matches Err(e) ==> e == WeightedShuffleError::SumOverflow,
    {
        match checked_total(weights) {
            None => Err(WeightedShuffleError::SumOverflow),
            Some(sum) => {
                if let Some(tree) = WeightTree::new(weights) {
                    return Ok(WeightedShuffle { tree: Some(tree), weights: Vec::new(), sum });
                }
                let mut copy: Vec<u64> = Vec::with_capacity(weights.len());
                let mut i: usize = 0;
                while i < weights.len()
                    invariant
                        i <= weights@.len(),
                        copy@ == weights@.take(i as int),
                    decreases weights@.len() - i,
                {
                    copy.push(weights[i]);
                    assert(weights@.take(i + 1) == weights@.take(i as int).push(weights@[i as int]));
                    i = i + 1;
                }
                assert(weights@.take(weights@.len() as int) == weights@);
                Ok(WeightedShuffle { tree: None, weights: copy, sum })
            },
        }
    }

    /// Draws the next position, or `None`, without drawing, once no weight
    /// is left. The weight of the position drawn is cleared.
    pub fn next(&mut self, rng: &mut ChaCha20Rng) -> (drawn: Option<usize>)
        requires
            old(self).wf(),
        ensures
            final(self).wf(),
            total_weight(old(self)@) <= u64::MAX,
            drawn.is_none() <==> total_weight(old(self)@) == 0,
            drawn.is_none() ==> final(self)@ == old(self)@ && rng_state(*final(rng)) == rng_state(
                *old(rng),
            ),
            drawn matches Some(k) ==> {
                let total = total_weight(old(self)@) as u64;
                &&& k == select(old(self)@, rng_state(*old(rng)).drawn(0, total) as nat)
                &&& k < old(self)@.len()
                &&& final(self)@ == old(self)@.update(k as int, 0)
                &&& rng_state(*final(rng)) == rng_state(*old(rng)).after_draw(0, total)
            },
    {
        match &mut self.tree {
            Some(tree) => {
                let total: u64 = tree.total();
                if total == 0 {
                    return None;
                }
                let sample: u64 = gen_range_u64(rng, 0, total);
                let k: usize = tree.select(sample);
                tree.clear(k);
                Some(k)
            },
            None => {
                if self.sum == 0 {
                    return None;
                }
                let sample: u64 = gen_range_u64(rng, 0, self.sum);
                let k: usize = pick(&self.weights, sample);
                proof {
                    lemma_clear_selected(self.weights@, k as int);
                }
                self.sum = self.sum - self.weights[k];
                self.weights.set(k, 0);
                Some(k)
            },
        }
    }

    /// Draws until no weight is left: the positions of positive weight, in
    /// the order drawn.
    pub fn shuffle(self, rng: &mut ChaCha20Rng) -> (order: Vec<usize>)
        requires
            self.wf(),
        ensures
            order@ == shuffle_spec(rng_state(*old(rng)), self@).0,
            rng_state(*final(rng)) == shuffle_spec(rng_state(*old(rng)), self@).1,
    {
        let mut left = self;
        let mut order: Vec<usize> = Vec::new();
        let ghost start = rng_state(*rng);
        let ghost all = left@;
        loop
            invariant
                left.wf(),
                order@ + shuffle_spec(rng_state(*rng), left@).0 == shuffle_spec(start, all).0,
                shuffle_spec(rng_state(*rng), left@).1 == shuffle_spec(start, all).1,
            ensures
                order@ == shuffle_spec(start, all).0,
                rng_state(*rng) == shuffle_spec(start, all).1,
            decreases total_weight(left@),
        {
            let ghost before = rng_state(*rng);
            let ghost weights = left@;
            match left.next(rng) {
                None => {
                    assert(order@ + Seq::<usize>::empty() == order@);
                    break ;
                },
                Some(k) => {
                    proof {
                        lemma_clear_selected(weights, k as int);
                        lemma_select(
                            weights,
                            before.drawn(0, total_weight(weights) as u64) as nat,
                        );
                        let rest = shuffle_spec(rng_state(*rng), left@).0;
                        assert(shuffle_spec(before, weights).0 == seq![k] + rest);
                        assert(order@.push(k) + rest == order@ + (seq![k] + rest));
                    }
                    order.push(k);
                },
            }
        }
        order
    }
}

/// The permutation of `0..weights.len()` that `seed` gives.
///
/// Positions of positive weight come first, drawn one after another with
/// probability proportional to their weight among those left; positions of
/// weight zero follow, drawn uniformly. The sum of the weights must fit
/// `u64`.
pub fn weighted_shuffle(weights: &Vec<u64>, seed: [u8; 32]) -> (order: Vec<usize>)
    requires
        total_weight(weights@) <= u64::MAX,
    ensures
        order@ == weighted_shuffle_spec(weights@, seed@),
        is_permutation(order@, weights@.len()),
{
    let mut rng = seeded_rng(seed);
    let mut order: Vec<usize> = match WeightedShuffle::new(weights) {
        Ok(shuffle) => shuffle.shuffle(&mut rng),
        Err(_) => Vec::new(),
    };
    let mut marks: Vec<u64> = Vec::with_capacity(weights.len());
    let mut i: usize = 0;
    while i < weights.len()
        invariant
            i <= weights@.len(),
            marks@ == zero_marks(weights@).take(i as int),
        decreases weights@.len() - i,
    {
        let mark: u64 = if weights[i] == 0 {
            1
        } else {
            0
        };
        marks.push(mark);
        assert(zero_marks(weights@).take(i + 1) == zero_marks(weights@).take(i as int).push(mark));
        i = i + 1;
    }
    assert(zero_marks(weights@).take(weights@.len() as int) == zero_marks(weights@));
    proof {
        lemma_zero_marks_total(weights@, weights@.len() as int);
        lemma_weighted_shuffle_is_permutation(weights@, seed@);
    }
    let mut rest: Vec<usize> = match WeightedShuffle::new(&marks) {
        Ok(shuffle) => shuffle.shuffle(&mut rng),
        Err(_) => Vec::new(),
    };
    order.append(&mut rest);
    order
}

/// The index that `seed` selects from `(weight, index)` pairs by a single
/// draw: that of the first pair, in input order, up to which the weights sum
/// to more than the draw. Where every weight is zero the draw is uniform
/// over the pairs. Returns zero where there is no pair. The sum of the
/// weights must fit `u64`.
pub fn weighted_best(weights_and_indexes: &Vec<(u64, usize)>, seed: [u8; 32]) -> (best: usize)
    requires
        total_weight(pair_weights(weights_and_indexes@)) <= u64::MAX,
    ensures
        best == weighted_best_spec(weights_and_indexes@, seed@),
        weights_and_indexes@.len() > 0 ==> exists|i: int|
            0 <= i < weights_and_indexes@.len() && best == (#[trigger] weights_and_indexes@[i]).1,
{
    let len: usize = weights_and_indexes.len();
    if len == 0 {
        return 0;
    }
    let ghost all = pair_weights(weights_and_indexes@);
    let mut weights: Vec<u64> = Vec::with_capacity(len);
    let mut marks: Vec<u64> = Vec::with_capacity(len);
    let mut i: usize = 0;
    while i < len
        invariant
            i <= len,
            len == weights_and_indexes@.len(),
            all == pair_weights(weights_and_indexes@),
            weights@ == all.take(i as int),
            marks@ == zero_marks(all).take(i as int),
        decreases len - i,
    {
        let weight: u64 = weights_and_indexes[i].0;
        let mark: u64 = if weight == 0 {
            1
        } else {
            0
        };
        weights.push(weight);
        marks.push(mark);
        assert(all.take(i + 1) == all.take(i as int).push(weight));
        assert(zero_marks(all).take(i + 1) == zero_marks(all).take(i as int).push(mark));
        i = i + 1;
    }
    assert(all.take(len as int) == all);
    assert(zero_marks(all).take(len as int) == zero_marks(all));
    let mut rng = seeded_rng(seed);
    let ghost start = RngState::seeded(seed@);
    proof {
        lemma_zero_marks_total(all, len as int);
        lemma_weighted_shuffle_is_permutation(all, seed@);
    }
    let total: u64 = match checked_total(&weights) {
        Some(total) => total,
        None => 0,
    };
    let k: usize = if total > 0 {
        let sample: u64 = gen_range_u64(&mut rng, 0, total);
        proof {
            lemma_select(all, sample as nat);
            lemma_clear_selected(all, select(all, sample as nat));
        }
        pick(&weights, sample)
    } else {
        let uniform: u64 = match checked_total(&marks) {
            Some(total) => total,
            None => 0,
        };
        proof {
            assert(shuffle_spec(start, all).0 == Seq::<usize>::empty());
            assert(weighted_shuffle_spec(all, seed@) == shuffle_spec(start, zero_marks(all)).0);
            assert(weighted_shuffle_spec(all, seed@).len() == len);
        }
        let sample: u64 = gen_range_u64(&mut rng, 0, uniform);
        proof {
            lemma_select(zero_marks(all), sample as nat);
            lemma_clear_selected(zero_marks(all), select(zero_marks(all), sample as nat));
        }
        pick(&marks, sample)
    };
    weights_and_indexes[k].1
}

} // verus!
