//! What the broadcast and the retransmit side share: leaving a node out,
//! shuffling the rest by stake, finding a node in the shuffled list, and
//! reading the addresses off a list of nodes.

use crate::cluster_nodes::{node_stakes, Node};
use crate::contact_info::ContactInfo;
use crate::pubkey::Pubkey;
use crate::rng::{rng_state, RngState};
use crate::socket::{SocketAddr, SocketAddrSpace};
use crate::sum_lemmas::{lemma_prefix_sum_agrees, lemma_sum_small};
use crate::weighted_shuffle::{
    is_permutation, lemma_full_list_length, lemma_prefix_sum_monotone, lemma_shuffle_complete,
    lemma_shuffle_sound, shuffle_spec, total_weight, WeightedShuffle,
};
use rand_chacha::ChaCha20Rng;
use vstd::prelude::*;

verus! {

/// The nodes of `nodes` whose key is not `excluded`, in their order.
pub open spec fn without(nodes: Seq<Node>, excluded: Pubkey) -> Seq<Node>
    decreases nodes.len(),
{
    if nodes.len() == 0 {
        Seq::empty()
    } else if nodes.last().spec_pubkey() != excluded {
        without(nodes.drop_last(), excluded).push(nodes.last())
    } else {
        without(nodes.drop_last(), excluded)
    }
}

/// The first position at or after `k` that holds the key `pubkey`; the
/// length where there is none.
pub open spec fn position_from(nodes: Seq<Node>, pubkey: Pubkey, k: int) -> int
    decreases nodes.len() - k,
{
    if k < 0 || k >= nodes.len() {
        nodes.len() as int
    } else if nodes[k].spec_pubkey() == pubkey {
        k
    } else {
        position_from(nodes, pubkey, k + 1)
    }
}

/// The first position that holds the key `pubkey`; the length where there is
/// none.
pub open spec fn position_of(nodes: Seq<Node>, pubkey: Pubkey) -> int {
    position_from(nodes, pubkey, 0)
}

/// The addresses of the nodes that gossip knows, in the order of the nodes:
/// where they receive forwarded shreds if `forwards`, else where they
/// receive shreds.
pub open spec fn addrs_of(nodes: Seq<Node>, forwards: bool) -> Seq<SocketAddr>
    decreases nodes.len(),
{
    if nodes.len() == 0 {
        Seq::empty()
    } else {
        match nodes.last().spec_contact_info() {
            Some(info) => addrs_of(nodes.drop_last(), forwards).push(
                if forwards {
                    info.tvu_forwards
                } else {
                    info.tvu
                },
            ),
            None => addrs_of(nodes.drop_last(), forwards),
        }
    }
}

/// The addresses that can be sent to within `space`, in their order.
pub open spec fn valid_addrs(addrs: Seq<SocketAddr>, space: SocketAddrSpace) -> Seq<SocketAddr>
    decreases addrs.len(),
{
    if addrs.len() == 0 {
        Seq::empty()
    } else if ContactInfo::spec_is_valid_address(addrs.last(), space) {
        valid_addrs(addrs.drop_last(), space).push(addrs.last())
    } else {
        valid_addrs(addrs.drop_last(), space)
    }
}

/// How many nodes from `k` on have stake before the first that has none.
pub open spec fn staked_from(nodes: Seq<Node>, k: int) -> int
    decreases nodes.len() - k,
{
    if k < 0 || k >= nodes.len() {
        nodes.len() as int
    } else if nodes[k].stake == 0 {
        k
    } else {
        staked_from(nodes, k + 1)
    }
}

/// The length of the run of staked nodes with which `nodes` begins.
pub open spec fn staked_prefix(nodes: Seq<Node>) -> int {
    staked_from(nodes, 0)
}

/// As many ones as asked for.
pub open spec fn ones(count: int) -> Seq<u64> {
    Seq::new(count as nat, |i: int| 1u64)
}

/// The order in which the positions of `nodes` come out of a shuffle, and
/// the state of the generator afterwards: the staked nodes with which the
/// list begins, shuffled by stake, and then the rest, shuffled uniformly.
pub open spec fn shuffle_order(state: RngState, nodes: Seq<Node>) -> (Seq<usize>, RngState) {
    let staked = staked_prefix(nodes);
    let first = shuffle_spec(state, node_stakes(nodes).take(staked));
    let second = shuffle_spec(first.1, ones(nodes.len() - staked));
    (first.0 + second.0.map_values(|i: usize| (i + staked) as usize), second.1)
}

/// The nodes in shuffled order.
pub open spec fn shuffle_nodes_spec(state: RngState, nodes: Seq<Node>) -> Seq<Node> {
    shuffle_order(state, nodes).0.map_values(|i: usize| nodes[i as int])
}

pub proof fn lemma_staked_from(nodes: Seq<Node>, k: int)
    requires
        0 <= k <= nodes.len(),
    ensures
        k <= staked_from(nodes, k) <= nodes.len(),
        forall|i: int| k <= i < staked_from(nodes, k) ==> (#[trigger] nodes[i]).stake > 0,
        staked_from(nodes, k) < nodes.len() ==> nodes[staked_from(nodes, k)].stake == 0,
    decreases nodes.len() - k,
{
    if k < nodes.len() && nodes[k].stake != 0 {
        lemma_staked_from(nodes, k + 1);
    }
}

pub proof fn lemma_position_from(nodes: Seq<Node>, pubkey: Pubkey, k: int)
    requires
        0 <= k <= nodes.len(),
    ensures
        k <= position_from(nodes, pubkey, k) <= nodes.len(),
        forall|i: int|
            k <= i < position_from(nodes, pubkey, k) ==> (#[trigger] nodes[i]).spec_pubkey() != pubkey,
        position_from(nodes, pubkey, k) < nodes.len() ==> nodes[position_from(
            nodes,
            pubkey,
            k,
        )].spec_pubkey() == pubkey,
    decreases nodes.len() - k,
{
    if k < nodes.len() && nodes[k].spec_pubkey() != pubkey {
        lemma_position_from(nodes, pubkey, k + 1);
    }
}

/// A list with one more node has the stake of that node more.
pub proof fn lemma_node_stakes_push(nodes: Seq<Node>, node: Node)
    ensures
        total_weight(node_stakes(nodes.push(node))) == total_weight(node_stakes(nodes)) + node.stake,
{
    let longer = nodes.push(node);
    lemma_prefix_sum_agrees(node_stakes(nodes), node_stakes(longer), nodes.len() as int);
}

/// Leaving a key out does not raise the sum of the stakes.
pub proof fn lemma_without_stakes(nodes: Seq<Node>, excluded: Pubkey)
    ensures
        total_weight(node_stakes(without(nodes, excluded))) <= total_weight(node_stakes(nodes)),
        without(nodes, excluded).len() <= nodes.len(),
    decreases nodes.len(),
{
    if nodes.len() > 0 {
        let shorter = nodes.drop_last();
        lemma_without_stakes(shorter, excluded);
        assert(nodes == shorter.push(nodes.last()));
        lemma_node_stakes_push(shorter, nodes.last());
        lemma_node_stakes_push(without(shorter, excluded), nodes.last());
    }
}

/// Leaving a key out keeps every node with another key, and only those.
pub proof fn lemma_without_members(nodes: Seq<Node>, excluded: Pubkey)
    ensures
        forall|k: int|
            0 <= k < nodes.len() && (#[trigger] nodes[k]).spec_pubkey() != excluded ==> without(
                nodes,
                excluded,
            ).contains(nodes[k]),
        forall|j: int|
            0 <= j < without(nodes, excluded).len() ==> nodes.contains(
                #[trigger] without(nodes, excluded)[j],
            ) && without(nodes, excluded)[j].spec_pubkey() != excluded,
    decreases nodes.len(),
{
    if nodes.len() > 0 {
        let shorter = nodes.drop_last();
        let kept = without(nodes, excluded);
        let fewer = without(shorter, excluded);
        lemma_without_members(shorter, excluded);
        assert forall|k: int|
            0 <= k < nodes.len() && (#[trigger] nodes[k]).spec_pubkey() != excluded implies kept.contains(
            nodes[k],
        ) by {
            if k < shorter.len() {
                assert(shorter[k] == nodes[k]);
                assert(fewer.contains(nodes[k]));
                let j = choose|j: int| 0 <= j < fewer.len() && fewer[j] == nodes[k];
                assert(kept[j] == nodes[k]);
            } else {
                assert(kept[kept.len() - 1] == nodes[k]);
            }
        }
        assert forall|j: int| 0 <= j < kept.len() implies nodes.contains(#[trigger] kept[j])
            && kept[j].spec_pubkey() != excluded by {
            if j < fewer.len() {
                assert(kept[j] == fewer[j]);
                assert(shorter.contains(fewer[j]));
                let k = choose|k: int| 0 <= k < shorter.len() && shorter[k] == fewer[j];
                assert(nodes[k] == kept[j]);
            } else {
                assert(nodes[nodes.len() - 1] == kept[j]);
            }
        }
    }
}

/// A shuffle of nodes whose stakes fit `u64` lists every position once.
pub proof fn lemma_shuffle_order_is_permutation(state: RngState, nodes: Seq<Node>)
    requires
        total_weight(node_stakes(nodes)) <= u64::MAX,
        nodes.len() <= usize::MAX,
    ensures
        is_permutation(shuffle_order(state, nodes).0, nodes.len()),
        shuffle_nodes_spec(state, nodes).len() == nodes.len(),
{
    let staked = staked_prefix(nodes);
    lemma_staked_from(nodes, 0);
    let stakes = node_stakes(nodes).take(staked);
    let rest = ones(nodes.len() - staked);
    let first = shuffle_spec(state, stakes);
    let second = shuffle_spec(first.1, rest);
    let shifted = second.0.map_values(|i: usize| (i + staked) as usize);
    let all = shuffle_order(state, nodes).0;
    assert(all == first.0 + shifted);
    lemma_prefix_sum_agrees(stakes, node_stakes(nodes), staked);
    lemma_prefix_sum_monotone(node_stakes(nodes), staked, nodes.len() as int);
    lemma_sum_small(rest, rest.len() as int);
    lemma_shuffle_sound(state, stakes);
    lemma_shuffle_sound(first.1, rest);
    assert forall|i: int| 0 <= i < all.len() implies (#[trigger] all[i]) < nodes.len() && (i
        < first.0.len() <==> all[i] < staked) by {
        if i >= first.0.len() {
            assert(all[i] == shifted[i - first.0.len()]);
            assert(second.0[i - first.0.len()] < rest.len());
        } else {
            assert(all[i] == first.0[i]);
        }
    }
    assert forall|i: int, j: int| 0 <= i < all.len() && 0 <= j < all.len() && i != j implies all[i]
        != all[j] by {
        let n = first.0.len();
        if i >= n {
            assert(all[i] == shifted[i - n]);
            assert(second.0[i - n] < rest.len());
        }
        if j >= n {
            assert(all[j] == shifted[j - n]);
            assert(second.0[j - n] < rest.len());
        }
    }
    assert forall|k: usize| k < nodes.len() implies #[trigger] all.contains(k) by {
        if k < staked {
            assert(nodes[k as int].stake > 0);
            lemma_shuffle_complete(state, stakes, k);
            let i = choose|i: int| 0 <= i < first.0.len() && first.0[i] == k;
            assert(all[i] == k);
        } else {
            let back = (k - staked) as usize;
            lemma_shuffle_complete(first.1, rest, back);
            let i = choose|i: int| 0 <= i < second.0.len() && second.0[i] == back;
            assert(shifted[i] == k);
            assert(all[i + first.0.len()] == k);
        }
    }
    lemma_full_list_length(all, nodes.len());
}

/// Every node is somewhere in the shuffled list.
pub proof fn lemma_shuffle_keeps_nodes(state: RngState, nodes: Seq<Node>, k: int)
    requires
        total_weight(node_stakes(nodes)) <= u64::MAX,
        nodes.len() <= usize::MAX,
        0 <= k < nodes.len(),
    ensures
        position_of(shuffle_nodes_spec(state, nodes), nodes[k].spec_pubkey()) < nodes.len(),
        shuffle_nodes_spec(state, nodes).len() == nodes.len(),
{
    lemma_shuffle_order_is_permutation(state, nodes);
    let order = shuffle_order(state, nodes).0;
    let shuffled = shuffle_nodes_spec(state, nodes);
    assert(order.contains(k as usize));
    let j = choose|j: int| 0 <= j < order.len() && order[j] == k as usize;
    assert(shuffled[j] == nodes[k]);
    lemma_position_from(shuffled, nodes[k].spec_pubkey(), 0);
}

/// Shuffles nodes by stake. The staked nodes with which the list begins
/// are drawn first, each with probability proportional to its stake among
/// those left; the rest follow, drawn uniformly. The stakes must sum to no
/// more than `u64` holds.
pub fn shuffle_nodes(rng: &mut ChaCha20Rng, nodes: &Vec<Node>) -> (out: Vec<Node>)
    requires
        total_weight(node_stakes(nodes@)) <= u64::MAX,
    ensures
        out@ == shuffle_nodes_spec(rng_state(*old(rng)), nodes@),
        rng_state(*final(rng)) == shuffle_order(rng_state(*old(rng)), nodes@).1,
        out@.len() == nodes@.len(),
{
    let len: usize = nodes.len();
    let ghost start = rng_state(*rng);
    proof {
        lemma_staked_from(nodes@, 0);
        lemma_shuffle_order_is_permutation(start, nodes@);
    }
    let mut stakes: Vec<u64> = Vec::new();
    let mut k: usize = 0;
    while k < len && nodes[k].stake > 0
        invariant
            k <= len,
            len == nodes@.len(),
            staked_from(nodes@, 0) == staked_from(nodes@, k as int),
            stakes@ == node_stakes(nodes@).take(k as int),
        decreases len - k,
    {
        stakes.push(nodes[k].stake);
        assert(node_stakes(nodes@).take(k + 1) == node_stakes(nodes@).take(k as int).push(
            nodes@[k as int].stake,
        ));
        k = k + 1;
    }
    let num_staked: usize = k;
    assert(num_staked == staked_prefix(nodes@));
    proof {
        lemma_prefix_sum_agrees(stakes@, node_stakes(nodes@), num_staked as int);
        lemma_prefix_sum_monotone(node_stakes(nodes@), num_staked as int, len as int);
    }
    let first: Vec<usize> = match WeightedShuffle::new(&stakes) {
        Ok(shuffle) => shuffle.shuffle(rng),
        Err(_) => Vec::new(),
    };
    let mut weights: Vec<u64> = Vec::new();
    let mut i: usize = num_staked;
    while i < len
        invariant
            num_staked <= i <= len,
            weights@ == ones(i - num_staked),
        decreases len - i,
    {
        weights.push(1);
        assert(ones(i + 1 - num_staked) == ones(i - num_staked).push(1u64));
        i = i + 1;
    }
    proof {
        lemma_sum_small(weights@, weights@.len() as int);
    }
    let second: Vec<usize> = match WeightedShuffle::new(&weights) {
        Ok(shuffle) => shuffle.shuffle(rng),
        Err(_) => Vec::new(),
    };
    let ghost order = shuffle_order(start, nodes@).0;
    let ghost shifted = second@.map_values(|i: usize| (i + num_staked) as usize);
    assert(order == first@ + shifted);
    proof {
        lemma_shuffle_sound(start, stakes@);
        lemma_shuffle_sound(shuffle_spec(start, stakes@).1, weights@);
    }
    let mut out: Vec<Node> = Vec::with_capacity(len);
    let mut a: usize = 0;
    while a < first.len()
        invariant
            a <= first@.len(),
            len == nodes@.len(),
            order == first@ + shifted,
            forall|t: int| 0 <= t < first@.len() ==> (#[trigger] first@[t]) < stakes@.len(),
            stakes@.len() <= len,
            out@ == order.map_values(|i: usize| nodes@[i as int]).take(a as int),
        decreases first@.len() - a,
    {
        let position: usize = first[a];
        out.push(nodes[position]);
        assert(order[a as int] == position);
        assert(order.map_values(|i: usize| nodes@[i as int]).take(a + 1) == order.map_values(
            |i: usize| nodes@[i as int],
        ).take(a as int).push(nodes@[position as int]));
        a = a + 1;
    }
    let mut b: usize = 0;
    while b < second.len()
        invariant
            b <= second@.len(),
            len == nodes@.len(),
            order == first@ + shifted,
            shifted == second@.map_values(|i: usize| (i + num_staked) as usize),
            forall|t: int| 0 <= t < second@.len() ==> (#[trigger] second@[t]) < weights@.len(),
            weights@.len() == len - num_staked,
            num_staked <= len,
            out@ == order.map_values(|i: usize| nodes@[i as int]).take(first@.len() + b),
        decreases second@.len() - b,
    {
        let position: usize = second[b] + num_staked;
        out.push(nodes[position]);
        assert(shifted[b as int] == position);
        assert(order[first@.len() + b] == position);
        assert(order.map_values(|i: usize| nodes@[i as int]).take(first@.len() + b + 1)
            == order.map_values(|i: usize| nodes@[i as int]).take(first@.len() + b).push(
            nodes@[position as int],
        ));
        b = b + 1;
    }
    assert(order.map_values(|i: usize| nodes@[i as int]).take(order.len() as int)
        == order.map_values(|i: usize| nodes@[i as int]));
    out
}

/// The nodes of `nodes` whose key is not `excluded`.
pub fn nodes_without(nodes: &Vec<Node>, excluded: Pubkey) -> (out: Vec<Node>)
    ensures
        out@ == without(nodes@, excluded),
{
    let len: usize = nodes.len();
    let mut out: Vec<Node> = Vec::with_capacity(len);
    let mut k: usize = 0;
    while k < len
        invariant
            k <= len,
            len == nodes@.len(),
            out@ == without(nodes@.take(k as int), excluded),
        decreases len - k,
    {
        assert(nodes@.take(k + 1).drop_last() == nodes@.take(k as int));
        if nodes[k].pubkey() != excluded {
            out.push(nodes[k]);
        }
        k = k + 1;
    }
    assert(nodes@.take(len as int) == nodes@);
    out
}

/// Where the key `pubkey` first stands in `nodes`, if it does.
pub fn find_node(nodes: &Vec<Node>, pubkey: Pubkey) -> (found: Option<usize>)
    ensures
        found matches Some(i) ==> i == position_of(nodes@, pubkey) && i < nodes@.len(),
        found.is_none() ==> position_of(nodes@, pubkey) == nodes@.len(),
{
    let len: usize = nodes.len();
    let mut k: usize = 0;
    while k < len
        invariant
            k <= len,
            len == nodes@.len(),
            position_of(nodes@, pubkey) == position_from(nodes@, pubkey, k as int),
        decreases len - k,
    {
        if nodes[k].pubkey() == pubkey {
            return Some(k);
        }
        k = k + 1;
    }
    None
}

/// Appends to `out` the addresses of `nodes[from..to]`.
pub fn push_addrs(out: &mut Vec<SocketAddr>, nodes: &Vec<Node>, from: usize, to: usize, forwards: bool)
    requires
        from <= to <= nodes@.len(),
    ensures
        final(out)@ == old(out)@ + addrs_of(nodes@.subrange(from as int, to as int), forwards),
{
    let ghost before = out@;
    let mut k: usize = from;
    assert(nodes@.subrange(from as int, from as int) == Seq::<Node>::empty());
    assert(before + Seq::<SocketAddr>::empty() == before);
    while k < to
        invariant
            from <= k <= to <= nodes@.len(),
            out@ == before + addrs_of(nodes@.subrange(from as int, k as int), forwards),
        decreases to - k,
    {
        let ghost part = nodes@.subrange(from as int, k as int);
        let ghost next = nodes@.subrange(from as int, k + 1);
        assert(next.drop_last() == part);
        assert(next.last() == nodes@[k as int]);
        match nodes[k].contact_info() {
            Some(info) => {
                let addr: SocketAddr = if forwards {
                    info.tvu_forwards
                } else {
                    info.tvu
                };
                out.push(addr);
                assert((before + addrs_of(part, forwards)).push(addr) == before + addrs_of(
                    part,
                    forwards,
                ).push(addr));
            },
            None => {},
        }
        k = k + 1;
    }
}

/// The addresses of `addrs` that can be sent to within `space`.
pub fn retain_valid(addrs: &Vec<SocketAddr>, space: &SocketAddrSpace) -> (out: Vec<SocketAddr>)
    ensures
        out@ == valid_addrs(addrs@, *space),
{
    let len: usize = addrs.len();
    let mut out: Vec<SocketAddr> = Vec::with_capacity(len);
    let mut k: usize = 0;
    while k < len
        invariant
            k <= len,
            len == addrs@.len(),
            out@ == valid_addrs(addrs@.take(k as int), *space),
        decreases len - k,
    {
        assert(addrs@.take(k + 1).drop_last() == addrs@.take(k as int));
        if ContactInfo::is_valid_address(&addrs[k], space) {
            out.push(addrs[k]);
        }
        k = k + 1;
    }
    assert(addrs@.take(len as int) == addrs@);
    out
}

} // verus!
