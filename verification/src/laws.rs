//! What holds of the selection as a whole.

use crate::cluster_nodes::{
    has_node, in_gossip, index_sound, indexed, is_first_contact, is_index, is_node_list,
    node_stakes, ranks_before, weighs_before, ClusterNodesView, Node, NodeId, Role,
};
use crate::cluster_nodes::ClusterNodes;
use crate::cluster_nodes_cache::{
    age, cached, find_epoch, installed, lemma_find_from, put_in, staked_nodes_of, touched,
    BankStakesView, CacheEntry, ClusterNodesCacheView,
};
use crate::contact_info::{ClusterInfoView, ContactInfo};
use std::sync::Arc;
use crate::pubkey::Pubkey;
use crate::retransmit::{index_without, lemma_index_without, nodes_in_order};
use crate::rng::RngState;
use crate::routing::{
    lemma_staked_from, lemma_without_members, lemma_without_stakes, ones, shuffle_order,
    staked_prefix, without,
};
use crate::socket::{SocketAddr, SocketAddrSpace};
use crate::sum_lemmas::lemma_sum_small;
use crate::weighted_shuffle::{
    first_above, lemma_bisect, lemma_shuffle_sound, pair_weights, shuffle_spec, total_weight,
    weighted_shuffle_spec, zero_marks,
};
use vstd::prelude::*;

verus! {

/// Two lists in the same strict order that hold the same items are the
/// same list.
pub proof fn lemma_ordered_lists_equal<T>(a: Seq<T>, b: Seq<T>, before: spec_fn(T, T) -> bool)
    requires
        forall|x: T, y: T| !(#[trigger] before(x, y) && before(y, x)),
        forall|i: int, j: int| 0 <= i < j < a.len() ==> before(a[i], a[j]),
        forall|i: int, j: int| 0 <= i < j < b.len() ==> before(b[i], b[j]),
        forall|i: int| 0 <= i < a.len() ==> b.contains(#[trigger] a[i]),
        forall|i: int| 0 <= i < b.len() ==> a.contains(#[trigger] b[i]),
    ensures
        a == b,
{
    lemma_ordered_prefix_equal(a, b, before, a.len() as int);
    lemma_ordered_prefix_equal(b, a, before, b.len() as int);
    assert(a.len() == b.len());
    assert(a =~= b);
}

/// The first `upto` items of the one list are those of the other.
proof fn lemma_ordered_prefix_equal<T>(a: Seq<T>, b: Seq<T>, before: spec_fn(T, T) -> bool, upto: int)
    requires
        0 <= upto <= a.len(),
        forall|x: T, y: T| !(#[trigger] before(x, y) && before(y, x)),
        forall|i: int, j: int| 0 <= i < j < a.len() ==> before(a[i], a[j]),
        forall|i: int, j: int| 0 <= i < j < b.len() ==> before(b[i], b[j]),
        forall|i: int| 0 <= i < a.len() ==> b.contains(#[trigger] a[i]),
        forall|i: int| 0 <= i < b.len() ==> a.contains(#[trigger] b[i]),
    ensures
        upto <= b.len(),
        forall|i: int| 0 <= i < upto ==> a[i] == b[i],
    decreases upto,
{
    if upto > 0 {
        lemma_ordered_prefix_equal(a, b, before, upto - 1);
        let i = upto - 1;
        assert(b.contains(a[i]));
        let k = choose|k: int| 0 <= k < b.len() && b[k] == a[i];
        if k < i {
            // Then `a[k]` and `a[i]` are one item at two places of `a`.
            assert(a[k] == b[k]);
            assert(before(a[k], a[i]));
            assert(!(before(a[i], a[i]) && before(a[i], a[i])));
        }
        assert(i < b.len());
        assert(a.contains(b[i]));
        let m = choose|m: int| 0 <= m < a.len() && a[m] == b[i];
        if m < i {
            assert(a[m] == b[m]);
            assert(before(b[m], b[i]));
            assert(!(before(b[i], b[i]) && before(b[i], b[i])));
        }
        if k > i && m > i {
            assert(before(b[i], b[k]));
            assert(before(a[i], a[m]));
            assert(!(before(a[i], b[i]) && before(b[i], a[i])));
        }
        if k > i && m == i {
        }
        if k == i {
        }
        if m > i && k == i {
        }
    }
}

/// The record that gossip holds first for a key is one record.
proof fn lemma_first_contact_unique(gossip: Seq<ContactInfo>, a: ContactInfo, b: ContactInfo)
    requires
        is_first_contact(gossip, a),
        is_first_contact(gossip, b),
        a.id == b.id,
    ensures
        a == b,
{
    let i = choose|i: int|
        0 <= i < gossip.len() && #[trigger] gossip[i] == a && forall|j: int|
            0 <= j < i ==> (#[trigger] gossip[j]).id != a.id;
    let k = choose|k: int|
        0 <= k < gossip.len() && #[trigger] gossip[k] == b && forall|j: int|
            0 <= j < k ==> (#[trigger] gossip[j]).id != b.id;
    if i < k {
        assert(gossip[i].id != b.id);
    } else if k < i {
        assert(gossip[k].id != a.id);
    }
}

/// A node list holds, for a key, the node that the inputs determine.
proof fn lemma_node_determined(
    a: Seq<Node>,
    b: Seq<Node>,
    gossip: Seq<ContactInfo>,
    stakes: Seq<(Pubkey, u64)>,
    i: int,
)
    requires
        is_node_list(a, gossip, stakes),
        is_node_list(b, gossip, stakes),
        0 <= i < a.len(),
    ensures
        b.contains(a[i]),
{
    let node = a[i];
    let pubkey = node.spec_pubkey();
    match node.node {
        NodeId::ContactInfo(info) => {
            assert(is_first_contact(gossip, info));
            let g = choose|g: int|
                0 <= g < gossip.len() && #[trigger] gossip[g] == info && forall|j: int|
                    0 <= j < g ==> (#[trigger] gossip[j]).id != info.id;
            assert(has_node(b, gossip[g].id));
        },
        NodeId::Pubkey(_) => {
            assert(stake_of(stakes, pubkey) > 0);
            assert(has_node(b, pubkey));
        },
    }
    let k = choose|k: int| 0 <= k < b.len() && (#[trigger] b[k]).spec_pubkey() == pubkey;
    let other = b[k];
    assert(other.stake == node.stake);
    match (node.node, other.node) {
        (NodeId::ContactInfo(x), NodeId::ContactInfo(y)) => {
            lemma_first_contact_unique(gossip, x, y);
        },
        (NodeId::ContactInfo(x), NodeId::Pubkey(p)) => {
            let g = choose|g: int|
                0 <= g < gossip.len() && #[trigger] gossip[g] == x && forall|j: int|
                    0 <= j < g ==> (#[trigger] gossip[j]).id != x.id;
            assert(gossip[g].id == p);
            assert(in_gossip(gossip, p));
        },
        (NodeId::Pubkey(p), NodeId::ContactInfo(y)) => {
            let g = choose|g: int|
                0 <= g < gossip.len() && #[trigger] gossip[g] == y && forall|j: int|
                    0 <= j < g ==> (#[trigger] gossip[j]).id != y.id;
            assert(gossip[g].id == p);
            assert(in_gossip(gossip, p));
        },
        (NodeId::Pubkey(p), NodeId::Pubkey(q)) => {},
    }
    assert(other == node);
}

/// The stake of a key; a shorter name within this file.
spec fn stake_of(stakes: Seq<(Pubkey, u64)>, pubkey: Pubkey) -> u64 {
    crate::stakes::stake_in(stakes, pubkey)
}

/// No two keys come before each other.
proof fn lemma_order_asymmetric()
    ensures
        forall|x: Node, y: Node| !(#[trigger] ranks_before(x, y) && ranks_before(y, x)),
        forall|x: Node, y: Node| !(#[trigger] weighs_before(x, y) && weighs_before(y, x)),
{
}

/// The inputs determine the view: two nodes that build the view of one
/// cluster under the same stakes, for the same role, build the same
/// view, whatever the order in which they came to know the stakes.
pub proof fn lemma_view_unique(
    a: ClusterNodesView,
    b: ClusterNodesView,
    role: Role,
    cluster_info: ClusterInfoView,
    stakes: Seq<(Pubkey, u64)>,
)
    requires
        a.is_view_of(role, cluster_info, stakes),
        b.is_view_of(role, cluster_info, stakes),
    ensures
        a == b,
{
    let gossip = cluster_info.gossip();
    lemma_order_asymmetric();
    assert forall|i: int| 0 <= i < a.nodes.len() implies b.nodes.contains(#[trigger] a.nodes[i]) by {
        lemma_node_determined(a.nodes, b.nodes, gossip, stakes, i);
    }
    assert forall|i: int| 0 <= i < b.nodes.len() implies a.nodes.contains(#[trigger] b.nodes[i]) by {
        lemma_node_determined(b.nodes, a.nodes, gossip, stakes, i);
    }
    lemma_ordered_lists_equal(a.nodes, b.nodes, |x: Node, y: Node| ranks_before(x, y));
    let nodes = a.nodes;
    let entry_before = |x: (u64, usize), y: (u64, usize)|
        weighs_before(nodes[x.1 as int], nodes[y.1 as int]);
    assert forall|i: int| 0 <= i < a.index.len() implies b.index.contains(#[trigger] a.index[i]) by {
        let at = a.index[i].1 as int;
        assert(indexed(b.index, at));
        let j = choose|j: int| 0 <= j < b.index.len() && (#[trigger] b.index[j]).1 == at;
        assert(b.index[j] == a.index[i]);
    }
    assert forall|i: int| 0 <= i < b.index.len() implies a.index.contains(#[trigger] b.index[i]) by {
        let at = b.index[i].1 as int;
        assert(indexed(a.index, at));
        let j = choose|j: int| 0 <= j < a.index.len() && (#[trigger] a.index[j]).1 == at;
        assert(a.index[j] == b.index[i]);
    }
    assert forall|i: int, j: int| 0 <= i < j < a.index.len() implies entry_before(
        a.index[i],
        a.index[j],
    ) by {
        assert(weighs_before(nodes[a.index[i].1 as int], nodes[a.index[j].1 as int]));
    }
    assert forall|i: int, j: int| 0 <= i < j < b.index.len() implies entry_before(
        b.index[i],
        b.index[j],
    ) by {
        assert(weighs_before(nodes[b.index[i].1 as int], nodes[b.index[j].1 as int]));
    }
    lemma_ordered_lists_equal(a.index, b.index, entry_before);
}

/// What a leader sends to depends on the view, the seed, the epochs, the
/// time, the fan-out and the socket space alone: two answers to one
/// question are one answer.
pub proof fn lemma_broadcast_deterministic(
    view: ClusterNodesView,
    seed: Seq<u8>,
    shred_epoch: u64,
    feature_epoch: Option<u64>,
    now: u64,
    fanout: int,
    space: SocketAddrSpace,
    first: Seq<SocketAddr>,
    second: Seq<SocketAddr>,
)
    requires
        first == view.broadcast_addrs(seed, shred_epoch, feature_epoch, now, fanout, space),
        second == view.broadcast_addrs(seed, shred_epoch, feature_epoch, now, fanout, space),
    ensures
        first == second,
{
}

/// Where a node passes a shred on depends on the view, the seed, the
/// epochs, the fan-out and the slot leader alone.
pub proof fn lemma_retransmit_deterministic(
    view: ClusterNodesView,
    seed: Seq<u8>,
    shred_epoch: u64,
    feature_epoch: Option<u64>,
    fanout: int,
    slot_leader: Pubkey,
    first: Seq<SocketAddr>,
    second: Seq<SocketAddr>,
)
    requires
        first == view.retransmit_addrs(seed, shred_epoch, feature_epoch, fanout, slot_leader),
        second == view.retransmit_addrs(seed, shred_epoch, feature_epoch, fanout, slot_leader),
    ensures
        first == second,
{
}


/// Leaving a key out of a descending list leaves a descending list.
proof fn lemma_without_descending(nodes: Seq<Node>, excluded: Pubkey)
    requires
        crate::cluster_nodes::descending(nodes),
    ensures
        crate::cluster_nodes::descending(without(nodes, excluded)),
    decreases nodes.len(),
{
    if nodes.len() > 0 {
        let shorter = nodes.drop_last();
        let fewer = without(shorter, excluded);
        let kept = without(nodes, excluded);
        assert forall|i: int, j: int| 0 <= i < j < shorter.len() implies ranks_before(
            shorter[i],
            shorter[j],
        ) by {
            assert(ranks_before(nodes[i], nodes[j]));
        }
        lemma_without_descending(shorter, excluded);
        lemma_without_members(shorter, excluded);
        assert forall|i: int, j: int| 0 <= i < j < kept.len() implies ranks_before(
            kept[i],
            kept[j],
        ) by {
            if j < fewer.len() {
                assert(ranks_before(fewer[i], fewer[j]));
            } else {
                assert(shorter.contains(fewer[i]));
                let k = choose|k: int| 0 <= k < shorter.len() && shorter[k] == fewer[i];
                assert(ranks_before(nodes[k], nodes[nodes.len() - 1]));
            }
        }
    }
}

/// Leaving a key out of an index keeps the order of its entries.
proof fn lemma_index_without_ordered(index: Seq<(u64, usize)>, nodes: Seq<Node>, excluded: Pubkey)
    requires
        index_sound(index, nodes),
    ensures
        forall|i: int, j: int|
            0 <= i < j < index_without(index, nodes, excluded).len() ==> weighs_before(
                nodes[(#[trigger] index_without(index, nodes, excluded)[i]).1 as int],
                nodes[(#[trigger] index_without(index, nodes, excluded)[j]).1 as int],
            ),
    decreases index.len(),
{
    if index.len() > 0 {
        let shorter = index.drop_last();
        let fewer = index_without(shorter, nodes, excluded);
        let kept = index_without(index, nodes, excluded);
        assert(index_sound(shorter, nodes)) by {
            assert forall|a: int, b: int| 0 <= a < b < shorter.len() implies weighs_before(
                nodes[(#[trigger] shorter[a]).1 as int],
                nodes[(#[trigger] shorter[b]).1 as int],
            ) by {
                assert(weighs_before(nodes[index[a].1 as int], nodes[index[b].1 as int]));
            }
            assert forall|j: int| 0 <= j < shorter.len() implies {
                &&& (#[trigger] shorter[j]).1 < nodes.len()
                &&& nodes[shorter[j].1 as int].spec_contact_info().is_some()
                &&& shorter[j].0 == nodes[shorter[j].1 as int].spec_weight()
            } by {
                assert(shorter[j] == index[j]);
            }
        }
        lemma_index_without_ordered(shorter, nodes, excluded);
        lemma_index_without(shorter, nodes, excluded);
        assert forall|i: int, j: int| 0 <= i < j < kept.len() implies weighs_before(
            nodes[(#[trigger] kept[i]).1 as int],
            nodes[(#[trigger] kept[j]).1 as int],
        ) by {
            if j < fewer.len() {
                assert(kept[i] == fewer[i] && kept[j] == fewer[j]);
            } else {
                assert(kept[i] == fewer[i]);
                assert(shorter.contains(fewer[i]));
                let k = choose|k: int| 0 <= k < shorter.len() && shorter[k] == fewer[i];
                assert(weighs_before(
                    nodes[index[k].1 as int],
                    nodes[index[index.len() - 1].1 as int],
                ));
            }
        }
    }
}

/// Whether every node among which a shred is passed on is staked and
/// known to gossip.
pub open spec fn candidates_staked_and_known(view: ClusterNodesView, slot_leader: Pubkey) -> bool {
    forall|k: int|
        0 <= k < view.nodes.len() && (slot_leader == view.pubkey || (
        #[trigger] view.nodes[k]).spec_pubkey() != slot_leader) ==> view.nodes[k].stake > 0
            && view.nodes[k].spec_contact_info().is_some()
}

/// The nodes for which the entries of `kept` stand.
pub open spec fn nodes_of(kept: Seq<(u64, usize)>, nodes: Seq<Node>) -> Seq<Node> {
    kept.map_values(|e: (u64, usize)| nodes[e.1 as int])
}

/// Where every candidate is staked and known to gossip, the index without
/// the slot leader stands for the candidates, in their order, and weighs
/// each at its stake.
proof fn lemma_index_lists_candidates(view: ClusterNodesView, slot_leader: Pubkey)
    requires
        view.wf(),
        is_index(view.index, view.nodes, None),
        candidates_staked_and_known(view, slot_leader),
    ensures
        nodes_of(view.compat_index(slot_leader), view.nodes) == view.retransmit_candidates(
            slot_leader,
        ),
        pair_weights(view.compat_index(slot_leader)) == node_stakes(
            view.retransmit_candidates(slot_leader),
        ),
        forall|k: int|
            0 <= k < view.retransmit_candidates(slot_leader).len() ==> (
            #[trigger] view.retransmit_candidates(slot_leader)[k]).stake > 0,
        view.retransmit_candidates(slot_leader).len() <= usize::MAX,
        forall|j: int|
            0 <= j < view.compat_index(slot_leader).len() ==> (#[trigger] view.compat_index(
                slot_leader,
            )[j]).1 < view.nodes.len(),
{
    let nodes = view.nodes;
    let candidates = view.retransmit_candidates(slot_leader);
    let kept = view.compat_index(slot_leader);
    let mapped = nodes_of(kept, nodes);
    lemma_order_asymmetric();
    lemma_without_members(nodes, slot_leader);
    lemma_without_stakes(nodes, slot_leader);
    lemma_without_descending(nodes, slot_leader);
    lemma_index_without(view.index, nodes, slot_leader);
    lemma_index_without_ordered(view.index, nodes, slot_leader);
    // What the index keeps stands for candidates.
    assert forall|j: int| 0 <= j < kept.len() implies {
        &&& (#[trigger] kept[j]).1 < nodes.len()
        &&& nodes[kept[j].1 as int].stake > 0
        &&& kept[j].0 == nodes[kept[j].1 as int].stake
        &&& candidates.contains(nodes[kept[j].1 as int])
    } by {
        if slot_leader != view.pubkey {
            assert(view.index.contains(kept[j]));
            let k = choose|k: int| 0 <= k < view.index.len() && view.index[k] == kept[j];
            assert(view.index[k].1 < nodes.len());
        }
        let at = kept[j].1 as int;
        assert(nodes[at].stake > 0);
        if slot_leader == view.pubkey {
            assert(candidates[at] == nodes[at]);
        }
    }
    assert forall|i: int, j: int| 0 <= i < j < mapped.len() implies ranks_before(
        mapped[i],
        mapped[j],
    ) by {
        assert(weighs_before(nodes[kept[i].1 as int], nodes[kept[j].1 as int]));
    }
    assert forall|i: int| 0 <= i < mapped.len() implies candidates.contains(#[trigger] mapped[i]) by {
        assert(candidates.contains(nodes[kept[i].1 as int]));
    }
    assert forall|i: int| 0 <= i < candidates.len() implies mapped.contains(
        #[trigger] candidates[i],
    ) by {
        lemma_candidate_is_listed(view, slot_leader, i);
    }
    lemma_ordered_lists_equal(mapped, candidates, |x: Node, y: Node| ranks_before(x, y));
    let weights = pair_weights(kept);
    let stakes = node_stakes(candidates);
    assert(weights =~= stakes) by {
        assert forall|j: int| 0 <= j < weights.len() implies weights[j] == stakes[j] by {
            assert(mapped[j] == nodes[kept[j].1 as int]);
        }
    }
    assert forall|k: int| 0 <= k < candidates.len() implies (#[trigger] candidates[k]).stake > 0 by {
        assert(mapped[k] == nodes[kept[k].1 as int]);
    }
}

/// Every candidate is among the nodes for which the index without the
/// slot leader stands.
proof fn lemma_candidate_is_listed(view: ClusterNodesView, slot_leader: Pubkey, i: int)
    requires
        view.wf(),
        is_index(view.index, view.nodes, None),
        candidates_staked_and_known(view, slot_leader),
        0 <= i < view.retransmit_candidates(slot_leader).len(),
    ensures
        nodes_of(view.compat_index(slot_leader), view.nodes).contains(
            view.retransmit_candidates(slot_leader)[i],
        ),
{
    let nodes = view.nodes;
    let candidates = view.retransmit_candidates(slot_leader);
    let kept = view.compat_index(slot_leader);
    let mapped = nodes_of(kept, nodes);
    lemma_without_members(nodes, slot_leader);
    lemma_index_without(view.index, nodes, slot_leader);
    let node = candidates[i];
    assert(nodes.contains(node) && (slot_leader == view.pubkey || node.spec_pubkey()
        != slot_leader)) by {
        if slot_leader == view.pubkey {
            assert(nodes[i] == node);
        }
    }
    let k = choose|k: int| 0 <= k < nodes.len() && nodes[k] == node;
    assert(nodes[k].spec_contact_info().is_some());
    assert(indexed(view.index, k));
    let j = choose|j: int| 0 <= j < view.index.len() && (#[trigger] view.index[j]).1 == k;
    assert(kept.contains(view.index[j])) by {
        if slot_leader == view.pubkey {
            assert(kept[j] == view.index[j]);
        }
    }
    let c = choose|c: int| 0 <= c < kept.len() && kept[c] == view.index[j];
    assert(mapped[c] == node);
}

/// Nodes that are all staked come out of the node shuffle in the order in
/// which the weighted shuffle puts their stakes.
proof fn lemma_staked_orders_agree(seed: Seq<u8>, candidates: Seq<Node>)
    requires
        forall|k: int| 0 <= k < candidates.len() ==> (#[trigger] candidates[k]).stake > 0,
        candidates.len() <= usize::MAX,
    ensures
        shuffle_order(RngState::seeded(seed), candidates).0 == weighted_shuffle_spec(
            node_stakes(candidates),
            seed,
        ),
        forall|t: int|
            0 <= t < weighted_shuffle_spec(node_stakes(candidates), seed).len() ==> (
            #[trigger] weighted_shuffle_spec(node_stakes(candidates), seed)[t]) < candidates.len(),
{
    let stakes = node_stakes(candidates);
    let count = candidates.len() as int;
    lemma_staked_from(candidates, 0);
    assert(staked_prefix(candidates) == count);
    assert(stakes.take(count) == stakes);
    let start = RngState::seeded(seed);
    let first = shuffle_spec(start, stakes);
    assert(ones(0) == Seq::<u64>::empty());
    assert(total_weight(ones(0)) == 0);
    assert(shuffle_spec(first.1, ones(0)).0 == Seq::<usize>::empty());
    assert(shuffle_order(start, candidates).0 == first.0) by {
        assert(shuffle_spec(first.1, ones(count - count)).0.map_values(
            |i: usize| (i + count) as usize,
        ) == Seq::<usize>::empty());
        assert(first.0 + Seq::<usize>::empty() == first.0);
    }
    let marks = zero_marks(stakes);
    assert(total_weight(marks) == 0) by {
        lemma_sum_small(marks, marks.len() as int);
    }
    assert(weighted_shuffle_spec(stakes, seed) == first.0) by {
        assert(first.0 + Seq::<usize>::empty() == first.0);
    }
    lemma_shuffle_sound(start, stakes);
}

/// The selection of old and the shuffled selection agree where they are
/// given the same to select from: in a view whose index holds every node
/// that gossip knows, and for a shred such that every node but its slot
/// leader is staked and known to gossip, both put the nodes in the same
/// order, and so give the local node the same neighbors and children.
pub proof fn lemma_compat_matches_shuffled(
    view: ClusterNodesView,
    seed: Seq<u8>,
    fanout: int,
    slot_leader: Pubkey,
)
    requires
        view.wf(),
        is_index(view.index, view.nodes, None),
        candidates_staked_and_known(view, slot_leader),
    ensures
        view.compat_shuffled(seed, slot_leader) == view.shuffled_candidates(seed, slot_leader),
        forall|shred_epoch: u64, feature_epoch: Option<u64>| #[trigger]
            view.retransmit_peers(seed, shred_epoch, feature_epoch, fanout, slot_leader)
                == view.peers_in(view.shuffled_candidates(seed, slot_leader), fanout),
        forall|shred_epoch: u64, feature_epoch: Option<u64>| #[trigger]
            view.retransmit_addrs(seed, shred_epoch, feature_epoch, fanout, slot_leader)
                == view.addrs_for(view.peers_in(view.shuffled_candidates(seed, slot_leader), fanout)),
{
    let nodes = view.nodes;
    let candidates = view.retransmit_candidates(slot_leader);
    let kept = view.compat_index(slot_leader);
    lemma_index_lists_candidates(view, slot_leader);
    lemma_staked_orders_agree(seed, candidates);
    let order = weighted_shuffle_spec(node_stakes(candidates), seed);
    let old_way = view.compat_shuffled(seed, slot_leader);
    let new_way = view.shuffled_candidates(seed, slot_leader);
    assert(old_way == nodes_in_order(order, kept, nodes));
    assert(new_way == order.map_values(|i: usize| candidates[i as int]));
    assert(old_way =~= new_way) by {
        assert forall|t: int| 0 <= t < order.len() implies old_way[t] == new_way[t] by {
            assert(order[t] < candidates.len());
            assert(nodes_of(kept, nodes)[order[t] as int] == candidates[order[t] as int]);
        }
    }
}


/// With the feature activated in epoch `activated`, a leader selects for a
/// shred of that epoch as of old, and for a shred of the next epoch by
/// sampling and shuffling.
pub proof fn lemma_gate_selects_path(
    view: ClusterNodesView,
    seed: Seq<u8>,
    activated: u64,
    now: u64,
    fanout: int,
    space: SocketAddrSpace,
    slot_leader: Pubkey,
)
    requires
        activated < u64::MAX,
    ensures
        view.broadcast_addrs(seed, activated, Some(activated), now, fanout, space)
            == view.legacy_broadcast_addrs(seed, space),
        view.broadcast_addrs(seed, (activated + 1) as u64, Some(activated), now, fanout, space)
            == view.patched_broadcast_addrs(seed, now, fanout, space),
        view.retransmit_order(seed, activated, Some(activated), slot_leader)
            == view.compat_shuffled(seed, slot_leader),
        view.retransmit_order(seed, (activated + 1) as u64, Some(activated), slot_leader)
            == view.shuffled_candidates(seed, slot_leader),
{
}

/// A view that is younger than the time-to-live is handed out again, the
/// same view to every request.
pub proof fn lemma_fresh_view_is_shared(
    before: ClusterNodesCacheView,
    after: ClusterNodesCacheView,
    got: Arc<ClusterNodes>,
    now: u64,
    epoch: u64,
    root_bank: BankStakesView,
    working_bank: BankStakesView,
    cluster_info: ClusterInfoView,
    asof: u64,
    held: Arc<ClusterNodes>,
)
    requires
        before.answers(after, got, now, epoch, root_bank, working_bank, cluster_info),
        cached(before.entries, epoch) == Some(Some((asof, held))),
        age(now, asof) < before.ttl,
    ensures
        got == held,
        cached(after.entries, epoch) == Some(Some((asof, held))),
{
    lemma_find_from(before.entries, epoch, 0);
    let at = find_epoch(before.entries, epoch);
    let moved = touched(before.entries, epoch);
    assert(moved[0] == before.entries[at]);
    lemma_find_from(moved, epoch, 0);
}

/// Once a view is as old as the time-to-live, the next request for its
/// epoch builds the view anew from what the banks and gossip hold then,
/// and the cache holds the new view from then on. This is stated for an
/// epoch that a bank knows, or that is the root bank's own.
pub proof fn lemma_stale_view_is_rebuilt(
    before: ClusterNodesCacheView,
    after: ClusterNodesCacheView,
    got: Arc<ClusterNodes>,
    now: u64,
    epoch: u64,
    root_bank: BankStakesView,
    working_bank: BankStakesView,
    cluster_info: ClusterInfoView,
    asof: u64,
    held: Arc<ClusterNodes>,
)
    requires
        before.answers(after, got, now, epoch, root_bank, working_bank, cluster_info),
        cached(before.entries, epoch) == Some(Some((asof, held))),
        age(now, asof) >= before.ttl,
        staked_nodes_of(root_bank, working_bank, epoch).is_some() || epoch
            == root_bank.leader_schedule_epoch,
    ensures
        got@.is_view_of(
            before.role,
            cluster_info,
            match staked_nodes_of(root_bank, working_bank, epoch) {
                Some(stakes) => stakes,
                None => Seq::empty(),
            },
        ),
        cached(after.entries, epoch) == Some(Some((now, got))),
{
    lemma_find_from(before.entries, epoch, 0);
    let at = find_epoch(before.entries, epoch);
    let looked_up = installed(before.entries, before.cap, epoch);
    assert(looked_up == touched(before.entries, epoch));
    assert(looked_up[0] == before.entries[at]);
    lemma_find_from(looked_up, epoch, 0);
    let entry: CacheEntry = Some((now, got));
    let put = put_in(looked_up, before.cap, epoch, entry);
    assert(put[0] == (epoch, entry));
    lemma_find_from(put, epoch, 0);
}


/// The root that a leader samples is the first node up to which the stakes
/// of the other nodes sum to more than the draw: a node other than the
/// leader, drawn with a probability proportional to its stake or, where no
/// other node has stake, uniformly.
pub proof fn lemma_sampled_root(view: ClusterNodesView, seed: Seq<u8>)
    requires
        view.wf(),
        view.cumulative_weights.len() > 0,
        view.cumulative_weights.last() > 0,
    ensures
        view.sampled_root(seed) == Some(
            first_above(
                view.cumulative_weights,
                RngState::seeded(seed).drawn(0, view.cumulative_weights.last()),
            ),
        ),
        view.sampled_root(seed) matches Some(k) && 0 <= k < view.nodes.len()
            && view.nodes[k].spec_pubkey() != view.pubkey,
{
    let table = view.cumulative_weights;
    let draw = RngState::seeded(seed).drawn(0, table.last());
    crate::broadcast::lemma_cumulative_nondecreasing(view);
    lemma_bisect(table, draw, 0, table.len() - 1);
    let k = first_above(table, draw);
    // The entry at `k` is above that before it, so the node at `k` adds to
    // the sum: it is not the local node.
    let stakes = crate::cluster_nodes::other_stakes(view.pubkey, view.nodes);
    let ones = crate::cluster_nodes::other_ones(view.pubkey, view.nodes);
    if view.nodes[k].spec_pubkey() == view.pubkey {
        assert(stakes[k] == 0 && ones[k] == 0);
        if k > 0 {
            assert(table[k] == table[k - 1]);
        } else {
            assert(crate::weighted_shuffle::prefix_sum(stakes, 0) == 0);
            assert(crate::weighted_shuffle::prefix_sum(ones, 0) == 0);
            assert(crate::weighted_shuffle::prefix_sum(stakes, 1) == stakes[0]);
            assert(crate::weighted_shuffle::prefix_sum(ones, 1) == ones[0]);
            assert(table[0] == 0);
        }
    }
}


/// The cumulative weights of a leader's view are as many as the nodes, and
/// they end in at least one exactly where there is a node other than the
/// leader: then, and only then, a root can be sampled.
pub proof fn lemma_cumulative_weights(
    view: ClusterNodesView,
    cluster_info: ClusterInfoView,
    stakes: Seq<(Pubkey, u64)>,
)
    requires
        view.wf(),
        view.is_view_of(Role::Broadcast, cluster_info, stakes),
    ensures
        view.cumulative_weights.len() == view.nodes.len(),
        view.nodes.len() >= 1,
        view.cumulative_weights.last() >= 1 <==> exists|k: int|
            0 <= k < view.nodes.len() && (#[trigger] view.nodes[k]).spec_pubkey() != view.pubkey,
        forall|seed: Seq<u8>| #[trigger]
            view.sampled_root(seed).is_some() <==> view.cumulative_weights.last() >= 1,
{
    let nodes = view.nodes;
    let count = nodes.len() as int;
    let stakes_of_others = crate::cluster_nodes::other_stakes(view.pubkey, nodes);
    let ones = crate::cluster_nodes::other_ones(view.pubkey, nodes);
    let gossip = cluster_info.gossip();
    assert(has_node(nodes, gossip[0].id));
    crate::broadcast::lemma_cumulative_nondecreasing(view);
    crate::sum_lemmas::lemma_sum_pointwise(stakes_of_others, node_stakes(nodes), count);
    lemma_sum_small(ones, count);
    if exists|k: int| 0 <= k < count && (#[trigger] nodes[k]).spec_pubkey() != view.pubkey {
        let k = choose|k: int| 0 <= k < count && (#[trigger] nodes[k]).spec_pubkey() != view.pubkey;
        assert(ones[k] == 1);
        crate::weighted_shuffle::lemma_clear_selected(ones, k);
    } else {
        assert forall|i: int| 0 <= i < count implies ones[i] == 0 && stakes_of_others[i] == 0 by {
            assert(nodes[i].spec_pubkey() == view.pubkey);
        }
        lemma_sum_small(stakes_of_others, count);
    }
}


/// A view holds every node once: for each key that gossip knows and for
/// each key with stake there is exactly one position in the node list.
pub proof fn lemma_nodes_hold_every_key_once(
    view: ClusterNodesView,
    role: Role,
    cluster_info: ClusterInfoView,
    stakes: Seq<(Pubkey, u64)>,
    pubkey: Pubkey,
)
    requires
        view.is_view_of(role, cluster_info, stakes),
        in_gossip(cluster_info.gossip(), pubkey) || crate::stakes::stake_in(stakes, pubkey) > 0,
    ensures
        exists|k: int|
            0 <= k < view.nodes.len() && (#[trigger] view.nodes[k]).spec_pubkey() == pubkey
                && forall|other: int|
                0 <= other < view.nodes.len() && (#[trigger] view.nodes[other]).spec_pubkey()
                    == pubkey ==> other == k,
{
    let gossip = cluster_info.gossip();
    if in_gossip(gossip, pubkey) {
        let i = choose|i: int| 0 <= i < gossip.len() && (#[trigger] gossip[i]).id == pubkey;
        assert(has_node(view.nodes, gossip[i].id));
    } else {
        assert(has_node(view.nodes, pubkey));
    }
    let k = choose|k: int| 0 <= k < view.nodes.len() && (#[trigger] view.nodes[k]).spec_pubkey() == pubkey;
    assert forall|other: int|
        0 <= other < view.nodes.len() && (#[trigger] view.nodes[other]).spec_pubkey()
            == pubkey implies other == k by {
        crate::cluster_nodes::lemma_distinct_nodes(view.nodes, other, k);
    }
}

/// Every entry of the index names a node that gossip knows, and weighs it
/// at its stake, but at least one; the stake is that of the stake table,
/// zero for a key that the table does not hold.
pub proof fn lemma_index_entries(
    view: ClusterNodesView,
    role: Role,
    cluster_info: ClusterInfoView,
    stakes: Seq<(Pubkey, u64)>,
    j: int,
)
    requires
        view.is_view_of(role, cluster_info, stakes),
        0 <= j < view.index.len(),
    ensures
        view.index[j].1 < view.nodes.len(),
        view.nodes[view.index[j].1 as int].spec_contact_info().is_some(),
        view.index[j].0 == if view.nodes[view.index[j].1 as int].stake > 1 {
            view.nodes[view.index[j].1 as int].stake
        } else {
            1
        },
        view.nodes[view.index[j].1 as int].stake == crate::stakes::stake_in(
            stakes,
            view.nodes[view.index[j].1 as int].spec_pubkey(),
        ),
{
    assert(view.index[j].1 < view.nodes.len());
}

/// In the view of a node that passes shreds on, exactly one entry of the
/// index stands for the local node. In the view of a leader none does,
/// while the node list holds the leader.
pub proof fn lemma_self_membership(
    view: ClusterNodesView,
    role: Role,
    cluster_info: ClusterInfoView,
    stakes: Seq<(Pubkey, u64)>,
)
    requires
        view.is_view_of(role, cluster_info, stakes),
    ensures
        has_node(view.nodes, view.pubkey),
        role == Role::Broadcast ==> !view.indexes_self(),
        role == Role::Retransmit ==> exists|j: int|
            0 <= j < view.index.len() && view.nodes[(#[trigger] view.index[j]).1 as int].spec_pubkey()
                == view.pubkey && forall|other: int|
                0 <= other < view.index.len() && view.nodes[(#[trigger] view.index[other]).1 as int].spec_pubkey()
                    == view.pubkey ==> other == j,
{
    let gossip = cluster_info.gossip();
    let nodes = view.nodes;
    assert(gossip[0].id == view.pubkey);
    assert(has_node(nodes, gossip[0].id));
    let k = choose|k: int| 0 <= k < nodes.len() && (#[trigger] nodes[k]).spec_pubkey() == view.pubkey;
    match nodes[k].node {
        NodeId::ContactInfo(_) => {},
        NodeId::Pubkey(pubkey) => {
            assert(in_gossip(gossip, pubkey));
        },
    }
    if role == Role::Retransmit {
        assert(indexed(view.index, k));
        let j = choose|j: int| 0 <= j < view.index.len() && (#[trigger] view.index[j]).1 == k;
        assert forall|other: int|
            0 <= other < view.index.len() && nodes[(#[trigger] view.index[other]).1 as int].spec_pubkey()
                == view.pubkey implies other == j by {
            crate::cluster_nodes::lemma_distinct_nodes(nodes, view.index[other].1 as int, k);
            if other < j {
                assert(weighs_before(nodes[view.index[other].1 as int], nodes[view.index[j].1 as int]));
            } else if j < other {
                assert(weighs_before(nodes[view.index[j].1 as int], nodes[view.index[other].1 as int]));
            }
        }
    }
}

/// In the epoch in which the shuffled selection was activated, a leader
/// sends to the root that the seed picks from the index, if the socket
/// space accepts its address, and to no one else; neither the cumulative
/// weights nor the fan-out have a say. One epoch later, a sampled root
/// that gossip knows, whose record is within the maximum age of now and
/// whose address can be sent to, gets the shred alone.
pub proof fn lemma_broadcast_at_the_gate(
    view: ClusterNodesView,
    seed: Seq<u8>,
    activated: u64,
    now: u64,
    fanout: int,
    space: SocketAddrSpace,
)
    requires
        activated < u64::MAX,
    ensures
        view.broadcast_addrs(seed, activated, Some(activated), now, fanout, space) == match view.broadcast_peer(
            seed,
        ) {
            Some(info) => if space.spec_check(info.tvu) {
                seq![info.tvu]
            } else {
                Seq::empty()
            },
            None => Seq::empty(),
        },
        match view.sampled_root(seed) {
            Some(k) => match view.nodes[k].spec_contact_info() {
                Some(info) => crate::broadcast::is_fresh(info.wallclock, now)
                    && ContactInfo::spec_is_valid_address(info.tvu, space) ==> view.broadcast_addrs(
                    seed,
                    (activated + 1) as u64,
                    Some(activated),
                    now,
                    fanout,
                    space,
                ) == seq![info.tvu],
                None => true,
            },
            None => view.broadcast_addrs(
                seed,
                (activated + 1) as u64,
                Some(activated),
                now,
                fanout,
                space,
            ) == Seq::<SocketAddr>::empty(),
        },
{
}

} // verus!
