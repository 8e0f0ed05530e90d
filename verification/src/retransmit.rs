//! Where a node that received a shred passes it on.

use crate::cluster_nodes::{index_sound, ClusterNodes, ClusterNodesView, Node};
use crate::feature_gate::{enable_turbine_peers_shuffle_patch, shuffle_patch_enabled};
use crate::pubkey::Pubkey;
use crate::rng::{seeded_rng, RngState};
use crate::routing::{
    addrs_of, find_node, lemma_position_from, lemma_shuffle_keeps_nodes, lemma_without_members,
    lemma_without_stakes, nodes_without, position_of, push_addrs, shuffle_nodes,
    shuffle_nodes_spec, without,
};
use crate::socket::SocketAddr;
use crate::sum_lemmas::lemma_prefix_sum_agrees;
use crate::turbine_tree::{
    children_of, compute_retransmit_peers, lemma_self_in_neighborhood, neighbors_of,
};
use crate::weighted_shuffle::{
    is_permutation, pair_weights, total_weight, weighted_shuffle, weighted_shuffle_spec,
};
use vstd::prelude::*;

verus! {

/// The entries of `index` that stand for a node whose key is not
/// `excluded`, in their order.
pub open spec fn index_without(index: Seq<(u64, usize)>, nodes: Seq<Node>, excluded: Pubkey) -> Seq<
    (u64, usize),
>
    decreases index.len(),
{
    if index.len() == 0 {
        Seq::empty()
    } else if nodes[index.last().1 as int].spec_pubkey() != excluded {
        index_without(index.drop_last(), nodes, excluded).push(index.last())
    } else {
        index_without(index.drop_last(), nodes, excluded)
    }
}

/// The nodes for which the entries of `index` stand, in the order `order`.
pub open spec fn nodes_in_order(order: Seq<usize>, index: Seq<(u64, usize)>, nodes: Seq<Node>) -> Seq<
    Node,
> {
    order.map_values(|i: usize| nodes[index[i as int].1 as int])
}

impl ClusterNodesView {
    /// The nodes among which a shred is passed on: all but the slot leader.
    /// A leader that is the local node itself stays in the list.
    pub open spec fn retransmit_candidates(self, slot_leader: Pubkey) -> Seq<Node> {
        if slot_leader == self.pubkey {
            self.nodes
        } else {
            without(self.nodes, slot_leader)
        }
    }

    /// The candidates in the order that the seed gives them.
    pub open spec fn shuffled_candidates(self, seed: Seq<u8>, slot_leader: Pubkey) -> Seq<Node> {
        shuffle_nodes_spec(RngState::seeded(seed), self.retransmit_candidates(slot_leader))
    }

    /// The entries of the index among which a shred was passed on before
    /// the shuffled selection applied: all but that of the slot leader.
    pub open spec fn compat_index(self, slot_leader: Pubkey) -> Seq<(u64, usize)> {
        if slot_leader == self.pubkey {
            self.index
        } else {
            index_without(self.index, self.nodes, slot_leader)
        }
    }

    /// The indexed nodes in the order that the seed gives them by a
    /// weighted shuffle of their weights.
    pub open spec fn compat_shuffled(self, seed: Seq<u8>, slot_leader: Pubkey) -> Seq<Node> {
        let kept = self.compat_index(slot_leader);
        nodes_in_order(weighted_shuffle_spec(pair_weights(kept), seed), kept, self.nodes)
    }

    /// The list in which the local node finds itself for a shred.
    pub open spec fn retransmit_order(
        self,
        seed: Seq<u8>,
        shred_epoch: u64,
        feature_epoch: Option<u64>,
        slot_leader: Pubkey,
    ) -> Seq<Node> {
        if shuffle_patch_enabled(shred_epoch, feature_epoch) {
            self.shuffled_candidates(seed, slot_leader)
        } else {
            self.compat_shuffled(seed, slot_leader)
        }
    }

    /// The neighbors and the children of the local node in `order`.
    pub open spec fn peers_in(self, order: Seq<Node>, fanout: int) -> (Seq<Node>, Seq<Node>) {
        let at = position_of(order, self.pubkey);
        (neighbors_of(fanout, at, order), children_of(fanout, at, order))
    }

    /// The neighbors and the children of the local node for a shred.
    pub open spec fn retransmit_peers(
        self,
        seed: Seq<u8>,
        shred_epoch: u64,
        feature_epoch: Option<u64>,
        fanout: int,
        slot_leader: Pubkey,
    ) -> (Seq<Node>, Seq<Node>) {
        self.peers_in(self.retransmit_order(seed, shred_epoch, feature_epoch, slot_leader), fanout)
    }

    /// Where the local node sends, given its neighbors and children. The
    /// first of a neighborhood sends to where its neighbors receive
    /// forwarded shreds and to where its children receive shreds; every
    /// other node sends to where its children receive forwarded shreds.
    pub open spec fn addrs_for(self, peers: (Seq<Node>, Seq<Node>)) -> Seq<SocketAddr> {
        if peers.0.len() > 0 && peers.0[0].spec_pubkey() != self.pubkey {
            addrs_of(peers.1, true)
        } else {
            addrs_of(peers.0.skip(1), true) + addrs_of(peers.1, false)
        }
    }

    /// Where the local node passes a shred on.
    pub open spec fn retransmit_addrs(
        self,
        seed: Seq<u8>,
        shred_epoch: u64,
        feature_epoch: Option<u64>,
        fanout: int,
        slot_leader: Pubkey,
    ) -> Seq<SocketAddr> {
        self.addrs_for(self.retransmit_peers(seed, shred_epoch, feature_epoch, fanout, slot_leader))
    }

    /// Whether the node list holds the local node.
    pub open spec fn holds_self(self) -> bool {
        exists|k: int| 0 <= k < self.nodes.len() && (#[trigger] self.nodes[k]).spec_pubkey() == self.pubkey
    }
}

/// A list of pairs with one more pair weighs that pair's weight more.
proof fn lemma_pair_weights_push(index: Seq<(u64, usize)>, entry: (u64, usize))
    ensures
        total_weight(pair_weights(index.push(entry))) == total_weight(pair_weights(index)) + entry.0,
{
    lemma_prefix_sum_agrees(
        pair_weights(index),
        pair_weights(index.push(entry)),
        index.len() as int,
    );
}

/// Leaving a key out of an index keeps the entries of the other keys, and
/// only those, and does not raise the sum of the weights.
pub proof fn lemma_index_without(index: Seq<(u64, usize)>, nodes: Seq<Node>, excluded: Pubkey)
    ensures
        total_weight(pair_weights(index_without(index, nodes, excluded))) <= total_weight(
            pair_weights(index),
        ),
        forall|k: int|
            0 <= k < index.len() && nodes[(#[trigger] index[k]).1 as int].spec_pubkey() != excluded
                ==> index_without(index, nodes, excluded).contains(index[k]),
        forall|j: int|
            0 <= j < index_without(index, nodes, excluded).len() ==> index.contains(
                #[trigger] index_without(index, nodes, excluded)[j],
            ) && nodes[index_without(index, nodes, excluded)[j].1 as int].spec_pubkey() != excluded,
    decreases index.len(),
{
    if index.len() > 0 {
        let shorter = index.drop_last();
        let kept = index_without(index, nodes, excluded);
        let fewer = index_without(shorter, nodes, excluded);
        lemma_index_without(shorter, nodes, excluded);
        assert(index == shorter.push(index.last()));
        lemma_pair_weights_push(shorter, index.last());
        lemma_pair_weights_push(fewer, index.last());
        assert forall|k: int|
            0 <= k < index.len() && nodes[(#[trigger] index[k]).1 as int].spec_pubkey()
                != excluded implies kept.contains(index[k]) by {
            if k < shorter.len() {
                assert(shorter[k] == index[k]);
                assert(fewer.contains(index[k]));
                let j = choose|j: int| 0 <= j < fewer.len() && fewer[j] == index[k];
                assert(kept[j] == index[k]);
            } else {
                assert(kept[kept.len() - 1] == index[k]);
            }
        }
        assert forall|j: int| 0 <= j < kept.len() implies index.contains(#[trigger] kept[j])
            && nodes[kept[j].1 as int].spec_pubkey() != excluded by {
            if j < fewer.len() {
                assert(kept[j] == fewer[j]);
                assert(shorter.contains(fewer[j]));
                let k = choose|k: int| 0 <= k < shorter.len() && shorter[k] == fewer[j];
                assert(index[k] == kept[j]);
            } else {
                assert(index[index.len() - 1] == kept[j]);
            }
        }
    }
}

/// The local node is among the candidates of every shred, and so in their
/// shuffled order.
pub proof fn lemma_self_among_candidates(view: ClusterNodesView, seed: Seq<u8>, slot_leader: Pubkey)
    requires
        view.wf(),
        view.holds_self(),
    ensures
        position_of(view.shuffled_candidates(seed, slot_leader), view.pubkey)
            < view.shuffled_candidates(seed, slot_leader).len(),
        total_weight(crate::cluster_nodes::node_stakes(view.retransmit_candidates(slot_leader)))
            <= u64::MAX,
        view.retransmit_candidates(slot_leader).len() <= usize::MAX,
{
    let candidates = view.retransmit_candidates(slot_leader);
    let k = choose|k: int| 0 <= k < view.nodes.len() && (#[trigger] view.nodes[k]).spec_pubkey() == view.pubkey;
    lemma_without_stakes(view.nodes, slot_leader);
    lemma_without_members(view.nodes, slot_leader);
    assert(candidates.contains(view.nodes[k]));
    let c = choose|c: int| 0 <= c < candidates.len() && candidates[c] == view.nodes[k];
    lemma_shuffle_keeps_nodes(RngState::seeded(seed), candidates, c);
}

/// The local node is in the index of every shred, where its view indexes
/// it, and so in the shuffled order of the index.
pub proof fn lemma_self_in_compat(view: ClusterNodesView, seed: Seq<u8>, slot_leader: Pubkey)
    requires
        view.wf(),
        view.indexes_self(),
    ensures
        position_of(view.compat_shuffled(seed, slot_leader), view.pubkey) < view.compat_shuffled(
            seed,
            slot_leader,
        ).len(),
        total_weight(pair_weights(view.compat_index(slot_leader))) <= u64::MAX,
        forall|j: int|
            0 <= j < view.compat_index(slot_leader).len() ==> (#[trigger] view.compat_index(
                slot_leader,
            )[j]).1 < view.nodes.len(),
{
    let kept = view.compat_index(slot_leader);
    lemma_index_without(view.index, view.nodes, slot_leader);
    assert forall|j: int| 0 <= j < kept.len() implies (#[trigger] kept[j]).1 < view.nodes.len() by {
        assert(view.index.contains(kept[j]));
        let k = choose|k: int| 0 <= k < view.index.len() && view.index[k] == kept[j];
        assert(view.index[k].1 < view.nodes.len());
    }
    let own = choose|j: int|
        0 <= j < view.index.len() && view.nodes[(#[trigger] view.index[j]).1 as int].spec_pubkey()
            == view.pubkey;
    assert(kept.contains(view.index[own]));
    let c = choose|c: int| 0 <= c < kept.len() && kept[c] == view.index[own];
    let weights = pair_weights(kept);
    assert(view.index.len() <= usize::MAX) by {
        crate::cluster_nodes::lemma_index_length(view.index, view.nodes);
    }
    assert(kept.len() <= usize::MAX) by {
        lemma_index_without_length(view.index, view.nodes, slot_leader);
    }
    crate::weighted_shuffle::lemma_weighted_shuffle_is_permutation(weights, seed);
    let order = weighted_shuffle_spec(weights, seed);
    assert(order.contains(c as usize));
    let t = choose|t: int| 0 <= t < order.len() && order[t] == c as usize;
    let shuffled = view.compat_shuffled(seed, slot_leader);
    assert(shuffled[t].spec_pubkey() == view.pubkey);
    lemma_position_from(shuffled, view.pubkey, 0);
}

pub proof fn lemma_index_without_length(index: Seq<(u64, usize)>, nodes: Seq<Node>, excluded: Pubkey)
    ensures
        index_without(index, nodes, excluded).len() <= index.len(),
    decreases index.len(),
{
    if index.len() > 0 {
        lemma_index_without_length(index.drop_last(), nodes, excluded);
    }
}

impl ClusterNodes {
    /// The neighbors and the children of the local node for a shred, as
    /// selected before the shuffled selection applied.
    ///
    /// The indexed nodes but the slot leader are shuffled by weight, and
    /// the tree is laid over that order. The view must index the local
    /// node, and the fan-out must not be zero. The local node is among the
    /// neighbors, at the offset of its position in the order.
    pub fn get_retransmit_peers_compat(&self, shred_seed: [u8; 32], fanout: usize, slot_leader: Pubkey) -> (peers:
        (Vec<Node>, Vec<Node>))
        requires
            self@.wf(),
            self@.indexes_self(),
            fanout > 0,
        ensures
            (peers.0@, peers.1@) == self@.peers_in(
                self@.compat_shuffled(shred_seed@, slot_leader),
                fanout as int,
            ),
            self@.is_own_offset(
                peers.0@,
                position_of(self@.compat_shuffled(shred_seed@, slot_leader), self@.pubkey),
                fanout as int,
            ),
    {
        let index = self.index();
        let nodes = self.nodes();
        let keep_all: bool = slot_leader == self.pubkey();
        let ghost kept_spec = self@.compat_index(slot_leader);
        proof {
            lemma_self_in_compat(self@, shred_seed@, slot_leader);
        }
        let mut kept: Vec<(u64, usize)> = Vec::with_capacity(index.len());
        let mut weights: Vec<u64> = Vec::with_capacity(index.len());
        let mut k: usize = 0;
        while k < index.len()
            invariant
                k <= index@.len(),
                index@ == self@.index,
                nodes@ == self@.nodes,
                index_sound(index@, nodes@),
                keep_all == (slot_leader == self@.pubkey),
                kept@ == if keep_all {
                    index@.take(k as int)
                } else {
                    index_without(index@.take(k as int), nodes@, slot_leader)
                },
                weights@ == pair_weights(kept@),
            decreases index@.len() - k,
        {
            let entry: (u64, usize) = index[k];
            assert(index@.take(k + 1).drop_last() == index@.take(k as int));
            assert(index@.take(k + 1) == index@.take(k as int).push(entry));
            let ghost before = kept@;
            if keep_all || nodes[entry.1].pubkey() != slot_leader {
                kept.push(entry);
                weights.push(entry.0);
                assert(pair_weights(before.push(entry)) == pair_weights(before).push(entry.0));
            }
            k = k + 1;
        }
        assert(index@.take(index@.len() as int) == index@);
        assert(kept@ == kept_spec);
        let shuffle: Vec<usize> = weighted_shuffle(&weights, shred_seed);
        let count: usize = shuffle.len();
        let mut shuffled: Vec<Node> = Vec::with_capacity(count);
        let mut t: usize = 0;
        while t < count
            invariant
                t <= count,
                count == shuffle@.len(),
                is_permutation(shuffle@, kept@.len()),
                nodes@ == self@.nodes,
                forall|j: int| 0 <= j < kept@.len() ==> (#[trigger] kept@[j]).1 < nodes@.len(),
                shuffled@ == nodes_in_order(shuffle@, kept@, nodes@).take(t as int),
            decreases count - t,
        {
            let at: usize = shuffle[t];
            let position: usize = kept[at].1;
            shuffled.push(nodes[position]);
            assert(nodes_in_order(shuffle@, kept@, nodes@).take(t + 1) == nodes_in_order(
                shuffle@,
                kept@,
                nodes@,
            ).take(t as int).push(nodes@[position as int]));
            t = t + 1;
        }
        assert(nodes_in_order(shuffle@, kept@, nodes@).take(count as int) == nodes_in_order(
            shuffle@,
            kept@,
            nodes@,
        ));
        self.peers_of_self(&shuffled, fanout)
    }

    /// The neighbors and the children of the local node in `order`, in
    /// which it must stand.
    fn peers_of_self(&self, order: &Vec<Node>, fanout: usize) -> (peers: (Vec<Node>, Vec<Node>))
        requires
            fanout > 0,
            position_of(order@, self@.pubkey) < order@.len(),
        ensures
            (peers.0@, peers.1@) == self@.peers_in(order@, fanout as int),
            self@.is_own_offset(peers.0@, position_of(order@, self@.pubkey), fanout as int),
    {
        let self_index: usize = match find_node(order, self.pubkey()) {
            Some(position) => position,
            None => 0,
        };
        proof {
            lemma_position_from(order@, self@.pubkey, 0);
            lemma_self_in_neighborhood(fanout as int, self_index as int, order@);
        }
        compute_retransmit_peers(fanout, self_index, order)
    }

    /// The neighbors and the children of the local node for a shred.
    ///
    /// `shred_seed` is the seed of the shred for the slot leader. Once the
    /// shuffled selection applies, all nodes but the slot leader are
    /// shuffled by stake; before, the indexed nodes by weight. The tree is
    /// laid over that order. The view must index the local node, and the
    /// fan-out must not be zero. The local node is among the neighbors, at
    /// the offset of its position in the order.
    pub fn get_retransmit_peers(
        &self,
        slot_leader: Pubkey,
        shred_seed: [u8; 32],
        shred_epoch: u64,
        feature_epoch: Option<u64>,
        fanout: usize,
    ) -> (peers: (Vec<Node>, Vec<Node>))
        requires
            self@.wf(),
            self@.indexes_self(),
            fanout > 0,
        ensures
            (peers.0@, peers.1@) == self@.retransmit_peers(
                shred_seed@,
                shred_epoch,
                feature_epoch,
                fanout as int,
                slot_leader,
            ),
            self@.is_own_offset(
                peers.0@,
                position_of(
                    self@.retransmit_order(shred_seed@, shred_epoch, feature_epoch, slot_leader),
                    self@.pubkey,
                ),
                fanout as int,
            ),
    {
        if !enable_turbine_peers_shuffle_patch(shred_epoch, feature_epoch) {
            return self.get_retransmit_peers_compat(shred_seed, fanout, slot_leader);
        }
        proof {
            let own = choose|j: int|
                0 <= j < self@.index.len() && self@.nodes[(#[trigger] self@.index[j]).1 as int].spec_pubkey()
                    == self@.pubkey;
            assert(self@.nodes[self@.index[own].1 as int].spec_pubkey() == self@.pubkey);
            lemma_self_among_candidates(self@, shred_seed@, slot_leader);
        }
        let mut rng = seeded_rng(shred_seed);
        // Exclude slot leader from list of nodes.
        let nodes: Vec<Node> = if slot_leader == self.pubkey() {
            shuffle_nodes(&mut rng, self.nodes())
        } else {
            let nodes: Vec<Node> = nodes_without(self.nodes(), slot_leader);
            shuffle_nodes(&mut rng, &nodes)
        };
        self.peers_of_self(&nodes, fanout)
    }

    /// The addresses to which the local node passes a shred on.
    ///
    /// `shred_seed` is the seed of the shred for the slot leader. The view
    /// must index the local node, and the fan-out must not be zero.
    pub fn get_retransmit_addrs(
        &self,
        slot_leader: Pubkey,
        shred_seed: [u8; 32],
        shred_epoch: u64,
        feature_epoch: Option<u64>,
        fanout: usize,
    ) -> (addrs: Vec<SocketAddr>)
        requires
            self@.wf(),
            self@.indexes_self(),
            fanout > 0,
        ensures
            addrs@ == self@.retransmit_addrs(
                shred_seed@,
                shred_epoch,
                feature_epoch,
                fanout as int,
                slot_leader,
            ),
    {
        let (neighbors, children) = self.get_retransmit_peers(
            slot_leader,
            shred_seed,
            shred_epoch,
            feature_epoch,
            fanout,
        );
        let mut addrs: Vec<SocketAddr> = Vec::new();
        proof {
            assert(children@.subrange(0, children@.len() as int) == children@);
            assert(neighbors@.len() > 0);
            assert(neighbors@.subrange(1, neighbors@.len() as int) == neighbors@.skip(1));
        }
        if neighbors[0].pubkey() != self.pubkey() {
            push_addrs(&mut addrs, &children, 0, children.len(), true);
            assert(Seq::<SocketAddr>::empty() + addrs_of(children@, true) == addrs_of(
                children@,
                true,
            ));
            return addrs;
        }
        push_addrs(&mut addrs, &neighbors, 1, neighbors.len(), true);
        push_addrs(&mut addrs, &children, 0, children.len(), false);
        assert(Seq::<SocketAddr>::empty() + addrs_of(neighbors@.skip(1), true) == addrs_of(
            neighbors@.skip(1),
            true,
        ));
        addrs
    }
}

impl ClusterNodesView {
    /// Whether the local node is among `neighbors` at the offset that the
    /// position `at` has within its neighborhood.
    pub open spec fn is_own_offset(self, neighbors: Seq<Node>, at: int, fanout: int) -> bool {
        at % fanout < neighbors.len() && neighbors[at % fanout].spec_pubkey() == self.pubkey
    }
}

} // verus!
