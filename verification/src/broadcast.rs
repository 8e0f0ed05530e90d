//! Where a leader sends a shred.

use crate::cluster_nodes::{
    lemma_running_sums_nondecreasing, node_stakes, other_ones, other_stakes, ClusterNodes,
    ClusterNodesView, Node,
};
use crate::contact_info::ContactInfo;
use crate::feature_gate::{enable_turbine_peers_shuffle_patch, shuffle_patch_enabled};
use crate::rng::{seeded_rng, RngState};
use crate::routing::{
    addrs_of, lemma_without_stakes, nodes_without, push_addrs, retain_valid, shuffle_nodes,
    shuffle_nodes_spec, valid_addrs, without,
};
use crate::socket::{SocketAddr, SocketAddrSpace};
use crate::sum_lemmas::{lemma_sum_pointwise, lemma_sum_small};
use crate::turbine_tree::{children_of, compute_retransmit_peers, neighbors_of};
use crate::weighted_shuffle::{
    sample_single_spec, weighted_best, weighted_best_spec, weighted_sample_single,
};
use vstd::prelude::*;

verus! {

/// A leader sends to a sampled root only if the root's gossip record was
/// made less than this many milliseconds from now.
pub const MAX_CONTACT_INFO_AGE_MS: u64 = 120000;

/// Whether a record made at `wallclock` is as near to `now` as a leader
/// asks for: the two are less than the maximum age apart, whichever is
/// later.
pub open spec fn is_fresh(wallclock: u64, now: u64) -> bool {
    (if now >= wallclock {
        now - wallclock
    } else {
        wallclock - now
    }) < MAX_CONTACT_INFO_AGE_MS
}

impl ClusterNodesView {
    /// The root that the seed selects from the index by a single weighted
    /// draw; none where the index is empty.
    pub open spec fn broadcast_peer(self, seed: Seq<u8>) -> Option<ContactInfo> {
        if self.index.len() == 0 {
            None
        } else {
            self.nodes[weighted_best_spec(self.index, seed) as int].spec_contact_info()
        }
    }

    /// Where a leader sends before the shuffled selection applies: to the
    /// root, if the space accepts its address.
    pub open spec fn legacy_broadcast_addrs(self, seed: Seq<u8>, space: SocketAddrSpace) -> Seq<
        SocketAddr,
    > {
        match self.broadcast_peer(seed) {
            Some(info) => if space.spec_check(info.tvu) {
                seq![info.tvu]
            } else {
                Seq::empty()
            },
            None => Seq::empty(),
        }
    }

    /// The position that the seed draws from the cumulative weights.
    pub open spec fn sampled_root(self, seed: Seq<u8>) -> Option<int> {
        sample_single_spec(RngState::seeded(seed), self.cumulative_weights).0
    }

    /// Where a leader sends if it builds the whole tree: the other nodes
    /// are shuffled by stake, and the shred goes to the first of the first
    /// neighborhood, to where the rest of that neighborhood receives
    /// forwarded shreds, and to the children of the first; of these, to the
    /// addresses that can be sent to.
    pub open spec fn broadcast_tree_addrs(self, seed: Seq<u8>, fanout: int, space: SocketAddrSpace) -> Seq<
        SocketAddr,
    > {
        let others = without(self.nodes, self.pubkey);
        if others.len() == 0 {
            Seq::empty()
        } else {
            let shuffled = shuffle_nodes_spec(RngState::seeded(seed), others);
            let neighbors = neighbors_of(fanout, 0, shuffled);
            let children = children_of(fanout, 0, shuffled);
            valid_addrs(
                addrs_of(neighbors.take(1), false) + addrs_of(neighbors.skip(1), true) + addrs_of(
                    children,
                    false,
                ),
                space,
            )
        }
    }

    /// Where a leader sends once the shuffled selection applies: nowhere
    /// if nothing can be drawn; to the drawn root alone if gossip knows it,
    /// its record was made within the maximum age of now and its address
    /// can be sent to; else to the tree.
    pub open spec fn patched_broadcast_addrs(
        self,
        seed: Seq<u8>,
        now: u64,
        fanout: int,
        space: SocketAddrSpace,
    ) -> Seq<SocketAddr> {
        match self.sampled_root(seed) {
            None => Seq::empty(),
            Some(k) => match self.nodes[k].spec_contact_info() {
                Some(info) => if is_fresh(info.wallclock, now)
                    && ContactInfo::spec_is_valid_address(info.tvu, space) {
                    seq![info.tvu]
                } else {
                    self.broadcast_tree_addrs(seed, fanout, space)
                },
                None => self.broadcast_tree_addrs(seed, fanout, space),
            },
        }
    }

    /// Whether a leader builds the whole tree for a shred: the shuffled
    /// selection applies, a root is drawn, the root is not one to send to
    /// alone, and there are nodes other than the leader.
    pub open spec fn builds_tree(
        self,
        seed: Seq<u8>,
        shred_epoch: u64,
        feature_epoch: Option<u64>,
        now: u64,
        space: SocketAddrSpace,
    ) -> bool {
        shuffle_patch_enabled(shred_epoch, feature_epoch) && match self.sampled_root(seed) {
            None => false,
            Some(k) => without(self.nodes, self.pubkey).len() > 0 && match self.nodes[k].spec_contact_info() {
                Some(info) => !(is_fresh(info.wallclock, now)
                    && ContactInfo::spec_is_valid_address(info.tvu, space)),
                None => true,
            },
        }
    }

    /// Where a leader sends a shred.
    pub open spec fn broadcast_addrs(
        self,
        seed: Seq<u8>,
        shred_epoch: u64,
        feature_epoch: Option<u64>,
        now: u64,
        fanout: int,
        space: SocketAddrSpace,
    ) -> Seq<SocketAddr> {
        if shuffle_patch_enabled(shred_epoch, feature_epoch) {
            self.patched_broadcast_addrs(seed, now, fanout, space)
        } else {
            self.legacy_broadcast_addrs(seed, space)
        }
    }
}

/// The cumulative weights of a view never decrease.
pub proof fn lemma_cumulative_nondecreasing(view: ClusterNodesView)
    requires
        view.wf(),
    ensures
        crate::weighted_shuffle::nondecreasing(view.cumulative_weights),
        view.cumulative_weights.len() == 0 || view.cumulative_weights.len() == view.nodes.len(),
{
    if view.cumulative_weights.len() > 0 {
        lemma_sum_pointwise(
            other_stakes(view.pubkey, view.nodes),
            node_stakes(view.nodes),
            view.nodes.len() as int,
        );
        lemma_sum_small(other_ones(view.pubkey, view.nodes), view.nodes.len() as int);
        lemma_running_sums_nondecreasing(other_stakes(view.pubkey, view.nodes));
        lemma_running_sums_nondecreasing(other_ones(view.pubkey, view.nodes));
    }
}

impl ClusterNodes {
    /// The root of the broadcast tree as selected before the shuffled
    /// selection applies: the node that the seed draws from the index.
    pub fn get_broadcast_peer(&self, shred_seed: [u8; 32]) -> (peer: Option<ContactInfo>)
        requires
            self@.wf(),
        ensures
            peer == self@.broadcast_peer(shred_seed@),
            peer.is_some() <==> self@.index.len() > 0,
    {
        let index = self.index();
        if index.len() == 0 {
            None
        } else {
            let best: usize = weighted_best(index, shred_seed);
            self.nodes()[best].contact_info()
        }
    }

    /// Whether the leader builds the whole tree for a shred, for which the
    /// fan-out must not be zero.
    pub fn takes_tree(
        &self,
        shred_seed: [u8; 32],
        shred_epoch: u64,
        feature_epoch: Option<u64>,
        now: u64,
        socket_addr_space: &SocketAddrSpace,
    ) -> (tree: bool)
        requires
            self@.wf(),
        ensures
            tree == self@.builds_tree(
                shred_seed@,
                shred_epoch,
                feature_epoch,
                now,
                *socket_addr_space,
            ),
    {
        if !enable_turbine_peers_shuffle_patch(shred_epoch, feature_epoch) {
            return false;
        }
        proof {
            lemma_cumulative_nondecreasing(self@);
        }
        let mut rng = seeded_rng(shred_seed);
        let index: usize = match weighted_sample_single(&mut rng, self.cumulative_weights()) {
            None => {
                return false;
            },
            Some(index) => index,
        };
        if let Some(node) = self.nodes()[index].contact_info() {
            let age: u64 = if now >= node.wallclock {
                now - node.wallclock
            } else {
                node.wallclock - now
            };
            if age < MAX_CONTACT_INFO_AGE_MS && ContactInfo::is_valid_address(
                &node.tvu,
                socket_addr_space,
            ) {
                return false;
            }
        }
        let nodes: Vec<Node> = nodes_without(self.nodes(), self.pubkey());
        nodes.len() > 0
    }

    /// The addresses to which the leader sends a shred, where they can be
    /// told: `None` exactly where the tree has to be built and the fan-out
    /// is zero.
    pub fn checked_broadcast_addrs(
        &self,
        shred_seed: [u8; 32],
        shred_epoch: u64,
        feature_epoch: Option<u64>,
        now: u64,
        fanout: usize,
        socket_addr_space: &SocketAddrSpace,
    ) -> (addrs: Option<Vec<SocketAddr>>)
        requires
            self@.wf(),
        ensures
            addrs.is_none() <==> (fanout == 0 && self@.builds_tree(
                shred_seed@,
                shred_epoch,
                feature_epoch,
                now,
                *socket_addr_space,
            )),
            addrs matches Some(addrs) ==> addrs@ == self@.broadcast_addrs(
                shred_seed@,
                shred_epoch,
                feature_epoch,
                now,
                fanout as int,
                *socket_addr_space,
            ),
    {
        if fanout == 0 && self.takes_tree(
            shred_seed,
            shred_epoch,
            feature_epoch,
            now,
            socket_addr_space,
        ) {
            return None;
        }
        Some(
            self.get_broadcast_addrs(
                shred_seed,
                shred_epoch,
                feature_epoch,
                now,
                fanout,
                socket_addr_space,
            ),
        )
    }

    /// The addresses to which the leader sends a shred.
    ///
    /// `shred_seed` is the seed of the shred for the local node,
    /// `shred_epoch` the epoch of the shred and `feature_epoch` that in
    /// which the shuffled selection was activated, if it was; `now` is the
    /// time in milliseconds. The fan-out must not be zero where the tree is
    /// built.
    pub fn get_broadcast_addrs(
        &self,
        shred_seed: [u8; 32],
        shred_epoch: u64,
        feature_epoch: Option<u64>,
        now: u64,
        fanout: usize,
        socket_addr_space: &SocketAddrSpace,
    ) -> (addrs: Vec<SocketAddr>)
        requires
            self@.wf(),
            fanout > 0 || !self@.builds_tree(
                shred_seed@,
                shred_epoch,
                feature_epoch,
                now,
                *socket_addr_space,
            ),
        ensures
            addrs@ == self@.broadcast_addrs(
                shred_seed@,
                shred_epoch,
                feature_epoch,
                now,
                fanout as int,
                *socket_addr_space,
            ),
    {
        if !enable_turbine_peers_shuffle_patch(shred_epoch, feature_epoch) {
            if let Some(node) = self.get_broadcast_peer(shred_seed) {
                if socket_addr_space.check(&node.tvu) {
                    return vec![node.tvu];
                }
            }
            return Vec::new();
        }
        proof {
            lemma_cumulative_nondecreasing(self@);
        }
        let mut rng = seeded_rng(shred_seed);
        let index: usize = match weighted_sample_single(&mut rng, self.cumulative_weights()) {
            None => {
                return Vec::new();
            },
            Some(index) => index,
        };
        if let Some(node) = self.nodes()[index].contact_info() {
            let age: u64 = if now >= node.wallclock {
                now - node.wallclock
            } else {
                node.wallclock - now
            };
            if age < MAX_CONTACT_INFO_AGE_MS && ContactInfo::is_valid_address(
                &node.tvu,
                socket_addr_space,
            ) {
                return vec![node.tvu];
            }
        }
        let nodes: Vec<Node> = nodes_without(self.nodes(), self.pubkey());
        if nodes.len() == 0 {
            return Vec::new();
        }
        proof {
            lemma_without_stakes(self@.nodes, self@.pubkey);
        }
        let mut rng = seeded_rng(shred_seed);
        let nodes: Vec<Node> = shuffle_nodes(&mut rng, &nodes);
        let (neighbors, children) = compute_retransmit_peers(fanout, 0, &nodes);
        let mut addrs: Vec<SocketAddr> = Vec::new();
        push_addrs(&mut addrs, &neighbors, 0, 1, false);
        push_addrs(&mut addrs, &neighbors, 1, neighbors.len(), true);
        push_addrs(&mut addrs, &children, 0, children.len(), false);
        proof {
            assert(neighbors@.subrange(0, 1) == neighbors@.take(1));
            assert(neighbors@.subrange(1, neighbors@.len() as int) == neighbors@.skip(1));
            assert(children@.subrange(0, children@.len() as int) == children@);
            assert(Seq::<SocketAddr>::empty() + addrs_of(neighbors@.take(1), false) == addrs_of(
                neighbors@.take(1),
                false,
            ));
        }
        retain_valid(&addrs, socket_addr_space)
    }
}

} // verus!
