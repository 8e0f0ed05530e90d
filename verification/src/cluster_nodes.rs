//! The view of the cluster for one epoch, and the peers it selects for a
//! shred.

use crate::contact_info::{
    ClusterInfo, ClusterInfoView, ContactInfo, CRDS_GOSSIP_PULL_CRDS_TIMEOUT_MS,
};
use crate::pubkey::{lemma_view_injective, Pubkey};
use crate::sorting::{is_stable_argsort, key_lt, stable_argsort, SortKey};
use crate::stakes::{distinct_keys, entry_stakes, lemma_stake_in, stake_in, total_stake, Stakes};
use crate::sum_lemmas::{
    lemma_charged_sum, lemma_sum_pointwise, lemma_sum_raised, lemma_sum_small,
};
use crate::weighted_shuffle::{
    lemma_prefix_sum_monotone, nondecreasing, pair_weights, prefix_sum, total_weight,
};
use vstd::prelude::*;

verus! {

/// What is known of a node: its gossip record, or only its identity.
#[derive(Clone, Copy, Debug, PartialEq, Eq, Structural)]
pub enum NodeId {
    /// A node that gossip knows, staked or not.
    ContactInfo(ContactInfo),
    /// A staked node that gossip does not know.
    Pubkey(Pubkey),
}

/// A node of the cluster with its stake.
#[derive(Clone, Copy, Debug, PartialEq, Eq, Structural)]
pub struct Node {
    pub node: NodeId,
    pub stake: u64,
}

impl Node {
    /// The node's identity.
    pub open spec fn spec_pubkey(self) -> Pubkey {
        match self.node {
            NodeId::Pubkey(pubkey) => pubkey,
            NodeId::ContactInfo(info) => info.id,
        }
    }

    /// The node's gossip record, where gossip knows the node.
    pub open spec fn spec_contact_info(self) -> Option<ContactInfo> {
        match self.node {
            NodeId::Pubkey(_) => None,
            NodeId::ContactInfo(info) => Some(info),
        }
    }

    /// The weight with which the node is drawn: its stake, but at least one.
    pub open spec fn spec_weight(self) -> u64 {
        if self.stake == 0 {
            1
        } else {
            self.stake
        }
    }

    /// The node's identity.
    pub fn pubkey(&self) -> (pubkey: Pubkey)
        ensures
            pubkey == self.spec_pubkey(),
    {
        match &self.node {
            NodeId::Pubkey(pubkey) => *pubkey,
            NodeId::ContactInfo(info) => info.id,
        }
    }

    /// The node's gossip record, where gossip knows the node.
    pub fn contact_info(&self) -> (info: Option<ContactInfo>)
        ensures
            info == self.spec_contact_info(),
    {
        match &self.node {
            NodeId::Pubkey(_) => None,
            NodeId::ContactInfo(info) => Some(*info),
        }
    }

    /// The weight with which the node is drawn: its stake, but at least one.
    pub fn weight(&self) -> (weight: u64)
        ensures
            weight == self.spec_weight(),
            weight >= 1,
    {
        if self.stake == 0 {
            1
        } else {
            self.stake
        }
    }
}

/// Whether `(a_amount, a)` comes before `(b_amount, b)` in descending order:
/// the larger amount first, among equal amounts the larger key.
pub open spec fn pair_before(a_amount: u64, a: Pubkey, b_amount: u64, b: Pubkey) -> bool {
    a_amount > b_amount || (a_amount == b_amount && a@ > b@)
}

/// Whether `a` comes before `b` in a node list: by stake, then key, both
/// descending.
pub open spec fn ranks_before(a: Node, b: Node) -> bool {
    pair_before(a.stake, a.spec_pubkey(), b.stake, b.spec_pubkey())
}

/// Whether `a` comes before `b` in an index: by weight, then key, both
/// descending.
pub open spec fn weighs_before(a: Node, b: Node) -> bool {
    pair_before(a.spec_weight(), a.spec_pubkey(), b.spec_weight(), b.spec_pubkey())
}

/// Whether every node comes before all that follow it.
pub open spec fn descending(nodes: Seq<Node>) -> bool {
    forall|i: int, j: int| 0 <= i < j < nodes.len() ==> ranks_before(nodes[i], nodes[j])
}

/// Whether no two nodes have the same key.
pub open spec fn distinct_nodes(nodes: Seq<Node>) -> bool {
    forall|i: int, j: int|
        0 <= i < j < nodes.len() ==> (#[trigger] nodes[i]).spec_pubkey() != (
        #[trigger] nodes[j]).spec_pubkey()
}

/// Whether `nodes` hold a node with the key `pubkey`.
pub open spec fn has_node(nodes: Seq<Node>, pubkey: Pubkey) -> bool {
    exists|k: int| 0 <= k < nodes.len() && (#[trigger] nodes[k]).spec_pubkey() == pubkey
}

/// Whether gossip holds a record for `pubkey`.
pub open spec fn in_gossip(gossip: Seq<ContactInfo>, pubkey: Pubkey) -> bool {
    exists|i: int| 0 <= i < gossip.len() && (#[trigger] gossip[i]).id == pubkey
}

/// Whether `info` is the first record that gossip holds for its key.
pub open spec fn is_first_contact(gossip: Seq<ContactInfo>, info: ContactInfo) -> bool {
    exists|i: int|
        0 <= i < gossip.len() && #[trigger] gossip[i] == info && forall|j: int|
            0 <= j < i ==> (#[trigger] gossip[j]).id != info.id
}

/// Whether `nodes` is the node list of a cluster with these gossip records,
/// the local node's first, and these stakes.
///
/// The list is in descending order of stake and key. It holds one node for
/// each key that gossip knows or that has stake, and no other. A node that
/// gossip knows carries the first record for its key; every node carries
/// the stake of its key.
pub open spec fn is_node_list(
    nodes: Seq<Node>,
    gossip: Seq<ContactInfo>,
    stakes: Seq<(Pubkey, u64)>,
) -> bool {
    &&& descending(nodes)
    &&& distinct_nodes(nodes)
    &&& forall|k: int|
        0 <= k < nodes.len() ==> (#[trigger] nodes[k]).stake == stake_in(
            stakes,
            nodes[k].spec_pubkey(),
        )
    &&& forall|k: int|
        0 <= k < nodes.len() ==> match (#[trigger] nodes[k]).node {
            NodeId::ContactInfo(info) => is_first_contact(gossip, info),
            NodeId::Pubkey(pubkey) => !in_gossip(gossip, pubkey) && stake_in(stakes, pubkey) > 0,
        }
    &&& forall|i: int| 0 <= i < gossip.len() ==> has_node(nodes, (#[trigger] gossip[i]).id)
    &&& forall|pubkey: Pubkey| #[trigger] stake_in(stakes, pubkey) > 0 ==> has_node(nodes, pubkey)
}

/// The key under which ascending order is the descending order of
/// `(amount, pubkey)`.
pub open spec fn spec_descending_key(amount: u64, pubkey: Pubkey) -> SortKey {
    ((u64::MAX - amount) as u64, (u128::MAX - pubkey.hi) as u128, (u128::MAX - pubkey.lo) as u128)
}

fn descending_key(amount: u64, pubkey: Pubkey) -> (key: SortKey)
    ensures
        key == spec_descending_key(amount, pubkey),
{
    (u64::MAX - amount, u128::MAX - pubkey.hi, u128::MAX - pubkey.lo)
}

proof fn lemma_descending_key(a_amount: u64, a: Pubkey, b_amount: u64, b: Pubkey)
    ensures
        key_lt(spec_descending_key(a_amount, a), spec_descending_key(b_amount, b)) <==> pair_before(
            a_amount,
            a,
            b_amount,
            b,
        ),
        spec_descending_key(a_amount, a) == spec_descending_key(b_amount, b) <==> (a_amount
            == b_amount && a == b),
        a != b ==> a@ != b@,
{
    lemma_view_injective(a, b);
    lemma_view_injective(b, a);
}

/// Whether `node` is the first of `raw` with its key.
pub open spec fn is_first_with_key(raw: Seq<Node>, node: Node) -> bool {
    exists|r: int|
        0 <= r < raw.len() && #[trigger] raw[r] == node && forall|other: int|
            0 <= other < raw.len() && (#[trigger] raw[other]).spec_pubkey() == node.spec_pubkey()
                ==> r <= other
}

/// Whether nodes with the same key have the same stake.
pub open spec fn stakes_follow_keys(raw: Seq<Node>) -> bool {
    forall|a: int, b: int|
        0 <= a < raw.len() && 0 <= b < raw.len() && (#[trigger] raw[a]).spec_pubkey() == (
        #[trigger] raw[b]).spec_pubkey() ==> raw[a].stake == raw[b].stake
}

/// Sorts `raw` by stake and key, both descending, and keeps of the nodes
/// with one key the one that came first in `raw`.
fn sort_and_dedup(raw: &Vec<Node>) -> (out: Vec<Node>)
    requires
        stakes_follow_keys(raw@),
    ensures
        descending(out@),
        forall|a: int| 0 <= a < out@.len() ==> is_first_with_key(raw@, #[trigger] out@[a]),
        forall|r: int| 0 <= r < raw@.len() ==> has_node(out@, (#[trigger] raw@[r]).spec_pubkey()),
{
    let len: usize = raw.len();
    let mut keys: Vec<SortKey> = Vec::with_capacity(len);
    let mut i: usize = 0;
    while i < len
        invariant
            i <= len,
            len == raw@.len(),
            keys@.len() == i,
            forall|t: int|
                0 <= t < i ==> #[trigger] keys@[t] == spec_descending_key(
                    raw@[t].stake,
                    raw@[t].spec_pubkey(),
                ),
        decreases len - i,
    {
        keys.push(descending_key(raw[i].stake, raw[i].pubkey()));
        i = i + 1;
    }
    let order: Vec<usize> = stable_argsort(&keys);
    let mut out: Vec<Node> = Vec::with_capacity(len);
    let mut j: usize = 0;
    while j < len
        invariant
            j <= len,
            len == raw@.len(),
            keys@.len() == len,
            stakes_follow_keys(raw@),
            forall|t: int|
                0 <= t < len ==> #[trigger] keys@[t] == spec_descending_key(
                    raw@[t].stake,
                    raw@[t].spec_pubkey(),
                ),
            is_stable_argsort(keys@, order@),
            descending(out@),
            j == 0 ==> out@.len() == 0,
            j > 0 ==> out@.len() > 0 && out@.last().spec_pubkey() == raw@[order@[j - 1] as int].spec_pubkey(),
            forall|a: int| 0 <= a < out@.len() ==> is_first_with_key(raw@, #[trigger] out@[a]),
            forall|t: int|
                0 <= t < j ==> has_node(out@, raw@[#[trigger] order@[t] as int].spec_pubkey()),
        decreases len - j,
    {
        let at: usize = order[j];
        let candidate: Node = raw[at];
        let fresh: bool = out.len() == 0 || out[out.len() - 1].pubkey() != candidate.pubkey();
        let ghost before = out@;
        if fresh {
            proof {
                // Nothing sorted before the candidate has its key.
                assert forall|t: int| 0 <= t < j implies raw@[#[trigger] order@[t] as int].spec_pubkey()
                    != candidate.spec_pubkey() by {
                    let earlier = raw@[order@[t] as int];
                    if earlier.spec_pubkey() == candidate.spec_pubkey() {
                        let middle = raw@[order@[j - 1] as int];
                        assert(earlier.stake == candidate.stake);
                        lemma_descending_key(
                            earlier.stake,
                            earlier.spec_pubkey(),
                            middle.stake,
                            middle.spec_pubkey(),
                        );
                        lemma_descending_key(
                            middle.stake,
                            middle.spec_pubkey(),
                            earlier.stake,
                            earlier.spec_pubkey(),
                        );
                        lemma_descending_key(
                            middle.stake,
                            middle.spec_pubkey(),
                            candidate.stake,
                            candidate.spec_pubkey(),
                        );
                        lemma_descending_key(
                            candidate.stake,
                            candidate.spec_pubkey(),
                            middle.stake,
                            middle.spec_pubkey(),
                        );
                        if t < j - 1 {
                            assert(!key_lt(keys@[order@[j - 1] as int], keys@[order@[t] as int]));
                        }
                        assert(!key_lt(keys@[order@[j as int] as int], keys@[order@[j - 1] as int]));
                    }
                }
                // So the candidate is the first of the raw nodes with its key.
                assert forall|other: int|
                    0 <= other < raw@.len() && (#[trigger] raw@[other]).spec_pubkey()
                        == candidate.spec_pubkey() implies at <= other by {
                    assert(order@.contains(other as usize));
                    let t = choose|t: int| 0 <= t < order@.len() && order@[t] == other as usize;
                    lemma_descending_key(
                        raw@[other].stake,
                        raw@[other].spec_pubkey(),
                        candidate.stake,
                        candidate.spec_pubkey(),
                    );
                    if t > j {
                        assert(keys@[order@[j as int] as int] == keys@[order@[t] as int]);
                    }
                }
                assert(raw@[at as int] == candidate);
                assert(is_first_with_key(raw@, candidate));
                // And it comes after every node kept so far.
                if j > 0 {
                    let last = before.last();
                    let middle = raw@[order@[j - 1] as int];
                    assert(is_first_with_key(raw@, before[before.len() - 1]));
                    assert(last.stake == middle.stake);
                    lemma_descending_key(
                        candidate.stake,
                        candidate.spec_pubkey(),
                        middle.stake,
                        middle.spec_pubkey(),
                    );
                    lemma_descending_key(
                        middle.stake,
                        middle.spec_pubkey(),
                        candidate.stake,
                        candidate.spec_pubkey(),
                    );
                    assert(!key_lt(keys@[order@[j as int] as int], keys@[order@[j - 1] as int]));
                    assert(ranks_before(last, candidate));
                }
            }
            out.push(candidate);
            proof {
                assert forall|a: int, b: int| 0 <= a < b < out@.len() implies ranks_before(
                    out@[a],
                    out@[b],
                ) by {
                    if b == out@.len() - 1 {
                        if a < b - 1 {
                            assert(ranks_before(before[a], before[b - 1]));
                        }
                        assert(ranks_before(before[b - 1], candidate));
                    } else {
                        assert(ranks_before(before[a], before[b]));
                    }
                }
                assert forall|a: int| 0 <= a < out@.len() implies is_first_with_key(
                    raw@,
                    #[trigger] out@[a],
                ) by {
                    if a < before.len() {
                        assert(out@[a] == before[a]);
                    }
                }
            }
        }
        proof {
            assert forall|t: int| 0 <= t < j + 1 implies has_node(
                out@,
                raw@[#[trigger] order@[t] as int].spec_pubkey(),
            ) by {
                if t < j {
                    let k = choose|k: int|
                        0 <= k < before.len() && (#[trigger] before[k]).spec_pubkey()
                            == raw@[order@[t] as int].spec_pubkey();
                    assert(out@[k] == before[k]);
                } else {
                    assert(out@[out@.len() - 1].spec_pubkey() == candidate.spec_pubkey());
                }
            }
        }
        j = j + 1;
    }
    proof {
        assert forall|r: int| 0 <= r < raw@.len() implies has_node(
            out@,
            (#[trigger] raw@[r]).spec_pubkey(),
        ) by {
            assert(order@.contains(r as usize));
            let t = choose|t: int| 0 <= t < order@.len() && order@[t] == r as usize;
            assert(has_node(out@, raw@[order@[t] as int].spec_pubkey()));
        }
    }
    out
}


/// The node that stands for a gossip record.
pub open spec fn gossip_node(info: ContactInfo, stakes: Seq<(Pubkey, u64)>) -> Node {
    Node { node: NodeId::ContactInfo(info), stake: stake_in(stakes, info.id) }
}

/// Whether `raw` lists a node for every gossip record, in order, and then
/// staked keys only, among them every key with stake.
spec fn is_raw_list(raw: Seq<Node>, gossip: Seq<ContactInfo>, stakes: Seq<(Pubkey, u64)>) -> bool {
    &&& raw.len() >= gossip.len()
    &&& forall|r: int| 0 <= r < gossip.len() ==> #[trigger] raw[r] == gossip_node(gossip[r], stakes)
    &&& forall|r: int|
        gossip.len() <= r < raw.len() ==> (#[trigger] raw[r]).node is Pubkey && raw[r].stake > 0
            && raw[r].stake == stake_in(stakes, raw[r].spec_pubkey())
    &&& forall|e: int|
        0 <= e < stakes.len() && (#[trigger] stakes[e]).1 > 0 ==> has_node(raw, stakes[e].0)
}

proof fn lemma_raw_stakes_follow_keys(
    raw: Seq<Node>,
    gossip: Seq<ContactInfo>,
    stakes: Seq<(Pubkey, u64)>,
)
    requires
        is_raw_list(raw, gossip, stakes),
    ensures
        stakes_follow_keys(raw),
        forall|r: int|
            0 <= r < raw.len() ==> (#[trigger] raw[r]).stake == stake_in(
                stakes,
                raw[r].spec_pubkey(),
            ),
{
    assert forall|r: int| 0 <= r < raw.len() implies (#[trigger] raw[r]).stake == stake_in(
        stakes,
        raw[r].spec_pubkey(),
    ) by {
        if r < gossip.len() {
            assert(raw[r] == gossip_node(gossip[r], stakes));
        }
    }
}

/// What sorting and deduplicating a raw list yields is the node list.
proof fn lemma_node_list(
    nodes: Seq<Node>,
    raw: Seq<Node>,
    gossip: Seq<ContactInfo>,
    stakes: Seq<(Pubkey, u64)>,
)
    requires
        is_raw_list(raw, gossip, stakes),
        distinct_keys(stakes),
        descending(nodes),
        forall|a: int| 0 <= a < nodes.len() ==> is_first_with_key(raw, #[trigger] nodes[a]),
        forall|r: int| 0 <= r < raw.len() ==> has_node(nodes, (#[trigger] raw[r]).spec_pubkey()),
    ensures
        is_node_list(nodes, gossip, stakes),
{
    lemma_raw_stakes_follow_keys(raw, gossip, stakes);
    assert forall|k: int| 0 <= k < nodes.len() implies (#[trigger] nodes[k]).stake == stake_in(
        stakes,
        nodes[k].spec_pubkey(),
    ) by {
        assert(is_first_with_key(raw, nodes[k]));
    }
    assert forall|i: int, j: int| 0 <= i < j < nodes.len() implies (#[trigger] nodes[i]).spec_pubkey()
        != (#[trigger] nodes[j]).spec_pubkey() by {
        assert(ranks_before(nodes[i], nodes[j]));
    }
    assert forall|k: int| 0 <= k < nodes.len() implies match (#[trigger] nodes[k]).node {
        NodeId::ContactInfo(info) => is_first_contact(gossip, info),
        NodeId::Pubkey(pubkey) => !in_gossip(gossip, pubkey) && stake_in(stakes, pubkey) > 0,
    } by {
        let node = nodes[k];
        assert(is_first_with_key(raw, node));
        let r = choose|r: int|
            0 <= r < raw.len() && #[trigger] raw[r] == node && forall|other: int|
                0 <= other < raw.len() && (#[trigger] raw[other]).spec_pubkey()
                    == node.spec_pubkey() ==> r <= other;
        if r < gossip.len() {
            assert(raw[r] == gossip_node(gossip[r], stakes));
            let info = gossip[r];
            assert forall|j: int| 0 <= j < r implies (#[trigger] gossip[j]).id != info.id by {
                assert(raw[j] == gossip_node(gossip[j], stakes));
                if gossip[j].id == info.id {
                    assert(raw[j].spec_pubkey() == node.spec_pubkey());
                }
            }
            assert(gossip[r] == info);
        } else {
            let pubkey = node.spec_pubkey();
            if in_gossip(gossip, pubkey) {
                let i = choose|i: int| 0 <= i < gossip.len() && (#[trigger] gossip[i]).id == pubkey;
                assert(raw[i] == gossip_node(gossip[i], stakes));
                assert(raw[i].spec_pubkey() == pubkey);
            }
        }
    }
    assert forall|i: int| 0 <= i < gossip.len() implies has_node(
        nodes,
        (#[trigger] gossip[i]).id,
    ) by {
        assert(raw[i] == gossip_node(gossip[i], stakes));
        assert(has_node(nodes, raw[i].spec_pubkey()));
    }
    assert forall|pubkey: Pubkey| #[trigger] stake_in(stakes, pubkey) > 0 implies has_node(
        nodes,
        pubkey,
    ) by {
        lemma_stake_in(stakes, pubkey);
        let e = choose|e: int| 0 <= e < stakes.len() && (#[trigger] stakes[e]).0 == pubkey;
        assert(stakes[e].1 > 0);
        assert(has_node(raw, stakes[e].0));
        let r = choose|r: int| 0 <= r < raw.len() && (#[trigger] raw[r]).spec_pubkey() == pubkey;
        assert(has_node(nodes, raw[r].spec_pubkey()));
    }
}

/// The stake of `key`, zero where it has none.
fn stake_or_zero(stakes: &Stakes, key: &Pubkey) -> (stake: u64)
    requires
        stakes.wf(),
    ensures
        stake == stake_in(stakes@, *key),
{
    match stakes.get(key) {
        Some(stake) => stake,
        None => 0,
    }
}

/// The node list of a cluster: the local node, the peers that gossip knows
/// and every key with stake, each once, in descending order of stake and
/// key. A key that gossip knows keeps its first gossip record.
pub fn get_nodes(cluster_info: &ClusterInfo, stakes: &Stakes) -> (nodes: Vec<Node>)
    requires
        stakes.wf(),
    ensures
        is_node_list(nodes@, cluster_info@.gossip(), stakes@),
{
    let ghost gossip = cluster_info@.gossip();
    let ghost table = stakes@;
    proof {
        stakes.lemma_wf();
    }
    let me: ContactInfo = cluster_info.my_contact_info;
    let mut raw: Vec<Node> = Vec::new();
    raw.push(Node { node: NodeId::ContactInfo(me), stake: stake_or_zero(stakes, &me.id) });
    let peers: usize = cluster_info.tvu_peers.len();
    let mut i: usize = 0;
    while i < peers
        invariant
            i <= peers,
            peers == cluster_info.tvu_peers@.len(),
            gossip == cluster_info@.gossip(),
            table == stakes@,
            stakes.wf(),
            raw@.len() == i + 1,
            forall|r: int| 0 <= r < raw@.len() ==> #[trigger] raw@[r] == gossip_node(gossip[r], table),
        decreases peers - i,
    {
        let peer: ContactInfo = cluster_info.tvu_peers[i];
        assert(gossip[i + 1] == peer);
        raw.push(Node { node: NodeId::ContactInfo(peer), stake: stake_or_zero(stakes, &peer.id) });
        i = i + 1;
    }
    let entries: usize = stakes.len();
    let mut e: usize = 0;
    while e < entries
        invariant
            e <= entries,
            entries == table.len(),
            table == stakes@,
            stakes.wf(),
            distinct_keys(table),
            raw@.len() >= gossip.len(),
            forall|r: int| 0 <= r < gossip.len() ==> #[trigger] raw@[r] == gossip_node(gossip[r], table),
            forall|r: int|
                gossip.len() <= r < raw@.len() ==> (#[trigger] raw@[r]).node is Pubkey
                    && raw@[r].stake > 0 && raw@[r].stake == stake_in(table, raw@[r].spec_pubkey()),
            forall|d: int|
                0 <= d < e && (#[trigger] table[d]).1 > 0 ==> has_node(raw@, table[d].0),
        decreases entries - e,
    {
        let (pubkey, stake) = stakes.entry(e);
        let ghost before = raw@;
        if stake > 0 {
            proof {
                lemma_stake_in(table, pubkey);
            }
            raw.push(Node { node: NodeId::Pubkey(pubkey), stake });
        }
        proof {
            assert forall|d: int| 0 <= d < e + 1 && (#[trigger] table[d]).1 > 0 implies has_node(
                raw@,
                table[d].0,
            ) by {
                if d < e {
                    let r = choose|r: int|
                        0 <= r < before.len() && (#[trigger] before[r]).spec_pubkey() == table[d].0;
                    assert(raw@[r] == before[r]);
                } else {
                    assert(raw@[raw@.len() - 1].spec_pubkey() == pubkey);
                }
            }
        }
        e = e + 1;
    }
    proof {
        assert(is_raw_list(raw@, gossip, table));
        lemma_raw_stakes_follow_keys(raw@, gossip, table);
    }
    let nodes = sort_and_dedup(&raw);
    proof {
        lemma_node_list(nodes@, raw@, gossip, table);
    }
    nodes
}


/// The stakes of `nodes`, in their order.
pub open spec fn node_stakes(nodes: Seq<Node>) -> Seq<u64> {
    Seq::new(nodes.len(), |k: int| nodes[k].stake)
}

/// The stakes of `nodes` with that of the node `me` taken as zero.
pub open spec fn other_stakes(me: Pubkey, nodes: Seq<Node>) -> Seq<u64> {
    Seq::new(
        nodes.len(),
        |k: int|
            if nodes[k].spec_pubkey() != me {
                nodes[k].stake
            } else {
                0
            },
    )
}

/// One for every node but `me`, for which zero.
pub open spec fn other_ones(me: Pubkey, nodes: Seq<Node>) -> Seq<u64> {
    Seq::new(
        nodes.len(),
        |k: int|
            if nodes[k].spec_pubkey() != me {
                1u64
            } else {
                0u64
            },
    )
}

/// The sums of the weights up to and including each position.
pub open spec fn running_sums(weights: Seq<u64>) -> Seq<u64> {
    Seq::new(weights.len(), |k: int| prefix_sum(weights, k + 1) as u64)
}

/// The cumulative weights by which a leader samples the root of its tree:
/// the running sums of the stakes of all nodes but the local one; where
/// those stakes are all zero, the running count of those nodes.
pub open spec fn cumulative_weights_of(me: Pubkey, nodes: Seq<Node>) -> Seq<u64> {
    if total_weight(other_stakes(me, nodes)) > 0 {
        running_sums(other_stakes(me, nodes))
    } else {
        running_sums(other_ones(me, nodes))
    }
}

/// Running sums that fit `u64` never decrease.
pub proof fn lemma_running_sums_nondecreasing(weights: Seq<u64>)
    requires
        total_weight(weights) <= u64::MAX,
    ensures
        nondecreasing(running_sums(weights)),
        running_sums(weights).len() > 0 ==> running_sums(weights).last() == total_weight(weights),
{
    assert forall|i: int, j: int| 0 <= i <= j < weights.len() implies running_sums(weights)[i]
        <= running_sums(weights)[j] by {
        lemma_prefix_sum_monotone(weights, i + 1, j + 1);
        lemma_prefix_sum_monotone(weights, j + 1, weights.len() as int);
    }
}

fn running_sums_of(weights: &Vec<u64>) -> (sums: Vec<u64>)
    requires
        total_weight(weights@) <= u64::MAX,
    ensures
        sums@ == running_sums(weights@),
{
    let len: usize = weights.len();
    let mut sums: Vec<u64> = Vec::with_capacity(len);
    let mut sum: u64 = 0;
    let mut k: usize = 0;
    while k < len
        invariant
            k <= len,
            len == weights@.len(),
            total_weight(weights@) <= u64::MAX,
            sum == prefix_sum(weights@, k as int),
            sums@ == running_sums(weights@).take(k as int),
        decreases len - k,
    {
        proof {
            lemma_prefix_sum_monotone(weights@, k + 1, len as int);
        }
        sum = sum + weights[k];
        sums.push(sum);
        assert(running_sums(weights@).take(k + 1) == running_sums(weights@).take(k as int).push(
            sum,
        ));
        k = k + 1;
    }
    assert(running_sums(weights@).take(len as int) == running_sums(weights@));
    sums
}

/// The cumulative weights of `nodes` for the node `self_pubkey`. The
/// stakes of `nodes` must sum to no more than `u64` holds.
fn build_cumulative_weights(self_pubkey: Pubkey, nodes: &Vec<Node>) -> (weights: Vec<u64>)
    requires
        total_weight(node_stakes(nodes@)) <= u64::MAX,
    ensures
        weights@ == cumulative_weights_of(self_pubkey, nodes@),
        weights@.len() == nodes@.len(),
{
    let len: usize = nodes.len();
    let mut stakes: Vec<u64> = Vec::with_capacity(len);
    let mut ones: Vec<u64> = Vec::with_capacity(len);
    let mut k: usize = 0;
    while k < len
        invariant
            k <= len,
            len == nodes@.len(),
            stakes@ == other_stakes(self_pubkey, nodes@).take(k as int),
            ones@ == other_ones(self_pubkey, nodes@).take(k as int),
        decreases len - k,
    {
        let other: bool = nodes[k].pubkey() != self_pubkey;
        let stake: u64 = if other {
            nodes[k].stake
        } else {
            0
        };
        let one: u64 = if other {
            1
        } else {
            0
        };
        stakes.push(stake);
        ones.push(one);
        assert(other_stakes(self_pubkey, nodes@).take(k + 1) == other_stakes(
            self_pubkey,
            nodes@,
        ).take(k as int).push(stake));
        assert(other_ones(self_pubkey, nodes@).take(k + 1) == other_ones(self_pubkey, nodes@).take(
            k as int,
        ).push(one));
        k = k + 1;
    }
    assert(other_stakes(self_pubkey, nodes@).take(len as int) == other_stakes(self_pubkey, nodes@));
    assert(other_ones(self_pubkey, nodes@).take(len as int) == other_ones(self_pubkey, nodes@));
    proof {
        lemma_sum_pointwise(
            other_stakes(self_pubkey, nodes@),
            node_stakes(nodes@),
            len as int,
        );
        lemma_sum_small(other_ones(self_pubkey, nodes@), len as int);
    }
    let cumulative_stakes = running_sums_of(&stakes);
    if len == 0 || cumulative_stakes[len - 1] != 0 {
        return cumulative_stakes;
    }
    running_sums_of(&ones)
}

/// Whether `index` is the sampling index of `nodes` without the key
/// `excluded`: a `(weight, position)` pair for each node that gossip knows,
/// in descending order of weight and key.
pub open spec fn is_index(index: Seq<(u64, usize)>, nodes: Seq<Node>, excluded: Option<Pubkey>) -> bool {
    &&& index_sound(index, nodes)
    &&& forall|j: int|
        0 <= j < index.len() ==> Some(nodes[(#[trigger] index[j]).1 as int].spec_pubkey())
            != excluded
    &&& forall|k: int|
        0 <= k < nodes.len() && (#[trigger] nodes[k]).spec_contact_info().is_some() && Some(
            nodes[k].spec_pubkey(),
        ) != excluded ==> indexed(index, k)
}

/// Whether `index` holds the position `k`.
pub open spec fn indexed(index: Seq<(u64, usize)>, k: int) -> bool {
    exists|j: int| 0 <= j < index.len() && (#[trigger] index[j]).1 == k
}

/// Whether every entry of `index` is the weight and position of a node that
/// gossip knows, and the entries are in descending order of weight and key.
pub open spec fn index_sound(index: Seq<(u64, usize)>, nodes: Seq<Node>) -> bool {
    &&& forall|j: int|
        0 <= j < index.len() ==> {
            &&& (#[trigger] index[j]).1 < nodes.len()
            &&& nodes[index[j].1 as int].spec_contact_info().is_some()
            &&& index[j].0 == nodes[index[j].1 as int].spec_weight()
        }
    &&& forall|a: int, b: int|
        0 <= a < b < index.len() ==> weighs_before(
            nodes[(#[trigger] index[a]).1 as int],
            nodes[(#[trigger] index[b]).1 as int],
        )
}

/// An index names no position twice, so it is no longer than the node list.
pub proof fn lemma_index_length(index: Seq<(u64, usize)>, nodes: Seq<Node>)
    requires
        index_sound(index, nodes),
    ensures
        index.len() <= nodes.len(),
{
    let ones = Seq::new(index.len(), |j: int| 1u64);
    let caps = Seq::new(nodes.len(), |k: int| 1u64);
    let places = Seq::new(index.len(), |j: int| index[j].1 as int);
    assert forall|a: int, b: int| 0 <= a < b < ones.len() && places[a] >= 0 implies #[trigger] places[a]
        != #[trigger] places[b] by {
        assert(weighs_before(nodes[index[a].1 as int], nodes[index[b].1 as int]));
    }
    lemma_charged_sum(ones, places, caps);
    lemma_sum_small(ones, index.len() as int);
    lemma_sum_small(caps, nodes.len() as int);
}

/// Two positions that hold the same key are one position.
pub proof fn lemma_distinct_nodes(nodes: Seq<Node>, a: int, b: int)
    requires
        distinct_nodes(nodes),
        0 <= a < nodes.len(),
        0 <= b < nodes.len(),
        nodes[a].spec_pubkey() == nodes[b].spec_pubkey(),
    ensures
        a == b,
{
    if a < b {
        assert(nodes[a].spec_pubkey() != nodes[b].spec_pubkey());
    } else if b < a {
        assert(nodes[b].spec_pubkey() != nodes[a].spec_pubkey());
    }
}

/// The sampling index of `nodes` without the key `excluded`.
fn build_index(nodes: &Vec<Node>, excluded: Option<Pubkey>) -> (index: Vec<(u64, usize)>)
    requires
        distinct_nodes(nodes@),
    ensures
        is_index(index@, nodes@, excluded),
{
    let len: usize = nodes.len();
    let mut picked: Vec<usize> = Vec::new();
    let mut keys: Vec<SortKey> = Vec::new();
    let mut k: usize = 0;
    while k < len
        invariant
            k <= len,
            len == nodes@.len(),
            keys@.len() == picked@.len(),
            forall|c: int|
                0 <= c < picked@.len() ==> {
                    &&& (#[trigger] picked@[c]) < k
                    &&& nodes@[picked@[c] as int].spec_contact_info().is_some()
                    &&& Some(nodes@[picked@[c] as int].spec_pubkey()) != excluded
                    &&& keys@[c] == spec_descending_key(
                        nodes@[picked@[c] as int].spec_weight(),
                        nodes@[picked@[c] as int].spec_pubkey(),
                    )
                },
            forall|c: int, d: int| 0 <= c < d < picked@.len() ==> picked@[c] != picked@[d],
            forall|i: int|
                0 <= i < k && (#[trigger] nodes@[i]).spec_contact_info().is_some() && Some(
                    nodes@[i].spec_pubkey(),
                ) != excluded ==> picked@.contains(i as usize),
        decreases len - k,
    {
        let node: Node = nodes[k];
        let skip: bool = match excluded {
            Some(pubkey) => node.pubkey() == pubkey,
            None => false,
        };
        let ghost before = picked@;
        if node.contact_info().is_some() && !skip {
            picked.push(k);
            keys.push(descending_key(node.weight(), node.pubkey()));
        }
        proof {
            assert forall|i: int|
                0 <= i < k + 1 && (#[trigger] nodes@[i]).spec_contact_info().is_some() && Some(
                    nodes@[i].spec_pubkey(),
                ) != excluded implies picked@.contains(i as usize) by {
                if i < k {
                    assert(before.contains(i as usize));
                    let c = choose|c: int| 0 <= c < before.len() && before[c] == i as usize;
                    assert(picked@[c] == i as usize);
                } else {
                    assert(picked@[picked@.len() - 1] == k);
                }
            }
        }
        k = k + 1;
    }
    let order: Vec<usize> = stable_argsort(&keys);
    let count: usize = order.len();
    let mut index: Vec<(u64, usize)> = Vec::with_capacity(count);
    let mut j: usize = 0;
    while j < count
        invariant
            j <= count,
            count == order@.len(),
            count == picked@.len(),
            index@.len() == j,
            is_stable_argsort(keys@, order@),
            keys@.len() == picked@.len(),
            forall|c: int|
                0 <= c < picked@.len() ==> {
                    &&& (#[trigger] picked@[c]) < nodes@.len()
                    &&& keys@[c] == spec_descending_key(
                        nodes@[picked@[c] as int].spec_weight(),
                        nodes@[picked@[c] as int].spec_pubkey(),
                    )
                },
            forall|t: int|
                0 <= t < j ==> (#[trigger] index@[t]) == (
                    nodes@[picked@[order@[t] as int] as int].spec_weight(),
                    picked@[order@[t] as int],
                ),
        decreases count - j,
    {
        let position: usize = picked[order[j]];
        index.push((nodes[position].weight(), position));
        j = j + 1;
    }
    proof {
        assert forall|j: int| 0 <= j < index@.len() implies {
            &&& (#[trigger] index@[j]).1 < nodes@.len()
            &&& nodes@[index@[j].1 as int].spec_contact_info().is_some()
            &&& index@[j].0 == nodes@[index@[j].1 as int].spec_weight()
            &&& Some(nodes@[index@[j].1 as int].spec_pubkey()) != excluded
        } by {
            assert(order@[j] < picked@.len());
            assert(picked@[order@[j] as int] < len);
        }
        assert forall|a: int, b: int| 0 <= a < b < index@.len() implies weighs_before(
            nodes@[(#[trigger] index@[a]).1 as int],
            nodes@[(#[trigger] index@[b]).1 as int],
        ) by {
            let ca = order@[a] as int;
            let cb = order@[b] as int;
            let na = nodes@[picked@[ca] as int];
            let nb = nodes@[picked@[cb] as int];
            assert(!key_lt(keys@[order@[b] as int], keys@[order@[a] as int]));
            lemma_descending_key(na.spec_weight(), na.spec_pubkey(), nb.spec_weight(), nb.spec_pubkey());
            lemma_descending_key(nb.spec_weight(), nb.spec_pubkey(), na.spec_weight(), na.spec_pubkey());
            if keys@[ca] == keys@[cb] {
                assert(keys@[order@[a] as int] == keys@[order@[b] as int]);
                assert(order@[a] < order@[b]);
                assert(picked@[ca] != picked@[cb]);
                lemma_distinct_nodes(nodes@, picked@[ca] as int, picked@[cb] as int);
            }
        }
        assert forall|k: int|
            0 <= k < nodes@.len() && (#[trigger] nodes@[k]).spec_contact_info().is_some() && Some(
                nodes@[k].spec_pubkey(),
            ) != excluded implies indexed(index@, k) by {
            assert(picked@.contains(k as usize));
            let c = choose|c: int| 0 <= c < picked@.len() && picked@[c] == k as usize;
            assert(order@.contains(c as usize));
            let t = choose|t: int| 0 <= t < order@.len() && order@[t] == c as usize;
            assert(index@[t].1 == k);
        }
    }
    index
}


/// The stakes of a node list sum to no more than the table holds.
proof fn lemma_node_stakes_bounded(
    nodes: Seq<Node>,
    gossip: Seq<ContactInfo>,
    stakes: Seq<(Pubkey, u64)>,
)
    requires
        is_node_list(nodes, gossip, stakes),
        distinct_keys(stakes),
    ensures
        total_weight(node_stakes(nodes)) <= total_stake(stakes),
{
    let values = node_stakes(nodes);
    let places = Seq::new(
        nodes.len(),
        |k: int|
            if nodes[k].stake > 0 {
                choose|e: int| 0 <= e < stakes.len() && (#[trigger] stakes[e]).0 == nodes[k].spec_pubkey()
            } else {
                -1
            },
    );
    let caps = entry_stakes(stakes);
    assert forall|k: int| 0 <= k < values.len() implies (values[k] == 0 && #[trigger] places[k] == -1)
        || (0 <= places[k] < caps.len() && values[k] <= caps[places[k]]) by {
        if nodes[k].stake > 0 {
            lemma_stake_in(stakes, nodes[k].spec_pubkey());
            assert(nodes[k].stake == stake_in(stakes, nodes[k].spec_pubkey()));
        }
    }
    assert forall|a: int, b: int| 0 <= a < b < values.len() && places[a] >= 0 implies #[trigger] places[a]
        != #[trigger] places[b] by {
        if places[a] == places[b] {
            lemma_stake_in(stakes, nodes[a].spec_pubkey());
            lemma_stake_in(stakes, nodes[b].spec_pubkey());
            assert(nodes[a].stake == stake_in(stakes, nodes[a].spec_pubkey()));
            assert(nodes[b].stake == stake_in(stakes, nodes[b].spec_pubkey()));
            assert(nodes[a].spec_pubkey() == nodes[b].spec_pubkey());
        }
    }
    lemma_charged_sum(values, places, caps);
}

/// The weights of an index sum to no more than the stakes of the nodes and
/// the number of gossip records together.
proof fn lemma_index_weights_bounded(
    index: Seq<(u64, usize)>,
    nodes: Seq<Node>,
    gossip: Seq<ContactInfo>,
    stakes: Seq<(Pubkey, u64)>,
)
    requires
        is_node_list(nodes, gossip, stakes),
        index_sound(index, nodes),
    ensures
        total_weight(pair_weights(index)) <= total_weight(node_stakes(nodes)) + gossip.len(),
        index.len() <= gossip.len(),
{
    let count = index.len() as int;
    assert forall|a: int, b: int| 0 <= a < b < count implies index[a].1 != index[b].1 by {
        assert(weighs_before(nodes[index[a].1 as int], nodes[index[b].1 as int]));
    }
    // No more entries than gossip records.
    let ones = Seq::new(index.len(), |j: int| 1u64);
    let records = Seq::new(gossip.len(), |i: int| 1u64);
    let record_of = Seq::new(
        index.len(),
        |j: int|
            choose|i: int|
                0 <= i < gossip.len() && Some(#[trigger] gossip[i]) == nodes[index[j].1 as int].spec_contact_info(),
    );
    assert forall|j: int| 0 <= j < count implies 0 <= #[trigger] record_of[j] < gossip.len() && Some(
        gossip[record_of[j]],
    ) == nodes[index[j].1 as int].spec_contact_info() by {
        let node = nodes[index[j].1 as int];
        match node.node {
            NodeId::ContactInfo(info) => {
                assert(is_first_contact(gossip, info));
                let i = choose|i: int|
                    0 <= i < gossip.len() && #[trigger] gossip[i] == info && forall|j: int|
                        0 <= j < i ==> (#[trigger] gossip[j]).id != info.id;
                assert(Some(gossip[i]) == node.spec_contact_info());
            },
            NodeId::Pubkey(_) => {},
        }
    }
    assert forall|k: int| 0 <= k < ones.len() implies (ones[k] == 0 && #[trigger] record_of[k] == -1)
        || (0 <= record_of[k] < records.len() && ones[k] <= records[record_of[k]]) by {}
    assert forall|a: int, b: int| 0 <= a < b < ones.len() && record_of[a] >= 0 implies #[trigger] record_of[a]
        != #[trigger] record_of[b] by {
        if record_of[a] == record_of[b] {
            lemma_distinct_nodes(nodes, index[a].1 as int, index[b].1 as int);
        }
    }
    lemma_charged_sum(ones, record_of, records);
    lemma_sum_small(ones, count);
    lemma_sum_small(records, gossip.len() as int);
    // The stakes of the indexed nodes are among those of all nodes.
    let indexed_stakes = Seq::new(index.len(), |j: int| nodes[index[j].1 as int].stake);
    let positions = Seq::new(index.len(), |j: int| index[j].1 as int);
    assert forall|a: int, b: int| 0 <= a < b < indexed_stakes.len() && positions[a] >= 0 implies #[trigger] positions[a]
        != #[trigger] positions[b] by {
        assert(index[a].1 != index[b].1);
    }
    lemma_charged_sum(indexed_stakes, positions, node_stakes(nodes));
    lemma_sum_raised(pair_weights(index), indexed_stakes, count);
}

/// Which of the two views to build.
#[derive(Clone, Copy, Debug, PartialEq, Eq, Structural)]
pub enum Role {
    /// The view of a leader, which samples the root of the tree among the
    /// other nodes.
    Broadcast,
    /// The view of a node that passes shreds on, which finds itself in the
    /// tree.
    Retransmit,
}

/// The view of the cluster for one epoch. It is built once and not changed.
pub struct ClusterNodes {
    pubkey: Pubkey,
    nodes: Vec<Node>,
    cumulative_weights: Vec<u64>,
    index: Vec<(u64, usize)>,
}

/// What a [`ClusterNodes`] holds.
pub struct ClusterNodesView {
    /// The local node.
    pub pubkey: Pubkey,
    /// The staked nodes, the peers that gossip knows and the local node, in
    /// descending order of stake and key.
    pub nodes: Seq<Node>,
    /// The cumulative stakes of the nodes but the local one: what a leader
    /// samples from. Empty in the view of a node that passes shreds on.
    pub cumulative_weights: Seq<u64>,
    /// The weight and the position of each node that gossip knows, in
    /// descending order of weight and key.
    pub index: Seq<(u64, usize)>,
}

impl ClusterNodesView {
    /// What every view satisfies, however it was made.
    pub open spec fn wf(self) -> bool {
        &&& self.nodes.len() <= usize::MAX
        &&& descending(self.nodes)
        &&& distinct_nodes(self.nodes)
        &&& total_weight(node_stakes(self.nodes)) <= u64::MAX
        &&& index_sound(self.index, self.nodes)
        &&& total_weight(pair_weights(self.index)) <= u64::MAX
        &&& (self.cumulative_weights.len() == 0 || self.cumulative_weights
            == cumulative_weights_of(self.pubkey, self.nodes))
    }

    /// The key that the index of a view leaves out.
    pub open spec fn excluded(role: Role, pubkey: Pubkey) -> Option<Pubkey> {
        match role {
            Role::Broadcast => Some(pubkey),
            Role::Retransmit => None,
        }
    }

    /// Whether this is the view that `role` asks for of a cluster with
    /// these gossip records and stakes.
    pub open spec fn is_view_of(
        self,
        role: Role,
        cluster_info: ClusterInfoView,
        stakes: Seq<(Pubkey, u64)>,
    ) -> bool {
        &&& self.pubkey == cluster_info.my_contact_info.id
        &&& is_node_list(self.nodes, cluster_info.gossip(), stakes)
        &&& is_index(self.index, self.nodes, Self::excluded(role, self.pubkey))
        &&& self.cumulative_weights == match role {
            Role::Broadcast => cumulative_weights_of(self.pubkey, self.nodes),
            Role::Retransmit => Seq::empty(),
        }
    }

    /// Whether the local node is in the index.
    pub open spec fn indexes_self(self) -> bool {
        exists|j: int|
            0 <= j < self.index.len() && self.nodes[(#[trigger] self.index[j]).1 as int].spec_pubkey()
                == self.pubkey
    }
}

impl View for ClusterNodes {
    type V = ClusterNodesView;

    closed spec fn view(&self) -> ClusterNodesView {
        ClusterNodesView {
            pubkey: self.pubkey,
            nodes: self.nodes@,
            cumulative_weights: self.cumulative_weights@,
            index: self.index@,
        }
    }
}

/// Builds the view that `role` asks for.
///
/// The stakes and the number of gossip records must together fit `u64`, so
/// that no sum of weights overflows.
pub fn new_cluster_nodes(role: Role, cluster_info: &ClusterInfo, stakes: &Stakes) -> (view:
    ClusterNodes)
    requires
        stakes.wf(),
        total_stake(stakes@) + cluster_info@.gossip().len() <= u64::MAX,
    ensures
        view@.wf(),
        view@.is_view_of(role, cluster_info@, stakes@),
        role == Role::Retransmit ==> view@.indexes_self(),
        role == Role::Broadcast ==> !view@.indexes_self(),
{
    let self_pubkey: Pubkey = cluster_info.id();
    let nodes: Vec<Node> = get_nodes(cluster_info, stakes);
    proof {
        stakes.lemma_wf();
        lemma_node_stakes_bounded(nodes@, cluster_info@.gossip(), stakes@);
    }
    let cumulative_weights: Vec<u64> = match role {
        Role::Broadcast => build_cumulative_weights(self_pubkey, &nodes),
        Role::Retransmit => Vec::new(),
    };
    let excluded: Option<Pubkey> = match role {
        Role::Broadcast => Some(self_pubkey),
        Role::Retransmit => None,
    };
    let index: Vec<(u64, usize)> = build_index(&nodes, excluded);
    proof {
        assert(nodes@.len() == nodes.len());
        lemma_index_weights_bounded(index@, nodes@, cluster_info@.gossip(), stakes@);
        let gossip = cluster_info@.gossip();
        assert(gossip[0].id == self_pubkey);
        assert(has_node(nodes@, gossip[0].id));
        let k = choose|k: int| 0 <= k < nodes@.len() && (#[trigger] nodes@[k]).spec_pubkey() == self_pubkey;
        match nodes@[k].node {
            NodeId::ContactInfo(_) => {},
            NodeId::Pubkey(pubkey) => {
                assert(!in_gossip(gossip, pubkey));
            },
        }
        if role == Role::Retransmit {
            assert(indexed(index@, k));
        }
    }
    ClusterNodes { pubkey: self_pubkey, nodes, cumulative_weights, index }
}


/// Whether a record made at `wallclock` is live at `now`: the two are less
/// than the timeout apart, whichever is later.
pub open spec fn is_live(wallclock: u64, now: u64) -> bool {
    (if wallclock < now {
        now - wallclock
    } else {
        wallclock - now
    }) < CRDS_GOSSIP_PULL_CRDS_TIMEOUT_MS
}

/// How many of the first `upto` entries of `index` stand for a node whose
/// gossip record is live at `now`.
pub open spec fn live_count(index: Seq<(u64, usize)>, nodes: Seq<Node>, now: u64, upto: int) -> nat
    decreases upto,
{
    if upto <= 0 || upto > index.len() {
        0
    } else {
        live_count(index, nodes, now, upto - 1) + match nodes[index[upto - 1].1 as int].spec_contact_info() {
            Some(info) => if is_live(info.wallclock, now) {
                1nat
            } else {
                0nat
            },
            None => 0nat,
        }
    }
}

/// No more peers are live than there are.
pub proof fn lemma_live_count_bounded(index: Seq<(u64, usize)>, nodes: Seq<Node>, now: u64, upto: int)
    requires
        0 <= upto <= index.len(),
    ensures
        live_count(index, nodes, now, upto) <= upto,
    decreases upto,
{
    if upto > 0 {
        lemma_live_count_bounded(index, nodes, now, upto - 1);
    }
}

/// Once the clock has reached the wallclock of every indexed peer, the
/// number of live peers does not grow again: a peer that was not live at
/// `earlier` is not live at `later`.
pub proof fn lemma_live_count_monotone(
    index: Seq<(u64, usize)>,
    nodes: Seq<Node>,
    earlier: u64,
    later: u64,
    upto: int,
)
    requires
        0 <= upto <= index.len(),
        earlier <= later,
        forall|j: int|
            0 <= j < index.len() ==> match nodes[(#[trigger] index[j]).1 as int].spec_contact_info() {
                Some(info) => info.wallclock <= earlier,
                None => true,
            },
    ensures
        live_count(index, nodes, later, upto) <= live_count(index, nodes, earlier, upto),
    decreases upto,
{
    if upto > 0 {
        lemma_live_count_monotone(index, nodes, earlier, later, upto - 1);
        assert(match nodes[index[upto - 1].1 as int].spec_contact_info() {
            Some(info) => info.wallclock <= earlier,
            None => true,
        });
    }
}

impl ClusterNodes {
    /// The view of a leader.
    pub fn new(cluster_info: &ClusterInfo, stakes: &Stakes) -> (view: ClusterNodes)
        requires
            stakes.wf(),
            total_stake(stakes@) + cluster_info@.gossip().len() <= u64::MAX,
        ensures
            view@.wf(),
            view@.is_view_of(Role::Broadcast, cluster_info@, stakes@),
            !view@.indexes_self(),
    {
        new_cluster_nodes(Role::Broadcast, cluster_info, stakes)
    }

    /// The local node.
    pub fn pubkey(&self) -> (pubkey: Pubkey)
        ensures
            pubkey == self@.pubkey,
    {
        self.pubkey
    }

    /// The nodes of the view.
    pub fn nodes(&self) -> (nodes: &Vec<Node>)
        ensures
            nodes@ == self@.nodes,
    {
        &self.nodes
    }

    /// The cumulative weights of the view.
    pub fn cumulative_weights(&self) -> (weights: &Vec<u64>)
        ensures
            weights@ == self@.cumulative_weights,
    {
        &self.cumulative_weights
    }

    /// The sampling index of the view.
    pub fn index(&self) -> (index: &Vec<(u64, usize)>)
        ensures
            index@ == self@.index,
    {
        &self.index
    }

    /// The number of peers that can be sampled.
    pub fn num_peers(&self) -> (count: usize)
        ensures
            count == self@.index.len(),
    {
        self.index.len()
    }

    /// The number of peers whose gossip record is live at `now`: made less
    /// than the timeout before or after it.
    pub fn num_peers_live(&self, now: u64) -> (count: usize)
        requires
            self@.wf(),
        ensures
            count == live_count(self@.index, self@.nodes, now, self@.index.len() as int),
            count <= self@.index.len(),
    {
        let len: usize = self.index.len();
        let mut count: usize = 0;
        let mut j: usize = 0;
        while j < len
            invariant
                j <= len,
                len == self.index@.len(),
                self@.wf(),
                count == live_count(self.index@, self.nodes@, now, j as int),
                count <= j,
            decreases len - j,
        {
            let position: usize = self.index[j].1;
            match self.nodes[position].contact_info() {
                Some(info) => {
                    let elapsed: u64 = if info.wallclock < now {
                        now - info.wallclock
                    } else {
                        info.wallclock - now
                    };
                    if elapsed < CRDS_GOSSIP_PULL_CRDS_TIMEOUT_MS {
                        count = count + 1;
                    }
                },
                None => {},
            }
            j = j + 1;
        }
        count
    }
}

impl Default for ClusterNodes {
    /// The view of a cluster of which nothing is known.
    fn default() -> (view: ClusterNodes)
        ensures
            view@.wf(),
            view@.pubkey@ == 0,
            view@.nodes.len() == 0,
            view@.cumulative_weights.len() == 0,
            view@.index.len() == 0,
    {
        ClusterNodes {
            pubkey: Pubkey { hi: 0, lo: 0 },
            nodes: Vec::new(),
            cumulative_weights: Vec::new(),
            index: Vec::new(),
        }
    }
}

} // verus!
