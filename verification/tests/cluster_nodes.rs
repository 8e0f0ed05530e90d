use rand::seq::SliceRandom;
use rand::Rng;
use std::collections::HashMap;
use turbine::cluster_nodes::{new_cluster_nodes, ClusterNodes, Node, Role};
use turbine::contact_info::{ClusterInfo, ContactInfo};
use turbine::pubkey::Pubkey;
use turbine::socket::SocketAddr;
use turbine::stakes::Stakes;
use turbine::turbine_tree::compute_retransmit_peers;
use turbine::weighted_shuffle::{weighted_best, weighted_shuffle};

fn timestamp() -> u64 {
    std::time::SystemTime::now()
        .duration_since(std::time::UNIX_EPOCH)
        .unwrap()
        .as_millis() as u64
}

fn new_rand_pubkey<R: Rng>(rng: &mut R) -> Pubkey {
    let mut bytes = [0u8; 32];
    rng.fill(&mut bytes[..]);
    Pubkey::new_from_array(bytes)
}

fn new_rand_contact_info<R: Rng>(rng: &mut R) -> ContactInfo {
    let port: u16 = rng.gen_range(1024, 65535);
    ContactInfo {
        id: new_rand_pubkey(rng),
        wallclock: timestamp(),
        tvu: SocketAddr::V4 { ip: 0x7f00_0001, port },
        tvu_forwards: SocketAddr::V4 { ip: 0x7f00_0001, port: port + 1 },
    }
}

// Legacy methods, kept for testing backward compatibility.

fn sorted_stakes_with_index(
    peers: &[ContactInfo],
    stakes: Option<&HashMap<Pubkey, u64>>,
) -> Vec<(u64, usize)> {
    let mut stakes_and_index: Vec<(u64, usize)> = peers
        .iter()
        .enumerate()
        .map(|(i, c)| {
            let stake = 1.max(stakes.map_or(1, |stakes| stakes.get(&c.id).map_or(1, |v| *v)));
            (stake, i)
        })
        .collect();
    stakes_and_index.sort_by(|(l_stake, l_info), (r_stake, r_info)| {
        if r_stake == l_stake {
            peers[*r_info].id.cmp(&peers[*l_info].id)
        } else {
            r_stake.cmp(l_stake)
        }
    });
    stakes_and_index
}

fn sorted_retransmit_peers_and_stakes(
    cluster_info: &ClusterInfo,
    stakes: Option<&HashMap<Pubkey, u64>>,
) -> (Vec<ContactInfo>, Vec<(u64, usize)>) {
    let mut peers = cluster_info.tvu_peers.clone();
    peers.push(cluster_info.my_contact_info);
    let stakes_and_index = sorted_stakes_with_index(&peers, stakes);
    (peers, stakes_and_index)
}

fn shuffle_peers_and_index(
    id: &Pubkey,
    peers: &[ContactInfo],
    stakes_and_index: &[(u64, usize)],
    seed: [u8; 32],
) -> (usize, Vec<(u64, usize)>) {
    let stake_weights: Vec<u64> = stakes_and_index.iter().map(|(w, _)| *w).collect();
    let shuffle = weighted_shuffle(&stake_weights, seed);
    let shuffled: Vec<(u64, usize)> = shuffle.iter().map(|x| stakes_and_index[*x]).collect();
    let self_index = shuffled
        .iter()
        .enumerate()
        .find_map(|(i, (_stake, index))| {
            if peers[*index].id == *id {
                Some(i)
            } else {
                None
            }
        })
        .unwrap();
    (self_index, shuffled)
}

fn get_broadcast_peers(
    cluster_info: &ClusterInfo,
    stakes: Option<&HashMap<Pubkey, u64>>,
) -> (Vec<ContactInfo>, Vec<(u64, usize)>) {
    let mut peers = cluster_info.tvu_peers.clone();
    peers.dedup();
    let peers_and_stakes = sorted_stakes_with_index(&peers, stakes);
    (peers, peers_and_stakes)
}

fn make_cluster<R: Rng>(
    rng: &mut R,
) -> (Vec<ContactInfo>, HashMap<Pubkey, u64>, ClusterInfo) {
    let mut nodes: Vec<ContactInfo> = std::iter::repeat_with(|| new_rand_contact_info(rng))
        .take(1000)
        .collect();
    nodes.shuffle(rng);
    let this_node = nodes[0];
    let mut stakes: HashMap<Pubkey, u64> = nodes
        .iter()
        .filter_map(|node| {
            if rng.gen_ratio(1, 7) {
                None // No stake for some of the nodes.
            } else {
                Some((node.id, rng.gen_range(0, 20)))
            }
        })
        .collect();
    // Add some staked nodes with no contact-info.
    stakes.extend(std::iter::repeat_with(|| (new_rand_pubkey(rng), rng.gen_range(0, 20))).take(100));
    let cluster_info = ClusterInfo::new(this_node, nodes[1..].to_vec());
    (nodes, stakes, cluster_info)
}

fn stake_table(stakes: &HashMap<Pubkey, u64>) -> Stakes {
    let mut table = Stakes::new();
    for (pubkey, stake) in stakes {
        assert_eq!(table.insert(*pubkey, *stake), None);
    }
    table
}

fn by_pubkey(cluster_nodes: &ClusterNodes) -> HashMap<Pubkey, Node> {
    cluster_nodes
        .nodes()
        .iter()
        .map(|node| (node.pubkey(), *node))
        .collect()
}

#[test]
fn test_cluster_nodes_retransmit() {
    let mut rng = rand::thread_rng();
    let (nodes, stakes, cluster_info) = make_cluster(&mut rng);
    let this_node = cluster_info.my_contact_info;
    // The peers of a node exclude the node itself.
    assert_eq!(cluster_info.tvu_peers.len(), nodes.len() - 1);
    let cluster_nodes = new_cluster_nodes(Role::Retransmit, &cluster_info, &stake_table(&stakes));
    // All nodes with contact-info should be in the index.
    assert_eq!(cluster_nodes.index().len(), nodes.len());
    // Staked nodes with no contact-info should be included.
    assert!(cluster_nodes.nodes().len() > nodes.len());
    // Assert that all nodes keep their contact-info.
    // and, all staked nodes are also included.
    {
        let cluster_nodes = by_pubkey(&cluster_nodes);
        for node in &nodes {
            assert_eq!(cluster_nodes[&node.id].contact_info().unwrap().id, node.id);
        }
        for (pubkey, stake) in &stakes {
            if *stake > 0 {
                assert_eq!(cluster_nodes[pubkey].stake, *stake);
            }
        }
    }
    let (peers, stakes_and_index) =
        sorted_retransmit_peers_and_stakes(&cluster_info, Some(&stakes));
    assert_eq!(stakes_and_index.len(), peers.len());
    assert_eq!(cluster_nodes.index().len(), peers.len());
    for (i, node) in cluster_nodes
        .index()
        .iter()
        .map(|(_, i)| cluster_nodes.nodes()[*i])
        .enumerate()
    {
        let (stake, index) = stakes_and_index[i];
        if node.pubkey() == this_node.id {
            assert_eq!(this_node.id, peers[index].id)
        } else {
            assert_eq!(node.contact_info().unwrap(), peers[index]);
        }
        assert_eq!(node.stake.max(1), stake);
    }
    let slot_leader = nodes[1..].choose(&mut rng).unwrap().id;
    // Remove slot leader from peers indices.
    let stakes_and_index: Vec<_> = stakes_and_index
        .into_iter()
        .filter(|(_stake, index)| peers[*index].id != slot_leader)
        .collect();
    assert_eq!(peers.len(), stakes_and_index.len() + 1);
    let mut shred_seed = [0u8; 32];
    rng.fill(&mut shred_seed[..]);
    let (self_index, shuffled_peers_and_stakes) =
        shuffle_peers_and_index(&this_node.id, &peers, &stakes_and_index, shred_seed);
    let shuffled_index: Vec<_> = shuffled_peers_and_stakes
        .into_iter()
        .map(|(_, index)| index)
        .collect();
    assert_eq!(this_node.id, peers[shuffled_index[self_index]].id);
    for fanout in 1..200 {
        let (neighbors_indices, children_indices) =
            compute_retransmit_peers(fanout, self_index, &shuffled_index);
        let (neighbors, children) =
            cluster_nodes.get_retransmit_peers_compat(shred_seed, fanout, slot_leader);
        assert_eq!(children.len(), children_indices.len());
        for (node, index) in children.into_iter().zip(children_indices) {
            assert_eq!(node.contact_info().unwrap(), peers[index]);
        }
        assert_eq!(neighbors.len(), neighbors_indices.len());
        assert_eq!(neighbors[0].pubkey(), peers[neighbors_indices[0]].id);
        for (node, index) in neighbors.into_iter().zip(neighbors_indices).skip(1) {
            assert_eq!(node.contact_info().unwrap(), peers[index]);
        }
    }
}

#[test]
fn test_cluster_nodes_broadcast() {
    let mut rng = rand::thread_rng();
    let (nodes, stakes, cluster_info) = make_cluster(&mut rng);
    // The peers of a node exclude the node itself.
    assert_eq!(cluster_info.tvu_peers.len(), nodes.len() - 1);
    let cluster_nodes = ClusterNodes::new(&cluster_info, &stake_table(&stakes));
    // All nodes with contact-info should be in the index.
    // Excluding this node itself.
    assert_eq!(cluster_nodes.index().len() + 1, nodes.len());
    // Staked nodes with no contact-info should be included.
    assert!(cluster_nodes.nodes().len() > nodes.len());
    // Assert that all nodes keep their contact-info.
    // and, all staked nodes are also included.
    {
        let cluster_nodes = by_pubkey(&cluster_nodes);
        for node in &nodes {
            assert_eq!(cluster_nodes[&node.id].contact_info().unwrap().id, node.id);
        }
        for (pubkey, stake) in &stakes {
            if *stake > 0 {
                assert_eq!(cluster_nodes[pubkey].stake, *stake);
            }
        }
    }
    let (peers, peers_and_stakes) = get_broadcast_peers(&cluster_info, Some(&stakes));
    assert_eq!(peers_and_stakes.len(), peers.len());
    assert_eq!(cluster_nodes.index().len(), peers.len());
    for (i, node) in cluster_nodes
        .index()
        .iter()
        .map(|(_, i)| cluster_nodes.nodes()[*i])
        .enumerate()
    {
        let (stake, index) = peers_and_stakes[i];
        assert_eq!(node.contact_info().unwrap(), peers[index]);
        assert_eq!(node.stake.max(1), stake);
    }
    for _ in 0..100 {
        let mut shred_seed = [0u8; 32];
        rng.fill(&mut shred_seed[..]);
        let index = weighted_best(&peers_and_stakes, shred_seed);
        let peer = cluster_nodes.get_broadcast_peer(shred_seed).unwrap();
        assert_eq!(peer, peers[index]);
    }
}
