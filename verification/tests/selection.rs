use rand::SeedableRng;
use rand_chacha::ChaCha20Rng;
use turbine::broadcast::MAX_CONTACT_INFO_AGE_MS;
use turbine::cluster_nodes::{new_cluster_nodes, ClusterNodes, Node, Role};
use turbine::contact_info::{ClusterInfo, ContactInfo, CRDS_GOSSIP_PULL_CRDS_TIMEOUT_MS};
use turbine::feature_gate::enable_turbine_peers_shuffle_patch;
use turbine::pubkey::Pubkey;
use turbine::routing::{find_node, nodes_without, shuffle_nodes};
use turbine::socket::{SocketAddr, SocketAddrSpace};
use turbine::stakes::Stakes;
use turbine::turbine_tree::compute_retransmit_peers;
use turbine::weighted_shuffle::{weighted_best, weighted_sample_single};

const NOW: u64 = 1_000_000;

fn seeded_rng(seed: [u8; 32]) -> ChaCha20Rng {
    ChaCha20Rng::from_seed(seed)
}

fn key(n: u8) -> Pubkey {
    let mut bytes = [0u8; 32];
    bytes[0] = n;
    bytes[31] = n;
    Pubkey::new_from_array(bytes)
}

fn public(n: u8, port: u16) -> SocketAddr {
    SocketAddr::V4 { ip: 0x0808_0800 + n as u32, port }
}

fn contact(n: u8, wallclock: u64) -> ContactInfo {
    ContactInfo {
        id: key(n),
        wallclock,
        tvu: public(n, 8000),
        tvu_forwards: public(n, 8001),
    }
}

fn stakes(entries: &[(u8, u64)]) -> Stakes {
    let mut table = Stakes::new();
    for (n, stake) in entries {
        table.insert(key(*n), *stake);
    }
    table
}

// The local node is 1; gossip knows 2..=9; 10 and 11 are staked only.
fn cluster(wallclock: u64) -> (ClusterInfo, Stakes) {
    let peers: Vec<ContactInfo> = (2..=9).map(|n| contact(n, wallclock)).collect();
    let info = ClusterInfo::new(contact(1, wallclock), peers);
    let table = stakes(&[(1, 50), (2, 40), (3, 40), (4, 7), (5, 0), (10, 90), (11, 3), (12, 0)]);
    (info, table)
}

fn pubkeys(nodes: &[Node]) -> Vec<Pubkey> {
    nodes.iter().map(|node| node.pubkey()).collect()
}

#[test]
fn test_view_holds_every_node_once_in_order() {
    let (info, table) = cluster(NOW);
    for role in [Role::Broadcast, Role::Retransmit] {
        let view = new_cluster_nodes(role, &info, &table);
        // By stake, then key, both descending; unstaked keys of the stake
        // table are left out.
        let expected: Vec<(u8, u64)> = vec![
            (10, 90),
            (1, 50),
            (3, 40),
            (2, 40),
            (4, 7),
            (11, 3),
            (9, 0),
            (8, 0),
            (7, 0),
            (6, 0),
            (5, 0),
        ];
        let got: Vec<(Pubkey, u64)> = view.nodes().iter().map(|n| (n.pubkey(), n.stake)).collect();
        let expected: Vec<(Pubkey, u64)> = expected.iter().map(|(n, s)| (key(*n), *s)).collect();
        assert_eq!(got, expected);
        for node in view.nodes() {
            let known = node.pubkey() != key(10) && node.pubkey() != key(11);
            assert_eq!(node.contact_info().is_some(), known);
        }
        assert_eq!(view.pubkey(), key(1));
    }
}

#[test]
fn test_index_weights_and_membership() {
    let (info, table) = cluster(NOW);
    let retransmit = new_cluster_nodes(Role::Retransmit, &info, &table);
    // Weight is the stake, but at least one; order is by weight, then key.
    let expected: Vec<(u64, u8)> = vec![
        (50, 1),
        (40, 3),
        (40, 2),
        (7, 4),
        (1, 9),
        (1, 8),
        (1, 7),
        (1, 6),
        (1, 5),
    ];
    let got: Vec<(u64, Pubkey)> = retransmit
        .index()
        .iter()
        .map(|(w, i)| (*w, retransmit.nodes()[*i].pubkey()))
        .collect();
    let expected: Vec<(u64, Pubkey)> = expected.iter().map(|(w, n)| (*w, key(*n))).collect();
    assert_eq!(got, expected);
    for (weight, position) in retransmit.index() {
        let node = retransmit.nodes()[*position];
        assert!(node.contact_info().is_some());
        assert_eq!(*weight, node.stake.max(1));
        assert_eq!(*weight, node.weight());
    }
    assert!(retransmit.cumulative_weights().is_empty());
    assert_eq!(retransmit.num_peers(), 9);

    // The view of a leader leaves the leader out of the index.
    let broadcast = ClusterNodes::new(&info, &table);
    let got: Vec<(u64, Pubkey)> = broadcast
        .index()
        .iter()
        .map(|(w, i)| (*w, broadcast.nodes()[*i].pubkey()))
        .collect();
    assert_eq!(got, expected[1..].to_vec());
    assert_eq!(broadcast.num_peers(), 8);
}

#[test]
fn test_index_order_differs_from_node_order_for_small_stakes() {
    // A node of stake one and an unstaked node both weigh one: in the index
    // the key decides, in the node list the stake.
    let info = ClusterInfo::new(contact(1, NOW), vec![contact(2, NOW), contact(9, NOW)]);
    let table = stakes(&[(2, 1)]);
    let view = new_cluster_nodes(Role::Retransmit, &info, &table);
    assert_eq!(pubkeys(view.nodes()), vec![key(2), key(9), key(1)]);
    let indexed: Vec<Pubkey> = view.index().iter().map(|(_, i)| view.nodes()[*i].pubkey()).collect();
    assert_eq!(indexed, vec![key(9), key(2), key(1)]);
}

#[test]
fn test_cumulative_weights() {
    let (info, table) = cluster(NOW);
    let view = ClusterNodes::new(&info, &table);
    // The stakes of all nodes but the local one (the second), summed up.
    assert_eq!(
        view.cumulative_weights(),
        &vec![90, 90, 130, 170, 177, 180, 180, 180, 180, 180, 180]
    );
    // Where no other node is staked every other node counts one.
    let unstaked = ClusterNodes::new(&info, &stakes(&[(1, 50)]));
    assert_eq!(unstaked.cumulative_weights(), &vec![0, 1, 2, 3, 4, 5, 6, 7, 8]);
    // A cluster of the local node alone has nothing to sample.
    let alone = ClusterNodes::new(&ClusterInfo::new(contact(1, NOW), vec![]), &Stakes::new());
    assert_eq!(alone.cumulative_weights(), &vec![0]);
    assert_eq!(alone.num_peers(), 0);
}

#[test]
fn test_duplicate_gossip_records_keep_the_first() {
    let mut second = contact(2, NOW + 5);
    second.tvu = public(99, 1);
    let info = ClusterInfo::new(
        contact(1, NOW),
        vec![contact(2, NOW), second, contact(1, NOW + 9)],
    );
    let view = new_cluster_nodes(Role::Retransmit, &info, &stakes(&[(2, 5)]));
    assert_eq!(pubkeys(view.nodes()), vec![key(2), key(1)]);
    assert_eq!(view.nodes()[0].contact_info(), Some(contact(2, NOW)));
    assert_eq!(view.nodes()[1].contact_info(), Some(contact(1, NOW)));
    assert_eq!(view.nodes()[0].stake, 5);
}

#[test]
fn test_default_view_is_empty() {
    let view = ClusterNodes::default();
    assert_eq!(view.pubkey(), Pubkey::default());
    assert!(view.nodes().is_empty());
    assert!(view.index().is_empty());
    assert!(view.cumulative_weights().is_empty());
    assert_eq!(view.num_peers(), 0);
    assert_eq!(view.num_peers_live(NOW), 0);
    assert_eq!(view.get_broadcast_peer([0u8; 32]), None);
    let space = SocketAddrSpace::Unspecified;
    assert!(view.get_broadcast_addrs([0u8; 32], 1, None, NOW, 2, &space).is_empty());
    assert!(view.get_broadcast_addrs([0u8; 32], 1, Some(0), NOW, 2, &space).is_empty());
}

#[test]
fn test_num_peers_live() {
    let timeout = CRDS_GOSSIP_PULL_CRDS_TIMEOUT_MS;
    assert_eq!(timeout, 15000);
    let peers = vec![
        contact(2, NOW),
        contact(3, NOW - timeout + 1),
        contact(4, NOW - timeout),
        contact(5, NOW + timeout - 1),
        contact(6, NOW + timeout),
        contact(7, 0),
    ];
    let info = ClusterInfo::new(contact(1, NOW), peers);
    let view = new_cluster_nodes(Role::Retransmit, &info, &Stakes::new());
    assert_eq!(view.num_peers(), 7);
    // Live: 1, 2, 3 and 5.
    assert_eq!(view.num_peers_live(NOW), 4);
    // One millisecond on, 3 has timed out; 6 has come into reach.
    assert_eq!(view.num_peers_live(NOW + 1), 4);
    let mut last = view.num_peers_live(NOW + timeout);
    assert_eq!(last, 2);
    // Past every wallclock the count only falls.
    for later in [NOW + timeout + 1, NOW + 2 * timeout - 1, NOW + 2 * timeout, u64::MAX] {
        let live = view.num_peers_live(later);
        assert!(live <= last);
        assert!(live <= view.num_peers());
        last = live;
    }
    assert_eq!(last, 0);
    let broadcast = ClusterNodes::new(&info, &Stakes::new());
    assert_eq!(broadcast.num_peers(), 6);
    assert_eq!(broadcast.num_peers_live(NOW), 3);
}

#[test]
fn test_feature_gate() {
    assert!(!enable_turbine_peers_shuffle_patch(7, None));
    assert!(!enable_turbine_peers_shuffle_patch(6, Some(7)));
    assert!(!enable_turbine_peers_shuffle_patch(7, Some(7)));
    assert!(enable_turbine_peers_shuffle_patch(8, Some(7)));
    assert!(enable_turbine_peers_shuffle_patch(u64::MAX, Some(0)));
    assert!(!enable_turbine_peers_shuffle_patch(0, Some(0)));
}

#[test]
fn test_broadcast_legacy_path_is_weighted_best() {
    let (info, table) = cluster(NOW);
    let view = ClusterNodes::new(&info, &table);
    let space = SocketAddrSpace::Unspecified;
    for byte in 0..100u8 {
        let seed = [byte; 32];
        let position = weighted_best(view.index(), seed);
        let expected = view.nodes()[position].contact_info().unwrap();
        assert_eq!(view.get_broadcast_peer(seed), Some(expected));
        // The feature is not activated, or in the epoch of the shred.
        for feature_epoch in [None, Some(5), Some(6)] {
            assert_eq!(
                view.get_broadcast_addrs(seed, 5, feature_epoch, NOW, 3, &space),
                vec![expected.tvu]
            );
        }
    }
}

#[test]
fn test_broadcast_shuffled_path_sends_to_fresh_root() {
    let (info, table) = cluster(NOW);
    let view = ClusterNodes::new(&info, &table);
    let space = SocketAddrSpace::Unspecified;
    let mut roots = std::collections::HashSet::new();
    for byte in 0..100u8 {
        let seed = [byte; 32];
        let mut rng = seeded_rng(seed);
        let position = weighted_sample_single(&mut rng, view.cumulative_weights()).unwrap();
        let root = view.nodes()[position];
        assert_ne!(root.pubkey(), key(1));
        assert!(root.stake > 0);
        roots.insert(root.pubkey());
        let addrs = view.get_broadcast_addrs(seed, 6, Some(5), NOW + 100, 3, &space);
        match root.contact_info() {
            Some(known) => assert_eq!(addrs, vec![known.tvu]),
            None => assert_eq!(addrs, tree_addrs(&view, seed, 3, &space)),
        }
    }
    assert!(roots.len() > 2);
}

fn tree_addrs(view: &ClusterNodes, seed: [u8; 32], fanout: usize, space: &SocketAddrSpace) -> Vec<SocketAddr> {
    let others = nodes_without(view.nodes(), view.pubkey());
    let mut rng = seeded_rng(seed);
    let shuffled = shuffle_nodes(&mut rng, &others);
    let (neighbors, children) = compute_retransmit_peers(fanout, 0, &shuffled);
    let mut addrs = vec![];
    for (i, node) in neighbors.iter().enumerate() {
        if let Some(known) = node.contact_info() {
            addrs.push(if i == 0 { known.tvu } else { known.tvu_forwards });
        }
    }
    for node in &children {
        if let Some(known) = node.contact_info() {
            addrs.push(known.tvu);
        }
    }
    addrs
        .into_iter()
        .filter(|addr| ContactInfo::is_valid_address(addr, space))
        .collect()
}

#[test]
fn test_broadcast_shuffled_path_builds_tree_for_stale_root() {
    let (info, table) = cluster(NOW);
    let view = ClusterNodes::new(&info, &table);
    let space = SocketAddrSpace::Unspecified;
    let stale = NOW + MAX_CONTACT_INFO_AGE_MS;
    for byte in 0..50u8 {
        let seed = [byte; 32];
        for fanout in [1, 2, 3, 5, 20] {
            let addrs = view.get_broadcast_addrs(seed, 6, Some(5), stale, fanout, &space);
            assert_eq!(addrs, tree_addrs(&view, seed, fanout, &space));
            // Two nodes are unknown to gossip: a neighborhood of three
            // holds a node to send to.
            assert!(fanout < 3 || !addrs.is_empty());
            assert!(addrs.len() <= 2 * fanout);
        }
        // One millisecond earlier the root is fresh and gets the shred alone.
        let mut rng = seeded_rng(seed);
        let position = weighted_sample_single(&mut rng, view.cumulative_weights()).unwrap();
        if let Some(known) = view.nodes()[position].contact_info() {
            assert_eq!(
                view.get_broadcast_addrs(seed, 6, Some(5), stale - 1, 3, &space),
                vec![known.tvu]
            );
        }
    }
}

#[test]
fn test_broadcast_root_must_be_within_the_age_on_either_side() {
    let space = SocketAddrSpace::Unspecified;
    let age = MAX_CONTACT_INFO_AGE_MS;
    assert_eq!(age, 120_000);
    let (info, table) = cluster(NOW);
    let view = ClusterNodes::new(&info, &table);
    for byte in 0..50u8 {
        let seed = [byte; 32];
        let mut rng = seeded_rng(seed);
        let position = weighted_sample_single(&mut rng, view.cumulative_weights()).unwrap();
        let root = view.nodes()[position].contact_info();
        let tree = tree_addrs(&view, seed, 3, &space);
        let alone = match root {
            Some(known) => vec![known.tvu],
            None => tree.clone(),
        };
        // The records were made at NOW: a clock that is behind them by the
        // maximum age or more is as far off as one that is ahead.
        for now in [NOW, NOW + age - 1, NOW - age + 1] {
            assert_eq!(view.get_broadcast_addrs(seed, 6, Some(5), now, 3, &space), alone);
        }
        for now in [NOW + age, NOW - age, 0, u64::MAX] {
            assert_eq!(view.get_broadcast_addrs(seed, 6, Some(5), now, 3, &space), tree);
        }
    }
}

#[test]
fn test_broadcast_needs_a_fanout_only_for_the_tree() {
    let space = SocketAddrSpace::Unspecified;
    let (info, table) = cluster(NOW);
    let view = ClusterNodes::new(&info, &table);
    let stale = NOW + MAX_CONTACT_INFO_AGE_MS;
    let mut trees = 0;
    for byte in 0..50u8 {
        let seed = [byte; 32];
        // Before the shuffled selection applies no tree is built.
        assert!(!view.takes_tree(seed, 5, Some(5), stale, &space));
        assert!(!view.takes_tree(seed, 5, None, stale, &space));
        assert_eq!(
            view.checked_broadcast_addrs(seed, 5, Some(5), stale, 0, &space),
            Some(view.get_broadcast_addrs(seed, 5, Some(5), stale, 3, &space))
        );
        // Nor is one built for a root that is known, fresh and valid.
        let mut rng = seeded_rng(seed);
        let position = weighted_sample_single(&mut rng, view.cumulative_weights()).unwrap();
        let known = view.nodes()[position].contact_info().is_some();
        assert_eq!(view.takes_tree(seed, 6, Some(5), NOW, &space), !known);
        let answer = view.checked_broadcast_addrs(seed, 6, Some(5), NOW, 0, &space);
        if known {
            assert_eq!(answer, Some(view.get_broadcast_addrs(seed, 6, Some(5), NOW, 0, &space)));
        } else {
            trees += 1;
            assert_eq!(answer, None);
        }
        // For a stale root the tree is built, which takes a fan-out.
        assert!(view.takes_tree(seed, 6, Some(5), stale, &space));
        assert_eq!(view.checked_broadcast_addrs(seed, 6, Some(5), stale, 0, &space), None);
        assert_eq!(
            view.checked_broadcast_addrs(seed, 6, Some(5), stale, 2, &space),
            Some(tree_addrs(&view, seed, 2, &space))
        );
    }
    assert!(trees > 0);
    // With no node but the leader there is no tree to build.
    let alone = ClusterNodes::new(&ClusterInfo::new(contact(1, NOW), vec![]), &stakes(&[(1, 9)]));
    assert!(!alone.takes_tree([3u8; 32], 6, Some(5), stale, &space));
    assert_eq!(
        alone.checked_broadcast_addrs([3u8; 32], 6, Some(5), stale, 0, &space),
        Some(vec![])
    );
}

#[test]
fn test_broadcast_filters_by_socket_space() {
    let peers: Vec<ContactInfo> = (2..=6)
        .map(|n| ContactInfo {
            id: key(n),
            wallclock: NOW,
            tvu: SocketAddr::V4 { ip: 0x0a00_0000 + n as u32, port: 8000 },
            tvu_forwards: SocketAddr::V4 { ip: 0x0a00_0000 + n as u32, port: 8001 },
        })
        .collect();
    let info = ClusterInfo::new(contact(1, NOW), peers);
    let view = ClusterNodes::new(&info, &stakes(&[(2, 5), (3, 5)]));
    for byte in 0..20u8 {
        let seed = [byte; 32];
        for feature_epoch in [None, Some(1)] {
            // Private addresses are fine where any address is.
            let open = view.get_broadcast_addrs(seed, 5, feature_epoch, NOW, 2, &SocketAddrSpace::Unspecified);
            assert_eq!(open.len(), 1);
            // And are dropped, all of them, where only global ones are.
            let global = view.get_broadcast_addrs(seed, 5, feature_epoch, NOW, 2, &SocketAddrSpace::Global);
            assert!(global.is_empty());
        }
    }
}

#[test]
fn test_broadcast_degenerate_inputs() {
    let space = SocketAddrSpace::Unspecified;
    // No peers.
    let alone = ClusterNodes::new(&ClusterInfo::new(contact(1, NOW), vec![]), &stakes(&[(1, 9)]));
    for feature_epoch in [None, Some(1)] {
        assert!(alone.get_broadcast_addrs([3u8; 32], 5, feature_epoch, NOW, 2, &space).is_empty());
    }
    // Peers of no stake: the draw is uniform and still finds a root.
    let info = ClusterInfo::new(contact(1, NOW), vec![contact(2, NOW), contact(3, NOW)]);
    let unstaked = ClusterNodes::new(&info, &Stakes::new());
    for feature_epoch in [None, Some(1)] {
        let addrs = unstaked.get_broadcast_addrs([3u8; 32], 5, feature_epoch, NOW, 2, &space);
        assert_eq!(addrs.len(), 1);
        assert!(addrs[0] == public(2, 8000) || addrs[0] == public(3, 8000));
    }
    // Only staked keys that gossip does not know: nowhere to send.
    let unknown = ClusterNodes::new(
        &ClusterInfo::new(contact(1, NOW), vec![]),
        &stakes(&[(10, 9), (11, 9)]),
    );
    for feature_epoch in [None, Some(1)] {
        assert!(unknown.get_broadcast_addrs([3u8; 32], 5, feature_epoch, NOW, 2, &space).is_empty());
    }
}

fn retransmit_view() -> ClusterNodes {
    let (info, table) = cluster(NOW);
    new_cluster_nodes(Role::Retransmit, &info, &table)
}

#[test]
fn test_retransmit_self_sits_at_its_offset() {
    let view = retransmit_view();
    for byte in 0..30u8 {
        let seed = [byte; 32];
        for leader in [key(2), key(10), key(1), key(77)] {
            let candidates = if leader == key(1) {
                view.nodes().clone()
            } else {
                nodes_without(view.nodes(), leader)
            };
            let mut rng = seeded_rng(seed);
            let shuffled = shuffle_nodes(&mut rng, &candidates);
            assert_eq!(shuffled.len(), candidates.len());
            assert!(!shuffled.iter().any(|node| node.pubkey() == leader && leader != key(1)));
            let self_index = find_node(&shuffled, key(1)).unwrap();
            for fanout in 1..20usize {
                let expected = compute_retransmit_peers(fanout, self_index, &shuffled);
                let peers = view.get_retransmit_peers(leader, seed, 6, Some(5), fanout);
                assert_eq!(peers, expected);
                assert_eq!(peers.0[self_index % fanout].pubkey(), key(1));
                // The old selection, too, puts the node at its offset.
                let old = view.get_retransmit_peers(leader, seed, 5, Some(5), fanout);
                assert_eq!(old, view.get_retransmit_peers_compat(seed, fanout, leader));
                assert!(old.0.iter().any(|node| node.pubkey() == key(1)));
                assert!(old.0.iter().chain(old.1.iter()).all(|node| node.contact_info().is_some()));
            }
        }
    }
}

#[test]
fn test_retransmit_address_policy() {
    let view = retransmit_view();
    let mut first = 0;
    let mut other = 0;
    for byte in 0..60u8 {
        let seed = [byte; 32];
        for feature in [Some(5), None] {
            let (neighbors, children) = view.get_retransmit_peers(key(3), seed, 6, feature, 3);
            let addrs = view.get_retransmit_addrs(key(3), seed, 6, feature, 3);
            let mut expected = vec![];
            if neighbors[0].pubkey() != key(1) {
                other += 1;
                for node in &children {
                    if let Some(known) = node.contact_info() {
                        expected.push(known.tvu_forwards);
                    }
                }
            } else {
                first += 1;
                for node in &neighbors[1..] {
                    if let Some(known) = node.contact_info() {
                        expected.push(known.tvu_forwards);
                    }
                }
                for node in &children {
                    if let Some(known) = node.contact_info() {
                        expected.push(known.tvu);
                    }
                }
            }
            assert_eq!(addrs, expected);
        }
    }
    assert!(first > 0 && other > 0);
}

#[test]
fn test_retransmit_is_deterministic() {
    let view = retransmit_view();
    let again = retransmit_view();
    let space = SocketAddrSpace::Unspecified;
    let (info, table) = cluster(NOW);
    let leader_view = ClusterNodes::new(&info, &table);
    let leader_again = ClusterNodes::new(&info, &table);
    for byte in 0..30u8 {
        let seed = [byte; 32];
        for feature in [Some(5), None] {
            assert_eq!(
                view.get_retransmit_addrs(key(4), seed, 6, feature, 4),
                again.get_retransmit_addrs(key(4), seed, 6, feature, 4)
            );
            assert_eq!(
                leader_view.get_broadcast_addrs(seed, 6, feature, NOW, 4, &space),
                leader_again.get_broadcast_addrs(seed, 6, feature, NOW, 4, &space)
            );
        }
    }
}

#[test]
fn test_view_does_not_depend_on_the_order_of_the_stake_table() {
    let (info, _) = cluster(NOW);
    let forward = stakes(&[(1, 50), (2, 40), (3, 40), (4, 7), (10, 90), (11, 3)]);
    let backward = stakes(&[(11, 3), (10, 90), (4, 7), (3, 40), (2, 40), (1, 50)]);
    for role in [Role::Broadcast, Role::Retransmit] {
        let a = new_cluster_nodes(role, &info, &forward);
        let b = new_cluster_nodes(role, &info, &backward);
        assert_eq!(a.nodes(), b.nodes());
        assert_eq!(a.index(), b.index());
        assert_eq!(a.cumulative_weights(), b.cumulative_weights());
    }
}

#[test]
fn test_old_and_shuffled_selection_agree_on_staked_known_nodes() {
    // Every node is staked and known to gossip: both selections shuffle
    // the same weights in the same order.
    let peers: Vec<ContactInfo> = (2..=40).map(|n| contact(n, NOW)).collect();
    let info = ClusterInfo::new(contact(1, NOW), peers);
    let entries: Vec<(u8, u64)> = (1..=40).map(|n| (n, 1 + (n as u64 * 37) % 11)).collect();
    let view = new_cluster_nodes(Role::Retransmit, &info, &stakes(&entries));
    for byte in 0..20u8 {
        let seed = [byte; 32];
        for leader in [key(7), key(1), key(40)] {
            for fanout in [1, 2, 3, 6, 50] {
                let old = view.get_retransmit_peers(leader, seed, 5, Some(5), fanout);
                let new = view.get_retransmit_peers(leader, seed, 6, Some(5), fanout);
                assert_eq!(old, new);
                assert_eq!(
                    view.get_retransmit_addrs(leader, seed, 5, None, fanout),
                    view.get_retransmit_addrs(leader, seed, 6, Some(5), fanout)
                );
            }
        }
    }
}
