use std::sync::Arc;
use turbine::cluster_nodes::Role;
use turbine::cluster_nodes_cache::{BankStakes, ClusterNodesCache};
use turbine::contact_info::{ClusterInfo, ContactInfo};
use turbine::pubkey::Pubkey;
use turbine::socket::SocketAddr;
use turbine::stakes::Stakes;

const TTL: u64 = 5_000;

fn key(n: u8) -> Pubkey {
    let mut bytes = [0u8; 32];
    bytes[5] = n;
    Pubkey::new_from_array(bytes)
}

fn contact(n: u8) -> ContactInfo {
    ContactInfo {
        id: key(n),
        wallclock: 0,
        tvu: SocketAddr::V4 { ip: 0x0808_0800 + n as u32, port: 8000 },
        tvu_forwards: SocketAddr::V4 { ip: 0x0808_0800 + n as u32, port: 8001 },
    }
}

fn cluster(peers: u8) -> ClusterInfo {
    ClusterInfo::new(contact(1), (2..2 + peers).map(contact).collect())
}

fn stakes(entries: &[(u8, u64)]) -> Stakes {
    let mut table = Stakes::new();
    for (n, stake) in entries {
        table.insert(key(*n), *stake);
    }
    table
}

fn bank(epoch: u64, tables: Vec<(u64, Stakes)>) -> BankStakes {
    BankStakes { leader_schedule_epoch: epoch, epoch_stakes: tables }
}

#[test]
fn test_cache_hands_out_the_same_view_within_ttl() {
    let mut cache = ClusterNodesCache::new(Role::Retransmit, 4, TTL);
    let root = bank(3, vec![(3, stakes(&[(2, 10)]))]);
    let working = bank(3, vec![]);
    let first = cache.get(100, 3, &root, &working, &cluster(3));
    assert_eq!(first.nodes().len(), 4);
    assert_eq!(first.nodes()[0].pubkey(), key(2));
    assert_eq!(first.nodes()[0].stake, 10);
    // Gossip has changed, but the view is still young.
    let second = cache.get(100 + TTL - 1, 3, &root, &working, &cluster(5));
    assert!(Arc::ptr_eq(&first, &second));
    // A clock that has gone back makes nothing older.
    let third = cache.get(0, 3, &root, &working, &cluster(5));
    assert!(Arc::ptr_eq(&first, &third));
}

#[test]
fn test_cache_rebuilds_after_ttl() {
    let mut cache = ClusterNodesCache::new(Role::Retransmit, 4, TTL);
    let root = bank(3, vec![(3, stakes(&[(2, 10)]))]);
    let working = bank(3, vec![]);
    let first = cache.get(100, 3, &root, &working, &cluster(3));
    let second = cache.get(100 + TTL, 3, &root, &working, &cluster(5));
    assert!(!Arc::ptr_eq(&first, &second));
    assert_eq!(second.nodes().len(), 6);
    // The holder of the old view still sees the old view.
    assert_eq!(first.nodes().len(), 4);
    // The new view is young again.
    let third = cache.get(100 + 2 * TTL - 1, 3, &root, &working, &cluster(7));
    assert!(Arc::ptr_eq(&second, &third));
    let fourth = cache.get(100 + 2 * TTL, 3, &root, &working, &cluster(7));
    assert_eq!(fourth.nodes().len(), 8);
}

#[test]
fn test_cache_builds_the_view_of_its_role() {
    let root = bank(3, vec![(3, stakes(&[(2, 10)]))]);
    let working = bank(3, vec![]);
    let mut retransmit = ClusterNodesCache::new(Role::Retransmit, 4, TTL);
    let view = retransmit.get(100, 3, &root, &working, &cluster(3));
    assert_eq!(view.num_peers(), 4);
    assert!(view.cumulative_weights().is_empty());
    let mut broadcast = ClusterNodesCache::new(Role::Broadcast, 4, TTL);
    let view = broadcast.get(100, 3, &root, &working, &cluster(3));
    assert_eq!(view.num_peers(), 3);
    assert_eq!(view.cumulative_weights(), &vec![10, 10, 10, 10]);
}

#[test]
fn test_cache_falls_back_to_the_working_bank() {
    let mut cache = ClusterNodesCache::new(Role::Retransmit, 4, TTL);
    let root = bank(3, vec![(3, stakes(&[(2, 10)]))]);
    let working = bank(3, vec![(3, stakes(&[(2, 99)])), (4, stakes(&[(3, 44)]))]);
    // The root bank knows epoch 3 and is asked first.
    let view = cache.get(100, 3, &root, &working, &cluster(3));
    assert_eq!((view.nodes()[0].pubkey(), view.nodes()[0].stake), (key(2), 10));
    // Only the working bank knows epoch 4.
    let view = cache.get(100, 4, &root, &working, &cluster(3));
    assert_eq!((view.nodes()[0].pubkey(), view.nodes()[0].stake), (key(3), 44));
}

#[test]
fn test_cache_retries_with_the_epoch_of_the_root() {
    let mut cache = ClusterNodesCache::new(Role::Retransmit, 4, TTL);
    let root = bank(3, vec![(3, stakes(&[(2, 10)]))]);
    let working = bank(3, vec![]);
    // No bank knows epoch 9: the view of the root's epoch is handed out.
    let view = cache.get(100, 9, &root, &working, &cluster(3));
    assert_eq!((view.nodes()[0].pubkey(), view.nodes()[0].stake), (key(2), 10));
    // And it is kept as the view of the root's epoch.
    let again = cache.get(200, 3, &root, &working, &cluster(5));
    assert!(Arc::ptr_eq(&view, &again));
    let once_more = cache.get(300, 9, &root, &working, &cluster(5));
    assert!(Arc::ptr_eq(&view, &once_more));
}

#[test]
fn test_cache_builds_without_stakes_where_no_bank_knows_any() {
    let mut cache = ClusterNodesCache::new(Role::Retransmit, 4, TTL);
    let root = bank(3, vec![(2, stakes(&[(2, 10)]))]);
    let working = bank(3, vec![]);
    for epoch in [3, 9] {
        let view = cache.get(100, epoch, &root, &working, &cluster(3));
        assert_eq!(view.nodes().len(), 4);
        assert!(view.nodes().iter().all(|node| node.stake == 0));
    }
}

#[test]
fn test_cache_drops_the_epoch_used_longest_ago() {
    let mut cache = ClusterNodesCache::new(Role::Retransmit, 2, TTL);
    let root = bank(1, vec![]);
    let working = bank(1, vec![(1, Stakes::new()), (2, Stakes::new()), (3, Stakes::new())]);
    let info = cluster(2);
    let one = cache.get(100, 1, &root, &working, &info);
    let two = cache.get(100, 2, &root, &working, &info);
    // Epoch 1 is used again, so epoch 2 is the one to go.
    assert!(Arc::ptr_eq(&one, &cache.get(101, 1, &root, &working, &info)));
    let three = cache.get(102, 3, &root, &working, &info);
    assert!(Arc::ptr_eq(&one, &cache.get(103, 1, &root, &working, &info)));
    assert!(Arc::ptr_eq(&three, &cache.get(103, 3, &root, &working, &info)));
    assert!(!Arc::ptr_eq(&two, &cache.get(104, 2, &root, &working, &info)));
}

#[test]
fn test_cache_for_no_epochs_keeps_nothing() {
    let mut cache = ClusterNodesCache::new(Role::Broadcast, 0, TTL);
    let root = bank(1, vec![(1, Stakes::new())]);
    let working = bank(1, vec![]);
    let info = cluster(2);
    let first = cache.get(100, 1, &root, &working, &info);
    let second = cache.get(100, 1, &root, &working, &info);
    assert!(!Arc::ptr_eq(&first, &second));
    assert_eq!(first.nodes(), second.nodes());
}

#[test]
fn test_cache_with_ttl_zero_always_rebuilds() {
    let mut cache = ClusterNodesCache::new(Role::Broadcast, 4, 0);
    let root = bank(1, vec![(1, Stakes::new())]);
    let working = bank(1, vec![]);
    let info = cluster(2);
    let first = cache.get(100, 1, &root, &working, &info);
    let second = cache.get(100, 1, &root, &working, &info);
    assert!(!Arc::ptr_eq(&first, &second));
}
