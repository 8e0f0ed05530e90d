use turbine::turbine_tree::compute_retransmit_peers;

#[test]
fn test_compute_retransmit_peers_exact() {
    let nodes: Vec<usize> = (100..130).collect();
    // Fan-out 3: neighborhoods [0,3), [3,6), ...; position i owns the
    // positions from 3 * 3 * (i / 3) + 3 * (i % 3 + 1) on.
    let (neighbors, children) = compute_retransmit_peers(3, 0, &nodes);
    assert_eq!(neighbors, vec![100, 101, 102]);
    assert_eq!(children, vec![103, 104, 105]);
    let (neighbors, children) = compute_retransmit_peers(3, 1, &nodes);
    assert_eq!(neighbors, vec![100, 101, 102]);
    assert_eq!(children, vec![106, 107, 108]);
    let (neighbors, children) = compute_retransmit_peers(3, 2, &nodes);
    assert_eq!(neighbors, vec![100, 101, 102]);
    assert_eq!(children, vec![109, 110, 111]);
    let (neighbors, children) = compute_retransmit_peers(3, 4, &nodes);
    assert_eq!(neighbors, vec![103, 104, 105]);
    assert_eq!(children, vec![115, 116, 117]);
    let (neighbors, children) = compute_retransmit_peers(3, 8, &nodes);
    assert_eq!(neighbors, vec![106, 107, 108]);
    assert_eq!(children, vec![127, 128, 129]);
}

#[test]
fn test_compute_retransmit_peers_cut_off_at_the_end() {
    let nodes: Vec<usize> = (0..10).collect();
    let (neighbors, children) = compute_retransmit_peers(4, 9, &nodes);
    assert_eq!(neighbors, vec![8, 9]);
    assert_eq!(children, Vec::<usize>::new());
    let (neighbors, children) = compute_retransmit_peers(4, 1, &nodes);
    assert_eq!(neighbors, vec![0, 1, 2, 3]);
    assert_eq!(children, vec![8, 9]);
    let (neighbors, children) = compute_retransmit_peers(4, 2, &nodes);
    assert_eq!(neighbors, vec![0, 1, 2, 3]);
    assert_eq!(children, Vec::<usize>::new());
    // A position past the end has no neighbors and no children.
    let (neighbors, children) = compute_retransmit_peers(4, 12, &nodes);
    assert_eq!(neighbors, Vec::<usize>::new());
    assert_eq!(children, Vec::<usize>::new());
    // Nor has any position of an empty list.
    let (neighbors, children) = compute_retransmit_peers(4, 0, &Vec::<usize>::new());
    assert_eq!(neighbors, Vec::<usize>::new());
    assert_eq!(children, Vec::<usize>::new());
}

#[test]
fn test_compute_retransmit_peers_fanout_one() {
    let nodes: Vec<usize> = (0..5).collect();
    for i in 0..5 {
        let (neighbors, children) = compute_retransmit_peers(1, i, &nodes);
        assert_eq!(neighbors, vec![i]);
        if i + 1 < 5 {
            assert_eq!(children, vec![i + 1]);
        } else {
            assert_eq!(children, Vec::<usize>::new());
        }
    }
}

#[test]
fn test_compute_retransmit_peers_huge_fanout() {
    let nodes: Vec<usize> = (0..5).collect();
    let (neighbors, children) = compute_retransmit_peers(usize::MAX, 3, &nodes);
    assert_eq!(neighbors, nodes);
    assert_eq!(children, Vec::<usize>::new());
}

#[test]
fn test_every_node_has_one_parent() {
    // Every position beyond the first neighborhood is the child of exactly
    // one position, and a node sits in its neighborhood at its offset.
    for fanout in 1..8usize {
        for len in 0..60usize {
            let nodes: Vec<usize> = (0..len).collect();
            let mut parents = vec![0; len];
            for i in 0..len {
                let (neighbors, children) = compute_retransmit_peers(fanout, i, &nodes);
                assert_eq!(neighbors[i % fanout], i);
                assert!(neighbors.len() <= fanout && children.len() <= fanout);
                for child in children {
                    parents[child] += 1;
                }
            }
            for (position, count) in parents.iter().enumerate() {
                assert_eq!(*count, if position < fanout { 0 } else { 1 });
            }
        }
    }
}
