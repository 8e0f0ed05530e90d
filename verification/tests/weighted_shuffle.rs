use rand::Rng;
use rand::SeedableRng;
use rand_chacha::ChaCha20Rng;
use turbine::weight_tree::WeightTree;
use turbine::weighted_shuffle::{
    weighted_best, weighted_sample_single, weighted_shuffle, WeightedShuffle,
    WeightedShuffleError,
};

fn seeded_rng(seed: [u8; 32]) -> ChaCha20Rng {
    ChaCha20Rng::from_seed(seed)
}

fn gen_range_u64(rng: &mut ChaCha20Rng, low: u64, high: u64) -> u64 {
    rng.gen_range(low, high)
}

fn is_permutation(order: &[usize], n: usize) -> bool {
    let mut seen = vec![false; n];
    for &i in order {
        if i >= n || seen[i] {
            return false;
        }
        seen[i] = true;
    }
    order.len() == n
}

#[test]
fn test_weighted_shuffle_is_a_permutation() {
    let weights: Vec<u64> = vec![5, 0, 3, 1, 0, 100, 7, 7, 2, 0];
    for byte in 0..50u8 {
        let order = weighted_shuffle(&weights, [byte; 32]);
        assert!(is_permutation(&order, weights.len()), "{:?}", order);
    }
}

#[test]
fn test_weighted_shuffle_is_deterministic() {
    let weights: Vec<u64> = (1..200u64).collect();
    let seed = [42u8; 32];
    let first = weighted_shuffle(&weights, seed);
    let second = weighted_shuffle(&weights, seed);
    assert_eq!(first, second);
    let other = weighted_shuffle(&weights, [43u8; 32]);
    assert_ne!(first, other);
}

#[test]
fn test_weighted_shuffle_puts_zero_weights_last() {
    let weights: Vec<u64> = vec![0, 4, 0, 9, 0, 1];
    for byte in 0..50u8 {
        let order = weighted_shuffle(&weights, [byte; 32]);
        assert!(order[..3].iter().all(|&i| weights[i] > 0), "{:?}", order);
        assert!(order[3..].iter().all(|&i| weights[i] == 0), "{:?}", order);
    }
}

#[test]
fn test_weighted_shuffle_all_zero_is_uniform_permutation() {
    let weights: Vec<u64> = vec![0; 8];
    let mut firsts = std::collections::HashSet::new();
    for byte in 0..100u8 {
        let order = weighted_shuffle(&weights, [byte; 32]);
        assert!(is_permutation(&order, 8));
        firsts.insert(order[0]);
    }
    // Every position comes first for some seed.
    assert_eq!(firsts.len(), 8);
}

#[test]
fn test_weighted_shuffle_empty_and_single() {
    assert_eq!(weighted_shuffle(&vec![], [1u8; 32]), Vec::<usize>::new());
    assert_eq!(weighted_shuffle(&vec![17], [1u8; 32]), vec![0]);
    assert_eq!(weighted_shuffle(&vec![0], [1u8; 32]), vec![0]);
}

#[test]
fn test_weighted_shuffle_follows_the_draws() {
    // The first position is the one that a draw below the total selects.
    let weights: Vec<u64> = vec![10, 20, 30];
    let seed = [7u8; 32];
    let mut rng = ChaCha20Rng::from_seed(seed);
    let first_draw = gen_range_u64(&mut rng, 0, 60);
    let expected_first = if first_draw < 10 {
        0
    } else if first_draw < 30 {
        1
    } else {
        2
    };
    let order = weighted_shuffle(&weights, seed);
    assert_eq!(order[0], expected_first);
    // The second is selected among the two that are left.
    let mut left = weights.clone();
    left[expected_first] = 0;
    let total: u64 = left.iter().sum();
    let second_draw = gen_range_u64(&mut rng, 0, total);
    let mut sum = 0;
    let mut expected_second = 0;
    for (i, w) in left.iter().enumerate() {
        sum += w;
        if sum > second_draw {
            expected_second = i;
            break;
        }
    }
    assert_eq!(order[1], expected_second);
}

#[test]
fn test_weighted_shuffle_favors_heavy_weights() {
    let weights: Vec<u64> = vec![1, 1000];
    let mut heavy_first = 0;
    for byte in 0..200u8 {
        let mut seed = [0u8; 32];
        seed[0] = byte;
        if weighted_shuffle(&weights, seed)[0] == 1 {
            heavy_first += 1;
        }
    }
    assert!(heavy_first > 190, "{}", heavy_first);
}

#[test]
fn test_weighted_shuffle_struct_reports_overflow() {
    assert_eq!(
        WeightedShuffle::new(&vec![u64::MAX, 1]).err(),
        Some(WeightedShuffleError::SumOverflow)
    );
    assert!(WeightedShuffle::new(&vec![u64::MAX - 1, 1]).is_ok());
    assert!(WeightedShuffle::new(&vec![]).is_ok());
}

#[test]
fn test_weighted_shuffle_struct_draws_without_replacement() {
    let weights: Vec<u64> = vec![3, 0, 2, 8];
    let mut rng = seeded_rng([9u8; 32]);
    let mut shuffle = WeightedShuffle::new(&weights).unwrap();
    let mut drawn = vec![];
    while let Some(i) = shuffle.next(&mut rng) {
        drawn.push(i);
    }
    drawn.sort_unstable();
    // Every position of positive weight once, that of weight zero never.
    assert_eq!(drawn, vec![0, 2, 3]);
    assert_eq!(shuffle.next(&mut rng), None);

    let mut rng = seeded_rng([9u8; 32]);
    let all = WeightedShuffle::new(&weights).unwrap().shuffle(&mut rng);
    let mut sorted = all.clone();
    sorted.sort_unstable();
    assert_eq!(sorted, vec![0, 2, 3]);
}

#[test]
fn test_weighted_best_is_first_of_shuffle() {
    let pairs: Vec<(u64, usize)> = vec![(5, 40), (1, 41), (9, 42), (3, 43), (7, 44)];
    let weights: Vec<u64> = pairs.iter().map(|p| p.0).collect();
    for byte in 0..100u8 {
        let seed = [byte; 32];
        let best = weighted_best(&pairs, seed);
        let order = weighted_shuffle(&weights, seed);
        assert_eq!(best, pairs[order[0]].1);
    }
}

#[test]
fn test_weighted_best_edge_cases() {
    assert_eq!(weighted_best(&vec![], [0u8; 32]), 0);
    assert_eq!(weighted_best(&vec![(4, 77)], [0u8; 32]), 77);
    // A pair of weight zero is never selected beside one with weight.
    for byte in 0..100u8 {
        assert_eq!(weighted_best(&vec![(0, 1), (5, 2), (0, 3)], [byte; 32]), 2);
    }
    // Where all weights are zero some pair is selected all the same.
    let zero = vec![(0, 10), (0, 11), (0, 12)];
    for byte in 0..20u8 {
        let best = weighted_best(&zero, [byte; 32]);
        assert!((10..13).contains(&best));
    }
}

#[test]
fn test_weighted_sample_single_none() {
    let mut rng = seeded_rng([3u8; 32]);
    assert_eq!(weighted_sample_single(&mut rng, &vec![]), None);
    assert_eq!(weighted_sample_single(&mut rng, &vec![0]), None);
    assert_eq!(weighted_sample_single(&mut rng, &vec![0, 0, 0]), None);
    // Nothing was drawn: the generator stands where a fresh one stands.
    let mut fresh = seeded_rng([3u8; 32]);
    assert_eq!(
        gen_range_u64(&mut rng, 0, 1000),
        gen_range_u64(&mut fresh, 0, 1000)
    );
}

#[test]
fn test_weighted_sample_single_finds_first_above_draw() {
    let cumulative: Vec<u64> = vec![0, 3, 3, 10, 10, 25, 25];
    for byte in 0..100u8 {
        let seed = [byte; 32];
        let mut rng = seeded_rng(seed);
        let picked = weighted_sample_single(&mut rng, &cumulative).unwrap();
        let mut same = seeded_rng(seed);
        let draw = gen_range_u64(&mut same, 0, 25);
        let expected = cumulative.iter().position(|&c| c > draw).unwrap();
        assert_eq!(picked, expected);
        assert!(picked == 1 || picked == 3 || picked == 5);
    }
}

#[test]
fn test_weighted_sample_single_exact_values() {
    assert_eq!(
        weighted_sample_single(&mut seeded_rng([0u8; 32]), &vec![1]),
        Some(0)
    );
    assert_eq!(
        weighted_sample_single(&mut seeded_rng([0u8; 32]), &vec![0, 0, 1]),
        Some(2)
    );
    assert_eq!(
        weighted_sample_single(&mut seeded_rng([5u8; 32]), &vec![0, 7, 7]),
        Some(1)
    );
}

#[test]
fn test_shuffle_draws_move_the_generator_on() {
    // Two shuffles from one generator differ from two shuffles from two
    // generators of one seed: the second goes on where the first ended.
    let weights: Vec<u64> = (1..50u64).collect();
    let mut differs = false;
    for byte in 0..10u8 {
        let mut rng = seeded_rng([byte; 32]);
        let first = WeightedShuffle::new(&weights).unwrap().shuffle(&mut rng);
        let second = WeightedShuffle::new(&weights).unwrap().shuffle(&mut rng);
        let mut fresh = seeded_rng([byte; 32]);
        let again = WeightedShuffle::new(&weights).unwrap().shuffle(&mut fresh);
        assert_eq!(first, again);
        assert!(is_permutation(&second, weights.len()));
        differs |= first != second;
    }
    assert!(differs);
}

#[test]
fn test_weight_tree_selects_and_clears() {
    let weights: Vec<u64> = vec![3, 0, 2, 8, 0, 1, 0];
    let mut tree = WeightTree::new(&weights).unwrap();
    assert_eq!(tree.total(), 14);
    let owner = |weights: &[u64], sample: u64| {
        let mut sum = 0;
        weights.iter().position(|w| {
            sum += w;
            sum > sample
        })
    };
    for sample in 0..14 {
        assert_eq!(Some(tree.select(sample)), owner(&weights, sample));
    }
    assert_eq!(tree.select(0), 0);
    assert_eq!(tree.select(2), 0);
    assert_eq!(tree.select(3), 2);
    assert_eq!(tree.select(5), 3);
    assert_eq!(tree.select(13), 5);
    for k in 0..weights.len() {
        assert_eq!(tree.weight(k), weights[k]);
    }
    tree.clear(3);
    let left: Vec<u64> = vec![3, 0, 2, 0, 0, 1, 0];
    assert_eq!(tree.total(), 6);
    for sample in 0..6 {
        assert_eq!(Some(tree.select(sample)), owner(&left, sample));
    }
    tree.clear(0);
    tree.clear(1);
    assert_eq!(tree.total(), 3);
    assert_eq!(tree.select(0), 2);
    assert_eq!(tree.select(2), 5);
    tree.clear(2);
    tree.clear(5);
    assert_eq!(tree.total(), 0);
    // Any number of weights makes a tree.
    for len in 0..70usize {
        let weights: Vec<u64> = (0..len as u64).map(|i| i % 5).collect();
        let tree = WeightTree::new(&weights).unwrap();
        assert_eq!(tree.total(), weights.iter().sum::<u64>());
        for sample in 0..tree.total() {
            assert_eq!(Some(tree.select(sample)), owner(&weights, sample));
        }
    }
}
