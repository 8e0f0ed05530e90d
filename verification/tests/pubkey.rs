use turbine::pubkey::Pubkey;
use turbine::stakes::Stakes;

#[test]
fn test_pubkey_bytes_round_trip() {
    let mut bytes = [0u8; 32];
    for (i, byte) in bytes.iter_mut().enumerate() {
        *byte = (i * 7 + 3) as u8;
    }
    let key = Pubkey::new_from_array(bytes);
    assert_eq!(key.to_bytes(), bytes);
    assert_eq!(key.hi, u128::from_be_bytes(bytes[..16].try_into().unwrap()));
    assert_eq!(key.lo, u128::from_be_bytes(bytes[16..].try_into().unwrap()));
    assert_eq!(Pubkey::new_from_array([0xff; 32]).to_bytes(), [0xff; 32]);
    assert_eq!(Pubkey::new_from_array([0; 32]), Pubkey::default());
    assert_eq!(Pubkey::default().to_bytes(), [0; 32]);
}

#[test]
fn test_pubkey_order_is_that_of_the_bytes() {
    let mut state: u64 = 0x1234_5678_9abc_def0;
    let mut next = move || {
        state = state.wrapping_mul(6364136223846793005).wrapping_add(1442695040888963407);
        (state >> 33) as u8
    };
    let mut keys: Vec<[u8; 32]> = vec![];
    for _ in 0..200 {
        let mut bytes = [0u8; 32];
        for byte in bytes.iter_mut() {
            // Few values, so that long common prefixes occur.
            *byte = next() % 3;
        }
        keys.push(bytes);
    }
    for a in &keys {
        for b in &keys {
            let (x, y) = (Pubkey::new_from_array(*a), Pubkey::new_from_array(*b));
            assert_eq!(x.lt(&y), a < b);
            assert_eq!(x == y, a == b);
            assert_eq!(x.cmp(&y), a.cmp(b));
        }
    }
}

#[test]
fn test_pubkey_text_is_base58() {
    assert_eq!(Pubkey::default().to_string(), "11111111111111111111111111111111");
    let mut bytes = [0u8; 32];
    bytes[31] = 1;
    assert_eq!(
        Pubkey::new_from_array(bytes).to_string(),
        "11111111111111111111111111111112"
    );
    let bytes: Vec<u8> = (1..=32).collect();
    let key = Pubkey::new_from_array(bytes.clone().try_into().unwrap());
    assert_eq!(key.to_string(), bs58::encode(&bytes).into_string());
    assert_ne!(key.to_string(), bs58::encode(&bytes[1..]).into_string());
}

#[test]
fn test_stakes_table() {
    let key = |n: u8| Pubkey::new_from_array([n; 32]);
    let mut stakes = Stakes::new();
    assert_eq!(stakes.len(), 0);
    assert_eq!(stakes.total(), 0);
    assert_eq!(stakes.get(&key(1)), None);
    assert_eq!(stakes.insert(key(1), 10), None);
    assert_eq!(stakes.insert(key(2), 0), None);
    assert_eq!(stakes.insert(key(3), 30), None);
    assert_eq!(stakes.len(), 3);
    assert_eq!(stakes.total(), 40);
    assert_eq!(stakes.get(&key(1)), Some(10));
    assert_eq!(stakes.get(&key(2)), Some(0));
    assert_eq!(stakes.get(&key(4)), None);
    // A second entry for a key replaces the first.
    assert_eq!(stakes.insert(key(1), 15), Some(10));
    assert_eq!(stakes.len(), 3);
    assert_eq!(stakes.total(), 45);
    assert_eq!(stakes.get(&key(1)), Some(15));
    assert_eq!(stakes.entry(0), (key(1), 15));
    assert_eq!(stakes.entry(2), (key(3), 30));
    assert_eq!(stakes.insert(key(3), 0), Some(30));
    assert_eq!(stakes.total(), 15);
}
