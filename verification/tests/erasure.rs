use tgcryptfs::error::Error;
use tgcryptfs::raid::erasure::place_blocks;
use tgcryptfs::raid::Encoder;

#[test]
fn test_encoder_creation() {
    // Valid configurations
    assert!(Encoder::new(2, 3).is_ok());
    assert!(Encoder::new(3, 5).is_ok());
    assert!(Encoder::new(4, 6).is_ok());

    // Invalid configurations
    assert!(Encoder::new(0, 3).is_err()); // K = 0
    assert!(Encoder::new(3, 3).is_err()); // N = K
    assert!(Encoder::new(5, 3).is_err()); // N < K
}

#[test]
fn test_encode_decode_roundtrip_2_3() {
    let encoder = Encoder::new(2, 3).unwrap();
    let data = b"Hello, World! This is a test of erasure coding.";

    let shards = encoder.encode(data).unwrap();
    assert_eq!(shards.len(), 3);

    // All shards present
    let mut shards_opt: Vec<Option<Vec<u8>>> =
        shards.iter().map(|s| Some(s.clone())).collect();
    let decoded = encoder.decode(&mut shards_opt).unwrap();
    assert_eq!(decoded, data);
}

#[test]
fn test_encode_decode_roundtrip_3_5() {
    let encoder = Encoder::new(3, 5).unwrap();
    let data = b"Testing with 3-of-5 erasure coding configuration.";

    let shards = encoder.encode(data).unwrap();
    assert_eq!(shards.len(), 5);

    // All shards present
    let mut shards_opt: Vec<Option<Vec<u8>>> =
        shards.iter().map(|s| Some(s.clone())).collect();
    let decoded = encoder.decode(&mut shards_opt).unwrap();
    assert_eq!(decoded, data);
}

#[test]
fn test_encode_decode_roundtrip_4_6() {
    let encoder = Encoder::new(4, 6).unwrap();
    let data = b"Testing with 4-of-6 erasure coding for RAID-like redundancy.";

    let shards = encoder.encode(data).unwrap();
    assert_eq!(shards.len(), 6);

    // All shards present
    let mut shards_opt: Vec<Option<Vec<u8>>> =
        shards.iter().map(|s| Some(s.clone())).collect();
    let decoded = encoder.decode(&mut shards_opt).unwrap();
    assert_eq!(decoded, data);
}

#[test]
fn test_reconstruction_with_missing_shards_2_3() {
    let encoder = Encoder::new(2, 3).unwrap();
    let data = b"Test data for reconstruction";

    let shards = encoder.encode(data).unwrap();

    // Missing one shard (still have K=2 shards)
    let mut shards_opt: Vec<Option<Vec<u8>>> = vec![
        Some(shards[0].clone()),
        Some(shards[1].clone()),
        None, // Missing parity shard
    ];
    let decoded = encoder.decode(&mut shards_opt).unwrap();
    assert_eq!(decoded, data);

    // Missing first data shard
    let mut shards_opt: Vec<Option<Vec<u8>>> = vec![
        None, // Missing data shard
        Some(shards[1].clone()),
        Some(shards[2].clone()),
    ];
    let decoded = encoder.decode(&mut shards_opt).unwrap();
    assert_eq!(decoded, data);

    // Missing second data shard
    let mut shards_opt: Vec<Option<Vec<u8>>> = vec![
        Some(shards[0].clone()),
        None, // Missing data shard
        Some(shards[2].clone()),
    ];
    let decoded = encoder.decode(&mut shards_opt).unwrap();
    assert_eq!(decoded, data);
}

#[test]
fn test_reconstruction_with_missing_shards_3_5() {
    let encoder = Encoder::new(3, 5).unwrap();
    let data = b"Test data for 3-of-5 reconstruction";

    let shards = encoder.encode(data).unwrap();

    // Missing two shards (still have K=3 shards)
    let mut shards_opt: Vec<Option<Vec<u8>>> = vec![
        Some(shards[0].clone()),
        None,
        Some(shards[2].clone()),
        None,
        Some(shards[4].clone()),
    ];
    let decoded = encoder.decode(&mut shards_opt).unwrap();
    assert_eq!(decoded, data);

    // Missing first two data shards
    let mut shards_opt: Vec<Option<Vec<u8>>> = vec![
        None,
        None,
        Some(shards[2].clone()),
        Some(shards[3].clone()),
        Some(shards[4].clone()),
    ];
    let decoded = encoder.decode(&mut shards_opt).unwrap();
    assert_eq!(decoded, data);
}

#[test]
fn test_reconstruction_with_missing_shards_4_6() {
    let encoder = Encoder::new(4, 6).unwrap();
    let data = b"Test data for 4-of-6 reconstruction scenario";

    let shards = encoder.encode(data).unwrap();

    // Missing two shards (still have K=4 shards)
    let mut shards_opt: Vec<Option<Vec<u8>>> = vec![
        Some(shards[0].clone()),
        None,
        Some(shards[2].clone()),
        Some(shards[3].clone()),
        None,
        Some(shards[5].clone()),
    ];
    let decoded = encoder.decode(&mut shards_opt).unwrap();
    assert_eq!(decoded, data);
}

#[test]
fn test_not_enough_shards() {
    let encoder = Encoder::new(3, 5).unwrap();
    let data = b"Test data";

    let shards = encoder.encode(data).unwrap();

    // Only 2 shards (need 3)
    let mut shards_opt: Vec<Option<Vec<u8>>> = vec![
        Some(shards[0].clone()),
        Some(shards[1].clone()),
        None,
        None,
        None,
    ];

    assert!(encoder.decode(&mut shards_opt).is_err());
}

#[test]
fn test_can_reconstruct() {
    let encoder = Encoder::new(3, 5).unwrap();
    let data = b"Test";

    let shards = encoder.encode(data).unwrap();

    // Enough shards (3)
    let shards_opt: Vec<Option<Vec<u8>>> = vec![
        Some(shards[0].clone()),
        Some(shards[1].clone()),
        Some(shards[2].clone()),
        None,
        None,
    ];
    assert!(encoder.can_reconstruct(&shards_opt));

    // Not enough shards (2)
    let shards_opt: Vec<Option<Vec<u8>>> = vec![
        Some(shards[0].clone()),
        Some(shards[1].clone()),
        None,
        None,
        None,
    ];
    assert!(!encoder.can_reconstruct(&shards_opt));

    // Exactly K shards
    let shards_opt: Vec<Option<Vec<u8>>> = vec![
        None,
        Some(shards[1].clone()),
        Some(shards[2].clone()),
        Some(shards[3].clone()),
        None,
    ];
    assert!(encoder.can_reconstruct(&shards_opt));
}

#[test]
fn test_shard_size() {
    let encoder = Encoder::new(3, 5).unwrap();

    // 100 bytes + 8 byte header = 108 bytes, ceil(108/3) = 36
    assert_eq!(encoder.shard_size(100), 36);

    // 9 bytes + 8 byte header = 17 bytes, ceil(17/3) = 6
    assert_eq!(encoder.shard_size(9), 6);

    // 0 bytes + 8 byte header = 8 bytes, ceil(8/3) = 3
    assert_eq!(encoder.shard_size(0), 3);
}

#[test]
fn test_accessors() {
    let encoder = Encoder::new(3, 5).unwrap();
    assert_eq!(encoder.data_shards(), 3);
    assert_eq!(encoder.total_shards(), 5);
}

#[test]
fn test_empty_data() {
    let encoder = Encoder::new(2, 3).unwrap();
    let data: &[u8] = b"";

    let shards = encoder.encode(data).unwrap();
    assert_eq!(shards.len(), 3);

    let mut shards_opt: Vec<Option<Vec<u8>>> =
        shards.iter().map(|s| Some(s.clone())).collect();
    let decoded = encoder.decode(&mut shards_opt).unwrap();
    assert_eq!(decoded, data);
}

#[test]
fn test_large_data() {
    let encoder = Encoder::new(4, 6).unwrap();
    // 1MB of data
    let data: Vec<u8> = (0..1_000_000).map(|i| (i % 256) as u8).collect();

    let shards = encoder.encode(&data).unwrap();
    assert_eq!(shards.len(), 6);

    // Verify shard sizes are consistent
    let shard_size = shards[0].len();
    for shard in &shards {
        assert_eq!(shard.len(), shard_size);
    }

    // Reconstruct with missing shards
    let mut shards_opt: Vec<Option<Vec<u8>>> = vec![
        Some(shards[0].clone()),
        None,
        Some(shards[2].clone()),
        Some(shards[3].clone()),
        Some(shards[4].clone()),
        None,
    ];
    let decoded = encoder.decode(&mut shards_opt).unwrap();
    assert_eq!(decoded, data);
}

#[test]
fn test_data_not_divisible_by_k() {
    let encoder = Encoder::new(3, 5).unwrap();
    // 17 bytes - not divisible by 3
    let data = b"12345678901234567";

    let shards = encoder.encode(data).unwrap();
    assert_eq!(shards.len(), 5);

    let mut shards_opt: Vec<Option<Vec<u8>>> =
        shards.iter().map(|s| Some(s.clone())).collect();
    let decoded = encoder.decode(&mut shards_opt).unwrap();
    assert_eq!(decoded, data.as_slice());
}

#[test]
fn test_all_missing_combinations_2_3() {
    let encoder = Encoder::new(2, 3).unwrap();
    let data = b"All combinations test";

    let shards = encoder.encode(data).unwrap();

    // Test all valid combinations (any 2 of 3)
    let valid_combinations = [
        [true, true, false],
        [true, false, true],
        [false, true, true],
        [true, true, true],
    ];

    for combo in valid_combinations {
        let mut shards_opt: Vec<Option<Vec<u8>>> = shards
            .iter()
            .enumerate()
            .map(|(i, s)| if combo[i] { Some(s.clone()) } else { None })
            .collect();
        let decoded = encoder.decode(&mut shards_opt).unwrap();
        assert_eq!(decoded, data.as_slice(), "Failed for combination {:?}", combo);
    }
}

#[test]
fn erasure_round_trip_for_every_code_up_to_16() {
    // For every (K, N) with 1 <= K < N <= 16: any K shards give the data
    // back, fewer give NotEnoughShards.
    let data: Vec<u8> = (0..997u32).map(|i| (i * 31 % 251) as u8).collect();
    let mut n: usize = 2;
    while n <= 16 {
        let mut k: usize = 1;
        while k < n {
            let encoder = Encoder::new(k, n).unwrap();
            let shards = encoder.encode(&data).unwrap();
            assert_eq!(shards.len(), n);
            for shard in &shards {
                assert_eq!(shard.len(), encoder.shard_size(data.len()));
            }
            // Keep K shards, starting at a place that moves with the code.
            let first = (k * 7 + n) % n;
            let mut kept: Vec<Option<Vec<u8>>> = vec![None; n];
            let mut j: usize = 0;
            while j < k {
                let place = (first + j) % n;
                kept[place] = Some(shards[place].clone());
                j += 1;
            }
            let decoded = encoder.decode(&mut kept).unwrap();
            assert_eq!(decoded, data);
            // The missing shards were rebuilt in place.
            for (place, shard) in kept.iter().enumerate() {
                assert_eq!(shard.as_ref().unwrap(), &shards[place]);
            }
            // One shard fewer is not enough.
            let mut short: Vec<Option<Vec<u8>>> = vec![None; n];
            let mut j: usize = 0;
            while j + 1 < k {
                short[j] = Some(shards[j].clone());
                j += 1;
            }
            match encoder.decode(&mut short) {
                Err(Error::NotEnoughShards { available, required }) => {
                    assert_eq!(available, k - 1);
                    assert_eq!(required, k);
                }
                other => panic!("expected NotEnoughShards, got {:?}", other),
            }
            k += 1;
        }
        n += 1;
    }
}

#[test]
fn erasure_data_shards_hold_the_framed_data() {
    let encoder = Encoder::new(2, 3).unwrap();
    let shards = encoder.encode(b"abcde").unwrap();
    // 5 bytes behind an 8-byte header, padded to 2 shards of 7 bytes.
    assert_eq!(shards[0], vec![0, 0, 0, 0, 0, 0, 0]);
    assert_eq!(shards[1], vec![5, b'a', b'b', b'c', b'd', b'e', 0]);
    assert_eq!(shards[2].len(), 7);
    // The parity is computed, not copied.
    assert_ne!(shards[2], shards[0]);
}

#[test]
fn erasure_refuses_bad_parameters_and_shapes() {
    assert!(matches!(Encoder::new(0, 3), Err(Error::InvalidErasureConfig(_))));
    assert!(matches!(Encoder::new(3, 3), Err(Error::InvalidErasureConfig(_))));
    assert!(matches!(Encoder::new(200, 256), Err(Error::InvalidErasureConfig(_))));
    assert!(Encoder::new(254, 255).is_ok());
    let encoder = Encoder::new(2, 3).unwrap();
    let shards = encoder.encode(b"shape").unwrap();
    // Wrong number of places.
    let mut two: Vec<Option<Vec<u8>>> = vec![Some(shards[0].clone()), Some(shards[1].clone())];
    assert!(matches!(encoder.decode(&mut two), Err(Error::ErasureDecode(_))));
    // Shards of different lengths.
    let mut uneven: Vec<Option<Vec<u8>>> = vec![Some(shards[0].clone()), Some(vec![1, 2]), None];
    assert!(matches!(encoder.decode(&mut uneven), Err(Error::ErasureDecode(_))));
    assert_eq!(uneven[2], None);
    // A header that claims more than the shards hold.
    let mut lying: Vec<Option<Vec<u8>>> = vec![Some(vec![0xff; 7]), Some(vec![0xff; 7]), None];
    assert!(matches!(encoder.decode(&mut lying), Err(Error::ErasureDecode(_))));
}

#[test]
fn erasure_place_blocks_by_index() {
    let placed = place_blocks(vec![(2, vec![9]), (0, vec![7]), (5, vec![1]), (2, vec![8])], 4);
    assert_eq!(placed, vec![Some(vec![7]), None, Some(vec![8]), None]);
    assert_eq!(place_blocks(Vec::new(), 2), vec![None, None]);
}
