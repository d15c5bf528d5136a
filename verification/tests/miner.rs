use trinitychain::blockchain::Block;
use trinitychain::blockchain::BlockHeader;
use trinitychain::blockchain::ChainError;
use trinitychain::miner::is_hash_valid;
use trinitychain::miner::mine_block;
use trinitychain::miner::mine_block_parallel;
use trinitychain::miner::next_timestamp;
use trinitychain::miner::nonce_range;
use trinitychain::miner::search_nonces;
use trinitychain::miner::worker_finds;

fn header(difficulty: u32) -> BlockHeader {
    BlockHeader {
        height: 1,
        timestamp: 1000,
        previous_hash: [5u8; 32],
        merkle_root: [6u8; 32],
        difficulty,
        nonce: 0,
    }
}

fn meets(header: &BlockHeader) -> bool {
    header.hash() <= Block::hash_to_target(&header.difficulty)
}

#[test]
fn hash_validity_follows_the_target() {
    let mut hash = [0xffu8; 32];
    assert!(is_hash_valid(&hash, 0));
    assert!(!is_hash_valid(&hash, 1));
    // The target of four bits itself: 0x0f, then all ones.
    hash[0] = 0x0f;
    assert!(is_hash_valid(&hash, 1));
    assert!(is_hash_valid(&hash, 4));
    assert!(!is_hash_valid(&hash, 5));
    hash[0] = 0x10;
    assert!(is_hash_valid(&hash, 3));
    assert!(!is_hash_valid(&hash, 4));
    hash[0] = 0x00;
    assert!(is_hash_valid(&hash, 8));
    assert!(!is_hash_valid(&hash, 9));
    hash[1] = 0x01;
    assert!(is_hash_valid(&hash, 15));
    assert!(!is_hash_valid(&hash, 16));
    let zero = [0u8; 32];
    assert!(is_hash_valid(&zero, 255));
    assert!(is_hash_valid(&zero, 256));
    // A difficulty above 256 counts as 256.
    assert!(is_hash_valid(&zero, 257));
    assert!(is_hash_valid(&zero, u64::MAX));
    let mut last_bit = [0u8; 32];
    last_bit[31] = 0x01;
    assert!(is_hash_valid(&last_bit, 255));
    assert!(!is_hash_valid(&last_bit, 256));
    assert!(!is_hash_valid(&last_bit, 1000));
}

#[test]
fn hash_validity_agrees_with_the_block_rule() {
    let mut hash = [0xffu8; 32];
    hash[0] = 0x03;
    hash[1] = 0x7f;
    for difficulty in 0u32..20 {
        let target = Block::hash_to_target(&difficulty);
        assert_eq!(is_hash_valid(&hash, difficulty as u64), hash <= target);
    }
}

#[test]
fn mining_finds_the_first_nonce_that_meets_the_target() {
    let block = Block { header: header(10), transactions: vec![] };
    let mined = mine_block(block.clone()).unwrap();
    assert!(mined.verify_pow());
    assert!(meets(&mined.header));
    assert_eq!(mined.header.height, 1);
    assert_eq!(mined.header.merkle_root, [6u8; 32]);
    for nonce in 0..mined.header.nonce {
        let mut earlier = block.header;
        earlier.nonce = nonce;
        assert!(!meets(&earlier));
    }
    assert_eq!(search_nonces(&block.header, 0, u64::MAX), Some(mined.header.nonce));
    if mined.header.nonce > 0 {
        assert_eq!(search_nonces(&block.header, 0, mined.header.nonce - 1), None);
    }
    assert_eq!(
        search_nonces(&block.header, mined.header.nonce, mined.header.nonce),
        Some(mined.header.nonce)
    );
}

#[test]
fn difficulty_zero_is_met_by_every_hash() {
    let block = Block { header: header(0), transactions: vec![] };
    let mined = mine_block(block).unwrap();
    assert_eq!(mined.header.nonce, 0);
}

#[test]
fn parallel_mining_returns_a_block_that_meets_the_target() {
    let block = Block { header: header(9), transactions: vec![] };
    let mined = mine_block_parallel(block.clone()).unwrap();
    assert!(mined.verify_pow());
    assert_eq!(mined.header.previous_hash, block.header.previous_hash);
    assert_eq!(mined.header.timestamp, block.header.timestamp);
    assert!(mined.transactions.is_empty());
    // The first worker's range starts at zero and holds the first solution.
    assert!(worker_finds(&block.header, 0, 1));
}

#[test]
fn impossible_target_is_reported_by_the_range_search() {
    // Only the all-zero hash meets difficulty 256; a short range has none.
    let h = header(256);
    assert_eq!(search_nonces(&h, 0, 2000), None);
    let result: Result<(), ChainError> = Err(ChainError::InvalidProofOfWork);
    assert!(result.is_err());
}

#[test]
fn nonce_ranges_cut_the_space_without_gap_or_overlap() {
    for workers in [1usize, 2, 3, 7, 8, 64, 1000] {
        let mut expected_first = 0u64;
        for w in 0..workers {
            let (first, last) = nonce_range(w, workers);
            assert_eq!(first, expected_first);
            assert!(first <= last);
            if w == workers - 1 {
                assert_eq!(last, u64::MAX);
            } else {
                assert_eq!(last - first + 1, u64::MAX / workers as u64);
                expected_first = last + 1;
            }
        }
    }
    assert_eq!(nonce_range(0, 1), (0, u64::MAX));
    assert_eq!(nonce_range(1, 4), (u64::MAX / 4, u64::MAX / 4 * 2 - 1));
}

#[test]
fn timestamps_are_strictly_increasing() {
    assert_eq!(next_timestamp(100, 50), 100);
    assert_eq!(next_timestamp(50, 50), 51);
    assert_eq!(next_timestamp(10, 50), 51);
    assert_eq!(next_timestamp(0, u64::MAX - 1), u64::MAX);
    assert_eq!(next_timestamp(0, u64::MAX), u64::MAX);
}
