use fixed::types::I32F32;
use sha2::Digest;
use sha2::Sha256;
use trinitychain::blockchain::retarget;
use trinitychain::blockchain::validate_no_double_spend;
use trinitychain::blockchain::Block;
use trinitychain::blockchain::BlockHeader;
use trinitychain::blockchain::Blockchain;
use trinitychain::blockchain::ChainError;
use trinitychain::blockchain::Sha256Hash;
use trinitychain::blockchain::TriangleState;
use trinitychain::blockchain::DIFFICULTY_ADJUSTMENT_INTERVAL;
use trinitychain::blockchain::GENESIS_TIMESTAMP;
use trinitychain::blockchain::TARGET_BLOCK_TIME;
use trinitychain::coord::Coord;
use trinitychain::crypto::KeyPair;
use trinitychain::geometry::geometric_tolerance;
use trinitychain::geometry::Point;
use trinitychain::geometry::Triangle;
use trinitychain::miner::mine_block;
use trinitychain::transaction::transfer_hash;
use trinitychain::transaction::Address;
use trinitychain::transaction::CoinbaseTx;
use trinitychain::transaction::SubdivisionTx;
use trinitychain::transaction::Transaction;
use trinitychain::transaction::TransferTx;

fn c(x: f64) -> Coord {
    Coord::from_bits(I32F32::from_num(x).to_bits())
}

fn create_test_address(id: &str) -> Address {
    id.to_string()
}

fn create_test_blockchain() -> Blockchain {
    Blockchain::new(create_test_address("miner1"), 1).unwrap()
}

fn create_test_transaction(i: u8) -> Transaction {
    Transaction::Coinbase(CoinbaseTx {
        reward_area: Coord::from_num(i as i32),
        beneficiary_address: create_test_address("test"),
    })
}

fn coinbase(reward: f64, to: &str) -> Transaction {
    Transaction::Coinbase(CoinbaseTx { reward_area: c(reward), beneficiary_address: to.to_string() })
}

fn signed_transfer(
    keypair: &KeyPair,
    input_hash: [u8; 32],
    new_owner: &str,
    amount: Coord,
    fee_area: Coord,
    nonce: u64,
) -> TransferTx {
    let mut tx = TransferTx::new(input_hash, new_owner.to_string(), keypair.address(), amount, fee_area, nonce);
    let signature = keypair.sign(&tx.signable_message()).unwrap();
    tx.sign(signature, keypair.public_key.serialize().to_vec());
    tx
}

fn next_block(chain: &Blockchain, transactions: Vec<Transaction>, timestamp: u64) -> Block {
    let last = chain.blocks().last().unwrap();
    let block = Block::with_timestamp(
        last.header.height + 1,
        last.hash(),
        chain.difficulty(),
        transactions,
        timestamp,
    );
    mine_block(block).unwrap()
}

fn invalid_block_reason(result: Result<(), ChainError>) -> String {
    match result {
        Err(ChainError::InvalidBlock(msg)) => msg,
        other => panic!("expected an invalid block, got {:?}", other),
    }
}

#[test]
fn test_new_blockchain_creates_genesis_block() {
    let blockchain = create_test_blockchain();
    assert_eq!(blockchain.blocks().len(), 1);
    let genesis_block = &blockchain.blocks()[0];
    assert_eq!(genesis_block.header.height, 0);
    assert_eq!(genesis_block.header.previous_hash, [0u8; 32]);
    assert_eq!(
        blockchain.state().get_balance(&create_test_address("miner1")),
        c(1_000_000.0)
    );
}

#[test]
fn test_block_header_hash() {
    let header = BlockHeader {
        height: 1,
        timestamp: 12345,
        previous_hash: [1; 32],
        merkle_root: [2; 32],
        difficulty: 10,
        nonce: 42,
    };
    let hash = header.hash();
    assert_ne!(hash, [0; 32]);
}

#[test]
fn test_calculate_merkle_root() {
    let tx1 = create_test_transaction(1);
    let tx2 = create_test_transaction(2);

    // Test with no transactions
    let root_empty = Block::calculate_merkle_root(&[]);
    assert_ne!(root_empty, [0u8; 32]); // Should be hash of empty data, not zeros

    // Test with one transaction
    let root_one = Block::calculate_merkle_root(&[tx1.clone()]);
    let mut hasher = Sha256::new();
    hasher.update(tx1.hash());
    let expected_one: Sha256Hash = hasher.finalize().into();
    assert_eq!(root_one, expected_one);

    // Test with multiple transactions
    let root_multiple = Block::calculate_merkle_root(&[tx1.clone(), tx2.clone()]);
    let mut hasher_multiple = Sha256::new();
    hasher_multiple.update(tx1.hash());
    hasher_multiple.update(tx2.hash());
    let expected_multiple: Sha256Hash = hasher_multiple.finalize().into();
    assert_eq!(root_multiple, expected_multiple);
}

#[test]
fn test_hash_to_target() {
    let target1 = Block::hash_to_target(&8);
    assert_eq!(target1[0], 0);
    assert_eq!(target1[1], 0xFF);

    let target2 = Block::hash_to_target(&16);
    assert_eq!(target2[0], 0);
    assert_eq!(target2[1], 0);
    assert_eq!(target2[2], 0xFF);

    let target3 = Block::hash_to_target(&10);
    assert_eq!(target3[0], 0);
    assert_eq!(target3[1], 0b0011_1111);
}

#[test]
fn test_calculate_block_reward() {
    assert_eq!(Blockchain::calculate_block_reward(0), c(50.0));
    assert_eq!(Blockchain::calculate_block_reward(210000 - 1), c(50.0));
    assert_eq!(Blockchain::calculate_block_reward(210000), c(25.0));
    assert_eq!(Blockchain::calculate_block_reward(420000), c(12.5));
    // Test far in the future
    assert_eq!(Blockchain::calculate_block_reward(210000 * 64), c(0.0));
}

#[test]
fn test_apply_block_valid() {
    let mut blockchain = create_test_blockchain();
    let last_block = blockchain.blocks().last().unwrap().clone();

    let tx = Transaction::Coinbase(CoinbaseTx {
        reward_area: c(50.0),
        beneficiary_address: create_test_address("miner2"),
    });

    let block = Block::new(1, last_block.hash(), 1, vec![tx]);
    let mined_block = mine_block(block).unwrap();

    let result = blockchain.apply_block(mined_block);
    assert!(result.is_ok());
    assert_eq!(blockchain.blocks().len(), 2);
    assert_eq!(
        blockchain.state().get_balance(&create_test_address("miner2")),
        c(50.0)
    );
}

#[test]
fn test_apply_block_invalid_height() {
    let mut blockchain = create_test_blockchain();
    let last_block = blockchain.blocks().last().unwrap().clone();

    let block = Block::new(2, last_block.hash(), 1, vec![]); // Invalid height

    let result = blockchain.apply_block(block);
    assert!(matches!(result, Err(ChainError::InvalidBlock(_))));
}

#[test]
fn test_apply_block_invalid_prev_hash() {
    let mut blockchain = create_test_blockchain();

    let block = Block::new(1, [0; 32], 1, vec![]); // Invalid prev hash

    let result = blockchain.apply_block(block);
    assert!(matches!(result, Err(ChainError::InvalidBlock(_))));
}

#[test]
fn test_apply_block_invalid_pow() {
    let mut blockchain = create_test_blockchain();
    let last_block = blockchain.blocks().last().unwrap().clone();

    // Block without mining
    let block = Block::new(1, last_block.hash(), 20, vec![]); // High difficulty

    let result = blockchain.apply_block(block);
    assert!(
        matches!(result, Err(ChainError::InvalidBlock(msg)) if msg.contains("Invalid Proof-of-Work"))
    );
}

#[test]
fn test_apply_block_double_spend_in_block() {
    let mut blockchain = create_test_blockchain();

    // Create a UTXO to be spent
    let initial_tx = blockchain.blocks()[0].transactions[0].clone();
    let input_hash = initial_tx.hash();

    let transfer_tx = TransferTx {
        input_hash,
        new_owner: create_test_address("recipient"),
        sender: create_test_address("miner1"),
        amount: c(100.0),
        fee_area: c(1.0),
        nonce: 0,
        signature: None, // Simplified for test
        public_key: None,
        memo: None,
    };

    let tx1 = Transaction::Transfer(transfer_tx.clone());
    let tx2 = Transaction::Transfer(transfer_tx); // Same input hash

    let last_block = blockchain.blocks().last().unwrap().clone();
    let coinbase = Transaction::Coinbase(CoinbaseTx {
        reward_area: c(50.0),
        beneficiary_address: create_test_address("miner1"),
    });

    let block = Block::new(1, last_block.hash(), 1, vec![coinbase, tx1, tx2]);
    let mined_block = mine_block(block).unwrap();

    let result = blockchain.apply_block(mined_block);
    assert!(
        matches!(result, Err(ChainError::InvalidTransaction(msg)) if msg.contains("Double spend detected"))
    );
}

#[test]
fn test_state_apply_coinbase_tx() {
    let mut state = TriangleState::new();
    let address = create_test_address("miner");
    let tx = Transaction::Coinbase(CoinbaseTx {
        reward_area: c(100.0),
        beneficiary_address: address.clone(),
    });

    let result = state.apply_transaction(&tx, 0);
    assert!(result.is_ok());
    assert_eq!(state.get_balance(&address), c(100.0));
    assert_eq!(state.utxo_count(), 1);
}

#[test]
fn test_state_apply_transfer_tx() {
    let mut state = TriangleState::new();
    let sender = create_test_address("sender");
    let recipient = create_test_address("recipient");

    // 1. Create a UTXO for the sender
    let initial_triangle = Triangle::new(
        Point::new(Coord::from_num(0), Coord::from_num(0)),
        Point::new(Coord::from_num(10), Coord::from_num(0)),
        Point::new(Coord::from_num(5), Coord::from_num(10)),
        None,
        sender.clone(),
    )
    .with_effective_value(c(1000.0));
    let input_hash = initial_triangle.hash();
    state.insert_utxo(input_hash, initial_triangle);
    state.set_balance(sender.clone(), c(1000.0));

    // 2. Create and apply the transfer
    let tx = Transaction::Transfer(TransferTx {
        input_hash,
        new_owner: recipient.clone(),
        sender: sender.clone(),
        amount: c(700.0),
        fee_area: c(50.0),
        nonce: 0,
        signature: None,
        public_key: None,
        memo: None,
    });

    let result = state.apply_transaction(&tx, 1);
    assert!(result.is_ok());

    // 3. Verify state changes
    let change_value = c(250.0);
    assert_eq!(state.get_balance(&sender), change_value);
    assert_eq!(state.get_balance(&recipient), c(700.0));

    // Should be 2 UTXOs: one for recipient, one for change
    assert_eq!(state.utxo_count(), 2);

    let utxos: Vec<Triangle> = (0..state.utxo_count()).map(|i| state.utxo_at(i).1.clone()).collect();
    let recipient_utxo_found = utxos
        .iter()
        .any(|t| t.owner == recipient && t.effective_value() == c(700.0));
    let change_utxo_found = utxos
        .iter()
        .any(|t| t.owner == sender && t.effective_value() == change_value);

    assert!(
        recipient_utxo_found,
        "Recipient's UTXO not found or incorrect value"
    );
    assert!(
        change_utxo_found,
        "Sender's change UTXO not found or incorrect value"
    );
}

#[test]
fn test_state_apply_subdivision_tx() {
    let mut state = TriangleState::new();
    let owner = create_test_address("owner");

    // 1. Create a parent UTXO with an effective value of 100.
    let parent_triangle = Triangle::new(
        Point::new(Coord::from_num(0), Coord::from_num(0)),
        Point::new(Coord::from_num(20), Coord::from_num(0)),
        Point::new(Coord::from_num(10), Coord::from_num(10)),
        None,
        owner.clone(),
    ); // Area = 100
    let parent_hash = parent_triangle.hash();
    let parent_value = parent_triangle.effective_value();
    state.insert_utxo(parent_hash, parent_triangle.clone());
    state.set_balance(owner.clone(), parent_value);

    // 2. Define fee and calculate the total value for the children.
    let fee = c(10.0);
    let total_child_value = parent_value.checked_sub(fee).unwrap(); // Should be 90.0

    // 3. Create child triangles whose values sum to the required total.
    // This simulates a client correctly constructing a subdivision transaction.
    let base_children = parent_triangle.subdivide();
    let child1_value = total_child_value.div_int(3);
    let child2_value = total_child_value.div_int(3);
    let child3_value = total_child_value
        .checked_sub(child1_value)
        .unwrap()
        .checked_sub(child2_value)
        .unwrap(); // Handle rounding

    let children = vec![
        base_children[0].clone().with_effective_value(child1_value),
        base_children[1].clone().with_effective_value(child2_value),
        base_children[2].clone().with_effective_value(child3_value),
    ];

    // 4. Create and apply the subdivision transaction.
    let subdivision_tx = SubdivisionTx {
        parent_hash,
        owner_address: owner.clone(),
        children,
        fee_area: fee,
        nonce: 0,
        signature: None,
        public_key: None,
    };
    let tx = Transaction::Subdivision(subdivision_tx);

    let result = state.apply_transaction(&tx, 1);
    assert!(
        result.is_ok(),
        "Transaction should be valid, but failed with: {:?}",
        result.err()
    );

    // 5. Verify state changes.
    let expected_balance = total_child_value;
    assert!(
        state
            .get_balance(&owner)
            .checked_sub(expected_balance)
            .unwrap()
            .checked_abs()
            .unwrap()
            < geometric_tolerance(),
        "Balance mismatch: expected {:?}, got {:?}",
        expected_balance,
        state.get_balance(&owner)
    );
    assert_eq!(state.utxo_count(), 3, "There should be 3 new UTXOs");

    // Verify that the child UTXOs are in the set with the correct values.
    if let Transaction::Subdivision(sub_tx) = tx {
        for child in &sub_tx.children {
            assert!(
                state.contains_utxo(&child.hash()),
                "Child UTXO not found in state"
            );
            let utxo = state.get_utxo(&child.hash()).unwrap();
            assert_eq!(
                utxo.effective_value(),
                child.effective_value(),
                "Child UTXO value is incorrect in state"
            );
        }
    }
}

// ---------------------------------------------------------------------------
// End-to-end scenarios
// ---------------------------------------------------------------------------

#[test]
fn scenario_genesis_only() {
    let chain = Blockchain::new("miner1".to_string(), 1).unwrap();
    assert_eq!(chain.height(), 1);
    assert_eq!(chain.get_balance(&"miner1".to_string()), Coord::from_num(1_000_000));
    assert_eq!(chain.state().utxo_count(), 1);
    let (hash, utxo) = chain.state().utxo_at(0);
    assert_eq!(utxo.effective_value(), Coord::from_num(1_000_000));
    assert_eq!(utxo.owner, "miner1");
    let genesis = &chain.blocks()[0];
    assert_eq!(*hash, genesis.transactions[0].hash());
    assert_eq!(genesis.header.timestamp, GENESIS_TIMESTAMP);
    assert_eq!(genesis.header.timestamp, 1672531200000);
    assert_eq!(genesis.header.difficulty, 1);
    assert_eq!(genesis.header.merkle_root, Block::calculate_merkle_root(&genesis.transactions));
    assert!(genesis.verify_pow());
    assert_eq!(chain.difficulty(), 1);
    assert!(chain.mempool().is_empty());
}

#[test]
fn scenario_coinbase_at_height_one() {
    let mut chain = Blockchain::new("miner1".to_string(), 1).unwrap();
    let block = next_block(&chain, vec![coinbase(50.0, "miner2")], GENESIS_TIMESTAMP + 1);
    assert!(chain.apply_block(block).is_ok());
    assert_eq!(chain.get_balance(&"miner2".to_string()), Coord::from_num(50));
    assert_eq!(chain.state().utxo_count(), 2);
    assert_eq!(chain.height(), 2);
    assert_eq!(chain.get_balance(&"miner1".to_string()), Coord::from_num(1_000_000));
}

#[test]
fn scenario_transfer_with_change() {
    let keypair = KeyPair::generate().unwrap();
    let sender = keypair.address();
    let mut chain = Blockchain::new("miner1".to_string(), 1).unwrap();
    // The sender's UTXO of 1000 comes from a coinbase.
    let funding = Transaction::Coinbase(CoinbaseTx {
        reward_area: Coord::from_num(1000),
        beneficiary_address: sender.clone(),
    });
    let funding_hash = funding.hash();
    let block = next_block(&chain, vec![funding], GENESIS_TIMESTAMP + 1);
    chain.apply_block(block).unwrap();
    assert_eq!(chain.get_balance(&sender), Coord::from_num(1000));

    let transfer = signed_transfer(&keypair, funding_hash, "recipient", Coord::from_num(700), Coord::from_num(50), 4);
    let transfer_tx = Transaction::Transfer(transfer);
    let transfer_hash_value = transfer_tx.hash();
    let block = next_block(&chain, vec![coinbase(50.0, "miner1"), transfer_tx], GENESIS_TIMESTAMP + 2);
    let utxos_before = chain.state().utxo_count();
    chain.apply_block(block).unwrap();

    assert_eq!(chain.get_balance(&sender), Coord::from_num(250));
    assert_eq!(chain.get_balance(&"recipient".to_string()), Coord::from_num(700));
    assert!(!chain.state().contains_utxo(&funding_hash));
    // One coinbase output, the recipient's and the change, less the input.
    assert_eq!(chain.state().utxo_count(), utxos_before + 3 - 1);
    let paid = chain.state().get_utxo(&transfer_hash_value).unwrap();
    assert_eq!(paid.owner, "recipient");
    assert_eq!(paid.effective_value(), Coord::from_num(700));
    let change_key = transfer_hash(
        &transfer_hash_value,
        &sender,
        &sender,
        Coord::from_num(250),
        Coord::from_num(0),
        5,
    );
    let change = chain.state().get_utxo(&change_key).unwrap();
    assert_eq!(change.owner, sender);
    assert_eq!(change.effective_value(), Coord::from_num(250));
}

#[test]
fn scenario_subdivision_conservation() {
    let mut state = TriangleState::new();
    let parent = Triangle::new(
        Point::new(Coord::from_num(0), Coord::from_num(0)),
        Point::new(Coord::from_num(20), Coord::from_num(0)),
        Point::new(Coord::from_num(10), Coord::from_num(10)),
        None,
        "O".to_string(),
    );
    assert_eq!(parent.area(), Coord::from_num(100));
    let parent_hash = parent.hash();
    state.insert_utxo(parent_hash, parent.clone());
    state.rebuild_address_balances().unwrap();
    assert_eq!(state.get_balance(&"O".to_string()), Coord::from_num(100));

    let geometry = parent.subdivide();
    let children: Vec<Triangle> = geometry
        .iter()
        .map(|t| t.clone().with_effective_value(Coord::from_num(30)))
        .collect();
    let tx = Transaction::Subdivision(SubdivisionTx::new(
        parent_hash,
        children.clone(),
        "O".to_string(),
        Coord::from_num(10),
        0,
    ));
    state.apply_transaction(&tx, 1).unwrap();

    assert!(!state.contains_utxo(&parent_hash));
    assert_eq!(state.utxo_count(), 3);
    assert_eq!(state.get_balance(&"O".to_string()), Coord::from_num(90));
    let mut total = Coord::from_num(0);
    for child in &children {
        let utxo = state.get_utxo(&child.hash()).unwrap();
        total = total.checked_add(utxo.effective_value()).unwrap();
    }
    assert_eq!(total.checked_add(Coord::from_num(10)).unwrap(), Coord::from_num(100));
}

#[test]
fn scenario_rejected_block_preserves_state() {
    let keypair = KeyPair::generate().unwrap();
    let sender = keypair.address();
    let mut chain = Blockchain::new(sender.clone(), 1).unwrap();
    let input_hash = chain.blocks()[0].transactions[0].hash();
    let first = signed_transfer(&keypair, input_hash, "a", Coord::from_num(10), Coord::from_num(1), 0);
    let second = signed_transfer(&keypair, input_hash, "b", Coord::from_num(20), Coord::from_num(1), 1);
    let block = next_block(
        &chain,
        vec![coinbase(50.0, "miner"), Transaction::Transfer(first), Transaction::Transfer(second)],
        GENESIS_TIMESTAMP + 1,
    );
    let balance = chain.get_balance(&sender);
    let utxos = chain.state().utxo_count();
    let height = chain.height();
    match chain.apply_block(block) {
        Err(ChainError::InvalidTransaction(msg)) => assert_eq!(msg, "Double spend detected in block."),
        other => panic!("expected a double spend, got {:?}", other),
    }
    assert_eq!(chain.get_balance(&sender), balance);
    assert_eq!(chain.state().utxo_count(), utxos);
    assert_eq!(chain.height(), height);
    assert_eq!(chain.get_balance(&"a".to_string()), Coord::from_num(0));
    assert_eq!(chain.get_balance(&"miner".to_string()), Coord::from_num(0));
}

#[test]
fn scenario_retargeting_clamp() {
    // Ten blocks one millisecond apart: the ratio of actual to expected
    // time is far below a quarter and is clamped there, so the difficulty
    // falls to a quarter and never moves by more than a factor of four.
    let mut chain = Blockchain::new("miner1".to_string(), 8).unwrap();
    for i in 1..=10u64 {
        assert_eq!(chain.difficulty(), 8);
        let block = next_block(&chain, vec![coinbase(i as f64, "miner1")], GENESIS_TIMESTAMP + i);
        chain.apply_block(block).unwrap();
    }
    assert_eq!(chain.height(), 11);
    let old = 8u32;
    let new = chain.difficulty();
    assert_eq!(new, 2);
    assert!(new >= old / 4 && new <= old * 4);
    // Nothing changes between the boundaries.
    let block = next_block(&chain, vec![coinbase(11.0, "miner1")], GENESIS_TIMESTAMP + 11);
    chain.apply_block(block).unwrap();
    assert_eq!(chain.difficulty(), 2);
}

#[test]
fn retarget_rounds_to_nearest_and_clamps_both_ways() {
    let expected = DIFFICULTY_ADJUSTMENT_INTERVAL * TARGET_BLOCK_TIME * 1000;
    assert_eq!(expected, 300_000);
    assert_eq!(retarget(8, expected), 8);
    assert_eq!(retarget(8, 0), 2);
    assert_eq!(retarget(8, expected / 4), 2);
    assert_eq!(retarget(8, expected * 4), 32);
    assert_eq!(retarget(8, u64::MAX), 32);
    assert_eq!(retarget(8, expected * 2), 16);
    // 10 * 0.25 = 2.5 rounds up to 3; 9 * 0.25 = 2.25 rounds down to 2.
    assert_eq!(retarget(10, 0), 3);
    assert_eq!(retarget(9, 0), 2);
    // Never below one.
    assert_eq!(retarget(1, 0), 1);
    assert_eq!(retarget(0, expected), 1);
    // Never above what a difficulty can hold.
    assert_eq!(retarget(u32::MAX, expected * 4), u32::MAX);
    for old in [1u32, 2, 3, 5, 100, 1 << 20] {
        for actual in [0u64, 1, 75_000, 75_001, 299_999, 300_001, 1_200_000, 1_200_001] {
            let new = retarget(old, actual) as u64;
            assert!(new >= std::cmp::max(1, (old / 4) as u64));
            assert!(new <= old as u64 * 4);
        }
    }
}

#[test]
fn block_reward_halves_until_nothing_is_left() {
    let bits = |h: u64| Blockchain::calculate_block_reward(h).to_bits();
    assert_eq!(bits(0), 50i64 << 32);
    for k in 0..64u64 {
        assert_eq!(bits(210_000 * k), (50i64 << 32) >> k);
    }
    assert_eq!(bits(210_000 * 37), 1);
    assert_eq!(bits(210_000 * 38), 0);
    assert_eq!(bits(u64::MAX), 0);
}

#[test]
fn target_has_its_top_bits_zero_for_every_difficulty() {
    for d in 0u32..=300 {
        let target = Block::hash_to_target(&d);
        for bit in 0..256u32 {
            let byte = target[(bit / 8) as usize];
            let is_one = (byte >> (7 - (bit % 8))) & 1 == 1;
            assert_eq!(is_one, bit >= d, "difficulty {} bit {}", d, bit);
        }
    }
    assert_eq!(Block::hash_to_target(&0), [0xff; 32]);
    assert_eq!(Block::hash_to_target(&256), [0; 32]);
    assert_eq!(Block::hash_as_u256(&[3u8; 32]), [3u8; 32]);
}

#[test]
fn header_hash_is_sha256_of_the_little_endian_fields() {
    let header = BlockHeader {
        height: 7,
        timestamp: 99,
        previous_hash: [1; 32],
        merkle_root: [2; 32],
        difficulty: 5,
        nonce: 42,
    };
    let mut hasher = Sha256::new();
    hasher.update(7u64.to_le_bytes());
    hasher.update(99u64.to_le_bytes());
    hasher.update([1u8; 32]);
    hasher.update([2u8; 32]);
    hasher.update(5u32.to_le_bytes());
    hasher.update(42u64.to_le_bytes());
    let expected: [u8; 32] = hasher.finalize().into();
    assert_eq!(header.hash(), expected);
    let block = Block { header, transactions: vec![] };
    assert_eq!(block.hash(), expected);
}

#[test]
fn block_new_takes_the_merkle_root_and_a_zero_nonce() {
    let txs = vec![create_test_transaction(1), create_test_transaction(2)];
    let block = Block::new(3, [9u8; 32], 4, txs.clone());
    assert_eq!(block.header.height, 3);
    assert_eq!(block.header.previous_hash, [9u8; 32]);
    assert_eq!(block.header.difficulty, 4);
    assert_eq!(block.header.nonce, 0);
    assert_eq!(block.header.merkle_root, Block::calculate_merkle_root(&txs));
    // The clock stands after the genesis timestamp.
    assert!(block.header.timestamp > GENESIS_TIMESTAMP);
    let stamped = Block::with_timestamp(3, [9u8; 32], 4, txs, 17);
    assert_eq!(stamped.header.timestamp, 17);
}

#[test]
fn pipeline_reports_each_fault_with_its_reason() {
    let mut chain = create_test_blockchain();
    let last_hash = chain.blocks().last().unwrap().hash();

    // Linkage.
    let mut empty = Blockchain::new("x".to_string(), 0).unwrap();
    let genesis_again = empty.blocks()[0].clone();
    assert_eq!(
        invalid_block_reason(empty.apply_block(genesis_again)),
        "Genesis block can only be applied to an empty chain."
    );
    let wrong_height = mine_block(Block::with_timestamp(5, last_hash, 1, vec![], 1)).unwrap();
    assert_eq!(invalid_block_reason(chain.apply_block(wrong_height)), "Invalid block height.");
    let wrong_previous = mine_block(Block::with_timestamp(1, [3u8; 32], 1, vec![], 1)).unwrap();
    assert_eq!(
        invalid_block_reason(chain.apply_block(wrong_previous)),
        "Invalid previous block hash."
    );

    // First transaction.
    let transfer = Transaction::Transfer(TransferTx::new(
        [0u8; 32],
        "r".to_string(),
        "s".to_string(),
        Coord::from_num(1),
        Coord::from_num(0),
        0,
    ));
    let no_coinbase = mine_block(Block::with_timestamp(1, last_hash, 1, vec![transfer.clone()], 1)).unwrap();
    assert_eq!(
        invalid_block_reason(chain.apply_block(no_coinbase)),
        "First transaction in a block must be a Coinbase transaction"
    );

    // A transaction after the first must validate against the state.
    let unsigned = mine_block(Block::with_timestamp(
        1,
        last_hash,
        1,
        vec![coinbase(50.0, "m"), transfer],
        1,
    ))
    .unwrap();
    match chain.apply_block(unsigned) {
        Err(ChainError::InvalidTransaction(msg)) => assert_eq!(msg, "Transfer not signed"),
        other => panic!("expected a refusal, got {:?}", other),
    }

    // Size limit.
    let huge = Transaction::Coinbase(CoinbaseTx {
        reward_area: Coord::from_num(1),
        beneficiary_address: "a".repeat(100_000),
    });
    let oversized = mine_block(Block::with_timestamp(1, last_hash, 1, vec![huge], 1)).unwrap();
    match chain.apply_block(oversized) {
        Err(ChainError::InvalidTransaction(msg)) => assert_eq!(msg, "Transaction too large"),
        other => panic!("expected a refusal, got {:?}", other),
    }

    // Merkle root.
    let mut wrong_root = Block::with_timestamp(1, last_hash, 1, vec![coinbase(50.0, "m")], 1);
    wrong_root.header.merkle_root = [0u8; 32];
    let wrong_root = mine_block(wrong_root).unwrap();
    assert_eq!(invalid_block_reason(chain.apply_block(wrong_root)), "Merkle root mismatch.");

    // Nothing of all this changed the chain.
    assert_eq!(chain.height(), 1);
    assert_eq!(chain.state().utxo_count(), 1);
    assert_eq!(chain.get_balance(&"m".to_string()), Coord::from_num(0));
}

#[test]
fn block_without_transactions_is_refused() {
    let mut chain = create_test_blockchain();
    let before = chain.blocks().last().unwrap().hash();
    // Linked, mined, and with the Merkle root of no transactions.
    let block = next_block(&chain, vec![], GENESIS_TIMESTAMP + 1);
    assert!(block.verify_pow());
    assert_eq!(block.header.merkle_root, Block::calculate_merkle_root(&[]));
    assert_eq!(
        invalid_block_reason(chain.apply_block(block)),
        "First transaction in a block must be a Coinbase transaction"
    );
    assert_eq!(chain.height(), 1);
    assert_eq!(chain.blocks().last().unwrap().hash(), before);
    assert_eq!(chain.state().utxo_count(), 1);
}

#[test]
fn block_on_a_cloned_chain_leaves_the_copy_alone() {
    let mut chain = create_test_blockchain();
    let copy = chain.clone();
    let block = next_block(&chain, vec![coinbase(50.0, "m")], GENESIS_TIMESTAMP + 1);
    assert!(chain.apply_block(block).is_ok());
    assert_eq!(chain.height(), 2);
    assert_eq!(copy.height(), 1);
    assert_eq!(chain.state().utxo_count(), 2);
    assert_eq!(copy.state().utxo_count(), 1);
}

#[test]
fn committed_block_leaves_the_mempool_and_stale_entries_are_pruned() {
    let keypair = KeyPair::generate().unwrap();
    let sender = keypair.address();
    let mut chain = Blockchain::new(sender.clone(), 1).unwrap();
    let input_hash = chain.blocks()[0].transactions[0].hash();
    let included = signed_transfer(&keypair, input_hash, "a", Coord::from_num(10), Coord::from_num(1), 0);
    let conflicting = signed_transfer(&keypair, input_hash, "b", Coord::from_num(20), Coord::from_num(2), 1);
    chain.submit_transaction(Transaction::Transfer(included.clone())).unwrap();
    chain.submit_transaction(Transaction::Transfer(conflicting.clone())).unwrap();
    assert_eq!(chain.mempool().len(), 2);

    let block = next_block(
        &chain,
        vec![coinbase(50.0, "miner"), Transaction::Transfer(included.clone())],
        GENESIS_TIMESTAMP + 1,
    );
    chain.apply_block(block).unwrap();
    assert_eq!(chain.mempool().len(), 1);
    assert!(chain.mempool().get_transaction(&Transaction::Transfer(included).hash()).is_none());
    // The other transaction spends an input that is gone now.
    chain.prune_mempool();
    assert!(chain.mempool().is_empty());
}

#[test]
fn double_spend_check_looks_at_inputs_only() {
    let a = Transaction::Transfer(TransferTx::new([1u8; 32], "r".to_string(), "s".to_string(), c(1.0), c(0.0), 0));
    let b = Transaction::Transfer(TransferTx::new([2u8; 32], "r".to_string(), "s".to_string(), c(1.0), c(0.0), 0));
    let parent = Triangle::genesis();
    let s = Transaction::Subdivision(SubdivisionTx::new([1u8; 32], parent.subdivide().to_vec(), "o".to_string(), c(0.0), 0));
    let block = |txs: Vec<Transaction>| Block::with_timestamp(1, [0u8; 32], 0, txs, 0);
    assert!(validate_no_double_spend(&block(vec![])).is_ok());
    assert!(validate_no_double_spend(&block(vec![coinbase(1.0, "m"), coinbase(1.0, "m")])).is_ok());
    assert!(validate_no_double_spend(&block(vec![a.clone(), b.clone()])).is_ok());
    assert!(validate_no_double_spend(&block(vec![a.clone(), b.clone(), a.clone()])).is_err());
    assert!(validate_no_double_spend(&block(vec![a, coinbase(1.0, "m"), s])).is_err());
}
