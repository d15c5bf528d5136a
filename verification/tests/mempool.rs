use fixed::types::I32F32;
use trinitychain::blockchain::TriangleState;
use trinitychain::coord::Coord;
use trinitychain::crypto::KeyPair;
use trinitychain::error::ChainError;
use trinitychain::geometry::Triangle;
use trinitychain::mempool::Mempool;
use trinitychain::mempool::MAX_MEMPOOL_SIZE;
use trinitychain::mempool::MAX_TX_PER_ADDRESS;
use trinitychain::transaction::CoinbaseTx;
use trinitychain::transaction::Transaction;
use trinitychain::transaction::TransferTx;

fn c(x: f64) -> Coord {
    Coord::from_bits(I32F32::from_num(x).to_bits())
}

fn transfer(sender: &str, nonce: u64, fee: Coord) -> Transaction {
    Transaction::Transfer(TransferTx::new(
        [0u8; 32],
        "recipient".to_string(),
        sender.to_string(),
        Coord::from_num(1),
        fee,
        nonce,
    ))
}

fn signed(keypair: &KeyPair, input: [u8; 32], nonce: u64, amount: Coord, fee: Coord) -> Transaction {
    let mut tx = TransferTx::new(input, "recipient".to_string(), keypair.address(), amount, fee, nonce);
    let signature = keypair.sign(&tx.signable_message()).unwrap();
    tx.sign(signature, keypair.public_key.serialize().to_vec());
    Transaction::Transfer(tx)
}

fn invalid_reason(result: Result<(), ChainError>) -> String {
    match result {
        Err(ChainError::InvalidTransaction(msg)) => msg,
        other => panic!("expected an invalid transaction, got {:?}", other),
    }
}

#[test]
fn add_transaction_validates_the_signature_first() {
    let keypair = KeyPair::generate().unwrap();
    let mut pool = Mempool::new();
    let good = signed(&keypair, [1u8; 32], 0, c(1.0), c(0.5));
    assert!(pool.add_transaction(good.clone()).is_ok());
    assert_eq!(pool.len(), 1);
    assert!(!pool.is_empty());
    assert_eq!(pool.get_transaction(&good.hash()).unwrap().hash(), good.hash());

    let unsigned = transfer("someone", 0, c(1.0));
    assert_eq!(invalid_reason(pool.add_transaction(unsigned)), "Transfer not signed");
    assert_eq!(invalid_reason(pool.add_transaction(good)), "Transaction already in mempool");
    let coinbase = Transaction::Coinbase(CoinbaseTx { reward_area: c(50.0), beneficiary_address: "m".to_string() });
    assert_eq!(
        invalid_reason(pool.add_transaction(coinbase.clone())),
        "Coinbase transactions cannot be in mempool"
    );
    assert_eq!(
        invalid_reason(pool.admit_transaction(coinbase, 0)),
        "Coinbase transactions cannot be in mempool"
    );
    assert_eq!(pool.len(), 1);
}

#[test]
fn sender_quota_is_one_hundred() {
    let mut pool = Mempool::new();
    for nonce in 0..MAX_TX_PER_ADDRESS as u64 {
        pool.admit_transaction(transfer("alice", nonce, c(1.0)), 5).unwrap();
    }
    assert_eq!(pool.len(), MAX_TX_PER_ADDRESS);
    assert_eq!(
        invalid_reason(pool.admit_transaction(transfer("alice", 1000, c(9.0)), 5)),
        "Exceeded maximum transactions per address"
    );
    assert_eq!(pool.len(), 100);
    // Another sender is not affected.
    pool.admit_transaction(transfer("bob", 0, c(1.0)), 5).unwrap();
    // Removing one makes room again.
    pool.remove_transaction(&transfer("alice", 0, c(1.0)).hash());
    pool.admit_transaction(transfer("alice", 1000, c(9.0)), 5).unwrap();
    assert_eq!(pool.len(), 101);
}

#[test]
fn eviction_takes_the_cheapest_resident() {
    let mut pool = Mempool::new();
    // Nobody to evict.
    assert!(matches!(pool.evict_lowest_fee(), Err(ChainError::MempoolFull)));
    assert_eq!(pool.len(), 0);

    let fees = [7, 3, 9, 3, 5];
    let txs: Vec<Transaction> =
        fees.iter().enumerate().map(|(i, fee)| transfer("sender", i as u64, Coord::from_num(*fee))).collect();
    for tx in &txs {
        pool.admit_transaction(tx.clone(), 1).unwrap();
    }
    // Of the two with the lowest fee the one admitted first leaves.
    pool.evict_lowest_fee().unwrap();
    assert_eq!(pool.len(), 4);
    assert!(pool.get_transaction(&txs[1].hash()).is_none());
    for i in [0, 2, 3, 4] {
        assert!(pool.get_transaction(&txs[i].hash()).is_some());
    }
    let left: Vec<[u8; 32]> = pool.get_all_transactions().iter().map(|tx| tx.hash()).collect();
    assert_eq!(left, vec![txs[0].hash(), txs[2].hash(), txs[3].hash(), txs[4].hash()]);

    pool.evict_lowest_fee().unwrap();
    assert!(pool.get_transaction(&txs[3].hash()).is_none());
    pool.evict_lowest_fee().unwrap();
    assert!(pool.get_transaction(&txs[4].hash()).is_none());
    pool.evict_lowest_fee().unwrap();
    assert!(pool.get_transaction(&txs[0].hash()).is_none());
    assert_eq!(pool.len(), 1);
    assert!(pool.get_transaction(&txs[2].hash()).is_some());
    // The sender's count went down with the residents.
    for n in 10..(10 + MAX_TX_PER_ADDRESS as u64 - 1) {
        pool.admit_transaction(transfer("sender", n, Coord::from_num(1)), 1).unwrap();
    }
    assert_eq!(pool.len(), MAX_TX_PER_ADDRESS);
    pool.evict_lowest_fee().unwrap();
    pool.evict_lowest_fee().unwrap();
    assert_eq!(pool.len(), MAX_TX_PER_ADDRESS - 2);
    assert!(pool.get_transaction(&txs[2].hash()).is_some());
    pool.admit_transaction(transfer("sender", 1000, Coord::from_num(1)), 1).unwrap();
    pool.admit_transaction(transfer("sender", 1001, Coord::from_num(1)), 1).unwrap();
    assert!(pool.admit_transaction(transfer("sender", 1002, Coord::from_num(1)), 1).is_err());
}

#[test]
fn full_pool_evicts_the_lowest_fee_or_refuses() {
    let mut pool = Mempool::new();
    let senders = MAX_MEMPOOL_SIZE / MAX_TX_PER_ADDRESS;
    for s in 0..senders {
        for n in 0..MAX_TX_PER_ADDRESS {
            // Fees from 10 upwards; the cheapest is sender 3, nonce 7.
            let fee = if s == 3 && n == 7 { 5 } else { 10 + (s * 100 + n) as i32 };
            pool.admit_transaction(transfer(&format!("sender{}", s), n as u64, Coord::from_num(fee)), 1)
                .unwrap();
        }
    }
    assert_eq!(pool.len(), MAX_MEMPOOL_SIZE);
    let cheapest = transfer("sender3", 7, Coord::from_num(5));
    assert!(pool.get_transaction(&cheapest.hash()).is_some());

    // A candidate that pays no more than the cheapest resident is refused.
    let poor = transfer("newcomer", 0, Coord::from_num(5));
    assert!(matches!(pool.admit_transaction(poor.clone(), 2), Err(ChainError::MempoolFull)));
    assert_eq!(pool.len(), MAX_MEMPOOL_SIZE);
    assert!(pool.get_transaction(&cheapest.hash()).is_some());
    assert!(pool.get_transaction(&poor.hash()).is_none());

    // One that pays more takes the place of the cheapest.
    let rich = transfer("newcomer", 1, Coord::from_num(6));
    pool.admit_transaction(rich.clone(), 2).unwrap();
    assert_eq!(pool.len(), MAX_MEMPOOL_SIZE);
    assert!(pool.get_transaction(&cheapest.hash()).is_none());
    assert!(pool.get_transaction(&rich.hash()).is_some());
    let all = pool.get_all_transactions();
    assert_eq!(all.len(), MAX_MEMPOOL_SIZE);
    assert_eq!(all.last().unwrap().hash(), rich.hash());
}

#[test]
fn transactions_come_by_fee_then_by_hash() {
    let mut pool = Mempool::new();
    let mut expected: Vec<Transaction> = Vec::new();
    for (i, fee) in [3, 9, 1, 9, 4, 9, 0].iter().enumerate() {
        let tx = transfer(&format!("s{}", i), i as u64, Coord::from_num(*fee));
        pool.admit_transaction(tx.clone(), i as i64).unwrap();
        expected.push(tx);
    }
    expected.sort_by(|a, b| {
        b.fee_area().cmp(&a.fee_area()).then_with(|| a.hash().cmp(&b.hash()))
    });
    let hashes = |txs: &[Transaction]| txs.iter().map(|t| t.hash()).collect::<Vec<_>>();
    assert_eq!(hashes(&pool.get_transactions_by_fee(100)), hashes(&expected));
    assert_eq!(hashes(&pool.get_transactions_by_fee(7)), hashes(&expected));
    assert_eq!(hashes(&pool.get_transactions_by_fee(3)), hashes(&expected[..3]));
    assert_eq!(hashes(&pool.get_transactions_by_fee(1)), hashes(&expected[..1]));
    assert!(pool.get_transactions_by_fee(0).is_empty());
    assert!(Mempool::new().get_transactions_by_fee(5).is_empty());
    // The pool itself keeps the order of admission.
    assert_eq!(pool.get_all_transactions().len(), 7);
    assert_eq!(pool.get_all_transactions()[0].fee_area(), Coord::from_num(3));
}

#[test]
fn remove_many_and_missing_hashes() {
    let mut pool = Mempool::new();
    let txs: Vec<Transaction> = (0..5).map(|i| transfer("s", i, Coord::from_num(1))).collect();
    for tx in &txs {
        pool.admit_transaction(tx.clone(), 0).unwrap();
    }
    pool.remove_transaction(&[0xeeu8; 32]);
    assert_eq!(pool.len(), 5);
    pool.remove_transactions(&[txs[1].hash(), [0xeeu8; 32], txs[3].hash(), txs[1].hash()]);
    assert_eq!(pool.len(), 3);
    let left: Vec<[u8; 32]> = pool.get_all_transactions().iter().map(|t| t.hash()).collect();
    assert_eq!(left, vec![txs[0].hash(), txs[2].hash(), txs[4].hash()]);
    let copy = pool.clone();
    pool.remove_transactions(&left);
    assert!(pool.is_empty());
    assert_eq!(copy.len(), 3);
}

#[test]
fn prune_drops_what_no_longer_validates() {
    let alice = KeyPair::generate().unwrap();
    let bob = KeyPair::generate().unwrap();
    let mut state = TriangleState::new();
    let utxo_a = Triangle::genesis().change_owner(alice.address()).with_effective_value(Coord::from_num(10));
    let utxo_b = Triangle::genesis().change_owner(bob.address()).with_effective_value(Coord::from_num(10));
    let hash_a = utxo_a.hash();
    let hash_b = utxo_b.hash();
    state.insert_utxo(hash_a, utxo_a);
    state.insert_utxo(hash_b, utxo_b);

    let mut pool = Mempool::new();
    let tx_a = signed(&alice, hash_a, 0, Coord::from_num(5), Coord::from_num(1));
    let tx_b = signed(&bob, hash_b, 0, Coord::from_num(5), Coord::from_num(1));
    let tx_b_too_much = signed(&bob, hash_b, 1, Coord::from_num(50), Coord::from_num(1));
    pool.add_transaction(tx_a.clone()).unwrap();
    pool.add_transaction(tx_b.clone()).unwrap();
    pool.add_transaction(tx_b_too_much).unwrap();
    assert_eq!(pool.len(), 3);

    pool.prune(&state);
    assert_eq!(pool.len(), 2);
    state.remove_utxo(&hash_a);
    pool.prune(&state);
    assert_eq!(pool.len(), 1);
    assert!(pool.get_transaction(&tx_b.hash()).is_some());
    assert!(pool.get_transaction(&tx_a.hash()).is_none());
}

#[test]
fn residents_carry_the_time_of_their_admission() {
    let keypair = KeyPair::generate().unwrap();
    let mut pool = Mempool::new();
    let by_clock = signed(&keypair, [1u8; 32], 0, c(1.0), c(0.5));
    pool.add_transaction(by_clock.clone()).unwrap();
    // The clock stands after the first of January 2023.
    assert!(pool.get_entry(&by_clock.hash()).unwrap().timestamp() > 1_672_531_200);
    assert_eq!(pool.get_entry(&by_clock.hash()).unwrap().tx.hash(), by_clock.hash());
    let by_hand = transfer("someone", 3, c(1.0));
    pool.admit_transaction(by_hand.clone(), 42).unwrap();
    assert_eq!(pool.get_entry(&by_hand.hash()).unwrap().timestamp(), 42);
    assert!(pool.get_entry(&[0u8; 32]).is_none());
}
