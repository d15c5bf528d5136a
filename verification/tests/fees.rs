use trinitychain::coord::Coord;
use trinitychain::fees::FeeEstimator;
use trinitychain::mempool::Mempool;
use trinitychain::transaction::Transaction;
use trinitychain::transaction::TransferTx;

#[test]
fn test_fee_estimator_creation() {
    let estimator = FeeEstimator::new(1);
    assert_eq!(estimator.base_fee(), 1);
}

#[test]
fn test_estimate_fee() {
    let estimator = FeeEstimator::new(1);
    let fee = estimator.estimate_fee(250);
    assert!(fee > 0);
}

#[test]
fn test_fee_priority_ordering() {
    let estimator = FeeEstimator::new(10);
    let size = 250;

    let low = estimator.estimate_low_priority(size);
    let standard = estimator.estimate_standard(size);
    let high = estimator.estimate_high_priority(size);

    assert!(low <= standard);
    assert!(standard <= high);
}

#[test]
fn test_congestion_multiplier() {
    // Use a larger base fee to show congestion multiplier effect
    let mut estimator = FeeEstimator::new(100); // 100 base fee
    let base_fee = estimator.estimate_fee(100); // 100 byte tx

    // base_fee = (100 * 100 / 1000) * 1.0 = 10

    // Simulate high congestion (2.5x multiplier)
    estimator.set_congestion_multiplier(25_000);
    let congested_fee = estimator.estimate_fee(100);
    // congested_fee = (100 * 100 / 1000) * 2.5 = 25

    assert!(congested_fee > base_fee);
    assert_eq!(base_fee, 10);
    assert_eq!(congested_fee, 25);
}

#[test]
fn test_acceptable_fee() {
    let estimator = FeeEstimator::new(1);
    assert!(estimator.is_acceptable_fee(10, 250));
    assert!(!estimator.is_acceptable_fee(0, 250));
}

#[test]
fn estimates_round_up_and_never_overflow() {
    let estimator = FeeEstimator::default();
    assert_eq!(estimator.base_fee(), 1);
    assert_eq!(estimator.congestion_multiplier(), 10_000);
    // 250 bytes at 1 per kilobyte: a quarter, rounded up.
    assert_eq!(estimator.estimate_fee(250), 1);
    assert_eq!(estimator.estimate_fee(0), 0);
    assert_eq!(estimator.estimate_fee(1000), 1);
    assert_eq!(estimator.estimate_fee(1001), 2);
    assert_eq!(estimator.estimate_low_priority(1001), 1);
    assert_eq!(estimator.estimate_high_priority(1001), 4);
    let three = FeeEstimator::new(3);
    assert_eq!(three.estimate_fee(1000), 3);
    assert_eq!(three.estimate_low_priority(1000), 2);
    assert!(three.is_high_priority(6, 1000));
    assert!(!three.is_high_priority(5, 1000));
    let huge = FeeEstimator::new(u64::MAX);
    assert_eq!(huge.estimate_fee(usize::MAX), u64::MAX);
    assert_eq!(huge.estimate_high_priority(usize::MAX), u64::MAX);
    assert_eq!(huge.estimate_low_priority(usize::MAX), u64::MAX / 2 + 1);
    let mut wild = FeeEstimator::new(u64::MAX);
    wild.set_congestion_multiplier(u64::MAX);
    assert_eq!(wild.estimate_fee(usize::MAX), u64::MAX);
}

#[test]
fn congestion_follows_the_size_of_the_mempool() {
    let mut pool = Mempool::new();
    let mut estimator = FeeEstimator::new(1000);
    estimator.update_from_mempool(&pool);
    assert_eq!(estimator.congestion_multiplier(), 10_000);
    assert_eq!(estimator.get_stats(&pool).congestion_level, 0);
    for sender in 0..3 {
        for nonce in 0..100u64 {
            let tx = TransferTx::new([0u8; 32], "r".to_string(), format!("s{}", sender), Coord::from_num(1), Coord::from_num(1), nonce);
            pool.admit_transaction(Transaction::Transfer(tx), 0).unwrap();
        }
    }
    estimator.update_from_mempool(&pool);
    // 300 of 10000: the multiplier is 1.06.
    assert_eq!(estimator.congestion_multiplier(), 10_600);
    assert_eq!(estimator.estimate_fee(1000), 1060);
    let stats = estimator.get_stats(&pool);
    assert_eq!(stats.min_fee, 1000);
    assert_eq!(stats.median_fee, 265);
    assert_eq!(stats.high_priority_fee, 530);
    assert_eq!(stats.congestion_level, 3);
}
