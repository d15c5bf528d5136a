use trinitychain::api::balance_response;
use trinitychain::api::stats_response;
use trinitychain::blockchain::Blockchain;
use trinitychain::blockchain::TriangleState;
use trinitychain::config::default_enabled;
use trinitychain::config::default_model;
use trinitychain::config::default_provider;
use trinitychain::config::default_timeout;
use trinitychain::config::AIValidationConfig;
use trinitychain::coord::Coord;
use trinitychain::discovery::mainnet_dns_seeds;
use trinitychain::discovery::testnet_dns_seeds;
use trinitychain::discovery::DnsSeed;
use trinitychain::error::ChainError;
use trinitychain::fees::estimate_transaction_size;
use trinitychain::fees::FeeStats;
use trinitychain::geometry::Point;
use trinitychain::geometry::Triangle;
use trinitychain::transaction::CoinbaseTx;
use trinitychain::transaction::SubdivisionTx;
use trinitychain::transaction::Transaction;
use trinitychain::transaction::TransferTx;

fn n(x: i32) -> Coord {
    Coord::from_num(x)
}

fn triangle(owner: &str, value: i32) -> Triangle {
    Triangle::new(
        Point::new(n(0), n(0)),
        Point::new(n(4), n(0)),
        Point::new(n(0), n(4)),
        None,
        owner.to_string(),
    )
    .with_effective_value(n(value))
}

fn transfer(input: [u8; 32], sender: &str, to: &str, amount: Coord, fee: Coord, nonce: u64) -> Transaction {
    Transaction::Transfer(TransferTx::new(input, to.to_string(), sender.to_string(), amount, fee, nonce))
}

fn owned_total(state: &TriangleState, owner: &str) -> i64 {
    (0..state.utxo_count())
        .map(|i| state.utxo_at(i).1)
        .filter(|t| t.owner == owner)
        .map(|t| t.effective_value().to_bits())
        .sum()
}

fn assert_balanced(state: &TriangleState, owners: &[&str]) {
    for owner in owners {
        assert_eq!(
            state.get_balance(&owner.to_string()).to_bits(),
            owned_total(state, owner),
            "balance of {}",
            owner
        );
    }
}

fn snapshot(state: &TriangleState, owners: &[&str]) -> (Vec<([u8; 32], Triangle)>, Vec<Coord>) {
    let utxos = (0..state.utxo_count())
        .map(|i| {
            let (hash, t) = state.utxo_at(i);
            (*hash, t.clone())
        })
        .collect();
    let balances = owners.iter().map(|o| state.get_balance(&o.to_string())).collect();
    (utxos, balances)
}

#[test]
fn balances_follow_the_utxo_set_through_every_kind_of_transaction() {
    let owners = ["alice", "bob", "carol", "miner"];
    let mut state = TriangleState::new();
    assert_balanced(&state, &owners);

    let coinbase = Transaction::Coinbase(CoinbaseTx { reward_area: n(50), beneficiary_address: "miner".to_string() });
    state.apply_transaction(&coinbase, 0).unwrap();
    assert_balanced(&state, &owners);
    assert_eq!(state.get_balance(&"miner".to_string()), n(50));

    // Alice owns a triangle with real extent, worth 1000.
    let funding = triangle("alice", 1000);
    let funding_hash = funding.hash();
    state.insert_utxo(funding_hash, funding);
    state.rebuild_address_balances().unwrap();
    assert_balanced(&state, &owners);
    assert_eq!(state.get_balance(&"alice".to_string()), n(1000));

    let pay_bob = transfer(funding_hash, "alice", "bob", n(700), n(50), 0);
    state.apply_transaction(&pay_bob, 1).unwrap();
    assert_balanced(&state, &owners);
    assert_eq!(state.get_balance(&"alice".to_string()), n(250));
    assert_eq!(state.get_balance(&"bob".to_string()), n(700));
    assert_eq!(state.utxo_count(), 3);

    // Bob spends everything but the fee: no change output.
    let pay_carol = transfer(pay_bob.hash(), "bob", "carol", n(690), n(10), 0);
    state.apply_transaction(&pay_carol, 2).unwrap();
    assert_balanced(&state, &owners);
    assert_eq!(state.get_balance(&"bob".to_string()), n(0));
    assert_eq!(state.get_balance(&"carol".to_string()), n(690));
    assert_eq!(state.utxo_count(), 3);

    // Carol subdivides her triangle.
    let parent = state.get_utxo(&pay_carol.hash()).unwrap().clone();
    let children: Vec<Triangle> = parent
        .subdivide()
        .iter()
        .map(|t| t.clone().with_effective_value(n(225)))
        .collect();
    let split = Transaction::Subdivision(SubdivisionTx::new(pay_carol.hash(), children, "carol".to_string(), n(15), 0));
    state.apply_transaction(&split, 3).unwrap();
    assert_balanced(&state, &owners);
    assert_eq!(state.get_balance(&"carol".to_string()), n(675));
    assert_eq!(state.utxo_count(), 5);

    // Rebuilding the balances from the UTXO set changes nothing.
    let before = snapshot(&state, &owners);
    state.rebuild_address_balances().unwrap();
    assert_eq!(snapshot(&state, &owners), before);
}

#[test]
fn refused_transactions_leave_the_state_as_it_was() {
    let owners = ["alice", "bob"];
    let mut state = TriangleState::new();
    let utxo = triangle("alice", 100);
    let hash = utxo.hash();
    state.insert_utxo(hash, utxo.clone());
    state.rebuild_address_balances().unwrap();
    let before = snapshot(&state, &owners);

    let missing = transfer([9u8; 32], "alice", "bob", n(1), n(1), 0);
    assert!(matches!(
        state.apply_transaction(&missing, 1),
        Err(ChainError::TriangleNotFound(msg)) if msg == "Input UTXO not found for transfer"
    ));
    assert_eq!(snapshot(&state, &owners), before);

    let theft = transfer(hash, "bob", "bob", n(1), n(1), 0);
    assert!(matches!(
        state.apply_transaction(&theft, 1),
        Err(ChainError::InvalidTransaction(msg)) if msg == "Sender does not own input UTXO"
    ));
    assert_eq!(snapshot(&state, &owners), before);

    let children: Vec<Triangle> = utxo.subdivide().to_vec();
    let missing_parent = Transaction::Subdivision(SubdivisionTx::new([9u8; 32], children.clone(), "alice".to_string(), n(0), 0));
    assert!(matches!(
        state.apply_transaction(&missing_parent, 1),
        Err(ChainError::TriangleNotFound(msg)) if msg == "Parent UTXO for subdivision not found"
    ));
    let wrong_owner = Transaction::Subdivision(SubdivisionTx::new(hash, children.clone(), "bob".to_string(), n(0), 0));
    assert!(matches!(
        state.apply_transaction(&wrong_owner, 1),
        Err(ChainError::InvalidTransaction(msg)) if msg == "Subdivision owner does not match parent triangle owner"
    ));
    let mismatch = Transaction::Subdivision(SubdivisionTx::new(hash, children, "alice".to_string(), n(1), 0));
    assert!(matches!(
        state.apply_transaction(&mismatch, 1),
        Err(ChainError::InvalidTransaction(msg)) if msg == "Value mismatch in subdivision"
    ));
    assert_eq!(snapshot(&state, &owners), before);

    // A balance that cannot be stored.
    state.set_balance("bob".to_string(), Coord::from_bits(i64::MAX));
    let before = snapshot(&state, &owners);
    let overflow = transfer(hash, "alice", "bob", n(1), n(1), 0);
    assert!(matches!(
        state.apply_transaction(&overflow, 1),
        Err(ChainError::InvalidTransaction(msg)) if msg == "Balance overflow"
    ));
    assert_eq!(snapshot(&state, &owners), before);
    let reward = Transaction::Coinbase(CoinbaseTx { reward_area: n(1), beneficiary_address: "bob".to_string() });
    assert!(state.apply_transaction(&reward, 1).is_err());
    assert_eq!(snapshot(&state, &owners), before);
}

#[test]
fn change_is_made_only_above_the_tolerance() {
    let mut state = TriangleState::new();
    let utxo = triangle("alice", 10);
    let hash = utxo.hash();
    state.insert_utxo(hash, utxo);
    state.rebuild_address_balances().unwrap();
    // One stored unit is left: that is the tolerance itself, no change.
    let tx = transfer(hash, "alice", "bob", Coord::from_bits((10i64 << 32) - 1), n(0), 0);
    state.apply_transaction(&tx, 1).unwrap();
    assert_eq!(state.utxo_count(), 1);
    assert_eq!(state.get_balance(&"alice".to_string()), n(0));

    let mut state = TriangleState::new();
    let utxo = triangle("alice", 10);
    state.insert_utxo(hash, utxo);
    state.rebuild_address_balances().unwrap();
    // Two stored units are left: a change output of two units.
    let tx = transfer(hash, "alice", "bob", Coord::from_bits((10i64 << 32) - 2), n(0), 0);
    state.apply_transaction(&tx, 1).unwrap();
    assert_eq!(state.utxo_count(), 2);
    assert_eq!(state.get_balance(&"alice".to_string()), Coord::from_bits(2));
}

#[test]
fn a_repeated_coinbase_is_refused_while_the_first_is_unspent() {
    let owners = ["m", "n"];
    let mut state = TriangleState::new();
    let coinbase = Transaction::Coinbase(CoinbaseTx { reward_area: n(50), beneficiary_address: "m".to_string() });
    state.apply_transaction(&coinbase, 1).unwrap();
    let before = snapshot(&state, &owners);
    assert!(matches!(
        state.apply_transaction(&coinbase, 2),
        Err(ChainError::InvalidTransaction(msg)) if msg == "Output UTXO already exists"
    ));
    assert_eq!(snapshot(&state, &owners), before);
    assert_eq!(state.utxo_count(), 1);
    assert_eq!(state.get_balance(&"m".to_string()), n(50));
    assert_balanced(&state, &owners);

    // Another reward, or another beneficiary, has another hash.
    let more = Transaction::Coinbase(CoinbaseTx { reward_area: n(51), beneficiary_address: "m".to_string() });
    let other = Transaction::Coinbase(CoinbaseTx { reward_area: n(50), beneficiary_address: "n".to_string() });
    state.apply_transaction(&more, 2).unwrap();
    state.apply_transaction(&other, 2).unwrap();
    assert_eq!(state.utxo_count(), 3);
    assert_eq!(state.get_balance(&"m".to_string()), n(101));
    assert_balanced(&state, &owners);

    // Once the first reward is spent, an equal one is new again.
    let spend = transfer(coinbase.hash(), "m", "n", n(50), n(0), 0);
    state.apply_transaction(&spend, 3).unwrap();
    state.apply_transaction(&coinbase, 3).unwrap();
    assert_eq!(state.get_balance(&"m".to_string()), n(101));
    assert_eq!(state.get_balance(&"n".to_string()), n(100));
    assert_balanced(&state, &owners);
}

#[test]
fn children_without_extent_share_one_hash_and_are_refused() {
    // The UTXO of a coinbase has all its vertices in one point, and so
    // have its children: they have one hash, and the set cannot hold the
    // three of them.
    let owners = ["m"];
    let mut state = TriangleState::new();
    let coinbase = Transaction::Coinbase(CoinbaseTx { reward_area: n(90), beneficiary_address: "m".to_string() });
    state.apply_transaction(&coinbase, 0).unwrap();
    let parent = state.get_utxo(&coinbase.hash()).unwrap().clone();
    let children = parent.subdivide().to_vec();
    assert_eq!(children[0].hash(), children[1].hash());
    let before = snapshot(&state, &owners);
    let split = Transaction::Subdivision(SubdivisionTx::new(coinbase.hash(), children, "m".to_string(), n(0), 0));
    assert!(matches!(
        state.apply_transaction(&split, 1),
        Err(ChainError::InvalidTransaction(msg)) if msg == "Output UTXO already exists"
    ));
    assert_eq!(snapshot(&state, &owners), before);
    assert_eq!(state.utxo_count(), 1);
    assert_eq!(state.get_balance(&"m".to_string()), n(90));
    assert_balanced(&state, &owners);
}

#[test]
fn outputs_that_are_taken_or_foreign_are_refused() {
    let owners = ["alice", "bob", "eve"];
    let mut state = TriangleState::new();
    let utxo = triangle("alice", 100);
    let hash = utxo.hash();
    state.insert_utxo(hash, utxo.clone());
    state.rebuild_address_balances().unwrap();

    // A child that names another owner.
    let mut children: Vec<Triangle> = utxo.subdivide().to_vec();
    children[1].owner = "eve".to_string();
    let before = snapshot(&state, &owners);
    let foreign = Transaction::Subdivision(SubdivisionTx::new(hash, children, "alice".to_string(), n(0), 0));
    assert!(matches!(
        state.apply_transaction(&foreign, 1),
        Err(ChainError::InvalidTransaction(msg)) if msg == "Subdivision child does not belong to the owner"
    ));
    assert_eq!(snapshot(&state, &owners), before);

    // A child whose key names a UTXO that stays.
    let children: Vec<Triangle> = utxo.subdivide().to_vec();
    state.insert_utxo(children[2].hash(), triangle("bob", 7));
    state.rebuild_address_balances().unwrap();
    let before = snapshot(&state, &owners);
    let taken = Transaction::Subdivision(SubdivisionTx::new(hash, children.clone(), "alice".to_string(), n(0), 0));
    assert!(matches!(
        state.apply_transaction(&taken, 1),
        Err(ChainError::InvalidTransaction(msg)) if msg == "Output UTXO already exists"
    ));
    assert_eq!(snapshot(&state, &owners), before);
    assert_balanced(&state, &owners);
    let _ = state.remove_utxo(&children[2].hash());
    state.rebuild_address_balances().unwrap();

    // A transfer whose output key names a UTXO that stays.
    let pay = transfer(hash, "alice", "bob", n(60), n(10), 0);
    state.insert_utxo(pay.hash(), triangle("eve", 3));
    state.rebuild_address_balances().unwrap();
    let before = snapshot(&state, &owners);
    assert!(matches!(
        state.apply_transaction(&pay, 1),
        Err(ChainError::InvalidTransaction(msg)) if msg == "Output UTXO already exists"
    ));
    assert_eq!(snapshot(&state, &owners), before);
    let _ = state.remove_utxo(&pay.hash());
    state.rebuild_address_balances().unwrap();

    // A transfer whose change key names a UTXO that stays.
    let change_key = transfer(pay.hash(), "alice", "alice", n(30), n(0), 1).hash();
    state.insert_utxo(change_key, triangle("eve", 3));
    state.rebuild_address_balances().unwrap();
    let before = snapshot(&state, &owners);
    assert!(matches!(
        state.apply_transaction(&pay, 1),
        Err(ChainError::InvalidTransaction(msg)) if msg == "Output UTXO already exists"
    ));
    assert_eq!(snapshot(&state, &owners), before);
    let _ = state.remove_utxo(&change_key);
    state.rebuild_address_balances().unwrap();

    // With the keys free the transfer goes through, and the change comes
    // under the key that was tried.
    state.apply_transaction(&pay, 1).unwrap();
    assert!(state.contains_utxo(&pay.hash()));
    assert!(state.contains_utxo(&change_key));
    assert!(!state.contains_utxo(&hash));
    assert_eq!(state.get_balance(&"alice".to_string()), n(30));
    assert_eq!(state.get_balance(&"bob".to_string()), n(60));
    assert_balanced(&state, &owners);
}

#[test]
fn utxo_set_is_a_map_by_hash() {
    let mut state = TriangleState::new();
    assert_eq!(state.utxo_count(), 0);
    assert!(state.get_utxo(&[1u8; 32]).is_none());
    state.insert_utxo([1u8; 32], triangle("a", 1));
    state.insert_utxo([2u8; 32], triangle("b", 2));
    state.insert_utxo([1u8; 32], triangle("c", 3));
    assert_eq!(state.utxo_count(), 2);
    assert_eq!(state.get_utxo(&[1u8; 32]).unwrap().owner, "c");
    assert!(state.contains_utxo(&[2u8; 32]));
    assert_eq!(state.remove_utxo(&[2u8; 32]).unwrap().owner, "b");
    assert!(state.remove_utxo(&[2u8; 32]).is_none());
    assert_eq!(state.utxo_count(), 1);
    assert_eq!(state.get_balance(&"c".to_string()), n(0));
    state.set_balance("c".to_string(), n(7));
    state.set_balance("c".to_string(), n(8));
    assert_eq!(state.get_balance(&"c".to_string()), n(8));
    let copy = state.clone();
    state.remove_utxo(&[1u8; 32]);
    assert_eq!(copy.utxo_count(), 1);
    assert_eq!(copy.get_balance(&"c".to_string()), n(8));
}

#[test]
fn rebuild_reports_what_cannot_be_summed() {
    let mut state = TriangleState::new();
    state.insert_utxo([1u8; 32], triangle("a", 1).with_effective_value(Coord::from_bits(i64::MAX)));
    state.insert_utxo([2u8; 32], triangle("a", 1));
    state.set_balance("a".to_string(), n(3));
    assert!(state.rebuild_address_balances().is_err());
    assert_eq!(state.get_balance(&"a".to_string()), n(3));
    state.remove_utxo(&[2u8; 32]);
    assert!(state.rebuild_address_balances().is_ok());
    assert_eq!(state.get_balance(&"a".to_string()), Coord::from_bits(i64::MAX));
}

#[test]
fn query_answers_and_defaults() {
    let chain = Blockchain::new("miner1".to_string(), 1).unwrap();
    assert_eq!(balance_response(&chain, &"miner1".to_string()).balance, 1_000_000);
    assert_eq!(balance_response(&chain, &"nobody".to_string()).balance, 0);
    let stats = stats_response(&chain);
    assert_eq!((stats.height, stats.mempool_size), (1, 0));

    let defaults = AIValidationConfig::default();
    assert!(defaults.enabled && defaults.enable_transaction_validation && defaults.enable_for_all_clients);
    assert_eq!(defaults.timeout_secs, 30);
    assert_eq!(defaults.provider, default_provider());
    assert_eq!(defaults.model, default_model());
    assert!(default_enabled());
    assert_eq!(default_timeout(), 30);

    let fees = FeeStats::default();
    assert_eq!((fees.min_fee, fees.median_fee, fees.high_priority_fee, fees.congestion_level), (1, 5, 10, 0));

    let mainnet = mainnet_dns_seeds();
    assert_eq!(mainnet.len(), 3);
    assert_eq!(mainnet[0].hostname, "seeds1.trinitychain.io");
    assert_eq!(mainnet[2].hostname, "seeds3.trinitychain.io");
    assert!(mainnet.iter().all(|s| s.port == 8333));
    let testnet = testnet_dns_seeds();
    assert_eq!(testnet.len(), 2);
    assert_eq!(testnet[1].hostname, "testnet-seeds2.trinitychain.io");
    assert!(testnet.iter().all(|s| s.port == 18333));
    let seed = DnsSeed::new("host".to_string(), 1);
    assert_eq!((seed.hostname.as_str(), seed.port), ("host", 1));
}

#[test]
fn estimated_sizes() {
    let coinbase = Transaction::Coinbase(CoinbaseTx { reward_area: n(1), beneficiary_address: "m".to_string() });
    assert_eq!(estimate_transaction_size(&coinbase), 50);
    let plain = TransferTx::new([0u8; 32], "r".to_string(), "s".to_string(), n(1), n(0), 0);
    assert_eq!(estimate_transaction_size(&Transaction::Transfer(plain.clone())), 160);
    let with_memo = plain.with_memo("hello".to_string()).unwrap();
    assert_eq!(estimate_transaction_size(&Transaction::Transfer(with_memo)), 165);
    let parent = triangle("o", 9);
    let split = SubdivisionTx::new(parent.hash(), parent.subdivide().to_vec(), "o".to_string(), n(0), 0);
    assert_eq!(estimate_transaction_size(&Transaction::Subdivision(split)), 250);
}
