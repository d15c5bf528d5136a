use trinitychain::blockchain::Block;
use trinitychain::blockchain::Blockchain;
use trinitychain::blockchain::ChainError;
use trinitychain::blockchain::GENESIS_TIMESTAMP;
use trinitychain::coord::Coord;
use trinitychain::crypto::KeyPair;
use trinitychain::discovery::DnsSeed;
use trinitychain::discovery::PeerDiscovery;
use trinitychain::miner::mine_block;
use trinitychain::network::frame_length;
use trinitychain::network::frame_message;
use trinitychain::network::handle_message;
use trinitychain::network::port_text;
use trinitychain::network::NetworkMessage;
use trinitychain::network::Node;
use trinitychain::network::Reaction;
use trinitychain::network::MAX_MESSAGE_SIZE;
use trinitychain::transaction::CoinbaseTx;
use trinitychain::transaction::Transaction;
use trinitychain::transaction::TransferTx;

fn coinbase(reward: i32, to: &str) -> Transaction {
    Transaction::Coinbase(CoinbaseTx { reward_area: Coord::from_num(reward), beneficiary_address: to.to_string() })
}

fn extend(chain: &mut Blockchain, transactions: Vec<Transaction>) {
    let last = chain.blocks().last().unwrap();
    let block = Block::with_timestamp(
        last.header.height + 1,
        last.hash(),
        chain.difficulty(),
        transactions,
        last.header.timestamp + 1,
    );
    chain.apply_block(mine_block(block).unwrap()).unwrap();
}

#[test]
fn test_peer_discovery_creation() {
    let discovery = PeerDiscovery::new();
    assert_eq!(discovery.peer_count(), 0);
}

#[test]
fn test_add_bootstrap_peer() {
    let mut discovery = PeerDiscovery::new();
    let peer = Node::new("127.0.0.1".to_string(), 8333);

    discovery.add_bootstrap_peer(peer.clone());
    discovery.add_known_peer(peer); // Also add to known peers
    assert_eq!(discovery.peer_count(), 1);
}

#[test]
fn test_add_multiple_peers() {
    let mut discovery = PeerDiscovery::new();

    for i in 0..5 {
        let peer = Node::new(format!("127.0.0.{}", i), 8333 + i as u16);
        discovery.add_bootstrap_peer(peer.clone());
        discovery.add_known_peer(peer);
    }

    assert_eq!(discovery.peer_count(), 5);
}

#[test]
fn test_duplicate_peer_not_added() {
    let mut discovery = PeerDiscovery::new();
    let peer = Node::new("127.0.0.1".to_string(), 8333);

    discovery.add_known_peer(peer.clone());
    discovery.add_known_peer(peer);

    assert_eq!(discovery.peer_count(), 1);
}

#[test]
fn test_get_random_peers() {
    let mut discovery = PeerDiscovery::new();

    for i in 0..10 {
        let peer = Node::new(format!("127.0.0.{}", i), 8333);
        discovery.add_bootstrap_peer(peer.clone());
        discovery.add_known_peer(peer);
    }

    let random = discovery.get_random_peers(5);
    assert_eq!(random.len(), 5);
}

#[test]
fn random_peers_are_known_distinct_and_connectable() {
    let mut discovery = PeerDiscovery::default();
    for i in 0..6 {
        discovery.add_known_peer(Node::new(format!("host{}", i), 1000 + i as u16));
    }
    discovery.add_known_peer(Node::new("::1".to_string(), 9));
    assert_eq!(discovery.peer_count(), 7);
    let all = discovery.get_random_peers(100);
    assert_eq!(all.len(), 6);
    let mut addresses: Vec<String> = all.iter().map(|n| n.addr()).collect();
    addresses.sort();
    addresses.dedup();
    assert_eq!(addresses.len(), 6);
    assert!(all.iter().all(|n| n.host.starts_with("host")));
    assert!(discovery.get_random_peers(0).is_empty());
    // Same host, another port: another peer.
    discovery.add_known_peer(Node::new("host0".to_string(), 1));
    assert_eq!(discovery.peer_count(), 8);
    discovery.clear();
    assert_eq!(discovery.peer_count(), 0);
    assert!(discovery.get_random_peers(3).is_empty());
}

#[test]
fn discovery_falls_back_on_bootstrap_peers() {
    let mut discovery = PeerDiscovery::new();
    discovery.add_dns_seed(DnsSeed::new("seed".to_string(), 1));
    assert_eq!(discovery.dns_seeds().len(), 1);
    let a = Node::new("a".to_string(), 1);
    let b = Node::new("b".to_string(), 2);
    let c = Node::new("c".to_string(), 3);
    discovery.add_bootstrap_peer(b.clone());
    discovery.add_bootstrap_peer(c.clone());
    assert_eq!(discovery.get_known_peers(), vec![b.clone(), c.clone()]);

    let first = discovery.discover_from(&vec![a.clone(), a.clone(), b.clone()]);
    assert_eq!(first, vec![a.clone(), b.clone()]);
    assert_eq!(discovery.peer_count(), 2);
    // Nothing new from the seeds: the unknown bootstrap peers come.
    let second = discovery.discover_from(&vec![a.clone()]);
    assert_eq!(second, vec![c.clone()]);
    assert_eq!(discovery.peer_count(), 3);
    let third = discovery.discover_from(&vec![]);
    assert!(third.is_empty());
    assert_eq!(discovery.absorb(&vec![c, Node::new("d".to_string(), 4)]).len(), 1);
}

#[test]
fn node_address_is_host_colon_port() {
    assert_eq!(Node::new("127.0.0.1".to_string(), 8333).addr(), "127.0.0.1:8333");
    assert_eq!(Node::new("h".to_string(), 0).addr(), "h:0");
    assert_eq!(Node::new(String::new(), 65535).addr(), ":65535");
    for port in [0u16, 1, 9, 10, 99, 100, 1000, 10000, 12345, 65535] {
        assert_eq!(port_text(port), port.to_string());
    }
}

#[test]
fn frames_carry_the_length_in_four_big_endian_bytes() {
    let frame = frame_message(b"hello").unwrap();
    assert_eq!(frame, vec![0, 0, 0, 5, b'h', b'e', b'l', b'l', b'o']);
    assert_eq!(frame_message(&[]).unwrap(), vec![0, 0, 0, 0]);
    let big = vec![7u8; 0x01_02_03];
    let frame = frame_message(&big).unwrap();
    assert_eq!(frame[..4], [0, 1, 2, 3]);
    assert_eq!(frame_length(&[0, 1, 2, 3]).unwrap(), 0x01_02_03);
    assert_eq!(frame.len(), 4 + big.len());

    let limit = (MAX_MESSAGE_SIZE as u32).to_be_bytes();
    assert_eq!(frame_length(&limit).unwrap(), MAX_MESSAGE_SIZE);
    let over = (MAX_MESSAGE_SIZE as u32 + 1).to_be_bytes();
    assert!(matches!(frame_length(&over), Err(ChainError::NetworkError(msg)) if msg == "Message too large"));
    assert!(frame_length(&[0xff; 4]).is_err());
    assert!(frame_message(&vec![0u8; MAX_MESSAGE_SIZE]).is_some());
    assert!(frame_message(&vec![0u8; MAX_MESSAGE_SIZE + 1]).is_none());
    assert_eq!(MAX_MESSAGE_SIZE, 10 * 1024 * 1024);
}

#[test]
fn messages_round_trip_through_their_bytes() {
    let chain = Blockchain::new("miner1".to_string(), 1).unwrap();
    let genesis = chain.blocks()[0].clone();
    let transfer = Transaction::Transfer(TransferTx::new([1u8; 32], "a".to_string(), "b".to_string(), Coord::from_num(1), Coord::from_num(0), 0));
    let messages = vec![
        NetworkMessage::GetBlockHeaders { after_height: 17 },
        NetworkMessage::BlockHeaders(vec![genesis.header, genesis.header]),
        NetworkMessage::BlockHeaders(vec![]),
        NetworkMessage::GetBlock([9u8; 32]),
        NetworkMessage::Block(Box::new(genesis.clone())),
        NetworkMessage::NewBlock(Box::new(genesis.clone())),
        NetworkMessage::NewTransaction(Box::new(transfer)),
        NetworkMessage::GetPeers,
        NetworkMessage::Peers(vec![Node::new("a".to_string(), 1), Node::new("bé".to_string(), 65535)]),
    ];
    for (tag, message) in [0u32, 1, 1, 2, 3, 4, 5, 6, 7].iter().zip(messages.iter()) {
        let bytes = message.encode();
        assert_eq!(bytes[..4], tag.to_le_bytes());
        let back = NetworkMessage::decode(&bytes).unwrap();
        assert_eq!(back.encode(), bytes);
        assert_eq!(format!("{:?}", back), format!("{:?}", message));
        let mut longer = bytes.clone();
        longer.push(0);
        assert!(NetworkMessage::decode(&longer).is_none());
        if !bytes.is_empty() {
            assert!(NetworkMessage::decode(&bytes[..bytes.len() - 1]).is_none());
        }
    }
    assert_eq!(NetworkMessage::GetPeers.encode(), 6u32.to_le_bytes());
    assert!(NetworkMessage::decode(&8u32.to_le_bytes()).is_none());
    // A port that does not fit into sixteen bits.
    let mut peers = NetworkMessage::Peers(vec![Node::new("a".to_string(), 1)]).encode();
    let n = peers.len();
    peers[n - 2] = 1;
    assert!(NetworkMessage::decode(&peers).is_none());
}

#[test]
fn a_node_answers_requests_and_takes_in_news() {
    let keypair = KeyPair::generate().unwrap();
    let mut chain = Blockchain::new(keypair.address(), 1).unwrap();
    extend(&mut chain, vec![coinbase(1, "m")]);
    extend(&mut chain, vec![coinbase(2, "m")]);
    let peers = vec![Node::new("p".to_string(), 1)];

    match handle_message(&mut chain, &peers, NetworkMessage::GetBlockHeaders { after_height: 0 }) {
        Reaction::Reply(NetworkMessage::BlockHeaders(headers)) => {
            assert_eq!(headers.iter().map(|h| h.height).collect::<Vec<_>>(), vec![1, 2]);
        }
        other => panic!("unexpected {:?}", other),
    }
    match handle_message(&mut chain, &peers, NetworkMessage::GetBlockHeaders { after_height: 5 }) {
        Reaction::Reply(NetworkMessage::BlockHeaders(headers)) => assert!(headers.is_empty()),
        other => panic!("unexpected {:?}", other),
    }
    let wanted = chain.blocks()[1].hash();
    match handle_message(&mut chain, &peers, NetworkMessage::GetBlock(wanted)) {
        Reaction::Reply(NetworkMessage::Block(block)) => assert_eq!(block.header.height, 1),
        other => panic!("unexpected {:?}", other),
    }
    assert!(matches!(handle_message(&mut chain, &peers, NetworkMessage::GetBlock([0u8; 32])), Reaction::Ignored));
    match handle_message(&mut chain, &peers, NetworkMessage::GetPeers) {
        Reaction::Reply(NetworkMessage::Peers(list)) => assert_eq!(list, peers),
        other => panic!("unexpected {:?}", other),
    }
    assert!(matches!(handle_message(&mut chain, &peers, NetworkMessage::Peers(vec![])), Reaction::Ignored));
    assert!(matches!(handle_message(&mut chain, &peers, NetworkMessage::BlockHeaders(vec![])), Reaction::Ignored));

    // A new transaction goes to the mempool.
    let input = chain.blocks()[0].transactions[0].hash();
    let mut tx = TransferTx::new(input, "r".to_string(), keypair.address(), Coord::from_num(5), Coord::from_num(1), 0);
    let signature = keypair.sign(&tx.signable_message()).unwrap();
    tx.sign(signature, keypair.public_key.serialize().to_vec());
    let news = NetworkMessage::NewTransaction(Box::new(Transaction::Transfer(tx.clone())));
    assert!(matches!(handle_message(&mut chain, &peers, news), Reaction::Accepted));
    assert_eq!(chain.mempool().len(), 1);
    let again = NetworkMessage::NewTransaction(Box::new(Transaction::Transfer(tx)));
    assert!(matches!(handle_message(&mut chain, &peers, again), Reaction::Rejected(ChainError::InvalidTransaction(_))));

    // A new block goes through the pipeline.
    let stale = chain.blocks()[1].clone();
    assert!(matches!(
        handle_message(&mut chain, &peers, NetworkMessage::NewBlock(Box::new(stale))),
        Reaction::Rejected(ChainError::InvalidBlock(_))
    ));
    let draft = chain.draft_block("miner".to_string(), 10, 0).unwrap();
    let mined = mine_block(draft).unwrap();
    assert!(matches!(handle_message(&mut chain, &peers, NetworkMessage::NewBlock(Box::new(mined))), Reaction::Accepted));
    assert_eq!(chain.height(), 4);
    assert!(chain.mempool().is_empty());
    assert_eq!(chain.get_balance(&"r".to_string()), Coord::from_num(5));
}

#[test]
fn drafts_start_with_the_reward_and_skip_what_cannot_be_included() {
    let alice = KeyPair::generate().unwrap();
    let mut chain = Blockchain::new(alice.address(), 3).unwrap();
    let input = chain.blocks()[0].transactions[0].hash();
    let sign = |amount: i32, fee: i32, nonce: u64| {
        let mut tx = TransferTx::new(input, "r".to_string(), alice.address(), Coord::from_num(amount), Coord::from_num(fee), nonce);
        let signature = alice.sign(&tx.signable_message()).unwrap();
        tx.sign(signature, alice.public_key.serialize().to_vec());
        Transaction::Transfer(tx)
    };
    let cheap = sign(10, 1, 0);
    let dear = sign(20, 5, 1);
    chain.submit_transaction(cheap.clone()).unwrap();
    chain.submit_transaction(dear.clone()).unwrap();

    let draft = chain.draft_block("miner".to_string(), 10, GENESIS_TIMESTAMP + 500).unwrap();
    assert_eq!(draft.header.height, 1);
    assert_eq!(draft.header.previous_hash, chain.blocks()[0].hash());
    assert_eq!(draft.header.difficulty, 3);
    assert_eq!(draft.header.timestamp, GENESIS_TIMESTAMP + 500);
    assert_eq!(draft.header.nonce, 0);
    // Both spend the same input: only the one with the higher fee gets in.
    assert_eq!(draft.transactions.len(), 2);
    assert_eq!(draft.transactions[0].hash(), coinbase(50, "miner").hash());
    assert_eq!(draft.transactions[1].hash(), dear.hash());
    assert_eq!(draft.header.merkle_root, Block::calculate_merkle_root(&draft.transactions));

    // A clock that stands still: the millisecond after the last block.
    let late = chain.draft_block("miner".to_string(), 0, 5).unwrap();
    assert_eq!(late.header.timestamp, GENESIS_TIMESTAMP + 1);
    assert_eq!(late.transactions.len(), 1);

    let mined = mine_block(draft).unwrap();
    chain.apply_block(mined).unwrap();
    assert_eq!(chain.get_balance(&"miner".to_string()), Coord::from_num(50));
    assert_eq!(chain.get_balance(&"r".to_string()), Coord::from_num(20));
    assert_eq!(chain.mempool().len(), 1);
    // What is left in the pool spends an input that is gone.
    let next = chain.draft_block("other".to_string(), 10, 0).unwrap();
    assert_eq!(next.transactions.len(), 1);
    assert_eq!(next.header.height, 2);
    // The miner still holds the reward of the last block unspent: an equal
    // coinbase would take the key of that UTXO, so there is no draft.
    assert!(chain.draft_block("miner".to_string(), 10, 0).is_none());
}

#[test]
fn a_block_log_is_replayed_and_checked() {
    let mut chain = Blockchain::new("miner1".to_string(), 2).unwrap();
    for i in 1..=12 {
        extend(&mut chain, vec![coinbase(i, "m")]);
    }
    let log: Vec<Block> = chain.blocks().clone();
    let loaded = Blockchain::from_blocks(log.clone(), 2).unwrap();
    assert_eq!(loaded.height(), 13);
    assert_eq!(loaded.difficulty(), chain.difficulty());
    assert_eq!(loaded.state().utxo_count(), chain.state().utxo_count());
    assert_eq!(loaded.get_balance(&"m".to_string()), Coord::from_num(78));
    assert_eq!(loaded.last_block().unwrap().hash(), chain.last_block().unwrap().hash());
    assert_eq!(loaded.block_by_height(3).unwrap().header.height, 3);
    assert!(loaded.block_by_height(13).is_none());
    let hash = log[5].hash();
    assert_eq!(loaded.block_by_hash(&hash).unwrap().header.height, 5);
    assert!(loaded.block_by_hash(&[0u8; 32]).is_none());

    let empty = Blockchain::from_blocks(vec![], 4).unwrap();
    assert_eq!((empty.height(), empty.difficulty()), (0, 4));
    assert!(empty.last_block().is_none());
    assert!(empty.draft_block("m".to_string(), 1, 0).is_none());

    let mut broken = log.clone();
    broken.remove(4);
    assert!(matches!(Blockchain::from_blocks(broken, 2), Err(ChainError::InvalidBlock(msg)) if msg == "Invalid block height."));
    let mut tampered = log;
    tampered[2].transactions[0] = coinbase(1000, "thief");
    assert!(Blockchain::from_blocks(tampered, 2).is_err());
}

#[test]
fn spendable_inputs_are_owned_worth_enough_and_not_locked() {
    let alice = KeyPair::generate().unwrap();
    let mut chain = Blockchain::new(alice.address(), 1).unwrap();
    let genesis_output = chain.blocks()[0].transactions[0].hash();
    assert_eq!(chain.find_spendable(&alice.address(), Coord::from_num(1_000_000)), Some(genesis_output));
    assert_eq!(chain.find_spendable(&alice.address(), Coord::from_bits((1_000_000i64 << 32) + 1)), None);
    assert_eq!(chain.find_spendable(&"nobody".to_string(), Coord::from_num(1)), None);

    let mut tx = TransferTx::new(genesis_output, "r".to_string(), alice.address(), Coord::from_num(5), Coord::from_num(1), 0);
    tx.sign_with(&alice).unwrap();
    assert!(tx.validate().is_ok());
    assert_eq!(tx.signature, Some(alice.sign(&tx.signable_message()).unwrap()));
    assert_eq!(tx.public_key, Some(alice.public_key.serialize().to_vec()));
    chain.submit_transaction(Transaction::Transfer(tx)).unwrap();
    assert!(chain.mempool().is_locked(&genesis_output));
    assert!(!chain.mempool().is_locked(&[0u8; 32]));
    // The only UTXO is spoken for by the pending transfer.
    assert_eq!(chain.find_spendable(&alice.address(), Coord::from_num(1)), None);

    let parent = trinitychain::geometry::Triangle::genesis().change_owner(alice.address());
    let mut split = trinitychain::transaction::SubdivisionTx::new(
        parent.hash(),
        parent.subdivide().to_vec(),
        alice.address(),
        Coord::from_num(0),
        0,
    );
    split.sign_with(&alice).unwrap();
    assert!(split.validate_signature().is_ok());
}
