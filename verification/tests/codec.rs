use fixed::types::I32F32;
use trinitychain::blockchain::Block;
use trinitychain::blockchain::Blockchain;
use trinitychain::coord::Coord;
use trinitychain::geometry::Point;
use trinitychain::geometry::Triangle;
use trinitychain::transaction::CoinbaseTx;
use trinitychain::transaction::SubdivisionTx;
use trinitychain::transaction::Transaction;
use trinitychain::transaction::TransferTx;

fn c(x: f64) -> Coord {
    Coord::from_bits(I32F32::from_num(x).to_bits())
}

fn sample_triangle() -> Triangle {
    Triangle::new(
        Point::new(c(0.0), c(-1.5)),
        Point::new(c(4.0), c(0.0)),
        Point::new(c(0.25), c(5.0)),
        Some([7u8; 32]),
        "ownér".to_string(),
    )
    .with_effective_value(c(12.5))
}

fn sample_transactions() -> Vec<Transaction> {
    let mut transfer = TransferTx::new([1u8; 32], "to".to_string(), "from".to_string(), c(1.5), c(0.25), 9);
    transfer.sign(vec![3u8; 64], vec![2u8; 33]);
    let transfer = transfer.with_memo("memo ✓".to_string()).unwrap();
    let bare = TransferTx::new([0u8; 32], String::new(), String::new(), c(-1.0), c(0.0), u64::MAX);
    let parent = sample_triangle();
    let mut subdivision = SubdivisionTx::new(parent.hash(), parent.subdivide().to_vec(), "o".to_string(), c(0.5), 3);
    subdivision.sign(vec![], vec![9u8; 3]);
    let empty_subdivision = SubdivisionTx::new([0u8; 32], vec![], String::new(), c(0.0), 0);
    vec![
        Transaction::Coinbase(CoinbaseTx { reward_area: c(50.0), beneficiary_address: "miner".to_string() }),
        Transaction::Transfer(transfer),
        Transaction::Transfer(bare),
        Transaction::Subdivision(subdivision),
        Transaction::Subdivision(empty_subdivision),
    ]
}

#[test]
fn triangle_round_trip_is_byte_identical() {
    for t in [sample_triangle(), Triangle::genesis(), Triangle::new(Point::new(c(0.0), c(0.0)), Point::new(c(0.0), c(0.0)), Point::new(c(0.0), c(0.0)), None, String::new())] {
        let bytes = t.encode();
        let back = Triangle::decode(&bytes).unwrap();
        assert_eq!(back, t);
        assert_eq!(back.encode(), bytes);
    }
}

#[test]
fn triangle_bytes_have_the_documented_layout() {
    let t = sample_triangle();
    let mut expected = Vec::new();
    for coordinate in [0.0, -1.5, 4.0, 0.0, 0.25, 5.0] {
        expected.extend_from_slice(&I32F32::from_num(coordinate).to_le_bytes());
    }
    expected.push(1);
    expected.extend_from_slice(&[7u8; 32]);
    expected.extend_from_slice(&("ownér".len() as u64).to_le_bytes());
    expected.extend_from_slice("ownér".as_bytes());
    expected.push(1);
    expected.extend_from_slice(&I32F32::from_num(12.5).to_le_bytes());
    assert_eq!(t.encode(), expected);

    let plain = Triangle::genesis();
    let bytes = plain.encode();
    assert_eq!(bytes.len(), 48 + 1 + 8 + "genesis_owner".len() + 1);
    assert_eq!(bytes[48], 0);
    assert_eq!(*bytes.last().unwrap(), 0);
}

#[test]
fn transaction_round_trip_is_byte_identical() {
    for tx in sample_transactions() {
        let bytes = tx.encode();
        assert_eq!(bytes.len(), tx.encoded_size());
        let back = Transaction::decode(&bytes).unwrap();
        assert_eq!(back.encode(), bytes);
        assert_eq!(back.hash(), tx.hash());
        assert_eq!(back.fee_area(), tx.fee_area());
    }
}

#[test]
fn transaction_bytes_start_with_the_tag_of_the_kind() {
    let txs = sample_transactions();
    assert_eq!(txs[0].encode()[..4], 2u32.to_le_bytes());
    assert_eq!(txs[1].encode()[..4], 0u32.to_le_bytes());
    assert_eq!(txs[3].encode()[..4], 1u32.to_le_bytes());
    let coinbase = txs[0].encode();
    let mut expected = 2u32.to_le_bytes().to_vec();
    expected.extend_from_slice(&I32F32::from_num(50).to_le_bytes());
    expected.extend_from_slice(&5u64.to_le_bytes());
    expected.extend_from_slice(b"miner");
    assert_eq!(coinbase, expected);
}

#[test]
fn block_round_trip_is_byte_identical() {
    let chain = Blockchain::new("miner1".to_string(), 1).unwrap();
    let genesis = chain.blocks()[0].clone();
    let bytes = genesis.encode();
    let back = Block::decode(&bytes).unwrap();
    assert_eq!(back.encode(), bytes);
    assert_eq!(back.hash(), genesis.hash());
    assert_eq!(back.header.nonce, genesis.header.nonce);
    assert_eq!(back.transactions.len(), 1);

    let full = Block::with_timestamp(3, [4u8; 32], 7, sample_transactions(), 99);
    let bytes = full.encode();
    // header: 8 + 8 + 32 + 32 + 4 + 8 bytes, then the count.
    assert_eq!(bytes[..8], 3u64.to_le_bytes());
    assert_eq!(bytes[92..100], 5u64.to_le_bytes());
    let back = Block::decode(&bytes).unwrap();
    assert_eq!(back.encode(), bytes);
    assert_eq!(back.header.merkle_root, full.header.merkle_root);
    assert_eq!(Block::calculate_merkle_root(&back.transactions), full.header.merkle_root);

    let empty = Block::with_timestamp(0, [0u8; 32], 0, vec![], 0);
    assert_eq!(empty.encode().len(), 100);
    assert_eq!(Block::decode(&empty.encode()).unwrap().encode(), empty.encode());
}

#[test]
fn malformed_bytes_are_refused() {
    let tx = sample_transactions().remove(1);
    let bytes = tx.encode();
    // Truncated anywhere.
    for cut in 0..bytes.len() {
        assert!(Transaction::decode(&bytes[..cut]).is_none(), "cut at {}", cut);
    }
    // Trailing bytes.
    let mut longer = bytes.clone();
    longer.push(0);
    assert!(Transaction::decode(&longer).is_none());
    // An unknown kind.
    let mut unknown = bytes.clone();
    unknown[0] = 3;
    assert!(Transaction::decode(&unknown).is_none());
    // A tag of an optional value that is neither zero nor one.
    let t = Triangle::genesis();
    let mut bad_tag = t.encode();
    bad_tag[48] = 2;
    assert!(Triangle::decode(&bad_tag).is_none());
    // An owner that is no UTF-8.
    let mut bad_text = t.encode();
    bad_text[48 + 1 + 8] = 0xff;
    assert!(Triangle::decode(&bad_text).is_none());
    // A length that reaches beyond the end.
    let mut bad_length = t.encode();
    bad_length[49..57].copy_from_slice(&u64::MAX.to_le_bytes());
    assert!(Triangle::decode(&bad_length).is_none());
    assert!(Triangle::decode(&[]).is_none());
    assert!(Block::decode(&[0u8; 99]).is_none());
    // A block that announces more transactions than follow.
    let mut short = Block::with_timestamp(0, [0u8; 32], 0, vec![], 0).encode();
    short[92] = 1;
    assert!(Block::decode(&short).is_none());
}
