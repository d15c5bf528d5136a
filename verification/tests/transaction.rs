use fixed::types::I32F32;
use trinitychain::blockchain::TriangleState;
use trinitychain::coord::Coord;
use trinitychain::crypto::KeyPair;
use trinitychain::error::ChainError;
use trinitychain::geometry::Point;
use trinitychain::geometry::Triangle;
use trinitychain::transaction::CoinbaseTx;
use trinitychain::transaction::SubdivisionTx;
use trinitychain::transaction::Transaction;
use trinitychain::transaction::TransferTx;
use trinitychain::transaction::MAX_TRANSACTION_SIZE;

fn c(x: f64) -> Coord {
    Coord::from_bits(I32F32::from_num(x).to_bits())
}

fn unit_triangle(owner: &str) -> Triangle {
    Triangle::new(
        Point::new(c(0.0), c(0.0)),
        Point::new(c(1.0), c(0.0)),
        Point::new(c(0.5), c(0.866)),
        None,
        owner.to_string(),
    )
}

fn invalid_reason(result: Result<(), ChainError>) -> String {
    match result {
        Err(ChainError::InvalidTransaction(msg)) => msg,
        other => panic!("expected an invalid transaction, got {:?}", other),
    }
}

fn signed_transfer(
    keypair: &KeyPair,
    input_hash: [u8; 32],
    new_owner: &str,
    amount: Coord,
    fee_area: Coord,
    nonce: u64,
) -> TransferTx {
    let mut tx = TransferTx::new(
        input_hash,
        new_owner.to_string(),
        keypair.address(),
        amount,
        fee_area,
        nonce,
    );
    let message = tx.signable_message();
    let signature = keypair.sign(&message).unwrap();
    tx.sign(signature, keypair.public_key.serialize().to_vec());
    tx
}

#[test]
fn test_tx_validation_success() {
    let mut state = TriangleState::new();
    let keypair = KeyPair::generate().unwrap();
    let address = keypair.address();
    // Stateful validation asks that the parent belongs to the owner named
    // in the transaction, so the parent is owned by the signer here.
    let parent = unit_triangle(&address);
    let parent_hash = parent.hash();
    state.insert_utxo(parent_hash, parent.clone());

    let children = parent.subdivide();

    let mut tx = SubdivisionTx::new(
        parent_hash,
        children.to_vec(),
        address,
        Coord::from_num(0),
        1,
    );
    let message = tx.signable_message();
    let signature = keypair.sign(&message).unwrap();
    let public_key = keypair.public_key.serialize().to_vec();
    tx.sign(signature, public_key);

    assert!(tx.validate(&state).is_ok());
}

#[test]
fn subdivision_of_a_parent_owned_by_someone_else_is_refused() {
    let mut state = TriangleState::new();
    let parent = unit_triangle("test_owner");
    let parent_hash = parent.hash();
    state.insert_utxo(parent_hash, parent.clone());

    let children = parent.subdivide();
    let keypair = KeyPair::generate().unwrap();
    let address = keypair.address();

    let mut tx = SubdivisionTx::new(
        parent_hash,
        children.to_vec(),
        address,
        Coord::from_num(0),
        1,
    );
    let message = tx.signable_message();
    let signature = keypair.sign(&message).unwrap();
    let public_key = keypair.public_key.serialize().to_vec();
    tx.sign(signature, public_key);

    assert!(tx.validate_signature().is_ok());
    assert_eq!(invalid_reason(tx.validate(&state)), "Owner does not own parent triangle");
}

#[test]
fn test_unsigned_transaction_fails() {
    let mut state = TriangleState::new();
    let parent = unit_triangle("test_owner");
    let parent_hash = parent.hash();
    state.insert_utxo(parent_hash, parent.clone());

    let children = parent.subdivide();
    let address = "test_address".to_string();

    let tx = SubdivisionTx::new(
        parent_hash,
        children.to_vec(),
        address,
        Coord::from_num(0),
        1,
    );
    assert!(tx.validate(&state).is_err());
    assert_eq!(invalid_reason(tx.validate_signature()), "Transaction not signed");
}

#[test]
fn test_invalid_signature_fails() {
    let mut state = TriangleState::new();
    let parent = unit_triangle("test_owner");
    let parent_hash = parent.hash();
    state.insert_utxo(parent_hash, parent.clone());

    let children = parent.subdivide();
    let keypair = KeyPair::generate().unwrap();
    let address = keypair.address();

    let mut tx = SubdivisionTx::new(
        parent_hash,
        children.to_vec(),
        address,
        Coord::from_num(0),
        1,
    );
    let fake_signature = vec![0u8; 64];
    let public_key = keypair.public_key.serialize().to_vec();
    tx.sign(fake_signature, public_key);

    assert!(tx.validate(&state).is_err());
    assert_eq!(invalid_reason(tx.validate_signature()), "Invalid signature");
}

#[test]
fn test_tx_validation_area_conservation_failure() {
    let mut state = TriangleState::new();
    let parent = unit_triangle("test_owner");
    let parent_hash = parent.hash();
    state.insert_utxo(parent_hash, parent);

    let bad_child = Triangle::new(
        Point::new(c(0.0), c(0.0)),
        Point::new(c(2.0), c(0.0)),
        Point::new(c(1.0), c(1.732)),
        None,
        "test_owner".to_string(),
    );
    let children = vec![bad_child.clone(), bad_child.clone(), bad_child];

    let keypair = KeyPair::generate().unwrap();
    let address = keypair.address();

    let tx = SubdivisionTx::new(parent_hash, children, address, Coord::from_num(0), 1);
    assert!(tx.validate(&state).is_err());
}

#[test]
fn test_tx_validation_double_spend_check() {
    let state = TriangleState::new();

    let parent = unit_triangle("test_owner");
    let parent_hash = parent.hash();
    let children = parent.subdivide();

    let address = "test_address".to_string();
    let tx = SubdivisionTx::new(
        parent_hash,
        children.to_vec(),
        address,
        Coord::from_num(0),
        1,
    );

    assert!(tx.validate(&state).is_err());
}

#[test]
fn test_geometric_fee_deduction() {
    let mut state = TriangleState::new();
    let keypair = KeyPair::generate().unwrap();
    let sender_address = keypair.address();

    let large_triangle = Triangle::new(
        Point::new(c(0.0), c(0.0)),
        Point::new(c(4.0), c(0.0)),
        Point::new(c(0.0), c(5.0)),
        None,
        sender_address.clone(),
    );

    let triangle_hash = large_triangle.hash();
    assert_eq!(large_triangle.area(), c(10.0));

    state.insert_utxo(triangle_hash, large_triangle);

    let fee_area = c(0.0001);
    let recipient_address = "recipient_address".to_string();

    let mut tx = TransferTx::new(
        triangle_hash,
        recipient_address.clone(),
        sender_address.clone(),
        c(1.0), // Amount > fee
        fee_area,
        1,
    );

    let message = tx.signable_message();
    let signature = keypair.sign(&message).unwrap();
    let public_key = keypair.public_key.serialize().to_vec();
    tx.sign(signature, public_key);

    assert!(tx.validate_with_state(&state).is_ok());

    let old_triangle = state.remove_utxo(&triangle_hash).unwrap();
    let new_value = old_triangle.effective_value().checked_sub(fee_area).unwrap();

    let new_triangle = Triangle::new_with_value(
        old_triangle.a,
        old_triangle.b,
        old_triangle.c,
        old_triangle.parent_hash,
        recipient_address.clone(),
        new_value,
    );

    let new_hash = new_triangle.hash();
    state.insert_utxo(new_hash, new_triangle);

    let result_triangle = state.get_utxo(&new_hash).unwrap();
    assert_eq!(result_triangle.owner, recipient_address);

    let expected_value = c(10.0).checked_sub(c(0.0001)).unwrap();
    assert_eq!(result_triangle.effective_value(), expected_value);
    assert_eq!(result_triangle.area(), c(10.0));
}

#[test]
fn test_geometric_fee_insufficient_value() {
    let mut state = TriangleState::new();
    let keypair = KeyPair::generate().unwrap();
    let sender_address = keypair.address();

    let small_triangle = Triangle::new(
        Point::new(c(0.0), c(0.0)),
        Point::new(c(1.0), c(0.0)),
        Point::new(c(0.5), c(1.0)),
        None,
        sender_address.clone(),
    );

    let triangle_hash = small_triangle.hash();
    let triangle_area = small_triangle.area();
    state.insert_utxo(triangle_hash, small_triangle);

    let fee_area = triangle_area.checked_add(c(0.1)).unwrap();

    let mut tx = TransferTx::new(
        triangle_hash,
        "recipient".to_string(),
        sender_address.clone(),
        Coord::from_num(0),
        fee_area,
        1,
    );

    let message = tx.signable_message();
    let signature = keypair.sign(&message).unwrap();
    let public_key = keypair.public_key.serialize().to_vec();
    tx.sign(signature, public_key);

    let result = tx.validate_with_state(&state);
    assert!(result.is_err());

    if let Err(ChainError::InvalidTransaction(msg)) = result {
        assert!(msg.contains("Insufficient"));
    } else {
        panic!("Expected InvalidTransaction error");
    }
}

#[test]
fn test_negative_fee_rejected() {
    let keypair = KeyPair::generate().unwrap();

    let mut tx = TransferTx::new(
        [0u8; 32],
        "recipient".to_string(),
        keypair.address(),
        Coord::from_num(0),
        c(-1.0), // Negative fee
        1,
    );

    let message = tx.signable_message();
    let signature = keypair.sign(&message).unwrap();
    let public_key = keypair.public_key.serialize().to_vec();
    tx.sign(signature, public_key);

    let result = tx.validate();
    assert!(result.is_err());
    assert_eq!(invalid_reason(tx.validate_fields()), "Fee area cannot be negative");
}

#[test]
fn transfer_field_rules_come_in_their_order() {
    let keypair = KeyPair::generate().unwrap();
    let sender = keypair.address();
    let one = Coord::from_num(1);
    let zero = Coord::from_num(0);

    let unsigned = TransferTx::new([0u8; 32], "r".to_string(), sender.clone(), one, zero, 1);
    assert_eq!(invalid_reason(unsigned.validate_fields()), "Transfer not signed");
    assert_eq!(invalid_reason(unsigned.validate()), "Transfer not signed");

    let mut only_signature = TransferTx::new([0u8; 32], "r".to_string(), sender.clone(), one, zero, 1);
    only_signature.signature = Some(vec![1, 2, 3]);
    assert_eq!(invalid_reason(only_signature.validate_fields()), "Transfer not signed");

    let mut no_sender = TransferTx::new([0u8; 32], "r".to_string(), String::new(), one, zero, 1);
    no_sender.sign(vec![0u8; 64], vec![2u8; 33]);
    assert_eq!(invalid_reason(no_sender.validate_fields()), "Sender address cannot be empty");

    let mut no_recipient = TransferTx::new([0u8; 32], String::new(), sender.clone(), one, zero, 1);
    no_recipient.sign(vec![0u8; 64], vec![2u8; 33]);
    assert_eq!(invalid_reason(no_recipient.validate_fields()), "New owner address cannot be empty");

    let mut self_send = TransferTx::new([0u8; 32], sender.clone(), sender.clone(), one, zero, 1);
    self_send.sign(vec![0u8; 64], vec![2u8; 33]);
    assert_eq!(invalid_reason(self_send.validate_fields()), "Sender and new owner cannot be the same");

    let mut negative_amount =
        TransferTx::new([0u8; 32], "r".to_string(), sender.clone(), c(-1.0), c(-1.0), 1);
    negative_amount.sign(vec![0u8; 64], vec![2u8; 33]);
    assert_eq!(invalid_reason(negative_amount.validate_fields()), "Transfer amount cannot be negative");

    let mut both_zero = TransferTx::new([0u8; 32], "r".to_string(), sender.clone(), zero, zero, 1);
    both_zero.sign(vec![0u8; 64], vec![2u8; 33]);
    assert_eq!(invalid_reason(both_zero.validate_fields()), "Amount and fee cannot both be zero");

    let mut fee_only = TransferTx::new([0u8; 32], "r".to_string(), sender.clone(), zero, one, 1);
    fee_only.sign(vec![0u8; 64], vec![2u8; 33]);
    assert!(fee_only.validate_fields().is_ok());
    assert_eq!(invalid_reason(fee_only.validate()), "Invalid signature");
}

#[test]
fn memo_length_is_counted_in_characters_and_capped_at_256() {
    let keypair = KeyPair::generate().unwrap();
    let base = || TransferTx::new([0u8; 32], "r".to_string(), keypair.address(), Coord::from_num(1), Coord::from_num(0), 1);
    let ok = base().with_memo("m".repeat(256)).unwrap();
    assert_eq!(ok.memo.as_deref().map(|m| m.len()), Some(256));
    match base().with_memo("m".repeat(257)) {
        Err(ChainError::InvalidTransaction(msg)) => {
            assert_eq!(msg, "Memo exceeds maximum length of 256 characters")
        }
        other => panic!("expected a refusal, got {:?}", other),
    }
    // 256 two-byte characters are 512 bytes and still 256 characters.
    let wide = base().with_memo("é".repeat(256)).unwrap();
    assert_eq!(wide.memo.as_deref().map(|m| m.chars().count()), Some(256));
    assert_eq!(wide.memo.as_deref().map(|m| m.len()), Some(512));
    assert!(base().with_memo("é".repeat(200)).is_ok());
    assert!(base().with_memo("é".repeat(257)).is_err());

    let mut too_long = base();
    too_long.memo = Some("m".repeat(257));
    too_long.sign(vec![0u8; 64], vec![2u8; 33]);
    assert_eq!(
        invalid_reason(too_long.validate_fields()),
        "Memo exceeds maximum length of 256 characters"
    );

    let mut wide_enough = base();
    wide_enough.memo = Some("é".repeat(256));
    wide_enough.sign(vec![0u8; 64], vec![2u8; 33]);
    assert!(wide_enough.validate_fields().is_ok());
    let mut too_wide = base();
    too_wide.memo = Some("é".repeat(257));
    too_wide.sign(vec![0u8; 64], vec![2u8; 33]);
    assert_eq!(
        invalid_reason(too_wide.validate_fields()),
        "Memo exceeds maximum length of 256 characters"
    );
}

#[test]
fn signed_transfer_validates_and_tampering_breaks_the_signature() {
    let keypair = KeyPair::generate().unwrap();
    let tx = signed_transfer(&keypair, [7u8; 32], "recipient", c(2.5), c(0.5), 9);
    assert!(tx.validate().is_ok());

    let mut tampered = tx.clone();
    tampered.amount = c(3.5);
    assert_eq!(invalid_reason(tampered.validate()), "Invalid signature");

    let mut other_key = tx.clone();
    other_key.public_key = Some(KeyPair::generate().unwrap().public_key.serialize().to_vec());
    assert_eq!(invalid_reason(other_key.validate()), "Invalid signature");

    let mut malformed_key = tx.clone();
    malformed_key.public_key = Some(vec![1, 2, 3]);
    assert_eq!(invalid_reason(malformed_key.validate()), "Invalid signature");

    let mut malformed_signature = tx.clone();
    malformed_signature.signature = Some(vec![1, 2, 3]);
    assert_eq!(invalid_reason(malformed_signature.validate()), "Invalid signature");

    // The memo is not part of the signed message.
    let with_memo = tx.clone().with_memo("hello".to_string()).unwrap();
    assert!(with_memo.validate().is_ok());
}

#[test]
fn transfer_signable_message_and_hash_have_the_canonical_layout() {
    use_layout_check();
}

fn use_layout_check() {
    let tx = TransferTx::new(
        [0xabu8; 32],
        "new".to_string(),
        "old".to_string(),
        c(1.5),
        c(0.25),
        0x0102030405060708,
    );
    let mut body = Vec::new();
    body.extend_from_slice(&[0xabu8; 32]);
    body.extend_from_slice(b"new");
    body.extend_from_slice(b"old");
    body.extend_from_slice(&I32F32::from_num(1.5).to_le_bytes());
    body.extend_from_slice(&I32F32::from_num(0.25).to_le_bytes());
    body.extend_from_slice(&0x0102030405060708u64.to_le_bytes());
    let mut message = b"TRANSFER:".to_vec();
    message.extend_from_slice(&body);
    assert_eq!(tx.signable_message(), message);

    let mut preimage = b"transfer".to_vec();
    preimage.extend_from_slice(&body);
    let expected: [u8; 32] = sha2_digest(&preimage);
    let wrapped = Transaction::Transfer(tx);
    assert_eq!(wrapped.hash(), expected);
    assert_eq!(wrapped.hash_str(), hex::encode(expected));
}

fn sha2_digest(bytes: &[u8]) -> [u8; 32] {
    let digest = <sha2::Sha256 as sha2::Digest>::digest(bytes);
    digest.into()
}

#[test]
fn coinbase_and_subdivision_hashes_have_the_canonical_layout() {
    let coinbase = Transaction::Coinbase(CoinbaseTx {
        reward_area: c(50.0),
        beneficiary_address: "miner".to_string(),
    });
    let mut preimage = b"coinbase".to_vec();
    preimage.extend_from_slice(&I32F32::from_num(50).to_le_bytes());
    preimage.extend_from_slice(b"miner");
    assert_eq!(coinbase.hash(), sha2_digest(&preimage));

    let parent = unit_triangle("owner");
    let children = parent.subdivide().to_vec();
    let tx = SubdivisionTx::new(parent.hash(), children.clone(), "owner".to_string(), c(0.5), 3);
    let mut message = parent.hash().to_vec();
    for child in &children {
        message.extend_from_slice(&child.hash());
    }
    message.extend_from_slice(b"owner");
    message.extend_from_slice(&I32F32::from_num(0.5).to_le_bytes());
    message.extend_from_slice(&3u64.to_le_bytes());
    assert_eq!(tx.signable_message(), message);
    let mut preimage = b"subdivision".to_vec();
    preimage.extend_from_slice(&message);
    assert_eq!(Transaction::Subdivision(tx).hash(), sha2_digest(&preimage));
}

#[test]
fn subdivision_hash_ignores_the_order_of_the_vertices_of_a_child() {
    let parent = unit_triangle("owner");
    let children = parent.subdivide().to_vec();
    let mut permuted = children.clone();
    let first = permuted[0].clone();
    permuted[0] = Triangle {
        a: first.c,
        b: first.a,
        c: first.b,
        parent_hash: first.parent_hash,
        owner: first.owner.clone(),
        value: first.value,
    };
    let tx1 = Transaction::Subdivision(SubdivisionTx::new(parent.hash(), children, "owner".to_string(), c(0.0), 1));
    let tx2 = Transaction::Subdivision(SubdivisionTx::new(parent.hash(), permuted, "owner".to_string(), c(0.0), 1));
    assert_eq!(tx1.hash(), tx2.hash());
    assert_eq!(tx1.hash(), tx1.clone().hash());
}

#[test]
fn coinbase_validation_checks_reward_bounds_and_beneficiary() {
    let coinbase = |reward: Coord, to: &str| CoinbaseTx { reward_area: reward, beneficiary_address: to.to_string() };
    assert!(coinbase(Coord::from_num(1000), "m").validate().is_ok());
    assert!(coinbase(Coord::from_bits(1), "m").validate().is_ok());
    assert_eq!(
        invalid_reason(coinbase(Coord::from_num(0), "m").validate()),
        "Coinbase reward area must be greater than zero"
    );
    assert_eq!(
        invalid_reason(coinbase(c(-1.0), "m").validate()),
        "Coinbase reward area must be greater than zero"
    );
    assert_eq!(
        invalid_reason(coinbase(Coord::from_bits((1000i64 << 32) + 1), "m").validate()),
        "Coinbase reward area exceeds maximum"
    );
    assert_eq!(
        invalid_reason(coinbase(Coord::from_num(1), "").validate()),
        "Coinbase beneficiary address cannot be empty"
    );
}

#[test]
fn fee_area_is_zero_for_a_coinbase_and_the_field_otherwise() {
    let coinbase = Transaction::Coinbase(CoinbaseTx { reward_area: c(50.0), beneficiary_address: "m".to_string() });
    assert_eq!(coinbase.fee_area(), Coord::from_num(0));
    assert_eq!(coinbase.fee(), 0);
    let transfer = Transaction::Transfer(TransferTx::new([0u8; 32], "r".to_string(), "s".to_string(), c(1.0), c(2.75), 1));
    assert_eq!(transfer.fee_area(), c(2.75));
    assert_eq!(transfer.fee(), 2);
    let parent = unit_triangle("owner");
    let subdivision = Transaction::Subdivision(SubdivisionTx::new(parent.hash(), parent.subdivide().to_vec(), "owner".to_string(), c(7.0), 1));
    assert_eq!(subdivision.fee_area(), c(7.0));
    assert_eq!(subdivision.fee(), 7);
    assert_eq!(coinbase.input_hash(), None);
    assert_eq!(transfer.input_hash(), Some([0u8; 32]));
    assert_eq!(subdivision.input_hash(), Some(parent.hash()));
}

#[test]
fn size_limit_counts_the_encoded_bytes() {
    // tag 4 + reward 8 + length 8 + address bytes
    let small = Transaction::Coinbase(CoinbaseTx { reward_area: c(1.0), beneficiary_address: "abc".to_string() });
    assert_eq!(small.encoded_size(), 23);
    assert!(small.validate_size().is_ok());

    let at_limit = Transaction::Coinbase(CoinbaseTx {
        reward_area: c(1.0),
        beneficiary_address: "a".repeat(MAX_TRANSACTION_SIZE - 20),
    });
    assert_eq!(at_limit.encoded_size(), MAX_TRANSACTION_SIZE);
    assert!(at_limit.validate_size().is_ok());

    let too_large = Transaction::Coinbase(CoinbaseTx {
        reward_area: c(1.0),
        beneficiary_address: "a".repeat(MAX_TRANSACTION_SIZE - 19),
    });
    assert_eq!(too_large.encoded_size(), MAX_TRANSACTION_SIZE + 1);
    assert_eq!(invalid_reason(too_large.validate_size()), "Transaction too large");

    // A transfer: tag 4, input 32, two strings, three numbers of 8, two
    // optional vectors, optional memo.
    let mut transfer = TransferTx::new([0u8; 32], "to".to_string(), "from".to_string(), c(1.0), c(0.0), 1);
    assert_eq!(Transaction::Transfer(transfer.clone()).encoded_size(), 4 + 32 + 10 + 12 + 24 + 1 + 1 + 1);
    transfer.sign(vec![0u8; 64], vec![0u8; 33]);
    let transfer = transfer.with_memo("hi".to_string()).unwrap();
    assert_eq!(
        Transaction::Transfer(transfer).encoded_size(),
        4 + 32 + 10 + 12 + 24 + (1 + 8 + 64) + (1 + 8 + 33) + (1 + 8 + 2)
    );

    // A subdivision with one child that has a parent hash and a value.
    let parent = unit_triangle("owner");
    let child = parent.subdivide()[0].clone();
    let subdivision = SubdivisionTx::new([0u8; 32], vec![child], "owner".to_string(), c(0.0), 1);
    let child_size = 48 + 33 + (8 + 5) + 9;
    assert_eq!(
        Transaction::Subdivision(subdivision).encoded_size(),
        4 + 32 + 8 + child_size + (8 + 5) + 16 + 1 + 1
    );
}

#[test]
fn stateful_transfer_checks_come_in_their_order() {
    let keypair = KeyPair::generate().unwrap();
    let sender = keypair.address();
    let mut state = TriangleState::new();
    let input = unit_triangle(&sender).with_effective_value(Coord::from_num(10));
    let input_hash = input.hash();

    let tx = signed_transfer(&keypair, input_hash, "recipient", Coord::from_num(6), Coord::from_num(3), 1);
    match tx.validate_with_state(&state) {
        Err(ChainError::TriangleNotFound(msg)) => assert_eq!(msg, "Transfer input not found in UTXO set"),
        other => panic!("expected a missing input, got {:?}", other),
    }
    state.insert_utxo(input_hash, input.clone());
    assert!(tx.validate_with_state(&state).is_ok());
    assert!(tx.check_against_state(&state).is_ok());
    assert!(Transaction::Transfer(tx.clone()).validate(&state).is_ok());

    // 10 - 6 - 4 leaves nothing: at least the tolerance must be left.
    let exact = signed_transfer(&keypair, input_hash, "recipient", Coord::from_num(6), Coord::from_num(4), 1);
    assert_eq!(invalid_reason(exact.validate_with_state(&state)), "Insufficient triangle value");
    let one_bit_left = signed_transfer(
        &keypair,
        input_hash,
        "recipient",
        Coord::from_num(6),
        Coord::from_bits((4i64 << 32) - 1),
        1,
    );
    assert!(one_bit_left.validate_with_state(&state).is_ok());

    let stranger = KeyPair::generate().unwrap();
    let theft = signed_transfer(&stranger, input_hash, "recipient", Coord::from_num(1), Coord::from_num(1), 1);
    assert_eq!(invalid_reason(theft.validate_with_state(&state)), "Sender does not own input triangle");

    // An unsigned transfer fails before the state is looked at.
    let unsigned = TransferTx::new([9u8; 32], "recipient".to_string(), sender, Coord::from_num(1), Coord::from_num(1), 1);
    assert_eq!(invalid_reason(unsigned.validate_with_state(&state)), "Transfer not signed");
    match unsigned.check_against_state(&state) {
        Err(ChainError::TriangleNotFound(_)) => {}
        other => panic!("expected a missing input, got {:?}", other),
    }
}

#[test]
fn stateful_subdivision_checks_come_in_their_order() {
    let mut state = TriangleState::new();
    let parent = unit_triangle("owner").with_effective_value(Coord::from_num(90));
    let parent_hash = parent.hash();
    let children = parent.subdivide().to_vec();
    let make = |children: Vec<Triangle>, owner: &str, fee: Coord| {
        SubdivisionTx::new(parent_hash, children, owner.to_string(), fee, 1)
    };

    match make(children.clone(), "owner", c(0.0)).check_against_state(&state) {
        Err(ChainError::TriangleNotFound(msg)) => assert_eq!(msg, "Parent triangle not found in UTXO set"),
        other => panic!("expected a missing parent, got {:?}", other),
    }
    state.insert_utxo(parent_hash, parent.clone());
    assert!(make(children.clone(), "owner", c(0.0)).check_against_state(&state).is_ok());
    assert_eq!(
        invalid_reason(make(children.clone(), "other", c(0.0)).check_against_state(&state)),
        "Owner does not own parent triangle"
    );
    assert_eq!(
        invalid_reason(make(children[..2].to_vec(), "owner", c(0.0)).check_against_state(&state)),
        "Subdivision must produce exactly 3 children"
    );
    let mut swapped = children.clone();
    swapped.swap(0, 1);
    assert_eq!(
        invalid_reason(make(swapped, "owner", c(0.0)).check_against_state(&state)),
        "Child geometry does not match expected subdivision"
    );
    assert_eq!(
        invalid_reason(make(children.clone(), "owner", c(1.0)).check_against_state(&state)),
        "Value mismatch in subdivision"
    );
    // The children's values may miss the parent's by the tolerance.
    let mut off_by_one = children.clone();
    off_by_one[2] = off_by_one[2].clone().with_effective_value(Coord::from_bits((30i64 << 32) + 1));
    assert!(make(off_by_one.clone(), "owner", c(0.0)).check_against_state(&state).is_ok());
    off_by_one[2] = off_by_one[2].clone().with_effective_value(Coord::from_bits((30i64 << 32) + 2));
    assert_eq!(
        invalid_reason(make(off_by_one, "owner", c(0.0)).check_against_state(&state)),
        "Value mismatch in subdivision"
    );
    // With a fee the children share what is left.
    let with_fee: Vec<Triangle> = children
        .iter()
        .map(|t| t.clone().with_effective_value(Coord::from_num(27)))
        .collect();
    assert!(make(with_fee, "owner", Coord::from_num(9)).check_against_state(&state).is_ok());
}

#[test]
fn stateless_validation_of_each_kind() {
    let keypair = KeyPair::generate().unwrap();
    let transfer = signed_transfer(&keypair, [1u8; 32], "r", c(1.0), c(0.0), 1);
    assert!(Transaction::Transfer(transfer).validate_stateless().is_ok());
    let coinbase = Transaction::Coinbase(CoinbaseTx { reward_area: c(0.0), beneficiary_address: "m".to_string() });
    assert!(coinbase.validate_stateless().is_err());
    let parent = unit_triangle("owner");
    let unsigned = Transaction::Subdivision(SubdivisionTx::new(parent.hash(), parent.subdivide().to_vec(), "owner".to_string(), c(0.0), 1));
    assert_eq!(invalid_reason(unsigned.validate_stateless()), "Transaction not signed");
}
