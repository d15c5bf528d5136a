//! Block headers, blocks, the flat Merkle root and the proof-of-work
//! target.

use crate::bytes::append_bytes;
use crate::bytes::append_u32_le;
use crate::bytes::append_u64_le;
use crate::bytes::hash_le;
use crate::bytes::be_value;
use crate::bytes::lemma_lex_le_is_numeric;
use crate::bytes::lex_le;
use vstd::arithmetic::power2::lemma_pow2_adds;
use vstd::arithmetic::power2::lemma_pow2_pos;
use vstd::arithmetic::power2::lemma2_to64;
use vstd::arithmetic::power2::pow2;
use crate::clock::now_millis;
use crate::digest::sha256;
use crate::digest::sha256_digest;
use crate::digest::Sha256Hash;
use crate::transaction::Transaction;
use crate::transaction::TransactionView;
use vstd::bytes::spec_u32_to_le_bytes;
use vstd::bytes::spec_u64_to_le_bytes;
use vstd::prelude::*;

verus! {

/// A single block header.
#[derive(Debug, Clone, Copy)]
pub struct BlockHeader {
    pub height: u64,
    /// Milliseconds since the Unix epoch.
    pub timestamp: u64,
    pub previous_hash: Sha256Hash,
    pub merkle_root: Sha256Hash,
    pub difficulty: u32,
    pub nonce: u64,
}

/// A block header as plain values.
pub struct HeaderView {
    pub height: u64,
    pub timestamp: u64,
    pub previous_hash: Seq<u8>,
    pub merkle_root: Seq<u8>,
    pub difficulty: u32,
    pub nonce: u64,
}

impl View for BlockHeader {
    type V = HeaderView;

    open spec fn view(&self) -> HeaderView {
        HeaderView {
            height: self.height,
            timestamp: self.timestamp,
            previous_hash: self.previous_hash@,
            merkle_root: self.merkle_root@,
            difficulty: self.difficulty,
            nonce: self.nonce,
        }
    }
}

/// Byte `i` of the target of a difficulty: the top `difficulty` bits of
/// the 32 bytes are zero and all bits after them are one.
pub open spec fn target_byte(difficulty: u32, i: int) -> u8 {
    if 8 * (i + 1) <= difficulty {
        0u8
    } else if difficulty <= 8 * i {
        0xffu8
    } else {
        0xffu8 >> ((difficulty - 8 * i) as u8)
    }
}

/// The 32-byte big-endian target of a difficulty.
pub open spec fn spec_target(difficulty: u32) -> Seq<u8> {
    Seq::new(32, |i: int| target_byte(difficulty, i))
}

/// Whether a hash, read as a big-endian number, is at most the target of
/// the difficulty.
pub open spec fn meets_target(hash: Seq<u8>, difficulty: u32) -> bool {
    lex_le(hash, spec_target(difficulty))
}

/// The number that the target of a difficulty spells: all ones in the
/// bits after the top `difficulty` bits of 256, that is `2^(256 - d) - 1`.
pub open spec fn target_value(difficulty: u32) -> nat {
    if difficulty >= 256 {
        0
    } else {
        (pow2((256 - difficulty) as nat) - 1) as nat
    }
}

/// The number that the first `k` bytes of a target spell.
proof fn lemma_target_prefix_value(difficulty: u32, k: nat)
    requires
        k <= 32,
    ensures
        be_value(spec_target(difficulty).take(k as int)) == (if difficulty >= 8 * k {
            0nat
        } else {
            (pow2((8 * k - difficulty) as nat) - 1) as nat
        }),
    decreases k,
{
    let target = spec_target(difficulty);
    lemma2_to64();
    if k > 0 {
        let j = (k - 1) as nat;
        lemma_target_prefix_value(difficulty, j);
        let prefix = target.take(k as int);
        assert(prefix.drop_last() =~= target.take(j as int));
        assert(prefix.last() == target_byte(difficulty, j as int));
        let front = be_value(target.take(j as int));
        let byte = target_byte(difficulty, j as int);
        assert(be_value(prefix) == front * 256 + byte);
        if 8 * k <= difficulty {
            assert(byte == 0);
            assert(front == 0);
        } else if difficulty <= 8 * j {
            assert(byte == 0xff);
            let e = (8 * j - difficulty) as nat;
            lemma_pow2_adds(e, 8);
            lemma_pow2_pos(e);
            lemma_pow2_pos(e + 8);
            assert(pow2(8) == 256);
            assert(front == pow2(e) - 1);
            assert(pow2(e + 8) == pow2(e) * 256);
            assert((8 * k - difficulty) as nat == e + 8);
            assert((pow2(e) - 1) * 256 + 255 == pow2(e) * 256 - 1) by (nonlinear_arith);
        } else {
            assert(front == 0);
            let shift = (difficulty - 8 * j) as u8;
            assert(0 < shift < 8);
            assert(byte == 0xffu8 >> shift);
            assert((0xffu8 >> shift) == (if shift == 1 {
                127u8
            } else if shift == 2 {
                63u8
            } else if shift == 3 {
                31u8
            } else if shift == 4 {
                15u8
            } else if shift == 5 {
                7u8
            } else if shift == 6 {
                3u8
            } else {
                1u8
            })) by (bit_vector)
                requires
                    0 < shift < 8,
            ;
            assert((8 * k - difficulty) as nat == (8 - shift) as nat);
        }
    } else {
        assert(target.take(0).len() == 0);
    }
}

/// Proof of work in numbers: a hash of 32 bytes meets the target of a
/// difficulty exactly where the number that it spells, read big-endian,
/// is at most `2^(256 - d) - 1`.
pub proof fn lemma_meets_target_numeric(hash: Seq<u8>, difficulty: u32)
    requires
        hash.len() == 32,
    ensures
        meets_target(hash, difficulty) <==> be_value(hash) <= target_value(difficulty),
{
    let target = spec_target(difficulty);
    lemma_lex_le_is_numeric(hash, target);
    lemma_target_prefix_value(difficulty, 32);
    assert(target.take(32) =~= target);
}

impl HeaderView {
    /// The bytes the header is hashed from: height, timestamp, previous
    /// hash, Merkle root, difficulty and nonce, the integers little-endian.
    pub open spec fn preimage(self) -> Seq<u8> {
        spec_u64_to_le_bytes(self.height) + spec_u64_to_le_bytes(self.timestamp)
            + self.previous_hash + self.merkle_root + spec_u32_to_le_bytes(self.difficulty)
            + spec_u64_to_le_bytes(self.nonce)
    }

    /// The hash of the header.
    pub open spec fn hash(self) -> Seq<u8> {
        sha256(self.preimage())
    }

    /// Whether the header's hash meets the target of its own difficulty.
    pub open spec fn pow_valid(self) -> bool {
        meets_target(self.hash(), self.difficulty)
    }

    /// The header with another nonce.
    pub open spec fn with_nonce(self, nonce: u64) -> HeaderView {
        HeaderView { nonce, ..self }
    }
}

impl BlockHeader {
    /// The SHA-256 hash of the header.
    pub fn hash(&self) -> (h: Sha256Hash)
        ensures
            h@ == self@.hash(),
    {
        let mut buf: Vec<u8> = Vec::new();
        append_u64_le(&mut buf, self.height);
        append_u64_le(&mut buf, self.timestamp);
        append_bytes(&mut buf, self.previous_hash.as_slice());
        append_bytes(&mut buf, self.merkle_root.as_slice());
        append_u32_le(&mut buf, self.difficulty);
        append_u64_le(&mut buf, self.nonce);
        assert(buf@ =~= self@.preimage());
        sha256_digest(buf.as_slice())
    }
}

/// The hashes of some transactions, one after the other.
pub open spec fn transaction_hashes(transactions: Seq<TransactionView>) -> Seq<u8>
    decreases transactions.len(),
{
    if transactions.len() == 0 {
        Seq::empty()
    } else {
        transaction_hashes(transactions.drop_last()) + transactions.last().hash()
    }
}

/// The Merkle root of some transactions: the hash of all their hashes in
/// block order. It is a flat hash, not a tree.
pub open spec fn spec_merkle_root(transactions: Seq<TransactionView>) -> Seq<u8> {
    sha256(transaction_hashes(transactions))
}

/// The transactions of a vector, as plain values.
pub open spec fn transactions_view(v: Seq<Transaction>) -> Seq<TransactionView> {
    v.map_values(|tx: Transaction| tx@)
}

/// The headers of a vector, as plain values.
pub open spec fn blocks_header_view(v: Seq<BlockHeader>) -> Seq<HeaderView> {
    v.map_values(|h: BlockHeader| h@)
}

/// A complete block.
#[derive(Debug)]
pub struct Block {
    pub header: BlockHeader,
    pub transactions: Vec<Transaction>,
}

/// A block as plain values.
pub struct BlockView {
    pub header: HeaderView,
    pub transactions: Seq<TransactionView>,
}

impl View for Block {
    type V = BlockView;

    open spec fn view(&self) -> BlockView {
        BlockView { header: self.header@, transactions: transactions_view(self.transactions@) }
    }
}

/// A copy of a vector of transactions.
pub fn clone_transactions(v: &Vec<Transaction>) -> (c: Vec<Transaction>)
    ensures
        transactions_view(c@) == transactions_view(v@),
{
    let mut out: Vec<Transaction> = Vec::new();
    let mut i: usize = 0;
    while i < v.len()
        invariant
            i <= v.len(),
            out@.len() == i,
            forall|j: int| 0 <= j < i ==> out@[j]@ == v@[j]@,
        decreases v.len() - i,
    {
        out.push(v[i].clone());
        i += 1;
    }
    assert(transactions_view(out@) =~= transactions_view(v@));
    out
}

impl Clone for Block {
    fn clone(&self) -> (b: Block)
        ensures
            b@ == self@,
    {
        Block { header: self.header, transactions: clone_transactions(&self.transactions) }
    }
}

impl Block {
    /// A block candidate before mining: the Merkle root is that of the
    /// transactions, the nonce zero, the timestamp the one given.
    pub fn with_timestamp(
        height: u64,
        previous_hash: Sha256Hash,
        difficulty: u32,
        transactions: Vec<Transaction>,
        timestamp: u64,
    ) -> (b: Block)
        ensures
            b@ == (BlockView {
                header: HeaderView {
                    height,
                    timestamp,
                    previous_hash: previous_hash@,
                    merkle_root: spec_merkle_root(transactions_view(transactions@)),
                    difficulty,
                    nonce: 0,
                },
                transactions: transactions_view(transactions@),
            }),
    {
        let merkle_root = Block::calculate_merkle_root(transactions.as_slice());
        Block {
            header: BlockHeader {
                height,
                timestamp,
                previous_hash,
                merkle_root,
                difficulty,
                nonce: 0,
            },
            transactions,
        }
    }

    /// A block candidate before mining, stamped with the current time.
    pub fn new(
        height: u64,
        previous_hash: Sha256Hash,
        difficulty: u32,
        transactions: Vec<Transaction>,
    ) -> (b: Block)
        ensures
            b@ == (BlockView {
                header: HeaderView {
                    height,
                    timestamp: b.header.timestamp,
                    previous_hash: previous_hash@,
                    merkle_root: spec_merkle_root(transactions_view(transactions@)),
                    difficulty,
                    nonce: 0,
                },
                transactions: transactions_view(transactions@),
            }),
    {
        let timestamp = now_millis();
        Block::with_timestamp(height, previous_hash, difficulty, transactions, timestamp)
    }

    /// The hash of the block: the hash of its header.
    pub fn hash(&self) -> (h: Sha256Hash)
        ensures
            h@ == self@.header.hash(),
    {
        self.header.hash()
    }

    /// The Merkle root: the hash of all transaction hashes in block order.
    pub fn calculate_merkle_root(transactions: &[Transaction]) -> (root: Sha256Hash)
        ensures
            root@ == spec_merkle_root(transactions_view(transactions@)),
    {
        let ghost all = transactions_view(transactions@);
        let mut buf: Vec<u8> = Vec::new();
        let mut i: usize = 0;
        assert(all.take(0) =~= Seq::<TransactionView>::empty());
        while i < transactions.len()
            invariant
                i <= transactions.len(),
                all == transactions_view(transactions@),
                buf@ == transaction_hashes(all.take(i as int)),
            decreases transactions.len() - i,
        {
            let h = transactions[i].hash();
            append_bytes(&mut buf, h.as_slice());
            proof {
                assert(all.take(i + 1).drop_last() =~= all.take(i as int));
                assert(all.take(i + 1).last() == transactions@[i as int]@);
            }
            i += 1;
        }
        assert(all.take(i as int) =~= all);
        sha256_digest(buf.as_slice())
    }

    /// The hash as the 256-bit big-endian number it is compared as.
    pub fn hash_as_u256(hash: &Sha256Hash) -> (n: [u8; 32])
        ensures
            n == *hash,
    {
        *hash
    }

    /// The target of a difficulty: 32 bytes whose top `difficulty` bits are
    /// zero and whose other bits are one.
    pub fn hash_to_target(difficulty: &u32) -> (target: [u8; 32])
        ensures
            target@ == spec_target(*difficulty),
    {
        let d: u32 = *difficulty;
        let mut target = [0xffu8; 32];
        let mut i: usize = 0;
        while i < 32
            invariant
                i <= 32,
                forall|j: int| 0 <= j < i ==> target@[j] == target_byte(d, j),
            decreases 32 - i,
        {
            let low: u32 = 8 * (i as u32);
            if low + 8 <= d {
                target[i] = 0;
            } else if d <= low {
                target[i] = 0xff;
            } else {
                let shift: u8 = (d - low) as u8;
                target[i] = 0xffu8 >> shift;
            }
            i += 1;
        }
        assert(target@ =~= spec_target(d));
        target
    }

    /// Whether the header's hash meets the target of the block's own
    /// difficulty.
    pub fn verify_pow(&self) -> (ok: bool)
        ensures
            ok == self@.header.pow_valid(),
    {
        let target = Block::hash_to_target(&self.header.difficulty);
        let hash = Block::hash_as_u256(&self.hash());
        hash_le(&hash, &target)
    }
}

} // verus!
