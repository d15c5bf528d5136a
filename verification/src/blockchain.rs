//! The blockchain engine: genesis, the pipeline that applies a block
//! atomically, the block reward schedule and difficulty retargeting.

use crate::block::spec_merkle_root;
use crate::block::transactions_view;
use crate::block::BlockView;
use crate::block::HeaderView;
use crate::bytes::hash_eq;
use crate::coord::Coord;
use crate::error::reports;
use crate::error::ErrorView;
use crate::mempool::MempoolView;
use crate::miner::mine_block;
use crate::miner::next_timestamp;
use crate::miner::no_solution_in;
use crate::state::coinbase_triangle;
use crate::state::owned_total;
use crate::state::StateView;
use crate::transaction::Address;
use crate::transaction::CoinbaseTx;
use crate::transaction::CoinbaseTxView;
use crate::transaction::Transaction;
use crate::transaction::TransactionView;
use vstd::prelude::*;

pub use crate::block::Block;
pub use crate::block::BlockHeader;
pub use crate::digest::Sha256Hash;
pub use crate::error::ChainError;
pub use crate::mempool::Mempool;
pub use crate::state::TriangleState;

verus! {

/// The number of blocks after which the difficulty is adjusted.
pub const DIFFICULTY_ADJUSTMENT_INTERVAL: u64 = 10;

/// The desired time between blocks in seconds.
pub const TARGET_BLOCK_TIME: u64 = 30;

/// The time that `DIFFICULTY_ADJUSTMENT_INTERVAL` blocks should take, in
/// milliseconds.
pub const EXPECTED_SPAN_MS: u64 = 300_000;

/// The number of blocks after which the block reward is halved.
pub const HALVING_INTERVAL: u64 = 210_000;

/// Stored integer of the first block reward: `50`.
pub const INITIAL_REWARD_BITS: i64 = 0x32_0000_0000;

/// Stored integer of the supply that the genesis block creates:
/// `1 000 000`.
pub const GENESIS_SUPPLY_BITS: i64 = 0xf_4240_0000_0000;

/// The timestamp of the genesis block: the first of January 2023, in
/// milliseconds since the Unix epoch.
pub const GENESIS_TIMESTAMP: u64 = 1_672_531_200_000;

// ----------------------------------------------------------------------------
// Reward schedule and retargeting
// ----------------------------------------------------------------------------
/// A stored integer halved `times` times, each time rounded down.
pub open spec fn halved(bits: int, times: nat) -> int
    decreases times,
{
    if times == 0 {
        bits
    } else {
        halved(bits, (times - 1) as nat) / 2
    }
}

/// The block reward at a height: the initial reward, halved once for every
/// `HALVING_INTERVAL` blocks; nothing after 64 halvings.
pub open spec fn spec_block_reward(height: u64) -> int {
    let halvings = height / HALVING_INTERVAL;
    if halvings >= 64 {
        0
    } else {
        halved(INITIAL_REWARD_BITS as int, halvings as nat)
    }
}

/// The time span that retargeting goes by: the actual one, but no less
/// than a quarter and no more than four times the expected one.
pub open spec fn clamped_span(actual: u64) -> int {
    if actual < EXPECTED_SPAN_MS / 4 {
        EXPECTED_SPAN_MS as int / 4
    } else if actual > 4 * EXPECTED_SPAN_MS {
        4 * EXPECTED_SPAN_MS
    } else {
        actual as int
    }
}

/// The difficulty times the clamped ratio of actual to expected time,
/// rounded to the nearest whole number, a half upwards.
pub open spec fn scaled_difficulty(difficulty: u32, actual: u64) -> int {
    (difficulty * clamped_span(actual) + EXPECTED_SPAN_MS / 2) / (EXPECTED_SPAN_MS as int)
}

/// The difficulty after retargeting: the scaled difficulty, but at least
/// one and no more than a difficulty can hold.
pub open spec fn spec_retarget(difficulty: u32, actual: u64) -> u32 {
    let scaled = scaled_difficulty(difficulty, actual);
    if scaled < 1 {
        1
    } else if scaled > u32::MAX {
        u32::MAX
    } else {
        scaled as u32
    }
}

/// The new difficulty for a span of `actual_ms` milliseconds over the last
/// `DIFFICULTY_ADJUSTMENT_INTERVAL` blocks. The ratio of actual to
/// expected time is clamped to `[1/4, 4]`; the product is rounded to the
/// nearest whole number, a half upwards, and is at least one. A difficulty
/// of at least one so stays within a quarter and four times of itself.
pub fn retarget(difficulty: u32, actual_ms: u64) -> (new_difficulty: u32)
    ensures
        new_difficulty == spec_retarget(difficulty, actual_ms),
        new_difficulty >= 1,
        difficulty >= 1 ==> difficulty / 4 <= new_difficulty <= difficulty * 4,
{
    let span: u64 = if actual_ms < EXPECTED_SPAN_MS / 4 {
        EXPECTED_SPAN_MS / 4
    } else if actual_ms > 4 * EXPECTED_SPAN_MS {
        4 * EXPECTED_SPAN_MS
    } else {
        actual_ms
    };
    assert(difficulty * span <= 0xffff_ffff * 1_200_000) by (nonlinear_arith)
        requires
            0 <= difficulty <= 0xffff_ffff,
            0 <= span <= 1_200_000,
    ;
    let product: u64 = (difficulty as u64) * span;
    let scaled: u64 = (product + EXPECTED_SPAN_MS / 2) / EXPECTED_SPAN_MS;
    proof {
        let d = difficulty as int;
        let s = span as int;
        assert(d * 75_000 <= d * s <= d * 1_200_000) by (nonlinear_arith)
            requires
                d >= 0,
                75_000 <= s <= 1_200_000,
        ;
        if d >= 1 {
            assert((d * s + 150_000) / 300_000 <= d * 4) by (nonlinear_arith)
                requires
                    d * s <= d * 1_200_000,
                    d >= 1,
            ;
            assert((d * s + 150_000) / 300_000 >= d / 4) by (nonlinear_arith)
                requires
                    d * 75_000 <= d * s,
                    d >= 1,
            ;
        }
    }
    if scaled < 1 {
        1
    } else if scaled > u32::MAX as u64 {
        u32::MAX
    } else {
        scaled as u32
    }
}

// ----------------------------------------------------------------------------
// Blocks in a chain
// ----------------------------------------------------------------------------
/// Whether no two of the transactions consume the same UTXO.
pub open spec fn no_double_spend(transactions: Seq<TransactionView>) -> bool {
    forall|i: int, j: int|
        0 <= i < j < transactions.len() && (#[trigger] transactions[i]).input() is Some ==> (
        #[trigger] transactions[j]).input() != transactions[i].input()
}

/// What is true of every block of a chain by itself: its header hash meets
/// the target of its difficulty; no UTXO is spent twice in it; it has
/// transactions and the first of them is a coinbase; its Merkle root is
/// that of its transactions.
pub open spec fn block_sound(block: BlockView) -> bool {
    &&& block.header.pow_valid()
    &&& no_double_spend(block.transactions)
    &&& block.transactions.len() > 0
    &&& block.transactions[0] is Coinbase
    &&& block.header.merkle_root == spec_merkle_root(block.transactions)
}

/// Whether the blocks form a chain: block `i` has height `i` and names the
/// hash of the header of block `i - 1`, and every block is sound.
#[verifier::opaque]
pub open spec fn chain_valid(blocks: Seq<BlockView>) -> bool {
    &&& forall|i: int| 0 <= i < blocks.len() ==> (#[trigger] blocks[i]).header.height == i
    &&& forall|i: int|
        0 < i < blocks.len() ==> (#[trigger] blocks[i]).header.previous_hash == blocks[i
            - 1].header.hash()
    &&& forall|i: int| 0 <= i < blocks.len() ==> block_sound(#[trigger] blocks[i])
}

/// The scratch state after one transaction of a block has its turn, or
/// the error with which it fails. The transaction must keep the size
/// limit; the first of a block must be a coinbase; every other must
/// validate against the scratch state; then it is applied.
#[verifier::opaque]
pub open spec fn staged_step(scratch: StateView, tx: TransactionView, first: bool) -> Result<
    StateView,
    ErrorView,
> {
    match tx.size_fault() {
        Some(error) => Err(error),
        None => if first {
            if tx is Coinbase {
                scratch.apply(tx)
            } else {
                Err(
                    ErrorView::InvalidBlock(
                        "First transaction in a block must be a Coinbase transaction"@,
                    ),
                )
            }
        } else {
            match tx.stateful_fault(scratch) {
                Some(error) => Err(error),
                None => scratch.apply(tx),
            }
        },
    }
}

/// The state after the transactions of a block have had their turn, in
/// their order, on a scratch copy of the state; or the error of the first
/// that fails.
pub open spec fn staged(state: StateView, transactions: Seq<TransactionView>) -> Result<
    StateView,
    ErrorView,
>
    decreases transactions.len(),
{
    if transactions.len() == 0 {
        Ok(state)
    } else {
        match staged(state, transactions.drop_last()) {
            Err(error) => Err(error),
            Ok(scratch) => staged_step(scratch, transactions.last(), transactions.len() == 1),
        }
    }
}

/// Where some of the transactions fail on the scratch state, all of them
/// fail with the same error.
pub proof fn lemma_staged_prefix(state: StateView, transactions: Seq<TransactionView>, n: int)
    requires
        0 <= n <= transactions.len(),
        staged(state, transactions.take(n)) is Err,
    ensures
        staged(state, transactions) == staged(state, transactions.take(n)),
    decreases transactions.len() - n,
{
    if n < transactions.len() {
        assert(transactions.take(n + 1).drop_last() =~= transactions.take(n));
        lemma_staged_prefix(state, transactions, n + 1);
    } else {
        assert(transactions.take(n) =~= transactions);
    }
}

/// Transactions that pass on the scratch state start with a coinbase.
pub proof fn lemma_staged_starts_with_coinbase(
    state: StateView,
    transactions: Seq<TransactionView>,
)
    requires
        staged(state, transactions) is Ok,
        transactions.len() > 0,
    ensures
        transactions[0] is Coinbase,
    decreases transactions.len(),
{
    reveal(staged_step);
    if transactions.len() > 1 {
        lemma_staged_starts_with_coinbase(state, transactions.drop_last());
    }
}

/// The hashes of some transactions, one for each.
pub open spec fn hashes_of(transactions: Seq<TransactionView>) -> Seq<Seq<u8>> {
    transactions.map_values(|tx: TransactionView| tx.hash())
}

/// The time between two timestamps in milliseconds; nothing where the
/// later one is not later.
pub open spec fn span_between(earlier: u64, later: u64) -> u64 {
    if later >= earlier {
        (later - earlier) as u64
    } else {
        0
    }
}

/// The difficulty after a block was appended: retargeted where the height
/// of the last block is a positive multiple of the adjustment interval, by
/// the time since the block one interval before it.
pub open spec fn retargeted(blocks: Seq<BlockView>, difficulty: u32) -> u32 {
    if blocks.len() == 0 {
        difficulty
    } else {
        let height = blocks.last().header.height;
        if height > 0 && height % DIFFICULTY_ADJUSTMENT_INTERVAL == 0 && height
            - DIFFICULTY_ADJUSTMENT_INTERVAL < blocks.len() {
            spec_retarget(
                difficulty,
                span_between(
                    blocks[height - DIFFICULTY_ADJUSTMENT_INTERVAL].header.timestamp,
                    blocks.last().header.timestamp,
                ),
            )
        } else {
            difficulty
        }
    }
}

/// The chain as plain values.
pub struct ChainView {
    pub blocks: Seq<BlockView>,
    pub difficulty: u32,
    pub mempool: MempoolView,
    pub state: StateView,
}

impl ChainView {
    /// Why the block does not link to the chain, or `None`. A block of
    /// height zero fits only an empty chain; any other block must have the
    /// height after the last block's and name the hash of its header.
    pub open spec fn linkage_fault(self, block: BlockView) -> Option<ErrorView> {
        if block.header.height != 0 {
            if self.blocks.len() == 0 {
                Some(
                    ErrorView::InvalidBlock(
                        "Cannot apply non-genesis block; the chain is empty."@,
                    ),
                )
            } else if block.header.height != self.blocks.last().header.height + 1 {
                Some(ErrorView::InvalidBlock("Invalid block height."@))
            } else if block.header.previous_hash != self.blocks.last().header.hash() {
                Some(ErrorView::InvalidBlock("Invalid previous block hash."@))
            } else {
                None
            }
        } else if self.blocks.len() > 0 {
            Some(ErrorView::InvalidBlock("Genesis block can only be applied to an empty chain."@))
        } else {
            None
        }
    }

    /// Why the chain refuses the block, or `None`. The checks come in this
    /// order: linkage, proof of work, no double spend within the block,
    /// a first transaction to be the coinbase, the transactions on a
    /// scratch state, the Merkle root.
    pub open spec fn block_fault(self, block: BlockView) -> Option<ErrorView> {
        match self.linkage_fault(block) {
            Some(error) => Some(error),
            None => if !block.header.pow_valid() {
                Some(
                    ErrorView::InvalidBlock(
                        "Invalid Proof-of-Work: Block hash does not meet difficulty target."@,
                    ),
                )
            } else if !no_double_spend(block.transactions) {
                Some(ErrorView::InvalidTransaction("Double spend detected in block."@))
            } else if block.transactions.len() == 0 {
                Some(
                    ErrorView::InvalidBlock(
                        "First transaction in a block must be a Coinbase transaction"@,
                    ),
                )
            } else {
                match staged(self.state, block.transactions) {
                    Err(error) => Some(error),
                    Ok(_) => if block.header.merkle_root != spec_merkle_root(block.transactions) {
                        Some(ErrorView::InvalidBlock("Merkle root mismatch."@))
                    } else {
                        None
                    },
                }
            },
        }
    }

    /// The chain after the block is committed: the block is appended, the
    /// scratch state becomes the state, the block's transactions leave the
    /// mempool, and the difficulty is retargeted.
    pub open spec fn committed(self, block: BlockView) -> ChainView {
        ChainView {
            blocks: self.blocks.push(block),
            difficulty: retargeted(self.blocks.push(block), self.difficulty),
            mempool: self.mempool.without_all(hashes_of(block.transactions)),
            state: staged(self.state, block.transactions)->Ok_0,
        }
    }

    /// The chain after the block, or the error with which it is refused.
    pub open spec fn apply_block(self, block: BlockView) -> Result<ChainView, ErrorView> {
        match self.block_fault(block) {
            Some(error) => Err(error),
            None => Ok(self.committed(block)),
        }
    }
}

/// The state after every one of the transactions is applied in turn, or
/// the error of the first that is refused.
pub open spec fn applied_all(state: StateView, transactions: Seq<TransactionView>) -> Result<
    StateView,
    ErrorView,
>
    decreases transactions.len(),
{
    if transactions.len() == 0 {
        Ok(state)
    } else {
        match applied_all(state, transactions.drop_last()) {
            Err(error) => Err(error),
            Ok(so_far) => so_far.apply(transactions.last()),
        }
    }
}

/// Atomicity: where the transactions of a block pass on the scratch state,
/// that state is the one in which every one of them was applied, in their
/// order.
pub proof fn lemma_staged_applies_all(state: StateView, transactions: Seq<TransactionView>)
    requires
        staged(state, transactions) is Ok,
    ensures
        applied_all(state, transactions) == staged(state, transactions),
    decreases transactions.len(),
{
    reveal(staged_step);
    if transactions.len() > 0 {
        lemma_staged_applies_all(state, transactions.drop_last());
    }
}

/// Chain linkage: in a valid chain every block has its place as its
/// height, and every block but the first names the hash of the header
/// before it.
pub proof fn lemma_chain_linkage(blocks: Seq<BlockView>, i: int)
    requires
        chain_valid(blocks),
        0 <= i < blocks.len(),
    ensures
        blocks[i].header.height == i,
        i > 0 ==> blocks[i].header.previous_hash == blocks[i - 1].header.hash(),
{
    reveal(chain_valid);
}

/// Proof of work: in a valid chain the header hash of every block is at
/// most the target of the block's difficulty.
pub proof fn lemma_chain_pow(blocks: Seq<BlockView>, i: int)
    requires
        chain_valid(blocks),
        0 <= i < blocks.len(),
    ensures
        blocks[i].header.pow_valid(),
{
    reveal(chain_valid);
}

/// No double spend: in a valid chain no block has two transactions that
/// consume the same UTXO.
pub proof fn lemma_chain_no_double_spend(blocks: Seq<BlockView>, i: int, a: int, b: int)
    requires
        chain_valid(blocks),
        0 <= i < blocks.len(),
        0 <= a < b < blocks[i].transactions.len(),
        blocks[i].transactions[a].input() is Some,
    ensures
        blocks[i].transactions[a].input() != blocks[i].transactions[b].input(),
{
    reveal(chain_valid);
}

/// Balance consistency is kept by every block whose transactions pass on
/// the scratch state: in the state that the block leaves, too, the balance
/// of every address is the sum of the effective values of the UTXOs it
/// owns.
pub proof fn lemma_staged_keeps_balance(state: StateView, transactions: Seq<TransactionView>)
    requires
        state.wf(),
        state.balanced(),
        staged(state, transactions) is Ok,
    ensures
        staged(state, transactions) matches Ok(after) && after.wf() && after.balanced(),
    decreases transactions.len(),
{
    reveal(staged_step);
    if transactions.len() > 0 {
        lemma_staged_keeps_balance(state, transactions.drop_last());
        let scratch = staged(state, transactions.drop_last())->Ok_0;
        crate::state::lemma_apply_keeps_balance(scratch, transactions.last());
    }
}

/// The coinbase of the genesis block: the whole initial supply for one
/// address.
pub open spec fn genesis_coinbase(address: Seq<char>) -> CoinbaseTxView {
    CoinbaseTxView { reward_area: Coord { bits: GENESIS_SUPPLY_BITS }, beneficiary_address: address }
}

/// The header of the genesis block for an address and a difficulty, with
/// the nonce given.
pub open spec fn genesis_header(address: Seq<char>, difficulty: u32, nonce: u64) -> HeaderView {
    HeaderView {
        height: 0,
        timestamp: GENESIS_TIMESTAMP,
        previous_hash: Seq::new(32, |i: int| 0u8),
        merkle_root: spec_merkle_root(seq![TransactionView::Coinbase(genesis_coinbase(address))]),
        difficulty,
        nonce,
    }
}

/// The state after the genesis block alone: one UTXO that carries the
/// initial supply, and that supply as the balance of its owner.
pub open spec fn genesis_state(address: Seq<char>) -> StateView {
    StateView {
        utxos: seq![
            (
                TransactionView::Coinbase(genesis_coinbase(address)).hash(),
                coinbase_triangle(genesis_coinbase(address)),
            ),
        ],
        balances: Map::<Seq<char>, Coord>::empty().insert(
            address,
            Coord { bits: GENESIS_SUPPLY_BITS },
        ),
    }
}

/// What an empty chain makes of the genesis block.
proof fn lemma_genesis_applies(chain: ChainView, block: BlockView, address: Seq<char>)
    requires
        chain.blocks.len() == 0,
        chain.mempool.entries.len() == 0,
        chain.state.utxos.len() == 0,
        chain.state.balances == Map::<Seq<char>, Coord>::empty(),
        block.transactions == seq![TransactionView::Coinbase(genesis_coinbase(address))],
        block.header == genesis_header(address, block.header.difficulty, block.header.nonce),
        block.header.pow_valid(),
    ensures
        match chain.apply_block(block) {
            Ok(next) => TransactionView::Coinbase(genesis_coinbase(address)).size_fault() is None
                && next == (ChainView {
                blocks: seq![block],
                difficulty: chain.difficulty,
                mempool: chain.mempool,
                state: genesis_state(address),
            }),
            Err(error) => TransactionView::Coinbase(genesis_coinbase(address)).size_fault()
                == Some(error),
        },
{
    reveal(staged_step);
    let tx = TransactionView::Coinbase(genesis_coinbase(address));
    let txs = block.transactions;
    assert(txs.drop_last() =~= Seq::<TransactionView>::empty());
    assert(txs.last() == tx);
    assert(staged(chain.state, txs.drop_last()) == Ok::<StateView, ErrorView>(chain.state));
    assert(no_double_spend(txs));
    if tx.size_fault() is None {
        let next = chain.apply_block(block)->Ok_0;
        assert(next.state.utxos =~= genesis_state(address).utxos);
        assert(next.state.balances =~= genesis_state(address).balances);
        assert(chain.blocks.push(block) =~= seq![block]);
        lemma_without_all_empty(chain.mempool, hashes_of(txs));
    }
}

/// Nothing can be taken out of an empty pool.
proof fn lemma_without_all_empty(pool: MempoolView, hashes: Seq<Seq<u8>>)
    requires
        pool.entries.len() == 0,
    ensures
        pool.without_all(hashes) == pool,
    decreases hashes.len(),
{
    if hashes.len() > 0 {
        lemma_without_all_empty(pool, hashes.drop_last());
    }
}

/// The coinbase that a miner puts first into the block at `height`: the
/// reward of the schedule for the beneficiary.
pub open spec fn reward_coinbase(height: u64, beneficiary: Seq<char>) -> TransactionView {
    TransactionView::Coinbase(
        CoinbaseTxView {
            reward_area: Coord { bits: spec_block_reward(height) as i64 },
            beneficiary_address: beneficiary,
        },
    )
}

/// Whether `candidate` consumes a UTXO that one of `picked` consumes.
pub open spec fn spends_input_of(picked: Seq<TransactionView>, candidate: TransactionView) -> bool {
    candidate.input() is Some && exists|k: int|
        0 <= k < picked.len() && (#[trigger] picked[k]).input() == candidate.input()
}

/// The transactions of a draft: those picked so far, and of the candidates,
/// in their order, every one that spends no UTXO of an earlier pick and
/// passes on the scratch state that the earlier picks leave.
pub open spec fn drafted(
    scratch: StateView,
    picked: Seq<TransactionView>,
    candidates: Seq<TransactionView>,
) -> Seq<TransactionView>
    decreases candidates.len(),
{
    if candidates.len() == 0 {
        picked
    } else if spends_input_of(picked, candidates[0]) {
        drafted(scratch, picked, candidates.drop_first())
    } else {
        match staged_step(scratch, candidates[0], false) {
            Ok(next) => drafted(next, picked.push(candidates[0]), candidates.drop_first()),
            Err(_) => drafted(scratch, picked, candidates.drop_first()),
        }
    }
}

/// The transactions of the draft of the next block, for the candidates
/// that the mempool offers: the reward coinbase, then of the candidates
/// what `drafted` picks. There is no draft where the coinbase itself does
/// not pass.
pub open spec fn draft_transactions(
    chain: ChainView,
    beneficiary: Seq<char>,
    candidates: Seq<TransactionView>,
) -> Option<Seq<TransactionView>> {
    let coinbase = reward_coinbase(chain.blocks.len() as u64, beneficiary);
    match staged(chain.state, seq![coinbase]) {
        Ok(scratch) => Some(drafted(scratch, seq![coinbase], candidates)),
        Err(_) => None,
    }
}

/// Whether a block is a draft on top of the chain: it links to the last
/// block, asks for the chain's difficulty, starts with the reward
/// coinbase, spends no UTXO twice, passes with all its transactions on a
/// scratch copy of the state, and carries their Merkle root. Only the
/// nonce is still to be found.
pub open spec fn is_draft(chain: ChainView, block: BlockView, beneficiary: Seq<char>) -> bool {
    &&& chain.blocks.len() > 0
    &&& block.header.height == chain.blocks.len()
    &&& block.header.previous_hash == chain.blocks.last().header.hash()
    &&& block.header.difficulty == chain.difficulty
    &&& block.header.nonce == 0
    &&& block.header.merkle_root == spec_merkle_root(block.transactions)
    &&& block.transactions.len() > 0
    &&& block.transactions[0] == reward_coinbase(block.header.height, beneficiary)
    &&& no_double_spend(block.transactions)
    &&& staged(chain.state, block.transactions) is Ok
}

/// A draft that is mined is a block that the chain accepts.
pub proof fn lemma_mined_draft_is_accepted(
    chain: ChainView,
    draft: BlockView,
    beneficiary: Seq<char>,
    nonce: u64,
)
    requires
        chain_valid(chain.blocks),
        is_draft(chain, draft, beneficiary),
        draft.header.with_nonce(nonce).pow_valid(),
    ensures
        chain.apply_block(BlockView { header: draft.header.with_nonce(nonce), ..draft }) is Ok,
{
    reveal(chain_valid);
    let last = chain.blocks.len() - 1;
    assert(chain.blocks.last() == chain.blocks[last]);
    assert(chain.blocks[last].header.height == last);
}

/// The chain after every one of the blocks is applied in turn, or the
/// error of the first that is refused.
pub open spec fn replayed(chain: ChainView, blocks: Seq<BlockView>) -> Result<ChainView, ErrorView>
    decreases blocks.len(),
{
    if blocks.len() == 0 {
        Ok(chain)
    } else {
        match replayed(chain, blocks.drop_last()) {
            Err(error) => Err(error),
            Ok(so_far) => so_far.apply_block(blocks.last()),
        }
    }
}

/// Where some of the blocks cannot be replayed, all of them cannot, with
/// the same error.
pub proof fn lemma_replayed_prefix(chain: ChainView, blocks: Seq<BlockView>, n: int)
    requires
        0 <= n <= blocks.len(),
        replayed(chain, blocks.take(n)) is Err,
    ensures
        replayed(chain, blocks) == replayed(chain, blocks.take(n)),
    decreases blocks.len() - n,
{
    if n < blocks.len() {
        assert(blocks.take(n + 1).drop_last() =~= blocks.take(n));
        lemma_replayed_prefix(chain, blocks, n + 1);
    } else {
        assert(blocks.take(n) =~= blocks);
    }
}

/// The chain without blocks, with a difficulty.
pub open spec fn empty_chain(difficulty: u32) -> ChainView {
    ChainView {
        blocks: Seq::empty(),
        difficulty,
        mempool: MempoolView { entries: Seq::empty() },
        state: StateView { utxos: Seq::empty(), balances: Map::empty() },
    }
}

/// Whether the UTXO at place `i` can pay `amount` for `owner`: it belongs
/// to the owner, is worth at least the amount, and no pending transaction
/// consumes it.
pub open spec fn is_spendable(chain: ChainView, owner: Seq<char>, amount: Coord, i: int) -> bool {
    &&& 0 <= i < chain.state.utxos.len()
    &&& chain.state.utxos[i].1.owner == owner
    &&& chain.state.utxos[i].1.effective_value() matches Some(value) && value@ >= amount@
    &&& !chain.mempool.locks(chain.state.utxos[i].0)
}

/// The blocks of a vector, as plain values.
pub open spec fn blocks_view(v: Seq<Block>) -> Seq<BlockView> {
    v.map_values(|b: Block| b@)
}

/// No blocks form a valid chain.
pub proof fn lemma_empty_chain_valid()
    ensures
        chain_valid(Seq::<BlockView>::empty()),
{
    reveal(chain_valid);
}

/// A block that links to a valid chain and is sound extends it to a valid
/// chain.
proof fn lemma_chain_extends(blocks: Seq<BlockView>, block: BlockView)
    requires
        chain_valid(blocks),
        block_sound(block),
        block.header.height == blocks.len(),
        blocks.len() > 0 ==> block.header.previous_hash == blocks.last().header.hash(),
    ensures
        chain_valid(blocks.push(block)),
{
    reveal(chain_valid);
    let next = blocks.push(block);
    assert forall|i: int| 0 <= i < next.len() implies (#[trigger] next[i]).header.height == i by {
        if i < blocks.len() {
            assert(next[i] == blocks[i]);
        }
    }
    assert forall|i: int| 0 < i < next.len() implies (#[trigger] next[i]).header.previous_hash
        == next[i - 1].header.hash() by {
        assert(next[i - 1] == blocks[i - 1]);
        if i < blocks.len() {
            assert(next[i] == blocks[i]);
        }
    }
    assert forall|i: int| 0 <= i < next.len() implies block_sound(#[trigger] next[i]) by {
        if i < blocks.len() {
            assert(next[i] == blocks[i]);
        }
    }
}

/// The engine: the chain of blocks, the current difficulty, the pending
/// transactions and the UTXO state.
#[derive(Debug)]
pub struct Blockchain {
    blocks: Vec<Block>,
    difficulty: u32,
    mempool: Mempool,
    state: TriangleState,
}

impl View for Blockchain {
    type V = ChainView;

    closed spec fn view(&self) -> ChainView {
        ChainView {
            blocks: blocks_view(self.blocks@),
            difficulty: self.difficulty,
            mempool: self.mempool@,
            state: self.state@,
        }
    }
}

/// A copy of a vector of blocks.
fn clone_blocks(v: &Vec<Block>) -> (c: Vec<Block>)
    ensures
        blocks_view(c@) == blocks_view(v@),
{
    let mut out: Vec<Block> = Vec::new();
    let mut i: usize = 0;
    while i < v.len()
        invariant
            i <= v.len(),
            out@.len() == i,
            forall|j: int| 0 <= j < i ==> out@[j]@ == v@[j]@,
        decreases v.len() - i,
    {
        out.push(v[i].clone());
        i += 1;
    }
    assert(blocks_view(out@) =~= blocks_view(v@));
    out
}

/// Checks that no UTXO is spent more than once within the block.
pub fn validate_no_double_spend(block: &Block) -> (r: Result<(), ChainError>)
    ensures
        reports(
            r,
            if no_double_spend(block@.transactions) {
                None
            } else {
                Some(ErrorView::InvalidTransaction("Double spend detected in block."@))
            },
        ),
{
    let ghost all = block@.transactions;
    let n = block.transactions.len();
    let mut j: usize = 0;
    while j < n
        invariant
            j <= n,
            n == block.transactions@.len(),
            all == transactions_view(block.transactions@),
            forall|a: int, b: int|
                0 <= a < b < j && (#[trigger] all[a]).input() is Some ==> (#[trigger] all[b]).input()
                    != all[a].input(),
        decreases n - j,
    {
        match block.transactions[j].input_hash() {
            Some(input) => {
                let mut i: usize = 0;
                while i < j
                    invariant
                        i <= j < n,
                        n == block.transactions@.len(),
                        all == transactions_view(block.transactions@),
                        all[j as int].input() == Some(input@),
                        forall|a: int|
                            0 <= a < i ==> (#[trigger] all[a]).input() != all[j as int].input(),
                    decreases j - i,
                {
                    let same = match block.transactions[i].input_hash() {
                        Some(earlier) => hash_eq(&earlier, &input),
                        None => false,
                    };
                    if same {
                        proof {
                            assert(all[i as int].input() is Some);
                            assert(all[j as int].input() == all[i as int].input());
                        }
                        return Err(
                            ChainError::InvalidTransaction(
                                "Double spend detected in block.".to_owned(),
                            ),
                        );
                    }
                    i += 1;
                }
            },
            None => {},
        }
        j += 1;
    }
    Ok(())
}

/// The hashes of the transactions, one for each.
fn transaction_hash_list(transactions: &Vec<Transaction>) -> (hashes: Vec<Sha256Hash>)
    ensures
        hashes@.map_values(|h: Sha256Hash| h@) == hashes_of(transactions_view(transactions@)),
{
    let mut hashes: Vec<Sha256Hash> = Vec::new();
    let mut i: usize = 0;
    while i < transactions.len()
        invariant
            i <= transactions.len(),
            hashes@.len() == i,
            forall|j: int| 0 <= j < i ==> (#[trigger] hashes@[j])@ == transactions@[j]@.hash(),
        decreases transactions.len() - i,
    {
        hashes.push(transactions[i].hash());
        i += 1;
    }
    assert(hashes@.map_values(|h: Sha256Hash| h@) =~= hashes_of(
        transactions_view(transactions@),
    ));
    hashes
}

/// Gives one transaction of a block its turn on the scratch state.
fn stage_one(scratch: &mut TriangleState, tx: &Transaction, first: bool, height: u64) -> (r:
    Result<(), ChainError>)
    ensures
        match staged_step(old(scratch)@, tx@, first) {
            Ok(state) => r is Ok && final(scratch)@ == state,
            Err(error) => r matches Err(e) && e@ == error && final(scratch)@ == old(scratch)@,
        },
{
    reveal(staged_step);
    match tx.validate_size() {
        Err(e) => { return Err(e); },
        Ok(()) => {},
    }
    if first {
        match tx {
            Transaction::Coinbase(_) => {},
            _ => {
                return Err(
                    ChainError::InvalidBlock(
                        "First transaction in a block must be a Coinbase transaction".to_owned(),
                    ),
                );
            },
        }
    } else {
        match tx.validate(scratch) {
            Err(e) => { return Err(e); },
            Ok(()) => {},
        }
    }
    scratch.apply_transaction(tx, height)
}

/// A block that a valid chain does not refuse extends it to a valid chain
/// and has the height that comes next.
proof fn lemma_block_extends(chain: ChainView, block: BlockView)
    requires
        chain_valid(chain.blocks),
        chain.block_fault(block) is None,
    ensures
        chain_valid(chain.blocks.push(block)),
        block.header.height == chain.blocks.len(),
{
    reveal(chain_valid);
    lemma_staged_starts_with_coinbase(chain.state, block.transactions);
    if chain.blocks.len() > 0 {
        assert(chain.blocks.last() == chain.blocks[chain.blocks.len() - 1]);
    }
    lemma_chain_extends(chain.blocks, block);
}

/// Whether `candidate` consumes a UTXO that one of `picked` consumes.
fn spends_picked_input(picked: &Vec<Transaction>, candidate: &Transaction) -> (clash: bool)
    ensures
        clash == spends_input_of(transactions_view(picked@), candidate@),
{
    let input = match candidate.input_hash() {
        Some(h) => h,
        None => { return false; },
    };
    let ghost all = transactions_view(picked@);
    let mut k: usize = 0;
    while k < picked.len()
        invariant
            k <= picked.len(),
            all == transactions_view(picked@),
            candidate@.input() == Some(input@),
            forall|j: int| 0 <= j < k ==> (#[trigger] all[j]).input() != candidate@.input(),
        decreases picked.len() - k,
    {
        let same = match picked[k].input_hash() {
            Some(h) => hash_eq(&h, &input),
            None => false,
        };
        if same {
            assert(all[k as int].input() == candidate@.input());
            return true;
        }
        k += 1;
    }
    false
}

impl Clone for Blockchain {
    fn clone(&self) -> (chain: Blockchain)
        ensures
            chain@ == self@,
    {
        proof {
            use_type_invariant(self);
        }
        Blockchain {
            blocks: clone_blocks(&self.blocks),
            difficulty: self.difficulty,
            mempool: self.mempool.clone(),
            state: self.state.clone(),
        }
    }
}

impl Blockchain {
    #[verifier::type_invariant]
    spec fn inv(&self) -> bool {
        &&& chain_valid(blocks_view(self.blocks@))
        &&& self.state@.wf()
        &&& self.state@.balanced()
    }

    /// A new chain that holds the genesis block alone. The genesis block
    /// has height zero, a fixed timestamp, no predecessor, and one
    /// coinbase that gives the initial supply to `genesis_miner_address`;
    /// it is mined at `initial_difficulty` before it is applied. Fails
    /// where no nonce meets the target, or where the address is so long
    /// that the coinbase breaks the size limit.
    pub fn new(genesis_miner_address: Address, initial_difficulty: u32) -> (r: Result<
        Blockchain,
        ChainError,
    >)
        ensures
            match r {
                Ok(chain) => chain@.blocks.len() == 1 && chain@.blocks[0].transactions
                    == seq![TransactionView::Coinbase(genesis_coinbase(genesis_miner_address@))]
                    && chain@.blocks[0].header == genesis_header(
                    genesis_miner_address@,
                    initial_difficulty,
                    chain@.blocks[0].header.nonce,
                ) && chain@.difficulty == initial_difficulty && chain@.mempool.entries.len() == 0
                    && chain@.state == genesis_state(genesis_miner_address@) && no_solution_in(
                    genesis_header(genesis_miner_address@, initial_difficulty, 0),
                    0,
                    chain@.blocks[0].header.nonce as int,
                ) && chain_valid(chain@.blocks),
                Err(e) => (e@ == ErrorView::InvalidProofOfWork && no_solution_in(
                    genesis_header(genesis_miner_address@, initial_difficulty, 0),
                    0,
                    u64::MAX + 1,
                )) || TransactionView::Coinbase(
                    genesis_coinbase(genesis_miner_address@),
                ).size_fault() == Some(e@),
            },
    {
        let ghost address = genesis_miner_address@;
        let genesis = match Blockchain::create_genesis_block(
            genesis_miner_address,
            initial_difficulty,
        ) {
            Ok(block) => block,
            Err(e) => { return Err(e); },
        };
        proof {
            lemma_empty_chain_valid();
        }
        let blocks: Vec<Block> = Vec::new();
        assert(blocks_view(blocks@) =~= Seq::<BlockView>::empty());
        let mut chain = Blockchain {
            blocks,
            difficulty: initial_difficulty,
            mempool: Mempool::new(),
            state: TriangleState::new(),
        };
        proof {
            lemma_genesis_applies(chain@, genesis@, address);
        }
        match chain.apply_block(genesis) {
            Ok(()) => Ok(chain),
            Err(e) => Err(e),
        }
    }

    /// The genesis block for an address, mined at the difficulty given.
    fn create_genesis_block(miner_address: Address, initial_difficulty: u32) -> (r: Result<
        Block,
        ChainError,
    >)
        ensures
            match r {
                Ok(block) => block@.transactions == seq![
                    TransactionView::Coinbase(genesis_coinbase(miner_address@)),
                ] && block@.header == genesis_header(
                    miner_address@,
                    initial_difficulty,
                    block.header.nonce,
                ) && block@.header.pow_valid() && no_solution_in(
                    genesis_header(miner_address@, initial_difficulty, 0),
                    0,
                    block.header.nonce as int,
                ),
                Err(e) => e@ == ErrorView::InvalidProofOfWork && no_solution_in(
                    genesis_header(miner_address@, initial_difficulty, 0),
                    0,
                    u64::MAX + 1,
                ),
            },
    {
        let coinbase = Transaction::Coinbase(
            CoinbaseTx {
                reward_area: Coord { bits: GENESIS_SUPPLY_BITS },
                beneficiary_address: miner_address,
            },
        );
        let mut transactions: Vec<Transaction> = Vec::new();
        transactions.push(coinbase);
        assert(transactions_view(transactions@) =~= seq![
            TransactionView::Coinbase(genesis_coinbase(miner_address@)),
        ]);
        let merkle_root = Block::calculate_merkle_root(transactions.as_slice());
        let previous_hash = [0u8; 32];
        assert(previous_hash@ =~= Seq::new(32, |i: int| 0u8));
        let header = BlockHeader {
            height: 0,
            timestamp: GENESIS_TIMESTAMP,
            previous_hash,
            merkle_root,
            difficulty: initial_difficulty,
            nonce: 0,
        };
        let genesis = Block { header, transactions };
        assert(genesis@.header == genesis_header(miner_address@, initial_difficulty, 0));
        mine_block(genesis)
    }

    /// The block reward at a height, by the halving schedule.
    pub fn calculate_block_reward(height: u64) -> (reward: Coord)
        ensures
            reward@ == spec_block_reward(height),
            0 <= reward@ <= INITIAL_REWARD_BITS,
    {
        let halvings: u64 = height / HALVING_INTERVAL;
        if halvings >= 64 {
            return Coord { bits: 0 };
        }
        let mut bits: i64 = INITIAL_REWARD_BITS;
        let mut done: u64 = 0;
        while done < halvings
            invariant
                done <= halvings,
                0 <= bits <= INITIAL_REWARD_BITS,
                bits == halved(INITIAL_REWARD_BITS as int, done as nat),
            decreases halvings - done,
        {
            bits = bits / 2;
            done += 1;
        }
        Coord { bits }
    }

    /// The chain that the blocks of a block log give: starting from a
    /// chain without blocks at `initial_difficulty`, every block is applied
    /// in turn, with all the checks of `apply_block`. Fails with the error
    /// of the first block that is refused.
    pub fn from_blocks(blocks: Vec<Block>, initial_difficulty: u32) -> (r: Result<
        Blockchain,
        ChainError,
    >)
        ensures
            match replayed(empty_chain(initial_difficulty), blocks_view(blocks@)) {
                Ok(chain) => r matches Ok(loaded) && loaded@ == chain && chain_valid(chain.blocks),
                Err(error) => r matches Err(e) && e@ == error,
            },
    {
        let ghost all = blocks_view(blocks@);
        let ghost start = empty_chain(initial_difficulty);
        proof {
            lemma_empty_chain_valid();
        }
        let none: Vec<Block> = Vec::new();
        assert(blocks_view(none@) =~= Seq::<BlockView>::empty());
        let mut chain = Blockchain {
            blocks: none,
            difficulty: initial_difficulty,
            mempool: Mempool::new(),
            state: TriangleState::new(),
        };
        assert(chain@.mempool.entries =~= start.mempool.entries);
        assert(chain@ == start);
        let mut i: usize = 0;
        assert(all.take(0) =~= Seq::<BlockView>::empty());
        while i < blocks.len()
            invariant
                i <= blocks.len(),
                all == blocks_view(blocks@),
                start == empty_chain(initial_difficulty),
                replayed(start, all.take(i as int)) == Ok::<ChainView, ErrorView>(chain@),
                chain_valid(chain@.blocks),
            decreases blocks.len() - i,
        {
            let ghost prior = chain@;
            proof {
                assert(all.take(i + 1).drop_last() =~= all.take(i as int));
                assert(all.take(i + 1).last() == blocks@[i as int]@);
                assert(replayed(start, all.take(i + 1)) == prior.apply_block(blocks@[i as int]@));
            }
            match chain.apply_block(blocks[i].clone()) {
                Err(e) => {
                    proof {
                        lemma_replayed_prefix(start, all, i + 1);
                    }
                    return Err(e);
                },
                Ok(()) => {},
            }
            i += 1;
        }
        assert(all.take(i as int) =~= all);
        Ok(chain)
    }

    /// The blocks of the chain, the genesis block first. They form a valid
    /// chain: heights count up from zero, every block names its
    /// predecessor's hash, meets its proof-of-work target and spends no
    /// UTXO twice.
    pub fn blocks(&self) -> (blocks: &Vec<Block>)
        ensures
            blocks_view(blocks@) == self@.blocks,
            chain_valid(self@.blocks),
    {
        proof {
            use_type_invariant(self);
        }
        &self.blocks
    }

    /// The number of blocks in the chain.
    pub fn height(&self) -> (height: usize)
        ensures
            height == self@.blocks.len(),
    {
        self.blocks.len()
    }

    /// The difficulty that the next block is to be mined at.
    pub fn difficulty(&self) -> (difficulty: u32)
        ensures
            difficulty == self@.difficulty,
    {
        self.difficulty
    }

    /// The UTXO state. Its balances agree with its UTXO set: the balance
    /// of every address is the sum of the effective values of the UTXOs
    /// that the address owns.
    pub fn state(&self) -> (state: &TriangleState)
        ensures
            state@ == self@.state,
            self@.state.wf(),
            self@.state.balanced(),
    {
        proof {
            use_type_invariant(self);
        }
        &self.state
    }

    /// The pending transactions.
    pub fn mempool(&self) -> (mempool: &Mempool)
        ensures
            mempool@ == self@.mempool,
    {
        &self.mempool
    }

    /// The balance of an address in the current state: the sum of the
    /// effective values of the UTXOs that the address owns.
    pub fn get_balance(&self, address: &Address) -> (balance: Coord)
        ensures
            balance == self@.state.balance_of(address@),
            balance@ == owned_total(self@.state.utxos, address@),
    {
        proof {
            use_type_invariant(self);
        }
        self.state.get_balance(address)
    }

    /// Validates and applies the transactions of a block, in their order,
    /// on a scratch copy of the state.
    fn stage(&self, block: &Block) -> (r: Result<TriangleState, ChainError>)
        ensures
            match staged(self@.state, block@.transactions) {
                Ok(state) => r matches Ok(scratch) && scratch@ == state,
                Err(error) => r matches Err(e) && e@ == error,
            },
    {
        let ghost all = block@.transactions;
        let ghost base = self@.state;
        let mut scratch = self.state.clone();
        let n = block.transactions.len();
        let mut i: usize = 0;
        assert(all.take(0) =~= Seq::<TransactionView>::empty());
        while i < n
            invariant
                i <= n,
                n == block.transactions@.len(),
                all == block@.transactions,
                base == self@.state,
                staged(base, all.take(i as int)) == Ok::<StateView, ErrorView>(scratch@),
            decreases n - i,
        {
            let ghost prior = scratch@;
            proof {
                assert(all.take(i + 1).drop_last() =~= all.take(i as int));
                assert(all.take(i + 1).last() == block.transactions@[i as int]@);
                assert(staged(base, all.take(i + 1)) == staged_step(
                    prior,
                    block.transactions@[i as int]@,
                    i == 0,
                ));
            }
            match stage_one(&mut scratch, &block.transactions[i], i == 0, block.header.height) {
                Err(e) => {
                    proof {
                        lemma_staged_prefix(base, all, i + 1);
                    }
                    return Err(e);
                },
                Ok(()) => {},
            }
            i += 1;
        }
        assert(all.take(i as int) =~= all);
        Ok(scratch)
    }

    /// Everything that is checked of a block before it is committed; the
    /// scratch state comes back where the block passes.
    fn check_block(&self, block: &Block) -> (r: Result<TriangleState, ChainError>)
        ensures
            match self@.block_fault(block@) {
                None => r matches Ok(scratch) && staged(self@.state, block@.transactions) == Ok::<
                    StateView,
                    ErrorView,
                >(scratch@),
                Some(error) => r matches Err(e) && e@ == error,
            },
    {
        match self.check_linkage(block) {
            Err(e) => { return Err(e); },
            Ok(()) => {},
        }
        if !block.verify_pow() {
            return Err(
                ChainError::InvalidBlock(
                    "Invalid Proof-of-Work: Block hash does not meet difficulty target.".to_owned(),
                ),
            );
        }
        match validate_no_double_spend(block) {
            Err(e) => { return Err(e); },
            Ok(()) => {},
        }
        if block.transactions.len() == 0 {
            return Err(
                ChainError::InvalidBlock(
                    "First transaction in a block must be a Coinbase transaction".to_owned(),
                ),
            );
        }
        let scratch = match self.stage(block) {
            Err(e) => { return Err(e); },
            Ok(s) => s,
        };
        let root = Block::calculate_merkle_root(block.transactions.as_slice());
        if !hash_eq(&root, &block.header.merkle_root) {
            return Err(ChainError::InvalidBlock("Merkle root mismatch.".to_owned()));
        }
        Ok(scratch)
    }

    /// Checks the height and the previous hash of a block against the
    /// chain.
    fn check_linkage(&self, block: &Block) -> (r: Result<(), ChainError>)
        ensures
            reports(r, self@.linkage_fault(block@)),
    {
        if block.header.height != 0 {
            if self.blocks.len() == 0 {
                return Err(
                    ChainError::InvalidBlock(
                        "Cannot apply non-genesis block; the chain is empty.".to_owned(),
                    ),
                );
            }
            let last = &self.blocks[self.blocks.len() - 1];
            assert(last@ == self@.blocks.last());
            if block.header.height - 1 != last.header.height {
                return Err(ChainError::InvalidBlock("Invalid block height.".to_owned()));
            }
            if !hash_eq(&block.header.previous_hash, &last.hash()) {
                return Err(ChainError::InvalidBlock("Invalid previous block hash.".to_owned()));
            }
        } else if self.blocks.len() > 0 {
            return Err(
                ChainError::InvalidBlock(
                    "Genesis block can only be applied to an empty chain.".to_owned(),
                ),
            );
        }
        Ok(())
    }

    /// Applies a block to the chain. The block must link to the chain,
    /// meet its proof-of-work target, spend no UTXO twice, pass with all
    /// its transactions on a scratch copy of the state, and carry the
    /// Merkle root of its transactions. Then it is committed: appended to
    /// the chain, with the scratch state as the new state, its
    /// transactions out of the mempool, and the difficulty retargeted.
    /// A block that is refused changes nothing. Either way the blocks form
    /// a valid chain afterwards and the balances agree with the UTXO set.
    pub fn apply_block(&mut self, block: Block) -> (r: Result<(), ChainError>)
        ensures
            match old(self)@.apply_block(block@) {
                Ok(next) => r is Ok && final(self)@ == next,
                Err(error) => r matches Err(e) && e@ == error && final(self)@ == old(self)@,
            },
            chain_valid(final(self)@.blocks),
            final(self)@.state.balanced(),
    {
        proof {
            use_type_invariant(&*self);
        }
        let scratch = match self.check_block(&block) {
            Err(e) => { return Err(e); },
            Ok(s) => s,
        };
        proof {
            lemma_block_extends(self@, block@);
            lemma_staged_keeps_balance(self@.state, block@.transactions);
        }
        self.commit(block, scratch);
        Ok(())
    }

    /// Commits a block that has passed every check.
    fn commit(&mut self, block: Block, scratch: TriangleState)
        requires
            chain_valid(old(self)@.blocks.push(block@)),
            block@.header.height == old(self)@.blocks.len(),
            staged(old(self)@.state, block@.transactions) == Ok::<StateView, ErrorView>(scratch@),
            scratch@.wf(),
            scratch@.balanced(),
        ensures
            final(self)@ == old(self)@.committed(block@),
    {
        proof {
            use_type_invariant(&*self);
        }
        let ghost before = self@;
        let ghost appended = block@;
        let hashes = transaction_hash_list(&block.transactions);
        let height = block.header.height;
        let timestamp = block.header.timestamp;
        let mut blocks: Vec<Block> = Vec::new();
        proof {
            lemma_empty_chain_valid();
            assert(blocks_view(blocks@) =~= Seq::<BlockView>::empty());
            assert(height == self.blocks@.len());
        }
        core::mem::swap(&mut self.blocks, &mut blocks);
        assert(blocks_view(blocks@) == before.blocks);
        let count = blocks.len();
        let earlier: Option<u64> = if height > 0 && height % DIFFICULTY_ADJUSTMENT_INTERVAL == 0 {
            assert(height == count);
            let at: usize = count - DIFFICULTY_ADJUSTMENT_INTERVAL as usize;
            assert(blocks@[at as int]@ == before.blocks[at as int]);
            Some(blocks[at].header.timestamp)
        } else {
            None
        };
        blocks.push(block);
        let ghost chain = before.blocks.push(appended);
        assert(blocks_view(blocks@) =~= chain);
        self.blocks = blocks;
        self.state = scratch;
        let mut pool = Mempool::new();
        core::mem::swap(&mut self.mempool, &mut pool);
        pool.remove_transactions(hashes.as_slice());
        self.mempool = pool;
        proof {
            assert(chain.last() == appended);
            if height >= DIFFICULTY_ADJUSTMENT_INTERVAL {
                assert(chain[height - DIFFICULTY_ADJUSTMENT_INTERVAL] == before.blocks[height
                    - DIFFICULTY_ADJUSTMENT_INTERVAL]);
            }
        }
        match earlier {
            Some(first) => {
                let actual: u64 = if timestamp >= first {
                    timestamp - first
                } else {
                    0
                };
                self.difficulty = retarget(self.difficulty, actual);
            },
            None => {},
        }
        assert(self@.blocks == chain);
        assert(self@.state == scratch@);
        assert(self@.mempool == before.mempool.without_all(hashes_of(appended.transactions)));
        assert(self@.difficulty == retargeted(chain, before.difficulty));
    }

    /// The last block of the chain.
    pub fn last_block(&self) -> (r: Option<&Block>)
        ensures
            match r {
                Some(block) => self@.blocks.len() > 0 && block@ == self@.blocks.last(),
                None => self@.blocks.len() == 0,
            },
    {
        if self.blocks.len() == 0 {
            None
        } else {
            Some(&self.blocks[self.blocks.len() - 1])
        }
    }

    /// The block at a height.
    pub fn block_by_height(&self, height: u64) -> (r: Option<&Block>)
        ensures
            match r {
                Some(block) => height < self@.blocks.len() && block@ == self@.blocks[height as int]
                    && block@.header.height == height,
                None => height >= self@.blocks.len(),
            },
    {
        proof {
            use_type_invariant(self);
            reveal(chain_valid);
        }
        if height < self.blocks.len() as u64 {
            assert(self@.blocks[height as int] == self.blocks@[height as int]@);
            Some(&self.blocks[height as usize])
        } else {
            None
        }
    }

    /// The first block whose header has the given hash.
    pub fn block_by_hash(&self, hash: &Sha256Hash) -> (r: Option<&Block>)
        ensures
            match r {
                Some(block) => block@.header.hash() == hash@ && exists|i: int|
                    0 <= i < self@.blocks.len() && #[trigger] self@.blocks[i] == block@,
                None => forall|i: int|
                    0 <= i < self@.blocks.len() ==> (#[trigger] self@.blocks[i]).header.hash()
                        != hash@,
            },
    {
        let mut i: usize = 0;
        while i < self.blocks.len()
            invariant
                i <= self.blocks.len(),
                forall|j: int|
                    0 <= j < i ==> (#[trigger] self@.blocks[j]).header.hash() != hash@,
            decreases self.blocks.len() - i,
        {
            assert(self@.blocks[i as int] == self.blocks@[i as int]@);
            if hash_eq(&self.blocks[i].hash(), hash) {
                return Some(&self.blocks[i]);
            }
            i += 1;
        }
        None
    }

    /// A draft of the next block for a miner: the reward coinbase for
    /// `beneficiary` first, then up to `limit` transactions of the
    /// mempool, the highest fee first. A transaction is left out where it
    /// would spend a UTXO that an earlier one of the draft spends, or
    /// where it does not pass on the scratch state that the earlier ones
    /// leave. The timestamp is `now`, or the millisecond after the last
    /// block where the clock is not ahead of it. Nothing is drafted on a
    /// chain without blocks, nor where the coinbase itself cannot be
    /// applied: it breaks the size limit, the beneficiary's balance cannot
    /// take the reward, or the beneficiary still holds an equal reward
    /// unspent, whose UTXO has the key that the new one would get.
    pub fn draft_block(&self, beneficiary: Address, limit: usize, now: u64) -> (r: Option<Block>)
        ensures
            r matches Some(block) ==> is_draft(self@, block@, beneficiary@)
                && block@.header.timestamp == (if now > self@.blocks.last().header.timestamp {
                now as int
            } else if self@.blocks.last().header.timestamp < u64::MAX {
                self@.blocks.last().header.timestamp + 1
            } else {
                self@.blocks.last().header.timestamp as int
            }) && block@.transactions.len() <= limit + 1 && forall|k: int|
                1 <= k < block@.transactions.len() ==> exists|j: int|
                    0 <= j < self@.mempool.entries.len() && (
                    #[trigger] self@.mempool.entries[j]).tx == #[trigger] block@.transactions[k],
            r matches Some(block) ==> exists|candidates: Seq<TransactionView>|
                crate::mempool::is_top_by_fee(self@.mempool.entries, limit as nat, candidates)
                    && #[trigger] draft_transactions(self@, beneficiary@, candidates) == Some(
                    block@.transactions,
                ),
            r is None ==> self@.blocks.len() == 0 || staged(
                self@.state,
                seq![reward_coinbase(self@.blocks.len() as u64, beneficiary@)],
            ) is Err,
    {
        proof {
            use_type_invariant(self);
        }
        let last = match self.last_block() {
            Some(block) => block,
            None => { return None; },
        };
        let previous_hash = last.hash();
        let timestamp = next_timestamp(now, last.header.timestamp);
        let height = self.blocks.len() as u64;
        let coinbase = Transaction::Coinbase(
            CoinbaseTx {
                reward_area: Blockchain::calculate_block_reward(height),
                beneficiary_address: beneficiary,
            },
        );
        let ghost base = self@.state;
        let mut scratch = self.state.clone();
        let mut picked: Vec<Transaction> = Vec::new();
        proof {
            let one = seq![coinbase@];
            assert(one.drop_last() =~= Seq::<TransactionView>::empty());
            assert(one.last() == coinbase@);
            assert(staged(base, one.drop_last()) == Ok::<StateView, ErrorView>(base));
            assert(staged(base, one) == staged_step(base, coinbase@, true));
            assert(coinbase@ == reward_coinbase(height, beneficiary@));
        }
        match stage_one(&mut scratch, &coinbase, true, height) {
            Err(_) => { return None; },
            Ok(()) => {},
        }
        picked.push(coinbase);
        proof {
            assert(transactions_view(picked@) =~= seq![reward_coinbase(height, beneficiary@)]);
        }
        let candidates = self.mempool.get_transactions_by_fee(limit);
        let ghost offered = transactions_view(candidates@);
        let ghost first = scratch@;
        let ghost start = transactions_view(picked@);
        let mut i: usize = 0;
        proof {
            assert(offered.skip(0) =~= offered);
        }
        while i < candidates.len()
            invariant
                i <= candidates.len() <= limit,
                offered == transactions_view(candidates@),
                drafted(first, start, offered) == drafted(
                    scratch@,
                    transactions_view(picked@),
                    offered.skip(i as int),
                ),
                1 <= picked@.len() <= i + 1,
                base == self@.state,
                transactions_view(picked@)[0] == reward_coinbase(height, beneficiary@),
                crate::mempool::is_top_by_fee(
                    self@.mempool.entries,
                    limit as nat,
                    transactions_view(candidates@),
                ),
                forall|k: int|
                    1 <= k < picked@.len() ==> exists|j: int|
                        0 <= j < self@.mempool.entries.len() && (
                        #[trigger] self@.mempool.entries[j]).tx == #[trigger] transactions_view(
                            picked@,
                        )[k],
                no_double_spend(transactions_view(picked@)),
                staged(base, transactions_view(picked@)) == Ok::<StateView, ErrorView>(scratch@),
            decreases candidates.len() - i,
        {
            let candidate = &candidates[i];
            let ghost before = transactions_view(picked@);
            proof {
                let rest = offered.skip(i as int);
                assert(rest[0] == candidate@);
                assert(rest.drop_first() =~= offered.skip(i + 1));
            }
            if !spends_picked_input(&picked, candidate) {
                let copy = candidate.clone();
                proof {
                    let longer = before.push(copy@);
                    assert(longer.drop_last() =~= before);
                    assert(longer.last() == copy@);
                    assert(staged(base, longer) == staged_step(scratch@, copy@, false));
                }
                match stage_one(&mut scratch, &copy, false, height) {
                    Ok(()) => {
                        picked.push(copy);
                        proof {
                            let after = transactions_view(picked@);
                            assert(after =~= before.push(copy@));
                            assert(copy@ == transactions_view(candidates@)[i as int]);
                            assert forall|k: int| 1 <= k < after.len() implies exists|j: int|
                                0 <= j < self@.mempool.entries.len() && (
                                #[trigger] self@.mempool.entries[j]).tx == #[trigger] after[k] by {
                                if k < before.len() {
                                    assert(after[k] == before[k]);
                                }
                            }
                            assert forall|a: int, b: int|
                                0 <= a < b < after.len() && (#[trigger] after[a]).input()
                                    is Some implies (#[trigger] after[b]).input()
                                != after[a].input() by {
                                assert(after[a] == before[a]);
                                if b < before.len() {
                                    assert(after[b] == before[b]);
                                }
                            }
                        }
                    },
                    Err(_) => {},
                }
            }
            i += 1;
        }
        proof {
            assert(offered.skip(i as int).len() == 0);
            assert(start == seq![reward_coinbase(height, beneficiary@)]);
            assert(draft_transactions(self@, beneficiary@, offered) == Some(
                transactions_view(picked@),
            ));
        }
        let block = Block::with_timestamp(
            height,
            previous_hash,
            self.difficulty,
            picked,
            timestamp,
        );
        Some(block)
    }

    /// The first UTXO, in the order of the set, that can pay `amount` for
    /// `owner`: one that belongs to the owner, is worth at least the
    /// amount, and is not consumed by a pending transaction.
    pub fn find_spendable(&self, owner: &Address, amount: Coord) -> (r: Option<Sha256Hash>)
        ensures
            match r {
                Some(hash) => exists|i: int|
                    #[trigger] is_spendable(self@, owner@, amount, i) && self@.state.utxos[i].0
                        == hash@ && forall|j: int| 0 <= j < i ==> !is_spendable(
                        self@,
                        owner@,
                        amount,
                        j,
                    ),
                None => forall|i: int| !is_spendable(self@, owner@, amount, i),
            },
    {
        let count = self.state.utxo_count();
        let mut i: usize = 0;
        while i < count
            invariant
                i <= count,
                count == self@.state.utxos.len(),
                forall|j: int| 0 <= j < i ==> !is_spendable(self@, owner@, amount, j),
            decreases count - i,
        {
            let (hash, triangle) = self.state.utxo_at(i);
            let enough = match triangle.checked_effective_value() {
                Some(value) => value.bits >= amount.bits,
                None => false,
            };
            if enough && triangle.owner == *owner && !self.mempool.is_locked(hash) {
                assert(is_spendable(self@, owner@, amount, i as int));
                return Some(*hash);
            }
            i += 1;
        }
        None
    }

    /// Submits a transaction: stateless validation, then admission to the
    /// mempool. Blocks, state and difficulty stay as they are.
    pub fn submit_transaction(&mut self, tx: Transaction) -> (r: Result<(), ChainError>)
        ensures
            reports(r, old(self)@.mempool.add_fault(tx@)),
            r is Ok ==> final(self)@.mempool.entries.len() > 0 && final(self)@.mempool == old(
                self,
            )@.mempool.admitted(tx@, final(self)@.mempool.entries.last().timestamp),
            r is Err ==> final(self)@.mempool == old(self)@.mempool,
            final(self)@ == (ChainView { mempool: final(self)@.mempool, ..old(self)@ }),
    {
        proof {
            use_type_invariant(&*self);
        }
        let mut pool = Mempool::new();
        core::mem::swap(&mut self.mempool, &mut pool);
        let r = pool.add_transaction(tx);
        self.mempool = pool;
        r
    }

    /// Drops from the mempool what no longer validates against the state.
    pub fn prune_mempool(&mut self)
        ensures
            final(self)@ == (ChainView {
                mempool: old(self)@.mempool.pruned(old(self)@.state),
                ..old(self)@
            }),
    {
        proof {
            use_type_invariant(&*self);
        }
        let mut pool = Mempool::new();
        core::mem::swap(&mut self.mempool, &mut pool);
        pool.prune(&self.state);
        self.mempool = pool;
    }
}

} // verus!
