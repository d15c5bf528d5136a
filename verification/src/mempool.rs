//! The mempool: a bounded pool of pending transactions with a quota for
//! every sender and eviction of the lowest fee.

use crate::bytes::hash_eq;
use crate::bytes::hash_le;
use crate::bytes::lemma_lex_le_antisym;
use crate::bytes::lemma_lex_le_total;
use crate::bytes::lemma_lex_le_trans;
use crate::bytes::lex_le;
use crate::clock::now_seconds;
use crate::digest::Sha256Hash;
use crate::error::reports;
use crate::error::ChainError;
use crate::error::ErrorView;
use crate::state::StateView;
use crate::state::TriangleState;
use crate::transaction::Address;
use crate::transaction::Transaction;
use crate::transaction::TransactionView;
use vstd::prelude::*;
use vstd::set_lib::lemma_int_range;
use vstd::set_lib::lemma_len_subset;
use vstd::set_lib::set_int_range;

verus! {

/// Maximum number of transactions in the mempool.
pub const MAX_MEMPOOL_SIZE: usize = 10000;

/// Maximum number of transactions in the mempool that one sender has.
pub const MAX_TX_PER_ADDRESS: usize = 100;

/// A transaction in the mempool, with the time of its admission in
/// seconds since the Unix epoch.
#[derive(Debug)]
pub struct MempoolTransaction {
    pub tx: Transaction,
    timestamp: i64,
}

impl MempoolTransaction {
    /// The time of admission.
    pub closed spec fn spec_timestamp(&self) -> i64 {
        self.timestamp
    }

    /// The transaction, as plain values.
    pub closed spec fn spec_tx(&self) -> TransactionView {
        self.tx@
    }

    /// The transaction.
    pub fn transaction(&self) -> (tx: &Transaction)
        ensures
            tx@ == self.spec_tx(),
    {
        &self.tx
    }

    /// The time of admission, in seconds since the Unix epoch.
    pub fn timestamp(&self) -> (t: i64)
        ensures
            t == self.spec_timestamp(),
    {
        self.timestamp
    }
}

/// One resident of the pool as plain values.
pub struct PoolEntry {
    pub hash: Seq<u8>,
    pub tx: TransactionView,
    pub timestamp: i64,
}

/// How many of the residents were sent by `sender`.
pub open spec fn count_by_sender(entries: Seq<PoolEntry>, sender: Seq<char>) -> nat
    decreases entries.len(),
{
    if entries.len() == 0 {
        0
    } else {
        count_by_sender(entries.drop_last(), sender) + if entries.last().tx.sender() == Some(
            sender,
        ) {
            1nat
        } else {
            0nat
        }
    }
}

/// Whether a transaction with this hash is in the pool.
pub open spec fn pool_contains(entries: Seq<PoolEntry>, hash: Seq<u8>) -> bool {
    exists|i: int| 0 <= i < entries.len() && (#[trigger] entries[i]).hash == hash
}

/// The place of the transaction with this hash; meaningful where the pool
/// contains it.
pub open spec fn pool_index(entries: Seq<PoolEntry>, hash: Seq<u8>) -> int {
    choose|i: int| 0 <= i < entries.len() && (#[trigger] entries[i]).hash == hash
}

/// The place of the resident with the lowest fee; of several with that fee
/// the one that was admitted first. Meaningful for a pool that is not
/// empty.
pub open spec fn lowest_fee_index(entries: Seq<PoolEntry>) -> int
    decreases entries.len(),
{
    if entries.len() <= 1 {
        0
    } else {
        let before = lowest_fee_index(entries.drop_last());
        if entries.last().tx.fee_area()@ < entries[before].tx.fee_area()@ {
            entries.len() - 1
        } else {
            before
        }
    }
}

/// The resident that `lowest_fee_index` names has a fee that no other
/// resident undercuts.
pub proof fn lemma_lowest_fee(entries: Seq<PoolEntry>, k: int)
    requires
        0 <= k < entries.len(),
    ensures
        0 <= lowest_fee_index(entries) < entries.len(),
        entries[lowest_fee_index(entries)].tx.fee_area()@ <= entries[k].tx.fee_area()@,
    decreases entries.len(),
{
    if entries.len() > 1 {
        let front = entries.drop_last();
        lemma_lowest_fee(front, 0);
        if k < entries.len() - 1 {
            lemma_lowest_fee(front, k);
        }
    }
}

/// The pool as plain values: its residents in the order of admission.
pub struct MempoolView {
    pub entries: Seq<PoolEntry>,
}

impl MempoolView {
    /// The caps and the shape of the pool: at most `MAX_MEMPOOL_SIZE`
    /// residents, at most `MAX_TX_PER_ADDRESS` of one sender, every
    /// resident under its own hash, no hash twice, no coinbase.
    pub open spec fn wf(self) -> bool {
        &&& self.entries.len() <= MAX_MEMPOOL_SIZE
        &&& forall|sender: Seq<char>| #[trigger]
            count_by_sender(self.entries, sender) <= MAX_TX_PER_ADDRESS
        &&& forall|i: int|
            0 <= i < self.entries.len() ==> (#[trigger] self.entries[i]).hash
                == self.entries[i].tx.hash() && !(self.entries[i].tx is Coinbase)
        &&& forall|i: int, j: int|
            0 <= i < j < self.entries.len() ==> (#[trigger] self.entries[i]).hash != (
            #[trigger] self.entries[j]).hash
    }

    /// Whether a transaction of the pool consumes the UTXO with this hash.
    pub open spec fn locks(self, input: Seq<u8>) -> bool {
        exists|i: int|
            0 <= i < self.entries.len() && (#[trigger] self.entries[i]).tx.input() == Some(input)
    }

    /// Whether the pool holds a transaction with this hash.
    pub open spec fn contains(self, hash: Seq<u8>) -> bool {
        pool_contains(self.entries, hash)
    }

    /// The pool without the transaction with this hash.
    pub open spec fn without(self, hash: Seq<u8>) -> MempoolView {
        if self.contains(hash) {
            MempoolView { entries: self.entries.remove(pool_index(self.entries, hash)) }
        } else {
            self
        }
    }

    /// The pool without the transactions with these hashes.
    pub open spec fn without_all(self, hashes: Seq<Seq<u8>>) -> MempoolView
        decreases hashes.len(),
    {
        if hashes.len() == 0 {
            self
        } else {
            self.without_all(hashes.drop_last()).without(hashes.last())
        }
    }

    /// The pool after eviction: the resident with the lowest fee has left;
    /// of several with that fee, the one that was admitted first.
    /// Meaningful for a pool that is not empty.
    pub open spec fn evicted(self) -> MempoolView {
        MempoolView { entries: self.entries.remove(lowest_fee_index(self.entries)) }
    }

    /// Why the pool refuses a transaction that passed stateless
    /// validation, or `None`. In this order: no coinbase; no transaction
    /// twice; the sender's quota; and a full pool takes only a transaction
    /// that pays more than its cheapest resident.
    pub open spec fn admission_fault(self, tx: TransactionView) -> Option<ErrorView> {
        if tx is Coinbase {
            Some(ErrorView::InvalidTransaction("Coinbase transactions cannot be in mempool"@))
        } else if self.contains(tx.hash()) {
            Some(ErrorView::InvalidTransaction("Transaction already in mempool"@))
        } else if count_by_sender(self.entries, tx.sender().unwrap()) >= MAX_TX_PER_ADDRESS {
            Some(ErrorView::InvalidTransaction("Exceeded maximum transactions per address"@))
        } else if self.entries.len() >= MAX_MEMPOOL_SIZE && tx.fee_area()@
            <= self.entries[lowest_fee_index(self.entries)].tx.fee_area()@ {
            Some(ErrorView::MempoolFull)
        } else {
            None
        }
    }

    /// The pool after a transaction is admitted at `timestamp`: where the
    /// pool is full, the resident with the lowest fee is evicted; the new
    /// transaction comes last.
    pub open spec fn admitted(self, tx: TransactionView, timestamp: i64) -> MempoolView {
        let room = if self.entries.len() >= MAX_MEMPOOL_SIZE {
            self.evicted().entries
        } else {
            self.entries
        };
        MempoolView { entries: room.push(PoolEntry { hash: tx.hash(), tx, timestamp }) }
    }

    /// Why a transaction is not added to the pool, or `None`: a coinbase
    /// is refused outright; then stateless validation has its say, then
    /// the pool.
    pub open spec fn add_fault(self, tx: TransactionView) -> Option<ErrorView> {
        if tx is Coinbase {
            Some(ErrorView::InvalidTransaction("Coinbase transactions cannot be in mempool"@))
        } else {
            match tx.stateless_fault() {
                Some(error) => Some(error),
                None => self.admission_fault(tx),
            }
        }
    }

    /// The residents that validate against `state`, in their order.
    pub open spec fn pruned(self, state: StateView) -> MempoolView {
        MempoolView { entries: kept_entries(self.entries, state) }
    }
}

/// Those of the residents that validate against `state`, in their order.
pub open spec fn kept_entries(entries: Seq<PoolEntry>, state: StateView) -> Seq<PoolEntry>
    decreases entries.len(),
{
    if entries.len() == 0 {
        entries
    } else if entries.last().tx.stateful_fault(state) is None {
        kept_entries(entries.drop_last(), state).push(entries.last())
    } else {
        kept_entries(entries.drop_last(), state)
    }
}

/// Taking a resident out lowers no count by more than it raises none.
proof fn lemma_count_remove(entries: Seq<PoolEntry>, i: int, sender: Seq<char>)
    requires
        0 <= i < entries.len(),
    ensures
        count_by_sender(entries.remove(i), sender) + (if entries[i].tx.sender() == Some(sender) {
            1nat
        } else {
            0nat
        }) == count_by_sender(entries, sender),
    decreases entries.len(),
{
    if i == entries.len() - 1 {
        assert(entries.remove(i) =~= entries.drop_last());
    } else {
        lemma_count_remove(entries.drop_last(), i, sender);
        assert(entries.remove(i).drop_last() =~= entries.drop_last().remove(i));
        assert(entries.remove(i).last() == entries.last());
    }
}

/// A new resident at the end raises the count of its sender by one.
proof fn lemma_count_push(entries: Seq<PoolEntry>, entry: PoolEntry, sender: Seq<char>)
    ensures
        count_by_sender(entries.push(entry), sender) == count_by_sender(entries, sender) + (
        if entry.tx.sender() == Some(sender) {
            1nat
        } else {
            0nat
        }),
{
    assert(entries.push(entry).drop_last() =~= entries);
}

/// A well-formed pool stays one when a resident leaves.
proof fn lemma_remove_keeps_wf(pool: MempoolView, i: int)
    requires
        pool.wf(),
        0 <= i < pool.entries.len(),
    ensures
        (MempoolView { entries: pool.entries.remove(i) }).wf(),
        !pool_contains(pool.entries.remove(i), pool.entries[i].hash),
{
    let rest = pool.entries.remove(i);
    assert forall|sender: Seq<char>| #[trigger]
        count_by_sender(rest, sender) <= MAX_TX_PER_ADDRESS by {
        lemma_count_remove(pool.entries, i, sender);
    }
    assert forall|k: int| 0 <= k < rest.len() implies (#[trigger] rest[k]).hash
        == rest[k].tx.hash() && !(rest[k].tx is Coinbase) by {
        let from = if k < i {
            k
        } else {
            k + 1
        };
        assert(rest[k] == pool.entries[from]);
    }
    assert forall|a: int, b: int| 0 <= a < b < rest.len() implies (#[trigger] rest[a]).hash != (
    #[trigger] rest[b]).hash by {
        let fa = if a < i {
            a
        } else {
            a + 1
        };
        let fb = if b < i {
            b
        } else {
            b + 1
        };
        assert(rest[a] == pool.entries[fa] && rest[b] == pool.entries[fb]);
    }
    if pool_contains(rest, pool.entries[i].hash) {
        let k = pool_index(rest, pool.entries[i].hash);
        let from = if k < i {
            k
        } else {
            k + 1
        };
        assert(rest[k] == pool.entries[from]);
        if from < i {
            assert(pool.entries[from].hash != pool.entries[i].hash);
        } else {
            assert(pool.entries[i].hash != pool.entries[from].hash);
        }
    }
}

/// In a well-formed pool the place of the hash that stands at `i` is `i`.
proof fn lemma_pool_index_at(pool: MempoolView, i: int)
    requires
        pool.wf(),
        0 <= i < pool.entries.len(),
    ensures
        pool.contains(pool.entries[i].hash),
        pool_index(pool.entries, pool.entries[i].hash) == i,
{
    let k = pool_index(pool.entries, pool.entries[i].hash);
    assert(pool.entries[i].hash == pool.entries[i].hash);
    if k < i {
        assert(pool.entries[k].hash != pool.entries[i].hash);
    } else if i < k {
        assert(pool.entries[i].hash != pool.entries[k].hash);
    }
}

/// Eviction takes the cheapest resident. From a pool that is not empty
/// exactly one resident leaves. No resident that stays pays a lower fee
/// than the one that left. Its hash is no longer in the pool, and every
/// other resident stays.
pub proof fn lemma_eviction_takes_cheapest(pool: MempoolView)
    requires
        pool.wf(),
        pool.entries.len() > 0,
    ensures
        0 <= lowest_fee_index(pool.entries) < pool.entries.len(),
        pool.evicted().wf(),
        pool.evicted().entries.len() == pool.entries.len() - 1,
        pool.evicted() == pool.without(pool.entries[lowest_fee_index(pool.entries)].hash),
        !pool.evicted().contains(pool.entries[lowest_fee_index(pool.entries)].hash),
        forall|k: int|
            0 <= k < pool.evicted().entries.len() ==> pool.entries[lowest_fee_index(
                pool.entries,
            )].tx.fee_area()@ <= (#[trigger] pool.evicted().entries[k]).tx.fee_area()@,
        forall|i: int|
            0 <= i < pool.entries.len() && i != lowest_fee_index(pool.entries)
                ==> pool.evicted().contains((#[trigger] pool.entries[i]).hash),
{
    let lowest = lowest_fee_index(pool.entries);
    let rest = pool.evicted().entries;
    lemma_lowest_fee(pool.entries, 0);
    lemma_remove_keeps_wf(pool, lowest);
    lemma_pool_index_at(pool, lowest);
    assert forall|k: int| 0 <= k < rest.len() implies pool.entries[lowest].tx.fee_area()@ <= (
    #[trigger] rest[k]).tx.fee_area()@ by {
        let from = if k < lowest {
            k
        } else {
            k + 1
        };
        assert(rest[k] == pool.entries[from]);
        lemma_lowest_fee(pool.entries, from);
    }
    assert forall|i: int| 0 <= i < pool.entries.len() && i != lowest implies pool_contains(
        rest,
        (#[trigger] pool.entries[i]).hash,
    ) by {
        let to = if i < lowest {
            i
        } else {
            i - 1
        };
        assert(rest[to] == pool.entries[i]);
    }
}

/// The caps hold after every admission: a pool that admits a transaction
/// which it does not refuse is well formed again.
pub proof fn lemma_admission_keeps_caps(pool: MempoolView, tx: TransactionView, timestamp: i64)
    requires
        pool.wf(),
        pool.admission_fault(tx) is None,
    ensures
        pool.admitted(tx, timestamp).wf(),
        pool.admitted(tx, timestamp).entries.len() <= MAX_MEMPOOL_SIZE,
        forall|sender: Seq<char>| #[trigger]
            count_by_sender(pool.admitted(tx, timestamp).entries, sender) <= MAX_TX_PER_ADDRESS,
{
    let entry = PoolEntry { hash: tx.hash(), tx, timestamp };
    let room = if pool.entries.len() >= MAX_MEMPOOL_SIZE {
        pool.entries.remove(lowest_fee_index(pool.entries))
    } else {
        pool.entries
    };
    if pool.entries.len() >= MAX_MEMPOOL_SIZE {
        lemma_lowest_fee(pool.entries, 0);
        lemma_remove_keeps_wf(pool, lowest_fee_index(pool.entries));
    }
    let after = room.push(entry);
    assert forall|sender: Seq<char>| #[trigger]
        count_by_sender(after, sender) <= MAX_TX_PER_ADDRESS by {
        lemma_count_push(room, entry, sender);
        if pool.entries.len() >= MAX_MEMPOOL_SIZE {
            lemma_count_remove(pool.entries, lowest_fee_index(pool.entries), sender);
        }
    }
    assert forall|a: int, b: int| 0 <= a < b < after.len() implies (#[trigger] after[a]).hash != (
    #[trigger] after[b]).hash by {
        assert(after[a] == room[a]);
        if b < room.len() {
            assert(after[b] == room[b]);
        } else {
            if pool.entries.len() >= MAX_MEMPOOL_SIZE {
                let i = lowest_fee_index(pool.entries);
                let from = if a < i {
                    a
                } else {
                    a + 1
                };
                assert(room[a] == pool.entries[from]);
            }
            assert(room[a].hash != tx.hash());
        }
    }
    assert forall|k: int| 0 <= k < after.len() implies (#[trigger] after[k]).hash
        == after[k].tx.hash() && !(after[k].tx is Coinbase) by {
        if k < room.len() {
            assert(after[k] == room[k]);
        }
    }
}

/// The residents that validate against a state are again a well-formed
/// pool.
proof fn lemma_kept_wf(pool: MempoolView, state: StateView)
    requires
        pool.wf(),
    ensures
        pool.pruned(state).wf(),
        forall|i: int|
            0 <= i < kept_entries(pool.entries, state).len() ==> pool_contains(
                pool.entries,
                (#[trigger] kept_entries(pool.entries, state)[i]).hash,
            ),
        forall|sender: Seq<char>| #[trigger]
            count_by_sender(kept_entries(pool.entries, state), sender) <= count_by_sender(
                pool.entries,
                sender,
            ),
        kept_entries(pool.entries, state).len() <= pool.entries.len(),
    decreases pool.entries.len(),
{
    let entries = pool.entries;
    if entries.len() > 0 {
        let front = MempoolView { entries: entries.drop_last() };
        assert(front.wf()) by {
            lemma_remove_keeps_wf(pool, entries.len() - 1);
            assert(entries.remove(entries.len() - 1) =~= entries.drop_last());
        }
        lemma_kept_wf(front, state);
        let kept_front = kept_entries(front.entries, state);
        let kept = kept_entries(entries, state);
        assert forall|i: int| 0 <= i < kept.len() implies pool_contains(
            entries,
            (#[trigger] kept[i]).hash,
        ) by {
            if i < kept_front.len() {
                assert(kept[i] == kept_front[i]);
                let k = pool_index(front.entries, kept_front[i].hash);
                assert(entries[k] == front.entries[k]);
            } else {
                assert(kept[i] == entries[entries.len() - 1]);
            }
        }
        assert forall|sender: Seq<char>| #[trigger]
            count_by_sender(kept, sender) <= count_by_sender(entries, sender) by {
            assert(count_by_sender(kept_front, sender) <= count_by_sender(front.entries, sender));
            if entries.last().tx.stateful_fault(state) is None {
                lemma_count_push(kept_front, entries.last(), sender);
            }
        }
        assert forall|sender: Seq<char>| #[trigger]
            count_by_sender(kept, sender) <= MAX_TX_PER_ADDRESS by {
            assert(count_by_sender(kept, sender) <= count_by_sender(entries, sender));
        }
        assert forall|i: int| 0 <= i < kept.len() implies (#[trigger] kept[i]).hash
            == kept[i].tx.hash() && !(kept[i].tx is Coinbase) by {
            if i < kept_front.len() {
                assert(kept[i] == kept_front[i]);
            } else {
                assert(kept[i] == entries[entries.len() - 1]);
            }
        }
        assert forall|a: int, b: int| 0 <= a < b < kept.len() implies (#[trigger] kept[a]).hash
            != (#[trigger] kept[b]).hash by {
            assert(kept[a] == kept_front[a]);
            if b < kept_front.len() {
                assert(kept[b] == kept_front[b]);
            } else {
                let k = pool_index(front.entries, kept_front[a].hash);
                assert(entries[k] == front.entries[k]);
                assert(entries[k].hash != entries[entries.len() - 1].hash);
            }
        }
    }
}

/// The order in which the pool hands out its transactions: the higher fee
/// first, and of two equal fees the smaller hash.
pub open spec fn ranks_before(a: TransactionView, b: TransactionView) -> bool {
    a.fee_area()@ > b.fee_area()@ || (a.fee_area()@ == b.fee_area()@ && lex_le(a.hash(), b.hash())
        && a.hash() != b.hash())
}

/// `ranks_before` is a strict total order on transactions with different
/// hashes.
pub proof fn lemma_ranks_order(a: TransactionView, b: TransactionView, c: TransactionView)
    ensures
        !ranks_before(a, a),
        ranks_before(a, b) ==> !ranks_before(b, a),
        ranks_before(a, b) && ranks_before(b, c) ==> ranks_before(a, c),
        a.hash() != b.hash() ==> ranks_before(a, b) || ranks_before(b, a),
{
    lemma_lex_le_total(a.hash(), b.hash());
    if lex_le(a.hash(), b.hash()) && lex_le(b.hash(), a.hash()) {
        lemma_lex_le_antisym(a.hash(), b.hash());
    }
    if lex_le(a.hash(), b.hash()) && lex_le(b.hash(), c.hash()) {
        lemma_lex_le_trans(a.hash(), b.hash(), c.hash());
        if a.hash() == c.hash() {
            lemma_lex_le_antisym(a.hash(), b.hash());
        }
    }
}

/// What `get_transactions_by_fee` hands out, for a limit: as many
/// transactions of the pool as the limit allows, in ranking order, none
/// twice, and so chosen that every resident left out ranks after all that
/// were handed out.
pub open spec fn is_top_by_fee(
    entries: Seq<PoolEntry>,
    limit: nat,
    chosen: Seq<TransactionView>,
) -> bool {
    &&& chosen.len() == (if limit <= entries.len() {
        limit
    } else {
        entries.len()
    })
    &&& forall|k: int|
        0 <= k < chosen.len() ==> exists|j: int|
            0 <= j < entries.len() && (#[trigger] entries[j]).tx == #[trigger] chosen[k]
    &&& forall|k1: int, k2: int|
        0 <= k1 < k2 < chosen.len() ==> ranks_before(#[trigger] chosen[k1], #[trigger] chosen[k2])
    &&& forall|j: int|
        0 <= j < entries.len() ==> chosen.contains((#[trigger] entries[j]).tx) || (chosen.len()
            == limit && forall|k: int|
            0 <= k < chosen.len() ==> ranks_before(#[trigger] chosen[k], entries[j].tx))
}

/// One resident of the pool: a transaction under its hash.
#[derive(Debug)]
struct Resident {
    hash: Sha256Hash,
    item: MempoolTransaction,
}

/// The residents as plain values.
spec fn residents_view(v: Seq<Resident>) -> Seq<PoolEntry> {
    v.map_values(
        |r: Resident| PoolEntry { hash: r.hash@, tx: r.item.tx@, timestamp: r.item.timestamp },
    )
}

/// The pool of pending transactions.
#[derive(Debug)]
pub struct Mempool {
    residents: Vec<Resident>,
}

impl View for Mempool {
    type V = MempoolView;

    closed spec fn view(&self) -> MempoolView {
        MempoolView { entries: residents_view(self.residents@) }
    }
}

impl Clone for Mempool {
    fn clone(&self) -> (pool: Mempool)
        ensures
            pool@ == self@,
    {
        proof {
            use_type_invariant(self);
        }
        let mut residents: Vec<Resident> = Vec::new();
        let mut i: usize = 0;
        while i < self.residents.len()
            invariant
                i <= self.residents.len(),
                residents@.len() == i,
                forall|j: int|
                    0 <= j < i ==> (#[trigger] residents@[j]).hash == self.residents@[j].hash
                        && residents@[j].item.tx@ == self.residents@[j].item.tx@
                        && residents@[j].item.timestamp == self.residents@[j].item.timestamp,
            decreases self.residents.len() - i,
        {
            let resident = &self.residents[i];
            residents.push(
                Resident {
                    hash: resident.hash,
                    item: MempoolTransaction {
                        tx: resident.item.tx.clone(),
                        timestamp: resident.item.timestamp,
                    },
                },
            );
            i += 1;
        }
        assert(residents_view(residents@) =~= residents_view(self.residents@));
        Mempool { residents }
    }
}

fn find_resident(v: &Vec<Resident>, hash: &Sha256Hash) -> (r: Option<usize>)
    ensures
        match r {
            Some(i) => i < v.len() && v@[i as int].hash@ == hash@,
            None => !pool_contains(residents_view(v@), hash@),
        },
{
    let mut i: usize = 0;
    while i < v.len()
        invariant
            i <= v.len(),
            forall|j: int| 0 <= j < i ==> v@[j].hash@ != hash@,
        decreases v.len() - i,
    {
        if hash_eq(&v[i].hash, hash) {
            return Some(i);
        }
        i += 1;
    }
    proof {
        let entries = residents_view(v@);
        if pool_contains(entries, hash@) {
            let j = pool_index(entries, hash@);
            assert(entries[j].hash == v@[j].hash@);
        }
    }
    None
}

fn sender_of(tx: &Transaction) -> (sender: Option<&Address>)
    ensures
        match sender {
            Some(s) => tx@.sender() == Some(s@),
            None => tx@.sender() is None,
        },
{
    match tx {
        Transaction::Transfer(t) => Some(&t.sender),
        Transaction::Subdivision(t) => Some(&t.owner_address),
        Transaction::Coinbase(_) => None,
    }
}

fn count_sender(v: &Vec<Resident>, sender: &Address) -> (n: usize)
    ensures
        n == count_by_sender(residents_view(v@), sender@),
{
    let ghost entries = residents_view(v@);
    let mut n: usize = 0;
    let mut i: usize = 0;
    assert(entries.take(0) =~= Seq::<PoolEntry>::empty());
    while i < v.len()
        invariant
            i <= v.len(),
            n <= i,
            entries == residents_view(v@),
            n == count_by_sender(entries.take(i as int), sender@),
        decreases v.len() - i,
    {
        proof {
            assert(entries.take(i + 1).drop_last() =~= entries.take(i as int));
            assert(entries.take(i + 1).last() == entries[i as int]);
        }
        let same = match sender_of(&v[i].item.tx) {
            Some(s) => *s == *sender,
            None => false,
        };
        if same {
            n += 1;
        }
        i += 1;
    }
    assert(entries.take(i as int) =~= entries);
    n
}

fn find_lowest_fee(v: &Vec<Resident>) -> (i: usize)
    requires
        v.len() > 0,
    ensures
        i == lowest_fee_index(residents_view(v@)),
        i < v.len(),
{
    let ghost entries = residents_view(v@);
    let mut best: usize = 0;
    let mut i: usize = 1;
    assert(lowest_fee_index(entries.take(1)) == 0);
    while i < v.len()
        invariant
            1 <= i <= v.len(),
            best < i,
            entries == residents_view(v@),
            best == lowest_fee_index(entries.take(i as int)),
        decreases v.len() - i,
    {
        proof {
            assert(entries.take(i + 1).drop_last() =~= entries.take(i as int));
            assert(entries.take(i + 1).last() == entries[i as int]);
            assert(entries.take(i as int)[best as int] == entries[best as int]);
            assert(entries.take(i + 1)[best as int] == entries[best as int]);
        }
        if v[i].item.tx.fee_area().bits < v[best].item.tx.fee_area().bits {
            best = i;
        }
        i += 1;
    }
    assert(entries.take(i as int) =~= entries);
    best
}

impl Mempool {
    #[verifier::type_invariant]
    spec fn inv(&self) -> bool {
        self@.wf()
    }

    /// An empty pool.
    pub fn new() -> (pool: Mempool)
        ensures
            pool@.entries.len() == 0,
            pool@.wf(),
    {
        let pool = Mempool { residents: Vec::new() };
        assert(pool@.entries =~= Seq::<PoolEntry>::empty());
        pool
    }

    /// The number of transactions in the pool.
    pub fn len(&self) -> (n: usize)
        ensures
            n == self@.entries.len(),
            n <= MAX_MEMPOOL_SIZE,
            self@.wf(),
    {
        proof {
            use_type_invariant(self);
        }
        self.residents.len()
    }

    /// Whether the pool is empty.
    pub fn is_empty(&self) -> (empty: bool)
        ensures
            empty == (self@.entries.len() == 0),
    {
        self.residents.len() == 0
    }

    /// The transaction with the given hash.
    pub fn get_transaction(&self, tx_hash: &Sha256Hash) -> (r: Option<&Transaction>)
        ensures
            match r {
                Some(tx) => self@.contains(tx_hash@) && tx@ == self@.entries[pool_index(
                    self@.entries,
                    tx_hash@,
                )].tx,
                None => !self@.contains(tx_hash@),
            },
    {
        proof {
            use_type_invariant(self);
        }
        match find_resident(&self.residents, tx_hash) {
            Some(i) => {
                proof {
                    lemma_pool_index_at(self@, i as int);
                }
                Some(&self.residents[i].item.tx)
            },
            None => None,
        }
    }

    /// Whether a pending transaction consumes the UTXO with the given
    /// hash, so that another transaction should not try to.
    pub fn is_locked(&self, input: &Sha256Hash) -> (locked: bool)
        ensures
            locked == self@.locks(input@),
    {
        let mut i: usize = 0;
        while i < self.residents.len()
            invariant
                i <= self.residents.len(),
                forall|j: int| 0 <= j < i ==> (#[trigger] self@.entries[j]).tx.input() != Some(input@),
            decreases self.residents.len() - i,
        {
            assert(self@.entries[i as int].tx == self.residents@[i as int].item.tx@);
            let same = match self.residents[i].item.tx.input_hash() {
                Some(h) => hash_eq(&h, input),
                None => false,
            };
            if same {
                return true;
            }
            i += 1;
        }
        false
    }

    /// The resident with the given hash: the transaction with the time of
    /// its admission.
    pub fn get_entry(&self, tx_hash: &Sha256Hash) -> (r: Option<&MempoolTransaction>)
        ensures
            match r {
                Some(entry) => self@.contains(tx_hash@) && entry.spec_tx() == self@.entries[pool_index(
                    self@.entries,
                    tx_hash@,
                )].tx && entry.spec_timestamp() == self@.entries[pool_index(
                    self@.entries,
                    tx_hash@,
                )].timestamp,
                None => !self@.contains(tx_hash@),
            },
    {
        proof {
            use_type_invariant(self);
        }
        match find_resident(&self.residents, tx_hash) {
            Some(i) => {
                proof {
                    lemma_pool_index_at(self@, i as int);
                }
                Some(&self.residents[i].item)
            },
            None => None,
        }
    }

    /// All transactions of the pool, in the order of their admission.
    pub fn get_all_transactions(&self) -> (txs: Vec<Transaction>)
        ensures
            txs@.len() == self@.entries.len(),
            forall|i: int| 0 <= i < txs@.len() ==> (#[trigger] txs@[i])@ == self@.entries[i].tx,
    {
        let mut txs: Vec<Transaction> = Vec::new();
        let mut i: usize = 0;
        while i < self.residents.len()
            invariant
                i <= self.residents.len(),
                txs@.len() == i,
                forall|j: int| 0 <= j < i ==> (#[trigger] txs@[j])@ == self.residents@[j].item.tx@,
            decreases self.residents.len() - i,
        {
            txs.push(self.residents[i].item.tx.clone());
            i += 1;
        }
        txs
    }

    /// Takes the transaction with the given hash out of the pool, if it is
    /// there.
    pub fn remove_transaction(&mut self, tx_hash: &Sha256Hash)
        ensures
            final(self)@ == old(self)@.without(tx_hash@),
            final(self)@.wf(),
    {
        proof {
            use_type_invariant(&*self);
        }
        match find_resident(&self.residents, tx_hash) {
            Some(i) => {
                proof {
                    lemma_pool_index_at(self@, i as int);
                    lemma_remove_keeps_wf(self@, i as int);
                }
                let ghost before = self@.entries;
                let mut residents: Vec<Resident> = Vec::new();
                core::mem::swap(&mut self.residents, &mut residents);
                let _ = residents.remove(i);
                assert(residents_view(residents@) =~= before.remove(i as int));
                self.residents = residents;
            },
            None => {},
        }
    }

    /// Takes the transactions with the given hashes out of the pool.
    pub fn remove_transactions(&mut self, tx_hashes: &[Sha256Hash])
        ensures
            final(self)@ == old(self)@.without_all(
                tx_hashes@.map_values(|h: Sha256Hash| h@),
            ),
            final(self)@.wf(),
    {
        proof {
            use_type_invariant(&*self);
        }
        let ghost hashes = tx_hashes@.map_values(|h: Sha256Hash| h@);
        let mut i: usize = 0;
        assert(hashes.take(0) =~= Seq::<Seq<u8>>::empty());
        while i < tx_hashes.len()
            invariant
                i <= tx_hashes.len(),
                hashes == tx_hashes@.map_values(|h: Sha256Hash| h@),
                self@ == old(self)@.without_all(hashes.take(i as int)),
                self@.wf(),
            decreases tx_hashes.len() - i,
        {
            proof {
                assert(hashes.take(i + 1).drop_last() =~= hashes.take(i as int));
                assert(hashes.take(i + 1).last() == tx_hashes@[i as int]@);
            }
            self.remove_transaction(&tx_hashes[i]);
            i += 1;
        }
        assert(hashes.take(i as int) =~= hashes);
    }

    /// Evicts the resident with the lowest fee; of several with that fee,
    /// the one that was admitted first. Every other resident stays. An
    /// empty pool has no resident to evict and reports `MempoolFull`.
    pub fn evict_lowest_fee(&mut self) -> (r: Result<(), ChainError>)
        ensures
            old(self)@.entries.len() == 0 ==> (r matches Err(e) && e@ == ErrorView::MempoolFull
                && final(self)@ == old(self)@),
            old(self)@.entries.len() > 0 ==> r is Ok && final(self)@ == old(self)@.evicted(),
            old(self)@.wf(),
            final(self)@.wf(),
    {
        proof {
            use_type_invariant(&*self);
        }
        if self.residents.len() == 0 {
            return Err(ChainError::MempoolFull);
        }
        let lowest = find_lowest_fee(&self.residents);
        proof {
            lemma_eviction_takes_cheapest(self@);
        }
        let ghost before = self@.entries;
        let mut residents: Vec<Resident> = Vec::new();
        core::mem::swap(&mut self.residents, &mut residents);
        let _ = residents.remove(lowest);
        assert(residents_view(residents@) =~= before.remove(lowest as int));
        self.residents = residents;
        Ok(())
    }

    /// Admits a transaction that has passed stateless validation, at the
    /// time given. A refused transaction leaves the pool as it was.
    pub fn admit_transaction(&mut self, tx: Transaction, timestamp: i64) -> (r: Result<(), ChainError>)
        ensures
            reports(r, old(self)@.admission_fault(tx@)),
            r is Ok ==> final(self)@ == old(self)@.admitted(tx@, timestamp),
            r is Err ==> final(self)@ == old(self)@,
            old(self)@.wf(),
            final(self)@.wf(),
    {
        proof {
            use_type_invariant(&*self);
        }
        let tx_hash = tx.hash();
        let quota_full = match sender_of(&tx) {
            Some(sender) => count_sender(&self.residents, sender) >= MAX_TX_PER_ADDRESS,
            None => {
                return Err(
                    ChainError::InvalidTransaction(
                        "Coinbase transactions cannot be in mempool".to_owned(),
                    ),
                );
            },
        };
        if find_resident(&self.residents, &tx_hash).is_some() {
            proof {
                let i = choose|i: int|
                    0 <= i < self.residents@.len() && self.residents@[i].hash@ == tx_hash@;
                assert(self@.entries[i].hash == tx_hash@);
            }
            return Err(ChainError::InvalidTransaction("Transaction already in mempool".to_owned()));
        }
        if quota_full {
            return Err(
                ChainError::InvalidTransaction(
                    "Exceeded maximum transactions per address".to_owned(),
                ),
            );
        }
        let ghost before = self@;
        if self.residents.len() >= MAX_MEMPOOL_SIZE {
            let lowest = find_lowest_fee(&self.residents);
            if tx.fee_area().bits <= self.residents[lowest].item.tx.fee_area().bits {
                return Err(ChainError::MempoolFull);
            }
            match self.evict_lowest_fee() {
                Err(e) => { return Err(e); },
                Ok(()) => {},
            }
        }
        proof {
            lemma_admission_keeps_caps(before, tx@, timestamp);
        }
        let mut residents: Vec<Resident> = Vec::new();
        core::mem::swap(&mut self.residents, &mut residents);
        let ghost room = residents_view(residents@);
        residents.push(Resident { hash: tx_hash, item: MempoolTransaction { tx, timestamp } });
        assert(residents_view(residents@) =~= room.push(
            PoolEntry { hash: tx@.hash(), tx: tx@, timestamp },
        ));
        self.residents = residents;
        Ok(())
    }

    /// Adds a transaction to the pool: a coinbase is refused; stateless
    /// validation, signature included, comes next; then the pool decides
    /// as `admit_transaction` says, with the clock's reading as the time of
    /// admission. A refused transaction leaves the pool as it was.
    pub fn add_transaction(&mut self, tx: Transaction) -> (r: Result<(), ChainError>)
        ensures
            reports(r, old(self)@.add_fault(tx@)),
            r is Ok ==> final(self)@.entries.len() > 0 && final(self)@ == old(self)@.admitted(
                tx@,
                final(self)@.entries.last().timestamp,
            ),
            r is Err ==> final(self)@ == old(self)@,
            final(self)@.wf(),
    {
        proof {
            use_type_invariant(&*self);
        }
        match &tx {
            Transaction::Coinbase(_) => {
                return Err(
                    ChainError::InvalidTransaction(
                        "Coinbase transactions cannot be in mempool".to_owned(),
                    ),
                );
            },
            _ => {},
        }
        match tx.validate_stateless() {
            Err(e) => { return Err(e); },
            Ok(()) => {},
        }
        let timestamp = now_seconds();
        self.admit_transaction(tx, timestamp)
    }

    /// Drops every transaction that does not validate against `state` any
    /// more, such as one whose input a confirmed block has spent.
    pub fn prune(&mut self, state: &TriangleState)
        ensures
            final(self)@ == old(self)@.pruned(state@),
            final(self)@.wf(),
    {
        proof {
            use_type_invariant(&*self);
            lemma_kept_wf(self@, state@);
        }
        let ghost entries = self@.entries;
        let mut kept: Vec<Resident> = Vec::new();
        let mut i: usize = 0;
        proof {
            assert(entries.take(0) =~= Seq::<PoolEntry>::empty());
            assert(residents_view(kept@) =~= Seq::<PoolEntry>::empty());
        }
        while i < self.residents.len()
            invariant
                i <= self.residents.len(),
                entries == residents_view(self.residents@),
                residents_view(kept@) == kept_entries(entries.take(i as int), state@),
            decreases self.residents.len() - i,
        {
            proof {
                assert(entries.take(i + 1).drop_last() =~= entries.take(i as int));
                assert(entries.take(i + 1).last() == entries[i as int]);
            }
            let resident = &self.residents[i];
            if resident.item.tx.validate(state).is_ok() {
                let ghost before = residents_view(kept@);
                kept.push(
                    Resident {
                        hash: resident.hash,
                        item: MempoolTransaction {
                            tx: resident.item.tx.clone(),
                            timestamp: resident.item.timestamp,
                        },
                    },
                );
                assert(residents_view(kept@) =~= before.push(entries[i as int]));
            }
            i += 1;
        }
        assert(entries.take(i as int) =~= entries);
        self.residents = kept;
    }

    /// Up to `limit` transactions of the pool, the highest fee first; of
    /// two with the same fee the one with the smaller hash comes first.
    pub fn get_transactions_by_fee(&self, limit: usize) -> (txs: Vec<Transaction>)
        ensures
            is_top_by_fee(self@.entries, limit as nat, crate::block::transactions_view(txs@)),
    {
        proof {
            use_type_invariant(self);
        }
        let ghost entries = self@.entries;
        let n = self.residents.len();
        let mut txs: Vec<Transaction> = Vec::new();
        let mut last: Option<usize> = None;
        let ghost mut order: Seq<int> = Seq::empty();
        let ghost mut done: bool = false;
        while txs.len() < limit
            invariant
                n == self.residents.len(),
                entries == residents_view(self.residents@),
                self@.wf(),
                txs@.len() == order.len(),
                txs@.len() <= limit,
                forall|k: int| 0 <= k < order.len() ==> 0 <= #[trigger] order[k] < n,
                forall|k: int| 0 <= k < order.len() ==> (#[trigger] txs@[k])@ == entries[order[k]].tx,
                match last {
                    Some(l) => order.len() > 0 && order.last() == l,
                    None => order.len() == 0,
                },
                forall|k1: int, k2: int|
                    0 <= k1 < k2 < order.len() ==> ranks_before(
                        entries[#[trigger] order[k1]].tx,
                        entries[#[trigger] order[k2]].tx,
                    ),
                forall|k: int, j: int|
                    0 <= k < order.len() && 0 <= j < n && !order.contains(j) ==> ranks_before(
                        entries[#[trigger] order[k]].tx,
                        (#[trigger] entries[j]).tx,
                    ),
                done ==> forall|j: int| 0 <= j < n ==> order.contains(j),
                order.no_duplicates(),
            ensures
                done || txs@.len() == limit,
            decreases limit - txs.len(),
        {
            let mut best: Option<usize> = None;
            let mut j: usize = 0;
            while j < n
                invariant
                    j <= n,
                    n == self.residents.len(),
                    entries == residents_view(self.residents@),
                    self@.wf(),
                    forall|k: int| 0 <= k < order.len() ==> 0 <= #[trigger] order[k] < n,
                    match last {
                        Some(l) => order.len() > 0 && order.last() == l,
                        None => order.len() == 0,
                    },
                    forall|k1: int, k2: int|
                        0 <= k1 < k2 < order.len() ==> ranks_before(
                            entries[#[trigger] order[k1]].tx,
                            entries[#[trigger] order[k2]].tx,
                        ),
                    forall|k: int, j2: int|
                        0 <= k < order.len() && 0 <= j2 < n && !order.contains(j2)
                            ==> ranks_before(
                            entries[#[trigger] order[k]].tx,
                            (#[trigger] entries[j2]).tx,
                        ),
                    match best {
                        Some(b) => b < j && !order.contains(b as int) && forall|j2: int|
                            0 <= j2 < j && !order.contains(j2) ==> j2 == b || ranks_before(
                                entries[b as int].tx,
                                (#[trigger] entries[j2]).tx,
                            ),
                        None => forall|j2: int| 0 <= j2 < j ==> order.contains(j2),
                    },
                decreases n - j,
            {
                let candidate = &self.residents[j];
                let after_last = match last {
                    Some(l) => resident_ranks_before(&self.residents[l], candidate),
                    None => true,
                };
                proof {
                    let e = entries[j as int];
                    assert(e.hash == e.tx.hash());
                    if order.contains(j as int) {
                        let k = choose|k: int| 0 <= k < order.len() && order[k] == j;
                        let l = order.last();
                        assert(entries[l].hash == entries[l].tx.hash());
                        lemma_ranks_order(entries[l].tx, e.tx, e.tx);
                        if k < order.len() - 1 {
                            assert(ranks_before(entries[order[k]].tx, entries[order[order.len() - 1]].tx));
                        }
                        assert(!after_last);
                    } else if last is Some {
                        assert(ranks_before(entries[order[order.len() - 1]].tx, entries[j as int].tx));
                        assert(after_last);
                    }
                    assert(after_last == !order.contains(j as int));
                }
                if after_last {
                    match best {
                        None => {
                            best = Some(j);
                        },
                        Some(b) => {
                            proof {
                                let eb = entries[b as int];
                                let ej = entries[j as int];
                                assert(eb.hash == eb.tx.hash() && ej.hash == ej.tx.hash());
                                assert(eb.hash != ej.hash);
                                lemma_ranks_order(eb.tx, ej.tx, ej.tx);
                                lemma_ranks_order(ej.tx, eb.tx, eb.tx);
                            }
                            if resident_ranks_before(candidate, &self.residents[b]) {
                                proof {
                                    assert forall|j2: int|
                                        0 <= j2 < j + 1 && !order.contains(j2) implies j2 == j
                                        || ranks_before(
                                        entries[j as int].tx,
                                        (#[trigger] entries[j2]).tx,
                                    ) by {
                                        if j2 < j && j2 != b {
                                            lemma_ranks_order(
                                                entries[j as int].tx,
                                                entries[b as int].tx,
                                                entries[j2].tx,
                                            );
                                        }
                                    }
                                }
                                best = Some(j);
                            }
                        },
                    }
                }
                j += 1;
            }
            match best {
                None => {
                    proof {
                        done = true;
                    }
                    break ;
                },
                Some(b) => {
                    proof {
                        let new_order = order.push(b as int);
                        assert forall|k1: int, k2: int|
                            0 <= k1 < k2 < new_order.len() implies ranks_before(
                            entries[#[trigger] new_order[k1]].tx,
                            entries[#[trigger] new_order[k2]].tx,
                        ) by {
                            if k2 < order.len() {
                                assert(new_order[k1] == order[k1] && new_order[k2] == order[k2]);
                            } else {
                                assert(new_order[k1] == order[k1]);
                            }
                        }
                        assert forall|k: int, j2: int|
                            0 <= k < new_order.len() && 0 <= j2 < n && !new_order.contains(j2)
                            implies ranks_before(
                            entries[#[trigger] new_order[k]].tx,
                            (#[trigger] entries[j2]).tx,
                        ) by {
                            assert(!order.contains(j2)) by {
                                if order.contains(j2) {
                                    let k0 = choose|k0: int| 0 <= k0 < order.len() && order[k0] == j2;
                                    assert(new_order[k0] == j2);
                                }
                            }
                            assert(j2 != b) by {
                                if j2 == b {
                                    assert(new_order[order.len() as int] == j2);
                                }
                            }
                            if k < order.len() {
                                assert(new_order[k] == order[k]);
                            }
                        }
                        assert forall|k: int| 0 <= k < new_order.len() implies 0 <= #[trigger] new_order[k] < n by {
                            if k < order.len() {
                                assert(new_order[k] == order[k]);
                            }
                        }
                        assert forall|k1: int, k2: int|
                            0 <= k1 < new_order.len() && 0 <= k2 < new_order.len() && k1
                                != k2 implies new_order[k1] != new_order[k2] by {
                            if k1 < order.len() {
                                assert(new_order[k1] == order[k1]);
                                assert(order.contains(order[k1]));
                            }
                            if k2 < order.len() {
                                assert(new_order[k2] == order[k2]);
                                assert(order.contains(order[k2]));
                            }
                        }
                        order = new_order;
                    }
                    txs.push(self.residents[b].item.tx.clone());
                    last = Some(b);
                },
            }
        }
        proof {
            let picked = order.to_set();
            let range = set_int_range(0, n as int);
            lemma_int_range(0, n as int);
            order.unique_seq_to_set();
            assert(picked.subset_of(range)) by {
                assert forall|j: int| picked.contains(j) implies range.contains(j) by {
                    let k = choose|k: int| 0 <= k < order.len() && order[k] == j;
                    assert(0 <= order[k] < n);
                }
            }
            lemma_len_subset(picked, range);
            if done {
                assert(range.subset_of(picked)) by {
                    assert forall|j: int| range.contains(j) implies picked.contains(j) by {
                        assert(order.contains(j));
                    }
                }
                lemma_len_subset(range, picked);
            }
            let chosen = crate::block::transactions_view(txs@);
            assert forall|k: int| 0 <= k < chosen.len() implies exists|j: int|
                0 <= j < entries.len() && (#[trigger] entries[j]).tx == #[trigger] chosen[k] by {
                assert(entries[order[k]].tx == chosen[k]);
            }
            assert forall|k1: int, k2: int| 0 <= k1 < k2 < chosen.len() implies ranks_before(
                #[trigger] chosen[k1],
                #[trigger] chosen[k2],
            ) by {
                assert(ranks_before(entries[order[k1]].tx, entries[order[k2]].tx));
            }
            assert forall|j: int| 0 <= j < entries.len() implies chosen.contains(
                (#[trigger] entries[j]).tx,
            ) || (chosen.len() == limit && forall|k: int|
                0 <= k < chosen.len() ==> ranks_before(#[trigger] chosen[k], entries[j].tx)) by {
                if order.contains(j) {
                    let k = choose|k: int| 0 <= k < order.len() && order[k] == j;
                    assert(chosen[k] == entries[j].tx);
                } else {
                    assert forall|k: int| 0 <= k < chosen.len() implies ranks_before(
                        #[trigger] chosen[k],
                        entries[j].tx,
                    ) by {
                        assert(ranks_before(entries[order[k]].tx, entries[j].tx));
                    }
                }
            }
        }
        txs
    }
}

fn resident_ranks_before(a: &Resident, b: &Resident) -> (before: bool)
    requires
        a.hash@ == a.item.tx@.hash(),
        b.hash@ == b.item.tx@.hash(),
    ensures
        before == ranks_before(a.item.tx@, b.item.tx@),
{
    let fee_a = a.item.tx.fee_area().bits;
    let fee_b = b.item.tx.fee_area().bits;
    if fee_a != fee_b {
        fee_a > fee_b
    } else {
        hash_le(&a.hash, &b.hash) && !hash_eq(&a.hash, &b.hash)
    }
}

} // verus!
