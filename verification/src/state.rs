//! The UTXO state: the set of unspent triangles by hash, and the balance of
//! every address that is derived from it.

use crate::assoc::assoc_map;
use crate::assoc::has_key;
use crate::assoc::index_of;
use crate::assoc::keys_distinct;
use crate::assoc::lemma_assoc_len;
use crate::assoc::lemma_assoc_map_at;
use crate::assoc::lemma_assoc_map_dom;
use crate::assoc::lemma_assoc_push;
use crate::assoc::lemma_assoc_remove;
use crate::assoc::lemma_assoc_update;
use crate::bytes::hash_eq;
use crate::coord::coord_of;
use crate::coord::Coord;
use crate::digest::sha256;
use crate::digest::Sha256Hash;
use crate::error::ChainError;
use crate::error::ErrorView;
use crate::geometry::Point;
use crate::geometry::Triangle;
use crate::geometry::TriangleView;
use crate::geometry::GEOMETRIC_TOLERANCE_BITS;
use crate::transaction::children_total;
use crate::transaction::sum_values;
use crate::transaction::transfer_hash;
use crate::transaction::transfer_hash_preimage;
use crate::transaction::triangles_view;
use crate::transaction::value_conserved;
use crate::transaction::Address;
use crate::transaction::CoinbaseTx;
use crate::transaction::CoinbaseTxView;
use crate::transaction::SubdivisionTx;
use crate::transaction::SubdivisionTxView;
use crate::transaction::Transaction;
use crate::transaction::TransactionView;
use crate::transaction::TransferTx;
use crate::transaction::TransferTxView;
use vstd::prelude::*;

verus! {

/// One unspent triangle under the hash that names it.
#[derive(Debug)]
pub struct UtxoEntry {
    pub hash: Sha256Hash,
    pub triangle: Triangle,
}

/// The balance of one address.
#[derive(Debug)]
pub struct BalanceEntry {
    pub address: Address,
    pub balance: Coord,
}

impl Clone for UtxoEntry {
    fn clone(&self) -> (e: UtxoEntry)
        ensures
            e == *self,
    {
        UtxoEntry { hash: self.hash, triangle: self.triangle.clone() }
    }
}

impl Clone for BalanceEntry {
    fn clone(&self) -> (e: BalanceEntry)
        ensures
            e == *self,
    {
        BalanceEntry { address: self.address.clone(), balance: self.balance }
    }
}

/// The entries of the UTXO set as pairs of plain values.
pub open spec fn utxo_pairs(v: Seq<UtxoEntry>) -> Seq<(Seq<u8>, TriangleView)> {
    v.map_values(|e: UtxoEntry| (e.hash@, e.triangle@))
}

/// The entries of the balance map as pairs of plain values.
pub open spec fn balance_pairs(v: Seq<BalanceEntry>) -> Seq<(Seq<char>, Coord)> {
    v.map_values(|e: BalanceEntry| (e.address@, e.balance))
}

fn find_utxo(v: &Vec<UtxoEntry>, hash: &Sha256Hash) -> (r: Option<usize>)
    ensures
        match r {
            Some(i) => i < v.len() && v@[i as int].hash@ == hash@,
            None => !has_key(utxo_pairs(v@), hash@),
        },
{
    let mut i: usize = 0;
    while i < v.len()
        invariant
            i <= v.len(),
            forall|j: int| 0 <= j < i ==> v@[j].hash@ != hash@,
        decreases v.len() - i,
    {
        if hash_eq(&v[i].hash, hash) {
            return Some(i);
        }
        i += 1;
    }
    proof {
        let pairs = utxo_pairs(v@);
        if has_key(pairs, hash@) {
            let j = index_of(pairs, hash@);
            assert(pairs[j].0 == v@[j].hash@);
        }
    }
    None
}

fn find_balance(v: &Vec<BalanceEntry>, address: &Address) -> (r: Option<usize>)
    ensures
        match r {
            Some(i) => i < v.len() && v@[i as int].address@ == address@,
            None => !has_key(balance_pairs(v@), address@),
        },
{
    let mut i: usize = 0;
    while i < v.len()
        invariant
            i <= v.len(),
            forall|j: int| 0 <= j < i ==> v@[j].address@ != address@,
        decreases v.len() - i,
    {
        if v[i].address == *address {
            return Some(i);
        }
        i += 1;
    }
    proof {
        let pairs = balance_pairs(v@);
        if has_key(pairs, address@) {
            let j = index_of(pairs, address@);
            assert(pairs[j].0 == v@[j].address@);
        }
    }
    None
}

/// The UTXO state as plain values.
pub struct StateView {
    /// The UTXOs in the order in which they are kept, each hash once.
    pub utxos: Seq<(Seq<u8>, TriangleView)>,
    /// The balance map: address to total.
    pub balances: Map<Seq<char>, Coord>,
}

impl StateView {
    /// No hash names two UTXOs.
    pub open spec fn wf(self) -> bool {
        keys_distinct(self.utxos)
    }

    /// Whether there is a UTXO under `hash`.
    pub open spec fn contains(self, hash: Seq<u8>) -> bool {
        has_key(self.utxos, hash)
    }

    /// The UTXO under `hash`; meaningful where there is one.
    pub open spec fn triangle(self, hash: Seq<u8>) -> TriangleView {
        self.utxos[index_of(self.utxos, hash)].1
    }

    /// The UTXO set as a map from hash to triangle.
    pub open spec fn utxo_map(self) -> Map<Seq<u8>, TriangleView> {
        assoc_map(self.utxos)
    }

    /// The balance of an address: zero where the map has none.
    pub open spec fn balance_of(self, address: Seq<char>) -> Coord {
        spec_balance(self.balances, address)
    }

    /// The state with `triangle` under `hash`, in place of what was there.
    pub open spec fn put(self, hash: Seq<u8>, triangle: TriangleView) -> StateView {
        StateView { utxos: list_put(self.utxos, hash, triangle), ..self }
    }

    /// The state without the UTXO under `hash`.
    pub open spec fn take(self, hash: Seq<u8>) -> StateView {
        StateView { utxos: list_take(self.utxos, hash), ..self }
    }
}

/// The balance map after `delta` is added to the balance of `address`;
/// `None` where the new balance cannot be stored.
pub open spec fn credited(balances: Map<Seq<char>, Coord>, address: Seq<char>, delta: int) -> Option<
    Map<Seq<char>, Coord>,
> {
    match coord_of(spec_balance(balances, address)@ + delta) {
        Some(balance) => Some(balances.insert(address, balance)),
        None => None,
    }
}

/// The point with both coordinates zero.
pub open spec fn origin() -> Point {
    Point { x: Coord { bits: 0 }, y: Coord { bits: 0 } }
}

/// The UTXO that a coinbase creates: a triangle without extent that
/// carries the reward as its value and belongs to the beneficiary.
pub open spec fn coinbase_triangle(tx: CoinbaseTxView) -> TriangleView {
    TriangleView {
        a: origin(),
        b: origin(),
        c: origin(),
        parent_hash: None,
        owner: tx.beneficiary_address,
        value: Some(tx.reward_area),
    }
}

/// The nonce after `nonce`; the last one is followed by zero.
pub open spec fn next_nonce(nonce: u64) -> u64 {
    if nonce == u64::MAX {
        0
    } else {
        (nonce + 1) as u64
    }
}

/// The key of the change output of a transfer: the hash of the transfer
/// that would hand `remaining` from the sender to the sender, with the
/// hash of the real transfer as its input, no fee, and the next nonce.
pub open spec fn change_key(tx: TransferTxView, tx_hash: Seq<u8>, remaining: Coord) -> Seq<u8> {
    sha256(
        transfer_hash_preimage(
            tx_hash,
            tx.sender,
            tx.sender,
            remaining,
            Coord { bits: 0 },
            next_nonce(tx.nonce),
        ),
    )
}

/// The UTXO list after each of `children` is put under its own hash, in
/// their order.
pub open spec fn put_children(
    utxos: Seq<(Seq<u8>, TriangleView)>,
    children: Seq<TriangleView>,
) -> Seq<(Seq<u8>, TriangleView)>
    decreases children.len(),
{
    if children.len() == 0 {
        utxos
    } else {
        list_put(
            put_children(utxos, children.drop_last()),
            children.last().hash(),
            children.last(),
        )
    }
}

/// The balance map after the value of each of `children` is added to the
/// balance of `owner`, in their order; `None` where a child has no value
/// or a balance on the way cannot be stored.
pub open spec fn credit_children(
    balances: Map<Seq<char>, Coord>,
    owner: Seq<char>,
    children: Seq<TriangleView>,
) -> Option<Map<Seq<char>, Coord>>
    decreases children.len(),
{
    if children.len() == 0 {
        Some(balances)
    } else {
        match (
            credit_children(balances, owner, children.drop_last()),
            children.last().effective_value(),
        ) {
            (Some(so_far), Some(value)) => credited(so_far, owner, value@),
            _ => None,
        }
    }
}

/// The error for a balance that cannot be stored.
pub open spec fn balance_overflow() -> ErrorView {
    ErrorView::InvalidTransaction("Balance overflow"@)
}

/// The error for an output whose key already names a UTXO that stays in
/// the set, or another output of the same transaction.
pub open spec fn output_taken() -> ErrorView {
    ErrorView::InvalidTransaction("Output UTXO already exists"@)
}

/// The error for a child of a subdivision that belongs to someone other
/// than the owner of the parent.
pub open spec fn foreign_child() -> ErrorView {
    ErrorView::InvalidTransaction("Subdivision child does not belong to the owner"@)
}

/// Every one of the triangles belongs to `owner`.
pub open spec fn all_owned_by(children: Seq<TriangleView>, owner: Seq<char>) -> bool {
    forall|i: int| 0 <= i < children.len() ==> (#[trigger] children[i]).owner == owner
}

/// None of the children's hashes names a UTXO of the list, and no two
/// children have the same hash.
pub open spec fn children_fresh(
    utxos: Seq<(Seq<u8>, TriangleView)>,
    children: Seq<TriangleView>,
) -> bool
    decreases children.len(),
{
    if children.len() == 0 {
        true
    } else {
        children_fresh(utxos, children.drop_last()) && !has_key(
            put_children(utxos, children.drop_last()),
            children.last().hash(),
        )
    }
}

impl StateView {
    /// The effect of a coinbase: a new UTXO under the transaction's hash,
    /// and the reward added to the beneficiary's balance. A coinbase whose
    /// hash already names a UTXO is refused.
    pub open spec fn apply_coinbase(self, tx: CoinbaseTxView) -> Result<StateView, ErrorView> {
        if self.contains(TransactionView::Coinbase(tx).hash()) {
            Err(output_taken())
        } else {
            match credited(self.balances, tx.beneficiary_address, tx.reward_area@) {
                Some(balances) => Ok(
                    StateView {
                        utxos: list_put(
                            self.utxos,
                            TransactionView::Coinbase(tx).hash(),
                            coinbase_triangle(tx),
                        ),
                        balances,
                    },
                ),
                None => Err(balance_overflow()),
            }
        }
    }

    /// The effect of a transfer. The input leaves the set and its full
    /// value the sender's balance. The recipient gets a UTXO of the same
    /// shape under the transaction's hash, worth `amount`. What is left
    /// after amount and fee goes back to the sender as a change UTXO, if it
    /// exceeds the tolerance. The fee is credited to nobody. A transfer
    /// with an output whose key names a UTXO that stays in the set, or
    /// whose two outputs have one key, is refused.
    pub open spec fn apply_transfer(self, tx: TransferTxView) -> Result<StateView, ErrorView> {
        if !self.contains(tx.input_hash) {
            Err(ErrorView::TriangleNotFound("Input UTXO not found for transfer"@))
        } else {
            let input = self.triangle(tx.input_hash);
            if input.owner != tx.sender {
                Err(ErrorView::InvalidTransaction("Sender does not own input UTXO"@))
            } else {
                match input.effective_value() {
                    None => Err(ErrorView::InvalidTransaction("Input value cannot be computed"@)),
                    Some(value) => self.transfer_value(tx, input, value),
                }
            }
        }
    }

    /// The effect of a transfer whose input `input` is worth `value`.
    pub open spec fn transfer_value(
        self,
        tx: TransferTxView,
        input: TriangleView,
        value: Coord,
    ) -> Result<StateView, ErrorView> {
        let remaining = value@ - (tx.amount@ + tx.fee_area@);
        let tx_hash = TransactionView::Transfer(tx).hash();
        let rest = list_take(self.utxos, tx.input_hash);
        let spent = list_put(rest, tx_hash, input.with_owner(tx.new_owner).with_value(tx.amount));
        if has_key(rest, tx_hash) {
            Err(output_taken())
        } else {
            match credited(self.balances, tx.sender, -value@) {
                None => Err(balance_overflow()),
                Some(debited) => match credited(debited, tx.new_owner, tx.amount@) {
                    None => Err(balance_overflow()),
                    Some(paid) => if remaining > GEOMETRIC_TOLERANCE_BITS {
                        match (coord_of(remaining), credited(paid, tx.sender, remaining)) {
                            (Some(change), Some(balances)) => if has_key(
                                spent,
                                change_key(tx, tx_hash, change),
                            ) {
                                Err(output_taken())
                            } else {
                                Ok(
                                    StateView {
                                        utxos: list_put(
                                            spent,
                                            change_key(tx, tx_hash, change),
                                            input.with_owner(tx.sender).with_value(change),
                                        ),
                                        balances,
                                    },
                                )
                            },
                            _ => Err(balance_overflow()),
                        }
                    } else {
                        Ok(StateView { utxos: spent, balances: paid })
                    },
                },
            }
        }
    }

    /// The effect of a subdivision. The parent leaves the set and its value
    /// the owner's balance; every child enters the set under its own hash
    /// and its value is added to the owner's balance. The children's values
    /// and the fee must add up to the parent's value, within the tolerance.
    /// Every child must belong to the owner, and no child may have the key
    /// of a UTXO that stays in the set or of another child.
    pub open spec fn apply_subdivision(self, tx: SubdivisionTxView) -> Result<
        StateView,
        ErrorView,
    > {
        if !self.contains(tx.parent_hash) {
            Err(ErrorView::TriangleNotFound("Parent UTXO for subdivision not found"@))
        } else {
            let parent = self.triangle(tx.parent_hash);
            if parent.owner != tx.owner_address {
                Err(
                    ErrorView::InvalidTransaction(
                        "Subdivision owner does not match parent triangle owner"@,
                    ),
                )
            } else {
                match (parent.effective_value(), children_total(tx.children)) {
                    (None, _) => Err(
                        ErrorView::InvalidTransaction("Parent value cannot be computed"@),
                    ),
                    (Some(_), None) => Err(
                        ErrorView::InvalidTransaction("Child value cannot be computed"@),
                    ),
                    (Some(value), Some(total)) => if !value_conserved(
                        value@,
                        tx.fee_area@,
                        total,
                    ) {
                        Err(ErrorView::InvalidTransaction("Value mismatch in subdivision"@))
                    } else if !all_owned_by(tx.children, tx.owner_address) {
                        Err(foreign_child())
                    } else if !children_fresh(
                        list_take(self.utxos, tx.parent_hash),
                        tx.children,
                    ) {
                        Err(output_taken())
                    } else {
                        match credited(self.balances, tx.owner_address, -value@) {
                            None => Err(balance_overflow()),
                            Some(debited) => match credit_children(
                                debited,
                                tx.owner_address,
                                tx.children,
                            ) {
                                None => Err(balance_overflow()),
                                Some(balances) => Ok(
                                    StateView {
                                        utxos: put_children(
                                            list_take(self.utxos, tx.parent_hash),
                                            tx.children,
                                        ),
                                        balances,
                                    },
                                ),
                            },
                        }
                    },
                }
            }
        }
    }

    /// The state after a transaction, or the error with which the
    /// transaction is refused.
    pub open spec fn apply(self, tx: TransactionView) -> Result<StateView, ErrorView> {
        match tx {
            TransactionView::Coinbase(tx) => self.apply_coinbase(tx),
            TransactionView::Transfer(tx) => self.apply_transfer(tx),
            TransactionView::Subdivision(tx) => self.apply_subdivision(tx),
        }
    }
}

/// What `apply_transaction` promises: on success the state that `apply`
/// gives, on failure its error and the state as it was.
pub open spec fn applied(
    before: StateView,
    after: StateView,
    r: Result<(), ChainError>,
    outcome: Result<StateView, ErrorView>,
) -> bool {
    match outcome {
        Ok(next) => r is Ok && after == next,
        Err(error) => r matches Err(e) && e@ == error && after == before,
    }
}

// ----------------------------------------------------------------------------
// Balance consistency
// ----------------------------------------------------------------------------
/// What a triangle adds to the total of `owner`: its effective value where
/// it belongs to that owner, nothing where it does not.
pub open spec fn worth_to(triangle: TriangleView, owner: Seq<char>) -> int {
    if triangle.owner == owner {
        match triangle.effective_value() {
            Some(value) => value@,
            None => 0,
        }
    } else {
        0
    }
}

/// The sum of the effective values of the UTXOs that belong to `owner`.
pub open spec fn owned_total(utxos: Seq<(Seq<u8>, TriangleView)>, owner: Seq<char>) -> int
    decreases utxos.len(),
{
    if utxos.len() == 0 {
        0
    } else {
        owned_total(utxos.drop_last(), owner) + worth_to(utxos.last().1, owner)
    }
}

/// Every UTXO of the list has an effective value that can be computed.
pub open spec fn all_valued(utxos: Seq<(Seq<u8>, TriangleView)>) -> bool {
    forall|i: int| 0 <= i < utxos.len() ==> (#[trigger] utxos[i]).1.effective_value() is Some
}

impl StateView {
    /// Balance consistency: every UTXO has a value, and the balance of
    /// every address is the sum of the effective values of the UTXOs that
    /// the address owns.
    pub open spec fn balanced(self) -> bool {
        &&& all_valued(self.utxos)
        &&& forall|address: Seq<char>|
            (#[trigger] self.balance_of(address))@ == owned_total(self.utxos, address)
    }
}

/// A pair at the end of the list adds its worth to the total.
pub proof fn lemma_owned_total_push(
    utxos: Seq<(Seq<u8>, TriangleView)>,
    hash: Seq<u8>,
    triangle: TriangleView,
    owner: Seq<char>,
)
    ensures
        owned_total(utxos.push((hash, triangle)), owner) == owned_total(utxos, owner) + worth_to(
            triangle,
            owner,
        ),
{
    assert(utxos.push((hash, triangle)).drop_last() =~= utxos);
}

/// A pair taken out of the list takes its worth out of the total.
pub proof fn lemma_owned_total_remove(
    utxos: Seq<(Seq<u8>, TriangleView)>,
    i: int,
    owner: Seq<char>,
)
    requires
        0 <= i < utxos.len(),
    ensures
        owned_total(utxos.remove(i), owner) == owned_total(utxos, owner) - worth_to(
            utxos[i].1,
            owner,
        ),
    decreases utxos.len(),
{
    if i == utxos.len() - 1 {
        assert(utxos.remove(i) =~= utxos.drop_last());
    } else {
        lemma_owned_total_remove(utxos.drop_last(), i, owner);
        assert(utxos.remove(i).drop_last() =~= utxos.drop_last().remove(i));
        assert(utxos.remove(i).last() == utxos.last());
    }
}

/// Where the children have a sum of values, each of them has a value.
pub proof fn lemma_children_valued(children: Seq<TriangleView>, i: int)
    requires
        children_total(children) is Some,
        0 <= i < children.len(),
    ensures
        children[i].effective_value() is Some,
    decreases children.len(),
{
    if i < children.len() - 1 {
        lemma_children_valued(children.drop_last(), i);
    }
}

/// Putting fresh children that all belong to `owner` into the set, and
/// crediting their values to `owner`, moves every balance and every total
/// by the same amount.
proof fn lemma_children_keep_balance(
    utxos: Seq<(Seq<u8>, TriangleView)>,
    balances: Map<Seq<char>, Coord>,
    owner: Seq<char>,
    children: Seq<TriangleView>,
)
    requires
        keys_distinct(utxos),
        all_valued(utxos),
        children_fresh(utxos, children),
        all_owned_by(children, owner),
        credit_children(balances, owner, children) is Some,
    ensures
        keys_distinct(put_children(utxos, children)),
        all_valued(put_children(utxos, children)),
        forall|address: Seq<char>|
            spec_balance(
                #[trigger] credit_children(balances, owner, children).unwrap(),
                address,
            )@ - spec_balance(balances, address)@ == owned_total(
                put_children(utxos, children),
                address,
            ) - owned_total(utxos, address),
    decreases children.len(),
{
    if children.len() > 0 {
        let front = children.drop_last();
        let last = children.last();
        assert(all_owned_by(front, owner)) by {
            assert forall|i: int| 0 <= i < front.len() implies (#[trigger] front[i]).owner
                == owner by {
                assert(front[i] == children[i]);
            }
        }
        lemma_children_keep_balance(utxos, balances, owner, front);
        let so_far = put_children(utxos, front);
        let credited_so_far = credit_children(balances, owner, front).unwrap();
        lemma_assoc_push(so_far, last.hash(), last);
        let after = put_children(utxos, children);
        assert(after == so_far.push((last.hash(), last)));
        assert(last == children[children.len() - 1]);
        assert(all_valued(after)) by {
            assert forall|i: int| 0 <= i < after.len() implies (#[trigger] after[i]).1.effective_value() is Some by {
                if i < so_far.len() {
                    assert(after[i] == so_far[i]);
                }
            }
        }
        assert forall|address: Seq<char>|
            spec_balance(
                #[trigger] credit_children(balances, owner, children).unwrap(),
                address,
            )@ - spec_balance(balances, address)@ == owned_total(after, address) - owned_total(
                utxos,
                address,
            ) by {
            lemma_owned_total_push(so_far, last.hash(), last, address);
            assert(spec_balance(credited_so_far, address)@ - spec_balance(balances, address)@
                == owned_total(so_far, address) - owned_total(utxos, address));
        }
    }
}

/// Balance consistency holds of the state without UTXOs and balances.
pub proof fn lemma_empty_state_balanced(state: StateView)
    requires
        state.utxos.len() == 0,
        state.balances == Map::<Seq<char>, Coord>::empty(),
    ensures
        state.balanced(),
{
}

/// What taking a UTXO out does to the list and to every total.
proof fn lemma_take_effect(utxos: Seq<(Seq<u8>, TriangleView)>, key: Seq<u8>)
    requires
        keys_distinct(utxos),
        all_valued(utxos),
        has_key(utxos, key),
    ensures
        keys_distinct(list_take(utxos, key)),
        all_valued(list_take(utxos, key)),
        !has_key(list_take(utxos, key), key),
        forall|address: Seq<char>|
            #[trigger] owned_total(list_take(utxos, key), address) == owned_total(utxos, address)
                - worth_to(utxos[index_of(utxos, key)].1, address),
{
    let i = index_of(utxos, key);
    let rest = utxos.remove(i);
    lemma_assoc_remove(utxos, i);
    assert forall|k: int| 0 <= k < rest.len() implies (
    #[trigger] rest[k]).1.effective_value() is Some by {
        let from = if k < i {
            k
        } else {
            k + 1
        };
        assert(rest[k] == utxos[from]);
    }
    assert forall|address: Seq<char>|
        #[trigger] owned_total(rest, address) == owned_total(utxos, address) - worth_to(
            utxos[i].1,
            address,
        ) by {
        lemma_owned_total_remove(utxos, i, address);
    }
}

/// After a key is taken out, the list holds every other key that it held
/// and no more.
pub proof fn lemma_take_keys<V>(list: Seq<(Seq<u8>, V)>, key: Seq<u8>, other: Seq<u8>)
    requires
        keys_distinct(list),
    ensures
        has_key(list_take(list, key), other) <==> other != key && has_key(list, other),
{
    lemma_assoc_map_dom(list, other);
    lemma_assoc_map_dom(list_take(list, key), other);
    if has_key(list, key) {
        let i = index_of(list, key);
        lemma_assoc_remove(list, i);
    }
}

/// What putting a valued triangle under a new key does to the list and to
/// every total.
proof fn lemma_put_fresh_effect(
    utxos: Seq<(Seq<u8>, TriangleView)>,
    key: Seq<u8>,
    triangle: TriangleView,
)
    requires
        keys_distinct(utxos),
        all_valued(utxos),
        !has_key(utxos, key),
        triangle.effective_value() is Some,
    ensures
        list_put(utxos, key, triangle) == utxos.push((key, triangle)),
        keys_distinct(list_put(utxos, key, triangle)),
        all_valued(list_put(utxos, key, triangle)),
        forall|address: Seq<char>|
            #[trigger] owned_total(list_put(utxos, key, triangle), address) == owned_total(
                utxos,
                address,
            ) + worth_to(triangle, address),
        forall|other: Seq<u8>|
            other != key && !has_key(utxos, other) ==> !#[trigger] has_key(
                list_put(utxos, key, triangle),
                other,
            ),
{
    let after = utxos.push((key, triangle));
    lemma_assoc_push(utxos, key, triangle);
    assert forall|k: int| 0 <= k < after.len() implies (
    #[trigger] after[k]).1.effective_value() is Some by {
        if k < utxos.len() {
            assert(after[k] == utxos[k]);
        }
    }
    assert forall|address: Seq<char>|
        #[trigger] owned_total(after, address) == owned_total(utxos, address) + worth_to(
            triangle,
            address,
        ) by {
        lemma_owned_total_push(utxos, key, triangle, address);
    }
    assert forall|other: Seq<u8>| other != key && !has_key(utxos, other) implies !#[trigger] has_key(
        after,
        other,
    ) by {
        if has_key(after, other) {
            let k = index_of(after, other);
            if k < utxos.len() {
                assert(utxos[k].0 == other);
            }
        }
    }
}

proof fn lemma_coinbase_keeps_balance(state: StateView, tx: CoinbaseTxView)
    requires
        state.wf(),
        state.balanced(),
        state.apply_coinbase(tx) is Ok,
    ensures
        state.apply_coinbase(tx) matches Ok(next) && next.wf() && next.balanced(),
{
    let next = state.apply_coinbase(tx)->Ok_0;
    lemma_put_fresh_effect(state.utxos, TransactionView::Coinbase(tx).hash(), coinbase_triangle(tx));
    assert forall|address: Seq<char>|
        (#[trigger] next.balance_of(address))@ == owned_total(next.utxos, address) by {
        assert(state.balance_of(address)@ == owned_total(state.utxos, address));
    }
}

proof fn lemma_transfer_keeps_balance(state: StateView, tx: TransferTxView)
    requires
        state.wf(),
        state.balanced(),
        state.apply_transfer(tx) is Ok,
    ensures
        state.apply_transfer(tx) matches Ok(next) && next.wf() && next.balanced(),
{
    let next = state.apply_transfer(tx)->Ok_0;
    let tx_hash = TransactionView::Transfer(tx).hash();
    let i = index_of(state.utxos, tx.input_hash);
    let input = state.utxos[i].1;
    let value = input.effective_value().unwrap();
    let remaining = value@ - (tx.amount@ + tx.fee_area@);
    let rest = list_take(state.utxos, tx.input_hash);
    lemma_take_effect(state.utxos, tx.input_hash);
    let paid_triangle = input.with_owner(tx.new_owner).with_value(tx.amount);
    lemma_put_fresh_effect(rest, tx_hash, paid_triangle);
    let spent = list_put(rest, tx_hash, paid_triangle);
    if remaining > GEOMETRIC_TOLERANCE_BITS {
        let change = Coord { bits: remaining as i64 };
        let key = change_key(tx, tx_hash, change);
        let change_triangle = input.with_owner(tx.sender).with_value(change);
        assert(!has_key(spent, key));
        lemma_put_fresh_effect(spent, key, change_triangle);
        assert forall|address: Seq<char>|
            (#[trigger] next.balance_of(address))@ == owned_total(next.utxos, address) by {
            assert(state.balance_of(address)@ == owned_total(state.utxos, address));
            assert(owned_total(rest, address) == owned_total(state.utxos, address) - worth_to(
                input,
                address,
            ));
            assert(owned_total(spent, address) == owned_total(rest, address) + worth_to(
                paid_triangle,
                address,
            ));
            assert(owned_total(next.utxos, address) == owned_total(spent, address) + worth_to(
                change_triangle,
                address,
            ));
        }
    } else {
        assert forall|address: Seq<char>|
            (#[trigger] next.balance_of(address))@ == owned_total(next.utxos, address) by {
            assert(state.balance_of(address)@ == owned_total(state.utxos, address));
            assert(owned_total(rest, address) == owned_total(state.utxos, address) - worth_to(
                input,
                address,
            ));
            assert(owned_total(spent, address) == owned_total(rest, address) + worth_to(
                paid_triangle,
                address,
            ));
        }
    }
}

proof fn lemma_subdivision_keeps_balance(state: StateView, tx: SubdivisionTxView)
    requires
        state.wf(),
        state.balanced(),
        state.apply_subdivision(tx) is Ok,
    ensures
        state.apply_subdivision(tx) matches Ok(next) && next.wf() && next.balanced(),
{
    let next = state.apply_subdivision(tx)->Ok_0;
    let i = index_of(state.utxos, tx.parent_hash);
    let parent = state.utxos[i].1;
    let value = parent.effective_value().unwrap();
    let rest = list_take(state.utxos, tx.parent_hash);
    lemma_take_effect(state.utxos, tx.parent_hash);
    let debited = credited(state.balances, tx.owner_address, -value@).unwrap();
    lemma_children_keep_balance(rest, debited, tx.owner_address, tx.children);
    let after = credit_children(debited, tx.owner_address, tx.children).unwrap();
    assert(next.balances == after);
    assert forall|address: Seq<char>|
        (#[trigger] next.balance_of(address))@ == owned_total(next.utxos, address) by {
        assert(state.balance_of(address)@ == owned_total(state.utxos, address));
        assert(owned_total(rest, address) == owned_total(state.utxos, address) - worth_to(
            parent,
            address,
        ));
        assert(spec_balance(after, address)@ - spec_balance(debited, address)@ == owned_total(
            next.utxos,
            address,
        ) - owned_total(rest, address));
    }
}

/// Balance consistency is kept by every transaction that is applied:
/// afterwards too, the balance of every address is the sum of the
/// effective values of the UTXOs it owns.
pub proof fn lemma_apply_keeps_balance(state: StateView, tx: TransactionView)
    requires
        state.wf(),
        state.balanced(),
        state.apply(tx) is Ok,
    ensures
        state.apply(tx) matches Ok(next) && next.wf() && next.balanced(),
{
    match tx {
        TransactionView::Coinbase(coinbase) => lemma_coinbase_keeps_balance(state, coinbase),
        TransactionView::Transfer(transfer) => lemma_transfer_keeps_balance(state, transfer),
        TransactionView::Subdivision(subdivision) => lemma_subdivision_keeps_balance(
            state,
            subdivision,
        ),
    }
}

/// The number of UTXOs that a transaction takes out of the set: none for
/// a coinbase, its input for a transfer, its parent for a subdivision.
pub open spec fn consumed_count(tx: TransactionView) -> nat {
    match tx {
        TransactionView::Coinbase(_) => 0,
        _ => 1,
    }
}

/// The number of UTXOs that a transaction puts into the set of `state`:
/// one for a coinbase; for a transfer the recipient's, and the change
/// where what is left of the input exceeds the tolerance; for a
/// subdivision its children.
pub open spec fn created_count(state: StateView, tx: TransactionView) -> nat {
    match tx {
        TransactionView::Coinbase(_) => 1,
        TransactionView::Transfer(transfer) => match state.triangle(
            transfer.input_hash,
        ).effective_value() {
            Some(value) if value@ - (transfer.amount@ + transfer.fee_area@)
                > GEOMETRIC_TOLERANCE_BITS => 2,
            _ => 1,
        },
        TransactionView::Subdivision(subdivision) => subdivision.children.len(),
    }
}

/// Children that are new to the list make it longer by their number.
proof fn lemma_put_children_len(utxos: Seq<(Seq<u8>, TriangleView)>, children: Seq<TriangleView>)
    requires
        children_fresh(utxos, children),
    ensures
        put_children(utxos, children).len() == utxos.len() + children.len(),
    decreases children.len(),
{
    if children.len() > 0 {
        lemma_put_children_len(utxos, children.drop_last());
    }
}

/// UTXO accounting: a transaction that is applied takes what it consumes
/// out of the set and puts every one of its outputs in under a key of its
/// own, so the set changes its size by the difference of the two numbers.
pub proof fn lemma_apply_counts(state: StateView, tx: TransactionView)
    requires
        state.wf(),
        state.apply(tx) is Ok,
    ensures
        state.apply(tx) matches Ok(next) && next.utxos.len() == state.utxos.len() - consumed_count(
            tx,
        ) + created_count(state, tx),
{
    match tx {
        TransactionView::Coinbase(_) => {},
        TransactionView::Transfer(transfer) => {},
        TransactionView::Subdivision(subdivision) => {
            lemma_put_children_len(
                list_take(state.utxos, subdivision.parent_hash),
                subdivision.children,
            );
        },
    }
}

/// Subdivision conservation: where a subdivision is applied, the values
/// of its children and its fee add up to the value of the parent, within
/// the tolerance.
pub proof fn lemma_subdivision_conserves(state: StateView, tx: SubdivisionTxView)
    requires
        state.apply_subdivision(tx) is Ok,
    ensures
        state.contains(tx.parent_hash),
        state.triangle(tx.parent_hash).effective_value() matches Some(value) && children_total(
            tx.children,
        ) matches Some(total) && value_conserved(value@, tx.fee_area@, total),
{
}

/// The balance map that is rebuilt from a UTXO list alone: starting from
/// no balances, every UTXO in turn adds its effective value to the balance
/// of its owner. `None` where a UTXO has no value that can be computed, or
/// a balance on the way cannot be stored.
pub open spec fn rebuilt_balances(utxos: Seq<(Seq<u8>, TriangleView)>) -> Option<
    Map<Seq<char>, Coord>,
>
    decreases utxos.len(),
{
    if utxos.len() == 0 {
        Some(Map::empty())
    } else {
        match (rebuilt_balances(utxos.drop_last()), utxos.last().1.effective_value()) {
            (Some(so_far), Some(value)) => credited(so_far, utxos.last().1.owner, value@),
            _ => None,
        }
    }
}

/// Where the balances of some of the UTXOs cannot be rebuilt, those of all
/// of them cannot.
proof fn lemma_rebuilt_prefix(utxos: Seq<(Seq<u8>, TriangleView)>, n: int)
    requires
        0 <= n <= utxos.len(),
        rebuilt_balances(utxos.take(n)) is None,
    ensures
        rebuilt_balances(utxos) is None,
    decreases utxos.len() - n,
{
    if n < utxos.len() {
        assert(utxos.take(n + 1).drop_last() =~= utxos.take(n));
        lemma_rebuilt_prefix(utxos, n + 1);
    } else {
        assert(utxos.take(n) =~= utxos);
    }
}

/// Balances that were rebuilt from the UTXO set are consistent with it.
pub proof fn lemma_rebuilt_balanced(utxos: Seq<(Seq<u8>, TriangleView)>)
    requires
        rebuilt_balances(utxos) is Some,
    ensures
        (StateView { utxos, balances: rebuilt_balances(utxos).unwrap() }).balanced(),
    decreases utxos.len(),
{
    let state = StateView { utxos, balances: rebuilt_balances(utxos).unwrap() };
    if utxos.len() > 0 {
        let front = utxos.drop_last();
        lemma_rebuilt_balanced(front);
        let before = StateView { utxos: front, balances: rebuilt_balances(front).unwrap() };
        assert(all_valued(utxos)) by {
            assert forall|i: int| 0 <= i < utxos.len() implies (
            #[trigger] utxos[i]).1.effective_value() is Some by {
                if i < front.len() {
                    assert(utxos[i] == front[i]);
                }
            }
        }
        assert forall|address: Seq<char>|
            (#[trigger] state.balance_of(address))@ == owned_total(utxos, address) by {
            assert(before.balance_of(address)@ == owned_total(front, address));
        }
    }
}

/// The state of all unspent triangles (UTXOs) and the balances derived
/// from them.
#[derive(Debug)]
pub struct TriangleState {
    /// The UTXO set: one entry for each hash.
    utxo_set: Vec<UtxoEntry>,
    /// Derived balances: one entry for each address.
    address_balances: Vec<BalanceEntry>,
}

impl View for TriangleState {
    type V = StateView;

    closed spec fn view(&self) -> StateView {
        StateView {
            utxos: utxo_pairs(self.utxo_set@),
            balances: assoc_map(balance_pairs(self.address_balances@)),
        }
    }
}

impl Clone for TriangleState {
    fn clone(&self) -> (state: TriangleState)
        ensures
            state@ == self@,
    {
        proof {
            use_type_invariant(self);
        }
        let mut utxo_set: Vec<UtxoEntry> = Vec::new();
        let mut i: usize = 0;
        while i < self.utxo_set.len()
            invariant
                i <= self.utxo_set.len(),
                utxo_set@ == self.utxo_set@.subrange(0, i as int),
            decreases self.utxo_set.len() - i,
        {
            utxo_set.push(self.utxo_set[i].clone());
            assert(utxo_set@ =~= self.utxo_set@.subrange(0, i + 1));
            i += 1;
        }
        assert(utxo_set@ =~= self.utxo_set@);
        let mut address_balances: Vec<BalanceEntry> = Vec::new();
        let mut j: usize = 0;
        while j < self.address_balances.len()
            invariant
                j <= self.address_balances.len(),
                address_balances@ == self.address_balances@.subrange(0, j as int),
            decreases self.address_balances.len() - j,
        {
            address_balances.push(self.address_balances[j].clone());
            assert(address_balances@ =~= self.address_balances@.subrange(0, j + 1));
            j += 1;
        }
        assert(address_balances@ =~= self.address_balances@);
        TriangleState { utxo_set, address_balances }
    }
}

impl TriangleState {
    #[verifier::type_invariant]
    spec fn inv(&self) -> bool {
        &&& keys_distinct(utxo_pairs(self.utxo_set@))
        &&& keys_distinct(balance_pairs(self.address_balances@))
    }

    /// Creates a new, empty state.
    pub fn new() -> (state: TriangleState)
        ensures
            state@.utxos == Seq::<(Seq<u8>, TriangleView)>::empty(),
            state@.balances == Map::<Seq<char>, Coord>::empty(),
    {
        let state = TriangleState { utxo_set: Vec::new(), address_balances: Vec::new() };
        assert(state@.utxos =~= Seq::<(Seq<u8>, TriangleView)>::empty());
        assert(balance_pairs(state.address_balances@) =~= Seq::<(Seq<char>, Coord)>::empty());
        state
    }

    /// The number of UTXOs.
    pub fn utxo_count(&self) -> (n: usize)
        ensures
            self@.wf(),
            n == self@.utxos.len(),
            n == self@.utxo_map().dom().len(),
    {
        proof {
            use_type_invariant(self);
            lemma_assoc_len(self@.utxos);
        }
        self.utxo_set.len()
    }

    /// The UTXO with the given hash.
    pub fn get_utxo(&self, hash: &Sha256Hash) -> (r: Option<&Triangle>)
        ensures
            self@.wf(),
            match r {
                Some(t) => self@.contains(hash@) && t@ == self@.triangle(hash@),
                None => !self@.contains(hash@),
            },
    {
        proof {
            use_type_invariant(self);
        }
        match find_utxo(&self.utxo_set, hash) {
            Some(i) => {
                proof {
                    lemma_index_of_at(self@.utxos, i as int);
                }
                Some(&self.utxo_set[i].triangle)
            },
            None => None,
        }
    }

    /// Whether there is a UTXO with the given hash.
    pub fn contains_utxo(&self, hash: &Sha256Hash) -> (found: bool)
        ensures
            found == self@.contains(hash@),
    {
        self.get_utxo(hash).is_some()
    }

    /// The hash and the triangle of the UTXO at place `i`.
    pub fn utxo_at(&self, i: usize) -> (r: (&Sha256Hash, &Triangle))
        requires
            i < self@.utxos.len(),
        ensures
            self@.utxos[i as int] == (r.0@, r.1@),
    {
        (&self.utxo_set[i].hash, &self.utxo_set[i].triangle)
    }

    /// The total that the balance map holds for an address.
    pub fn get_balance(&self, address: &Address) -> (balance: Coord)
        ensures
            balance == self@.balance_of(address@),
    {
        proof {
            use_type_invariant(self);
            lemma_assoc_map_dom(balance_pairs(self.address_balances@), address@);
        }
        match find_balance(&self.address_balances, address) {
            Some(i) => {
                proof {
                    lemma_assoc_map_at(balance_pairs(self.address_balances@), i as int);
                }
                self.address_balances[i].balance
            },
            None => Coord { bits: 0 },
        }
    }

    /// Puts a triangle into the UTXO set under `hash`, in place of the one
    /// that was there, if any. The balances stay as they are.
    pub fn insert_utxo(&mut self, hash: Sha256Hash, triangle: Triangle)
        ensures
            final(self)@ == old(self)@.put(hash@, triangle@),
            final(self)@.wf(),
    {
        proof {
            use_type_invariant(&*self);
        }
        let mut set: Vec<UtxoEntry> = Vec::new();
        core::mem::swap(&mut self.utxo_set, &mut set);
        utxo_put(&mut set, hash, triangle);
        self.utxo_set = set;
    }

    /// Takes the triangle under `hash` out of the UTXO set and returns it.
    /// The balances stay as they are.
    pub fn remove_utxo(&mut self, hash: &Sha256Hash) -> (r: Option<Triangle>)
        ensures
            final(self)@ == old(self)@.take(hash@),
            final(self)@.wf(),
            match r {
                Some(t) => old(self)@.contains(hash@) && t@ == old(self)@.triangle(hash@),
                None => !old(self)@.contains(hash@),
            },
    {
        proof {
            use_type_invariant(&*self);
        }
        let mut set: Vec<UtxoEntry> = Vec::new();
        core::mem::swap(&mut self.utxo_set, &mut set);
        let r = utxo_take(&mut set, hash);
        self.utxo_set = set;
        r
    }

    /// Sets the balance that the map holds for an address. The UTXO set
    /// stays as it is.
    pub fn set_balance(&mut self, address: Address, balance: Coord)
        ensures
            final(self)@ == (StateView {
                balances: old(self)@.balances.insert(address@, balance),
                ..old(self)@
            }),
    {
        proof {
            use_type_invariant(&*self);
        }
        let mut map: Vec<BalanceEntry> = Vec::new();
        core::mem::swap(&mut self.address_balances, &mut map);
        balance_put(&mut map, address, balance);
        self.address_balances = map;
    }

    /// Applies a coinbase whose hash is `tx_hash`.
    fn apply_coinbase(&mut self, tx: &CoinbaseTx, tx_hash: Sha256Hash) -> (r: Result<
        (),
        ChainError,
    >)
        requires
            tx_hash@ == TransactionView::Coinbase(tx@).hash(),
        ensures
            applied(old(self)@, final(self)@, r, old(self)@.apply_coinbase(tx@)),
            final(self)@.wf(),
    {
        proof {
            use_type_invariant(&*self);
        }
        if self.contains_utxo(&tx_hash) {
            return Err(ChainError::InvalidTransaction("Output UTXO already exists".to_owned()));
        }
        let balance = match self.get_balance(&tx.beneficiary_address).checked_add(tx.reward_area) {
            Some(b) => b,
            None => {
                return Err(ChainError::InvalidTransaction("Balance overflow".to_owned()));
            },
        };
        let origin = Point { x: Coord { bits: 0 }, y: Coord { bits: 0 } };
        let triangle = Triangle {
            a: origin,
            b: origin,
            c: origin,
            parent_hash: None,
            owner: tx.beneficiary_address.clone(),
            value: Some(tx.reward_area),
        };
        self.insert_utxo(tx_hash, triangle);
        self.set_balance(tx.beneficiary_address.clone(), balance);
        Ok(())
    }

    /// Applies a transfer whose hash is `tx_hash`.
    fn apply_transfer(&mut self, tx: &TransferTx, tx_hash: Sha256Hash) -> (r: Result<
        (),
        ChainError,
    >)
        requires
            tx_hash@ == TransactionView::Transfer(tx@).hash(),
        ensures
            applied(old(self)@, final(self)@, r, old(self)@.apply_transfer(tx@)),
            final(self)@.wf(),
    {
        proof {
            use_type_invariant(&*self);
        }
        let input = match self.get_utxo(&tx.input_hash) {
            Some(t) => t.clone(),
            None => {
                return Err(
                    ChainError::TriangleNotFound("Input UTXO not found for transfer".to_owned()),
                );
            },
        };
        if input.owner != tx.sender {
            return Err(ChainError::InvalidTransaction("Sender does not own input UTXO".to_owned()));
        }
        let value = match input.checked_effective_value() {
            Some(v) => v,
            None => {
                return Err(
                    ChainError::InvalidTransaction("Input value cannot be computed".to_owned()),
                );
            },
        };
        let remaining: i128 = value.bits as i128 - (tx.amount.bits as i128
            + tx.fee_area.bits as i128);
        let ghost rest = list_take(self@.utxos, tx.input_hash@);
        proof {
            lemma_take_keys(self@.utxos, tx.input_hash@, tx_hash@);
        }
        if !hash_eq(&tx_hash, &tx.input_hash) && self.contains_utxo(&tx_hash) {
            return Err(ChainError::InvalidTransaction("Output UTXO already exists".to_owned()));
        }
        let debited = match self.get_balance(&tx.sender).checked_sub(value) {
            Some(b) => b,
            None => {
                return Err(ChainError::InvalidTransaction("Balance overflow".to_owned()));
            },
        };
        let recipient_before = if tx.new_owner == tx.sender {
            debited
        } else {
            self.get_balance(&tx.new_owner)
        };
        let paid = match recipient_before.checked_add(tx.amount) {
            Some(b) => b,
            None => {
                return Err(ChainError::InvalidTransaction("Balance overflow".to_owned()));
            },
        };
        let ghost balances_debited = self@.balances.insert(tx.sender@, debited);
        let ghost balances_paid = balances_debited.insert(tx.new_owner@, paid);
        assert(credited(self@.balances, tx.sender@, -value@) == Some(balances_debited));
        assert(credited(balances_debited, tx.new_owner@, tx.amount@) == Some(balances_paid));
        if remaining > GEOMETRIC_TOLERANCE_BITS as i128 {
            if remaining > i64::MAX as i128 {
                return Err(ChainError::InvalidTransaction("Balance overflow".to_owned()));
            }
            let change = Coord { bits: remaining as i64 };
            let sender_before = if tx.new_owner == tx.sender {
                paid
            } else {
                debited
            };
            let refunded = match sender_before.checked_add(change) {
                Some(b) => b,
                None => {
                    return Err(ChainError::InvalidTransaction("Balance overflow".to_owned()));
                },
            };
            assert(credited(balances_paid, tx.sender@, remaining as int) == Some(
                balances_paid.insert(tx.sender@, refunded),
            ));
            let next = if tx.nonce == u64::MAX {
                0
            } else {
                tx.nonce + 1
            };
            let change_hash = transfer_hash(
                &tx_hash,
                &tx.sender,
                &tx.sender,
                change,
                Coord { bits: 0 },
                next,
            );
            proof {
                lemma_take_keys(self@.utxos, tx.input_hash@, change_hash@);
                lemma_assoc_push(
                    rest,
                    tx_hash@,
                    input@.with_owner(tx.new_owner@).with_value(tx.amount),
                );
                lemma_assoc_map_dom(rest, change_hash@);
                lemma_assoc_map_dom(
                    rest.push((tx_hash@, input@.with_owner(tx.new_owner@).with_value(tx.amount))),
                    change_hash@,
                );
            }
            if hash_eq(&change_hash, &tx_hash) || (!hash_eq(&change_hash, &tx.input_hash)
                && self.contains_utxo(&change_hash)) {
                return Err(ChainError::InvalidTransaction("Output UTXO already exists".to_owned()));
            }
            let change_triangle = input.clone().change_owner(
                tx.sender.clone(),
            ).with_effective_value(change);
            let _ = self.remove_utxo(&tx.input_hash);
            self.insert_utxo(
                tx_hash,
                input.change_owner(tx.new_owner.clone()).with_effective_value(tx.amount),
            );
            self.insert_utxo(change_hash, change_triangle);
            self.set_balance(tx.sender.clone(), debited);
            self.set_balance(tx.new_owner.clone(), paid);
            self.set_balance(tx.sender.clone(), refunded);
        } else {
            let _ = self.remove_utxo(&tx.input_hash);
            self.insert_utxo(
                tx_hash,
                input.change_owner(tx.new_owner.clone()).with_effective_value(tx.amount),
            );
            self.set_balance(tx.sender.clone(), debited);
            self.set_balance(tx.new_owner.clone(), paid);
        }
        Ok(())
    }

    /// Applies a subdivision.
    fn apply_subdivision(&mut self, tx: &SubdivisionTx) -> (r: Result<(), ChainError>)
        ensures
            applied(old(self)@, final(self)@, r, old(self)@.apply_subdivision(tx@)),
            final(self)@.wf(),
    {
        proof {
            use_type_invariant(&*self);
        }
        let parent = match self.get_utxo(&tx.parent_hash) {
            Some(t) => t,
            None => {
                return Err(
                    ChainError::TriangleNotFound(
                        "Parent UTXO for subdivision not found".to_owned(),
                    ),
                );
            },
        };
        if parent.owner != tx.owner_address {
            return Err(
                ChainError::InvalidTransaction(
                    "Subdivision owner does not match parent triangle owner".to_owned(),
                ),
            );
        }
        let value = match parent.checked_effective_value() {
            Some(v) => v,
            None => {
                return Err(
                    ChainError::InvalidTransaction("Parent value cannot be computed".to_owned()),
                );
            },
        };
        let total = match sum_values(&tx.children) {
            Some(t) => t,
            None => {
                return Err(
                    ChainError::InvalidTransaction("Child value cannot be computed".to_owned()),
                );
            },
        };
        let expected: i128 = value.bits as i128 - tx.fee_area.bits as i128;
        if total < expected - GEOMETRIC_TOLERANCE_BITS as i128 || total > expected
            + GEOMETRIC_TOLERANCE_BITS as i128 {
            return Err(ChainError::InvalidTransaction("Value mismatch in subdivision".to_owned()));
        }
        if !owned_by_all(&tx.children, &tx.owner_address) {
            return Err(
                ChainError::InvalidTransaction(
                    "Subdivision child does not belong to the owner".to_owned(),
                ),
            );
        }
        let divided = match self.with_children(&tx.parent_hash, &tx.children) {
            Some(state) => state,
            None => {
                return Err(ChainError::InvalidTransaction("Output UTXO already exists".to_owned()));
            },
        };
        let debited = match self.get_balance(&tx.owner_address).checked_sub(value) {
            Some(b) => b,
            None => {
                return Err(ChainError::InvalidTransaction("Balance overflow".to_owned()));
            },
        };
        let ghost balances_debited = self@.balances.insert(tx.owner_address@, debited);
        assert(credited(self@.balances, tx.owner_address@, -value@) == Some(balances_debited));
        let balance = match credit_values(
            debited,
            &tx.children,
            Ghost(balances_debited),
            Ghost(tx.owner_address@),
        ) {
            Some(b) => b,
            None => {
                return Err(ChainError::InvalidTransaction("Balance overflow".to_owned()));
            },
        };
        *self = divided;
        self.set_balance(tx.owner_address.clone(), balance);
        proof {
            use_type_invariant(&*self);
        }
        assert(self@.balances =~= balances_debited.insert(tx.owner_address@, balance));
        Ok(())
    }

    /// The state with the UTXO under `parent_hash` taken out and each of
    /// `children` put in under its own hash; `None` where a child has the
    /// key of a UTXO that stays or of a child before it.
    fn with_children(&self, parent_hash: &Sha256Hash, children: &Vec<Triangle>) -> (r: Option<
        TriangleState,
    >)
        ensures
            match r {
                Some(next) => children_fresh(
                    list_take(self@.utxos, parent_hash@),
                    triangles_view(children@),
                ) && next@ == (StateView {
                    utxos: put_children(
                        list_take(self@.utxos, parent_hash@),
                        triangles_view(children@),
                    ),
                    ..self@
                }),
                None => !children_fresh(
                    list_take(self@.utxos, parent_hash@),
                    triangles_view(children@),
                ),
            },
    {
        let ghost all = triangles_view(children@);
        let ghost rest = list_take(self@.utxos, parent_hash@);
        let mut scratch = self.clone();
        let _ = scratch.remove_utxo(parent_hash);
        let mut i: usize = 0;
        assert(all.take(0) =~= Seq::<TriangleView>::empty());
        while i < children.len()
            invariant
                i <= children.len(),
                all == triangles_view(children@),
                rest == list_take(self@.utxos, parent_hash@),
                children_fresh(rest, all.take(i as int)),
                scratch@ == (StateView { utxos: put_children(rest, all.take(i as int)), ..self@ }),
            decreases children.len() - i,
        {
            proof {
                assert(all.take(i + 1).drop_last() =~= all.take(i as int));
                assert(all.take(i + 1).last() == children@[i as int]@);
            }
            let child = children[i].clone();
            let hash = child.hash();
            if scratch.contains_utxo(&hash) {
                proof {
                    lemma_children_fresh_prefix(rest, all, i + 1);
                }
                return None;
            }
            scratch.insert_utxo(hash, child);
            i += 1;
        }
        assert(all.take(i as int) =~= all);
        Some(scratch)
    }

    /// Rebuilds the balance map from the UTXO set alone, as after loading
    /// a snapshot. Fails, and leaves the state as it was, where a UTXO has
    /// no value that can be computed or a balance cannot be stored.
    pub fn rebuild_address_balances(&mut self) -> (r: Result<(), ChainError>)
        ensures
            match rebuilt_balances(old(self)@.utxos) {
                Some(balances) => r is Ok && final(self)@ == (StateView {
                    balances,
                    ..old(self)@
                }) && final(self)@.balanced(),
                None => r matches Err(e) && e@ == ErrorView::InternalError(
                    "Balances cannot be rebuilt"@,
                ) && final(self)@ == old(self)@,
            },
    {
        proof {
            use_type_invariant(&*self);
        }
        let ghost utxos = self@.utxos;
        let mut map: Vec<BalanceEntry> = Vec::new();
        let mut i: usize = 0;
        proof {
            assert(utxos.take(0) =~= Seq::<(Seq<u8>, TriangleView)>::empty());
            assert(balance_pairs(map@) =~= Seq::<(Seq<char>, Coord)>::empty());
        }
        while i < self.utxo_set.len()
            invariant
                i <= self.utxo_set.len(),
                utxos == utxo_pairs(self.utxo_set@),
                keys_distinct(balance_pairs(map@)),
                rebuilt_balances(utxos.take(i as int)) == Some(assoc_map(balance_pairs(map@))),
            decreases self.utxo_set.len() - i,
        {
            proof {
                assert(utxos.take(i + 1).drop_last() =~= utxos.take(i as int));
                assert(utxos.take(i + 1).last() == utxos[i as int]);
                lemma_assoc_map_dom(balance_pairs(map@), self.utxo_set@[i as int].triangle.owner@);
            }
            let triangle = &self.utxo_set[i].triangle;
            let before = match find_balance(&map, &triangle.owner) {
                Some(k) => {
                    proof {
                        lemma_assoc_map_at(balance_pairs(map@), k as int);
                    }
                    map[k].balance
                },
                None => Coord { bits: 0 },
            };
            let next = match triangle.checked_effective_value() {
                Some(v) => before.checked_add(v),
                None => None,
            };
            match next {
                Some(balance) => {
                    balance_put(&mut map, triangle.owner.clone(), balance);
                },
                None => {
                    proof {
                        lemma_rebuilt_prefix(utxos, i + 1);
                    }
                    return Err(ChainError::InternalError("Balances cannot be rebuilt".to_owned()));
                },
            }
            i += 1;
        }
        proof {
            assert(utxos.take(i as int) =~= utxos);
            lemma_rebuilt_balanced(utxos);
        }
        self.address_balances = map;
        Ok(())
    }

    /// Updates the UTXO set and the balances by one transaction. Either
    /// the whole effect of the transaction takes place, or the transaction
    /// is refused and the state stays exactly as it was. Balances that
    /// agreed with the UTXO set before agree with it afterwards. A
    /// transaction that is applied changes the size of the UTXO set by what
    /// it creates less what it consumes.
    pub fn apply_transaction(&mut self, tx: &Transaction, _block_height: u64) -> (r: Result<
        (),
        ChainError,
    >)
        ensures
            applied(old(self)@, final(self)@, r, old(self)@.apply(tx@)),
            final(self)@.wf(),
            old(self)@.balanced() ==> final(self)@.balanced(),
            r is Ok ==> final(self)@.utxos.len() == old(self)@.utxos.len() - consumed_count(tx@)
                + created_count(old(self)@, tx@),
    {
        proof {
            use_type_invariant(&*self);
            if self@.apply(tx@) is Ok {
                lemma_apply_counts(self@, tx@);
                if self@.balanced() {
                    lemma_apply_keeps_balance(self@, tx@);
                }
            }
        }
        let tx_hash = tx.hash();
        match tx {
            Transaction::Coinbase(coinbase) => self.apply_coinbase(coinbase, tx_hash),
            Transaction::Transfer(transfer) => self.apply_transfer(transfer, tx_hash),
            Transaction::Subdivision(subdivision) => self.apply_subdivision(subdivision),
        }
    }
}

/// Where some of the children are not new to the list, all of them are
/// not.
proof fn lemma_children_fresh_prefix(
    utxos: Seq<(Seq<u8>, TriangleView)>,
    children: Seq<TriangleView>,
    n: int,
)
    requires
        0 <= n <= children.len(),
        !children_fresh(utxos, children.take(n)),
    ensures
        !children_fresh(utxos, children),
    decreases children.len() - n,
{
    if n < children.len() {
        assert(children.take(n + 1).drop_last() =~= children.take(n));
        lemma_children_fresh_prefix(utxos, children, n + 1);
    } else {
        assert(children.take(n) =~= children);
    }
}

/// Whether every one of the triangles belongs to `owner`.
fn owned_by_all(children: &Vec<Triangle>, owner: &Address) -> (all: bool)
    ensures
        all == all_owned_by(triangles_view(children@), owner@),
{
    let mut i: usize = 0;
    while i < children.len()
        invariant
            i <= children.len(),
            forall|k: int| 0 <= k < i ==> (#[trigger] triangles_view(children@)[k]).owner == owner@,
        decreases children.len() - i,
    {
        if children[i].owner != *owner {
            assert(triangles_view(children@)[i as int].owner != owner@);
            return false;
        }
        i += 1;
    }
    true
}

/// Where the values of some of the children cannot all be credited, those
/// of all of them cannot.
proof fn lemma_credit_children_prefix(
    balances: Map<Seq<char>, Coord>,
    owner: Seq<char>,
    children: Seq<TriangleView>,
    n: int,
)
    requires
        0 <= n <= children.len(),
        credit_children(balances, owner, children.take(n)) is None,
    ensures
        credit_children(balances, owner, children) is None,
    decreases children.len() - n,
{
    if n < children.len() {
        assert(children.take(n + 1).drop_last() =~= children.take(n));
        lemma_credit_children_prefix(balances, owner, children, n + 1);
    } else {
        assert(children.take(n) =~= children);
    }
}

/// The balance of `owner` after the value of each child is added to
/// `start`, the balance that `balances` holds for the owner.
fn credit_values(
    start: Coord,
    children: &Vec<Triangle>,
    Ghost(balances): Ghost<Map<Seq<char>, Coord>>,
    Ghost(owner): Ghost<Seq<char>>,
) -> (r: Option<Coord>)
    requires
        balances.dom().contains(owner),
        balances[owner] == start,
    ensures
        match r {
            Some(balance) => credit_children(balances, owner, triangles_view(children@)) == Some(
                balances.insert(owner, balance),
            ),
            None => credit_children(balances, owner, triangles_view(children@)) is None,
        },
{
    let ghost all = triangles_view(children@);
    let mut running = start;
    let mut i: usize = 0;
    proof {
        assert(all.take(0) =~= Seq::<TriangleView>::empty());
        assert(balances.insert(owner, start) =~= balances);
    }
    while i < children.len()
        invariant
            i <= children.len(),
            all == triangles_view(children@),
            credit_children(balances, owner, all.take(i as int)) == Some(
                balances.insert(owner, running),
            ),
        decreases children.len() - i,
    {
        proof {
            assert(all.take(i + 1).drop_last() =~= all.take(i as int));
            assert(all.take(i + 1).last() == children@[i as int]@);
        }
        let next = match children[i].checked_effective_value() {
            Some(v) => running.checked_add(v),
            None => None,
        };
        match next {
            Some(b) => {
                assert(balances.insert(owner, running).insert(owner, b) =~= balances.insert(
                    owner,
                    b,
                ));
                running = b;
            },
            None => {
                proof {
                    lemma_credit_children_prefix(balances, owner, all, i + 1);
                }
                return None;
            },
        }
        i += 1;
    }
    assert(all.take(i as int) =~= all);
    Some(running)
}

/// The list with `value` beside `key`: in place of the old value where the
/// key occurs, at the end where it does not.
pub open spec fn list_put<K, V>(s: Seq<(K, V)>, key: K, value: V) -> Seq<(K, V)> {
    if has_key(s, key) {
        s.update(index_of(s, key), (key, value))
    } else {
        s.push((key, value))
    }
}

/// The list without the pair of `key`.
pub open spec fn list_take<K, V>(s: Seq<(K, V)>, key: K) -> Seq<(K, V)> {
    if has_key(s, key) {
        s.remove(index_of(s, key))
    } else {
        s
    }
}

/// In a list without repeated keys, the place of the key that stands at `i`
/// is `i`.
proof fn lemma_index_of_at<K, V>(s: Seq<(K, V)>, i: int)
    requires
        keys_distinct(s),
        0 <= i < s.len(),
    ensures
        has_key(s, s[i].0),
        index_of(s, s[i].0) == i,
{
    assert(s[i].0 == s[i].0);
    let k = index_of(s, s[i].0);
    assert(s[k].0 == s[i].0);
    if k < i {
        assert(s[k].0 != s[i].0);
    } else if i < k {
        assert(s[i].0 != s[k].0);
    }
}

fn utxo_put(set: &mut Vec<UtxoEntry>, hash: Sha256Hash, triangle: Triangle)
    requires
        keys_distinct(utxo_pairs(old(set)@)),
    ensures
        keys_distinct(utxo_pairs(final(set)@)),
        utxo_pairs(final(set)@) == list_put(utxo_pairs(old(set)@), hash@, triangle@),
        assoc_map(utxo_pairs(final(set)@)) == assoc_map(utxo_pairs(old(set)@)).insert(
            hash@,
            triangle@,
        ),
{
    let ghost before = utxo_pairs(set@);
    match find_utxo(set, &hash) {
        Some(i) => {
            proof {
                lemma_assoc_update(before, i as int, triangle@);
                lemma_index_of_at(before, i as int);
            }
            set[i] = UtxoEntry { hash, triangle };
            assert(utxo_pairs(set@) =~= before.update(i as int, (hash@, triangle@)));
        },
        None => {
            proof {
                lemma_assoc_push(before, hash@, triangle@);
            }
            set.push(UtxoEntry { hash, triangle });
            assert(utxo_pairs(set@) =~= before.push((hash@, triangle@)));
        },
    }
}

fn utxo_take(set: &mut Vec<UtxoEntry>, hash: &Sha256Hash) -> (r: Option<Triangle>)
    requires
        keys_distinct(utxo_pairs(old(set)@)),
    ensures
        keys_distinct(utxo_pairs(final(set)@)),
        utxo_pairs(final(set)@) == list_take(utxo_pairs(old(set)@), hash@),
        assoc_map(utxo_pairs(final(set)@)) == assoc_map(utxo_pairs(old(set)@)).remove(hash@),
        match r {
            Some(t) => has_key(utxo_pairs(old(set)@), hash@) && t@ == utxo_pairs(
                old(set)@,
            )[index_of(utxo_pairs(old(set)@), hash@)].1,
            None => !has_key(utxo_pairs(old(set)@), hash@),
        },
{
    let ghost before = utxo_pairs(set@);
    proof {
        lemma_assoc_map_dom(before, hash@);
    }
    match find_utxo(set, hash) {
        Some(i) => {
            proof {
                lemma_assoc_remove(before, i as int);
                lemma_assoc_map_at(before, i as int);
                lemma_index_of_at(before, i as int);
            }
            let entry = set.remove(i);
            assert(utxo_pairs(set@) =~= before.remove(i as int));
            Some(entry.triangle)
        },
        None => {
            assert(assoc_map(before).remove(hash@) =~= assoc_map(before));
            None
        },
    }
}

fn balance_put(map: &mut Vec<BalanceEntry>, address: Address, balance: Coord)
    requires
        keys_distinct(balance_pairs(old(map)@)),
    ensures
        keys_distinct(balance_pairs(final(map)@)),
        assoc_map(balance_pairs(final(map)@)) == assoc_map(balance_pairs(old(map)@)).insert(
            address@,
            balance,
        ),
{
    let ghost before = balance_pairs(map@);
    match find_balance(map, &address) {
        Some(i) => {
            proof {
                lemma_assoc_update(before, i as int, balance);
            }
            let ghost key = address@;
            map[i] = BalanceEntry { address, balance };
            assert(balance_pairs(map@) =~= before.update(i as int, (key, balance)));
        },
        None => {
            proof {
                lemma_assoc_push(before, address@, balance);
            }
            let ghost key = address@;
            map.push(BalanceEntry { address, balance });
            assert(balance_pairs(map@) =~= before.push((key, balance)));
        },
    }
}

/// The balance that a balance map gives an address: zero where it has none.
pub open spec fn spec_balance(balances: Map<Seq<char>, Coord>, address: Seq<char>) -> Coord {
    if balances.dom().contains(address) {
        balances[address]
    } else {
        Coord { bits: 0 }
    }
}

} // verus!
