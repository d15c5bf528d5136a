//! Fee statistics and the rough size of a transaction.

use crate::mempool::Mempool;
use crate::mempool::MAX_MEMPOOL_SIZE;
use crate::transaction::Transaction;
use crate::transaction::TransactionView;
use vstd::prelude::*;
use vstd::utf8::encode_utf8;

verus! {

/// Fee statistics for the current state of the network.
#[derive(Debug, Clone, Copy)]
pub struct FeeStats {
    /// Minimum fee.
    pub min_fee: u64,
    /// Median fee of recent transactions.
    pub median_fee: u64,
    /// Fee for a faster confirmation.
    pub high_priority_fee: u64,
    /// Congestion of the network, from 0 to 100.
    pub congestion_level: u8,
}

impl Default for FeeStats {
    fn default() -> (stats: FeeStats)
        ensures
            stats.min_fee == 1,
            stats.median_fee == 5,
            stats.high_priority_fee == 10,
            stats.congestion_level == 0,
    {
        FeeStats { min_fee: 1, median_fee: 5, high_priority_fee: 10, congestion_level: 0 }
    }
}

/// The rough size of a transaction in bytes: 160 and the memo for a
/// transfer, 100 and 50 for every child for a subdivision, 50 for a
/// coinbase.
pub open spec fn spec_estimated_size(tx: TransactionView) -> int {
    match tx {
        TransactionView::Transfer(t) => 160 + match t.memo {
            Some(memo) => encode_utf8(memo).len() as int,
            None => 0,
        },
        TransactionView::Subdivision(t) => 100 + (t.children.len() as int) * 50,
        TransactionView::Coinbase(_) => 50,
    }
}

/// The rough size of a transaction in bytes; `usize::MAX` where the size
/// is beyond that.
pub fn estimate_transaction_size(tx: &Transaction) -> (size: usize)
    ensures
        size == (if spec_estimated_size(tx@) <= usize::MAX {
            spec_estimated_size(tx@)
        } else {
            usize::MAX as int
        }),
{
    match tx {
        Transaction::Transfer(t) => {
            let memo_size: usize = match &t.memo {
                Some(memo) => memo.as_str().as_bytes().len(),
                None => 0,
            };
            if memo_size > usize::MAX - 160 {
                usize::MAX
            } else {
                160 + memo_size
            }
        },
        Transaction::Subdivision(t) => {
            let n = t.children.len();
            if n > (usize::MAX - 100) / 50 {
                usize::MAX
            } else {
                100 + n * 50
            }
        },
        Transaction::Coinbase(_) => 50,
    }
}

/// The congestion multiplier of an idle network, in ten-thousandths: one.
pub const CALM_MULTIPLIER: u64 = 10_000;

/// What a fee per kilobyte is divided by, together with the scale of the
/// multiplier: a thousand bytes times ten thousand.
pub const FEE_SCALE: u64 = 10_000_000;

/// A quotient of non-negative numbers, rounded up.
pub open spec fn ceil_div(a: int, b: int) -> int
    recommends
        a >= 0,
        b > 0,
{
    (a + b - 1) / b
}

/// A number, but no more than a fee can hold.
pub open spec fn capped_fee(x: int) -> int {
    if x > u64::MAX {
        u64::MAX as int
    } else {
        x
    }
}

/// The fee for a transaction of `size` bytes: the base fee per kilobyte
/// times the congestion multiplier, rounded up to a whole unit.
pub open spec fn spec_estimate(base_fee: u64, multiplier: u64, size: int) -> int {
    capped_fee(ceil_div(base_fee * size * multiplier, FEE_SCALE as int))
}

/// The congestion multiplier for a pool of `pool_size` transactions, in
/// ten-thousandths: from one for an empty pool to three for a full one.
pub open spec fn spec_multiplier(pool_size: int) -> int {
    if pool_size >= MAX_MEMPOOL_SIZE {
        3 * CALM_MULTIPLIER
    } else {
        CALM_MULTIPLIER + 2 * pool_size
    }
}

/// The congestion of a pool of `pool_size` transactions in per cent.
pub open spec fn spec_congestion(pool_size: int) -> int {
    if pool_size >= MAX_MEMPOOL_SIZE {
        100
    } else {
        pool_size / 100
    }
}

/// Fee estimator for transactions. It counts in whole numbers throughout:
/// the congestion multiplier is kept in ten-thousandths, so that every
/// estimate is the exactly rounded value.
#[derive(Debug, Clone, Copy)]
pub struct FeeEstimator {
    /// Base fee per kilobyte.
    base_fee: u64,
    /// Congestion multiplier in ten-thousandths.
    congestion_multiplier: u64,
}

fn rounded_up_scaled(base_fee: u64, size: usize, multiplier: u64) -> (fee: u64)
    ensures
        fee == spec_estimate(base_fee, multiplier, size as int),
{
    assert(0 <= base_fee * size <= 0xffff_ffff_ffff_ffff * 0xffff_ffff_ffff_ffff)
        by (nonlinear_arith)
        requires
            0 <= base_fee <= 0xffff_ffff_ffff_ffff,
            0 <= size <= 0xffff_ffff_ffff_ffff,
    ;
    let product: u128 = (base_fee as u128) * (size as u128);
    let scaled = match product.checked_mul(multiplier as u128) {
        Some(s) => s,
        None => {
            proof {
                let total = base_fee * size * multiplier;
                assert(total > u128::MAX);
                assert((total + FEE_SCALE - 1) / (FEE_SCALE as int) > u64::MAX);
            }
            return u64::MAX;
        },
    };
    let fee: u128 = if scaled % (FEE_SCALE as u128) == 0 {
        scaled / (FEE_SCALE as u128)
    } else {
        scaled / (FEE_SCALE as u128) + 1
    };
    assert(fee == ceil_div(scaled as int, FEE_SCALE as int));
    if fee > u64::MAX as u128 {
        u64::MAX
    } else {
        fee as u64
    }
}

impl FeeEstimator {
    /// The base fee per kilobyte.
    pub closed spec fn spec_base_fee(&self) -> u64 {
        self.base_fee
    }

    /// The congestion multiplier in ten-thousandths.
    pub closed spec fn spec_multiplier(&self) -> u64 {
        self.congestion_multiplier
    }

    /// A fee estimator for an idle network.
    pub fn new(base_fee: u64) -> (estimator: FeeEstimator)
        ensures
            estimator.spec_base_fee() == base_fee,
            estimator.spec_multiplier() == CALM_MULTIPLIER,
    {
        FeeEstimator { base_fee, congestion_multiplier: CALM_MULTIPLIER }
    }

    /// The base fee per kilobyte.
    pub fn base_fee(&self) -> (fee: u64)
        ensures
            fee == self.spec_base_fee(),
    {
        self.base_fee
    }

    /// The congestion multiplier in ten-thousandths.
    pub fn congestion_multiplier(&self) -> (multiplier: u64)
        ensures
            multiplier == self.spec_multiplier(),
    {
        self.congestion_multiplier
    }

    /// Sets the congestion multiplier, in ten-thousandths.
    pub fn set_congestion_multiplier(&mut self, multiplier: u64)
        ensures
            final(self).spec_multiplier() == multiplier,
            final(self).spec_base_fee() == old(self).spec_base_fee(),
    {
        self.congestion_multiplier = multiplier;
    }

    /// The fee for a transaction of `tx_size_bytes` bytes.
    pub fn estimate_fee(&self, tx_size_bytes: usize) -> (fee: u64)
        ensures
            fee == spec_estimate(
                self.spec_base_fee(),
                self.spec_multiplier(),
                tx_size_bytes as int,
            ),
    {
        rounded_up_scaled(self.base_fee, tx_size_bytes, self.congestion_multiplier)
    }

    /// The fee for low priority: half the estimate, rounded up.
    pub fn estimate_low_priority(&self, tx_size_bytes: usize) -> (fee: u64)
        ensures
            fee == ceil_div(
                spec_estimate(self.spec_base_fee(), self.spec_multiplier(), tx_size_bytes as int),
                2,
            ),
            fee <= spec_estimate(
                self.spec_base_fee(),
                self.spec_multiplier(),
                tx_size_bytes as int,
            ),
    {
        let base = self.estimate_fee(tx_size_bytes);
        base / 2 + base % 2
    }

    /// The fee for standard priority: the estimate.
    pub fn estimate_standard(&self, tx_size_bytes: usize) -> (fee: u64)
        ensures
            fee == spec_estimate(
                self.spec_base_fee(),
                self.spec_multiplier(),
                tx_size_bytes as int,
            ),
    {
        self.estimate_fee(tx_size_bytes)
    }

    /// The fee for high priority: twice the estimate.
    pub fn estimate_high_priority(&self, tx_size_bytes: usize) -> (fee: u64)
        ensures
            fee == capped_fee(
                2 * spec_estimate(
                    self.spec_base_fee(),
                    self.spec_multiplier(),
                    tx_size_bytes as int,
                ),
            ),
            fee >= spec_estimate(
                self.spec_base_fee(),
                self.spec_multiplier(),
                tx_size_bytes as int,
            ),
    {
        let base = self.estimate_fee(tx_size_bytes);
        if base > u64::MAX / 2 {
            u64::MAX
        } else {
            base * 2
        }
    }

    /// Takes the congestion multiplier from the size of the mempool.
    pub fn update_from_mempool(&mut self, mempool: &Mempool)
        ensures
            final(self).spec_multiplier() == spec_multiplier(mempool@.entries.len() as int),
            final(self).spec_base_fee() == old(self).spec_base_fee(),
    {
        let pool_size = mempool.len();
        self.congestion_multiplier = CALM_MULTIPLIER + 2 * (pool_size as u64);
    }

    /// The fee statistics for the mempool as it is.
    pub fn get_stats(&self, mempool: &Mempool) -> (stats: FeeStats)
        ensures
            stats.min_fee == self.spec_base_fee(),
            stats.median_fee == spec_estimate(self.spec_base_fee(), self.spec_multiplier(), 250),
            stats.high_priority_fee == capped_fee(
                2 * spec_estimate(self.spec_base_fee(), self.spec_multiplier(), 250),
            ),
            stats.congestion_level == spec_congestion(mempool@.entries.len() as int),
    {
        let pool_size = mempool.len();
        FeeStats {
            min_fee: self.base_fee,
            median_fee: self.estimate_standard(250),
            high_priority_fee: self.estimate_high_priority(250),
            congestion_level: (pool_size / 100) as u8,
        }
    }

    /// Whether a fee is at least the low-priority fee.
    pub fn is_acceptable_fee(&self, fee: u64, tx_size_bytes: usize) -> (ok: bool)
        ensures
            ok == (fee >= ceil_div(
                spec_estimate(self.spec_base_fee(), self.spec_multiplier(), tx_size_bytes as int),
                2,
            )),
    {
        fee >= self.estimate_low_priority(tx_size_bytes)
    }

    /// Whether a fee is at least the high-priority fee.
    pub fn is_high_priority(&self, fee: u64, tx_size_bytes: usize) -> (ok: bool)
        ensures
            ok == (fee >= capped_fee(
                2 * spec_estimate(
                    self.spec_base_fee(),
                    self.spec_multiplier(),
                    tx_size_bytes as int,
                ),
            )),
    {
        fee >= self.estimate_high_priority(tx_size_bytes)
    }
}

impl Default for FeeEstimator {
    fn default() -> (estimator: FeeEstimator)
        ensures
            estimator.spec_base_fee() == 1,
            estimator.spec_multiplier() == CALM_MULTIPLIER,
    {
        FeeEstimator::new(1)
    }
}

} // verus!
