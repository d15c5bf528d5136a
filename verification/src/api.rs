//! The values that the query interface answers with.

use crate::blockchain::Blockchain;
use crate::transaction::Address;
use vstd::prelude::*;

verus! {

/// The balance of an address in whole units.
#[derive(Debug, Clone, Copy)]
pub struct BalanceResponse {
    pub balance: u64,
}

/// The height of the chain and the size of the mempool.
#[derive(Debug, Clone, Copy)]
pub struct StatsResponse {
    pub height: u64,
    pub mempool_size: usize,
}

/// A request to start mining for an address.
#[derive(Debug, Clone)]
pub struct StartMiningRequest {
    pub miner_address: String,
}

/// The whole units of a stored fixed-point number; nothing for a negative
/// one.
pub open spec fn whole_units(bits: int) -> int {
    if bits < 0 {
        0
    } else {
        bits / 0x1_0000_0000
    }
}

/// The balance of an address in the chain's current state, in whole
/// units; a negative balance counts as nothing.
pub fn balance_response(chain: &Blockchain, address: &Address) -> (response: BalanceResponse)
    ensures
        response.balance == whole_units(chain@.state.balance_of(address@)@),
{
    let bits = chain.get_balance(address).bits;
    let balance: u64 = if bits < 0 {
        0
    } else {
        (bits / 0x1_0000_0000) as u64
    };
    BalanceResponse { balance }
}

/// The number of blocks of the chain and of transactions in its mempool.
pub fn stats_response(chain: &Blockchain) -> (response: StatsResponse)
    ensures
        response.height == chain@.blocks.len(),
        response.mempool_size == chain@.mempool.entries.len(),
{
    StatsResponse { height: chain.height() as u64, mempool_size: chain.mempool().len() }
}

} // verus!
