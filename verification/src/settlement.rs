//! Solver-produced settlements and the transactions built from them.

use vstd::prelude::*;
use crate::order::{Address, Order};

verus! {

/// The identifier of a submitted transaction.
#[derive(Clone, Copy, Debug, PartialEq, Eq, Structural, Hash)]
pub struct TxId(pub u64);

/// Amounts a trade moves, in token atoms.
#[derive(Clone, Copy, Debug, PartialEq, Eq, Structural)]
pub struct TradeExecution {
    pub sell_amount: u128,
    pub buy_amount: u128,
    pub fee_amount: u128,
}

/// One trade of a settlement: an order and how much of it is executed.
/// The execution is derived by the settlement encoder from the trade and
/// the clearing prices.
#[derive(Clone, Copy, Debug)]
pub struct Trade {
    pub order: Order,
    pub executed_amount: u128,
    pub execution: TradeExecution,
}

/// An EIP-1559 gas price.
#[derive(Clone, Copy, Debug, PartialEq, Eq, Structural)]
pub struct GasPrice {
    pub max_fee_per_gas: u128,
    pub max_priority_fee_per_gas: u128,
}

/// The gas plan of a settlement transaction.
#[derive(Clone, Copy, Debug, PartialEq, Eq, Structural)]
pub struct Gas {
    pub estimate: u64,
    pub limit: u64,
    pub price: GasPrice,
}

/// One entry of a transaction's access list.
#[derive(Clone, Copy, Debug, PartialEq, Eq, Structural)]
pub struct AccessListEntry {
    pub address: Address,
    pub storage_key: u64,
}

/// An Ethereum transaction as the submission engine builds it.
#[derive(Clone, Debug)]
pub struct Tx {
    pub from: Address,
    pub to: Address,
    pub value: u128,
    pub input: Vec<u8>,
    pub access_list: Vec<AccessListEntry>,
}

/// A solver-produced solution for one auction, ready for submission.
#[derive(Clone, Debug)]
pub struct Settlement {
    pub auction_id: i64,
    /// Per-token clearing prices.
    pub clearing_prices: Vec<(Address, u128)>,
    pub trades: Vec<Trade>,
    pub access_list: Vec<AccessListEntry>,
    pub gas: Gas,
    /// Whether executing the settlement on-chain can revert.
    pub revertable: bool,
}

} // verus!
