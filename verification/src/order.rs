//! User orders and auctions.
//!
//! An order is an immutable user intent; an auction is a snapshot of the
//! currently solvable orders together with reference prices. Amounts are
//! token atoms; addresses and identifiers are reduced to the integers the
//! protocol rules compare.

use vstd::prelude::*;

verus! {

/// An on-chain account or token address.
#[derive(Clone, Copy, Debug, PartialEq, Eq, Structural, Hash)]
pub struct Address(pub u64);

/// The unique identifier of an order.
#[derive(Clone, Copy, Debug, PartialEq, Eq, Structural, Hash, PartialOrd, Ord)]
pub struct OrderUid(pub u64);

/// The hash identifying an order's app data document.
#[derive(Clone, Copy, Debug, PartialEq, Eq, Structural, Hash)]
pub struct AppDataHash(pub u64);

/// Whether the order sells a fixed amount or buys a fixed amount.
#[derive(Clone, Copy, Debug, PartialEq, Eq, Structural)]
pub enum OrderKind {
    Sell,
    Buy,
}

/// The scheme under which an order was signed.
#[derive(Clone, Copy, Debug, PartialEq, Eq, Structural)]
pub enum Signature {
    Eip712,
    EthSign,
    PreSign,
    Eip1271,
}

impl Signature {
    /// Whether the scheme carries an ECDSA signature that can be checked
    /// off-chain.
    pub fn is_ecdsa_scheme(&self) -> (r: bool)
        ensures
            r == (*self == Signature::Eip712 || *self == Signature::EthSign),
    {
        match self {
            Signature::Eip712 => true,
            Signature::EthSign => true,
            Signature::PreSign => false,
            Signature::Eip1271 => false,
        }
    }
}

/// The lifecycle state of an order.
#[derive(Clone, Copy, Debug, PartialEq, Eq, Structural)]
pub enum OrderStatus {
    Open,
    PresignaturePending,
    Fulfilled,
    Cancelled,
    Expired,
}

/// The class an order belongs to.
#[derive(Clone, Copy, Debug, PartialEq, Eq, Structural)]
pub enum OrderClass {
    Market,
    Liquidity,
    Limit,
}

/// The user-signed part of an order.
#[derive(Clone, Copy, Debug, PartialEq, Eq, Structural)]
pub struct OrderData {
    pub sell_token: Address,
    pub buy_token: Address,
    pub sell_amount: u128,
    pub buy_amount: u128,
    pub fee_amount: u128,
    pub kind: OrderKind,
    pub partially_fillable: bool,
    pub app_data: AppDataHash,
}

/// The part of an order maintained by the services: identity, ownership,
/// status and the cumulative executed amounts.
#[derive(Clone, Copy, Debug, PartialEq, Eq, Structural)]
pub struct OrderMetadata {
    pub uid: OrderUid,
    pub owner: Address,
    pub status: OrderStatus,
    pub class: OrderClass,
    pub executed_buy_amount: u128,
    pub executed_sell_amount: u128,
    pub executed_sell_amount_before_fees: u128,
    pub executed_fee_amount: u128,
}

/// A user order.
#[derive(Clone, Copy, Debug, PartialEq, Eq, Structural)]
pub struct Order {
    pub data: OrderData,
    pub metadata: OrderMetadata,
    pub signature: Signature,
}

impl Order {
    /// An order with remaining executable amount: strict inequality, so an
    /// exactly filled order does not count as remaining.
    pub open spec fn has_remaining_amounts(self) -> bool {
        match self.data.kind {
            OrderKind::Sell => self.data.sell_amount
                > self.metadata.executed_sell_amount_before_fees,
            OrderKind::Buy => self.data.buy_amount > self.metadata.executed_buy_amount,
        }
    }
}

/// A snapshot of solvable orders together with reference prices.
#[derive(Clone, Debug)]
pub struct Auction {
    /// The block the auction was built at.
    pub block: u64,
    /// The highest block whose settlements the order book has indexed.
    pub latest_settlement_block: u64,
    /// The candidate orders.
    pub orders: Vec<Order>,
    /// External reference price of each traded token, in native token atoms.
    pub prices: Vec<(Address, u128)>,
}

} // verus!
