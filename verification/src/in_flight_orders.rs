//! Tracking of in-flight orders.
//!
//! After a settlement transaction is submitted, the traded orders stay "in
//! flight" until the order book API has seen the transaction. Until then a
//! freshly built auction would offer the same orders again, so the tracker
//! removes fill-or-kill orders with a trade in flight and down-scales the
//! executable amounts of partially fillable ones.

use vstd::prelude::*;
use crate::order::{Auction, Order, OrderKind, OrderMetadata, OrderUid};
use crate::settlement::{Settlement, Trade, TradeExecution};

verus! {

/// A partially fillable order as it looked when its settlement was
/// submitted, together with the trades currently in flight that consume its
/// executable amounts.
#[derive(Clone, Debug)]
pub struct PartiallyFilledOrder {
    pub order: Order,
    pub in_flight_trades: Vec<TradeExecution>,
}

/// The `(sell, buy, fee)` sums of a sequence of trade executions.
pub open spec fn trade_sums(trades: Seq<TradeExecution>) -> (int, int, int)
    decreases trades.len(),
{
    if trades.len() == 0 {
        (0, 0, 0)
    } else {
        let rest = trade_sums(trades.drop_last());
        (
            rest.0 + trades.last().sell_amount,
            rest.1 + trades.last().buy_amount,
            rest.2 + trades.last().fee_amount,
        )
    }
}

proof fn lemma_trade_sums_nonneg(trades: Seq<TradeExecution>)
    ensures
        trade_sums(trades).0 >= 0,
        trade_sums(trades).1 >= 0,
        trade_sums(trades).2 >= 0,
    decreases trades.len(),
{
    if trades.len() > 0 {
        lemma_trade_sums_nonneg(trades.drop_last());
    }
}

/// A prefix never sums to more than the whole sequence.
proof fn lemma_trade_sums_take(trades: Seq<TradeExecution>, j: int)
    requires
        0 <= j <= trades.len(),
    ensures
        trade_sums(trades.take(j)).0 <= trade_sums(trades).0,
        trade_sums(trades.take(j)).1 <= trade_sums(trades).1,
        trade_sums(trades.take(j)).2 <= trade_sums(trades).2,
    decreases trades.len(),
{
    if j == trades.len() {
        assert(trades.take(j) =~= trades);
    } else {
        lemma_trade_sums_take(trades.drop_last(), j);
        assert(trades.drop_last().take(j) =~= trades.take(j));
        lemma_trade_sums_nonneg(trades.drop_last());
    }
}

/// The order of a snapshot with the in-flight executions added onto its
/// cumulative executed amounts.
pub open spec fn order_with_remaining_amounts_spec(p: PartiallyFilledOrder) -> Order {
    let (sell, buy, fee) = trade_sums(p.in_flight_trades@);
    Order {
        metadata: OrderMetadata {
            executed_buy_amount: (p.order.metadata.executed_buy_amount + buy) as u128,
            executed_sell_amount: (p.order.metadata.executed_sell_amount + sell + fee) as u128,
            executed_sell_amount_before_fees: (p.order.metadata.executed_sell_amount_before_fees
                + sell) as u128,
            executed_fee_amount: (p.order.metadata.executed_fee_amount + fee) as u128,
            ..p.order.metadata
        },
        ..p.order
    }
}

/// The executed amounts of the snapshot plus its in-flight trades fit the
/// machine's integer width.
pub open spec fn remaining_amounts_fit(p: PartiallyFilledOrder) -> bool {
    let (sell, buy, fee) = trade_sums(p.in_flight_trades@);
    &&& p.order.metadata.executed_buy_amount + buy <= u128::MAX
    &&& p.order.metadata.executed_sell_amount + sell + fee <= u128::MAX
    &&& p.order.metadata.executed_sell_amount_before_fees + sell <= u128::MAX
    &&& p.order.metadata.executed_fee_amount + fee <= u128::MAX
}

impl PartiallyFilledOrder {
    /// The stored order with every in-flight execution added onto its
    /// cumulative executed amounts: `executed_buy_amount` grows by the
    /// executed buy sum, `executed_sell_amount` by sell plus fee,
    /// `executed_sell_amount_before_fees` by sell, `executed_fee_amount`
    /// by fee.
    pub fn order_with_remaining_amounts(&self) -> (updated: Order)
        requires
            remaining_amounts_fit(*self),
        ensures
            updated == order_with_remaining_amounts_spec(*self),
    {
        let mut updated_order = self.order;
        let n = self.in_flight_trades.len();
        let ghost all = self.in_flight_trades@;
        let mut i: usize = 0;
        while i < n
            invariant
                n == all.len(),
                all == self.in_flight_trades@,
                0 <= i <= n,
                remaining_amounts_fit(*self),
                updated_order.data == self.order.data,
                updated_order.signature == self.order.signature,
                updated_order.metadata.uid == self.order.metadata.uid,
                updated_order.metadata.owner == self.order.metadata.owner,
                updated_order.metadata.status == self.order.metadata.status,
                updated_order.metadata.class == self.order.metadata.class,
                updated_order.metadata.executed_buy_amount == self.order.metadata.executed_buy_amount
                    + trade_sums(all.take(i as int)).1,
                updated_order.metadata.executed_sell_amount
                    == self.order.metadata.executed_sell_amount + trade_sums(all.take(i as int)).0
                    + trade_sums(all.take(i as int)).2,
                updated_order.metadata.executed_sell_amount_before_fees
                    == self.order.metadata.executed_sell_amount_before_fees
                    + trade_sums(all.take(i as int)).0,
                updated_order.metadata.executed_fee_amount
                    == self.order.metadata.executed_fee_amount + trade_sums(all.take(i as int)).2,
            decreases n - i,
        {
            let trade = self.in_flight_trades[i];
            proof {
                assert(all.take(i + 1).drop_last() =~= all.take(i as int));
                assert(all.take(i + 1).last() == all[i as int]);
                lemma_trade_sums_take(all, i + 1);
                lemma_trade_sums_nonneg(all.take(i as int));
            }
            updated_order.metadata.executed_buy_amount =
                updated_order.metadata.executed_buy_amount + trade.buy_amount;
            updated_order.metadata.executed_sell_amount = updated_order.metadata.executed_sell_amount
                + trade.sell_amount + trade.fee_amount;
            updated_order.metadata.executed_sell_amount_before_fees =
                updated_order.metadata.executed_sell_amount_before_fees + trade.sell_amount;
            updated_order.metadata.executed_fee_amount =
                updated_order.metadata.executed_fee_amount + trade.fee_amount;
            i = i + 1;
        }
        proof {
            assert(all.take(n as int) =~= all);
        }
        updated_order
    }
}

/// The orders settled in one block.
#[derive(Clone, Debug)]
pub struct BlockOrders {
    pub block: u64,
    pub uids: Vec<OrderUid>,
}

/// The in-flight snapshot of one partially fillable order.
#[derive(Clone, Debug)]
pub struct TradeEntry {
    pub uid: OrderUid,
    pub snapshot: PartiallyFilledOrder,
}

/// Tracks orders whose settlement was submitted but not yet seen by the
/// order book, and how much of the executable amount of partially fillable
/// orders the in-flight trades consume.
#[derive(Debug)]
pub struct InFlightOrders {
    /// The orders settled in each block, newest entries appended last.
    pub in_flight: Vec<BlockOrders>,
    /// In-flight trades that use liquidity of partially fillable orders.
    pub in_flight_trades: Vec<TradeEntry>,
}

/// Some block entry records the order as settled.
pub open spec fn uid_in_blocks(blocks: Seq<BlockOrders>, uid: OrderUid) -> bool {
    exists|i: int| 0 <= i < blocks.len() && #[trigger] blocks[i].uids@.contains(uid)
}

/// The block entries still in flight: those the order book has not caught
/// up with, in their original relative order.
pub open spec fn kept_blocks(blocks: Seq<BlockOrders>, latest_settlement_block: u64) -> Seq<
    BlockOrders,
>
    decreases blocks.len(),
{
    if blocks.len() == 0 {
        blocks
    } else {
        let rest = kept_blocks(blocks.drop_last(), latest_settlement_block);
        if blocks.last().block > latest_settlement_block {
            rest.push(blocks.last())
        } else {
            rest
        }
    }
}

/// The trade entries whose order is still recorded by some block entry.
pub open spec fn kept_trades(entries: Seq<TradeEntry>, blocks: Seq<BlockOrders>) -> Seq<TradeEntry>
    decreases entries.len(),
{
    if entries.len() == 0 {
        entries
    } else {
        let rest = kept_trades(entries.drop_last(), blocks);
        if uid_in_blocks(blocks, entries.last().uid) {
            rest.push(entries.last())
        } else {
            rest
        }
    }
}

/// The first snapshot stored under the given order identifier.
pub open spec fn snapshot_for(entries: Seq<TradeEntry>, uid: OrderUid) -> Option<
    PartiallyFilledOrder,
>
    decreases entries.len(),
{
    if entries.len() == 0 {
        None
    } else if entries[0].uid == uid {
        Some(entries[0].snapshot)
    } else {
        snapshot_for(entries.drop_first(), uid)
    }
}

/// The order marked as fully executed, so the remaining-amount filter drops
/// it.
pub open spec fn forced_filled(o: Order) -> Order {
    Order {
        metadata: OrderMetadata {
            executed_buy_amount: o.data.buy_amount,
            executed_sell_amount_before_fees: o.data.sell_amount,
            ..o.metadata
        },
        ..o
    }
}

/// How one auction order looks after the in-flight effects are applied: a
/// partially fillable order with a stored snapshot is replaced by the
/// snapshot's order with the in-flight executions added; a fill-or-kill
/// order with a trade in flight is marked fully executed; anything else is
/// untouched.
pub open spec fn adjust_order(
    entries: Seq<TradeEntry>,
    blocks: Seq<BlockOrders>,
    o: Order,
) -> Order {
    if o.data.partially_fillable {
        match snapshot_for(entries, o.metadata.uid) {
            Some(p) => order_with_remaining_amounts_spec(p),
            None => o,
        }
    } else if uid_in_blocks(blocks, o.metadata.uid) {
        forced_filled(o)
    } else {
        o
    }
}

/// The auction orders after adjustment, keeping only those with remaining
/// executable amount.
pub open spec fn filtered_orders(
    entries: Seq<TradeEntry>,
    blocks: Seq<BlockOrders>,
    orders: Seq<Order>,
) -> Seq<Order>
    decreases orders.len(),
{
    if orders.len() == 0 {
        orders
    } else {
        let rest = filtered_orders(entries, blocks, orders.drop_last());
        let adjusted = adjust_order(entries, blocks, orders.last());
        if adjusted.has_remaining_amounts() {
            rest.push(adjusted)
        } else {
            rest
        }
    }
}

/// A stored trade entry is keyed by its own order's identifier, describes a
/// partially fillable order, and its executed amounts fit the integer
/// width.
pub open spec fn wf_entry(e: TradeEntry) -> bool {
    &&& e.snapshot.order.metadata.uid == e.uid
    &&& e.snapshot.order.data.partially_fillable
    &&& remaining_amounts_fit(e.snapshot)
}

impl InFlightOrders {
    /// Block entries carry distinct blocks, trade entries distinct orders,
    /// and every snapshot is consistent.
    pub open spec fn wf(self) -> bool {
        &&& forall|i: int, j: int|
            0 <= i < j < self.in_flight@.len() ==> (#[trigger] self.in_flight@[i]).block != (
            #[trigger] self.in_flight@[j]).block
        &&& forall|i: int, j: int|
            0 <= i < j < self.in_flight_trades@.len() ==> (
            #[trigger] self.in_flight_trades@[i]).uid != (#[trigger] self.in_flight_trades@[j]).uid
        &&& forall|i: int|
            0 <= i < self.in_flight_trades@.len() ==> wf_entry(#[trigger] self.in_flight_trades@[i])
    }
}

impl Default for InFlightOrders {
    /// An empty tracker: nothing in flight.
    fn default() -> (r: Self)
        ensures
            r.in_flight@.len() == 0,
            r.in_flight_trades@.len() == 0,
            r.wf(),
    {
        InFlightOrders { in_flight: Vec::new(), in_flight_trades: Vec::new() }
    }
}

proof fn lemma_uid_in_blocks_take_step(blocks: Seq<BlockOrders>, i: int, uid: OrderUid)
    requires
        0 <= i < blocks.len(),
    ensures
        uid_in_blocks(blocks.take(i + 1), uid) <==> (uid_in_blocks(blocks.take(i), uid)
            || blocks[i].uids@.contains(uid)),
{
    let taken = blocks.take(i + 1);
    if uid_in_blocks(taken, uid) {
        let w = choose|w: int| 0 <= w < taken.len() && #[trigger] taken[w].uids@.contains(uid);
        if w < i {
            assert(blocks.take(i)[w].uids@.contains(uid));
        } else {
            assert(taken[w] == blocks[i]);
        }
    }
    if uid_in_blocks(blocks.take(i), uid) {
        let w = choose|w: int|
            0 <= w < i && #[trigger] blocks.take(i)[w].uids@.contains(uid);
        assert(taken[w].uids@.contains(uid));
    }
    if blocks[i].uids@.contains(uid) {
        assert(taken[i].uids@.contains(uid));
    }
}

proof fn lemma_push_contains<T>(s: Seq<T>, v: T, x: T)
    ensures
        s.push(v).contains(x) <==> (s.contains(x) || x == v),
{
    if s.contains(x) {
        let i = choose|i: int| 0 <= i < s.len() && s[i] == x;
        assert(s.push(v)[i] == x);
    }
    assert(s.push(v)[s.len() as int] == v);
    if s.push(v).contains(x) && x != v {
        let i = choose|i: int| 0 <= i < s.push(v).len() && s.push(v)[i] == x;
        assert(s[i] == x);
    }
}

/// What pruning keeps: entries of blocks above the cut-off, each one an
/// entry of the original list, distinct if the original ones were.
proof fn lemma_kept_blocks_props(blocks: Seq<BlockOrders>, latest_settlement_block: u64)
    requires
        forall|i: int, j: int|
            0 <= i < j < blocks.len() ==> (#[trigger] blocks[i]).block != (
            #[trigger] blocks[j]).block,
    ensures
        forall|i: int|
            0 <= i < kept_blocks(blocks, latest_settlement_block).len() ==> (#[trigger] kept_blocks(
                blocks,
                latest_settlement_block,
            )[i]).block > latest_settlement_block,
        forall|i: int|
            0 <= i < kept_blocks(blocks, latest_settlement_block).len() ==> blocks.contains(
                #[trigger] kept_blocks(blocks, latest_settlement_block)[i],
            ),
        forall|i: int, j: int|
            0 <= i < j < kept_blocks(blocks, latest_settlement_block).len() ==> (
            #[trigger] kept_blocks(blocks, latest_settlement_block)[i]).block != (
            #[trigger] kept_blocks(blocks, latest_settlement_block)[j]).block,
    decreases blocks.len(),
{
    if blocks.len() > 0 {
        let prefix = blocks.drop_last();
        lemma_kept_blocks_props(prefix, latest_settlement_block);
        let rest = kept_blocks(prefix, latest_settlement_block);
        assert forall|i: int| 0 <= i < rest.len() implies blocks.contains(rest[i]) by {
            assert(prefix.contains(rest[i]));
            let k = choose|k: int| 0 <= k < prefix.len() && prefix[k] == rest[i];
            assert(blocks[k] == rest[i]);
        }
        if blocks.last().block > latest_settlement_block {
            assert forall|i: int| 0 <= i < rest.len() implies rest[i].block
                != blocks.last().block by {
                assert(prefix.contains(rest[i]));
                let k = choose|k: int| 0 <= k < prefix.len() && prefix[k] == rest[i];
                assert(blocks[k].block != blocks[blocks.len() - 1].block);
            }
        }
    }
}

/// What pruning keeps among the trade entries: entries whose order some
/// block still records, each one an entry of the original list, distinct
/// if the original ones were.
proof fn lemma_kept_trades_props(entries: Seq<TradeEntry>, blocks: Seq<BlockOrders>)
    requires
        forall|i: int, j: int|
            0 <= i < j < entries.len() ==> (#[trigger] entries[i]).uid != (
            #[trigger] entries[j]).uid,
    ensures
        forall|i: int|
            0 <= i < kept_trades(entries, blocks).len() ==> uid_in_blocks(
                blocks,
                (#[trigger] kept_trades(entries, blocks)[i]).uid,
            ),
        forall|i: int|
            0 <= i < kept_trades(entries, blocks).len() ==> entries.contains(
                #[trigger] kept_trades(entries, blocks)[i],
            ),
        forall|i: int, j: int|
            0 <= i < j < kept_trades(entries, blocks).len() ==> (#[trigger] kept_trades(
                entries,
                blocks,
            )[i]).uid != (#[trigger] kept_trades(entries, blocks)[j]).uid,
    decreases entries.len(),
{
    if entries.len() > 0 {
        let prefix = entries.drop_last();
        lemma_kept_trades_props(prefix, blocks);
        let rest = kept_trades(prefix, blocks);
        assert forall|i: int| 0 <= i < rest.len() implies entries.contains(rest[i]) by {
            assert(prefix.contains(rest[i]));
            let k = choose|k: int| 0 <= k < prefix.len() && prefix[k] == rest[i];
            assert(entries[k] == rest[i]);
        }
        if uid_in_blocks(blocks, entries.last().uid) {
            assert forall|i: int| 0 <= i < rest.len() implies rest[i].uid
                != entries.last().uid by {
                assert(prefix.contains(rest[i]));
                let k = choose|k: int| 0 <= k < prefix.len() && prefix[k] == rest[i];
                assert(entries[k].uid != entries[entries.len() - 1].uid);
            }
        }
    }
}

proof fn lemma_snapshot_for_index(entries: Seq<TradeEntry>, uid: OrderUid, j: int)
    requires
        0 <= j < entries.len(),
        entries[j].uid == uid,
        forall|k: int| 0 <= k < j ==> (#[trigger] entries[k]).uid != uid,
    ensures
        snapshot_for(entries, uid) == Some(entries[j].snapshot),
    decreases j,
{
    if j > 0 {
        lemma_snapshot_for_index(entries.drop_first(), uid, j - 1);
    }
}

proof fn lemma_snapshot_for_none(entries: Seq<TradeEntry>, uid: OrderUid)
    requires
        forall|k: int| 0 <= k < entries.len() ==> (#[trigger] entries[k]).uid != uid,
    ensures
        snapshot_for(entries, uid) is None,
    decreases entries.len(),
{
    if entries.len() > 0 {
        lemma_snapshot_for_none(entries.drop_first(), uid);
    }
}

fn uids_contain(uids: &Vec<OrderUid>, uid: OrderUid) -> (r: bool)
    ensures
        r == uids@.contains(uid),
{
    let mut j: usize = 0;
    while j < uids.len()
        invariant
            0 <= j <= uids@.len(),
            forall|k: int| 0 <= k < j ==> uids@[k] != uid,
        decreases uids@.len() - j,
    {
        if uids[j] == uid {
            return true;
        }
        j = j + 1;
    }
    false
}

fn blocks_contain(blocks: &Vec<BlockOrders>, uid: OrderUid) -> (r: bool)
    ensures
        r == uid_in_blocks(blocks@, uid),
{
    let mut i: usize = 0;
    while i < blocks.len()
        invariant
            0 <= i <= blocks@.len(),
            forall|k: int| 0 <= k < i ==> !(#[trigger] blocks@[k]).uids@.contains(uid),
        decreases blocks@.len() - i,
    {
        if uids_contain(&blocks[i].uids, uid) {
            return true;
        }
        i = i + 1;
    }
    false
}

fn find_snapshot_index(entries: &Vec<TradeEntry>, uid: OrderUid) -> (r: Option<usize>)
    ensures
        match r {
            Some(j) => j < entries@.len() && entries@[j as int].uid == uid && snapshot_for(
                entries@,
                uid,
            ) == Some(entries@[j as int].snapshot),
            None => snapshot_for(entries@, uid) is None && forall|k: int|
                0 <= k < entries@.len() ==> (#[trigger] entries@[k]).uid != uid,
        },
{
    let mut j: usize = 0;
    while j < entries.len()
        invariant
            0 <= j <= entries@.len(),
            forall|k: int| 0 <= k < j ==> (#[trigger] entries@[k]).uid != uid,
        decreases entries@.len() - j,
    {
        if entries[j].uid == uid {
            proof {
                lemma_snapshot_for_index(entries@, uid, j as int);
            }
            return Some(j);
        }
        j = j + 1;
    }
    proof {
        lemma_snapshot_for_none(entries@, uid);
    }
    None
}

/// Whether the order still has executable amount left; strict comparison,
/// so an exactly filled order has nothing remaining.
pub fn order_has_remaining_amounts(o: &Order) -> (r: bool)
    ensures
        r == o.has_remaining_amounts(),
{
    match o.data.kind {
        OrderKind::Sell => o.data.sell_amount > o.metadata.executed_sell_amount_before_fees,
        OrderKind::Buy => o.data.buy_amount > o.metadata.executed_buy_amount,
    }
}

/// How `update_and_filter` relates tracker and auction before the call to
/// tracker, auction and returned identifiers after it: entries up to the
/// auction's latest settlement block are dropped, trade snapshots of
/// orders no longer in flight are pruned, the auction orders are adjusted
/// and filtered, and the identifiers still in flight are returned without
/// duplicates.
pub open spec fn update_and_filter_rel(
    pre: InFlightOrders,
    pre_auction: Auction,
    post: InFlightOrders,
    post_auction: Auction,
    returned: Seq<OrderUid>,
) -> bool {
    let blocks = kept_blocks(pre.in_flight@, pre_auction.latest_settlement_block);
    &&& post.in_flight@ == blocks
    &&& post.in_flight_trades@ == kept_trades(pre.in_flight_trades@, blocks)
    &&& post_auction.orders@ == filtered_orders(
        post.in_flight_trades@,
        blocks,
        pre_auction.orders@,
    )
    &&& post_auction.block == pre_auction.block
    &&& post_auction.latest_settlement_block == pre_auction.latest_settlement_block
    &&& post_auction.prices@ == pre_auction.prices@
    &&& (forall|uid: OrderUid| #[trigger] returned.contains(uid) <==> uid_in_blocks(blocks, uid))
    &&& (forall|i: int, j: int| 0 <= i < j < returned.len() ==> returned[i] != returned[j])
}

impl InFlightOrders {
    /// Takes note of the new set of solvable orders: drops every entry the
    /// order book has caught up with, removes fill-or-kill orders with a
    /// trade still in flight from the auction, scales down partially
    /// fillable orders whose executable amounts in-flight trades tap into,
    /// and returns the identifiers of the orders considered in flight.
    pub fn update_and_filter(&mut self, auction: &mut Auction) -> (in_flight: Vec<OrderUid>)
        requires
            old(self).wf(),
        ensures
            update_and_filter_rel(
                *old(self),
                *old(auction),
                *final(self),
                *final(auction),
                in_flight@,
            ),
            final(self).wf(),
    {
        let latest = auction.latest_settlement_block;

        // If the order book has seen block X then trades starting at X + 1
        // are still in flight.
        let ghost orig_blocks = self.in_flight@;
        let mut kept: Vec<BlockOrders> = Vec::new();
        let ghost mut k: int = 0;
        while self.in_flight.len() > 0
            invariant
                old(self).wf(),
                orig_blocks == old(self).in_flight@,
                self.in_flight_trades@ == old(self).in_flight_trades@,
                0 <= k <= orig_blocks.len(),
                self.in_flight@ == orig_blocks.skip(k),
                kept@ == kept_blocks(orig_blocks.take(k), latest),
            decreases self.in_flight@.len(),
        {
            let b = self.in_flight.remove(0);
            proof {
                assert(orig_blocks.skip(k)[0] == orig_blocks[k]);
                assert(orig_blocks.skip(k).remove(0) =~= orig_blocks.skip(k + 1));
                assert(orig_blocks.take(k + 1).drop_last() =~= orig_blocks.take(k));
                assert(orig_blocks.take(k + 1).last() == orig_blocks[k]);
            }
            if b.block > latest {
                kept.push(b);
            }
            proof {
                k = k + 1;
            }
        }
        proof {
            assert(orig_blocks.take(k) =~= orig_blocks);
        }
        self.in_flight = kept;
        let ghost blocks = self.in_flight@;
        proof {
            lemma_kept_blocks_props(orig_blocks, latest);
        }

        // Prune trade snapshots of orders that are no longer in flight.
        let ghost orig_trades = self.in_flight_trades@;
        let mut kept_entries: Vec<TradeEntry> = Vec::new();
        let ghost mut t: int = 0;
        while self.in_flight_trades.len() > 0
            invariant
                old(self).wf(),
                orig_trades == old(self).in_flight_trades@,
                0 <= t <= orig_trades.len(),
                self.in_flight@ == blocks,
                self.in_flight_trades@ == orig_trades.skip(t),
                kept_entries@ == kept_trades(orig_trades.take(t), blocks),
            decreases self.in_flight_trades@.len(),
        {
            let e = self.in_flight_trades.remove(0);
            let keep = blocks_contain(&self.in_flight, e.uid);
            proof {
                assert(orig_trades.skip(t)[0] == orig_trades[t]);
                assert(orig_trades.skip(t).remove(0) =~= orig_trades.skip(t + 1));
                assert(orig_trades.take(t + 1).drop_last() =~= orig_trades.take(t));
                assert(orig_trades.take(t + 1).last() == orig_trades[t]);
            }
            if keep {
                kept_entries.push(e);
            }
            proof {
                t = t + 1;
            }
        }
        proof {
            assert(orig_trades.take(t) =~= orig_trades);
        }
        self.in_flight_trades = kept_entries;
        let ghost entries = self.in_flight_trades@;
        proof {
            lemma_kept_trades_props(orig_trades, blocks);
            assert forall|i: int| 0 <= i < entries.len() implies wf_entry(#[trigger] entries[i]) by {
                assert(orig_trades.contains(entries[i]));
                let w = choose|w: int| 0 <= w < orig_trades.len() && orig_trades[w] == entries[i];
                assert(wf_entry(orig_trades[w]));
            }
        }

        // Apply the in-flight effects to the auction orders and keep only
        // the ones with remaining executable amount.
        let ghost pre_orders = auction.orders@;
        let mut new_orders: Vec<Order> = Vec::new();
        let n = auction.orders.len();
        let mut i: usize = 0;
        while i < n
            invariant
                0 <= i <= n,
                n == pre_orders.len(),
                auction.orders@ == pre_orders,
                self.in_flight@ == blocks,
                self.in_flight_trades@ == entries,
                forall|w: int| 0 <= w < entries.len() ==> wf_entry(#[trigger] entries[w]),
                new_orders@ == filtered_orders(entries, blocks, pre_orders.take(i as int)),
            decreases n - i,
        {
            let o = auction.orders[i];
            let adjusted: Order;
            if o.data.partially_fillable {
                match find_snapshot_index(&self.in_flight_trades, o.metadata.uid) {
                    Some(j) => {
                        adjusted = self.in_flight_trades[j].snapshot.order_with_remaining_amounts();
                    },
                    None => {
                        adjusted = o;
                    },
                }
            } else if blocks_contain(&self.in_flight, o.metadata.uid) {
                // A fill-or-kill order can be used only once and a trade
                // for it is already in flight: mark it fully executed so
                // the next step filters it out.
                let mut forced = o;
                forced.metadata.executed_buy_amount = o.data.buy_amount;
                forced.metadata.executed_sell_amount_before_fees = o.data.sell_amount;
                adjusted = forced;
            } else {
                adjusted = o;
            }
            proof {
                assert(adjusted == adjust_order(entries, blocks, pre_orders[i as int]));
                assert(pre_orders.take(i + 1).drop_last() =~= pre_orders.take(i as int));
                assert(pre_orders.take(i + 1).last() == pre_orders[i as int]);
            }
            if order_has_remaining_amounts(&adjusted) {
                new_orders.push(adjusted);
            }
            i = i + 1;
        }
        proof {
            assert(pre_orders.take(n as int) =~= pre_orders);
        }
        auction.orders = new_orders;

        // Collect the identifiers still in flight, without duplicates.
        let mut in_flight_uids: Vec<OrderUid> = Vec::new();
        let mut bi: usize = 0;
        while bi < self.in_flight.len()
            invariant
                0 <= bi <= blocks.len(),
                self.in_flight@ == blocks,
                self.in_flight_trades@ == entries,
                forall|uid: OrderUid| #[trigger]
                    in_flight_uids@.contains(uid) <==> uid_in_blocks(blocks.take(bi as int), uid),
                forall|x: int, y: int|
                    0 <= x < y < in_flight_uids@.len() ==> in_flight_uids@[x]
                        != in_flight_uids@[y],
            decreases blocks.len() - bi,
        {
            let m = self.in_flight[bi].uids.len();
            let ghost cur = blocks[bi as int].uids@;
            let mut ui: usize = 0;
            while ui < m
                invariant
                    0 <= ui <= m,
                    0 <= bi < blocks.len(),
                    m == cur.len(),
                    cur == blocks[bi as int].uids@,
                    self.in_flight@ == blocks,
                    self.in_flight_trades@ == entries,
                    forall|uid: OrderUid| #[trigger]
                        in_flight_uids@.contains(uid) <==> (uid_in_blocks(
                            blocks.take(bi as int),
                            uid,
                        ) || cur.take(ui as int).contains(uid)),
                    forall|x: int, y: int|
                        0 <= x < y < in_flight_uids@.len() ==> in_flight_uids@[x]
                            != in_flight_uids@[y],
                decreases m - ui,
            {
                let u = self.in_flight[bi].uids[ui];
                let ghost before = in_flight_uids@;
                if !uids_contain(&in_flight_uids, u) {
                    in_flight_uids.push(u);
                }
                proof {
                    assert(cur.take(ui + 1).drop_last() =~= cur.take(ui as int));
                    assert(cur.take(ui + 1).last() == cur[ui as int]);
                    assert forall|uid: OrderUid| #[trigger]
                        cur.take(ui + 1).contains(uid) <==> (cur.take(ui as int).contains(uid)
                            || uid == u) by {
                        lemma_push_contains(cur.take(ui as int), cur[ui as int], uid);
                        assert(cur.take(ui + 1) =~= cur.take(ui as int).push(cur[ui as int]));
                    }
                    if !before.contains(u) {
                        assert forall|uid: OrderUid| #[trigger]
                            in_flight_uids@.contains(uid) <==> (before.contains(uid) || uid
                                == u) by {
                            lemma_push_contains(before, u, uid);
                        }
                    }
                }
                ui = ui + 1;
            }
            proof {
                assert(cur.take(m as int) =~= cur);
                assert forall|uid: OrderUid| #[trigger]
                    in_flight_uids@.contains(uid) <==> uid_in_blocks(
                        blocks.take(bi + 1),
                        uid,
                    ) by {
                    lemma_uid_in_blocks_take_step(blocks, bi as int, uid);
                    assert(in_flight_uids@.contains(uid) <==> (uid_in_blocks(
                        blocks.take(bi as int),
                        uid,
                    ) || cur.take(m as int).contains(uid)));
                    assert(cur.take(m as int) == cur);
                }
            }
            bi = bi + 1;
        }
        proof {
            assert(blocks.take(blocks.len() as int) =~= blocks);
        }
        in_flight_uids
    }
}

/// The identifiers of all traded orders of a settlement, in trade order.
pub open spec fn traded_uids(trades: Seq<Trade>) -> Seq<OrderUid> {
    trades.map_values(|t: Trade| t.order.metadata.uid)
}

/// The settlement trades a partially fillable order with this identifier.
pub open spec fn pf_traded(trades: Seq<Trade>, uid: OrderUid) -> bool {
    exists|i: int|
        0 <= i < trades.len() && (#[trigger] trades[i]).order.data.partially_fillable
            && trades[i].order.metadata.uid == uid
}

/// The executions of the partially fillable trades with this identifier,
/// in trade order.
pub open spec fn executions_for(trades: Seq<Trade>, uid: OrderUid) -> Seq<TradeExecution>
    decreases trades.len(),
{
    if trades.len() == 0 {
        Seq::empty()
    } else {
        let rest = executions_for(trades.drop_last(), uid);
        if trades.last().order.data.partially_fillable && trades.last().order.metadata.uid
            == uid {
            rest.push(trades.last().execution)
        } else {
            rest
        }
    }
}

/// The order attached to the first partially fillable trade with this
/// identifier.
pub open spec fn first_pf_order_for(trades: Seq<Trade>, uid: OrderUid) -> Option<Order>
    decreases trades.len(),
{
    if trades.len() == 0 {
        None
    } else if trades[0].order.data.partially_fillable && trades[0].order.metadata.uid == uid {
        Some(trades[0].order)
    } else {
        first_pf_order_for(trades.drop_first(), uid)
    }
}

/// The stored snapshot for this identifier is exactly what the settlement
/// prescribes: the order of its first partially fillable trade, and all of
/// that order's executions.
pub open spec fn snapshot_matches(
    entries: Seq<TradeEntry>,
    trades: Seq<Trade>,
    uid: OrderUid,
) -> bool {
    match snapshot_for(entries, uid) {
        Some(p) => {
            &&& Some(p.order) == first_pf_order_for(trades, uid)
            &&& p.in_flight_trades@ == executions_for(trades, uid)
        },
        None => false,
    }
}

/// The snapshot a settlement induces for this identifier stays within the
/// integer width when added onto the order's executed amounts.
pub open spec fn snapshot_fits(trades: Seq<Trade>, uid: OrderUid) -> bool {
    match first_pf_order_for(trades, uid) {
        Some(o) => {
            let sums = trade_sums(executions_for(trades, uid));
            &&& o.metadata.executed_buy_amount + sums.1 <= u128::MAX
            &&& o.metadata.executed_sell_amount + sums.0 + sums.2 <= u128::MAX
            &&& o.metadata.executed_sell_amount_before_fees + sums.0 <= u128::MAX
            &&& o.metadata.executed_fee_amount + sums.2 <= u128::MAX
        },
        None => true,
    }
}

/// Every snapshot the settlement induces fits the integer width.
pub open spec fn settlement_snapshots_fit(trades: Seq<Trade>) -> bool {
    forall|uid: OrderUid| #[trigger] pf_traded(trades, uid) ==> snapshot_fits(trades, uid)
}

/// The identifiers recorded as settled in this block: the entry of the
/// block, or empty when there is none.
pub open spec fn uids_at(blocks: Seq<BlockOrders>, block: u64) -> Seq<OrderUid>
    decreases blocks.len(),
{
    if blocks.len() == 0 {
        Seq::empty()
    } else if blocks[0].block == block {
        blocks[0].uids@
    } else {
        uids_at(blocks.drop_first(), block)
    }
}

/// How `mark_settled_orders` relates the tracker before the call to the
/// tracker after it: the traded identifiers are appended to the block's
/// entry, other blocks stay as they were, the snapshot of every partially
/// fillable traded order is overwritten with what this settlement
/// prescribes, and all other snapshots stay as they were.
pub open spec fn mark_settled_rel(
    pre: InFlightOrders,
    block: u64,
    s: Settlement,
    post: InFlightOrders,
) -> bool {
    &&& uids_at(post.in_flight@, block) == uids_at(pre.in_flight@, block) + traded_uids(s.trades@)
    &&& forall|b: u64|
        b != block ==> #[trigger] uids_at(post.in_flight@, b) == uids_at(pre.in_flight@, b)
    &&& forall|uid: OrderUid| #[trigger]
        pf_traded(s.trades@, uid) ==> snapshot_matches(post.in_flight_trades@, s.trades@, uid)
    &&& forall|uid: OrderUid|
        !pf_traded(s.trades@, uid) ==> #[trigger] snapshot_for(post.in_flight_trades@, uid)
            == snapshot_for(pre.in_flight_trades@, uid)
}

proof fn lemma_first_pf_order_index(trades: Seq<Trade>, uid: OrderUid, i: int)
    requires
        0 <= i < trades.len(),
        trades[i].order.data.partially_fillable,
        trades[i].order.metadata.uid == uid,
        forall|k: int|
            0 <= k < i ==> !((#[trigger] trades[k]).order.data.partially_fillable
                && trades[k].order.metadata.uid == uid),
    ensures
        first_pf_order_for(trades, uid) == Some(trades[i].order),
    decreases i,
{
    if i > 0 {
        lemma_first_pf_order_index(trades.drop_first(), uid, i - 1);
    }
}

proof fn lemma_uids_at_index(blocks: Seq<BlockOrders>, block: u64, i: int)
    requires
        0 <= i < blocks.len(),
        blocks[i].block == block,
        forall|k: int| 0 <= k < i ==> (#[trigger] blocks[k]).block != block,
    ensures
        uids_at(blocks, block) == blocks[i].uids@,
    decreases i,
{
    if i > 0 {
        lemma_uids_at_index(blocks.drop_first(), block, i - 1);
    }
}

proof fn lemma_uids_at_none(blocks: Seq<BlockOrders>, block: u64)
    requires
        forall|k: int| 0 <= k < blocks.len() ==> (#[trigger] blocks[k]).block != block,
    ensures
        uids_at(blocks, block) == Seq::<OrderUid>::empty(),
    decreases blocks.len(),
{
    if blocks.len() > 0 {
        lemma_uids_at_none(blocks.drop_first(), block);
    }
}

/// Replacing the entry at `i` by one with the same block changes the
/// lookup of that block only.
proof fn lemma_uids_at_update(blocks: Seq<BlockOrders>, i: int, e: BlockOrders, b: u64)
    requires
        0 <= i < blocks.len(),
        e.block == blocks[i].block,
        forall|k: int| 0 <= k < i ==> (#[trigger] blocks[k]).block != e.block,
    ensures
        uids_at(blocks.update(i, e), e.block) == e.uids@,
        b != e.block ==> uids_at(blocks.update(i, e), b) == uids_at(blocks, b),
    decreases i,
{
    let updated = blocks.update(i, e);
    if i == 0 {
        assert(updated[0] == e);
        if b != e.block {
            assert(updated.drop_first() =~= blocks.drop_first());
        }
    } else {
        assert(updated[0] == blocks[0]);
        assert(updated.drop_first() =~= blocks.drop_first().update(i - 1, e));
        lemma_uids_at_update(blocks.drop_first(), i - 1, e, b);
    }
}

/// Appending an entry for a block with no prior entry adds that lookup and
/// changes no other.
proof fn lemma_uids_at_push(blocks: Seq<BlockOrders>, e: BlockOrders, b: u64)
    requires
        forall|k: int| 0 <= k < blocks.len() ==> (#[trigger] blocks[k]).block != e.block,
    ensures
        uids_at(blocks.push(e), e.block) == e.uids@,
        b != e.block ==> uids_at(blocks.push(e), b) == uids_at(blocks, b),
    decreases blocks.len(),
{
    if blocks.len() == 0 {
        assert(blocks.push(e)[0] == e);
        if b != e.block {
            assert(blocks.push(e).drop_first() =~= Seq::<BlockOrders>::empty());
            assert(uids_at(blocks.push(e), b) == uids_at(Seq::<BlockOrders>::empty(), b));
            assert(uids_at(blocks, b) == Seq::<OrderUid>::empty());
        }
    } else {
        assert(blocks.push(e)[0] == blocks[0]);
        assert(blocks.push(e).drop_first() =~= blocks.drop_first().push(e));
        assert forall|k: int| 0 <= k < blocks.drop_first().len() implies (
        #[trigger] blocks.drop_first()[k]).block != e.block by {
            assert(blocks.drop_first()[k] == blocks[k + 1]);
        }
        lemma_uids_at_push(blocks.drop_first(), e, b);
        if b != e.block {
            if blocks[0].block == b {
                assert(uids_at(blocks.push(e), b) == blocks[0].uids@);
            } else {
                assert(uids_at(blocks.push(e), b) == uids_at(blocks.drop_first().push(e), b));
            }
        }
    }
}

/// Replacing the entry at `i` by one with the same identifier changes the
/// snapshot lookup of that identifier only.
proof fn lemma_snapshot_for_update(entries: Seq<TradeEntry>, i: int, e: TradeEntry, u: OrderUid)
    requires
        0 <= i < entries.len(),
        e.uid == entries[i].uid,
        forall|k: int| 0 <= k < i ==> (#[trigger] entries[k]).uid != e.uid,
    ensures
        snapshot_for(entries.update(i, e), e.uid) == Some(e.snapshot),
        u != e.uid ==> snapshot_for(entries.update(i, e), u) == snapshot_for(entries, u),
    decreases i,
{
    let updated = entries.update(i, e);
    if i == 0 {
        assert(updated[0] == e);
        if u != e.uid {
            assert(updated.drop_first() =~= entries.drop_first());
        }
    } else {
        assert(updated[0] == entries[0]);
        assert(updated.drop_first() =~= entries.drop_first().update(i - 1, e));
        lemma_snapshot_for_update(entries.drop_first(), i - 1, e, u);
    }
}

/// Appending an entry for an identifier with no prior entry adds that
/// lookup and changes no other.
proof fn lemma_snapshot_for_push(entries: Seq<TradeEntry>, e: TradeEntry, u: OrderUid)
    requires
        forall|k: int| 0 <= k < entries.len() ==> (#[trigger] entries[k]).uid != e.uid,
    ensures
        snapshot_for(entries.push(e), e.uid) == Some(e.snapshot),
        u != e.uid ==> snapshot_for(entries.push(e), u) == snapshot_for(entries, u),
    decreases entries.len(),
{
    if entries.len() == 0 {
        assert(entries.push(e)[0] == e);
        if u != e.uid {
            assert(entries.push(e).drop_first() =~= Seq::<TradeEntry>::empty());
            assert(snapshot_for(entries.push(e), u) == snapshot_for(
                Seq::<TradeEntry>::empty(),
                u,
            ));
            assert(snapshot_for(entries, u) is None);
        }
    } else {
        assert(entries.push(e)[0] == entries[0]);
        assert(entries.push(e).drop_first() =~= entries.drop_first().push(e));
        assert forall|k: int| 0 <= k < entries.drop_first().len() implies (
        #[trigger] entries.drop_first()[k]).uid != e.uid by {
            assert(entries.drop_first()[k] == entries[k + 1]);
        }
        lemma_snapshot_for_push(entries.drop_first(), e, u);
        if u != e.uid {
            if entries[0].uid == u {
                assert(snapshot_for(entries.push(e), u) == Some(entries[0].snapshot));
            } else {
                assert(snapshot_for(entries.push(e), u) == snapshot_for(
                    entries.drop_first().push(e),
                    u,
                ));
            }
        }
    }
}

proof fn lemma_pf_traded_take_step(trades: Seq<Trade>, i: int, u: OrderUid)
    requires
        0 <= i < trades.len(),
    ensures
        pf_traded(trades.take(i + 1), u) <==> (pf_traded(trades.take(i), u) || (
        trades[i].order.data.partially_fillable && trades[i].order.metadata.uid == u)),
{
    let taken = trades.take(i + 1);
    if pf_traded(taken, u) {
        let w = choose|w: int|
            0 <= w < taken.len() && (#[trigger] taken[w]).order.data.partially_fillable
                && taken[w].order.metadata.uid == u;
        if w < i {
            assert(trades.take(i)[w] == taken[w]);
            assert((#[trigger] trades.take(i)[w]).order.data.partially_fillable && trades.take(
                i,
            )[w].order.metadata.uid == u);
        } else {
            assert(taken[w] == trades[i]);
        }
    }
    if pf_traded(trades.take(i), u) {
        let w = choose|w: int|
            0 <= w < i && (#[trigger] trades.take(i)[w]).order.data.partially_fillable
                && trades.take(i)[w].order.metadata.uid == u;
        assert((#[trigger] taken[w]).order.data.partially_fillable && taken[w].order.metadata.uid
            == u);
    }
    if trades[i].order.data.partially_fillable && trades[i].order.metadata.uid == u {
        assert((#[trigger] taken[i]).order.data.partially_fillable && taken[i].order.metadata.uid
            == u);
    }
}

fn find_block_index(blocks: &Vec<BlockOrders>, block: u64) -> (r: Option<usize>)
    ensures
        match r {
            Some(bi) => bi < blocks@.len() && blocks@[bi as int].block == block && forall|k: int|
                0 <= k < bi ==> (#[trigger] blocks@[k]).block != block,
            None => forall|k: int|
                0 <= k < blocks@.len() ==> (#[trigger] blocks@[k]).block != block,
        },
{
    let mut i: usize = 0;
    while i < blocks.len()
        invariant
            0 <= i <= blocks@.len(),
            forall|k: int| 0 <= k < i ==> (#[trigger] blocks@[k]).block != block,
        decreases blocks@.len() - i,
    {
        if blocks[i].block == block {
            return Some(i);
        }
        i = i + 1;
    }
    None
}

fn pf_uid_seen(trades: &Vec<Trade>, upto: usize, uid: OrderUid) -> (r: bool)
    requires
        upto <= trades@.len(),
    ensures
        r == pf_traded(trades@.take(upto as int), uid),
{
    let mut j: usize = 0;
    while j < upto
        invariant
            0 <= j <= upto <= trades@.len(),
            forall|k: int|
                0 <= k < j ==> !((#[trigger] trades@[k]).order.data.partially_fillable
                    && trades@[k].order.metadata.uid == uid),
        decreases upto - j,
    {
        let o = &trades[j].order;
        if o.data.partially_fillable && o.metadata.uid == uid {
            proof {
                assert(trades@.take(upto as int)[j as int] == trades@[j as int]);
            }
            return true;
        }
        j = j + 1;
    }
    proof {
        if pf_traded(trades@.take(upto as int), uid) {
            let w = choose|w: int|
                0 <= w < upto && (#[trigger] trades@.take(upto as int)[w]).order.data.partially_fillable
                    && trades@.take(upto as int)[w].order.metadata.uid == uid;
            assert(trades@[w] == trades@.take(upto as int)[w]);
        }
    }
    false
}

impl InFlightOrders {
    /// Records every traded order of the settlement as settled in `block`
    /// and, for each partially fillable order with one or more trades in
    /// this settlement, overwrites its snapshot with the most recent data:
    /// the order as submitted and all its executions.
    pub fn mark_settled_orders(&mut self, block: u64, settlement: &Settlement)
        requires
            old(self).wf(),
            settlement_snapshots_fit(settlement.trades@),
        ensures
            mark_settled_rel(*old(self), block, *settlement, *final(self)),
            final(self).wf(),
    {
        let ghost trades = settlement.trades@;
        let n = settlement.trades.len();

        // Record every traded order under `block`.
        match find_block_index(&self.in_flight, block) {
            Some(bi) => {
                let mut entry = self.in_flight.remove(bi);
                let ghost entry0 = entry;
                let mut i: usize = 0;
                while i < n
                    invariant
                        n == trades.len(),
                        trades == settlement.trades@,
                        0 <= i <= n,
                        old(self).wf(),
                        0 <= bi < old(self).in_flight@.len(),
                        entry0 == old(self).in_flight@[bi as int],
                        self.in_flight@ == old(self).in_flight@.remove(bi as int),
                        self.in_flight_trades@ == old(self).in_flight_trades@,
                        entry.block == entry0.block,
                        entry.uids@ == entry0.uids@ + traded_uids(trades.take(i as int)),
                    decreases n - i,
                {
                    let u = settlement.trades[i].order.metadata.uid;
                    entry.uids.push(u);
                    proof {
                        assert(traded_uids(trades.take(i + 1)) =~= traded_uids(
                            trades.take(i as int),
                        ).push(u));
                        assert(entry0.uids@ + traded_uids(trades.take(i + 1)) =~= (entry0.uids@
                            + traded_uids(trades.take(i as int))).push(u));
                    }
                    i = i + 1;
                }
                proof {
                    assert(trades.take(n as int) =~= trades);
                }
                self.in_flight.insert(bi, entry);
                proof {
                    let pre = old(self).in_flight@;
                    assert(self.in_flight@ =~= pre.update(bi as int, entry));
                    lemma_uids_at_index(pre, block, bi as int);
                    assert forall|b: u64| b != block implies #[trigger] uids_at(
                        self.in_flight@,
                        b,
                    ) == uids_at(pre, b) by {
                        lemma_uids_at_update(pre, bi as int, entry, b);
                    }
                    lemma_uids_at_update(pre, bi as int, entry, block);
                    assert forall|x: int, y: int|
                        0 <= x < y < self.in_flight@.len() implies (
                    #[trigger] self.in_flight@[x]).block != (
                    #[trigger] self.in_flight@[y]).block by {
                        assert(self.in_flight@[x].block == pre[x].block);
                        assert(self.in_flight@[y].block == pre[y].block);
                    }
                }
            },
            None => {
                let mut uids: Vec<OrderUid> = Vec::new();
                let mut i: usize = 0;
                while i < n
                    invariant
                        n == trades.len(),
                        trades == settlement.trades@,
                        0 <= i <= n,
                        old(self).wf(),
                        self.in_flight@ == old(self).in_flight@,
                        self.in_flight_trades@ == old(self).in_flight_trades@,
                        forall|k: int|
                            0 <= k < old(self).in_flight@.len() ==> (#[trigger] old(
                                self,
                            ).in_flight@[k]).block != block,
                        uids@ == traded_uids(trades.take(i as int)),
                    decreases n - i,
                {
                    let u = settlement.trades[i].order.metadata.uid;
                    uids.push(u);
                    proof {
                        assert(traded_uids(trades.take(i + 1)) =~= traded_uids(
                            trades.take(i as int),
                        ).push(u));
                    }
                    i = i + 1;
                }
                proof {
                    assert(trades.take(n as int) =~= trades);
                }
                let new_entry = BlockOrders { block, uids };
                self.in_flight.push(new_entry);
                proof {
                    let pre = old(self).in_flight@;
                    lemma_uids_at_none(pre, block);
                    assert forall|b: u64| b != block implies #[trigger] uids_at(
                        self.in_flight@,
                        b,
                    ) == uids_at(pre, b) by {
                        lemma_uids_at_push(pre, self.in_flight@.last(), b);
                    }
                    lemma_uids_at_push(pre, self.in_flight@.last(), block);
                    assert(uids_at(self.in_flight@, block) =~= uids_at(pre, block) + traded_uids(
                        trades,
                    ));
                    assert forall|x: int, y: int|
                        0 <= x < y < self.in_flight@.len() implies (
                    #[trigger] self.in_flight@[x]).block != (
                    #[trigger] self.in_flight@[y]).block by {
                        if y < pre.len() {
                            assert(self.in_flight@[x] == pre[x]);
                            assert(self.in_flight@[y] == pre[y]);
                        } else {
                            assert(self.in_flight@[x] == pre[x]);
                            assert(self.in_flight@[y].block == block);
                        }
                    }
                }
            },
        }
        let ghost blocks_after = self.in_flight@;
        let ghost entries0 = self.in_flight_trades@;

        // Overwrite the snapshot of every partially fillable traded order
        // with the most recent data.
        let mut i: usize = 0;
        while i < n
            invariant
                n == trades.len(),
                trades == settlement.trades@,
                0 <= i <= n,
                settlement_snapshots_fit(trades),
                self.in_flight@ == blocks_after,
                entries0 == old(self).in_flight_trades@,
                uids_at(blocks_after, block) == uids_at(old(self).in_flight@, block)
                    + traded_uids(trades),
                forall|b: u64|
                    b != block ==> #[trigger] uids_at(blocks_after, b) == uids_at(
                        old(self).in_flight@,
                        b,
                    ),
                forall|x: int, y: int|
                    0 <= x < y < blocks_after.len() ==> (#[trigger] blocks_after[x]).block != (
                    #[trigger] blocks_after[y]).block,
                forall|x: int, y: int|
                    0 <= x < y < self.in_flight_trades@.len() ==> (
                    #[trigger] self.in_flight_trades@[x]).uid != (
                    #[trigger] self.in_flight_trades@[y]).uid,
                forall|x: int|
                    0 <= x < self.in_flight_trades@.len() ==> wf_entry(
                        #[trigger] self.in_flight_trades@[x],
                    ),
                forall|uid: OrderUid| #[trigger]
                    pf_traded(trades.take(i as int), uid) ==> snapshot_matches(
                        self.in_flight_trades@,
                        trades,
                        uid,
                    ),
                forall|uid: OrderUid|
                    !pf_traded(trades.take(i as int), uid) ==> #[trigger] snapshot_for(
                        self.in_flight_trades@,
                        uid,
                    ) == snapshot_for(entries0, uid),
            decreases n - i,
        {
            let tr_order = settlement.trades[i].order;
            let ghost pre_entries = self.in_flight_trades@;
            if tr_order.data.partially_fillable {
                let uid = tr_order.metadata.uid;
                if !pf_uid_seen(&settlement.trades, i, uid) {
                    proof {
                        assert forall|k: int|
                            0 <= k < i implies !((#[trigger] trades[k]).order.data.partially_fillable
                                && trades[k].order.metadata.uid == uid) by {
                            if trades[k].order.data.partially_fillable
                                && trades[k].order.metadata.uid == uid {
                                assert((#[trigger] trades.take(
                                    i as int,
                                )[k]).order.data.partially_fillable && trades.take(
                                    i as int,
                                )[k].order.metadata.uid == uid);
                            }
                        }
                        lemma_first_pf_order_index(trades, uid, i as int);
                    }
                    // Gather all executions of this order in the
                    // settlement, in trade order.
                    let mut execs: Vec<TradeExecution> = Vec::new();
                    let mut j: usize = 0;
                    while j < n
                        invariant
                            n == trades.len(),
                            trades == settlement.trades@,
                            0 <= j <= n,
                            execs@ == executions_for(trades.take(j as int), uid),
                        decreases n - j,
                    {
                        let pf = settlement.trades[j].order.data.partially_fillable;
                        let matches_uid = settlement.trades[j].order.metadata.uid == uid;
                        if pf && matches_uid {
                            execs.push(settlement.trades[j].execution);
                        }
                        proof {
                            assert(trades.take(j + 1).drop_last() =~= trades.take(j as int));
                            assert(trades.take(j + 1).last() == trades[j as int]);
                        }
                        j = j + 1;
                    }
                    proof {
                        assert(trades.take(n as int) =~= trades);
                    }
                    let snapshot = PartiallyFilledOrder {
                        order: tr_order,
                        in_flight_trades: execs,
                    };
                    let new_entry = TradeEntry { uid, snapshot };
                    let ghost new_entry_g = new_entry;
                    proof {
                        assert(pf_traded(trades, uid)) by {
                            assert((#[trigger] trades[i as int]).order.data.partially_fillable
                                && trades[i as int].order.metadata.uid == uid);
                        }
                        assert(wf_entry(new_entry_g));
                    }
                    match find_snapshot_index(&self.in_flight_trades, uid) {
                        Some(jj) => {
                            self.in_flight_trades.remove(jj);
                            self.in_flight_trades.insert(jj, new_entry);
                            proof {
                                assert(self.in_flight_trades@ =~= pre_entries.update(
                                    jj as int,
                                    new_entry_g,
                                ));
                                lemma_snapshot_for_update(
                                    pre_entries,
                                    jj as int,
                                    new_entry_g,
                                    uid,
                                );
                                assert forall|u: OrderUid|
                                    u != uid implies #[trigger] snapshot_for(
                                    self.in_flight_trades@,
                                    u,
                                ) == snapshot_for(pre_entries, u) by {
                                    lemma_snapshot_for_update(
                                        pre_entries,
                                        jj as int,
                                        new_entry_g,
                                        u,
                                    );
                                }
                                assert forall|x: int|
                                    0 <= x < self.in_flight_trades@.len() implies (
                                #[trigger] self.in_flight_trades@[x]).uid
                                    == pre_entries[x].uid by {}
                            }
                        },
                        None => {
                            self.in_flight_trades.push(new_entry);
                            proof {
                                lemma_snapshot_for_push(pre_entries, new_entry_g, uid);
                                assert forall|u: OrderUid|
                                    u != uid implies #[trigger] snapshot_for(
                                    self.in_flight_trades@,
                                    u,
                                ) == snapshot_for(pre_entries, u) by {
                                    lemma_snapshot_for_push(pre_entries, new_entry_g, u);
                                }
                                assert forall|x: int, y: int|
                                    0 <= x < y < self.in_flight_trades@.len() implies (
                                #[trigger] self.in_flight_trades@[x]).uid != (
                                #[trigger] self.in_flight_trades@[y]).uid by {
                                    if y < pre_entries.len() {
                                        assert(self.in_flight_trades@[x] == pre_entries[x]);
                                        assert(self.in_flight_trades@[y] == pre_entries[y]);
                                    } else {
                                        assert(self.in_flight_trades@[x] == pre_entries[x]);
                                        assert(self.in_flight_trades@[y] == new_entry_g);
                                    }
                                }
                            }
                        },
                    }
                    proof {
                        assert(snapshot_for(self.in_flight_trades@, uid) == Some(
                            new_entry_g.snapshot,
                        ));
                        assert(snapshot_matches(self.in_flight_trades@, trades, uid));
                    }
                }
            }
            proof {
                assert forall|uid: OrderUid| #[trigger]
                    pf_traded(trades.take(i + 1), uid) implies snapshot_matches(
                    self.in_flight_trades@,
                    trades,
                    uid,
                ) by {
                    lemma_pf_traded_take_step(trades, i as int, uid);
                    if pf_traded(trades.take(i as int), uid) {
                        assert(snapshot_matches(pre_entries, trades, uid));
                    }
                }
                assert forall|uid: OrderUid|
                    !pf_traded(trades.take(i + 1), uid) implies #[trigger] snapshot_for(
                    self.in_flight_trades@,
                    uid,
                ) == snapshot_for(entries0, uid) by {
                    lemma_pf_traded_take_step(trades, i as int, uid);
                }
            }
            i = i + 1;
        }
        proof {
            assert(trades.take(n as int) =~= trades);
        }
    }
}

proof fn lemma_snapshot_for_member(entries: Seq<TradeEntry>, uid: OrderUid)
    ensures
        match snapshot_for(entries, uid) {
            Some(p) => exists|k: int|
                0 <= k < entries.len() && (#[trigger] entries[k]).uid == uid
                    && entries[k].snapshot == p,
            None => true,
        },
    decreases entries.len(),
{
    if entries.len() > 0 {
        if entries[0].uid == uid {
            assert((#[trigger] entries[0]).uid == uid && entries[0].snapshot
                == entries[0].snapshot);
        } else {
            lemma_snapshot_for_member(entries.drop_first(), uid);
            match snapshot_for(entries, uid) {
                Some(p) => {
                    let k = choose|k: int|
                        0 <= k < entries.drop_first().len() && (#[trigger] entries.drop_first()[k]).uid
                            == uid && entries.drop_first()[k].snapshot == p;
                    assert((#[trigger] entries[k + 1]).uid == uid && entries[k + 1].snapshot
                        == p);
                },
                None => {},
            }
        }
    }
}

/// Pruning block entries that are all still in flight changes nothing.
proof fn lemma_kept_blocks_identity(blocks: Seq<BlockOrders>, latest_settlement_block: u64)
    requires
        forall|k: int|
            0 <= k < blocks.len() ==> (#[trigger] blocks[k]).block > latest_settlement_block,
    ensures
        kept_blocks(blocks, latest_settlement_block) == blocks,
    decreases blocks.len(),
{
    if blocks.len() > 0 {
        lemma_kept_blocks_identity(blocks.drop_last(), latest_settlement_block);
        assert(blocks.drop_last().push(blocks.last()) =~= blocks);
    }
}

/// Pruning trade entries that are all still in flight changes nothing.
proof fn lemma_kept_trades_identity(entries: Seq<TradeEntry>, blocks: Seq<BlockOrders>)
    requires
        forall|k: int|
            0 <= k < entries.len() ==> uid_in_blocks(blocks, (#[trigger] entries[k]).uid),
    ensures
        kept_trades(entries, blocks) == entries,
    decreases entries.len(),
{
    if entries.len() > 0 {
        lemma_kept_trades_identity(entries.drop_last(), blocks);
        assert(entries.drop_last().push(entries.last()) =~= entries);
    }
}

/// Adjusting an already adjusted order changes nothing: the snapshot
/// replacement is a lookup by an identifier the replacement keeps, and
/// marking an order fully executed twice is the same as once.
proof fn lemma_adjust_idempotent(entries: Seq<TradeEntry>, blocks: Seq<BlockOrders>, o: Order)
    requires
        forall|x: int| 0 <= x < entries.len() ==> wf_entry(#[trigger] entries[x]),
    ensures
        adjust_order(entries, blocks, adjust_order(entries, blocks, o)) == adjust_order(
            entries,
            blocks,
            o,
        ),
{
    let adjusted = adjust_order(entries, blocks, o);
    if o.data.partially_fillable {
        match snapshot_for(entries, o.metadata.uid) {
            Some(p) => {
                lemma_snapshot_for_member(entries, o.metadata.uid);
                let k = choose|k: int|
                    0 <= k < entries.len() && (#[trigger] entries[k]).uid == o.metadata.uid
                        && entries[k].snapshot == p;
                assert(wf_entry(entries[k]));
                assert(adjusted.data.partially_fillable);
                assert(adjusted.metadata.uid == o.metadata.uid);
            },
            None => {},
        }
    }
}

/// Every order of the filtered list is an adjusted order with remaining
/// executable amount.
proof fn lemma_filtered_orders_fixed(
    entries: Seq<TradeEntry>,
    blocks: Seq<BlockOrders>,
    orders: Seq<Order>,
)
    requires
        forall|x: int| 0 <= x < entries.len() ==> wf_entry(#[trigger] entries[x]),
    ensures
        forall|k: int|
            0 <= k < filtered_orders(entries, blocks, orders).len() ==> {
                let r = #[trigger] filtered_orders(entries, blocks, orders)[k];
                adjust_order(entries, blocks, r) == r && r.has_remaining_amounts()
            },
    decreases orders.len(),
{
    if orders.len() > 0 {
        lemma_filtered_orders_fixed(entries, blocks, orders.drop_last());
        lemma_adjust_idempotent(entries, blocks, orders.last());
    }
}

/// Filtering a list whose orders are all adjusted and have remaining
/// amounts changes nothing.
proof fn lemma_filtered_orders_identity(
    entries: Seq<TradeEntry>,
    blocks: Seq<BlockOrders>,
    orders: Seq<Order>,
)
    requires
        forall|k: int|
            0 <= k < orders.len() ==> {
                let r = #[trigger] orders[k];
                adjust_order(entries, blocks, r) == r && r.has_remaining_amounts()
            },
    ensures
        filtered_orders(entries, blocks, orders) == orders,
    decreases orders.len(),
{
    if orders.len() > 0 {
        lemma_filtered_orders_identity(entries, blocks, orders.drop_last());
        assert(orders.drop_last().push(orders.last()) =~= orders);
    }
}

/// A partially fillable order whose in-flight trades sum to
/// `(sell, buy, fee)` leaves the adjustment with `executed_buy_amount`
/// grown by `buy`, `executed_sell_amount` by `sell + fee`,
/// `executed_sell_amount_before_fees` by `sell` and `executed_fee_amount`
/// by `fee`, everything else unchanged.
pub proof fn lemma_partial_fill_accounting(p: PartiallyFilledOrder)
    requires
        remaining_amounts_fit(p),
    ensures
        ({
            let sums = trade_sums(p.in_flight_trades@);
            let updated = order_with_remaining_amounts_spec(p);
            &&& updated.metadata.executed_buy_amount == p.order.metadata.executed_buy_amount
                + sums.1
            &&& updated.metadata.executed_sell_amount == p.order.metadata.executed_sell_amount
                + sums.0 + sums.2
            &&& updated.metadata.executed_sell_amount_before_fees
                == p.order.metadata.executed_sell_amount_before_fees + sums.0
            &&& updated.metadata.executed_fee_amount == p.order.metadata.executed_fee_amount
                + sums.2
            &&& updated.data == p.order.data
            &&& updated.metadata.uid == p.order.metadata.uid
            &&& updated.metadata.owner == p.order.metadata.owner
            &&& updated.metadata.status == p.order.metadata.status
        }),
{
    lemma_trade_sums_nonneg(p.in_flight_trades@);
}

/// After `update_and_filter` no fill-or-kill order with a trade still in
/// flight remains in the auction.
pub proof fn lemma_fill_or_kill_removed(
    pre: InFlightOrders,
    pre_auction: Auction,
    post: InFlightOrders,
    post_auction: Auction,
    returned: Seq<OrderUid>,
)
    requires
        pre.wf(),
        post.wf(),
        update_and_filter_rel(pre, pre_auction, post, post_auction, returned),
    ensures
        forall|k: int|
            0 <= k < post_auction.orders@.len() ==> !(!(
            #[trigger] post_auction.orders@[k]).data.partially_fillable && uid_in_blocks(
                post.in_flight@,
                post_auction.orders@[k].metadata.uid,
            )),
{
    let entries = post.in_flight_trades@;
    let blocks = post.in_flight@;
    lemma_filtered_orders_fixed(entries, blocks, pre_auction.orders@);
    assert forall|k: int|
        0 <= k < post_auction.orders@.len() implies !(!(
    #[trigger] post_auction.orders@[k]).data.partially_fillable && uid_in_blocks(
        blocks,
        post_auction.orders@[k].metadata.uid,
    )) by {
        let r = post_auction.orders@[k];
        assert(adjust_order(entries, blocks, r) == r && r.has_remaining_amounts());
        if !r.data.partially_fillable && uid_in_blocks(blocks, r.metadata.uid) {
            assert(adjust_order(entries, blocks, r) == forced_filled(r));
            assert(!forced_filled(r).has_remaining_amounts());
        }
    }
}

/// Running `update_and_filter` a second time on the result of a first run
/// yields the same tracker state, the same filtered order list and the
/// same set of in-flight identifiers.
pub proof fn lemma_update_and_filter_idempotent(
    t0: InFlightOrders,
    a0: Auction,
    t1: InFlightOrders,
    a1: Auction,
    u1: Seq<OrderUid>,
    t2: InFlightOrders,
    a2: Auction,
    u2: Seq<OrderUid>,
)
    requires
        t0.wf(),
        t1.wf(),
        update_and_filter_rel(t0, a0, t1, a1, u1),
        update_and_filter_rel(t1, a1, t2, a2, u2),
    ensures
        t2.in_flight@ == t1.in_flight@,
        t2.in_flight_trades@ == t1.in_flight_trades@,
        a2.orders@ == a1.orders@,
        forall|uid: OrderUid| #[trigger] u2.contains(uid) <==> u1.contains(uid),
{
    let latest = a0.latest_settlement_block;
    let blocks1 = kept_blocks(t0.in_flight@, latest);
    lemma_kept_blocks_props(t0.in_flight@, latest);
    lemma_kept_blocks_identity(blocks1, latest);
    lemma_kept_trades_props(t0.in_flight_trades@, blocks1);
    lemma_kept_trades_identity(t1.in_flight_trades@, blocks1);
    lemma_filtered_orders_fixed(t1.in_flight_trades@, blocks1, a0.orders@);
    lemma_filtered_orders_identity(t1.in_flight_trades@, blocks1, a1.orders@);
}

/// Marking two settlements as settled in the same block keeps the traded
/// identifiers of both, and for an order traded in both the snapshot of
/// the newer settlement wins.
pub proof fn lemma_mark_settled_overwrites(
    t0: InFlightOrders,
    block: u64,
    s1: Settlement,
    t1: InFlightOrders,
    s2: Settlement,
    t2: InFlightOrders,
)
    requires
        mark_settled_rel(t0, block, s1, t1),
        mark_settled_rel(t1, block, s2, t2),
    ensures
        uids_at(t2.in_flight@, block) == uids_at(t0.in_flight@, block) + traded_uids(s1.trades@)
            + traded_uids(s2.trades@),
        forall|b: u64|
            b != block ==> #[trigger] uids_at(t2.in_flight@, b) == uids_at(t0.in_flight@, b),
        forall|uid: OrderUid| #[trigger]
            pf_traded(s2.trades@, uid) ==> snapshot_matches(t2.in_flight_trades@, s2.trades@, uid),
        forall|uid: OrderUid| #[trigger]
            pf_traded(s1.trades@, uid) && !pf_traded(s2.trades@, uid) ==> snapshot_matches(
                t2.in_flight_trades@,
                s1.trades@,
                uid,
            ),
{
    assert(uids_at(t2.in_flight@, block) =~= uids_at(t0.in_flight@, block) + traded_uids(
        s1.trades@,
    ) + traded_uids(s2.trades@));
}

} // verus!
