use auction_core::in_flight_orders::{InFlightOrders, PartiallyFilledOrder};
use auction_core::order::{
    Address, AppDataHash, Auction, Order, OrderClass, OrderData, OrderKind, OrderMetadata,
    OrderStatus, OrderUid, Signature,
};
use auction_core::settlement::{Gas, GasPrice, Settlement, Trade, TradeExecution};

fn token(v: u64) -> Address {
    Address(v)
}

fn order(uid: u64, sell_amount: u128, buy_amount: u128, kind: OrderKind) -> Order {
    Order {
        data: OrderData {
            sell_token: token(0),
            buy_token: token(1),
            sell_amount,
            buy_amount,
            fee_amount: 0,
            kind,
            partially_fillable: false,
            app_data: AppDataHash(0),
        },
        metadata: OrderMetadata {
            uid: OrderUid(uid),
            owner: Address(0),
            status: OrderStatus::Open,
            class: OrderClass::Market,
            executed_buy_amount: 0,
            executed_sell_amount: 0,
            executed_sell_amount_before_fees: 0,
            executed_fee_amount: 0,
        },
        signature: Signature::Eip712,
    }
}

fn trade(order: Order, executed: u128) -> Trade {
    // Unit clearing prices: the execution moves `executed` of each token
    // and no fee.
    Trade {
        order,
        executed_amount: executed,
        execution: TradeExecution { sell_amount: executed, buy_amount: executed, fee_amount: 0 },
    }
}

fn settlement(trades: Vec<Trade>) -> Settlement {
    Settlement {
        auction_id: 0,
        clearing_prices: vec![(token(0), 1), (token(1), 1)],
        trades,
        access_list: Vec::new(),
        gas: Gas {
            estimate: 0,
            limit: 0,
            price: GasPrice { max_fee_per_gas: 0, max_priority_fee_per_gas: 0 },
        },
        revertable: false,
    }
}

fn auction(orders: Vec<Order>) -> Auction {
    Auction { block: 0, latest_settlement_block: 0, orders, prices: Vec::new() }
}

#[test]
fn test() {
    let fill_or_kill = order(1, 100, 100, OrderKind::Sell);

    // partially fillable order 30% filled
    let mut partially_fillable_1 = fill_or_kill;
    partially_fillable_1.data.partially_fillable = true;
    partially_fillable_1.metadata.uid = OrderUid(2);
    partially_fillable_1.metadata.executed_buy_amount = 30;
    partially_fillable_1.metadata.executed_sell_amount = 30;
    partially_fillable_1.metadata.executed_sell_amount_before_fees = 30;

    // a different partially fillable order 30% filled
    let mut partially_fillable_2 = partially_fillable_1;
    partially_fillable_2.metadata.uid = OrderUid(3);

    let trades = vec![
        trade(fill_or_kill, 100),
        // This order uses some of the remaining executable amount of
        // partially_fillable_1
        trade(partially_fillable_2, 20),
        // Following orders use remaining executable amount of
        // partially_fillable_2
        trade(partially_fillable_1, 50),
        trade(partially_fillable_1, 20),
    ];
    let settlement = settlement(trades);

    let mut inflight = InFlightOrders::default();
    inflight.mark_settled_orders(1, &settlement);
    let mut order0 = fill_or_kill;
    order0.metadata.uid = OrderUid(0);
    let mut base = auction(vec![order0, fill_or_kill, partially_fillable_1, partially_fillable_2]);

    let mut current = base.clone();
    inflight.update_and_filter(&mut current);
    let filtered = current.orders.clone();
    assert_eq!(filtered.len(), 2);
    // keep order 0 because there are no trades for it in flight
    assert_eq!(filtered[0].metadata.uid, OrderUid(0));
    // drop order 1 because it's fill-or-kill and there is already one
    // trade in flight; keep order 2 and reduce remaining executable
    // amount by trade amounts currently in flight
    assert_eq!(filtered[1].metadata.uid, OrderUid(3));
    assert_eq!(filtered[1].metadata.executed_buy_amount, 50);
    assert_eq!(filtered[1].metadata.executed_sell_amount, 50);
    assert_eq!(filtered[1].metadata.executed_sell_amount_before_fees, 50);
    // drop order 3 because in flight orders filled the remaining
    // executable amount

    base.block = 1;
    let mut current = base.clone();
    inflight.update_and_filter(&mut current);
    let filtered = current.orders.clone();
    // same behaviour as above
    assert_eq!(filtered.len(), 2);
    assert_eq!(filtered[0].metadata.uid, OrderUid(0));
    assert_eq!(filtered[1].metadata.uid, OrderUid(3));
    assert_eq!(filtered[1].metadata.executed_buy_amount, 50);
    assert_eq!(filtered[1].metadata.executed_sell_amount_before_fees, 50);

    base.latest_settlement_block = 1;
    let mut current = base.clone();
    inflight.update_and_filter(&mut current);
    let filtered = current.orders;
    // Because we drop all in-flight trades from blocks older than the
    // settlement block there is nothing left to filter solvable orders
    // by => keep all orders unaltered
    assert_eq!(filtered.len(), 4);
}

#[test]
fn test_order_is_not_excluded_when_min_buy_amount_is_reached() {
    let mut o = order(1, 100, 100, OrderKind::Sell);
    o.data.partially_fillable = true;
    // Only half filled but min buy amount already reached
    o.metadata.executed_sell_amount = 50;
    o.metadata.executed_sell_amount_before_fees = 50;
    o.metadata.executed_buy_amount = 100;
    let mut a = auction(vec![o]);
    let mut inflight = InFlightOrders::default();
    inflight.update_and_filter(&mut a);
    assert_eq!(a.orders.len(), 1);
}

#[test]
fn test_filled_buy_order_gets_filtered() {
    let mut o = order(1, 100, 100, OrderKind::Buy);
    // Filled with a lot of surplus (only needed to sell half of the
    // maximum sell amount)
    o.metadata.executed_sell_amount = 50;
    o.metadata.executed_sell_amount_before_fees = 50;
    o.metadata.executed_buy_amount = 100;
    let mut a = auction(vec![o]);
    let mut inflight = InFlightOrders::default();
    inflight.update_and_filter(&mut a);
    assert_eq!(a.orders.len(), 0);
}

#[test]
fn partially_filled_order_remaining_amounts() {
    // An order executed (30, 30, 30) with one more trade of 20 in flight
    // is offered as executed (50, 50); dropping the in-flight trade
    // returns it to its original amounts.
    let mut o = order(7, 100, 100, OrderKind::Sell);
    o.data.partially_fillable = true;
    o.metadata.executed_buy_amount = 30;
    o.metadata.executed_sell_amount = 30;
    o.metadata.executed_sell_amount_before_fees = 30;

    let s = settlement(vec![trade(o, 20)]);
    let mut inflight = InFlightOrders::default();
    inflight.mark_settled_orders(1, &s);

    let mut a = auction(vec![o]);
    a.latest_settlement_block = 0;
    let in_flight = inflight.update_and_filter(&mut a);
    assert_eq!(in_flight, vec![OrderUid(7)]);
    assert_eq!(a.orders.len(), 1);
    assert_eq!(a.orders[0].metadata.executed_buy_amount, 50);
    assert_eq!(a.orders[0].metadata.executed_sell_amount_before_fees, 50);
    assert_eq!(a.orders[0].metadata.executed_sell_amount, 50);
    assert_eq!(a.orders[0].metadata.executed_fee_amount, 0);

    // The order book has caught up: the effects are gone.
    let mut b = auction(vec![o]);
    b.latest_settlement_block = 1;
    let in_flight = inflight.update_and_filter(&mut b);
    assert!(in_flight.is_empty());
    assert_eq!(b.orders.len(), 1);
    assert_eq!(b.orders[0].metadata.executed_buy_amount, 30);
    assert_eq!(b.orders[0].metadata.executed_sell_amount_before_fees, 30);
}

#[test]
fn update_and_filter_is_idempotent() {
    let fok = order(1, 100, 100, OrderKind::Sell);
    let mut pf = order(2, 100, 100, OrderKind::Sell);
    pf.data.partially_fillable = true;
    let s = settlement(vec![trade(fok, 100), trade(pf, 10)]);
    let mut inflight = InFlightOrders::default();
    inflight.mark_settled_orders(3, &s);

    let mut a = auction(vec![fok, pf]);
    let first = inflight.update_and_filter(&mut a);
    let orders_after_first = a.orders.clone();
    let second = inflight.update_and_filter(&mut a);
    assert_eq!(a.orders, orders_after_first);
    let mut first_sorted = first.clone();
    let mut second_sorted = second.clone();
    first_sorted.sort();
    second_sorted.sort();
    assert_eq!(first_sorted, second_sorted);
}

#[test]
fn mark_settled_same_block_keeps_both_and_overwrites_snapshot() {
    let mut pf = order(5, 100, 100, OrderKind::Sell);
    pf.data.partially_fillable = true;
    let other = order(6, 50, 50, OrderKind::Sell);

    let s1 = settlement(vec![trade(pf, 10), trade(other, 50)]);
    let s2 = settlement(vec![trade(pf, 25)]);
    let mut inflight = InFlightOrders::default();
    inflight.mark_settled_orders(1, &s1);
    inflight.mark_settled_orders(1, &s2);

    // Both uid sets stay recorded under block 1: order 6 is still
    // filtered out, and order 5's snapshot now carries only the newer
    // trade of 25.
    let mut a = auction(vec![pf, other]);
    a.latest_settlement_block = 0;
    let in_flight = inflight.update_and_filter(&mut a);
    assert!(in_flight.contains(&OrderUid(5)));
    assert!(in_flight.contains(&OrderUid(6)));
    assert_eq!(a.orders.len(), 1);
    assert_eq!(a.orders[0].metadata.uid, OrderUid(5));
    assert_eq!(a.orders[0].metadata.executed_sell_amount_before_fees, 25);
    assert_eq!(a.orders[0].metadata.executed_buy_amount, 25);
}

#[test]
fn snapshot_accumulates_sell_buy_and_fee() {
    // The four cumulative counters grow by (sell, buy, fee) sums of the
    // in-flight executions: sell 7, buy 5, fee 3 twice.
    let mut o = order(9, 1000, 1000, OrderKind::Sell);
    o.data.partially_fillable = true;
    o.metadata.executed_buy_amount = 1;
    o.metadata.executed_sell_amount = 2;
    o.metadata.executed_sell_amount_before_fees = 3;
    o.metadata.executed_fee_amount = 4;
    let e = TradeExecution { sell_amount: 7, buy_amount: 5, fee_amount: 3 };
    let p = PartiallyFilledOrder { order: o, in_flight_trades: vec![e, e] };
    let updated = p.order_with_remaining_amounts();
    assert_eq!(updated.metadata.executed_buy_amount, 1 + 10);
    assert_eq!(updated.metadata.executed_sell_amount, 2 + 14 + 6);
    assert_eq!(updated.metadata.executed_sell_amount_before_fees, 3 + 14);
    assert_eq!(updated.metadata.executed_fee_amount, 4 + 6);
    assert_eq!(updated.data, o.data);
}
