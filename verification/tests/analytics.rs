use auction_core::analytics::{
    best_surplus_by_order, report_alternative_settlement_surplus, report_matched_but_not_settled,
    Ratio, SurplusInfo,
};
use auction_core::order::{Address, AppDataHash, Order, OrderClass, OrderData, OrderKind,
    OrderMetadata, OrderStatus, OrderUid, Signature};
use auction_core::settlement::{Gas, GasPrice, Settlement, Trade, TradeExecution};

fn order(uid: u64) -> Order {
    Order {
        data: OrderData {
            sell_token: Address(0),
            buy_token: Address(1),
            sell_amount: 100,
            buy_amount: 100,
            fee_amount: 0,
            kind: OrderKind::Sell,
            partially_fillable: false,
            app_data: AppDataHash(0),
        },
        metadata: OrderMetadata {
            uid: OrderUid(uid),
            owner: Address(0),
            status: OrderStatus::Open,
            class: OrderClass::Market,
            executed_buy_amount: 0,
            executed_sell_amount: 0,
            executed_sell_amount_before_fees: 0,
            executed_fee_amount: 0,
        },
        signature: Signature::Eip712,
    }
}

fn settlement_of(uids: &[u64]) -> Settlement {
    let trades = uids
        .iter()
        .map(|uid| Trade {
            order: order(*uid),
            executed_amount: 1,
            execution: TradeExecution { sell_amount: 1, buy_amount: 1, fee_amount: 0 },
        })
        .collect();
    Settlement {
        auction_id: 0,
        clearing_prices: Vec::new(),
        trades,
        access_list: Vec::new(),
        gas: Gas {
            estimate: 0,
            limit: 0,
            price: GasPrice { max_fee_per_gas: 0, max_priority_fee_per_gas: 0 },
        },
        revertable: false,
    }
}

fn ratio(numer: u64, denom: u64) -> Ratio {
    Ratio { numer, denom }
}

#[test]
fn matched_but_not_settled_is_the_difference() {
    let winning = settlement_of(&[1, 2]);
    let alternatives = vec![settlement_of(&[2, 3]), settlement_of(&[3, 4])];
    let missed = report_matched_but_not_settled(&winning, &alternatives);
    assert_eq!(missed, vec![OrderUid(3), OrderUid(4)]);
}

#[test]
fn matched_but_not_settled_empty_without_alternatives() {
    let winning = settlement_of(&[1]);
    let missed = report_matched_but_not_settled(&winning, &Vec::new());
    assert!(missed.is_empty());
}

#[test]
fn is_better_than_compares_exactly() {
    let half = SurplusInfo { solver: Address(1), ratio: ratio(1, 2) };
    let third = SurplusInfo { solver: Address(2), ratio: ratio(1, 3) };
    let two_quarters = SurplusInfo { solver: Address(3), ratio: ratio(2, 4) };
    assert!(half.is_better_than(&third));
    assert!(!third.is_better_than(&half));
    // Equal values are not strictly better, whatever their form.
    assert!(!half.is_better_than(&two_quarters));
    assert!(!two_quarters.is_better_than(&half));
}

#[test]
fn best_surplus_keeps_earlier_solver_on_ties() {
    let settlements = vec![
        (Address(1), vec![(OrderUid(7), ratio(1, 2))]),
        (Address(2), vec![(OrderUid(7), ratio(2, 4))]),
        (Address(3), vec![(OrderUid(7), ratio(3, 4))]),
    ];
    let best = best_surplus_by_order(&settlements);
    assert_eq!(best.len(), 1);
    assert_eq!(best[0].0, OrderUid(7));
    // The tie between solvers 1 and 2 stays with solver 1; solver 3 is
    // strictly better and takes the entry.
    assert_eq!(best[0].1.solver, Address(3));
    assert_eq!(best[0].1.ratio, ratio(3, 4));
}

#[test]
fn alternative_surplus_is_compared_per_order() {
    let submitted = vec![
        (OrderUid(1), ratio(3, 4)),
        (OrderUid(2), ratio(1, 2)),
    ];
    let alternatives = vec![
        (Address(9), vec![(OrderUid(1), ratio(1, 4)), (OrderUid(3), ratio(1, 1))]),
        (Address(8), vec![(OrderUid(1), ratio(7, 8))]),
    ];
    let comparisons =
        report_alternative_settlement_surplus(Address(5), &submitted, &alternatives);
    // Order 1 is the only one both the winner and an alternative
    // settled; the best alternative is solver 8's seven eighths.
    assert_eq!(comparisons.len(), 1);
    assert_eq!(comparisons[0].order, OrderUid(1));
    assert_eq!(comparisons[0].submitted.solver, Address(5));
    assert_eq!(comparisons[0].submitted.ratio, ratio(3, 4));
    assert_eq!(comparisons[0].alternative.solver, Address(8));
    assert_eq!(comparisons[0].alternative.ratio, ratio(7, 8));
    assert!(comparisons[0].alternative.is_better_than(&comparisons[0].submitted));
}
