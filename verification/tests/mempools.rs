use auction_core::mempools::{
    bump_gas_price, cancellation_tx, effective_status, monitor_step, select_result, Error, Kind,
    Mempool, Mempools, MonitorStep, RevertProtection, TxStatus, CANCELLATION_GAS_AMOUNT,
};
use auction_core::mempools::settlement_tx;
use auction_core::order::Address;
use auction_core::settlement::{AccessListEntry, Gas, GasPrice, Settlement, Tx, TxId};

fn mempool(kind: Kind, may_revert: bool) -> Mempool {
    Mempool { kind, deadline: 100, may_revert }
}

fn settlement(revertable: bool) -> Settlement {
    Settlement {
        auction_id: 1,
        clearing_prices: Vec::new(),
        trades: Vec::new(),
        access_list: Vec::new(),
        gas: Gas {
            estimate: 1000,
            limit: 2000,
            price: GasPrice { max_fee_per_gas: 80, max_priority_fee_per_gas: 8 },
        },
        revertable,
    }
}

#[test]
fn new_without_mempools_is_refused() {
    assert!(Mempools::new(Vec::new()).is_err());
    assert!(Mempools::new(vec![mempool(Kind::Private, false)]).is_ok());
}

#[test]
fn revert_protection_disabled_by_unprotected_public_mempool() {
    let protected = mempool(Kind::Public(RevertProtection::Enabled), false);
    let unprotected = mempool(Kind::Public(RevertProtection::Disabled), true);
    let private = mempool(Kind::Private, false);

    let m = Mempools::new(vec![protected, unprotected]).unwrap();
    assert_eq!(m.revert_protection(), RevertProtection::Disabled);

    let m = Mempools::new(vec![protected, private]).unwrap();
    assert_eq!(m.revert_protection(), RevertProtection::Enabled);
}

#[test]
fn revert_protection_rejects_risky_mempool() {
    // Both mempools protected: a revertable settlement is blocked on any
    // mempool that may include reverting transactions.
    let a = mempool(Kind::Public(RevertProtection::Enabled), true);
    let b = mempool(Kind::Public(RevertProtection::Enabled), true);
    let m = Mempools::new(vec![a, b]).unwrap();
    let risky = settlement(true);
    assert!(!m.allowed_to_submit(&a, &risky));
    assert!(!m.allowed_to_submit(&b, &risky));
    let safe = settlement(false);
    assert!(m.allowed_to_submit(&a, &safe));

    // One public mempool without protection: the whole set counts as
    // unprotected and nothing is gated.
    let c = mempool(Kind::Public(RevertProtection::Disabled), true);
    let m = Mempools::new(vec![a, c]).unwrap();
    assert!(m.allowed_to_submit(&a, &risky));
    assert!(m.allowed_to_submit(&c, &risky));
}

#[test]
fn monitor_step_decisions() {
    let hash = TxId(7);
    // The deadline dominates everything: cancel and report expiry.
    assert_eq!(
        monitor_step(true, hash, TxStatus::Pending, false),
        MonitorStep::CancelThenExpire
    );
    assert_eq!(
        monitor_step(true, hash, TxStatus::Executed, true),
        MonitorStep::CancelThenExpire
    );
    assert_eq!(
        monitor_step(false, hash, TxStatus::Executed, false),
        MonitorStep::Confirmed(hash)
    );
    assert_eq!(
        monitor_step(false, hash, TxStatus::Reverted, false),
        MonitorStep::RevertedOnChain(hash)
    );
    assert_eq!(
        monitor_step(false, hash, TxStatus::Pending, true),
        MonitorStep::CancelThenSimulationRevert
    );
    assert_eq!(monitor_step(false, hash, TxStatus::Pending, false), MonitorStep::Wait);
}

#[test]
fn status_query_failure_counts_as_pending() {
    assert_eq!(effective_status(None), TxStatus::Pending);
    assert_eq!(effective_status(Some(TxStatus::Executed)), TxStatus::Executed);
}

#[test]
fn expiry_sends_a_self_transfer_with_bumped_price() {
    // A pending settlement at gas price 80/8 is replaced by a 21000 gas
    // self-transfer at price 90/9: an increase of exactly one eighth.
    let solver = Address(0x501);
    let pending = GasPrice { max_fee_per_gas: 80, max_priority_fee_per_gas: 8 };
    let (tx, gas) = cancellation_tx(solver, pending);
    assert_eq!(tx.from, solver);
    assert_eq!(tx.to, solver);
    assert_eq!(tx.value, 0);
    assert!(tx.input.is_empty());
    assert!(tx.access_list.is_empty());
    assert_eq!(gas.estimate, CANCELLATION_GAS_AMOUNT);
    assert_eq!(gas.limit, CANCELLATION_GAS_AMOUNT);
    assert_eq!(gas.price.max_fee_per_gas, 90);
    assert_eq!(gas.price.max_priority_fee_per_gas, 9);
}

#[test]
fn gas_bump_rounds_up() {
    // 1 × 9 / 8 rounded up is 2: the replacement overpays by at least an
    // eighth even for tiny prices.
    let bumped = bump_gas_price(GasPrice { max_fee_per_gas: 1, max_priority_fee_per_gas: 7 });
    assert_eq!(bumped.max_fee_per_gas, 2);
    assert_eq!(bumped.max_priority_fee_per_gas, 8);
}

#[test]
fn race_takes_first_success_or_first_error() {
    let win = select_result(vec![
        Err(Error::Disabled),
        Ok(TxId(5)),
        Ok(TxId(6)),
        Err(Error::Expired),
    ]);
    assert!(matches!(win, Ok(TxId(5))));

    let lose = select_result(vec![Err(Error::Expired), Err(Error::Disabled)]);
    assert!(matches!(lose, Err(Error::Expired)));
}

#[test]
fn settlement_tx_preserves_access_list() {
    let mut s = settlement(false);
    s.access_list = vec![AccessListEntry { address: Address(9), storage_key: 4 }];
    let encoded = Tx {
        from: Address(1),
        to: Address(2),
        value: 3,
        input: vec![0xca, 0xfe],
        access_list: Vec::new(),
    };
    let tx = settlement_tx(&s, encoded);
    assert_eq!(tx.from, Address(1));
    assert_eq!(tx.to, Address(2));
    assert_eq!(tx.value, 3);
    assert_eq!(tx.input, vec![0xca, 0xfe]);
    assert_eq!(tx.access_list, s.access_list);
}
