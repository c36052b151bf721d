use auction_core::on_settlement_event_updater::{
    auction_id_from_metadata, fetch_auction_data, recover_auction_id_from_calldata,
    AuctionIdRecoveryStatus, ChainData, DecodedSettlement, EventRow, FeeEntry,
    OnSettlementEventUpdater, Receipt, ScoreRow, SettlementStore, Transaction, UpdateError,
};
use auction_core::order::{Address, OrderUid};
use auction_core::settlement::TxId;

fn decoded(auction_id_bytes: Option<[u8; 8]>) -> DecodedSettlement {
    DecodedSettlement {
        metadata: auction_id_bytes,
        surplus: 1000,
        fees: vec![
            FeeEntry { order: OrderUid(1), native: 10, executed_surplus_fee: Some(4) },
            FeeEntry { order: OrderUid(2), native: 32, executed_surplus_fee: None },
        ],
    }
}

fn transaction(from: Option<Address>, d: Option<DecodedSettlement>) -> Transaction {
    Transaction {
        from,
        decoded: d,
        receipt: Some(Receipt { gas_used: Some(21000), effective_gas_price: Some(15) }),
    }
}

fn store_with_event(hash: TxId) -> SettlementStore {
    SettlementStore {
        events: vec![EventRow {
            block_number: 5,
            log_index: 0,
            tx_hash: hash,
            auction_id: None,
            observation: None,
        }],
        scores: vec![(7, ScoreRow { winner: Address(0xa) })],
        auctions_with_prices: vec![7],
    }
}

const AUCTION_SEVEN: [u8; 8] = [0, 0, 0, 0, 0, 0, 0, 7];

#[test]
fn auction_id_read_big_endian() {
    assert_eq!(auction_id_from_metadata(&AUCTION_SEVEN), 7);
    assert_eq!(auction_id_from_metadata(&[0, 0, 0, 0, 0, 0, 1, 2]), 258);
    assert_eq!(auction_id_from_metadata(&[0; 8]), 0);
    assert_eq!(
        auction_id_from_metadata(&[0x7f, 0xff, 0xff, 0xff, 0xff, 0xff, 0xff, 0xff]),
        i64::MAX
    );
    // Two's complement: all ones is minus one.
    assert_eq!(auction_id_from_metadata(&[0xff; 8]), -1);
    assert_eq!(auction_id_from_metadata(&[0x80, 0, 0, 0, 0, 0, 0, 0]), i64::MIN);
}

#[test]
fn reconciler_resolves_and_is_idempotent() {
    let hash = TxId(0xbeef);
    let mut updater = OnSettlementEventUpdater { db: store_with_event(hash) };
    let chain = ChainData {
        transactions: vec![(
            hash,
            transaction(Some(Address(0xa)), Some(decoded(Some(AUCTION_SEVEN)))),
        )],
    };

    // First run resolves the event and records the observation.
    assert_eq!(updater.update(&chain), Ok(true));
    let row = &updater.db.events[0];
    assert_eq!(row.auction_id, Some(7));
    let observation = row.observation.as_ref().unwrap();
    assert_eq!(observation.surplus, 1000);
    assert_eq!(observation.fee, 42);
    assert_eq!(observation.gas_used, 21000);
    assert_eq!(observation.effective_gas_price, 15);
    assert_eq!(
        observation.order_executions,
        vec![(OrderUid(1), 4), (OrderUid(2), 0)]
    );

    // Second run finds nothing to do and changes nothing.
    assert_eq!(updater.update(&chain), Ok(false));
    assert_eq!(updater.db.events[0].auction_id, Some(7));
}

#[test]
fn already_recorded_auction_gets_no_observation() {
    let hash = TxId(0xbeef);
    let mut store = store_with_event(hash);
    // Another event already carries auction 7: idempotency.
    store.events.push(EventRow {
        block_number: 4,
        log_index: 1,
        tx_hash: TxId(1),
        auction_id: Some(7),
        observation: None,
    });
    let mut updater = OnSettlementEventUpdater { db: store };
    let chain = ChainData {
        transactions: vec![(
            hash,
            transaction(Some(Address(0xa)), Some(decoded(Some(AUCTION_SEVEN)))),
        )],
    };
    assert_eq!(updater.update(&chain), Ok(true));
    assert_eq!(updater.db.events[0].auction_id, Some(7));
    assert!(updater.db.events[0].observation.is_none());
}

#[test]
fn invalid_calldata_is_absorbed_with_id_zero() {
    let hash = TxId(0xbeef);
    let mut updater = OnSettlementEventUpdater { db: store_with_event(hash) };
    let chain = ChainData {
        transactions: vec![(hash, transaction(Some(Address(0xa)), None))],
    };
    assert_eq!(updater.update(&chain), Ok(true));
    assert_eq!(updater.db.events[0].auction_id, Some(0));
    assert!(updater.db.events[0].observation.is_none());
}

#[test]
fn foreign_winner_gets_no_observation() {
    let store = store_with_event(TxId(1));
    let tx = transaction(Some(Address(0xbb)), Some(decoded(Some(AUCTION_SEVEN))));
    let status = recover_auction_id_from_calldata(&store, &tx).unwrap();
    assert!(matches!(status, AuctionIdRecoveryStatus::DoNotAddAuctionData(7)));
}

#[test]
fn unknown_auction_gets_no_observation() {
    let store = store_with_event(TxId(1));
    let tx = transaction(
        Some(Address(0xa)),
        Some(decoded(Some([0, 0, 0, 0, 0, 0, 0, 9]))),
    );
    let status = recover_auction_id_from_calldata(&store, &tx).unwrap();
    assert!(matches!(status, AuctionIdRecoveryStatus::DoNotAddAuctionData(9)));
}

#[test]
fn missing_sender_is_retried() {
    let store = store_with_event(TxId(1));
    let tx = transaction(None, Some(decoded(Some(AUCTION_SEVEN))));
    assert_eq!(
        recover_auction_id_from_calldata(&store, &tx).unwrap_err(),
        UpdateError::MissingSender
    );
}

#[test]
fn missing_receipt_leaves_event_unresolved() {
    let hash = TxId(0xbeef);
    let mut updater = OnSettlementEventUpdater { db: store_with_event(hash) };
    let mut tx = transaction(Some(Address(0xa)), Some(decoded(Some(AUCTION_SEVEN))));
    tx.receipt = None;
    let chain = ChainData { transactions: vec![(hash, tx)] };
    assert_eq!(updater.update(&chain), Err(UpdateError::NoReceipt));
    assert!(updater.db.events[0].auction_id.is_none());
}

#[test]
fn receipt_without_gas_data_leaves_event_unresolved() {
    let store = store_with_event(TxId(1));
    let settlement = decoded(Some(AUCTION_SEVEN));

    let mut tx = transaction(Some(Address(0xa)), Some(decoded(Some(AUCTION_SEVEN))));
    tx.receipt = Some(Receipt { gas_used: None, effective_gas_price: Some(15) });
    assert_eq!(
        fetch_auction_data(&store, &tx, &settlement, 7).unwrap_err(),
        UpdateError::NoGasUsed
    );

    let mut tx = transaction(Some(Address(0xa)), Some(decoded(Some(AUCTION_SEVEN))));
    tx.receipt = Some(Receipt { gas_used: Some(21000), effective_gas_price: None });
    assert_eq!(
        fetch_auction_data(&store, &tx, &settlement, 7).unwrap_err(),
        UpdateError::NoEffectiveGasPrice
    );
}

#[test]
fn missing_prices_leave_event_unresolved() {
    let store = store_with_event(TxId(1));
    let tx = transaction(Some(Address(0xa)), Some(decoded(Some(AUCTION_SEVEN))));
    let settlement = decoded(Some(AUCTION_SEVEN));
    // Auction 9 has no price table.
    assert_eq!(
        fetch_auction_data(&store, &tx, &settlement, 9).unwrap_err(),
        UpdateError::NoAuctionPrices
    );
}

#[test]
fn reorged_transaction_is_skipped_without_writing() {
    let hash = TxId(0xbeef);
    let mut updater = OnSettlementEventUpdater { db: store_with_event(hash) };
    let chain = ChainData { transactions: Vec::new() };
    assert_eq!(updater.update(&chain), Ok(false));
    assert!(updater.db.events[0].auction_id.is_none());
}
