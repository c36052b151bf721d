use auction_core::order::{
    Address, AppDataHash, Order, OrderClass, OrderData, OrderKind, OrderMetadata, OrderStatus,
    OrderUid, Signature,
};
use auction_core::orderbook::{
    operation_label, order_class_label, order_cancellable, replacement_signature_valid,
    validate_order_cancellation, validate_order_cancellations, validate_replacement,
    AddOrderError, InsertionError, OrderCancellationError, OrderOperation, ReplaceOrderError,
};

fn order(uid: u64, owner: u64, status: OrderStatus, signature: Signature) -> Order {
    Order {
        data: OrderData {
            sell_token: Address(0),
            buy_token: Address(1),
            sell_amount: 100,
            buy_amount: 100,
            fee_amount: 0,
            kind: OrderKind::Sell,
            partially_fillable: false,
            app_data: AppDataHash(0),
        },
        metadata: OrderMetadata {
            uid: OrderUid(uid),
            owner: Address(owner),
            status,
            class: OrderClass::Market,
            executed_buy_amount: 0,
            executed_sell_amount: 0,
            executed_sell_amount_before_fees: 0,
            executed_fee_amount: 0,
        },
        signature,
    }
}

#[test]
fn labels() {
    assert_eq!(operation_label(&OrderOperation::Created), "created");
    assert_eq!(operation_label(&OrderOperation::Cancelled), "cancelled");
    assert_eq!(order_class_label(&OrderClass::Market), "user");
    assert_eq!(order_class_label(&OrderClass::Liquidity), "liquidity");
    assert_eq!(order_class_label(&OrderClass::Limit), "limit");
}

#[test]
fn cancellation_state_checks() {
    let ok = order(1, 1, OrderStatus::Open, Signature::Eip712);
    assert!(order_cancellable(&ok).is_ok());
    let ok = order(1, 1, OrderStatus::Open, Signature::EthSign);
    assert!(order_cancellable(&ok).is_ok());

    let presign = order(1, 1, OrderStatus::Open, Signature::PreSign);
    assert!(matches!(
        order_cancellable(&presign),
        Err(OrderCancellationError::OnChainOrder)
    ));
    let eip1271 = order(1, 1, OrderStatus::Open, Signature::Eip1271);
    assert!(matches!(
        order_cancellable(&eip1271),
        Err(OrderCancellationError::OnChainOrder)
    ));
    let pending = order(1, 1, OrderStatus::PresignaturePending, Signature::Eip712);
    assert!(matches!(
        order_cancellable(&pending),
        Err(OrderCancellationError::OnChainOrder)
    ));
    let fulfilled = order(1, 1, OrderStatus::Fulfilled, Signature::Eip712);
    assert!(matches!(
        order_cancellable(&fulfilled),
        Err(OrderCancellationError::OrderFullyExecuted)
    ));
    let cancelled = order(1, 1, OrderStatus::Cancelled, Signature::Eip712);
    assert!(matches!(
        order_cancellable(&cancelled),
        Err(OrderCancellationError::AlreadyCancelled)
    ));
    let expired = order(1, 1, OrderStatus::Expired, Signature::Eip712);
    assert!(matches!(
        order_cancellable(&expired),
        Err(OrderCancellationError::OrderExpired)
    ));
}

#[test]
fn batch_cancellation_checks_signer_and_owners() {
    let a = order(1, 5, OrderStatus::Open, Signature::Eip712);
    let b = order(2, 5, OrderStatus::Open, Signature::EthSign);
    let foreign = order(3, 6, OrderStatus::Open, Signature::Eip712);

    assert!(validate_order_cancellations(&vec![a, b], Some(Address(5))).is_ok());
    assert!(matches!(
        validate_order_cancellations(&vec![a, b], None),
        Err(OrderCancellationError::InvalidSignature)
    ));
    assert!(matches!(
        validate_order_cancellations(&vec![a, foreign], Some(Address(5))),
        Err(OrderCancellationError::WrongOwner)
    ));
    // The first non-cancellable order decides the error.
    let cancelled = order(4, 5, OrderStatus::Cancelled, Signature::Eip712);
    assert!(matches!(
        validate_order_cancellations(&vec![cancelled, foreign], Some(Address(5))),
        Err(OrderCancellationError::AlreadyCancelled)
    ));
}

#[test]
fn single_cancellation_checks_signer() {
    let a = order(1, 5, OrderStatus::Open, Signature::Eip712);
    assert!(validate_order_cancellation(&a, Some(Address(5))).is_ok());
    assert!(matches!(
        validate_order_cancellation(&a, Some(Address(6))),
        Err(OrderCancellationError::WrongOwner)
    ));
    assert!(matches!(
        validate_order_cancellation(&a, None),
        Err(OrderCancellationError::InvalidSignature)
    ));
}

#[test]
fn replacement_verifies_signer_and_app_data() {
    let old_order = order(1, 5, OrderStatus::Open, Signature::Eip712);
    let cancellation_hash = AppDataHash(0xc0);

    // App data does not encode the cancellation of the old order.
    let mut new_order = order(2, 5, OrderStatus::Open, Signature::Eip712);
    new_order.data.app_data = AppDataHash(0xff);
    assert!(matches!(
        validate_replacement(&old_order, &new_order, cancellation_hash),
        Err(ReplaceOrderError::InvalidReplacement)
    ));

    // Different owner.
    let mut new_order = order(2, 6, OrderStatus::Open, Signature::Eip712);
    new_order.data.app_data = cancellation_hash;
    assert!(matches!(
        validate_replacement(&old_order, &new_order, cancellation_hash),
        Err(ReplaceOrderError::InvalidReplacement)
    ));

    // A non-ECDSA replacement signature is refused before validation.
    assert!(!replacement_signature_valid(&Signature::PreSign));
    assert!(replacement_signature_valid(&Signature::Eip712));

    // Everything aligns.
    let mut new_order = order(2, 5, OrderStatus::Open, Signature::Eip712);
    new_order.data.app_data = cancellation_hash;
    assert!(validate_replacement(&old_order, &new_order, cancellation_hash).is_ok());
}

#[test]
fn insertion_errors_are_reported() {
    let o = order(1, 5, OrderStatus::Open, Signature::Eip712);
    assert!(matches!(
        AddOrderError::from_insertion(InsertionError::DuplicatedRecord, &o, String::new()),
        AddOrderError::DuplicatedOrder
    ));
    match AddOrderError::from_insertion(
        InsertionError::DbError(String::from("boom")),
        &o,
        String::new(),
    ) {
        AddOrderError::Database(m) => assert_eq!(m, "boom"),
        other => panic!("unexpected: {other:?}"),
    }
    match AddOrderError::from_insertion(
        InsertionError::AppDataMismatch(b"stored".to_vec()),
        &o,
        String::from("provided"),
    ) {
        AddOrderError::AppDataMismatch { contract_app_data, provided, existing } => {
            assert_eq!(contract_app_data, AppDataHash(0));
            assert_eq!(provided, "provided");
            assert_eq!(existing, "stored");
        },
        other => panic!("unexpected: {other:?}"),
    }
}
