//! Order book decision rules.
//!
//! The storage, the signature cryptography and the order validation
//! pipeline live outside the crate; the rules here decide which orders
//! may be cancelled or replaced and how storage failures are reported.

use vstd::prelude::*;
use crate::order::{Address, AppDataHash, Order, OrderClass, OrderStatus, Signature};

verus! {

/// An operation performed on an order, for bookkeeping.
#[derive(Clone, Copy, Debug, PartialEq, Eq, Structural)]
pub enum OrderOperation {
    Created,
    Cancelled,
}

/// The bookkeeping label of an order operation.
pub fn operation_label(op: &OrderOperation) -> (r: &'static str)
    ensures
        r@ == match op {
            OrderOperation::Created => "created"@,
            OrderOperation::Cancelled => "cancelled"@,
        },
{
    match op {
        OrderOperation::Created => "created",
        OrderOperation::Cancelled => "cancelled",
    }
}

/// The bookkeeping label of an order class.
pub fn order_class_label(class: &OrderClass) -> (r: &'static str)
    ensures
        r@ == match class {
            OrderClass::Market => "user"@,
            OrderClass::Liquidity => "liquidity"@,
            OrderClass::Limit => "limit"@,
        },
{
    match class {
        OrderClass::Market => "user",
        OrderClass::Liquidity => "liquidity",
        OrderClass::Limit => "limit",
    }
}

/// Why the storage refused to insert an order.
#[derive(Clone, Debug)]
pub enum InsertionError {
    /// The order already exists.
    DuplicatedRecord,
    /// A database failure, described in words.
    DbError(String),
    /// The order's contract app data is already associated with this
    /// full app data document.
    AppDataMismatch(Vec<u8>),
}

/// Why adding an order failed.
#[derive(Clone, Debug)]
pub enum AddOrderError {
    DuplicatedOrder,
    /// The order validator refused the order, described in words.
    OrderValidation(String),
    /// A database failure, described in words.
    Database(String),
    /// The contract app data is associated with different full app data
    /// than the provided one.
    AppDataMismatch { contract_app_data: AppDataHash, provided: String, existing: String },
}

/// Why cancelling an order failed.
#[derive(Clone, Debug)]
pub enum OrderCancellationError {
    InvalidSignature,
    WrongOwner,
    OrderNotFound,
    AlreadyCancelled,
    OrderFullyExecuted,
    OrderExpired,
    OnChainOrder,
    /// An infrastructure failure, described in words.
    Other(String),
}

/// Why replacing an order failed.
#[derive(Clone, Debug)]
pub enum ReplaceOrderError {
    Cancellation(OrderCancellationError),
    Add(AddOrderError),
    /// The new order is not a valid replacement for the old one.
    InvalidReplacement,
}

/// What `String::from_utf8_lossy` makes of a byte string.
pub uninterp spec fn lossy_utf8_of(bytes: Seq<u8>) -> Seq<char>;

/// Relies on `String::from_utf8_lossy`: the result depends on the bytes
/// alone, with invalid sequences replaced.
#[verifier::external_body]
fn lossy_string(bytes: &Vec<u8>) -> (r: String)
    ensures
        r@ == lossy_utf8_of(bytes@),
{
    String::from_utf8_lossy(bytes).into_owned()
}

impl AddOrderError {
    /// How a storage failure is reported to the caller: a duplicated
    /// record as a duplicated order, a database failure in its words,
    /// and an app-data mismatch with the order's contract app data, the
    /// full app data the caller provided and the stored document read
    /// as text.
    pub fn from_insertion(err: InsertionError, order: &Order, provided: String) -> (r: Self)
        ensures
            match err {
                InsertionError::DuplicatedRecord => r == AddOrderError::DuplicatedOrder,
                InsertionError::DbError(s) => r matches AddOrderError::Database(m) && m@ == s@,
                InsertionError::AppDataMismatch(bytes) => r matches AddOrderError::AppDataMismatch {
                    contract_app_data,
                    provided: p,
                    existing,
                } && contract_app_data == order.data.app_data && p@ == provided@ && existing@
                    == lossy_utf8_of(bytes@),
            },
    {
        match err {
            InsertionError::DuplicatedRecord => AddOrderError::DuplicatedOrder,
            InsertionError::DbError(s) => AddOrderError::Database(s),
            InsertionError::AppDataMismatch(existing) => AddOrderError::AppDataMismatch {
                contract_app_data: order.data.app_data,
                provided,
                existing: lossy_string(&existing),
            },
        }
    }
}

/// Whether an order is in a state that allows off-chain cancellation:
/// on-chain-signed and presignature-pending orders cannot be cancelled
/// with an off-chain signature, and fulfilled, cancelled or expired
/// orders cannot be cancelled again.
pub open spec fn order_cancellable_spec(order: Order) -> Result<(), OrderCancellationError> {
    match order.metadata.status {
        OrderStatus::PresignaturePending => Err(OrderCancellationError::OnChainOrder),
        OrderStatus::Open => if order.signature == Signature::Eip712 || order.signature
            == Signature::EthSign {
            Ok(())
        } else {
            Err(OrderCancellationError::OnChainOrder)
        },
        OrderStatus::Fulfilled => Err(OrderCancellationError::OrderFullyExecuted),
        OrderStatus::Cancelled => Err(OrderCancellationError::AlreadyCancelled),
        OrderStatus::Expired => Err(OrderCancellationError::OrderExpired),
    }
}

/// The state check of finding an order for cancellation.
pub fn order_cancellable(order: &Order) -> (r: Result<(), OrderCancellationError>)
    ensures
        r == order_cancellable_spec(*order),
{
    match order.metadata.status {
        OrderStatus::PresignaturePending => Err(OrderCancellationError::OnChainOrder),
        OrderStatus::Open => {
            if order.signature.is_ecdsa_scheme() {
                Ok(())
            } else {
                Err(OrderCancellationError::OnChainOrder)
            }
        },
        OrderStatus::Fulfilled => Err(OrderCancellationError::OrderFullyExecuted),
        OrderStatus::Cancelled => Err(OrderCancellationError::AlreadyCancelled),
        OrderStatus::Expired => Err(OrderCancellationError::OrderExpired),
    }
}

/// The first order of the list that cannot be cancelled, with its error.
pub open spec fn first_uncancellable(orders: Seq<Order>) -> Option<OrderCancellationError>
    decreases orders.len(),
{
    if orders.len() == 0 {
        None
    } else {
        match order_cancellable_spec(orders[0]) {
            Err(e) => Some(e),
            Ok(_) => first_uncancellable(orders.drop_first()),
        }
    }
}

/// What validating a batch cancellation yields: the first
/// non-cancellable order's error, else an invalid signature when the
/// cancellation's signer could not be recovered, else a wrong owner
/// when the signer does not own every order.
pub open spec fn cancellations_spec(orders: Seq<Order>, signer: Option<Address>) -> Result<
    (),
    OrderCancellationError,
> {
    match first_uncancellable(orders) {
        Some(e) => Err(e),
        None => match signer {
            None => Err(OrderCancellationError::InvalidSignature),
            Some(s) => if exists|i: int|
                0 <= i < orders.len() && (#[trigger] orders[i]).metadata.owner != s {
                Err(OrderCancellationError::WrongOwner)
            } else {
                Ok(())
            },
        },
    }
}

proof fn lemma_first_uncancellable_index(orders: Seq<Order>, i: int)
    requires
        0 <= i < orders.len(),
        order_cancellable_spec(orders[i]) is Err,
        forall|k: int| 0 <= k < i ==> order_cancellable_spec(#[trigger] orders[k]) is Ok,
    ensures
        first_uncancellable(orders) == Some(order_cancellable_spec(orders[i]).unwrap_err()),
    decreases i,
{
    if i > 0 {
        lemma_first_uncancellable_index(orders.drop_first(), i - 1);
    }
}

proof fn lemma_first_uncancellable_none(orders: Seq<Order>)
    requires
        forall|k: int| 0 <= k < orders.len() ==> order_cancellable_spec(#[trigger] orders[k]) is Ok,
    ensures
        first_uncancellable(orders) is None,
    decreases orders.len(),
{
    if orders.len() > 0 {
        lemma_first_uncancellable_none(orders.drop_first());
    }
}

/// Validates a signed batch cancellation: every order must be in a
/// cancellable state, the signature must recover a signer, and the
/// signer must own every order. The signer is what the cryptography
/// recovered, `None` when the signature is invalid.
pub fn validate_order_cancellations(orders: &Vec<Order>, signer: Option<Address>) -> (r: Result<
    (),
    OrderCancellationError,
>)
    ensures
        r == cancellations_spec(orders@, signer),
{
    let mut i: usize = 0;
    while i < orders.len()
        invariant
            0 <= i <= orders@.len(),
            forall|k: int| 0 <= k < i ==> order_cancellable_spec(#[trigger] orders@[k]) is Ok,
        decreases orders@.len() - i,
    {
        match order_cancellable(&orders[i]) {
            Err(e) => {
                proof {
                    lemma_first_uncancellable_index(orders@, i as int);
                }
                return Err(e);
            },
            Ok(_) => {},
        }
        i = i + 1;
    }
    proof {
        lemma_first_uncancellable_none(orders@);
    }
    let s = match signer {
        Some(s) => s,
        None => {
            return Err(OrderCancellationError::InvalidSignature);
        },
    };
    let mut j: usize = 0;
    while j < orders.len()
        invariant
            0 <= j <= orders@.len(),
            first_uncancellable(orders@) is None,
            signer == Some(s),
            forall|k: int| 0 <= k < j ==> (#[trigger] orders@[k]).metadata.owner == s,
        decreases orders@.len() - j,
    {
        if orders[j].metadata.owner != s {
            proof {
                assert(exists|i: int|
                    0 <= i < orders@.len() && (#[trigger] orders@[i]).metadata.owner != s) by {
                    assert(orders@[j as int].metadata.owner != s);
                }
            }
            return Err(OrderCancellationError::WrongOwner);
        }
        j = j + 1;
    }
    Ok(())
}

/// Validates the cancellation of a single order: the order must be in a
/// cancellable state and the recovered signer must be its owner.
pub fn validate_order_cancellation(order: &Order, signer: Option<Address>) -> (r: Result<
    (),
    OrderCancellationError,
>)
    ensures
        r == match order_cancellable_spec(*order) {
            Err(e) => Err(e),
            Ok(_) => match signer {
                None => Err(OrderCancellationError::InvalidSignature),
                Some(s) => if s != order.metadata.owner {
                    Err(OrderCancellationError::WrongOwner)
                } else {
                    Ok(())
                },
            },
        },
{
    match order_cancellable(order) {
        Err(e) => Err(e),
        Ok(_) => {
            match signer {
                None => Err(OrderCancellationError::InvalidSignature),
                Some(s) => {
                    if s != order.metadata.owner {
                        Err(OrderCancellationError::WrongOwner)
                    } else {
                        Ok(())
                    }
                },
            }
        },
    }
}

/// Whether the validated replacement order is a valid replacement for
/// the old one: its app data must encode the cancellation of the old
/// order and both orders must have the same signer. The hash is what
/// the cryptography computed for that cancellation.
pub fn validate_replacement(old_order: &Order, new_order: &Order, cancellation_hash: AppDataHash)
    -> (r: Result<(), ReplaceOrderError>)
    ensures
        r == if new_order.data.app_data != cancellation_hash || new_order.metadata.owner
            != old_order.metadata.owner {
            Err(ReplaceOrderError::InvalidReplacement)
        } else {
            Ok::<(), ReplaceOrderError>(())
        },
{
    if new_order.data.app_data != cancellation_hash || new_order.metadata.owner
        != old_order.metadata.owner {
        Err(ReplaceOrderError::InvalidReplacement)
    } else {
        Ok(())
    }
}

/// Replacement orders must carry a signature that can be validated
/// off-chain; else anyone could cancel a user's order by submitting a
/// presign order on their behalf.
pub fn replacement_signature_valid(signature: &Signature) -> (r: bool)
    ensures
        r == (*signature == Signature::Eip712 || *signature == Signature::EthSign),
{
    signature.is_ecdsa_scheme()
}

} // verus!
