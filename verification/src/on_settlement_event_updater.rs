//! Settlement event reconciler.
//!
//! The block indexing path records raw settlement events as fast as it
//! can, without metadata. The reconciler joins each recorded event to the
//! auction that produced it: it recovers the auction identifier from the
//! eight metadata bytes the winning solver appends to the settlement
//! calldata, computes the surplus and fee observation when the settlement
//! belongs to this instance, and persists the linkage. A poisoned event
//! (undecodable calldata) is absorbed by writing the identifier zero, so
//! it never blocks the queue again.

use vstd::prelude::*;
use crate::order::{Address, OrderUid};
use crate::settlement::TxId;

verus! {

/// One fee entry of a decoded settlement: the order, its fee in native
/// token atoms, and the executed surplus fee when the order has one.
#[derive(Clone, Copy, Debug)]
pub struct FeeEntry {
    pub order: OrderUid,
    pub native: u128,
    pub executed_surplus_fee: Option<u128>,
}

/// A settlement as the calldata decoding library reports it: the eight
/// trailing metadata bytes appended after the ABI-encoded call arguments
/// when present, the total surplus, and the per-trade fees.
#[derive(Debug)]
pub struct DecodedSettlement {
    pub metadata: Option<[u8; 8]>,
    /// Total surplus in native token atoms.
    pub surplus: u128,
    pub fees: Vec<FeeEntry>,
}

impl Clone for DecodedSettlement {
    /// An exact copy.
    fn clone(&self) -> (r: Self)
        ensures
            r.metadata == self.metadata,
            r.surplus == self.surplus,
            r.fees@ == self.fees@,
    {
        let mut fees: Vec<FeeEntry> = Vec::new();
        let n = self.fees.len();
        let mut i: usize = 0;
        while i < n
            invariant
                0 <= i <= n,
                n == self.fees@.len(),
                fees@ == self.fees@.take(i as int),
            decreases n - i,
        {
            fees.push(self.fees[i]);
            proof {
                assert(self.fees@.take(i + 1) =~= self.fees@.take(i as int).push(
                    self.fees@[i as int],
                ));
            }
            i = i + 1;
        }
        proof {
            assert(self.fees@.take(n as int) =~= self.fees@);
        }
        DecodedSettlement { metadata: self.metadata, surplus: self.surplus, fees }
    }
}

/// The eight metadata bytes read as a big-endian unsigned integer.
pub open spec fn be_value_of(bytes: Seq<u8>) -> int
    decreases bytes.len(),
{
    if bytes.len() == 0 {
        0
    } else {
        be_value_of(bytes.drop_last()) * 256 + bytes.last()
    }
}

/// The auction identifier the metadata bytes encode: the big-endian
/// value read as a two's-complement 64-bit integer.
pub open spec fn auction_id_of(bytes: Seq<u8>) -> int {
    let u = be_value_of(bytes);
    if u < 0x8000_0000_0000_0000 {
        u
    } else {
        u - 0x1_0000_0000_0000_0000
    }
}

proof fn lemma_pow256_pos(n: int)
    ensures
        pow256(n) >= 1,
    decreases n,
{
    if n > 0 {
        lemma_pow256_pos(n - 1);
    }
}

proof fn lemma_pow256_monotone(a: int, b: int)
    requires
        0 <= a <= b,
    ensures
        1 <= pow256(a) <= pow256(b),
    decreases b,
{
    if a < b {
        lemma_pow256_monotone(a, b - 1);
        lemma_pow256_pos(b - 1);
    } else {
        lemma_pow256_pos(a);
    }
}

proof fn lemma_be_value_bound(bytes: Seq<u8>, p: int)
    requires
        pow256(bytes.len() as int) == p,
    ensures
        0 <= be_value_of(bytes) < p,
    decreases bytes.len(),
{
    if bytes.len() == 0 {
    } else {
        lemma_be_value_bound(bytes.drop_last(), pow256(bytes.len() - 1));
    }
}

pub open spec fn pow256(n: int) -> int
    decreases n,
{
    if n <= 0 {
        1
    } else {
        256 * pow256(n - 1)
    }
}

/// Reads the trailing metadata as a big-endian two's-complement 64-bit
/// auction identifier.
pub fn auction_id_from_metadata(bytes: &[u8; 8]) -> (r: i64)
    ensures
        r as int == auction_id_of(bytes@),
{
    proof {
        assert(pow256(0) == 1);
        assert(pow256(1) == 256);
        assert(pow256(2) == 0x1_0000);
        assert(pow256(3) == 0x100_0000);
        assert(pow256(4) == 0x1_0000_0000);
        assert(pow256(5) == 0x100_0000_0000);
        assert(pow256(6) == 0x1_0000_0000_0000);
        assert(pow256(7) == 0x100_0000_0000_0000);
        assert(pow256(8) == 0x1_0000_0000_0000_0000);
    }
    let mut acc: u64 = 0;
    let mut i: usize = 0;
    while i < 8
        invariant
            0 <= i <= 8,
            acc as int == be_value_of(bytes@.take(i as int)),
            (acc as int) < pow256(i as int),
            pow256(8) == 0x1_0000_0000_0000_0000,
        decreases 8 - i,
    {
        proof {
            assert(bytes@.take(i + 1).drop_last() =~= bytes@.take(i as int));
            assert(bytes@.take(i + 1).last() == bytes@[i as int]);
            lemma_be_value_bound(bytes@.take(i as int), pow256(i as int));
            lemma_pow256_monotone(i + 1, 8);
            assert(acc as int <= pow256(i as int) - 1);
            assert((acc as int) * 256 <= (pow256(i as int) - 1) * 256);
            assert((pow256(i as int) - 1) * 256 == pow256(i + 1) - 256);
        }
        acc = acc * 256 + (bytes[i] as u64);
        i = i + 1;
    }
    proof {
        assert(bytes@.take(8) =~= bytes@);
    }
    if acc >= 0x8000_0000_0000_0000 {
        let offset = acc - 0x8000_0000_0000_0000;
        i64::MIN + (offset as i64)
    } else {
        acc as i64
    }
}

/// The competition record of one auction: the solver that won it.
#[derive(Clone, Copy, Debug, PartialEq, Eq, Structural)]
pub struct ScoreRow {
    pub winner: Address,
}

/// The observation computed for a settlement: total surplus and fee, the
/// receipt's gas data, and the executed surplus fee of every order.
#[derive(Clone, Debug)]
pub struct AuctionData {
    pub surplus: u128,
    pub fee: u128,
    pub gas_used: u128,
    pub effective_gas_price: u128,
    pub order_executions: Vec<(OrderUid, u128)>,
}

/// What one processed event gets persisted with.
#[derive(Clone, Debug)]
pub struct SettlementUpdate {
    pub block_number: u64,
    pub log_index: u64,
    pub auction_id: i64,
    pub auction_data: Option<AuctionData>,
}

/// Whether and how the auction identifier was recovered from calldata.
#[derive(Debug)]
pub enum AuctionIdRecoveryStatus {
    /// Recovered, and the auction data should be added.
    AddAuctionData(i64, DecodedSettlement),
    /// Recovered, but the auction data should not be added.
    DoNotAddAuctionData(i64),
    /// Not recovered.
    InvalidCalldata,
}

/// A transaction receipt as the chain adapter reports it.
#[derive(Clone, Copy, Debug)]
pub struct Receipt {
    pub gas_used: Option<u128>,
    pub effective_gas_price: Option<u128>,
}

/// A mined transaction as the chain adapter reports it: its sender, its
/// decoded settlement calldata (`None` when decoding failed), and its
/// receipt.
#[derive(Debug)]
pub struct Transaction {
    pub from: Option<Address>,
    pub decoded: Option<DecodedSettlement>,
    pub receipt: Option<Receipt>,
}

/// A snapshot of the chain data the reconciler may look up.
#[derive(Debug)]
pub struct ChainData {
    pub transactions: Vec<(TxId, Transaction)>,
}

/// One settlement event row, keyed by block number and log index. The
/// auction linkage is null until the reconciler processes the row.
#[derive(Clone, Debug)]
pub struct EventRow {
    pub block_number: u64,
    pub log_index: u64,
    pub tx_hash: TxId,
    pub auction_id: Option<i64>,
    pub observation: Option<AuctionData>,
}

/// The persisted state the reconciler reads and writes: the settlement
/// events, the competition scores, and which auctions have a price table.
#[derive(Debug)]
pub struct SettlementStore {
    pub events: Vec<EventRow>,
    pub scores: Vec<(i64, ScoreRow)>,
    pub auctions_with_prices: Vec<i64>,
}

/// Why one reconciliation step failed; the event stays unresolved and is
/// retried.
#[derive(Clone, Copy, Debug, PartialEq, Eq, Structural)]
pub enum UpdateError {
    /// The transaction carries no sender.
    MissingSender,
    /// No receipt for the transaction.
    NoReceipt,
    /// The receipt carries no gas used.
    NoGasUsed,
    /// The receipt carries no effective gas price.
    NoEffectiveGasPrice,
    /// No external prices for the auction.
    NoAuctionPrices,
}

/// The index of the first event without auction linkage.
pub open spec fn first_unresolved(events: Seq<EventRow>) -> Option<int>
    decreases events.len(),
{
    if events.len() == 0 {
        None
    } else if events[0].auction_id is None {
        Some(0)
    } else {
        match first_unresolved(events.drop_first()) {
            Some(j) => Some(j + 1),
            None => None,
        }
    }
}

/// The transaction recorded under a hash.
pub open spec fn transaction_for(txs: Seq<(TxId, Transaction)>, hash: TxId) -> Option<int>
    decreases txs.len(),
{
    if txs.len() == 0 {
        None
    } else if txs[0].0 == hash {
        Some(0)
    } else {
        match transaction_for(txs.drop_first(), hash) {
            Some(j) => Some(j + 1),
            None => None,
        }
    }
}

/// The score recorded for an auction identifier.
pub open spec fn score_for(scores: Seq<(i64, ScoreRow)>, auction_id: i64) -> Option<ScoreRow>
    decreases scores.len(),
{
    if scores.len() == 0 {
        None
    } else if scores[0].0 == auction_id {
        Some(scores[0].1)
    } else {
        score_for(scores.drop_first(), auction_id)
    }
}

/// Settlement data was already recorded for this auction.
pub open spec fn already_processed_spec(events: Seq<EventRow>, auction_id: i64) -> bool {
    exists|k: int|
        0 <= k < events.len() && (#[trigger] events[k]).auction_id == Some(auction_id)
}

/// The auction has an external price table.
pub open spec fn has_prices(auctions: Seq<i64>, auction_id: i64) -> bool {
    auctions.contains(auction_id)
}

/// The sum of the native fees of a decoded settlement, the total reward
/// input of the solver reward rule.
pub open spec fn sum_native(fees: Seq<FeeEntry>) -> int
    decreases fees.len(),
{
    if fees.len() == 0 {
        0
    } else {
        sum_native(fees.drop_last()) + fees.last().native
    }
}

/// The per-order executions of a decoded settlement: each order with its
/// executed surplus fee, zero when it has none.
pub open spec fn executions_spec(fees: Seq<FeeEntry>) -> Seq<(OrderUid, u128)> {
    fees.map_values(
        |f: FeeEntry|
            (
                f.order,
                match f.executed_surplus_fee {
                    Some(v) => v,
                    None => 0u128,
                },
            ),
    )
}

proof fn lemma_first_unresolved_index(events: Seq<EventRow>, i: int)
    requires
        0 <= i < events.len(),
        events[i].auction_id is None,
        forall|k: int| 0 <= k < i ==> (#[trigger] events[k]).auction_id is Some,
    ensures
        first_unresolved(events) == Some(i),
    decreases i,
{
    if i > 0 {
        lemma_first_unresolved_index(events.drop_first(), i - 1);
    }
}

proof fn lemma_first_unresolved_none(events: Seq<EventRow>)
    requires
        forall|k: int| 0 <= k < events.len() ==> (#[trigger] events[k]).auction_id is Some,
    ensures
        first_unresolved(events) is None,
    decreases events.len(),
{
    if events.len() > 0 {
        lemma_first_unresolved_none(events.drop_first());
    }
}

/// The first unresolved index points at an unresolved row behind only
/// resolved ones.
proof fn lemma_first_unresolved_props(events: Seq<EventRow>)
    ensures
        match first_unresolved(events) {
            Some(i) => 0 <= i < events.len() && events[i].auction_id is None && forall|k: int|
                0 <= k < i ==> (#[trigger] events[k]).auction_id is Some,
            None => forall|k: int|
                0 <= k < events.len() ==> (#[trigger] events[k]).auction_id is Some,
        },
    decreases events.len(),
{
    if events.len() > 0 && !(events[0].auction_id is None) {
        lemma_first_unresolved_props(events.drop_first());
        match first_unresolved(events.drop_first()) {
            Some(j) => {
                assert forall|k: int|
                    0 <= k < j + 1 implies (#[trigger] events[k]).auction_id is Some by {
                    if k > 0 {
                        assert(events.drop_first()[k - 1].auction_id is Some);
                    }
                }
            },
            None => {
                assert forall|k: int|
                    0 <= k < events.len() implies (#[trigger] events[k]).auction_id is Some by {
                    if k > 0 {
                        assert(events.drop_first()[k - 1].auction_id is Some);
                    }
                }
            },
        }
    }
}

fn find_first_unresolved(events: &Vec<EventRow>) -> (r: Option<usize>)
    ensures
        match r {
            Some(i) => i < events@.len() && first_unresolved(events@) == Some(i as int),
            None => first_unresolved(events@) is None,
        },
{
    let mut i: usize = 0;
    while i < events.len()
        invariant
            0 <= i <= events@.len(),
            forall|k: int| 0 <= k < i ==> (#[trigger] events@[k]).auction_id is Some,
        decreases events@.len() - i,
    {
        if events[i].auction_id.is_none() {
            proof {
                lemma_first_unresolved_index(events@, i as int);
            }
            return Some(i);
        }
        i = i + 1;
    }
    proof {
        lemma_first_unresolved_none(events@);
    }
    None
}

fn find_transaction<'a>(txs: &'a Vec<(TxId, Transaction)>, hash: TxId) -> (r: Option<
    &'a Transaction,
>)
    ensures
        match r {
            Some(tx) => exists|j: int|
                transaction_for(txs@, hash) == Some(j) && 0 <= j < txs@.len() && *tx == (
                #[trigger] txs@[j]).1,
            None => transaction_for(txs@, hash) is None,
        },
{
    let mut i: usize = 0;
    while i < txs.len()
        invariant
            0 <= i <= txs@.len(),
            forall|k: int| 0 <= k < i ==> (#[trigger] txs@[k]).0 != hash,
        decreases txs@.len() - i,
    {
        if txs[i].0 == hash {
            proof {
                lemma_transaction_for_index(txs@, hash, i as int);
            }
            return Some(&txs[i].1);
        }
        i = i + 1;
    }
    proof {
        lemma_transaction_for_none(txs@, hash);
    }
    None
}

proof fn lemma_transaction_for_index(txs: Seq<(TxId, Transaction)>, hash: TxId, i: int)
    requires
        0 <= i < txs.len(),
        txs[i].0 == hash,
        forall|k: int| 0 <= k < i ==> (#[trigger] txs[k]).0 != hash,
    ensures
        transaction_for(txs, hash) == Some(i),
    decreases i,
{
    if i > 0 {
        lemma_transaction_for_index(txs.drop_first(), hash, i - 1);
    }
}

proof fn lemma_transaction_for_none(txs: Seq<(TxId, Transaction)>, hash: TxId)
    requires
        forall|k: int| 0 <= k < txs.len() ==> (#[trigger] txs[k]).0 != hash,
    ensures
        transaction_for(txs, hash) is None,
    decreases txs.len(),
{
    if txs.len() > 0 {
        lemma_transaction_for_none(txs.drop_first(), hash);
    }
}

proof fn lemma_score_for_index(scores: Seq<(i64, ScoreRow)>, auction_id: i64, i: int)
    requires
        0 <= i < scores.len(),
        scores[i].0 == auction_id,
        forall|k: int| 0 <= k < i ==> (#[trigger] scores[k]).0 != auction_id,
    ensures
        score_for(scores, auction_id) == Some(scores[i].1),
    decreases i,
{
    if i > 0 {
        lemma_score_for_index(scores.drop_first(), auction_id, i - 1);
    }
}

proof fn lemma_score_for_none(scores: Seq<(i64, ScoreRow)>, auction_id: i64)
    requires
        forall|k: int| 0 <= k < scores.len() ==> (#[trigger] scores[k]).0 != auction_id,
    ensures
        score_for(scores, auction_id) is None,
    decreases scores.len(),
{
    if scores.len() > 0 {
        lemma_score_for_none(scores.drop_first(), auction_id);
    }
}

fn find_score(scores: &Vec<(i64, ScoreRow)>, auction_id: i64) -> (r: Option<ScoreRow>)
    ensures
        r == score_for(scores@, auction_id),
{
    let mut i: usize = 0;
    while i < scores.len()
        invariant
            0 <= i <= scores@.len(),
            forall|k: int| 0 <= k < i ==> (#[trigger] scores@[k]).0 != auction_id,
        decreases scores@.len() - i,
    {
        if scores[i].0 == auction_id {
            proof {
                lemma_score_for_index(scores@, auction_id, i as int);
            }
            return Some(scores[i].1);
        }
        i = i + 1;
    }
    proof {
        lemma_score_for_none(scores@, auction_id);
    }
    None
}

fn already_processed(events: &Vec<EventRow>, auction_id: i64) -> (r: bool)
    ensures
        r == already_processed_spec(events@, auction_id),
{
    let mut i: usize = 0;
    while i < events.len()
        invariant
            0 <= i <= events@.len(),
            forall|k: int| 0 <= k < i ==> (#[trigger] events@[k]).auction_id != Some(auction_id),
        decreases events@.len() - i,
    {
        let matches_id = match &events[i].auction_id {
            Some(id) => *id == auction_id,
            None => false,
        };
        if matches_id {
            return true;
        }
        i = i + 1;
    }
    false
}

fn prices_available(auctions: &Vec<i64>, auction_id: i64) -> (r: bool)
    ensures
        r == has_prices(auctions@, auction_id),
{
    let mut i: usize = 0;
    while i < auctions.len()
        invariant
            0 <= i <= auctions@.len(),
            forall|k: int| 0 <= k < i ==> auctions@[k] != auction_id,
        decreases auctions@.len() - i,
    {
        if auctions[i] == auction_id {
            return true;
        }
        i = i + 1;
    }
    false
}

proof fn lemma_pow256_8()
    ensures
        pow256(8) == 0x1_0000_0000_0000_0000,
{
    assert(pow256(0) == 1);
    assert(pow256(1) == 256);
    assert(pow256(2) == 0x1_0000);
    assert(pow256(3) == 0x100_0000);
    assert(pow256(4) == 0x1_0000_0000);
    assert(pow256(5) == 0x100_0000_0000);
    assert(pow256(6) == 0x1_0000_0000_0000);
    assert(pow256(7) == 0x100_0000_0000_0000);
}

/// The auction identifier of the metadata bytes, as the machine integer.
pub open spec fn auction_id_i64(bytes: Seq<u8>) -> i64 {
    auction_id_of(bytes) as i64
}

/// How the reconciler classifies a settlement transaction: undecodable
/// calldata or missing metadata is absorbed as invalid; a recovered
/// identifier is joined with auction data exactly when this instance
/// held the competition, its winner sent the transaction, and no data
/// was recorded yet.
pub open spec fn recovery_spec(store: SettlementStore, tx: Transaction) -> Result<
    AuctionIdRecoveryStatus,
    UpdateError,
> {
    match tx.from {
        None => Err(UpdateError::MissingSender),
        Some(from) => match tx.decoded {
            None => Ok(AuctionIdRecoveryStatus::InvalidCalldata),
            Some(d) => match d.metadata {
                None => Ok(AuctionIdRecoveryStatus::InvalidCalldata),
                Some(m) => {
                    let id = auction_id_i64(m@);
                    match score_for(store.scores@, id) {
                        None => Ok(AuctionIdRecoveryStatus::DoNotAddAuctionData(id)),
                        Some(score) => if score.winner != from {
                            Ok(AuctionIdRecoveryStatus::DoNotAddAuctionData(id))
                        } else if already_processed_spec(store.events@, id) {
                            Ok(AuctionIdRecoveryStatus::DoNotAddAuctionData(id))
                        } else {
                            Ok(AuctionIdRecoveryStatus::AddAuctionData(id, d))
                        },
                    }
                },
            },
        },
    }
}

/// The two recovery outcomes agree: same classification, same
/// identifier, and field-wise the same decoded settlement.
pub open spec fn recovery_matches(
    a: Result<AuctionIdRecoveryStatus, UpdateError>,
    b: Result<AuctionIdRecoveryStatus, UpdateError>,
) -> bool {
    match (a, b) {
        (
            Ok(AuctionIdRecoveryStatus::AddAuctionData(i1, d1)),
            Ok(AuctionIdRecoveryStatus::AddAuctionData(i2, d2)),
        ) => i1 == i2 && d1.metadata == d2.metadata && d1.surplus == d2.surplus && d1.fees@
            == d2.fees@,
        (
            Ok(AuctionIdRecoveryStatus::DoNotAddAuctionData(i1)),
            Ok(AuctionIdRecoveryStatus::DoNotAddAuctionData(i2)),
        ) => i1 == i2,
        (
            Ok(AuctionIdRecoveryStatus::InvalidCalldata),
            Ok(AuctionIdRecoveryStatus::InvalidCalldata),
        ) => true,
        (Err(e1), Err(e2)) => e1 == e2,
        _ => false,
    }
}

/// Recovers the auction identifier a solver appended to the settlement
/// calldata and decides whether the auction data should be indexed with
/// it: not when the identifier claims an auction without competition
/// here, nor when another solver landed the settlement, nor when data
/// was already recorded (idempotency).
pub fn recover_auction_id_from_calldata(store: &SettlementStore, tx: &Transaction) -> (r: Result<
    AuctionIdRecoveryStatus,
    UpdateError,
>)
    ensures
        recovery_matches(r, recovery_spec(*store, *tx)),
{
    let from = match &tx.from {
        Some(f) => *f,
        None => {
            return Err(UpdateError::MissingSender);
        },
    };
    let settlement = match &tx.decoded {
        Some(d) => d,
        None => {
            // Unclear which auction the transaction belongs to.
            return Ok(AuctionIdRecoveryStatus::InvalidCalldata);
        },
    };
    let metadata = match &settlement.metadata {
        Some(m) => m,
        None => {
            return Ok(AuctionIdRecoveryStatus::InvalidCalldata);
        },
    };
    let auction_id = auction_id_from_metadata(metadata);
    proof {
        lemma_pow256_8();
        lemma_be_value_bound(metadata@, pow256(8));
        assert(auction_id == auction_id_i64(metadata@));
    }
    let score = find_score(&store.scores, auction_id);
    let data_already_recorded = already_processed(&store.events, auction_id);
    match score {
        None => {
            // The calldata claims to settle an auction that has no
            // competition here.
            Ok(AuctionIdRecoveryStatus::DoNotAddAuctionData(auction_id))
        },
        Some(score) => {
            if score.winner != from {
                // The solution was submitted by a solver other than the
                // winner.
                Ok(AuctionIdRecoveryStatus::DoNotAddAuctionData(auction_id))
            } else if data_already_recorded {
                Ok(AuctionIdRecoveryStatus::DoNotAddAuctionData(auction_id))
            } else {
                Ok(AuctionIdRecoveryStatus::AddAuctionData(auction_id, settlement.clone()))
            }
        },
    }
}

/// The fee sums of a settlement fit the integer width.
pub open spec fn fees_fit(fees: Seq<FeeEntry>) -> bool {
    sum_native(fees) <= u128::MAX
}

proof fn lemma_sum_native_nonneg(fees: Seq<FeeEntry>)
    ensures
        sum_native(fees) >= 0,
    decreases fees.len(),
{
    if fees.len() > 0 {
        lemma_sum_native_nonneg(fees.drop_last());
    }
}

proof fn lemma_sum_native_take(fees: Seq<FeeEntry>, j: int)
    requires
        0 <= j <= fees.len(),
    ensures
        sum_native(fees.take(j)) <= sum_native(fees),
    decreases fees.len(),
{
    if j == fees.len() {
        assert(fees.take(j) =~= fees);
    } else {
        lemma_sum_native_take(fees.drop_last(), j);
        assert(fees.drop_last().take(j) =~= fees.take(j));
        lemma_sum_native_nonneg(fees.drop_last());
    }
}

/// The observation carries the decoded settlement's surplus, the sum of
/// its native fees, the receipt's gas data, and one execution per fee
/// entry.
pub open spec fn observation_matches(
    d: AuctionData,
    settlement: DecodedSettlement,
    gas_used: u128,
    effective_gas_price: u128,
) -> bool {
    &&& d.surplus == settlement.surplus
    &&& d.fee == sum_native(settlement.fees@)
    &&& d.gas_used == gas_used
    &&& d.effective_gas_price == effective_gas_price
    &&& d.order_executions@ == executions_spec(settlement.fees@)
}

/// The failure of the observation path, exactly when it occurs.
pub open spec fn fetch_error_spec(
    tx: Transaction,
    store: SettlementStore,
    auction_id: i64,
) -> Option<UpdateError> {
    match tx.receipt {
        None => Some(UpdateError::NoReceipt),
        Some(receipt) => match receipt.gas_used {
            None => Some(UpdateError::NoGasUsed),
            Some(_) => match receipt.effective_gas_price {
                None => Some(UpdateError::NoEffectiveGasPrice),
                Some(_) => if !has_prices(store.auctions_with_prices@, auction_id) {
                    Some(UpdateError::NoAuctionPrices)
                } else {
                    None
                },
            },
        },
    }
}

/// Computes the settlement's observation: its surplus, the total fee
/// used for solver rewards (the sum of the per-trade native fees), the
/// receipt's gas data, and the executed surplus fee of every order
/// (zero when an entry has none). Fails exactly when the receipt or its
/// gas data or the auction's external prices are missing.
pub fn fetch_auction_data(
    store: &SettlementStore,
    tx: &Transaction,
    settlement: &DecodedSettlement,
    auction_id: i64,
) -> (r: Result<AuctionData, UpdateError>)
    requires
        fees_fit(settlement.fees@),
    ensures
        match r {
            Ok(d) => fetch_error_spec(*tx, *store, auction_id) is None && tx.receipt is Some
                && tx.receipt.unwrap().gas_used is Some
                && tx.receipt.unwrap().effective_gas_price is Some && observation_matches(
                d,
                *settlement,
                tx.receipt.unwrap().gas_used.unwrap(),
                tx.receipt.unwrap().effective_gas_price.unwrap(),
            ),
            Err(e) => Some(e) == fetch_error_spec(*tx, *store, auction_id),
        },
{
    let receipt = match &tx.receipt {
        Some(receipt) => receipt,
        None => {
            return Err(UpdateError::NoReceipt);
        },
    };
    let gas_used = match &receipt.gas_used {
        Some(g) => *g,
        None => {
            return Err(UpdateError::NoGasUsed);
        },
    };
    let effective_gas_price = match &receipt.effective_gas_price {
        Some(p) => *p,
        None => {
            return Err(UpdateError::NoEffectiveGasPrice);
        },
    };
    if !prices_available(&store.auctions_with_prices, auction_id) {
        return Err(UpdateError::NoAuctionPrices);
    }
    let n = settlement.fees.len();
    let ghost all = settlement.fees@;

    // The total fee used for solver rewards.
    let mut fee: u128 = 0;
    let mut i: usize = 0;
    while i < n
        invariant
            0 <= i <= n,
            n == all.len(),
            all == settlement.fees@,
            fees_fit(all),
            fee as int == sum_native(all.take(i as int)),
        decreases n - i,
    {
        proof {
            assert(all.take(i + 1).drop_last() =~= all.take(i as int));
            assert(all.take(i + 1).last() == all[i as int]);
            lemma_sum_native_take(all, i + 1);
            lemma_sum_native_nonneg(all.take(i as int));
        }
        fee = fee + settlement.fees[i].native;
        i = i + 1;
    }
    proof {
        assert(all.take(n as int) =~= all);
    }

    // The executed surplus fee of each order execution.
    let mut order_executions: Vec<(OrderUid, u128)> = Vec::new();
    let mut j: usize = 0;
    while j < n
        invariant
            0 <= j <= n,
            n == all.len(),
            all == settlement.fees@,
            order_executions@ == executions_spec(all.take(j as int)),
        decreases n - j,
    {
        let entry = settlement.fees[j];
        let executed_surplus_fee = match entry.executed_surplus_fee {
            Some(v) => v,
            None => 0,
        };
        order_executions.push((entry.order, executed_surplus_fee));
        proof {
            assert(executions_spec(all.take(j + 1)) =~= executions_spec(all.take(j as int)).push(
                (
                    all[j as int].order,
                    match all[j as int].executed_surplus_fee {
                        Some(v) => v,
                        None => 0u128,
                    },
                ),
            ));
        }
        j = j + 1;
    }
    proof {
        assert(all.take(n as int) =~= all);
    }

    Ok(
        AuctionData {
            surplus: settlement.surplus,
            fee,
            gas_used,
            effective_gas_price,
            order_executions,
        },
    )
}

impl ChainData {
    /// The fee sums of every decoded settlement fit the integer width.
    pub open spec fn wf(self) -> bool {
        forall|k: int|
            0 <= k < self.transactions@.len() ==> match (#[trigger] self.transactions@[k]).1.decoded {
                Some(d) => fees_fit(d.fees@),
                None => true,
            }
    }
}

/// The events after persisting one processed row: the row's auction
/// linkage and observation are set, everything else is untouched.
pub open spec fn persisted(
    pre: Seq<EventRow>,
    i: int,
    auction_id: i64,
    data: Option<AuctionData>,
    post: Seq<EventRow>,
) -> bool {
    &&& 0 <= i < pre.len()
    &&& post == pre.update(
        i,
        EventRow { auction_id: Some(auction_id), observation: data, ..pre[i] },
    )
}

/// How one reconciliation step relates the persisted state before the
/// call to the state after it and the step's outcome. With no
/// unresolved event, or with the event's transaction gone (a reorg),
/// nothing changes and no work is reported. Otherwise the first
/// unresolved event is processed: undecodable calldata is persisted
/// under identifier zero, a recovered identifier under itself, with an
/// observation exactly when the settlement belongs to this instance;
/// an error leaves everything unchanged so the event is retried.
pub open spec fn update_rel(
    pre: SettlementStore,
    chain: ChainData,
    post: SettlementStore,
    r: Result<bool, UpdateError>,
) -> bool {
    &&& post.scores@ == pre.scores@
    &&& post.auctions_with_prices@ == pre.auctions_with_prices@
    &&& match first_unresolved(pre.events@) {
        None => r == Ok::<bool, UpdateError>(false) && post.events@ == pre.events@,
        Some(i) => match transaction_for(chain.transactions@, pre.events@[i].tx_hash) {
            None => r == Ok::<bool, UpdateError>(false) && post.events@ == pre.events@,
            Some(j) => {
                let tx = chain.transactions@[j].1;
                match recovery_spec(pre, tx) {
                    Err(e) => r == Err::<bool, UpdateError>(e) && post.events@ == pre.events@,
                    Ok(AuctionIdRecoveryStatus::InvalidCalldata) => r == Ok::<
                        bool,
                        UpdateError,
                    >(true) && persisted(pre.events@, i, 0, None, post.events@),
                    Ok(AuctionIdRecoveryStatus::DoNotAddAuctionData(id)) => r == Ok::<
                        bool,
                        UpdateError,
                    >(true) && persisted(pre.events@, i, id, None, post.events@),
                    Ok(AuctionIdRecoveryStatus::AddAuctionData(id, d)) => match fetch_error_spec(
                        tx,
                        pre,
                        id,
                    ) {
                        Some(e) => r == Err::<bool, UpdateError>(e) && post.events@
                            == pre.events@,
                        None => r == Ok::<bool, UpdateError>(true) && exists|obs: AuctionData| #[trigger]
                            observation_matches(
                                obs,
                                d,
                                tx.receipt.unwrap().gas_used.unwrap(),
                                tx.receipt.unwrap().effective_gas_price.unwrap(),
                            ) && persisted(pre.events@, i, id, Some(obs), post.events@),
                    },
                }
            },
        },
    }
}

/// The reconciler, owning its persisted state; the chain is read
/// through a snapshot handed in by the caller.
#[derive(Debug)]
pub struct OnSettlementEventUpdater {
    pub db: SettlementStore,
}

impl OnSettlementEventUpdater {
    /// Processes at most one settlement event that lacks auction
    /// linkage. Returns whether an update was performed; `false` means
    /// there was nothing to do or the event's transaction is not on
    /// chain yet (a reorg happened). A reported error leaves the state
    /// untouched, so the event is retried.
    pub fn update(&mut self, chain: &ChainData) -> (r: Result<bool, UpdateError>)
        requires
            chain.wf(),
        ensures
            update_rel(old(self).db, *chain, final(self).db, r),
    {
        let event_index = match find_first_unresolved(&self.db.events) {
            None => {
                return Ok(false);
            },
            Some(i) => i,
        };
        let hash = self.db.events[event_index].tx_hash;
        let tx = match find_transaction(&chain.transactions, hash) {
            None => {
                // No transaction found: a reorg happened; do not write.
                return Ok(false);
            },
            Some(t) => t,
        };
        let status = match recover_auction_id_from_calldata(&self.db, tx) {
            Ok(status) => status,
            Err(e) => {
                return Err(e);
            },
        };
        let ghost tx_spec = *tx;
        let ghost spec_status = recovery_spec(old(self).db, tx_spec);
        let auction_id: i64;
        let auction_data: Option<AuctionData>;
        match status {
            AuctionIdRecoveryStatus::InvalidCalldata => {
                // Use the identifier zero so this event is never
                // selected again.
                auction_id = 0;
                auction_data = None;
            },
            AuctionIdRecoveryStatus::DoNotAddAuctionData(id) => {
                auction_id = id;
                auction_data = None;
            },
            AuctionIdRecoveryStatus::AddAuctionData(id, settlement) => {
                proof {
                    let j = choose|j: int|
                        transaction_for(chain.transactions@, hash) == Some(j) && 0 <= j
                            < chain.transactions@.len() && *tx == (
                        #[trigger] chain.transactions@[j]).1;
                    assert(match chain.transactions@[j].1.decoded {
                        Some(d) => fees_fit(d.fees@),
                        None => true,
                    });
                }
                let ghost settlement_g = settlement;
                let data = match fetch_auction_data(&self.db, tx, &settlement, id) {
                    Ok(d) => d,
                    Err(e) => {
                        proof {
                            match spec_status {
                                Ok(AuctionIdRecoveryStatus::AddAuctionData(id_s, d_s)) => {
                                    assert(fetch_error_spec(tx_spec, old(self).db, id_s)
                                        == Some(e));
                                },
                                _ => {
                                    assert(false);
                                },
                            }
                        }
                        return Err(e);
                    },
                };
                proof {
                    match spec_status {
                        Ok(AuctionIdRecoveryStatus::AddAuctionData(id_s, d_s)) => {
                            assert(sum_native(d_s.fees@) == sum_native(settlement_g.fees@));
                            assert(executions_spec(d_s.fees@) == executions_spec(
                                settlement_g.fees@,
                            ));
                            assert(observation_matches(
                                data,
                                d_s,
                                tx_spec.receipt.unwrap().gas_used.unwrap(),
                                tx_spec.receipt.unwrap().effective_gas_price.unwrap(),
                            ));
                        },
                        _ => {
                            assert(false);
                        },
                    }
                }
                auction_id = id;
                auction_data = Some(data);
            },
        }
        let ghost data_g = auction_data;
        let ghost pre_events = self.db.events@;
        let mut row = self.db.events.remove(event_index);
        row.auction_id = Some(auction_id);
        row.observation = auction_data;
        self.db.events.insert(event_index, row);
        proof {
            let i = event_index as int;
            assert(self.db.events@ =~= pre_events.update(
                i,
                EventRow {
                    auction_id: Some(auction_id),
                    observation: data_g,
                    ..pre_events[i]
                },
            ));
            assert(persisted(pre_events, i, auction_id, data_g, self.db.events@));
            match spec_status {
                Ok(AuctionIdRecoveryStatus::AddAuctionData(id_s, d_s)) => {
                    assert(fetch_error_spec(tx_spec, old(self).db, id_s) is None);
                    assert(observation_matches(
                        data_g.unwrap(),
                        d_s,
                        tx_spec.receipt.unwrap().gas_used.unwrap(),
                        tx_spec.receipt.unwrap().effective_gas_price.unwrap(),
                    ) && persisted(pre_events, i, id_s, Some(data_g.unwrap()), self.db.events@));
                },
                _ => {},
            }
        }
        Ok(true)
    }
}

/// Every event row a successful step processes ends with a non-null
/// auction identifier, and rows that already carry one are never
/// touched.
pub proof fn lemma_processed_event_resolved(
    pre: SettlementStore,
    chain: ChainData,
    post: SettlementStore,
    r: Result<bool, UpdateError>,
)
    requires
        update_rel(pre, chain, post, r),
    ensures
        r == Ok::<bool, UpdateError>(true) ==> {
            let i = first_unresolved(pre.events@).unwrap();
            &&& first_unresolved(pre.events@) is Some
            &&& post.events@[i].auction_id is Some
        },
        post.events@.len() == pre.events@.len(),
        forall|k: int|
            0 <= k < pre.events@.len() && (#[trigger] pre.events@[k]).auction_id is Some
                ==> post.events@[k] == pre.events@[k],
{
    lemma_first_unresolved_props(pre.events@);
}

/// Reconciliation is idempotent for a processed event: once a step has
/// resolved a row, no later step changes it again.
pub proof fn lemma_update_idempotent(
    pre: SettlementStore,
    chain: ChainData,
    mid: SettlementStore,
    r1: Result<bool, UpdateError>,
    chain2: ChainData,
    post: SettlementStore,
    r2: Result<bool, UpdateError>,
)
    requires
        update_rel(pre, chain, mid, r1),
        r1 == Ok::<bool, UpdateError>(true),
        update_rel(mid, chain2, post, r2),
    ensures
        ({
            let i = first_unresolved(pre.events@).unwrap();
            post.events@[i] == mid.events@[i]
        }),
{
    lemma_first_unresolved_props(pre.events@);
    let i = first_unresolved(pre.events@).unwrap();
    assert(mid.events@[i].auction_id is Some);
    lemma_processed_event_resolved(mid, chain2, post, r2);
}

} // verus!
