//! Settlement submission engine.
//!
//! Drives a candidate settlement to on-chain inclusion by racing a
//! configured list of mempools. The rules here decide which mempools may
//! be used, what the monitoring loop does on each tick, how a pending
//! transaction is cancelled and which of the racing outcomes wins; the
//! owner performs the actual submissions and status queries.

use vstd::prelude::*;
use crate::order::Address;
use crate::settlement::{AccessListEntry, Gas, GasPrice, Settlement, Tx, TxId};

verus! {

/// Whether the mempool set guarantees that a settled solution will not
/// revert on-chain.
#[derive(Clone, Copy, Debug, PartialEq, Eq, Structural)]
pub enum RevertProtection {
    Enabled,
    Disabled,
}

/// The kind of a mempool: public peer-to-peer, with or without revert
/// protection, or a private relay.
#[derive(Clone, Copy, Debug, PartialEq, Eq, Structural)]
pub enum Kind {
    Public(RevertProtection),
    Private,
}

/// The configuration of one mempool.
#[derive(Clone, Copy, Debug, PartialEq, Eq, Structural)]
pub struct Mempool {
    pub kind: Kind,
    /// The absolute instant after which a submission is cancelled.
    pub deadline: u64,
    /// Whether a reverting transaction can still be included here.
    pub may_revert: bool,
}

/// The status of a submitted transaction as the node reports it.
#[derive(Clone, Copy, Debug, PartialEq, Eq, Structural)]
pub enum TxStatus {
    Pending,
    Executed,
    Reverted,
}

/// No mempools are configured; settlements cannot be executed.
#[derive(Clone, Copy, Debug, PartialEq, Eq, Structural)]
pub struct NoMempools;

/// Why a submission failed.
#[derive(Clone, Debug)]
pub enum Error {
    /// Mined as a reverted transaction: the gas is burnt.
    Revert(TxId),
    /// The simulation started reverting during submission.
    SimulationRevert,
    /// The settlement did not get included in time.
    Expired,
    /// Revert protection refused this mempool for this settlement.
    Disabled,
    /// An infrastructure failure.
    Other(String),
}

/// The gas amount of a cancellation transaction.
pub const CANCELLATION_GAS_AMOUNT: u64 = 21000;

/// The mempools used to execute settlements.
#[derive(Clone, Debug)]
pub struct Mempools {
    pub mempools: Vec<Mempool>,
}

impl Mempools {
    /// A non-empty set of mempools.
    pub fn new(mempools: Vec<Mempool>) -> (r: Result<Mempools, NoMempools>)
        ensures
            match r {
                Ok(m) => m.mempools@ == mempools@ && mempools@.len() > 0,
                Err(_) => mempools@.len() == 0,
            },
    {
        if mempools.len() == 0 {
            Err(NoMempools)
        } else {
            Ok(Mempools { mempools })
        }
    }

    /// Protection is `Disabled` exactly when some public mempool runs
    /// without revert protection.
    pub open spec fn revert_protection_spec(self) -> RevertProtection {
        if exists|i: int|
            0 <= i < self.mempools@.len() && (#[trigger] self.mempools@[i]).kind == Kind::Public(
                RevertProtection::Disabled,
            ) {
            RevertProtection::Disabled
        } else {
            RevertProtection::Enabled
        }
    }

    /// Whether the mempools are configured in a way that guarantees that
    /// a settled solution will not revert.
    pub fn revert_protection(&self) -> (r: RevertProtection)
        ensures
            r == self.revert_protection_spec(),
    {
        let mut i: usize = 0;
        while i < self.mempools.len()
            invariant
                0 <= i <= self.mempools@.len(),
                forall|k: int|
                    0 <= k < i ==> (#[trigger] self.mempools@[k]).kind != Kind::Public(
                        RevertProtection::Disabled,
                    ),
            decreases self.mempools@.len() - i,
        {
            match self.mempools[i].kind {
                Kind::Public(RevertProtection::Disabled) => {
                    return RevertProtection::Disabled;
                },
                _ => {},
            }
            i = i + 1;
        }
        RevertProtection::Enabled
    }

    /// A revertable settlement must not go to a mempool that may include
    /// reverting transactions while protection is enabled.
    pub open spec fn submission_allowed_spec(self, mempool: Mempool, revertable: bool) -> bool {
        !(revertable && self.revert_protection_spec() == RevertProtection::Enabled
            && mempool.may_revert)
    }

    /// Whether this settlement may be submitted through this mempool; a
    /// refusal is reported as [`Error::Disabled`] without submitting.
    pub fn allowed_to_submit(&self, mempool: &Mempool, settlement: &Settlement) -> (r: bool)
        ensures
            r == self.submission_allowed_spec(*mempool, settlement.revertable),
    {
        let protection = self.revert_protection();
        !(settlement.revertable && protection == RevertProtection::Enabled && mempool.may_revert)
    }
}

/// With revert protection enabled, a revertable settlement is never
/// allowed onto a mempool that may include reverting transactions.
pub proof fn lemma_revert_protection(m: Mempools, mempool: Mempool, revertable: bool)
    ensures
        (revertable && m.revert_protection_spec() == RevertProtection::Enabled
            && mempool.may_revert) ==> !m.submission_allowed_spec(mempool, revertable),
{
}

/// The next move of the per-mempool monitoring loop.
#[derive(Clone, Copy, Debug, PartialEq, Eq, Structural)]
pub enum MonitorStep {
    /// Keep waiting for the next block.
    Wait,
    /// The settlement is mined; its hash is the race's candidate result.
    Confirmed(TxId),
    /// Mined but reverted: report [`Error::Revert`].
    RevertedOnChain(TxId),
    /// The deadline passed: cancel, then report [`Error::Expired`].
    CancelThenExpire,
    /// The pending transaction no longer simulates: cancel, then report
    /// [`Error::SimulationRevert`].
    CancelThenSimulationRevert,
}

/// What the monitoring loop decides on one tick.
pub open spec fn monitor_step_spec(
    deadline_passed: bool,
    hash: TxId,
    status: TxStatus,
    simulation_reverted: bool,
) -> MonitorStep {
    if deadline_passed {
        MonitorStep::CancelThenExpire
    } else {
        match status {
            TxStatus::Executed => MonitorStep::Confirmed(hash),
            TxStatus::Reverted => MonitorStep::RevertedOnChain(hash),
            TxStatus::Pending => if simulation_reverted {
                MonitorStep::CancelThenSimulationRevert
            } else {
                MonitorStep::Wait
            },
        }
    }
}

/// One tick of the monitoring loop: expire on the deadline, settle the
/// race on execution, report a mined revert, cancel when the pending
/// transaction stops simulating, and otherwise wait for the next block.
pub fn monitor_step(
    deadline_passed: bool,
    hash: TxId,
    status: TxStatus,
    simulation_reverted: bool,
) -> (r: MonitorStep)
    ensures
        r == monitor_step_spec(deadline_passed, hash, status, simulation_reverted),
{
    if deadline_passed {
        MonitorStep::CancelThenExpire
    } else {
        match status {
            TxStatus::Executed => MonitorStep::Confirmed(hash),
            TxStatus::Reverted => MonitorStep::RevertedOnChain(hash),
            TxStatus::Pending => {
                if simulation_reverted {
                    MonitorStep::CancelThenSimulationRevert
                } else {
                    MonitorStep::Wait
                }
            },
        }
    }
}

/// A failure of the status query is treated as still pending.
pub fn effective_status(status: Option<TxStatus>) -> (r: TxStatus)
    ensures
        r == match status {
            Some(s) => s,
            None => TxStatus::Pending,
        },
{
    match status {
        Some(s) => s,
        None => TxStatus::Pending,
    }
}

/// The transaction to submit for a settlement: the encoded settlement
/// call with the settlement's access list attached, since the encoder
/// does not populate it.
pub fn settlement_tx(settlement: &Settlement, encoded: Tx) -> (r: Tx)
    ensures
        r.from == encoded.from,
        r.to == encoded.to,
        r.value == encoded.value,
        r.input@ == encoded.input@,
        r.access_list@ == settlement.access_list@,
{
    let mut access_list: Vec<AccessListEntry> = Vec::new();
    let n = settlement.access_list.len();
    let mut i: usize = 0;
    while i < n
        invariant
            0 <= i <= n,
            n == settlement.access_list@.len(),
            access_list@ == settlement.access_list@.take(i as int),
        decreases n - i,
    {
        access_list.push(settlement.access_list[i]);
        proof {
            assert(settlement.access_list@.take(i + 1) =~= settlement.access_list@.take(
                i as int,
            ).push(settlement.access_list@[i as int]));
        }
        i = i + 1;
    }
    proof {
        assert(settlement.access_list@.take(n as int) =~= settlement.access_list@);
    }
    Tx { access_list, ..encoded }
}

/// A fee increased by at least an eighth, rounded up: the smallest
/// integer fee that overpays the pending one by 12.5%.
pub open spec fn bumped_fee(fee: u128) -> int {
    (9 * fee + 7) / 8
}

/// The gas price that overrides a pending transaction at the same nonce
/// under the must-overpay-by-an-eighth replacement rule.
pub fn bump_gas_price(pending: GasPrice) -> (r: GasPrice)
    requires
        9 * pending.max_fee_per_gas + 7 <= u128::MAX,
        9 * pending.max_priority_fee_per_gas + 7 <= u128::MAX,
    ensures
        r.max_fee_per_gas == bumped_fee(pending.max_fee_per_gas),
        r.max_priority_fee_per_gas == bumped_fee(pending.max_priority_fee_per_gas),
        8 * r.max_fee_per_gas >= 9 * pending.max_fee_per_gas,
        8 * r.max_priority_fee_per_gas >= 9 * pending.max_priority_fee_per_gas,
{
    GasPrice {
        max_fee_per_gas: (9 * pending.max_fee_per_gas + 7) / 8,
        max_priority_fee_per_gas: (9 * pending.max_priority_fee_per_gas + 7) / 8,
    }
}

/// The cancellation of a pending settlement: a no-op transfer from the
/// solver to itself with zero value, empty input, 21000 gas and a gas
/// price that overrides the pending transaction at the same nonce.
pub fn cancellation_tx(solver: Address, pending: GasPrice) -> (r: (Tx, Gas))
    requires
        9 * pending.max_fee_per_gas + 7 <= u128::MAX,
        9 * pending.max_priority_fee_per_gas + 7 <= u128::MAX,
    ensures
        r.0.from == solver,
        r.0.to == solver,
        r.0.value == 0,
        r.0.input@.len() == 0,
        r.0.access_list@.len() == 0,
        r.1.estimate == CANCELLATION_GAS_AMOUNT,
        r.1.limit == CANCELLATION_GAS_AMOUNT,
        r.1.price.max_fee_per_gas == bumped_fee(pending.max_fee_per_gas),
        r.1.price.max_priority_fee_per_gas == bumped_fee(pending.max_priority_fee_per_gas),
{
    let cancellation = Tx {
        from: solver,
        to: solver,
        value: 0,
        input: Vec::new(),
        access_list: Vec::new(),
    };
    let gas = Gas {
        estimate: CANCELLATION_GAS_AMOUNT,
        limit: CANCELLATION_GAS_AMOUNT,
        price: bump_gas_price(pending),
    };
    (cancellation, gas)
}

/// Some outcome of the race succeeded.
pub open spec fn has_success(results: Seq<Result<TxId, Error>>) -> bool {
    exists|i: int| 0 <= i < results.len() && (#[trigger] results[i]) is Ok
}

/// The result of the race across the mempools, the outcomes given in
/// completion order: the first success wins; when every mempool failed,
/// the first error is returned.
pub fn select_result(results: Vec<Result<TxId, Error>>) -> (r: Result<TxId, Error>)
    requires
        results@.len() > 0,
    ensures
        has_success(results@) ==> exists|i: int|
            0 <= i < results@.len() && r == results@[i] && (#[trigger] results@[i]) is Ok && (
            forall|k: int| 0 <= k < i ==> (#[trigger] results@[k]) is Err),
        !has_success(results@) ==> r == results@[0],
{
    let ghost orig = results@;
    let n = results.len();
    let mut idx: usize = 0;
    let mut found = false;
    while idx < n && !found
        invariant
            0 <= idx <= n,
            n == results@.len(),
            results@ == orig,
            !found ==> forall|k: int| 0 <= k < idx ==> (#[trigger] results@[k]) is Err,
            found ==> idx < n && results@[idx as int] is Ok && forall|k: int|
                0 <= k < idx ==> (#[trigger] results@[k]) is Err,
        decreases n - idx + if found {
            0int
        } else {
            1int
        },
    {
        let won = match &results[idx] {
            Ok(_) => true,
            Err(_) => false,
        };
        if won {
            found = true;
        } else {
            idx = idx + 1;
        }
    }
    let mut outcomes = results;
    if found {
        proof {
            assert(orig[idx as int] is Ok);
            assert(has_success(orig));
        }
        outcomes.remove(idx)
    } else {
        proof {
            if has_success(orig) {
                let w = choose|w: int| 0 <= w < orig.len() && (#[trigger] orig[w]) is Ok;
                assert(orig[w] is Err);
            }
        }
        outcomes.remove(0)
    }
}

} // verus!
