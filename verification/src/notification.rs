//! Notifications about important driver events that solvers need to know
//! about.

use vstd::prelude::*;
use crate::order::Address;
use crate::settlement::{Tx, TxId};

verus! {

/// A solution's score, in native token atoms.
#[derive(Clone, Copy, Debug, PartialEq, Eq, Structural)]
pub struct Score(pub u128);

impl From<u128> for Score {
    fn from(value: u128) -> (r: Self) {
        Score(value)
    }
}

impl vstd::std_specs::convert::FromSpecImpl<u128> for Score {
    open spec fn obeys_from_spec() -> bool {
        true
    }

    open spec fn from_spec(value: u128) -> Self {
        Score(value)
    }
}

/// A solution's quality: the surplus plus fees, in native token atoms.
#[derive(Clone, Copy, Debug, PartialEq, Eq, Structural)]
pub struct Quality(pub u128);

impl From<u128> for Quality {
    fn from(value: u128) -> (r: Self) {
        Quality(value)
    }
}

impl vstd::std_specs::convert::FromSpecImpl<u128> for Quality {
    open spec fn obeys_from_spec() -> bool {
        true
    }

    open spec fn from_spec(value: u128) -> Self {
        Quality(value)
    }
}

/// A solution's gas cost, in native token atoms.
#[derive(Clone, Copy, Debug, PartialEq, Eq, Structural)]
pub struct GasCost(pub u128);

impl From<u128> for GasCost {
    fn from(value: u128) -> (r: Self) {
        GasCost(value)
    }
}

impl vstd::std_specs::convert::FromSpecImpl<u128> for GasCost {
    open spec fn obeys_from_spec() -> bool {
        true
    }

    open spec fn from_spec(value: u128) -> Self {
        GasCost(value)
    }
}

/// A success probability, carried as the opaque value the scoring
/// machinery produced.
#[derive(Clone, Copy, Debug, PartialEq, Eq, Structural)]
pub struct SuccessProbability(pub u64);

/// The result of the winning solver trying to settle on-chain.
#[derive(Clone, Copy, Debug, PartialEq, Eq, Structural)]
pub enum Settlement {
    Success(TxId),
    Revert(TxId),
    SimulationRevert,
    Fail,
}

/// Why scoring a solution failed.
#[derive(Clone, Copy, Debug, PartialEq, Eq, Structural)]
pub enum ScoreKind {
    ZeroScore,
    ScoreHigherThanQuality(Score, Quality),
    SuccessProbabilityOutOfRange(SuccessProbability),
    ObjectiveValueNonPositive(Quality, GasCost),
}

/// All types of notifications solvers can be informed about.
#[derive(Clone, Debug)]
pub enum Kind {
    Timeout,
    EmptySolution,
    DuplicatedSolutionId,
    /// Simulation failed at a block, for the given transaction.
    SimulationFailed(u64, Tx),
    ScoringFailed(ScoreKind),
    /// Tokens the settlement contract cannot hold were used.
    NonBufferableTokensUsed(Vec<Address>),
    /// The solver account holds less than this much native token.
    SolverAccountInsufficientBalance(u128),
    /// Per-token mismatches between promised and actual asset flow.
    AssetFlow(Vec<(Address, i128)>),
    Settled(Settlement),
}

/// A notification about an important driver event.
#[derive(Clone, Debug)]
pub struct Notification {
    pub auction_id: i64,
    pub solution_id: Option<u64>,
    pub kind: Kind,
}

} // verus!
