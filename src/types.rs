//! The records that the ledgers store and the errors that operations report.
use vstd::prelude::*;

verus! {

/// Configuration fixed when the hub is created.
#[derive(Debug, PartialEq, Eq)]
pub struct Constants {
    /// The single currency accepted for locking.
    pub denom: String,
    /// Length of every round, in nanoseconds.
    pub round_length: u64,
}

/// An amount of one currency.
#[derive(Debug, PartialEq, Eq)]
pub struct Coin {
    pub denom: String,
    pub amount: u128,
}

impl Clone for Coin {
    fn clone(&self) -> (r: Self)
        ensures
            r == *self,
    {
        Coin { denom: self.denom.clone(), amount: self.amount }
    }
}

/// Funds locked by an account until `lock_end` (nanoseconds).
#[derive(Debug, PartialEq, Eq)]
pub struct LockEntry {
    pub funds: Coin,
    pub lock_start: u64,
    pub lock_end: u64,
}

impl Clone for LockEntry {
    fn clone(&self) -> (r: Self)
        ensures
            r == *self,
    {
        LockEntry { funds: self.funds.clone(), lock_start: self.lock_start, lock_end: self.lock_end }
    }
}

/// A proposal of one round, with the power of all the votes cast on it.
#[derive(Debug, PartialEq, Eq)]
pub struct Proposal {
    pub round_id: u64,
    pub covenant_params: String,
    pub executed: bool,
    pub power: u128,
}

impl Clone for Proposal {
    fn clone(&self) -> (r: Self)
        ensures
            r == *self,
    {
        Proposal {
            round_id: self.round_id,
            covenant_params: self.covenant_params.clone(),
            executed: self.executed,
            power: self.power,
        }
    }
}

/// The live vote of one account in one round: the proposal it backs and the
/// power it was cast with.
#[derive(Clone, Copy, Debug, PartialEq, Eq)]
pub struct Vote {
    pub prop_id: u64,
    pub power: u128,
}

/// A round and the time (nanoseconds) at which voting on it closes.
#[derive(Clone, Copy, Debug, PartialEq, Eq)]
pub struct Round {
    pub round_id: u64,
    pub round_end: u64,
}

/// Funds attached to a proposal by a depositor.
#[derive(Debug, PartialEq, Eq)]
pub struct Tribute {
    pub depositor: String,
    pub funds: Coin,
    pub refunded: bool,
}

impl Clone for Tribute {
    fn clone(&self) -> (r: Self)
        ensures
            r == *self,
    {
        Tribute { depositor: self.depositor.clone(), funds: self.funds.clone(), refunded: self.refunded }
    }
}

/// Why an operation was rejected. A rejected operation changes nothing.
#[derive(Clone, Copy, Debug, PartialEq, Eq)]
pub enum ContractError {
    InvalidLockDuration,
    InvalidDeposit,
    InvalidRoundLength,
    RoundNotEnded,
    RoundNotCurrent,
    RoundStillActive,
    ProposalNotFound,
    RoundNotFound,
    TributeNotFound,
    ProposalDidNotWin,
    ProposalWon,
    AlreadyExecuted,
    AlreadyClaimed,
    AlreadyRefunded,
    NoVoteFound,
    VotedDifferentProposal,
    NotDepositor,
    DivisionByZero,
    Overflow,
}

} // verus!
