use vstd::prelude::*;

use crate::amount::Amount;
use crate::clients::ClientId;

pub mod management;
pub mod processing;
pub mod laws;

verus! {

/// Identifies a deposit or withdrawal; the dispute family refers back to one
/// by it.
#[derive(Clone, Copy, Debug, PartialEq, Eq, PartialOrd, Ord, Hash, Structural)]
pub struct TransactionId(pub u32);

#[derive(Clone, Copy, Debug, PartialEq, Eq, PartialOrd, Ord, Structural)]
pub enum TransactionType {
    Deposit,
    Withdrawal,
    Dispute,
    Resolve,
    Chargeback,
}

/// An input record, and, for an accepted deposit or withdrawal, the record
/// kept in the transaction log.
#[derive(Clone, Copy, Debug, PartialEq, Eq, Structural)]
pub struct Transaction {
    pub tx_type: TransactionType,
    pub client_id: ClientId,
    pub tx_id: TransactionId,
    pub amount: Option<Amount>,
    pub in_dispute: bool,
}

impl TransactionType {
    /// Whether this kind mints a new transaction identifier.
    pub open spec fn is_funding(self) -> bool {
        self is Deposit || self is Withdrawal
    }
}

/// Why a record was skipped.
#[derive(Clone, Copy, Debug, PartialEq, Eq, Structural)]
pub enum ProcessError {
    /// A deposit or withdrawal reuses an identifier already in the log.
    DuplicateTransaction,
    /// A dispute, resolve or chargeback names a client with no account.
    UnknownClient,
    /// The client's account is locked.
    ClientLocked,
    /// The record, or the one it refers to, carries no amount.
    MissingAmount,
    /// A deposit or withdrawal of a negative amount.
    NegativeAmount,
    /// The available balance does not cover the amount.
    InsufficientAvailable,
    /// The held balance does not cover the amount.
    InsufficientHeld,
    /// The referenced transaction is not in the log.
    TransactionNotFound,
    /// The referenced transaction is not under dispute.
    NotInDispute,
    /// The staged account would break the ledger invariant; nothing changed.
    InvariantViolation,
}

} // verus!
