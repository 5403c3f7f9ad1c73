//! A transaction processing engine: replays deposits, withdrawals and the
//! dispute family against per-client ledger accounts, keeping every account
//! balanced after every record.

pub mod amount;
pub mod clients;
pub mod transactions;
