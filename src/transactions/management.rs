use std::collections::BTreeMap;
use vstd::prelude::*;

use super::{Transaction, TransactionId};

verus! {

/// The transaction log: accepted deposits and withdrawals, by identifier.
#[derive(Debug)]
pub struct TransactionTree {
    transactions: BTreeMap<u32, Transaction>,
}

impl Default for TransactionTree {
    fn default() -> (r: TransactionTree)
        ensures
            r@ == Map::<u32, Transaction>::empty(),
            r.wf(),
    {
        TransactionTree::new()
    }
}

impl TransactionTree {
    /// The stored records, by identifier.
    pub closed spec fn view(&self) -> Map<u32, Transaction> {
        self.transactions@
    }

    /// Every record is stored under its own identifier.
    pub open spec fn wf(&self) -> bool {
        log_keyed(self@)
    }

    pub fn new() -> (r: TransactionTree)
        ensures
            r@ == Map::<u32, Transaction>::empty(),
            r.wf(),
    {
        TransactionTree { transactions: BTreeMap::new() }
    }

    /// Stores `transaction` under its identifier, replacing any record there.
    pub fn insert(&mut self, transaction: Transaction)
        ensures
            final(self)@ == old(self)@.insert(transaction.tx_id.0, transaction),
            old(self).wf() ==> final(self).wf(),
    {
        self.transactions.insert(transaction.tx_id.0, transaction);
    }

    pub fn contains(&self, tx_id: &TransactionId) -> (r: bool)
        ensures
            r == self@.contains_key(tx_id.0),
    {
        self.transactions.contains_key(&tx_id.0)
    }

    pub fn get(&self, tx_id: &TransactionId) -> (r: Option<&Transaction>)
        ensures
            match r {
                Some(t) => self@.contains_key(tx_id.0) && *t == self@[tx_id.0],
                None => !self@.contains_key(tx_id.0),
            },
    {
        self.transactions.get(&tx_id.0)
    }
}

/// Every record of `log` is stored under its own identifier.
pub open spec fn log_keyed(log: Map<u32, Transaction>) -> bool {
    forall|k: u32| #[trigger] log.contains_key(k) ==> log[k].tx_id.0 == k
}

} // verus!
