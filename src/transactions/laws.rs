use vstd::prelude::*;

use super::management::log_keyed;
use super::processing::{run, step, with_dispute};
use super::{ProcessError, Transaction, TransactionId, TransactionType};
use crate::clients::{pool_valid, Client, ClientId};

verus! {

/// A dispute, resolve or chargeback record: it names a client and refers to a
/// stored transaction, and carries no amount.
pub open spec fn reference_record(kind: TransactionType, client: ClientId, tx: TransactionId) -> Transaction {
    Transaction { tx_type: kind, client_id: client, tx_id: tx, amount: None, in_dispute: false }
}

/// Processing a record keeps every account valid and every logged record
/// under its own identifier.
pub proof fn lemma_step_keeps_ledger_invariant(
    pool: Map<u16, Client>,
    log: Map<u32, Transaction>,
    t: Transaction,
)
    requires
        pool_valid(pool),
        log_keyed(log),
    ensures
        pool_valid(step(pool, log, t).0),
        log_keyed(step(pool, log, t).1),
{
}

/// After every processed record, every account satisfies
/// `total == available + held` with all three balances non-negative.
pub proof fn lemma_run_keeps_ledger_invariant(
    pool: Map<u16, Client>,
    log: Map<u32, Transaction>,
    txs: Seq<Transaction>,
)
    requires
        pool_valid(pool),
        log_keyed(log),
    ensures
        forall|i: int| 0 <= i <= txs.len() ==> #[trigger] pool_valid(run(pool, log, txs.take(i)).0),
        pool_valid(run(pool, log, txs).0),
        log_keyed(run(pool, log, txs).1),
    decreases txs.len(),
{
    if txs.len() > 0 {
        lemma_run_keeps_ledger_invariant(pool, log, txs.drop_last());
        let (p, l, rs) = run(pool, log, txs.drop_last());
        lemma_step_keeps_ledger_invariant(p, l, txs.last());
        assert forall|i: int| 0 <= i <= txs.len() implies #[trigger] pool_valid(run(pool, log, txs.take(i)).0) by {
            if i == txs.len() {
                assert(txs.take(i) =~= txs);
            } else {
                assert(txs.take(i) =~= txs.drop_last().take(i));
            }
        }
    } else {
        assert forall|i: int| 0 <= i <= txs.len() implies #[trigger] pool_valid(run(pool, log, txs.take(i)).0) by {
            assert(txs.take(i) =~= txs);
        }
    }
}

/// A deposit or withdrawal whose identifier is already logged is ignored and
/// changes nothing.
pub proof fn lemma_duplicate_is_ignored(
    pool: Map<u16, Client>,
    log: Map<u32, Transaction>,
    t: Transaction,
)
    requires
        t.tx_type.is_funding(),
        log.contains_key(t.tx_id.0),
    ensures
        step(pool, log, t) == (pool, log, Err::<(), ProcessError>(ProcessError::DuplicateTransaction)),
{
}

/// A withdrawal of more than the client's available balance is rejected and
/// changes nothing.
pub proof fn lemma_overdraft_is_rejected(
    pool: Map<u16, Client>,
    log: Map<u32, Transaction>,
    t: Transaction,
)
    requires
        pool_valid(pool),
        t.tx_type is Withdrawal,
        pool.contains_key(t.client_id.0),
        t.amount is Some,
        t.amount->Some_0.value() > pool[t.client_id.0].available.value(),
    ensures
        step(pool, log, t).0 == pool,
        step(pool, log, t).1 == log,
        step(pool, log, t).2 is Err,
        !log.contains_key(t.tx_id.0) && !pool[t.client_id.0].locked ==> step(pool, log, t).2
            == Err::<(), ProcessError>(ProcessError::InsufficientAvailable),
{
    assert(pool.insert(t.client_id.0, pool[t.client_id.0]) =~= pool);
}

/// Disputing a deposit and then resolving it restores the account exactly
/// and leaves the deposit out of dispute.
pub proof fn lemma_dispute_then_resolve(
    pool: Map<u16, Client>,
    log: Map<u32, Transaction>,
    client: ClientId,
    tx: TransactionId,
)
    requires
        pool_valid(pool),
        pool.contains_key(client.0),
        !pool[client.0].locked,
        log.contains_key(tx.0),
        log[tx.0].tx_type is Deposit,
        log[tx.0].amount is Some,
        0 <= log[tx.0].amount->Some_0.value() <= pool[client.0].available.value(),
    ensures
        ({
            let (p1, l1, r1) = step(pool, log, reference_record(TransactionType::Dispute, client, tx));
            let (p2, l2, r2) = step(p1, l1, reference_record(TransactionType::Resolve, client, tx));
            &&& r1 == Ok::<(), ProcessError>(())
            &&& r2 == Ok::<(), ProcessError>(())
            &&& l1[tx.0].in_dispute
            &&& p2 == pool
            &&& l2 == log.insert(tx.0, with_dispute(log[tx.0], false))
        }),
{
    let (p1, l1, r1) = step(pool, log, reference_record(TransactionType::Dispute, client, tx));
    let (p2, l2, r2) = step(p1, l1, reference_record(TransactionType::Resolve, client, tx));
    assert(p2[client.0] == pool[client.0]);
    assert(p2 =~= pool);
    assert(l2 =~= log.insert(tx.0, with_dispute(log[tx.0], false)));
}

/// Disputing a deposit and then charging it back takes the amount out of the
/// held and total balances, locks the account, and closes the dispute.
pub proof fn lemma_dispute_then_chargeback(
    pool: Map<u16, Client>,
    log: Map<u32, Transaction>,
    client: ClientId,
    tx: TransactionId,
)
    requires
        pool_valid(pool),
        pool.contains_key(client.0),
        !pool[client.0].locked,
        log.contains_key(tx.0),
        log[tx.0].tx_type is Deposit,
        log[tx.0].amount is Some,
        0 <= log[tx.0].amount->Some_0.value() <= pool[client.0].available.value(),
    ensures
        ({
            let a = log[tx.0].amount->Some_0.value();
            let c = pool[client.0];
            let (p1, l1, r1) = step(pool, log, reference_record(TransactionType::Dispute, client, tx));
            let (p2, l2, r2) = step(p1, l1, reference_record(TransactionType::Chargeback, client, tx));
            &&& r1 == Ok::<(), ProcessError>(())
            &&& r2 == Ok::<(), ProcessError>(())
            &&& p2.contains_key(client.0)
            &&& p2[client.0].available.value() == c.available.value() - a
            &&& p2[client.0].held.value() == c.held.value()
            &&& p2[client.0].total.value() == c.total.value() - a
            &&& p2[client.0].locked
            &&& !l2[tx.0].in_dispute
            &&& forall|k: u16| k != client.0 ==> p2.contains_key(k) == pool.contains_key(k) && (
                pool.contains_key(k) ==> #[trigger] p2[k] == pool[k])
        }),
{
}

/// A locked account rejects every record that names it, and nothing changes.
pub proof fn lemma_locked_rejects(
    pool: Map<u16, Client>,
    log: Map<u32, Transaction>,
    t: Transaction,
)
    requires
        pool.contains_key(t.client_id.0),
        pool[t.client_id.0].locked,
    ensures
        step(pool, log, t).0 == pool,
        step(pool, log, t).1 == log,
        step(pool, log, t).2 is Err,
{
    assert(pool.insert(t.client_id.0, pool[t.client_id.0]) =~= pool);
}

/// A locked account stays exactly as it is, whatever records follow.
pub proof fn lemma_lock_is_permanent(
    pool: Map<u16, Client>,
    log: Map<u32, Transaction>,
    txs: Seq<Transaction>,
    id: u16,
)
    requires
        pool_valid(pool),
        pool.contains_key(id),
        pool[id].locked,
    ensures
        run(pool, log, txs).0.contains_key(id),
        run(pool, log, txs).0[id] == pool[id],
    decreases txs.len(),
{
    if txs.len() > 0 {
        lemma_lock_is_permanent(pool, log, txs.drop_last(), id);
        let (p, l, rs) = run(pool, log, txs.drop_last());
        let t = txs.last();
        if t.client_id.0 == id {
            lemma_locked_rejects(p, l, t);
        }
    }
}

/// Disputing a withdrawal succeeds and changes nothing.
pub proof fn lemma_withdrawal_dispute_is_noop(
    pool: Map<u16, Client>,
    log: Map<u32, Transaction>,
    client: ClientId,
    tx: TransactionId,
)
    requires
        pool.contains_key(client.0),
        !pool[client.0].locked,
        log.contains_key(tx.0),
        log[tx.0].tx_type is Withdrawal,
        log[tx.0].amount is Some,
    ensures
        step(pool, log, reference_record(TransactionType::Dispute, client, tx)) == (
            pool,
            log,
            Ok::<(), ProcessError>(()),
        ),
{
}

} // verus!
