use vstd::prelude::*;

use super::management::TransactionTree;
use super::{ProcessError, Transaction, TransactionType};
use crate::amount::Amount;
use crate::clients::{balances_valid, fresh_client, Client, ClientPool};

verus! {

/// `c` with its three balances replaced.
pub open spec fn with_balances(c: Client, available: int, held: int, total: int) -> Client {
    Client {
        id: c.id,
        available: Amount { units: available as i128 },
        held: Amount { units: held as i128 },
        total: Amount { units: total as i128 },
        locked: c.locked,
    }
}

/// The account a deposit or withdrawal acts on: the stored one, or a fresh
/// one for an unseen client.
pub open spec fn account_for(pool: Map<u16, Client>, t: Transaction) -> Client {
    if pool.contains_key(t.client_id.0) {
        pool[t.client_id.0]
    } else {
        fresh_client(t.client_id)
    }
}

/// The ledger after a deposit, and the handler's result.
pub open spec fn deposit_spec(pool: Map<u16, Client>, t: Transaction) -> (Map<u16, Client>, Result<(), ProcessError>) {
    let id = t.client_id.0;
    let c = account_for(pool, t);
    let p = pool.insert(id, c);
    if c.locked {
        (p, Err(ProcessError::ClientLocked))
    } else if t.amount is None {
        (p, Err(ProcessError::MissingAmount))
    } else {
        let a = t.amount->Some_0.value();
        let na = c.available.value() + a;
        let nt = c.total.value() + a;
        if a < 0 {
            (p, Err(ProcessError::NegativeAmount))
        } else if balances_valid(na, c.held.value(), nt) {
            (p.insert(id, with_balances(c, na, c.held.value(), nt)), Ok(()))
        } else {
            (p, Err(ProcessError::InvariantViolation))
        }
    }
}

/// The ledger after a withdrawal, and the handler's result.
pub open spec fn withdrawal_spec(pool: Map<u16, Client>, t: Transaction) -> (Map<u16, Client>, Result<(), ProcessError>) {
    let id = t.client_id.0;
    let c = account_for(pool, t);
    let p = pool.insert(id, c);
    if c.locked {
        (p, Err(ProcessError::ClientLocked))
    } else if t.amount is None {
        (p, Err(ProcessError::MissingAmount))
    } else {
        let a = t.amount->Some_0.value();
        let na = c.available.value() - a;
        let nt = c.total.value() - a;
        if a < 0 {
            (p, Err(ProcessError::NegativeAmount))
        } else if c.available.value() < a {
            (p, Err(ProcessError::InsufficientAvailable))
        } else if balances_valid(na, c.held.value(), nt) {
            (p.insert(id, with_balances(c, na, c.held.value(), nt)), Ok(()))
        } else {
            (p, Err(ProcessError::InvariantViolation))
        }
    }
}

/// The preconditions shared by dispute, resolve and chargeback, in the order
/// they are checked: `None` when they all hold.
pub open spec fn reference_error(pool: Map<u16, Client>, log: Map<u32, Transaction>, t: Transaction) -> Option<ProcessError> {
    if !pool.contains_key(t.client_id.0) {
        Some(ProcessError::UnknownClient)
    } else if !log.contains_key(t.tx_id.0) {
        Some(ProcessError::TransactionNotFound)
    } else if pool[t.client_id.0].locked {
        Some(ProcessError::ClientLocked)
    } else if log[t.tx_id.0].amount is None {
        Some(ProcessError::MissingAmount)
    } else {
        None
    }
}

/// `r` with its dispute flag set to `flag`.
pub open spec fn with_dispute(r: Transaction, flag: bool) -> Transaction {
    Transaction { in_dispute: flag, ..r }
}

/// The ledger and log after a dispute, and the handler's result.
pub open spec fn dispute_spec(pool: Map<u16, Client>, log: Map<u32, Transaction>, t: Transaction) -> (Map<u16, Client>, Map<u32, Transaction>, Result<(), ProcessError>) {
    if let Some(e) = reference_error(pool, log, t) {
        (pool, log, Err(e))
    } else {
        let c = pool[t.client_id.0];
        let r = log[t.tx_id.0];
        let a = r.amount->Some_0.value();
        let na = c.available.value() - a;
        let nh = c.held.value() + a;
        if !(r.tx_type is Deposit) {
            (pool, log, Ok(()))
        } else if c.available.value() < a {
            (pool, log, Err(ProcessError::InsufficientAvailable))
        } else if balances_valid(na, nh, c.total.value()) {
            (
                pool.insert(t.client_id.0, with_balances(c, na, nh, c.total.value())),
                log.insert(t.tx_id.0, with_dispute(r, true)),
                Ok(()),
            )
        } else {
            (pool, log, Err(ProcessError::InvariantViolation))
        }
    }
}

/// The ledger and log after a resolve, and the handler's result.
pub open spec fn resolve_spec(pool: Map<u16, Client>, log: Map<u32, Transaction>, t: Transaction) -> (Map<u16, Client>, Map<u32, Transaction>, Result<(), ProcessError>) {
    if let Some(e) = reference_error(pool, log, t) {
        (pool, log, Err(e))
    } else {
        let c = pool[t.client_id.0];
        let r = log[t.tx_id.0];
        let a = r.amount->Some_0.value();
        let na = c.available.value() + a;
        let nh = c.held.value() - a;
        if !(r.tx_type is Deposit) {
            (pool, log, Ok(()))
        } else if c.held.value() < a {
            (pool, log, Err(ProcessError::InsufficientHeld))
        } else if !r.in_dispute {
            (pool, log, Err(ProcessError::NotInDispute))
        } else if balances_valid(na, nh, c.total.value()) {
            (
                pool.insert(t.client_id.0, with_balances(c, na, nh, c.total.value())),
                log.insert(t.tx_id.0, with_dispute(r, false)),
                Ok(()),
            )
        } else {
            (pool, log, Err(ProcessError::InvariantViolation))
        }
    }
}

/// `c` after a chargeback of `a`: held and total reduced, and locked.
pub open spec fn charged_back(c: Client, a: int) -> Client {
    Client {
        locked: true,
        ..with_balances(c, c.available.value(), c.held.value() - a, c.total.value() - a)
    }
}

/// The ledger and log after a chargeback, and the handler's result.
pub open spec fn chargeback_spec(pool: Map<u16, Client>, log: Map<u32, Transaction>, t: Transaction) -> (Map<u16, Client>, Map<u32, Transaction>, Result<(), ProcessError>) {
    if let Some(e) = reference_error(pool, log, t) {
        (pool, log, Err(e))
    } else {
        let c = pool[t.client_id.0];
        let r = log[t.tx_id.0];
        let a = r.amount->Some_0.value();
        if !(r.tx_type is Deposit) {
            (pool, log, Ok(()))
        } else if c.held.value() < a {
            (pool, log, Err(ProcessError::InsufficientHeld))
        } else if !r.in_dispute {
            (pool, log, Err(ProcessError::NotInDispute))
        } else if balances_valid(c.available.value(), c.held.value() - a, c.total.value() - a) {
            (
                pool.insert(t.client_id.0, charged_back(c, a)),
                log.insert(t.tx_id.0, with_dispute(r, false)),
                Ok(()),
            )
        } else {
            (pool, log, Err(ProcessError::InvariantViolation))
        }
    }
}

/// One record applied to the ledger and the log: the duplicate check, then
/// the handler of its kind; a deposit or withdrawal enters the log only when
/// its handler succeeds.
pub open spec fn step(pool: Map<u16, Client>, log: Map<u32, Transaction>, t: Transaction) -> (Map<u16, Client>, Map<u32, Transaction>, Result<(), ProcessError>) {
    match t.tx_type {
        TransactionType::Deposit | TransactionType::Withdrawal => {
            if log.contains_key(t.tx_id.0) {
                (pool, log, Err(ProcessError::DuplicateTransaction))
            } else {
                let (p, r) = if t.tx_type is Deposit {
                    deposit_spec(pool, t)
                } else {
                    withdrawal_spec(pool, t)
                };
                (p, if r is Ok { log.insert(t.tx_id.0, t) } else { log }, r)
            }
        },
        TransactionType::Dispute => dispute_spec(pool, log, t),
        TransactionType::Resolve => resolve_spec(pool, log, t),
        TransactionType::Chargeback => chargeback_spec(pool, log, t),
    }
}

/// The records of `txs` applied in order: the final ledger, the final log, and
/// the result of each record.
pub open spec fn run(pool: Map<u16, Client>, log: Map<u32, Transaction>, txs: Seq<Transaction>) -> (Map<u16, Client>, Map<u32, Transaction>, Seq<Result<(), ProcessError>>)
    decreases txs.len(),
{
    if txs.len() == 0 {
        (pool, log, Seq::empty())
    } else {
        let (p, l, rs) = run(pool, log, txs.drop_last());
        let (p2, l2, r) = step(p, l, txs.last());
        (p2, l2, rs.push(r))
    }
}

/// Applies `transactions` in order. A record that fails is skipped, and its
/// error stands at its position in the returned results; processing always
/// runs to the end of the input.
pub fn process_transactions(
    transactions: Vec<Transaction>,
    clients: &mut ClientPool,
    transaction_numbers: &mut TransactionTree,
) -> (results: Vec<Result<(), ProcessError>>)
    requires
        old(clients).wf(),
        old(transaction_numbers).wf(),
    ensures
        (final(clients)@, final(transaction_numbers)@, results@) == run(
            old(clients)@,
            old(transaction_numbers)@,
            transactions@,
        ),
        final(clients).wf(),
        final(transaction_numbers).wf(),
{
    let mut results: Vec<Result<(), ProcessError>> = Vec::new();
    let mut i: usize = 0;
    assert(transactions@.take(0) =~= Seq::<Transaction>::empty());
    while i < transactions.len()
        invariant
            i <= transactions.len(),
            clients.wf(),
            transaction_numbers.wf(),
            (clients@, transaction_numbers@, results@) == run(
                old(clients)@,
                old(transaction_numbers)@,
                transactions@.take(i as int),
            ),
        decreases transactions.len() - i,
    {
        let transaction = transactions[i];
        let is_funding = matches!(transaction.tx_type, TransactionType::Deposit | TransactionType::Withdrawal);
        let r = if is_funding && transaction_numbers.contains(&transaction.tx_id) {
            Err(ProcessError::DuplicateTransaction)
        } else {
            match transaction.tx_type {
                TransactionType::Deposit => {
                    let r = process_deposit(transaction, clients);
                    if r.is_ok() {
                        transaction_numbers.insert(transaction);
                    }
                    r
                },
                TransactionType::Withdrawal => {
                    let r = process_withdrawal(transaction, clients);
                    if r.is_ok() {
                        transaction_numbers.insert(transaction);
                    }
                    r
                },
                TransactionType::Dispute => process_dispute(transaction, clients, transaction_numbers),
                TransactionType::Resolve => process_resolve(transaction, clients, transaction_numbers),
                TransactionType::Chargeback => process_chargeback(transaction, clients, transaction_numbers),
            }
        };
        results.push(r);
        proof {
            let next = transactions@.take(i + 1);
            assert(next.drop_last() =~= transactions@.take(i as int));
            assert(next.last() == transaction);
        }
        i = i + 1;
    }
    assert(transactions@.take(i as int) =~= transactions@);
    results
}

/// Looks up the client of a deposit or withdrawal, creating a fresh account
/// for an unseen one.
fn client_for(t: &Transaction, clients: &mut ClientPool) -> (c: Client)
    requires
        old(clients).wf(),
    ensures
        c == account_for(old(clients)@, *t),
        final(clients)@ == old(clients)@.insert(t.client_id.0, c),
        final(clients).wf(),
{
    match clients.get_client(t.client_id) {
        Some(c) => {
            let c = *c;
            proof {
                assert(old(clients)@.insert(t.client_id.0, c) =~= old(clients)@);
            }
            c
        },
        None => {
            let c = Client::new(t.client_id);
            clients.add_client(c);
            c
        },
    }
}

/// Commits `staged` when it keeps the ledger invariant; otherwise leaves the
/// ledger untouched.
fn commit(clients: &mut ClientPool, staged: Client) -> (r: Result<(), ProcessError>)
    requires
        old(clients).wf(),
    ensures
        staged.valid() ==> r == Ok::<(), ProcessError>(()) && final(clients)@ == old(clients)@.insert(staged.id.0, staged),
        !staged.valid() ==> r == Err::<(), ProcessError>(ProcessError::InvariantViolation)
            && final(clients)@ == old(clients)@,
        final(clients).wf(),
{
    if staged.check_client_validity() {
        clients.add_client(staged);
        Ok(())
    } else {
        Err(ProcessError::InvariantViolation)
    }
}

fn process_deposit(transaction: Transaction, clients: &mut ClientPool) -> (r: Result<(), ProcessError>)
    requires
        old(clients).wf(),
    ensures
        (final(clients)@, r) == deposit_spec(old(clients)@, transaction),
        final(clients).wf(),
{
    let client = client_for(&transaction, clients);
    if client.locked {
        return Err(ProcessError::ClientLocked);
    }
    let amount = match transaction.amount {
        Some(a) => a,
        None => {
            return Err(ProcessError::MissingAmount);
        },
    };
    if amount.units < 0 {
        return Err(ProcessError::NegativeAmount);
    }
    let available = client.available.units.checked_add(amount.units);
    let total = client.total.units.checked_add(amount.units);
    let ghost na = client.available.value() + amount.value();
    let ghost nt = client.total.value() + amount.value();
    assert(client.id.0 == transaction.client_id.0);
    match (available, total) {
        (Some(available), Some(total)) => {
            let staged = Client {
                available: Amount::from_units(available),
                total: Amount::from_units(total),
                ..client
            };
            assert(staged == with_balances(client, na, client.held.value(), nt));
            commit(clients, staged)
        },
        _ => {
            assert(!balances_valid(na, client.held.value(), nt));
            Err(ProcessError::InvariantViolation)
        },
    }
}

fn process_withdrawal(transaction: Transaction, clients: &mut ClientPool) -> (r: Result<(), ProcessError>)
    requires
        old(clients).wf(),
    ensures
        (final(clients)@, r) == withdrawal_spec(old(clients)@, transaction),
        final(clients).wf(),
{
    let client = client_for(&transaction, clients);
    if client.locked {
        return Err(ProcessError::ClientLocked);
    }
    let amount = match transaction.amount {
        Some(a) => a,
        None => {
            return Err(ProcessError::MissingAmount);
        },
    };
    if amount.units < 0 {
        return Err(ProcessError::NegativeAmount);
    }
    if client.available.units < amount.units {
        return Err(ProcessError::InsufficientAvailable);
    }
    let available = client.available.units.checked_sub(amount.units);
    let total = client.total.units.checked_sub(amount.units);
    let ghost na = client.available.value() - amount.value();
    let ghost nt = client.total.value() - amount.value();
    assert(client.id.0 == transaction.client_id.0);
    match (available, total) {
        (Some(available), Some(total)) => {
            let staged = Client {
                available: Amount::from_units(available),
                total: Amount::from_units(total),
                ..client
            };
            assert(staged == with_balances(client, na, client.held.value(), nt));
            commit(clients, staged)
        },
        _ => {
            assert(!balances_valid(na, client.held.value(), nt));
            Err(ProcessError::InvariantViolation)
        },
    }
}

/// The account, the referenced record and its amount for a dispute, resolve
/// or chargeback, or the first of their shared preconditions that fails.
fn lookup_reference(
    t: &Transaction,
    clients: &ClientPool,
    transaction_tree: &TransactionTree,
) -> (r: Result<(Client, Transaction, Amount), ProcessError>)
    requires
        clients.wf(),
        transaction_tree.wf(),
    ensures
        match r {
            Ok((c, rec, a)) => {
                &&& reference_error(clients@, transaction_tree@, *t) is None
                &&& c == clients@[t.client_id.0]
                &&& rec == transaction_tree@[t.tx_id.0]
                &&& rec.amount == Some(a)
            },
            Err(e) => reference_error(clients@, transaction_tree@, *t) == Some(e),
        },
{
    let client = match clients.get_client(t.client_id) {
        Some(c) => *c,
        None => {
            return Err(ProcessError::UnknownClient);
        },
    };
    let record = match transaction_tree.get(&t.tx_id) {
        Some(rec) => *rec,
        None => {
            return Err(ProcessError::TransactionNotFound);
        },
    };
    if client.locked {
        return Err(ProcessError::ClientLocked);
    }
    match record.amount {
        Some(a) => Ok((client, record, a)),
        None => Err(ProcessError::MissingAmount),
    }
}

fn process_dispute(
    transaction: Transaction,
    clients: &mut ClientPool,
    transaction_tree: &mut TransactionTree,
) -> (r: Result<(), ProcessError>)
    requires
        old(clients).wf(),
        old(transaction_tree).wf(),
    ensures
        (final(clients)@, final(transaction_tree)@, r) == dispute_spec(
            old(clients)@,
            old(transaction_tree)@,
            transaction,
        ),
        final(clients).wf(),
        final(transaction_tree).wf(),
{
    let (client, record, amount) = match lookup_reference(&transaction, clients, transaction_tree) {
        Ok(found) => found,
        Err(e) => {
            return Err(e);
        },
    };
    if !matches!(record.tx_type, TransactionType::Deposit) {
        return Ok(());
    }
    if client.available.units < amount.units {
        return Err(ProcessError::InsufficientAvailable);
    }
    let available = client.available.units.checked_sub(amount.units);
    let held = client.held.units.checked_add(amount.units);
    let ghost na = client.available.value() - amount.value();
    let ghost nh = client.held.value() + amount.value();
    match (available, held) {
        (Some(available), Some(held)) => {
            let staged = Client {
                available: Amount::from_units(available),
                held: Amount::from_units(held),
                ..client
            };
            assert(staged == with_balances(client, na, nh, client.total.value()));
            let r = commit(clients, staged);
            if r.is_ok() {
                transaction_tree.insert(Transaction { in_dispute: true, ..record });
            }
            r
        },
        _ => {
            assert(!balances_valid(na, nh, client.total.value()));
            Err(ProcessError::InvariantViolation)
        },
    }
}

fn process_resolve(
    transaction: Transaction,
    clients: &mut ClientPool,
    transaction_tree: &mut TransactionTree,
) -> (r: Result<(), ProcessError>)
    requires
        old(clients).wf(),
        old(transaction_tree).wf(),
    ensures
        (final(clients)@, final(transaction_tree)@, r) == resolve_spec(
            old(clients)@,
            old(transaction_tree)@,
            transaction,
        ),
        final(clients).wf(),
        final(transaction_tree).wf(),
{
    let (client, record, amount) = match lookup_reference(&transaction, clients, transaction_tree) {
        Ok(found) => found,
        Err(e) => {
            return Err(e);
        },
    };
    if !matches!(record.tx_type, TransactionType::Deposit) {
        return Ok(());
    }
    if client.held.units < amount.units {
        return Err(ProcessError::InsufficientHeld);
    }
    if !record.in_dispute {
        return Err(ProcessError::NotInDispute);
    }
    let available = client.available.units.checked_add(amount.units);
    let held = client.held.units.checked_sub(amount.units);
    let ghost na = client.available.value() + amount.value();
    let ghost nh = client.held.value() - amount.value();
    match (available, held) {
        (Some(available), Some(held)) => {
            let staged = Client {
                available: Amount::from_units(available),
                held: Amount::from_units(held),
                ..client
            };
            assert(staged == with_balances(client, na, nh, client.total.value()));
            let r = commit(clients, staged);
            if r.is_ok() {
                transaction_tree.insert(Transaction { in_dispute: false, ..record });
            }
            r
        },
        _ => {
            assert(!balances_valid(na, nh, client.total.value()));
            Err(ProcessError::InvariantViolation)
        },
    }
}

fn process_chargeback(
    transaction: Transaction,
    clients: &mut ClientPool,
    transaction_tree: &mut TransactionTree,
) -> (r: Result<(), ProcessError>)
    requires
        old(clients).wf(),
        old(transaction_tree).wf(),
    ensures
        (final(clients)@, final(transaction_tree)@, r) == chargeback_spec(
            old(clients)@,
            old(transaction_tree)@,
            transaction,
        ),
        final(clients).wf(),
        final(transaction_tree).wf(),
{
    let (client, record, amount) = match lookup_reference(&transaction, clients, transaction_tree) {
        Ok(found) => found,
        Err(e) => {
            return Err(e);
        },
    };
    if !matches!(record.tx_type, TransactionType::Deposit) {
        return Ok(());
    }
    if client.held.units < amount.units {
        return Err(ProcessError::InsufficientHeld);
    }
    if !record.in_dispute {
        return Err(ProcessError::NotInDispute);
    }
    let held = client.held.units.checked_sub(amount.units);
    let total = client.total.units.checked_sub(amount.units);
    let ghost nh = client.held.value() - amount.value();
    let ghost nt = client.total.value() - amount.value();
    match (held, total) {
        (Some(held), Some(total)) => {
            let staged = Client {
                held: Amount::from_units(held),
                total: Amount::from_units(total),
                locked: true,
                ..client
            };
            assert(staged == charged_back(client, amount.value()));
            let r = commit(clients, staged);
            if r.is_ok() {
                transaction_tree.insert(Transaction { in_dispute: false, ..record });
            }
            r
        },
        _ => {
            assert(!balances_valid(client.available.value(), nh, nt));
            Err(ProcessError::InvariantViolation)
        },
    }
}

} // verus!
