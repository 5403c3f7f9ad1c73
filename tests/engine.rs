use tps::amount::Amount;
use tps::clients::{format_row, Client, ClientId, ClientPool};
use tps::transactions::management::TransactionTree;
use tps::transactions::processing::process_transactions;
use tps::transactions::{ProcessError, Transaction, TransactionId, TransactionType};

fn record(kind: TransactionType, client: u16, tx: u32, units: Option<i128>) -> Transaction {
    Transaction {
        tx_type: kind,
        client_id: ClientId(client),
        tx_id: TransactionId(tx),
        amount: units.map(Amount::from_units),
        in_dispute: false,
    }
}

fn deposit(client: u16, tx: u32, units: i128) -> Transaction {
    record(TransactionType::Deposit, client, tx, Some(units))
}

fn withdrawal(client: u16, tx: u32, units: i128) -> Transaction {
    record(TransactionType::Withdrawal, client, tx, Some(units))
}

fn dispute(client: u16, tx: u32) -> Transaction {
    record(TransactionType::Dispute, client, tx, None)
}

fn resolve(client: u16, tx: u32) -> Transaction {
    record(TransactionType::Resolve, client, tx, None)
}

fn chargeback(client: u16, tx: u32) -> Transaction {
    record(TransactionType::Chargeback, client, tx, None)
}

fn run(txs: Vec<Transaction>) -> (ClientPool, TransactionTree, Vec<Result<(), ProcessError>>) {
    let mut pool = ClientPool::new();
    let mut tree = TransactionTree::new();
    let results = process_transactions(txs, &mut pool, &mut tree);
    (pool, tree, results)
}

fn balances(pool: &ClientPool, client: u16) -> (i128, i128, i128, bool) {
    let c = pool.get_client(ClientId(client)).expect("client exists");
    (c.available.units, c.held.units, c.total.units, c.locked)
}

#[test]
fn scenario_client_one() {
    let (pool, _, results) = run(vec![
        deposit(1, 1, 100000),
        withdrawal(1, 2, 50000),
        withdrawal(1, 3, 1000000),
        dispute(1, 2),
    ]);
    assert_eq!(
        results,
        vec![Ok(()), Ok(()), Err(ProcessError::InsufficientAvailable), Ok(())]
    );
    assert_eq!(balances(&pool, 1), (50000, 0, 50000, false));
}

#[test]
fn scenario_client_two() {
    let (pool, tree, results) = run(vec![
        deposit(2, 4, 200000),
        dispute(2, 4),
        chargeback(2, 4),
        deposit(2, 5, 50000),
    ]);
    assert_eq!(results, vec![Ok(()), Ok(()), Ok(()), Err(ProcessError::ClientLocked)]);
    assert_eq!(balances(&pool, 2), (0, 0, 0, true));
    assert!(!tree.contains(&TransactionId(5)));
    assert!(!tree.get(&TransactionId(4)).unwrap().in_dispute);
}

#[test]
fn dispute_moves_funds_to_held() {
    let (pool, tree, _) = run(vec![deposit(2, 4, 200000), dispute(2, 4)]);
    assert_eq!(balances(&pool, 2), (0, 200000, 200000, false));
    assert!(tree.get(&TransactionId(4)).unwrap().in_dispute);
}

#[test]
fn duplicate_deposit_is_ignored() {
    let (pool, tree, results) = run(vec![deposit(1, 1, 100000), deposit(1, 1, 70000)]);
    assert_eq!(results, vec![Ok(()), Err(ProcessError::DuplicateTransaction)]);
    assert_eq!(balances(&pool, 1), (100000, 0, 100000, false));
    assert_eq!(tree.get(&TransactionId(1)).unwrap().amount, Some(Amount::from_units(100000)));
}

#[test]
fn duplicate_withdrawal_is_ignored() {
    let (pool, _, results) = run(vec![
        deposit(1, 1, 100000),
        withdrawal(1, 2, 10000),
        withdrawal(1, 2, 10000),
    ]);
    assert_eq!(results[2], Err(ProcessError::DuplicateTransaction));
    assert_eq!(balances(&pool, 1), (90000, 0, 90000, false));
}

#[test]
fn overdraft_leaves_balances_unchanged() {
    let (pool, tree, results) = run(vec![deposit(3, 1, 5), withdrawal(3, 2, 6)]);
    assert_eq!(results[1], Err(ProcessError::InsufficientAvailable));
    assert_eq!(balances(&pool, 3), (5, 0, 5, false));
    assert!(!tree.contains(&TransactionId(2)));
}

#[test]
fn withdrawal_of_whole_balance_succeeds() {
    let (pool, _, results) = run(vec![deposit(3, 1, 12345), withdrawal(3, 2, 12345)]);
    assert_eq!(results, vec![Ok(()), Ok(())]);
    assert_eq!(balances(&pool, 3), (0, 0, 0, false));
}

#[test]
fn withdrawal_creates_unseen_client_but_fails() {
    let (pool, tree, results) = run(vec![withdrawal(9, 1, 10)]);
    assert_eq!(results, vec![Err(ProcessError::InsufficientAvailable)]);
    assert_eq!(balances(&pool, 9), (0, 0, 0, false));
    assert!(!tree.contains(&TransactionId(1)));
}

#[test]
fn dispute_then_resolve_restores_balances() {
    let (pool, tree, results) = run(vec![
        deposit(1, 1, 30000),
        deposit(1, 2, 20000),
        dispute(1, 1),
        resolve(1, 1),
    ]);
    assert_eq!(results, vec![Ok(()), Ok(()), Ok(()), Ok(())]);
    assert_eq!(balances(&pool, 1), (50000, 0, 50000, false));
    assert!(!tree.get(&TransactionId(1)).unwrap().in_dispute);
}

#[test]
fn chargeback_removes_amount_and_locks() {
    let (pool, _, results) = run(vec![
        deposit(1, 1, 30000),
        deposit(1, 2, 20000),
        dispute(1, 1),
        chargeback(1, 1),
    ]);
    assert_eq!(results, vec![Ok(()), Ok(()), Ok(()), Ok(())]);
    assert_eq!(balances(&pool, 1), (20000, 0, 20000, true));
}

#[test]
fn locked_account_rejects_every_kind() {
    let (pool, _, results) = run(vec![
        deposit(1, 1, 30000),
        deposit(1, 2, 20000),
        dispute(1, 1),
        chargeback(1, 1),
        deposit(1, 3, 100),
        withdrawal(1, 4, 100),
        dispute(1, 2),
        resolve(1, 2),
        chargeback(1, 2),
    ]);
    for r in &results[4..] {
        assert_eq!(*r, Err(ProcessError::ClientLocked));
    }
    assert_eq!(balances(&pool, 1), (20000, 0, 20000, true));
}

#[test]
fn withdrawal_dispute_is_noop() {
    let (pool, tree, results) = run(vec![
        deposit(1, 1, 30000),
        withdrawal(1, 2, 10000),
        dispute(1, 2),
        resolve(1, 2),
        chargeback(1, 2),
    ]);
    assert_eq!(results, vec![Ok(()), Ok(()), Ok(()), Ok(()), Ok(())]);
    assert_eq!(balances(&pool, 1), (20000, 0, 20000, false));
    assert!(!tree.get(&TransactionId(2)).unwrap().in_dispute);
}

#[test]
fn dispute_of_unknown_client() {
    let (_, _, results) = run(vec![deposit(1, 1, 100), dispute(2, 1)]);
    assert_eq!(results[1], Err(ProcessError::UnknownClient));
}

#[test]
fn dispute_of_unknown_transaction() {
    let (_, _, results) = run(vec![deposit(1, 1, 100), dispute(1, 7)]);
    assert_eq!(results[1], Err(ProcessError::TransactionNotFound));
}

#[test]
fn deposit_without_amount() {
    let (pool, _, results) = run(vec![record(TransactionType::Deposit, 4, 1, None)]);
    assert_eq!(results, vec![Err(ProcessError::MissingAmount)]);
    assert_eq!(balances(&pool, 4), (0, 0, 0, false));
}

#[test]
fn negative_deposit_is_rejected() {
    let (pool, _, results) = run(vec![deposit(4, 1, -10)]);
    assert_eq!(results, vec![Err(ProcessError::NegativeAmount)]);
    assert_eq!(balances(&pool, 4), (0, 0, 0, false));
}

#[test]
fn negative_withdrawal_is_rejected() {
    let (_, _, results) = run(vec![deposit(4, 1, 10), withdrawal(4, 2, -10)]);
    assert_eq!(results[1], Err(ProcessError::NegativeAmount));
}

#[test]
fn dispute_needs_available_funds() {
    let (pool, _, results) = run(vec![deposit(5, 1, 100), withdrawal(5, 2, 60), dispute(5, 1)]);
    assert_eq!(results[2], Err(ProcessError::InsufficientAvailable));
    assert_eq!(balances(&pool, 5), (40, 0, 40, false));
}

#[test]
fn resolve_without_dispute() {
    let (pool, _, results) = run(vec![deposit(5, 1, 100), deposit(5, 2, 100), dispute(5, 2), resolve(5, 1)]);
    assert_eq!(results[3], Err(ProcessError::NotInDispute));
    assert_eq!(balances(&pool, 5), (100, 100, 200, false));
}

#[test]
fn chargeback_without_dispute() {
    let (_, _, results) = run(vec![deposit(5, 1, 100), deposit(5, 2, 100), dispute(5, 2), chargeback(5, 1)]);
    assert_eq!(results[3], Err(ProcessError::NotInDispute));
}

#[test]
fn resolve_needs_held_funds() {
    let (_, _, results) = run(vec![deposit(5, 1, 100), resolve(5, 1)]);
    assert_eq!(results[1], Err(ProcessError::InsufficientHeld));
    let mut pool = ClientPool::new();
    let mut tree = TransactionTree::new();
    pool.add_client(Client::new(ClientId(6)));
    let mut stored = deposit(6, 1, 100);
    stored.in_dispute = true;
    tree.insert(stored);
    let results = process_transactions(vec![resolve(6, 1), chargeback(6, 1)], &mut pool, &mut tree);
    assert_eq!(results, vec![Err(ProcessError::InsufficientHeld), Err(ProcessError::InsufficientHeld)]);
}

#[test]
fn deposit_past_decimal_range_is_rolled_back() {
    let max = tps::amount::MAX_UNITS;
    let (pool, tree, results) = run(vec![deposit(7, 1, max), deposit(7, 2, 1)]);
    assert_eq!(results, vec![Ok(()), Err(ProcessError::InvariantViolation)]);
    assert_eq!(balances(&pool, 7), (max, 0, max, false));
    assert!(!tree.contains(&TransactionId(2)));
}

#[test]
fn validity_check() {
    let id = ClientId(1);
    let ok = Client::new_with_values(id, Amount::from_units(3), Amount::from_units(2), Amount::from_units(5), false);
    let unbalanced = Client::new_with_values(id, Amount::from_units(3), Amount::from_units(2), Amount::from_units(6), false);
    let negative = Client::new_with_values(id, Amount::from_units(-1), Amount::from_units(2), Amount::from_units(1), false);
    assert!(ok.check_client_validity());
    assert!(!unbalanced.check_client_validity());
    assert!(!negative.check_client_validity());
    assert!(Client::new(id).check_client_validity());
}

#[test]
fn pool_lookup() {
    let mut pool = ClientPool::new();
    assert!(!pool.has_client(&ClientId(3)));
    pool.add_client(Client::new(ClientId(3)));
    assert!(pool.has_client(&ClientId(3)));
    assert!(pool.get_client(ClientId(4)).is_none());
}

#[test]
fn report_in_ascending_client_order() {
    let (pool, _, _) = run(vec![
        deposit(2, 4, 200000),
        deposit(1, 1, 100000),
        withdrawal(1, 2, 50000),
        dispute(2, 4),
        chargeback(2, 4),
        deposit(65535, 9, 15),
    ]);
    assert_eq!(
        pool.format_for_print(),
        "client, available, held, total, locked\n\
         1, 5.0000, 0.0000, 5.0000, false\n\
         2, 0.0000, 0.0000, 0.0000, true\n\
         65535, 0.0015, 0.0000, 0.0015, false\n"
    );
}

#[test]
fn empty_report_has_header_only() {
    assert_eq!(ClientPool::new().format_for_print(), "client, available, held, total, locked\n");
}

#[test]
fn amount_text_has_four_places() {
    assert_eq!(Amount::from_units(123456).to_text(), "12.3456");
    assert_eq!(Amount::from_units(0).to_text(), "0.0000");
    assert_eq!(Amount::from_units(-5).to_text(), "-0.0005");
    assert_eq!(ClientId(0).to_text(), "0");
    assert_eq!(ClientId(407).to_text(), "407");
}

#[test]
fn default_stores_are_empty() {
    let pool = ClientPool::default();
    let tree = TransactionTree::default();
    assert!(!pool.has_client(&ClientId(0)));
    assert!(!tree.contains(&TransactionId(0)));
}

#[test]
fn row_layout_joins_columns() {
    assert_eq!(format_row("7", "1.5000", "0.0000", "1.5000", false), "7, 1.5000, 0.0000, 1.5000, false\n");
    assert_eq!(format_row("8", "a", "b", "c", true), "8, a, b, c, true\n");
}
