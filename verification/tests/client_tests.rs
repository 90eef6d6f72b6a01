use csv_parser::{
    ClientAccount, Error, Transaction, TransactionHashmapDB, TransactionType,
};

#[test]
fn test_deposit() {
    let mut account = ClientAccount::new(0);
    let mut db = TransactionHashmapDB::new();
    let amount: i64 = 23000;
    let transaction = Transaction::new(
        TransactionType::Deposit,
        account.info.client,
        0,
        Some(amount),
    );
    account.process_transaction(&mut db, &transaction).unwrap();
    assert_eq!(account.info.available, amount);
    assert_eq!(account.info.held, 0);
    assert_eq!(
        account.info.total,
        account.info.available + account.info.held
    );
}

#[test]
fn test_withdrawal() {
    let mut account = ClientAccount::new(0);
    let mut db = TransactionHashmapDB::new();
    let current_available: i64 = 100000;
    account.info.available = current_available;
    account.info.total = current_available;

    let amount: i64 = 23000;
    let transaction = Transaction::new(
        TransactionType::Withdrawal,
        account.info.client,
        0,
        Some(amount),
    );
    account.process_transaction(&mut db, &transaction).unwrap();
    assert_eq!(account.info.available, current_available - amount);
    assert_eq!(
        account.info.total,
        account.info.available + account.info.held
    );
    assert_eq!(account.info.held, 0);
}

#[test]
fn test_below_zero_deposit_and_withdrawal() {
    let mut account = ClientAccount::new(0);
    let mut db = TransactionHashmapDB::new();

    let amount: i64 = -23000;
    let transaction = Transaction::new(
        TransactionType::Deposit,
        account.info.client,
        0,
        Some(amount),
    );
    let result = account.process_transaction(&mut db, &transaction);
    assert!(matches!(result, Err(Error::InvalidTransaction { .. })))
}

#[test]
fn test_invalid_withdrawal() {
    let mut account = ClientAccount::new(0);
    let mut db = TransactionHashmapDB::new();

    let amount: i64 = 23000;
    let transaction = Transaction::new(
        TransactionType::Withdrawal,
        account.info.client,
        0,
        Some(amount),
    );
    let result = account.process_transaction(&mut db, &transaction);
    assert!(matches!(result, Err(Error::NoSufficientFunds { .. })));
    assert_eq!(account.info.available, 0);
    assert_eq!(account.info.held, 0);
    assert_eq!(
        account.info.total,
        account.info.available + account.info.held
    );
}

#[test]
fn test_dispute_deposit() {
    let mut account = ClientAccount::new(0);
    let mut db = TransactionHashmapDB::new();

    let amount: i64 = 23000;
    let transaction = Transaction::new(
        TransactionType::Deposit,
        account.info.client,
        0,
        Some(amount),
    );
    account.process_transaction(&mut db, &transaction).unwrap();
    assert_eq!(account.info.available, amount);
    assert_eq!(
        account.info.total,
        account.info.available + account.info.held
    );
    assert_eq!(account.info.held, 0);

    let dispute = Transaction::new(TransactionType::Dispute, account.info.client, 0, None);
    account.process_transaction(&mut db, &dispute).unwrap();
    assert_eq!(account.info.available, 0);
    assert_eq!(
        account.info.total,
        account.info.available + account.info.held
    );
    assert_eq!(account.info.held, amount);
    assert!(account.dispute_transactions.len() > 0);
    assert_eq!(account.dispute_transactions.get(&0), Some(&amount));
}

#[test]
fn test_dispute_withdrawal() {
    let mut account = ClientAccount::new(0);
    let mut db = TransactionHashmapDB::new();
    let current_available: i64 = 100000;
    account.info.available = current_available;
    account.info.total = current_available;

    let amount: i64 = 23000;
    let transaction = Transaction::new(
        TransactionType::Withdrawal,
        account.info.client,
        0,
        Some(amount),
    );
    account.process_transaction(&mut db, &transaction).unwrap();
    assert_eq!(account.info.available, current_available - amount);
    assert_eq!(account.info.held, 0);
    assert_eq!(
        account.info.total,
        account.info.available + account.info.held
    );

    let dispute = Transaction::new(TransactionType::Dispute, account.info.client, 0, None);
    account.process_transaction(&mut db, &dispute).unwrap();
    assert_eq!(account.info.available, current_available);
    assert_eq!(
        account.info.total,
        account.info.available + account.info.held
    );
    assert_eq!(account.info.held, -amount);
    assert!(account.dispute_transactions.len() > 0);
    assert_eq!(account.dispute_transactions.get(&0), Some(&-amount));
}

#[test]
fn test_invalid_dispute() {
    let mut account = ClientAccount::new(0);
    let mut db = TransactionHashmapDB::new();

    let transaction = Transaction::new(TransactionType::Dispute, account.info.client, 0, None);

    let result = account.process_transaction(&mut db, &transaction);
    assert!(matches!(result, Err(Error::NotFoundTransaction { .. })))
}

#[test]
fn test_resolve_dispute() {
    let mut account = ClientAccount::new(0);
    let mut db = TransactionHashmapDB::new();

    let amount: i64 = 23000;
    let transaction = Transaction::new(
        TransactionType::Deposit,
        account.info.client,
        0,
        Some(amount),
    );
    account.process_transaction(&mut db, &transaction).unwrap();
    assert_eq!(account.info.available, amount);
    assert_eq!(
        account.info.total,
        account.info.available + account.info.held
    );
    assert_eq!(account.info.held, 0);

    let dispute = Transaction::new(TransactionType::Dispute, account.info.client, 0, None);
    account.process_transaction(&mut db, &dispute).unwrap();
    assert_eq!(account.info.available, 0);
    assert_eq!(
        account.info.total,
        account.info.available + account.info.held
    );
    assert_eq!(account.info.held, amount);
    assert!(account.dispute_transactions.len() > 0);
    assert_eq!(account.dispute_transactions.get(&0), Some(&amount));

    let resolve = Transaction::new(TransactionType::Resolve, account.info.client, 0, None);
    account.process_transaction(&mut db, &resolve).unwrap();
    assert_eq!(account.info.available, amount);
    assert_eq!(
        account.info.total,
        account.info.available + account.info.held
    );
    assert_eq!(account.info.held, 0);
    assert!(account.dispute_transactions.is_empty());
    assert!(db.pop_transaction(&0).is_some());
}

#[test]
fn test_chargeback() {
    let mut account = ClientAccount::new(0);
    let mut db = TransactionHashmapDB::new();

    let amount: i64 = 23000;
    let transaction = Transaction::new(
        TransactionType::Deposit,
        account.info.client,
        0,
        Some(amount),
    );
    account.process_transaction(&mut db, &transaction).unwrap();
    assert_eq!(account.info.available, amount);
    assert_eq!(
        account.info.total,
        account.info.available + account.info.held
    );
    assert_eq!(account.info.held, 0);

    let dispute = Transaction::new(TransactionType::Dispute, account.info.client, 0, None);
    account.process_transaction(&mut db, &dispute).unwrap();
    assert_eq!(account.info.available, 0);
    assert_eq!(
        account.info.total,
        account.info.available + account.info.held
    );
    assert_eq!(account.info.held, amount);
    assert!(account.dispute_transactions.len() > 0);
    assert_eq!(account.dispute_transactions.get(&0), Some(&amount));

    let chargeback = Transaction::new(TransactionType::Chargeback, account.info.client, 0, None);
    account.process_transaction(&mut db, &chargeback).unwrap();
    assert_eq!(account.info.available, 0);
    assert_eq!(
        account.info.total,
        account.info.available + account.info.held
    );
    assert_eq!(account.info.held, 0);
    assert!(account.dispute_transactions.is_empty());
}
