use csv_parser::{
    parse_record, render_report, split, AccountRegistry, ClientAccount, Error, Transaction,
    TransactionHashmapDB, TransactionType,
};

fn deposit(client: u16, tx: u32, amount: i64) -> Transaction {
    Transaction::new(TransactionType::Deposit, client, tx, Some(amount))
}

fn withdrawal(client: u16, tx: u32, amount: i64) -> Transaction {
    Transaction::new(TransactionType::Withdrawal, client, tx, Some(amount))
}

fn refer(kind: TransactionType, client: u16, tx: u32) -> Transaction {
    Transaction::new(kind, client, tx, None)
}

#[test]
fn scenario_single_deposit() {
    let mut reg = AccountRegistry::new();
    reg.process(&deposit(1, 1, 23000)).unwrap();
    let infos = reg.snapshot();
    assert_eq!(infos.len(), 1);
    assert_eq!(infos[0].client, 1);
    assert_eq!(infos[0].available, 23000);
    assert_eq!(infos[0].held, 0);
    assert_eq!(infos[0].total, 23000);
    assert!(!infos[0].is_locked);
}

#[test]
fn scenario_withdrawal_and_shortfall() {
    let mut reg = AccountRegistry::new();
    reg.process(&deposit(1, 1, 23000)).unwrap();
    reg.process(&withdrawal(1, 2, 10000)).unwrap();
    let infos = reg.snapshot();
    assert_eq!(infos[0].available, 13000);
    assert_eq!(infos[0].total, 13000);

    let r = reg.process(&withdrawal(1, 3, 50000));
    assert!(matches!(r, Err(Error::NoSufficientFunds { .. })));
    let infos = reg.snapshot();
    assert_eq!(infos[0].available, 13000);
    assert_eq!(infos[0].held, 0);
    assert_eq!(infos[0].total, 13000);
}

#[test]
fn scenario_dispute_then_resolve_restores_and_redisputes() {
    let mut reg = AccountRegistry::new();
    reg.process(&deposit(1, 1, 23000)).unwrap();
    reg.process(&refer(TransactionType::Dispute, 1, 1)).unwrap();
    let infos = reg.snapshot();
    assert_eq!(infos[0].available, 0);
    assert_eq!(infos[0].held, 23000);
    assert_eq!(infos[0].total, 23000);

    reg.process(&refer(TransactionType::Resolve, 1, 1)).unwrap();
    let infos = reg.snapshot();
    assert_eq!(infos[0].available, 23000);
    assert_eq!(infos[0].held, 0);
    assert_eq!(infos[0].total, 23000);

    // The entry is back in the ledger: a second dispute succeeds.
    reg.process(&refer(TransactionType::Dispute, 1, 1)).unwrap();
    let infos = reg.snapshot();
    assert_eq!(infos[0].held, 23000);
}

#[test]
fn scenario_chargeback_locks_account() {
    let mut reg = AccountRegistry::new();
    reg.process(&deposit(1, 1, 23000)).unwrap();
    reg.process(&refer(TransactionType::Dispute, 1, 1)).unwrap();
    reg.process(&refer(TransactionType::Chargeback, 1, 1)).unwrap();
    let infos = reg.snapshot();
    assert_eq!(infos[0].available, 0);
    assert_eq!(infos[0].held, 0);
    assert_eq!(infos[0].total, 0);
    assert!(infos[0].is_locked);

    // Any further transaction for this client fails.
    let r = reg.process(&deposit(1, 2, 100));
    assert!(matches!(r, Err(Error::AccountLocked { client: 1 })));
    let r = reg.process(&refer(TransactionType::Dispute, 1, 1));
    assert!(matches!(r, Err(Error::AccountLocked { client: 1 })));
    let infos = reg.snapshot();
    assert_eq!(infos[0].total, 0);
    assert!(infos[0].is_locked);
}

#[test]
fn scenario_disputed_withdrawal_returns_funds() {
    let mut reg = AccountRegistry::new();
    reg.process(&deposit(1, 1, 100000)).unwrap();
    reg.process(&withdrawal(1, 2, 23000)).unwrap();
    let infos = reg.snapshot();
    assert_eq!(infos[0].available, 77000);

    reg.process(&refer(TransactionType::Dispute, 1, 2)).unwrap();
    let infos = reg.snapshot();
    assert_eq!(infos[0].available, 100000);
    assert_eq!(infos[0].held, -23000);
    assert_eq!(infos[0].total, 77000);
}

#[test]
fn scenario_dispute_of_unknown_id_fails() {
    let mut reg = AccountRegistry::new();
    reg.process(&deposit(1, 1, 23000)).unwrap();
    let r = reg.process(&refer(TransactionType::Dispute, 1, 99));
    assert!(matches!(r, Err(Error::NotFoundTransaction { client: 1, tx: 99 })));
    let infos = reg.snapshot();
    assert_eq!(infos[0].available, 23000);
    assert_eq!(infos[0].held, 0);
    assert_eq!(infos[0].total, 23000);
}

#[test]
fn second_dispute_while_disputed_fails() {
    let mut reg = AccountRegistry::new();
    reg.process(&deposit(1, 1, 23000)).unwrap();
    reg.process(&refer(TransactionType::Dispute, 1, 1)).unwrap();
    let r = reg.process(&refer(TransactionType::Dispute, 1, 1));
    assert!(matches!(r, Err(Error::NotFoundTransaction { client: 1, tx: 1 })));
}

#[test]
fn cross_account_dispute_is_refused() {
    // Client 2 disputes an id that belongs to client 1: the entry is
    // not theirs, so the dispute fails and nothing changes.
    let mut account = ClientAccount::new(2);
    let mut db = TransactionHashmapDB::new();
    let mut owner = ClientAccount::new(1);
    owner.process_transaction(&mut db, &deposit(1, 5, 23000)).unwrap();
    let r = account.process_transaction(&mut db, &refer(TransactionType::Dispute, 2, 5));
    assert!(matches!(r, Err(Error::NotFoundTransaction { client: 2, tx: 5 })));
    assert_eq!(account.info.available, 0);
    assert_eq!(account.info.held, 0);
    // The ledger entry is still there for its owner.
    assert!(db.pop_transaction(&5).is_some());
}

#[test]
fn wrong_account_and_missing_amount_are_refused() {
    let mut account = ClientAccount::new(1);
    let mut db = TransactionHashmapDB::new();
    let r = account.process_transaction(&mut db, &deposit(2, 1, 23000));
    assert!(matches!(r, Err(Error::WrongAccount)));
    let r = account.process_transaction(
        &mut db,
        &Transaction::new(TransactionType::Deposit, 1, 1, None),
    );
    assert!(matches!(r, Err(Error::InvalidTransaction { .. })));
}

#[test]
fn deposit_overflow_is_refused() {
    let mut account = ClientAccount::new(1);
    let mut db = TransactionHashmapDB::new();
    account.process_transaction(&mut db, &deposit(1, 1, i64::MAX)).unwrap();
    let r = account.process_transaction(&mut db, &deposit(1, 2, 1));
    assert!(matches!(r, Err(Error::AmountOverflow { client: 1, tx: 2 })));
    assert_eq!(account.info.available, i64::MAX);
    assert_eq!(account.info.total, i64::MAX);
}

#[test]
fn duplicate_id_last_write_wins() {
    // Ids are expected unique; a reused id is not validated against,
    // and the later entry overwrites the earlier one in the ledger.
    let mut account = ClientAccount::new(1);
    let mut db = TransactionHashmapDB::new();
    account.process_transaction(&mut db, &deposit(1, 1, 10000)).unwrap();
    account.process_transaction(&mut db, &deposit(1, 1, 30000)).unwrap();
    account
        .process_transaction(&mut db, &refer(TransactionType::Dispute, 1, 1))
        .unwrap();
    assert_eq!(account.dispute_transactions.get(&1), Some(&30000));
    assert_eq!(account.info.held, 30000);
    assert_eq!(account.info.available, 10000);
    assert_eq!(account.info.total, 40000);
}

#[test]
fn full_pipeline_from_rows_to_report() {
    let input = "type, client, tx, amount\n\
                 deposit, 1, 1, 1.0\n\
                 deposit, 2, 2, 2.0\n\
                 deposit, 1, 3, 2.0\n\
                 withdrawal, 1, 4, 1.5\n\
                 dispute, 1, 1\n\
                 resolve, 1, 1\n\
                 dispute, 2, 2\n\
                 chargeback, 2, 2\n";
    let mut reg = AccountRegistry::new();
    let lines = split(input.as_bytes(), 10);
    for (i, line) in lines.iter().enumerate() {
        if i == 0 || line.is_empty() {
            continue;
        }
        let t = parse_record(line).unwrap();
        let _ = reg.process(&t);
    }
    let report = render_report(&reg.snapshot());
    assert_eq!(
        report,
        "client,available,held,total,locked\n1,1.5,0.0,1.5,false\n2,0.0,0.0,0.0,true\n"
            .as_bytes()
    );
}
