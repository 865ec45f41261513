use payengine::accounts::TransactionKind::{Chargeback, Deposit, Dispute, Resolve, Withdrawal};
use payengine::accounts::{ClientsDatabase, Transaction, TransactionKind};
use payengine::amount::Amount;
use payengine::parser::Row;
use payengine::Error;

fn amount(v: &str) -> Amount {
    Amount::parse(v.as_bytes()).unwrap()
}

fn tx(kind: TransactionKind, id: u32, v: &str) -> Transaction {
    Transaction { kind, id, amount: amount(v) }
}

fn snapshot(db: &ClientsDatabase) -> Vec<(u16, String, String, String, bool)> {
    let mut lines: Vec<_> = db
        .iter()
        .into_iter()
        .map(|(client, account)| {
            (
                client,
                account.available_for_withdrawal().to_string(),
                account.held().to_string(),
                account.total().to_string(),
                account.is_frozen(),
            )
        })
        .collect();
    lines.sort();
    lines
}

fn line(client: u16, available: &str, held: &str, total: &str, locked: bool) -> (u16, String, String, String, bool) {
    (client, available.to_string(), held.to_string(), total.to_string(), locked)
}

#[test]
fn new_registry_has_no_account() {
    let db = ClientsDatabase::default();
    assert!(db.iter().is_empty());
}

#[test]
fn unknown_client_gets_an_account_by_a_deposit_only() {
    let mut db = ClientsDatabase::default();
    for t in [
        tx(Withdrawal, 1, "1"),
        tx(Withdrawal, 1, "0"),
        tx(Dispute, 1, "0"),
        tx(Resolve, 1, "0"),
        tx(Chargeback, 1, "0"),
    ] {
        assert_eq!(db.process_transaction(9, t), Err(Error::AccountNotFound));
        assert!(db.iter().is_empty());
    }
    db.process_transaction(9, tx(Deposit, 1, "2.5")).unwrap();
    assert_eq!(snapshot(&db), vec![line(9, "2.5", "0", "2.5", false)]);
    // Other clients are still unknown.
    assert_eq!(db.process_transaction(8, tx(Dispute, 1, "0")), Err(Error::AccountNotFound));
    assert_eq!(snapshot(&db), vec![line(9, "2.5", "0", "2.5", false)]);
}

#[test]
fn end_to_end_scenario() {
    let mut db = ClientsDatabase::default();
    db.process_transaction(1, tx(Deposit, 1, "10.5")).unwrap();
    assert_eq!(snapshot(&db), vec![line(1, "10.5", "0", "10.5", false)]);
    db.process_transaction(1, tx(Deposit, 2, "3")).unwrap();
    assert_eq!(snapshot(&db), vec![line(1, "13.5", "0", "13.5", false)]);
    db.process_transaction(1, tx(Withdrawal, 3, "2")).unwrap();
    assert_eq!(snapshot(&db), vec![line(1, "11.5", "0", "11.5", false)]);
    db.process_transaction(1, tx(Dispute, 2, "0")).unwrap();
    assert_eq!(snapshot(&db), vec![line(1, "8.5", "3", "11.5", false)]);
    db.process_transaction(1, tx(Resolve, 2, "0")).unwrap();
    assert_eq!(snapshot(&db), vec![line(1, "11.5", "0", "11.5", false)]);
    db.process_transaction(1, tx(Dispute, 2, "0")).unwrap();
    assert_eq!(snapshot(&db), vec![line(1, "8.5", "3", "11.5", false)]);
    db.process_transaction(1, tx(Chargeback, 2, "0")).unwrap();
    assert_eq!(snapshot(&db), vec![line(1, "0", "0", "8.5", true)]);
}

#[test]
fn clients_do_not_touch_each_other() {
    let mut db = ClientsDatabase::default();
    db.process_transaction(1, tx(Deposit, 1, "5")).unwrap();
    db.process_transaction(2, tx(Deposit, 1, "7")).unwrap();
    db.process_transaction(3, tx(Deposit, 2, "9")).unwrap();
    // The same transaction id in another account is another deposit.
    db.process_transaction(2, tx(Dispute, 1, "0")).unwrap();
    assert_eq!(db.process_transaction(1, tx(Dispute, 2, "0")), Err(Error::TransactionNotFound));
    db.process_transaction(2, tx(Chargeback, 1, "0")).unwrap();
    assert_eq!(db.process_transaction(2, tx(Deposit, 5, "1")), Err(Error::AccountFrozen));
    db.process_transaction(1, tx(Withdrawal, 6, "1.5")).unwrap();
    assert_eq!(
        snapshot(&db),
        vec![
            line(1, "3.5", "0", "3.5", false),
            line(2, "0", "0", "0", true),
            line(3, "9", "0", "9", false),
        ]
    );
}

#[test]
fn iter_lists_each_client_once() {
    let mut db = ClientsDatabase::default();
    for client in 0..300u16 {
        db.process_transaction(client, tx(Deposit, 1, "1")).unwrap();
        db.process_transaction(client, tx(Deposit, 2, "1")).unwrap();
    }
    let mut clients: Vec<u16> = db.iter().into_iter().map(|(client, _)| client).collect();
    clients.sort();
    assert_eq!(clients, (0..300u16).collect::<Vec<_>>());
    for (_, account) in db.iter() {
        assert_eq!(account.total(), amount("2"));
    }
}

#[test]
fn failed_transaction_leaves_the_registry_alone() {
    let mut db = ClientsDatabase::default();
    db.process_transaction(1, tx(Deposit, 1, "5")).unwrap();
    assert_eq!(db.process_transaction(1, tx(Deposit, 1, "5")), Err(Error::DuplicateTransactionId));
    assert_eq!(db.process_transaction(1, tx(Withdrawal, 2, "6")), Err(Error::WithdrawOverflow));
    assert_eq!(db.process_transaction(1, tx(Resolve, 1, "0")), Err(Error::ResolveNotDisputed));
    assert_eq!(snapshot(&db), vec![line(1, "5", "0", "5", false)]);
}

#[test]
fn rows_drive_the_registry() {
    let input = "deposit, 1, 1, 1.0\n\
                 deposit, 2, 2, 2.0\n\
                 deposit, 1, 3, 2.0\n\
                 withdrawal, 1, 4, 1.5\n\
                 withdrawal, 2, 5, 3.0\n\
                 bogus, 2, 6, 3.0\n\
                 dispute, 2, 2,\n\
                 chargeback, 2, 2,\n";
    let mut db = ClientsDatabase::default();
    let mut refused = Vec::new();
    for text in input.split_inclusive('\n') {
        let outcome = Row::parse(text.as_bytes())
            .and_then(|row| db.process_transaction(row.client_id, row.transaction));
        if let Err(e) = outcome {
            refused.push(e);
        }
    }
    assert_eq!(refused, vec![Error::WithdrawOverflow, Error::CsvUnknownTransactionType]);
    assert_eq!(
        snapshot(&db),
        vec![line(1, "1.5", "0", "1.5", false), line(2, "0", "0", "0", true)]
    );
}
