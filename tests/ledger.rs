use ledger::input_parser::InputParser;
use ledger::report::format_amount;
use ledger::transaction::{Transaction, TransactionType};
use ledger::transaction_engine::{
    Client, LedgerError, Outcome, Rejection, TransactionEngine, Warning,
};

fn tr(kind: TransactionType, client: u16, tx: u32, amount: Option<u64>) -> Transaction {
    Transaction::new(kind, client, tx, amount).unwrap()
}

fn deposit(client: u16, tx: u32, amount: u64) -> Transaction {
    tr(TransactionType::Deposit, client, tx, Some(amount))
}

fn withdrawal(client: u16, tx: u32, amount: u64) -> Transaction {
    tr(TransactionType::Withdrawal, client, tx, Some(amount))
}

fn dispute(client: u16, tx: u32) -> Transaction {
    tr(TransactionType::Dispute, client, tx, None)
}

fn resolve(client: u16, tx: u32) -> Transaction {
    tr(TransactionType::Resolve, client, tx, None)
}

fn chargeback(client: u16, tx: u32) -> Transaction {
    tr(TransactionType::Chargeback, client, tx, None)
}

fn account(client: u16, available: i64, held: i64, total: i64, locked: bool) -> Client {
    Client { client, available, held, total, locked }
}

fn engine_after(ts: &[Transaction]) -> (TransactionEngine, Vec<Rejection>) {
    let mut engine = TransactionEngine::new();
    let skipped = engine.process(ts).unwrap();
    (engine, skipped)
}

fn assert_balanced(engine: &TransactionEngine) {
    for c in engine.snapshot() {
        assert_eq!(c.total, c.available + c.held);
    }
}

#[test]
fn scenario_a_rejects_overdraft() {
    let text = "type,client,tx,amount\ndeposit,1,1,1.0\ndeposit,2,2,2.0\ndeposit,1,3,2.0\nwithdrawal,1,4,1.5\nwithdrawal,2,5,3.0\n";
    let ts = InputParser::new().parse_transactions(text.as_bytes()).unwrap();
    let (engine, skipped) = engine_after(&ts);
    assert_eq!(engine.client(1), Some(account(1, 15000, 0, 15000, false)));
    assert_eq!(engine.client(2), Some(account(2, 20000, 0, 20000, false)));
    assert_eq!(
        skipped,
        vec![Rejection { client: 2, tx: 5, reason: Warning::InsufficientFunds }]
    );
}

#[test]
fn scenario_b_chargeback_after_resolve_is_skipped() {
    let ts = [
        deposit(1, 1, 10000),
        withdrawal(1, 2, 10000),
        dispute(1, 1),
        resolve(1, 1),
    ];
    let (engine, _) = engine_after(&ts[..2]);
    let before = engine.client(1);
    let (engine, _) = engine_after(&ts);
    assert_eq!(engine.client(1), before);
    let mut all = ts.to_vec();
    all.push(chargeback(1, 1));
    let (engine, skipped) = engine_after(&all);
    assert_eq!(engine.client(1), Some(account(1, 0, 0, 0, false)));
    assert_eq!(
        skipped,
        vec![Rejection { client: 1, tx: 1, reason: Warning::InvalidDisputeState }]
    );
}

#[test]
fn scenario_c_chargeback_locks() {
    let ts = [deposit(1, 1, 100000), dispute(1, 1), chargeback(1, 1), deposit(1, 2, 50000)];
    let (engine, skipped) = engine_after(&ts);
    assert_eq!(engine.client(1), Some(account(1, 0, 0, 0, true)));
    assert_eq!(skipped, vec![Rejection { client: 1, tx: 2, reason: Warning::AccountLocked }]);
}

#[test]
fn dispute_moves_funds_to_held() {
    let (engine, _) = engine_after(&[deposit(1, 1, 30000), dispute(1, 1)]);
    assert_eq!(engine.client(1), Some(account(1, 0, 30000, 30000, false)));
}

#[test]
fn dispute_of_withdrawal() {
    let ts = [deposit(2, 1, 100000), withdrawal(2, 2, 20000), dispute(2, 2)];
    let (engine, _) = engine_after(&ts);
    assert_eq!(engine.client(2), Some(account(2, 100000, -20000, 80000, false)));
    let mut more = ts.to_vec();
    more.push(chargeback(2, 2));
    let (engine, _) = engine_after(&more);
    assert_eq!(engine.client(2), Some(account(2, 100000, 0, 100000, true)));
}

#[test]
fn locked_account_still_settles_earlier_disputes() {
    let ts = [
        deposit(1, 1, 10000),
        deposit(1, 2, 20000),
        dispute(1, 1),
        dispute(1, 2),
        chargeback(1, 1),
        resolve(1, 2),
        withdrawal(1, 3, 10000),
    ];
    let (engine, skipped) = engine_after(&ts);
    assert_eq!(engine.client(1), Some(account(1, 20000, 0, 20000, true)));
    assert_eq!(skipped, vec![Rejection { client: 1, tx: 3, reason: Warning::AccountLocked }]);
}

#[test]
fn resolve_twice_same_as_once() {
    let base = [deposit(1, 1, 10000), dispute(1, 1), resolve(1, 1)];
    let (once, _) = engine_after(&base);
    let mut twice = base.to_vec();
    twice.push(resolve(1, 1));
    let (twice, skipped) = engine_after(&twice);
    assert_eq!(once.snapshot(), twice.snapshot());
    assert_eq!(skipped.len(), 1);
}

#[test]
fn chargeback_twice_same_as_once() {
    let base = [deposit(1, 1, 10000), deposit(1, 2, 5000), dispute(1, 1), chargeback(1, 1)];
    let (once, _) = engine_after(&base);
    let mut twice = base.to_vec();
    twice.push(chargeback(1, 1));
    let (twice, _) = engine_after(&twice);
    assert_eq!(once.snapshot(), twice.snapshot());
    assert_eq!(twice.client(1), Some(account(1, 5000, 0, 5000, true)));
}

#[test]
fn dispute_then_resolve_restores() {
    let (before, _) = engine_after(&[deposit(1, 1, 12345), withdrawal(1, 2, 345)]);
    let mut engine = TransactionEngine::new();
    engine.process(&[deposit(1, 1, 12345), withdrawal(1, 2, 345)]).unwrap();
    assert_eq!(engine.apply(&dispute(1, 1)), Ok(Outcome::Applied));
    assert_eq!(engine.client(1).unwrap().total, before.client(1).unwrap().total);
    assert_eq!(engine.apply(&resolve(1, 1)), Ok(Outcome::Applied));
    assert_eq!(engine.snapshot(), before.snapshot());
}

#[test]
fn unrelated_transactions_commute() {
    let a = [deposit(1, 1, 10000), deposit(2, 2, 20000), dispute(1, 1), withdrawal(2, 3, 5000)];
    let b = [deposit(2, 2, 20000), deposit(1, 1, 10000), withdrawal(2, 3, 5000), dispute(1, 1)];
    let (ea, _) = engine_after(&a);
    let (eb, _) = engine_after(&b);
    assert_eq!(ea.snapshot(), eb.snapshot());
}

#[test]
fn dispute_before_deposit_is_skipped() {
    let (engine, skipped) = engine_after(&[deposit(1, 5, 10000), dispute(1, 7), deposit(1, 7, 1)]);
    assert_eq!(engine.client(1), Some(account(1, 10001, 0, 10001, false)));
    assert_eq!(
        skipped,
        vec![Rejection { client: 1, tx: 7, reason: Warning::UnknownReference }]
    );
}

#[test]
fn balances_stay_consistent() {
    let ts = [
        deposit(1, 1, 10000),
        deposit(2, 2, 20000),
        withdrawal(1, 3, 2500),
        dispute(1, 1),
        dispute(2, 2),
        resolve(2, 2),
        chargeback(1, 1),
        deposit(3, 4, 1),
        withdrawal(2, 5, 30000),
    ];
    let mut engine = TransactionEngine::new();
    for t in ts.iter() {
        engine.apply(t).unwrap();
        assert_balanced(&engine);
    }
}

#[test]
fn fatal_errors() {
    let mut engine = TransactionEngine::new();
    assert_eq!(
        engine.process(&[deposit(1, 1, 1), deposit(2, 1, 1)]),
        Err(LedgerError::DuplicateReference { tx: 1 })
    );
    assert_eq!(engine.client(1), Some(account(1, 1, 0, 1, false)));
    assert_eq!(engine.client(2), None);
    let mut engine = TransactionEngine::new();
    assert_eq!(
        engine.process(&[withdrawal(3, 1, 1), deposit(3, 2, 1)]),
        Err(LedgerError::UnknownClient { client: 3, tx: 1 })
    );
    assert_eq!(engine.client(3), None);
    let mut engine = TransactionEngine::new();
    let bad = Transaction { kind: TransactionType::Deposit, client: 1, tx: 1, amount: None };
    assert_eq!(engine.apply(&bad), Err(LedgerError::MissingAmount { tx: 1 }));
}

#[test]
fn skip_reasons() {
    let mut engine = TransactionEngine::new();
    assert_eq!(engine.apply(&dispute(9, 1)), Ok(Outcome::Skipped(Warning::UnknownClient)));
    engine.apply(&deposit(1, 1, 100)).unwrap();
    engine.apply(&deposit(2, 2, 100)).unwrap();
    assert_eq!(engine.apply(&dispute(1, 2)), Ok(Outcome::Skipped(Warning::UnknownReference)));
    assert_eq!(engine.apply(&resolve(1, 1)), Ok(Outcome::Skipped(Warning::InvalidDisputeState)));
    assert_eq!(engine.apply(&chargeback(1, 1)), Ok(Outcome::Skipped(Warning::InvalidDisputeState)));
    assert_eq!(
        engine.apply(&withdrawal(1, 3, 101)),
        Ok(Outcome::Skipped(Warning::InsufficientFunds))
    );
    assert_eq!(engine.apply(&dispute(1, 1)), Ok(Outcome::Applied));
    assert_eq!(engine.apply(&dispute(1, 1)), Ok(Outcome::Skipped(Warning::InvalidDisputeState)));
    assert_eq!(engine.apply(&deposit(5, 10, u64::MAX)), Ok(Outcome::Skipped(Warning::Overflow)));
    assert_eq!(engine.client(5), None);
}

#[test]
fn snapshot_is_sorted_by_client() {
    let (engine, _) = engine_after(&[deposit(7, 1, 1), deposit(65535, 2, 2), deposit(0, 3, 3), deposit(3, 4, 4)]);
    let ids: Vec<u16> = engine.snapshot().iter().map(|c| c.client).collect();
    assert_eq!(ids, vec![0, 3, 7, 65535]);
    assert_eq!(TransactionEngine::new().snapshot(), vec![]);
}

#[test]
fn report_rows() {
    let (engine, _) = engine_after(&[deposit(2, 1, 15000), deposit(1, 2, 10000), withdrawal(1, 3, 10000), deposit(3, 4, 1), dispute(3, 4)]);
    let text = String::from_utf8(engine.report()).unwrap();
    assert_eq!(
        text,
        "client,available,held,total,locked\n1,0.0,0.0,0.0,false\n2,1.5,0.0,1.5,false\n3,0.0,0.0001,0.0001,false\n"
    );
}

#[test]
fn amounts_print_without_rounding() {
    assert_eq!(format_amount(15000), b"1.5".to_vec());
    assert_eq!(format_amount(-10000), b"-1.0".to_vec());
    assert_eq!(format_amount(0), b"0.0".to_vec());
    assert_eq!(format_amount(1234567), b"123.4567".to_vec());
    assert_eq!(format_amount(100), b"0.01".to_vec());
    assert_eq!(format_amount(i64::MIN), b"-922337203685477.5808".to_vec());
    assert_eq!(format_amount(i64::MAX), b"922337203685477.5807".to_vec());
}

#[test]
fn row_of_locked_account() {
    let c = account(42, -20000, 5, -19995, true);
    assert_eq!(c.to_row(), b"42,-2.0,0.0005,-1.9995,true".to_vec());
}
